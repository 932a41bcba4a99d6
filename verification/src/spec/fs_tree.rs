//! `--all` mode's tree: every markdown file under a root and the
//! directories leading to them.

use vstd::prelude::*;
use std::path::PathBuf;
use crate::path::{join_path, joined_path};
use crate::text::chars_of;

verus! {

/// One directory or markdown file of an [`FsTree`].
#[derive(Debug, Clone, PartialEq, Eq)]
pub struct FsEntry {
    pub path: PathBuf,
    pub is_dir: bool,
    /// Distance below the root in path components (a direct child is 1).
    pub depth: u8,
}

/// A root and its entries, sorted by path so that each directory comes
/// right before its own subtree.
#[derive(Debug, Clone, PartialEq, Eq)]
pub struct FsTree {
    pub root: PathBuf,
    pub entries: Vec<FsEntry>,
}

/// One entry of a directory walk below a root: its path components
/// relative to the root, and whether it is a directory.
pub struct ListingEntry {
    pub rel: Vec<String>,
    pub is_dir: bool,
}

/// The components of a listing entry as characters.
pub open spec fn rel_of(e: ListingEntry) -> Seq<Seq<char>> {
    e.rel@.map_values(|c: String| c@)
}

/// ASCII lower case of a character.
pub open spec fn ascii_lower(c: char) -> char {
    if 'A' <= c && c <= 'Z' {
        (((c as u8) + 32) as u8) as char
    } else {
        c
    }
}

/// The position of the last `.` in `name` below `i`, if any.
pub open spec fn last_dot(name: Seq<char>, i: int) -> Option<int>
    decreases i,
{
    if i <= 0 {
        None
    } else if name[i - 1] == '.' {
        Some(i - 1)
    } else {
        last_dot(name, i - 1)
    }
}

/// A file name's extension as `Path::extension` finds it: what follows
/// the last `.`, none when there is no `.`, when it is the first
/// character, or for `..`.
pub open spec fn extension_of(name: Seq<char>) -> Option<Seq<char>> {
    if name == ".."@ {
        None
    } else {
        match last_dot(name, name.len() as int) {
            Some(p) => if p == 0 { None } else { Some(name.subrange(p + 1, name.len() as int)) },
            None => None,
        }
    }
}

/// Whether a file name is a markdown file's: extension `md` or
/// `markdown`, in any ASCII case.
pub open spec fn is_markdown_name(name: Seq<char>) -> bool {
    match extension_of(name) {
        Some(ext) => ext.map_values(|c: char| ascii_lower(c)) == "md"@ || ext.map_values(|c: char| ascii_lower(c)) == "markdown"@,
        None => false,
    }
}

/// Whether entry `e` is a markdown file.
pub open spec fn is_md_file(e: ListingEntry) -> bool {
    !e.is_dir && e.rel@.len() > 0 && is_markdown_name(rel_of(e).last())
}

/// Whether entry `e` is kept: a markdown file, or a directory with a
/// markdown file somewhere below it (the root itself is never an entry).
pub open spec fn is_kept(es: Seq<ListingEntry>, e: ListingEntry) -> bool {
    e.rel@.len() > 0 && if e.is_dir {
        exists|f: int| 0 <= f < es.len() && #[trigger] is_md_file(es[f]) && rel_of(e).is_prefix_of(rel_of(es[f]))
    } else {
        is_md_file(e)
    }
}

/// The indices below `n` of the kept entries, ascending.
pub open spec fn kept_indices(es: Seq<ListingEntry>, n: int) -> Seq<usize>
    decreases n,
{
    if n <= 0 {
        Seq::empty()
    } else if is_kept(es, es[n - 1]) {
        kept_indices(es, n - 1).push((n - 1) as usize)
    } else {
        kept_indices(es, n - 1)
    }
}

/// Whether `a` sorts before `b`, character by character.
pub open spec fn chars_before(a: Seq<char>, b: Seq<char>) -> bool
    decreases a.len(),
{
    if a.len() == 0 {
        b.len() > 0
    } else if b.len() == 0 {
        false
    } else if a[0] != b[0] {
        (a[0] as u32) < (b[0] as u32)
    } else {
        chars_before(a.drop_first(), b.drop_first())
    }
}

/// Whether path components `a` sort before `b`, component by component
/// (how paths below one root compare).
pub open spec fn comps_before(a: Seq<Seq<char>>, b: Seq<Seq<char>>) -> bool
    decreases a.len(),
{
    if a.len() == 0 {
        b.len() > 0
    } else if b.len() == 0 {
        false
    } else if a[0] != b[0] {
        chars_before(a[0], b[0])
    } else {
        comps_before(a.drop_first(), b.drop_first())
    }
}

proof fn lemma_chars_before_asym(a: Seq<char>, b: Seq<char>)
    ensures
        chars_before(a, b) ==> !chars_before(b, a),
    decreases a.len(),
{
    if a.len() > 0 && b.len() > 0 && a[0] == b[0] {
        lemma_chars_before_asym(a.drop_first(), b.drop_first());
    }
}

proof fn lemma_comps_before_asym(a: Seq<Seq<char>>, b: Seq<Seq<char>>)
    ensures
        comps_before(a, b) ==> !comps_before(b, a),
    decreases a.len(),
{
    if a.len() > 0 && b.len() > 0 {
        if a[0] == b[0] {
            lemma_comps_before_asym(a.drop_first(), b.drop_first());
        } else {
            lemma_chars_before_asym(a[0], b[0]);
        }
    }
}

/// The root joined with each component in turn.
pub open spec fn join_all(root: PathBuf, comps: Seq<Seq<char>>) -> PathBuf
    decreases comps.len(),
{
    if comps.len() == 0 {
        root
    } else {
        joined_path(join_all(root, comps.drop_last()), comps.last())
    }
}

/// The tree entry of a listing entry: its full path, kind and depth.
pub open spec fn entry_of(root: PathBuf, e: ListingEntry) -> FsEntry {
    FsEntry { path: join_all(root, rel_of(e)), is_dir: e.is_dir, depth: (e.rel@.len() % 256) as u8 }
}

/// Indices whose entries are in path order, neighbour by neighbour.
pub open spec fn in_path_order(es: Seq<ListingEntry>, idx: Seq<usize>) -> bool {
    forall|k: int| 0 <= k < idx.len() - 1 ==> !comps_before(rel_of(es[idx[k + 1] as int]), rel_of(#[trigger] es[idx[k] as int]))
}

fn chars_less(a: &[char], b: &[char]) -> (r: bool)
    ensures
        r == chars_before(a@, b@),
{
    let mut i: usize = 0;
    assert(a@.skip(0) =~= a@ && b@.skip(0) =~= b@);
    while i < a.len() && i < b.len()
        invariant
            i <= a@.len(),
            i <= b@.len(),
            chars_before(a@, b@) == chars_before(a@.skip(i as int), b@.skip(i as int)),
        decreases a.len() - i,
    {
        assert(a@.skip(i as int)[0] == a@[i as int] && b@.skip(i as int)[0] == b@[i as int]);
        if a[i] != b[i] {
            return (a[i] as u32) < (b[i] as u32);
        }
        assert(a@.skip(i as int).drop_first() =~= a@.skip(i + 1));
        assert(b@.skip(i as int).drop_first() =~= b@.skip(i + 1));
        i = i + 1;
    }
    b.len() > i
}

fn comps_less(a: &Vec<String>, b: &Vec<String>) -> (r: bool)
    ensures
        r == comps_before(a@.map_values(|c: String| c@), b@.map_values(|c: String| c@)),
{
    let ghost av = a@.map_values(|c: String| c@);
    let ghost bv = b@.map_values(|c: String| c@);
    let mut i: usize = 0;
    assert(av.skip(0) =~= av && bv.skip(0) =~= bv);
    while i < a.len() && i < b.len()
        invariant
            i <= a@.len(),
            i <= b@.len(),
            av == a@.map_values(|c: String| c@),
            bv == b@.map_values(|c: String| c@),
            comps_before(av, bv) == comps_before(av.skip(i as int), bv.skip(i as int)),
        decreases a.len() - i,
    {
        assert(av.skip(i as int)[0] == a@[i as int]@ && bv.skip(i as int)[0] == b@[i as int]@);
        let x = chars_of(a[i].as_str());
        let y = chars_of(b[i].as_str());
        if !crate::text::eq(x.as_slice(), y.as_slice()) {
            return chars_less(x.as_slice(), y.as_slice());
        }
        assert(av.skip(i as int).drop_first() =~= av.skip(i + 1));
        assert(bv.skip(i as int).drop_first() =~= bv.skip(i + 1));
        i = i + 1;
    }
    b.len() > i
}

/// Whether `ext`, in ASCII lower case, is `target`.
fn lower_is(ext: &[char], target: &str) -> (r: bool)
    ensures
        r == (ext@.map_values(|c: char| ascii_lower(c)) == target@),
{
    let t = chars_of(target);
    if ext.len() != t.len() {
        proof {
            if ext@.map_values(|c: char| ascii_lower(c)) == target@ {
                assert(ext@.map_values(|c: char| ascii_lower(c)).len() == ext@.len());
            }
        }
        return false;
    }
    let mut i: usize = 0;
    while i < ext.len()
        invariant
            i <= ext@.len(),
            ext@.len() == t@.len(),
            t@ == target@,
            forall|k: int| 0 <= k < i ==> ascii_lower(ext@[k]) == t@[k],
        decreases ext.len() - i,
    {
        let c = ext[i];
        let l = if 'A' <= c && c <= 'Z' { ((c as u8) + 32) as char } else { c };
        if l != t[i] {
            proof {
                assert(ext@.map_values(|c: char| ascii_lower(c))[i as int] != target@[i as int]);
            }
            return false;
        }
        i = i + 1;
    }
    assert(ext@.map_values(|c: char| ascii_lower(c)) =~= target@);
    true
}

/// Whether a file name is a markdown file's (see [`is_markdown_name`]).
pub fn is_markdown(name: &str) -> (r: bool)
    ensures
        r == is_markdown_name(name@),
{
    let cs = chars_of(name);
    let dots = chars_of("..");
    if crate::text::eq(cs.as_slice(), dots.as_slice()) {
        return false;
    }
    let mut i: usize = cs.len();
    while i > 0 && cs[i - 1] != '.'
        invariant
            i <= cs@.len(),
            last_dot(cs@, cs@.len() as int) == last_dot(cs@, i as int),
        decreases i,
    {
        i = i - 1;
    }
    if i == 0 {
        return false;
    }
    let p = i - 1;
    assert(last_dot(cs@, cs@.len() as int) == Some(p as int));
    if p == 0 {
        return false;
    }
    let ext = crate::text::slice_vec(cs.as_slice(), p + 1, cs.len());
    lower_is(ext.as_slice(), "md") || lower_is(ext.as_slice(), "markdown")
}

/// Whether components `a` begin components `b`.
fn comps_prefix(a: &Vec<String>, b: &Vec<String>) -> (r: bool)
    ensures
        r == a@.map_values(|c: String| c@).is_prefix_of(b@.map_values(|c: String| c@)),
{
    let ghost av = a@.map_values(|c: String| c@);
    let ghost bv = b@.map_values(|c: String| c@);
    if a.len() > b.len() {
        return false;
    }
    let mut i: usize = 0;
    while i < a.len()
        invariant
            i <= a@.len(),
            a@.len() <= b@.len(),
            av == a@.map_values(|c: String| c@),
            bv == b@.map_values(|c: String| c@),
            forall|k: int| 0 <= k < i ==> av[k] == bv[k],
        decreases a.len() - i,
    {
        if !crate::spec::meta::str_eq(a[i].as_str(), b[i].as_str()) {
            assert(av[i as int] != bv[i as int]);
            return false;
        }
        i = i + 1;
    }
    assert(av =~= bv.subrange(0, av.len() as int));
    true
}

/// The tree of a directory walk below `root`: the markdown files and the
/// directories with a markdown file somewhere below them, in path order,
/// each with its full path and its depth below the root.
#[verifier::loop_isolation(false)]
pub fn fs_tree_of(root: &PathBuf, entries: &Vec<ListingEntry>) -> (r: FsTree)
    ensures
        r.root == *root,
        exists|perm: Seq<usize>|
            #![trigger perm.to_multiset()]
            perm.to_multiset() == kept_indices(entries@, entries@.len() as int).to_multiset()
                && in_path_order(entries@, perm) && r.entries@ == perm.map_values(|i: usize| entry_of(*root, entries@[i as int])),
{
    proof {
        broadcast use vstd::seq_lib::group_to_multiset_ensures;
    }
    let n = entries.len();
    let mut md: Vec<bool> = Vec::new();
    let mut i: usize = 0;
    while i < n
        invariant
            i <= n,
            n == entries@.len(),
            md@.len() == i,
            forall|k: int| 0 <= k < i ==> md@[k] == is_md_file(entries@[k]),
        decreases n - i,
    {
        let e = &entries[i];
        let m = if !e.is_dir && e.rel.len() > 0 {
            is_markdown(e.rel[e.rel.len() - 1].as_str())
        } else {
            false
        };
        proof {
            if !e.is_dir && e.rel@.len() > 0 {
                assert(rel_of(*e).last() == e.rel@[e.rel@.len() - 1]@);
            }
        }
        md.push(m);
        i = i + 1;
    }
    let mut kept: Vec<usize> = Vec::new();
    let mut i: usize = 0;
    while i < n
        invariant
            i <= n,
            n == entries@.len(),
            md@.len() == n,
            forall|k: int| 0 <= k < n ==> md@[k] == is_md_file(entries@[k]),
            kept@ == kept_indices(entries@, i as int),
            forall|k: int| 0 <= k < kept@.len() ==> kept@[k] < n,
        decreases n - i,
    {
        let e = &entries[i];
        let mut keep = false;
        if e.rel.len() > 0 {
            if e.is_dir {
                let mut f: usize = 0;
                while f < n && !keep
                    invariant
                        f <= n,
                        keep == exists|g: int| 0 <= g < f && #[trigger] is_md_file(entries@[g]) && rel_of(*e).is_prefix_of(rel_of(entries@[g])),
                    decreases n - f,
                {
                    if md[f] && comps_prefix(&e.rel, &entries[f].rel) {
                        keep = true;
                    }
                    f = f + 1;
                }
                proof {
                    if keep != is_kept(entries@, *e) {
                        if is_kept(entries@, *e) {
                            let g = choose|g: int| 0 <= g < entries@.len() && #[trigger] is_md_file(entries@[g]) && rel_of(*e).is_prefix_of(rel_of(entries@[g]));
                            assert(g < f);
                        }
                    }
                }
            } else {
                keep = md[i];
            }
        }
        assert(keep == is_kept(entries@, entries@[i as int]));
        if keep {
            kept.push(i);
        }
        i = i + 1;
    }
    let ghost all = kept@;
    let mut sorted: Vec<usize> = Vec::new();
    let mut k: usize = 0;
    assert(all.take(0).to_multiset() =~= sorted@.to_multiset());
    while k < kept.len()
        invariant
            k <= kept@.len(),
            all == kept@,
            forall|q: int| 0 <= q < kept@.len() ==> kept@[q] < n,
            forall|q: int| 0 <= q < sorted@.len() ==> sorted@[q] < n,
            n == entries@.len(),
            sorted@.to_multiset() == all.take(k as int).to_multiset(),
            in_path_order(entries@, sorted@),
        decreases kept.len() - k,
    {
        let x = kept[k];
        let mut j: usize = sorted.len();
        while j > 0 && comps_less(&entries[x].rel, &entries[sorted[j - 1]].rel)
            invariant
                j <= sorted@.len(),
                forall|q: int| 0 <= q < sorted@.len() ==> sorted@[q] < n,
                x < n,
                forall|q: int| j <= q < sorted@.len() ==> comps_before(rel_of(entries@[x as int]), rel_of(#[trigger] entries@[sorted@[q] as int])),
            decreases j,
        {
            j = j - 1;
        }
        let ghost prev = sorted@;
        sorted.insert(j, x);
        proof {
            vstd::seq_lib::to_multiset_insert(prev, j as int, x);
            assert(all.take(k + 1) =~= all.take(k as int).push(x));
            assert forall|q: int| 0 <= q < sorted@.len() implies sorted@[q] < n by {
                if q < j {
                    assert(sorted@[q] == prev[q]);
                } else if q > j {
                    assert(sorted@[q] == prev[q - 1]);
                }
            }
            assert forall|q: int| 0 <= q < sorted@.len() - 1 implies !comps_before(
                rel_of(entries@[sorted@[q + 1] as int]),
                rel_of(#[trigger] entries@[sorted@[q] as int]),
            ) by {
                if q + 1 < j {
                    assert(sorted@[q] == prev[q] && sorted@[q + 1] == prev[q + 1]);
                } else if q + 1 == j {
                    assert(sorted@[q] == prev[q]);
                } else if q == j {
                    assert(sorted@[q + 1] == prev[q]);
                    lemma_comps_before_asym(rel_of(entries@[x as int]), rel_of(entries@[prev[q] as int]));
                } else {
                    assert(sorted@[q] == prev[q - 1] && sorted@[q + 1] == prev[q]);
                }
            }
        }
        k = k + 1;
    }
    assert(all.take(kept@.len() as int) =~= all);
    let mut out: Vec<FsEntry> = Vec::new();
    let mut k: usize = 0;
    while k < sorted.len()
        invariant
            k <= sorted@.len(),
            forall|q: int| 0 <= q < sorted@.len() ==> sorted@[q] < n,
            n == entries@.len(),
            out@ == sorted@.take(k as int).map_values(|i: usize| entry_of(*root, entries@[i as int])),
        decreases sorted.len() - k,
    {
        let e = &entries[sorted[k]];
        let mut p = root.clone();
        let mut c: usize = 0;
        let ghost rv = rel_of(*e);
        assert(rv.take(0) =~= Seq::<Seq<char>>::empty());
        while c < e.rel.len()
            invariant
                c <= e.rel@.len(),
                rv == rel_of(*e),
                p == join_all(*root, rv.take(c as int)),
            decreases e.rel.len() - c,
        {
            let q = join_path(&p, e.rel[c].as_str());
            assert(rv.take(c + 1).drop_last() =~= rv.take(c as int));
            p = q;
            c = c + 1;
        }
        assert(rv.take(e.rel@.len() as int) =~= rv);
        let depth: u8 = (e.rel.len() % 256) as u8;
        out.push(FsEntry { path: p, is_dir: e.is_dir, depth });
        assert(out@ =~= sorted@.take(k + 1).map_values(|i: usize| entry_of(*root, entries@[i as int])));
        k = k + 1;
    }
    assert(sorted@.take(sorted@.len() as int) =~= sorted@);
    FsTree { root: root.clone(), entries: out }
}

/// Which entries of `.kiro` a snapshot reads: a spec directory is a
/// directory whose name does not start with `.`.
pub fn keep_spec_dir(name: &str, is_dir: bool) -> (r: bool)
    ensures
        r == (is_dir && !"."@.is_prefix_of(name@)),
{
    let cs = chars_of(name);
    is_dir && !crate::text::starts_with_str(cs.as_slice(), ".")
}

/// A file of a spec directory: a regular file whose name does not start
/// with `.`.
pub fn keep_spec_file(name: &str, is_file: bool) -> (r: bool)
    ensures
        r == (is_file && !"."@.is_prefix_of(name@)),
{
    let cs = chars_of(name);
    is_file && !crate::text::starts_with_str(cs.as_slice(), ".")
}

/// A steering document: a regular file whose name ends with `.md`.
pub fn keep_steering_file(name: &str, is_file: bool) -> (r: bool)
    ensures
        r == (is_file && name@.len() >= 3 && name@.subrange(name@.len() - 3, name@.len() as int) == ".md"@),
{
    let cs = chars_of(name);
    if !is_file || cs.len() < 3 {
        return false;
    }
    let tail = crate::text::slice_vec(cs.as_slice(), cs.len() - 3, cs.len());
    crate::text::eq_str(tail.as_slice(), ".md")
}

} // verus!
