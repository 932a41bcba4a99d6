//! Case-insensitive plain-text search: over the shown document's lines,
//! and over the tree's node names.

use vstd::prelude::*;
use std::path::PathBuf;
use crate::markdown::Rendered;
use crate::path::{display_path, displayed_path, file_name, file_name_of};
use crate::spec::{DocKind, FsEntry, FsTree, NodeId, SpecRoot, TreeSource};
use crate::text::{chars_of, contains, find_exec};
use super::{no_search, AppState, DocView, Effect, SearchState};

verus! {

/// Result of `str::to_lowercase`.
pub uninterp spec fn lowercase_of(s: Seq<char>) -> Seq<char>;

/// `str::to_lowercase`: the Unicode lowercase mapping of every character.
/// The result depends on the text alone and is named.
#[verifier::external_body]
fn to_lower(s: &str) -> (r: String)
    ensures
        r@ == lowercase_of(s@),
{
    s.to_lowercase()
}

/// Whether `needle` occurs in `line` once `line` is lowercased.
pub open spec fn line_hits(line: Seq<char>, needle: Seq<char>) -> bool {
    contains(lowercase_of(line), needle)
}

/// The indices of the lines holding `needle`, ignoring case, ascending.
pub open spec fn hits(lines: Seq<String>, needle: Seq<char>) -> Seq<usize>
    decreases lines.len(),
{
    if lines.len() == 0 {
        Seq::empty()
    } else {
        let h = hits(lines.drop_last(), needle);
        if line_hits(lines.last()@, needle) {
            h.push((lines.len() - 1) as usize)
        } else {
            h
        }
    }
}

/// The rendered text of a view that has one.
pub open spec fn rendered_view(doc: DocView) -> Option<Rendered> {
    match doc {
        DocView::Rendered { r, .. } => Some(r),
        DocView::Definition { text, .. } => Some(text),
        _ => None,
    }
}

pub fn rendered_of(doc: &DocView) -> (r: Option<&Rendered>)
    ensures
        match rendered_view(*doc) {
            Some(x) => r == Some(&x),
            None => r is None,
        },
{
    match doc {
        DocView::Rendered { r, .. } => Some(r),
        DocView::Definition { text, .. } => Some(text),
        _ => None,
    }
}

/// The state a document search for `query` leaves: the query recorded;
/// the matches of the lowercased query among the shown lines (none for an
/// empty query or a view without lines); the first match current and
/// scrolled to, or nothing current and the scroll kept.
pub open spec fn searched(s: AppState, query: Seq<char>, new: AppState) -> bool {
    let m = if query.len() == 0 || rendered_view(s.doc) is None {
        Seq::<usize>::empty()
    } else {
        hits(rendered_view(s.doc).unwrap().plain@, lowercase_of(query))
    };
    &&& new.search.query@ == query
    &&& new.search.matches@ == m
    &&& new.search.current == (if m.len() == 0 { None } else { Some(0usize) })
    &&& new.scroll == (if m.len() == 0 { s.scroll } else { m[0] })
    &&& new == (AppState { search: new.search, scroll: new.scroll, ..s })
}

fn line_matches(plain: &Vec<String>, needle: &Vec<char>) -> (r: Vec<usize>)
    ensures
        r@ == hits(plain@, needle@),
{
    let mut out: Vec<usize> = Vec::new();
    let mut i: usize = 0;
    while i < plain.len()
        invariant
            i <= plain.len(),
            out@ == hits(plain@.take(i as int), needle@),
        decreases plain.len() - i,
    {
        let low = to_lower(plain[i].as_str());
        let lc = chars_of(low.as_str());
        let found = find_exec(lc.as_slice(), needle.as_slice());
        assert(plain@.take(i + 1).drop_last() =~= plain@.take(i as int));
        if found.is_some() {
            out.push(i);
        }
        i = i + 1;
    }
    assert(plain@.take(plain.len() as int) =~= plain@);
    out
}

/// Searches the shown document for `query`, ignoring case, and jumps to
/// the first matching line.
pub fn search(state: &mut AppState, query: &str)
    ensures
        searched(*old(state), query@, *final(state)),
{
    let ghost s0 = *state;
    let q = chars_of(query);
    let mut qs: Vec<char> = Vec::new();
    let mut k: usize = 0;
    while k < q.len()
        invariant
            k <= q.len(),
            qs@ == q@.take(k as int),
        decreases q.len() - k,
    {
        qs.push(q[k]);
        k = k + 1;
        assert(qs@ =~= q@.take(k as int));
    }
    assert(q@.take(q.len() as int) =~= q@);
    let query_text = crate::text::string_of(qs.as_slice());
    let matches: Vec<usize> = if q.len() == 0 {
        Vec::new()
    } else {
        match rendered_of(&state.doc) {
            None => Vec::new(),
            Some(r) => {
                let low = to_lower(query);
                let needle = chars_of(low.as_str());
                line_matches(&r.plain, &needle)
            },
        }
    };
    if matches.len() == 0 {
        state.search = SearchState { query: query_text, matches, current: None };
    } else {
        state.scroll = matches[0];
        state.search = SearchState { query: query_text, matches, current: Some(0) };
    }
    assert(*state == (AppState { search: state.search, scroll: state.scroll, ..s0 }));
}

/// The state after stepping `step` matches along (1 forward, -1 back),
/// wrapping around; nothing changes without matches.
pub open spec fn stepped(s: AppState, forward: bool, new: AppState) -> bool {
    let len = s.search.matches@.len();
    if len == 0 {
        new == s
    } else {
        let cur = match s.search.current { Some(c) => c as int, None => 0 };
        let n = if forward { (cur + 1) % (len as int) } else { (cur + len - 1) % (len as int) };
        new == (AppState {
            search: SearchState { current: Some(n as usize), ..s.search },
            scroll: s.search.matches@[n],
            ..s
        })
    }
}

/// `(cur + 1) mod len` or `(cur + len - 1) mod len`, without overflow.
pub fn wrap_index(cur: usize, len: usize, forward: bool) -> (r: usize)
    requires
        len > 0,
    ensures
        r == (if forward { (cur + 1) % (len as int) } else { (cur + len - 1) % (len as int) }),
        r < len,
{
    if len == 1 {
        proof {
            vstd::arithmetic::div_mod::lemma_mod_bound(cur + 1, 1);
            vstd::arithmetic::div_mod::lemma_mod_bound(cur as int, 1);
        }
        return 0;
    }
    let c = cur % len;
    proof {
        vstd::arithmetic::div_mod::lemma_mod_bound(cur as int, len as int);
        vstd::arithmetic::div_mod::lemma_add_mod_noop(cur as int, 1, len as int);
        vstd::arithmetic::div_mod::lemma_add_mod_noop(cur as int, len - 1, len as int);
        vstd::arithmetic::div_mod::lemma_small_mod((len - 1) as nat, len as nat);
        vstd::arithmetic::div_mod::lemma_small_mod(1, len as nat);
    }
    if forward {
        if c + 1 == len {
            proof { vstd::arithmetic::div_mod::lemma_mod_self_0(len as int); }
            0
        } else {
            proof { vstd::arithmetic::div_mod::lemma_small_mod((c + 1) as nat, len as nat); }
            c + 1
        }
    } else {
        if c == 0 {
            proof { vstd::arithmetic::div_mod::lemma_small_mod((len - 1) as nat, len as nat); }
            len - 1
        } else {
            proof {
                vstd::arithmetic::div_mod::lemma_mod_add_multiples_vanish((c - 1) as int, len as int);
                vstd::arithmetic::div_mod::lemma_small_mod((c - 1) as nat, len as nat);
                assert(c + (len - 1) == len + (c - 1));
            }
            c - 1
        }
    }
}

/// Moves to the next match, wrapping around.
pub fn next_match(state: &mut AppState)
    ensures
        stepped(*old(state), true, *final(state)),
{
    let len = state.search.matches.len();
    if len == 0 {
        return;
    }
    let cur = match state.search.current { Some(c) => c, None => 0 };
    let n = wrap_index(cur, len, true);
    state.search.current = Some(n);
    state.scroll = state.search.matches[n];
}

/// Moves to the previous match, wrapping around.
pub fn prev_match(state: &mut AppState)
    ensures
        stepped(*old(state), false, *final(state)),
{
    let len = state.search.matches.len();
    if len == 0 {
        return;
    }
    let cur = match state.search.current { Some(c) => c, None => 0 };
    let n = wrap_index(cur, len, false);
    state.search.current = Some(n);
    state.scroll = state.search.matches[n];
}

/// Forgets the document search; the scroll stays.
pub fn clear_search(state: &mut AppState)
    ensures
        no_search(final(state).search),
        *final(state) == (AppState { search: final(state).search, ..*old(state) }),
{
    state.search = SearchState::empty();
}

// ------------------------------------------------------------ tree search

/// A copy of a document kind.
pub fn clone_kind(k: &DocKind) -> (r: DocKind)
    ensures
        r == *k,
{
    match k {
        DocKind::Requirements => DocKind::Requirements,
        DocKind::Bugfix => DocKind::Bugfix,
        DocKind::BizProcess => DocKind::BizProcess,
        DocKind::Design => DocKind::Design,
        DocKind::Tasks => DocKind::Tasks,
        DocKind::Research => DocKind::Research,
        DocKind::Other(name) => DocKind::Other(name.clone()),
    }
}

/// A copy of a tree node id.
pub fn clone_node(n: &NodeId) -> (r: NodeId)
    ensures
        r == *n,
{
    match n {
        NodeId::Spec(s) => NodeId::Spec(s.clone()),
        NodeId::Doc(s, k) => NodeId::Doc(s.clone(), clone_kind(k)),
        NodeId::SteeringGroup => NodeId::SteeringGroup,
        NodeId::Steering(s) => NodeId::Steering(s.clone()),
        NodeId::Dir(p) => NodeId::Dir(p.clone()),
        NodeId::File(p) => NodeId::File(p.clone()),
    }
}

/// A copy of a node path.
pub fn clone_path(p: &Vec<NodeId>) -> (r: Vec<NodeId>)
    ensures
        r@ == p@,
{
    let mut out: Vec<NodeId> = Vec::new();
    let mut i: usize = 0;
    while i < p.len()
        invariant
            i <= p.len(),
            out@ == p@.take(i as int),
        decreases p.len() - i,
    {
        out.push(clone_node(&p[i]));
        i = i + 1;
        assert(out@ =~= p@.take(i as int));
    }
    assert(p@.take(p.len() as int) =~= p@);
    out
}

/// A tree row's label: the file name of its path, or the whole path when
/// it has none.
pub open spec fn path_label(p: PathBuf) -> Seq<char> {
    match file_name_of(p) {
        Some(n) => n,
        None => displayed_path(p),
    }
}

fn label_of(p: &PathBuf) -> (r: String)
    ensures
        r@ == path_label(*p),
{
    match file_name(p) {
        Some(n) => n,
        None => display_path(p),
    }
}

/// One row per tree node, in drawing order: each spec, then its
/// documents; then the steering group and its documents.
pub open spec fn kiro_rows(root: SpecRoot) -> Seq<(Seq<NodeId>, Seq<char>)> {
    spec_rows(root.specs@) + seq![(seq![NodeId::SteeringGroup], "Steering"@)]
        + steering_rows(root.steering@)
}

pub open spec fn spec_rows(specs: Seq<crate::spec::Spec>) -> Seq<(Seq<NodeId>, Seq<char>)>
    decreases specs.len(),
{
    if specs.len() == 0 {
        Seq::empty()
    } else {
        let s = specs.last();
        spec_rows(specs.drop_last()) + seq![(seq![NodeId::Spec(s.name)], s.name@)]
            + doc_rows(s.name, s.docs@)
    }
}

pub open spec fn doc_rows(name: String, docs: Seq<crate::spec::DocEntry>) -> Seq<(Seq<NodeId>, Seq<char>)>
    decreases docs.len(),
{
    if docs.len() == 0 {
        Seq::empty()
    } else {
        let d = docs.last();
        doc_rows(name, docs.drop_last())
            + seq![(seq![NodeId::Spec(name), NodeId::Doc(name, d.kind)], path_label(d.path))]
    }
}

pub open spec fn steering_rows(docs: Seq<crate::spec::SteeringDoc>) -> Seq<(Seq<NodeId>, Seq<char>)>
    decreases docs.len(),
{
    if docs.len() == 0 {
        Seq::empty()
    } else {
        let d = docs.last();
        steering_rows(docs.drop_last())
            + seq![(seq![NodeId::SteeringGroup, NodeId::Steering(d.name)], d.name@)]
    }
}

/// The node id of a directory tree entry.
pub open spec fn entry_id(e: FsEntry) -> NodeId {
    if e.is_dir { NodeId::Dir(e.path) } else { NodeId::File(e.path) }
}

/// The open directories above the next entry: `(id, depth)` pairs, the
/// outermost first.
pub open spec fn pop_deeper(stack: Seq<(NodeId, u8)>, depth: u8) -> Seq<(NodeId, u8)>
    decreases stack.len(),
{
    if stack.len() > 0 && stack.last().1 >= depth {
        pop_deeper(stack.drop_last(), depth)
    } else {
        stack
    }
}

/// The rows of `entries` and the directory stack after them, starting
/// from `stack`: each entry's path is its open ancestors' ids and its own.
pub open spec fn files_state(entries: Seq<FsEntry>) -> (Seq<(Seq<NodeId>, Seq<char>)>, Seq<(NodeId, u8)>)
    decreases entries.len(),
{
    if entries.len() == 0 {
        (Seq::empty(), Seq::empty())
    } else {
        let (rows, stack) = files_state(entries.drop_last());
        let e = entries.last();
        let st = pop_deeper(stack, e.depth);
        let path = st.map_values(|p: (NodeId, u8)| p.0).push(entry_id(e));
        let rows2 = rows.push((path, path_label(e.path)));
        (rows2, if e.is_dir { st.push((entry_id(e), e.depth)) } else { st })
    }
}

pub open spec fn tree_rows(root: TreeSource) -> Seq<(Seq<NodeId>, Seq<char>)> {
    match root {
        TreeSource::Kiro(r) => kiro_rows(r),
        TreeSource::Files(t) => files_state(t.entries@).0,
    }
}

pub open spec fn rows_view(v: Seq<(Vec<NodeId>, String)>) -> Seq<(Seq<NodeId>, Seq<char>)> {
    v.map_values(|x: (Vec<NodeId>, String)| (x.0@, x.1@))
}

fn push_row(rows: &mut Vec<(Vec<NodeId>, String)>, path: Vec<NodeId>, name: String)
    ensures
        rows_view(final(rows)@) == rows_view(old(rows)@).push((path@, name@)),
{
    rows.push((path, name));
    assert(rows_view(rows@) =~= rows_view(old(rows)@).push((path@, name@)));
}

fn flatten_kiro(root: &SpecRoot) -> (r: Vec<(Vec<NodeId>, String)>)
    ensures
        rows_view(r@) == kiro_rows(*root),
{
    let mut rows: Vec<(Vec<NodeId>, String)> = Vec::new();
    let mut i: usize = 0;
    while i < root.specs.len()
        invariant
            i <= root.specs.len(),
            rows_view(rows@) == spec_rows(root.specs@.take(i as int)),
        decreases root.specs.len() - i,
    {
        let spec = &root.specs[i];
        assert(root.specs@.take(i + 1).drop_last() =~= root.specs@.take(i as int));
        let mut sp: Vec<NodeId> = Vec::new();
        sp.push(NodeId::Spec(spec.name.clone()));
        assert(sp@ =~= seq![NodeId::Spec(spec.name)]);
        push_row(&mut rows, sp, spec.name.clone());
        let ghost base = rows_view(rows@);
        let mut j: usize = 0;
        while j < spec.docs.len()
            invariant
                j <= spec.docs.len(),
                rows_view(rows@) == base + doc_rows(spec.name, spec.docs@.take(j as int)),
            decreases spec.docs.len() - j,
        {
            let d = &spec.docs[j];
            assert(spec.docs@.take(j + 1).drop_last() =~= spec.docs@.take(j as int));
            let mut p: Vec<NodeId> = Vec::new();
            p.push(NodeId::Spec(spec.name.clone()));
            p.push(NodeId::Doc(spec.name.clone(), clone_kind(&d.kind)));
            assert(p@ =~= seq![NodeId::Spec(spec.name), NodeId::Doc(spec.name, d.kind)]);
            let label = label_of(&d.path);
            push_row(&mut rows, p, label);
            j = j + 1;
            assert(rows_view(rows@) =~= base + doc_rows(spec.name, spec.docs@.take(j as int)));
        }
        assert(spec.docs@.take(spec.docs.len() as int) =~= spec.docs@);
        i = i + 1;
        assert(rows_view(rows@) =~= spec_rows(root.specs@.take(i as int)));
    }
    assert(root.specs@.take(root.specs.len() as int) =~= root.specs@);
    let mut g: Vec<NodeId> = Vec::new();
    g.push(NodeId::SteeringGroup);
    assert(g@ =~= seq![NodeId::SteeringGroup]);
    let steering_label = crate::text::string_of(chars_of("Steering").as_slice());
    push_row(&mut rows, g, steering_label);
    let ghost base = rows_view(rows@);
    let mut k: usize = 0;
    while k < root.steering.len()
        invariant
            k <= root.steering.len(),
            rows_view(rows@) == base + steering_rows(root.steering@.take(k as int)),
        decreases root.steering.len() - k,
    {
        let d = &root.steering[k];
        assert(root.steering@.take(k + 1).drop_last() =~= root.steering@.take(k as int));
        let mut p: Vec<NodeId> = Vec::new();
        p.push(NodeId::SteeringGroup);
        p.push(NodeId::Steering(d.name.clone()));
        assert(p@ =~= seq![NodeId::SteeringGroup, NodeId::Steering(d.name)]);
        push_row(&mut rows, p, d.name.clone());
        k = k + 1;
        assert(rows_view(rows@) =~= base + steering_rows(root.steering@.take(k as int)));
    }
    assert(root.steering@.take(root.steering.len() as int) =~= root.steering@);
    assert(rows_view(rows@) =~= kiro_rows(*root));
    rows
}

fn flatten_files(tree: &FsTree) -> (r: Vec<(Vec<NodeId>, String)>)
    ensures
        rows_view(r@) == files_state(tree.entries@).0,
{
    let mut rows: Vec<(Vec<NodeId>, String)> = Vec::new();
    let mut ids: Vec<NodeId> = Vec::new();
    let mut depths: Vec<u8> = Vec::new();
    let mut i: usize = 0;
    while i < tree.entries.len()
        invariant
            i <= tree.entries.len(),
            ids@.len() == depths@.len(),
            rows_view(rows@) == files_state(tree.entries@.take(i as int)).0,
            files_state(tree.entries@.take(i as int)).1 == Seq::new(ids@.len(), |j: int| (ids@[j], depths@[j])),
        decreases tree.entries.len() - i,
    {
        let e = &tree.entries[i];
        let ghost before = tree.entries@.take(i as int);
        assert(tree.entries@.take(i + 1).drop_last() =~= before);
        let ghost st0 = files_state(before).1;
        while depths.len() > 0 && depths[depths.len() - 1] >= e.depth
            invariant
                ids@.len() == depths@.len(),
                pop_deeper(st0, e.depth) == pop_deeper(Seq::new(ids@.len(), |j: int| (ids@[j], depths@[j])), e.depth),
            decreases depths.len(),
        {
            let ghost cur = Seq::new(ids@.len(), |j: int| (ids@[j], depths@[j]));
            ids.pop();
            depths.pop();
            assert(cur.drop_last() =~= Seq::new(ids@.len(), |j: int| (ids@[j], depths@[j])));
        }
        let ghost st = Seq::new(ids@.len(), |j: int| (ids@[j], depths@[j]));
        assert(pop_deeper(st, e.depth) == st);
        let id = if e.is_dir { NodeId::Dir(e.path.clone()) } else { NodeId::File(e.path.clone()) };
        let mut path = clone_path(&ids);
        path.push(clone_node(&id));
        assert(path@ =~= st.map_values(|p: (NodeId, u8)| p.0).push(entry_id(*e)));
        let label = label_of(&e.path);
        push_row(&mut rows, path, label);
        if e.is_dir {
            ids.push(id);
            depths.push(e.depth);
            assert(st.push((entry_id(*e), e.depth)) =~= Seq::new(ids@.len(), |j: int| (ids@[j], depths@[j])));
        }
        i = i + 1;
    }
    assert(tree.entries@.take(tree.entries.len() as int) =~= tree.entries@);
    rows
}

/// Every tree node with its label, in drawing order.
pub fn flatten_tree(root: &TreeSource) -> (r: Vec<(Vec<NodeId>, String)>)
    ensures
        rows_view(r@) == tree_rows(*root),
{
    match root {
        TreeSource::Kiro(r) => flatten_kiro(r),
        TreeSource::Files(t) => flatten_files(t),
    }
}

/// The paths of the rows whose label holds `needle` once lowercased, in
/// row order.
pub open spec fn row_hits(rows: Seq<(Seq<NodeId>, Seq<char>)>, needle: Seq<char>) -> Seq<Seq<NodeId>>
    decreases rows.len(),
{
    if rows.len() == 0 {
        Seq::empty()
    } else {
        let h = row_hits(rows.drop_last(), needle);
        if line_hits(rows.last().1, needle) { h.push(rows.last().0) } else { h }
    }
}

pub open spec fn paths_view(v: Seq<Vec<NodeId>>) -> Seq<Seq<NodeId>> {
    v.map_values(|p: Vec<NodeId>| p@)
}

/// `0, 1, .., n - 1`.
pub open spec fn upto(n: nat) -> Seq<usize> {
    Seq::new(n, |i: int| i as usize)
}

/// The state a tree search for `query` leaves: the query recorded, the
/// matching node paths (none for an empty query) and their indices, the
/// first one current and revealed in the tree.
pub open spec fn tree_searched(s: AppState, query: Seq<char>, new: AppState) -> bool {
    let m = if query.len() == 0 {
        Seq::<Seq<NodeId>>::empty()
    } else {
        row_hits(tree_rows(s.root), lowercase_of(query))
    };
    &&& new.tree_search.query@ == query
    &&& paths_view(new.tree_matches@) == m
    &&& new.tree_search.matches@ == upto(m.len())
    &&& new.tree_search.current == (if m.len() == 0 { None } else { Some(0usize) })
    &&& new.effects@.len() == s.effects@.len() + (if m.len() == 0 { 0int } else { 1int })
    &&& new.effects@.take(s.effects@.len() as int) == s.effects@
    &&& m.len() > 0 ==> (new.effects@.last() matches Effect::TreeReveal(p) && p@ == m[0])
    &&& new == (AppState {
        tree_search: new.tree_search,
        tree_matches: new.tree_matches,
        effects: new.effects,
        ..s
    })
}

fn upto_vec(n: usize) -> (r: Vec<usize>)
    ensures
        r@ == upto(n as nat),
{
    let mut v: Vec<usize> = Vec::new();
    let mut i: usize = 0;
    while i < n
        invariant
            i <= n,
            v@ == upto(i as nat),
        decreases n - i,
    {
        v.push(i);
        i = i + 1;
        assert(v@ =~= upto(i as nat));
    }
    v
}

/// Searches the tree's node names for `query`, ignoring case, and reveals
/// the first match.
pub fn tree_search(state: &mut AppState, query: &str)
    ensures
        tree_searched(*old(state), query@, *final(state)),
{
    let ghost s0 = *state;
    let q = chars_of(query);
    let query_text = crate::text::string_of(q.as_slice());
    let mut paths: Vec<Vec<NodeId>> = Vec::new();
    if q.len() > 0 {
        let low = to_lower(query);
        let needle = chars_of(low.as_str());
        let rows = flatten_tree(&state.root);
        let ghost rv = rows_view(rows@);
        let mut i: usize = 0;
        while i < rows.len()
            invariant
                i <= rows.len(),
                rv == rows_view(rows@),
                rv == tree_rows(s0.root),
                paths_view(paths@) == row_hits(rv.take(i as int), needle@),
            decreases rows.len() - i,
        {
            assert(rv.take(i + 1).drop_last() =~= rv.take(i as int));
            assert(rv[i as int] == (rows@[i as int].0@, rows@[i as int].1@));
            let lc = to_lower(rows[i].1.as_str());
            let lcs = chars_of(lc.as_str());
            if find_exec(lcs.as_slice(), needle.as_slice()).is_some() {
                let p = clone_path(&rows[i].0);
                paths.push(p);
            }
            i = i + 1;
            assert(paths_view(paths@) =~= row_hits(rv.take(i as int), needle@));
        }
        assert(rv.take(rows.len() as int) =~= rv);
    } else {
        assert(paths_view(paths@) =~= Seq::<Seq<NodeId>>::empty());
    }
    let n = paths.len();
    if n == 0 {
        state.tree_search = SearchState { query: query_text, matches: Vec::new(), current: None };
        assert(state.tree_search.matches@ =~= upto(0));
    } else {
        let first = clone_path(&paths[0]);
        state.effects.push(Effect::TreeReveal(first));
        state.tree_search = SearchState { query: query_text, matches: upto_vec(n), current: Some(0) };
    }
    state.tree_matches = paths;
    assert(state.effects@.take(s0.effects@.len() as int) =~= s0.effects@);
}

/// The state after stepping the tree search one match along, wrapping
/// around and revealing the new match; nothing changes without matches.
pub open spec fn tree_stepped(s: AppState, forward: bool, new: AppState) -> bool {
    let len = s.tree_matches@.len();
    if len == 0 {
        new == s
    } else {
        let cur = match s.tree_search.current { Some(c) => c as int, None => 0 };
        let n = if forward { (cur + 1) % (len as int) } else { (cur + len - 1) % (len as int) };
        &&& new.effects@.len() == s.effects@.len() + 1
        &&& new.effects@.drop_last() == s.effects@
        &&& new.effects@.last() matches Effect::TreeReveal(p) && p@ == s.tree_matches@[n]@
        &&& new == (AppState {
            tree_search: SearchState { current: Some(n as usize), ..s.tree_search },
            effects: new.effects,
            ..s
        })
    }
}

fn tree_step(state: &mut AppState, forward: bool)
    ensures
        tree_stepped(*old(state), forward, *final(state)),
{
    let len = state.tree_matches.len();
    if len == 0 {
        return;
    }
    let cur = match state.tree_search.current { Some(c) => c, None => 0 };
    let n = wrap_index(cur, len, forward);
    state.tree_search.current = Some(n);
    let p = clone_path(&state.tree_matches[n]);
    state.effects.push(Effect::TreeReveal(p));
    assert(state.effects@.drop_last() =~= old(state).effects@);
}

/// Moves to the next tree match, wrapping around.
pub fn tree_next_match(state: &mut AppState)
    ensures
        tree_stepped(*old(state), true, *final(state)),
{
    tree_step(state, true);
}

/// Moves to the previous tree match, wrapping around.
pub fn tree_prev_match(state: &mut AppState)
    ensures
        tree_stepped(*old(state), false, *final(state)),
{
    tree_step(state, false);
}

/// Forgets the tree search; the tree's selection and folds stay.
pub fn clear_tree_search(state: &mut AppState)
    ensures
        no_search(final(state).tree_search),
        final(state).tree_matches@.len() == 0,
        *final(state) == (AppState {
            tree_search: final(state).tree_search,
            tree_matches: final(state).tree_matches,
            ..*old(state)
        }),
{
    state.tree_search = SearchState::empty();
    state.tree_matches = Vec::new();
}

} // verus!
