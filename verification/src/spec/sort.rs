//! Sort order of the spec tree: a cyclable key and the sort it selects.

use vstd::prelude::*;
use crate::order::{lemma_insert_sorted, lemma_lex_irreflexive, lemma_lex_total, lemma_lex_transitive, lex_lt, lex_lt_str, sorted_by, strict_order};
use crate::text::chars_of;
use super::{DocEntryV, Spec, SpecV};
use super::meta::{MetaErrorV, SpecMetaV};
use super::progress::Progress;

verus! {

/// The four sort keys, in the order the hotkey cycles through them.
#[derive(Debug, Clone, Copy, PartialEq, Eq, Default, Structural)]
pub enum SortKey {
    #[default]
    Name,
    Phase,
    Updated,
    Progress,
}

/// `s` with ASCII capitals lowered (`str::to_ascii_lowercase`).
pub open spec fn ascii_lower(s: Seq<char>) -> Seq<char> {
    s.map_values(|c: char| if 'A' <= c && c <= 'Z' { ((c as u32) + 32) as char } else { c })
}

/// The key a `--sort` value names, compared without regard to ASCII case.
pub open spec fn key_of_cli(s: Seq<char>) -> Option<SortKey> {
    let l = ascii_lower(s);
    if l == "name"@ {
        Some(SortKey::Name)
    } else if l == "phase"@ {
        Some(SortKey::Phase)
    } else if l == "updated"@ {
        Some(SortKey::Updated)
    } else if l == "progress"@ {
        Some(SortKey::Progress)
    } else {
        None
    }
}

/// A `--sort` value names the same key as its lower-case form: the key
/// does not depend on ASCII case.
pub proof fn law_key_ignores_case(s: Seq<char>)
    ensures
        key_of_cli(ascii_lower(s)) == key_of_cli(s),
{
    assert forall|i: int| 0 <= i < s.len() implies #[trigger] ascii_lower(ascii_lower(s))[i] == ascii_lower(s)[i] by {
        let c = s[i];
        if 'A' <= c && c <= 'Z' {
            assert(((c as u32) + 32) as char == ascii_lower(s)[i]);
            assert((((c as u32) + 32) as char) as u32 == (c as u32) + 32);
        }
    }
    assert(ascii_lower(ascii_lower(s)) =~= ascii_lower(s));
}

fn lower_char(c: char) -> (r: char)
    ensures
        r == (if 'A' <= c && c <= 'Z' { ((c as u32) + 32) as char } else { c }),
{
    if 'A' <= c && c <= 'Z' {
        let u = (c as u32) + 32;
        // 'a'..='z' are the only values reached.
        if u == 97 { 'a' } else if u == 98 { 'b' } else if u == 99 { 'c' } else if u == 100 { 'd' }
        else if u == 101 { 'e' } else if u == 102 { 'f' } else if u == 103 { 'g' } else if u == 104 { 'h' }
        else if u == 105 { 'i' } else if u == 106 { 'j' } else if u == 107 { 'k' } else if u == 108 { 'l' }
        else if u == 109 { 'm' } else if u == 110 { 'n' } else if u == 111 { 'o' } else if u == 112 { 'p' }
        else if u == 113 { 'q' } else if u == 114 { 'r' } else if u == 115 { 's' } else if u == 116 { 't' }
        else if u == 117 { 'u' } else if u == 118 { 'v' } else if u == 119 { 'w' } else if u == 120 { 'x' }
        else if u == 121 { 'y' } else { 'z' }
    } else {
        c
    }
}

impl SortKey {
    /// The next key of the cycle `Name -> Phase -> Updated -> Progress -> Name`.
    pub fn cycle(self) -> (r: SortKey)
        ensures
            r == next_key(self),
    {
        match self {
            SortKey::Name => SortKey::Phase,
            SortKey::Phase => SortKey::Updated,
            SortKey::Updated => SortKey::Progress,
            SortKey::Progress => SortKey::Name,
        }
    }

    /// Short label shown in the tree panel's title.
    pub fn label(self) -> (r: &'static str)
        ensures
            r@ == (match self {
                SortKey::Name => "이름"@,
                SortKey::Phase => "단계"@,
                SortKey::Updated => "최근 갱신"@,
                SortKey::Progress => "진행률"@,
            }),
    {
        match self {
            SortKey::Name => "이름",
            SortKey::Phase => "단계",
            SortKey::Updated => "최근 갱신",
            SortKey::Progress => "진행률",
        }
    }

    /// Parses a `--sort` value, ignoring ASCII case; `None` for anything
    /// else.
    pub fn from_cli(s: &str) -> (r: Option<SortKey>)
        ensures
            r == key_of_cli(s@),
    {
        let cs = chars_of(s);
        let mut low: Vec<char> = Vec::new();
        let mut i: usize = 0;
        while i < cs.len()
            invariant
                i <= cs.len(),
                cs@ == s@,
                low@ == ascii_lower(s@).take(i as int),
            decreases cs.len() - i,
        {
            low.push(lower_char(cs[i]));
            i = i + 1;
            assert(low@ =~= ascii_lower(s@).take(i as int));
        }
        assert(low@ =~= ascii_lower(s@));
        if crate::text::eq_str(low.as_slice(), "name") {
            Some(SortKey::Name)
        } else if crate::text::eq_str(low.as_slice(), "phase") {
            Some(SortKey::Phase)
        } else if crate::text::eq_str(low.as_slice(), "updated") {
            Some(SortKey::Updated)
        } else if crate::text::eq_str(low.as_slice(), "progress") {
            Some(SortKey::Progress)
        } else {
            None
        }
    }
}

/// A spec's phase, empty when `spec.json` did not parse.
pub open spec fn phase_key(s: SpecV) -> Seq<char> {
    match s.meta {
        Ok(m) => m.phase,
        Err(_) => Seq::empty(),
    }
}

/// A spec's `updated_at`, empty when missing or when `spec.json` did not
/// parse.
pub open spec fn updated_key(s: SpecV) -> Seq<char> {
    match s.meta {
        Ok(m) => match m.updated_at {
            Some(u) => u,
            None => Seq::empty(),
        },
        Err(_) => Seq::empty(),
    }
}

/// The first progress any document of the spec carries.
pub open spec fn first_progress(docs: Seq<DocEntryV>) -> Option<Progress>
    decreases docs.len(),
{
    if docs.len() == 0 {
        None
    } else {
        match docs[0].progress {
            Some(p) => Some(p),
            None => first_progress(docs.drop_first()),
        }
    }
}

pub open spec fn max1(t: u32) -> int {
    if t == 0 { 1 } else { t as int }
}

/// `done / max(total, 1)` of `a` exceeds that of `b`; no progress at all
/// ranks below every ratio.
pub open spec fn ratio_gt(a: Option<Progress>, b: Option<Progress>) -> bool {
    match (a, b) {
        (Some(p), Some(q)) => p.done * max1(q.total) > q.done * max1(p.total),
        (Some(_), None) => true,
        (None, _) => false,
    }
}

/// The two ratios are equal.
pub open spec fn ratio_eq(a: Option<Progress>, b: Option<Progress>) -> bool {
    match (a, b) {
        (Some(p), Some(q)) => p.done * max1(q.total) == q.done * max1(p.total),
        (None, None) => true,
        _ => false,
    }
}

/// `a` sorts strictly before `b` under `key`: names ascending for `Name`;
/// phase ascending for `Phase`; `updated_at` descending for `Updated`;
/// completion ratio descending for `Progress`; ties broken by name
/// ascending.
pub open spec fn sorts_before(key: SortKey, a: SpecV, b: SpecV) -> bool {
    match key {
        SortKey::Name => lex_lt(a.name, b.name),
        SortKey::Phase => lex_lt(phase_key(a), phase_key(b)) || (phase_key(a) == phase_key(b)
            && lex_lt(a.name, b.name)),
        SortKey::Updated => lex_lt(updated_key(b), updated_key(a)) || (updated_key(a)
            == updated_key(b) && lex_lt(a.name, b.name)),
        SortKey::Progress => ratio_gt(first_progress(a.docs), first_progress(b.docs)) || (ratio_eq(
            first_progress(a.docs),
            first_progress(b.docs),
        ) && lex_lt(a.name, b.name)),
    }
}

/// [`sorts_before`] on specs.
pub open spec fn spec_order(key: SortKey) -> spec_fn(Spec, Spec) -> bool {
    |a: Spec, b: Spec| sorts_before(key, a@, b@)
}

proof fn lemma_ratio(x: int, y: int, z: int, mx: int, my: int, mz: int)
    by (nonlinear_arith)
    requires
        mx > 0,
        my > 0,
        mz > 0,
        x >= 0,
        y >= 0,
        z >= 0,
    ensures
        x * my > y * mx && y * mz > z * my ==> x * mz > z * mx,
        x * my > y * mx && y * mz == z * my ==> x * mz > z * mx,
        x * my == y * mx && y * mz > z * my ==> x * mz > z * mx,
        x * my == y * mx && y * mz == z * my ==> x * mz == z * mx,
{
    if x * my > y * mx && y * mz > z * my {
        assert(x * my * mz > y * mx * mz);
        assert(y * mz * mx > z * my * mx);
    }
    if x * my > y * mx && y * mz == z * my {
        assert(x * my * mz > y * mx * mz);
        assert(y * mz * mx == z * my * mx);
    }
    if x * my == y * mx && y * mz > z * my {
        assert(x * my * mz == y * mx * mz);
        assert(y * mz * mx > z * my * mx);
    }
    if x * my == y * mx && y * mz == z * my {
        assert(x * my * mz == y * mx * mz);
        assert(y * mz * mx == z * my * mx);
    }
}

proof fn lemma_ratio_trans(a: Option<Progress>, b: Option<Progress>, c: Option<Progress>)
    ensures
        ratio_gt(a, b) && ratio_gt(b, c) ==> ratio_gt(a, c),
        ratio_gt(a, b) && ratio_eq(b, c) ==> ratio_gt(a, c),
        ratio_eq(a, b) && ratio_gt(b, c) ==> ratio_gt(a, c),
        ratio_eq(a, b) && ratio_eq(b, c) ==> ratio_eq(a, c),
        !ratio_gt(a, a),
{
    match (a, b, c) {
        (Some(p), Some(q), Some(r)) => {
            lemma_ratio(p.done as int, q.done as int, r.done as int, max1(p.total), max1(q.total), max1(r.total));
        },
        _ => {},
    }
}

pub proof fn lemma_spec_order(key: SortKey)
    ensures
        strict_order(spec_order(key)),
{
    let lt = spec_order(key);
    assert forall|a: Spec| !#[trigger] lt(a, a) by {
        lemma_lex_irreflexive(a@.name);
        lemma_lex_irreflexive(phase_key(a@));
        lemma_lex_irreflexive(updated_key(a@));
        lemma_ratio_trans(first_progress(a@.docs), first_progress(a@.docs), first_progress(a@.docs));
    }
    assert forall|a: Spec, b: Spec, c: Spec| #[trigger] lt(a, b) && #[trigger] lt(b, c) implies lt(a, c) by {
        if lex_lt(a@.name, b@.name) && lex_lt(b@.name, c@.name) {
            lemma_lex_transitive(a@.name, b@.name, c@.name);
        }
        match key {
            SortKey::Phase => {
                if lex_lt(phase_key(a@), phase_key(b@)) && lex_lt(phase_key(b@), phase_key(c@)) {
                    lemma_lex_transitive(phase_key(a@), phase_key(b@), phase_key(c@));
                }
            },
            SortKey::Updated => {
                if lex_lt(updated_key(c@), updated_key(b@)) && lex_lt(updated_key(b@), updated_key(a@)) {
                    lemma_lex_transitive(updated_key(c@), updated_key(b@), updated_key(a@));
                }
            },
            SortKey::Progress => {
                lemma_ratio_trans(first_progress(a@.docs), first_progress(b@.docs), first_progress(c@.docs));
            },
            SortKey::Name => {},
        }
    }
}

fn phase_key_exec(s: &Spec) -> (r: &str)
    ensures
        r@ == phase_key(s@),
{
    match &s.meta {
        Ok(m) => m.phase.as_str(),
        Err(_) => {
            proof {
                reveal_strlit("");
            }
            ""
        },
    }
}

fn updated_key_exec(s: &Spec) -> (r: &str)
    ensures
        r@ == updated_key(s@),
{
    proof {
        reveal_strlit("");
    }
    match &s.meta {
        Ok(m) => match &m.updated_at {
            Some(u) => u.as_str(),
            None => "",
        },
        Err(_) => "",
    }
}

fn first_progress_exec(s: &Spec) -> (r: Option<Progress>)
    ensures
        r == first_progress(s@.docs),
{
    let ghost dv = s@.docs;
    let mut i: usize = 0;
    assert(dv.subrange(0, dv.len() as int) =~= dv);
    while i < s.docs.len()
        invariant
            i <= s.docs.len(),
            dv == s@.docs,
            first_progress(dv) == first_progress(dv.subrange(i as int, dv.len() as int)),
        decreases s.docs.len() - i,
    {
        let ghost rest = dv.subrange(i as int, dv.len() as int);
        assert(rest.drop_first() =~= dv.subrange(i + 1, dv.len() as int));
        assert(rest[0] == s.docs@[i as int]@);
        match s.docs[i].progress {
            Some(p) => {
                return Some(p);
            },
            None => {},
        }
        i = i + 1;
    }
    None
}

fn max1_exec(t: u32) -> (r: u64)
    ensures
        r == max1(t),
        1 <= r <= u32::MAX,
{
    if t == 0 { 1 } else { t as u64 }
}

/// `done * max(total, 1)` computed without overflow.
fn cross(done: u32, total: u32) -> (r: u64)
    ensures
        r == done * max1(total),
{
    let x = done as u64;
    let m = max1_exec(total);
    assert(x * m <= 0xffff_ffffu64 * 0xffff_ffffu64) by (nonlinear_arith)
        requires
            x <= 0xffff_ffffu64,
            m <= 0xffff_ffffu64,
    ;
    x * m
}

fn ratio_gt_exec(a: Option<Progress>, b: Option<Progress>) -> (r: bool)
    ensures
        r == ratio_gt(a, b),
{
    match (a, b) {
        (Some(p), Some(q)) => {
            cross(p.done, q.total) > cross(q.done, p.total)
        },
        (Some(_), None) => true,
        (None, _) => false,
    }
}

fn ratio_eq_exec(a: Option<Progress>, b: Option<Progress>) -> (r: bool)
    ensures
        r == ratio_eq(a, b),
{
    match (a, b) {
        (Some(p), Some(q)) => {
            cross(p.done, q.total) == cross(q.done, p.total)
        },
        (None, None) => true,
        _ => false,
    }
}

fn sorts_before_exec(key: SortKey, a: &Spec, b: &Spec) -> (r: bool)
    ensures
        r == sorts_before(key, a@, b@),
{
    match key {
        SortKey::Name => lex_lt_str(a.name.as_str(), b.name.as_str()),
        SortKey::Phase => {
            let pa = phase_key_exec(a);
            let pb = phase_key_exec(b);
            lex_lt_str(pa, pb) || (crate::spec::meta::str_eq(pa, pb) && lex_lt_str(a.name.as_str(), b.name.as_str()))
        },
        SortKey::Updated => {
            let ua = updated_key_exec(a);
            let ub = updated_key_exec(b);
            lex_lt_str(ub, ua) || (crate::spec::meta::str_eq(ua, ub) && lex_lt_str(a.name.as_str(), b.name.as_str()))
        },
        SortKey::Progress => {
            let pa = first_progress_exec(a);
            let pb = first_progress_exec(b);
            ratio_gt_exec(pa, pb) || (ratio_eq_exec(pa, pb) && lex_lt_str(a.name.as_str(), b.name.as_str()))
        },
    }
}

/// Sorts specs by `key`, keeping them as a permutation of the input. Names
/// and phases ascend, `updated_at` and completion descend, and every key
/// but `Name` breaks ties by name. A missing phase or `updated_at` reads as
/// empty and a missing progress ranks lowest, so a spec whose `spec.json`
/// did not parse still has a definite place.
pub fn sort_specs(specs: &mut Vec<Spec>, key: SortKey)
    ensures
        final(specs)@.to_multiset() == old(specs)@.to_multiset(),
        sorted_by(final(specs)@, spec_order(key)),
{
    proof {
        lemma_spec_order(key);
        broadcast use vstd::seq_lib::group_to_multiset_ensures;
    }
    let n = specs.len();
    if n == 0 {
        return;
    }
    let mut i: usize = 1;
    assert(sorted_by(specs@.take(1), spec_order(key)));
    while i < n
        invariant
            1 <= i <= n,
            specs@.len() == n,
            specs@.to_multiset() == old(specs)@.to_multiset(),
            sorted_by(specs@.take(i as int), spec_order(key)),
            strict_order(spec_order(key)),
        decreases n - i,
    {
        let ghost before = specs@;
        let x = specs.remove(i);
        let ghost mid = specs@;
        let mut p: usize = 0;
        while p < i && !sorts_before_exec(key, &x, &specs[p])
            invariant
                p <= i,
                i < n,
                specs@ == mid,
                mid.len() == n - 1,
                forall|k: int| 0 <= k < p ==> !#[trigger] spec_order(key)(x, mid[k]),
            decreases i - p,
        {
            p = p + 1;
        }
        let ghost xv = x;
        specs.insert(p, x);
        proof {
            let pre = mid.take(i as int);
            assert(pre =~= before.take(i as int));
            lemma_insert_sorted(pre, xv, p as int, spec_order(key));
            assert(specs@ =~= mid.insert(p as int, xv));
            assert(specs@.take(i + 1) =~= pre.insert(p as int, xv));
            vstd::seq_lib::to_multiset_remove(before, i as int);
            vstd::seq_lib::to_multiset_insert(mid, p as int, xv);
            crate::order::lemma_remove_insert_same(before.to_multiset(), xv, before, i as int);
        }
        i = i + 1;
    }
    assert(specs@.take(n as int) =~= specs@);
}

/// Cycling four times returns to the starting key, and the keys met on the
/// way are all four keys.
pub proof fn lemma_cycle_period(k: SortKey)
    ensures
        next_key(next_key(next_key(next_key(k)))) == k,
        k != next_key(k) && k != next_key(next_key(k)) && k != next_key(next_key(next_key(k))),
{
}

/// The key after `k` in the cycle.
pub open spec fn next_key(k: SortKey) -> SortKey {
    match k {
        SortKey::Name => SortKey::Phase,
        SortKey::Phase => SortKey::Updated,
        SortKey::Updated => SortKey::Progress,
        SortKey::Progress => SortKey::Name,
    }
}

/// A `--sort` value and its ASCII-lowercased form name the same key.
pub proof fn lemma_from_cli_case_insensitive(s: Seq<char>)
    ensures
        key_of_cli(s) == key_of_cli(ascii_lower(s)),
{
    assert(ascii_lower(ascii_lower(s)) =~= ascii_lower(s));
}

} // verus!
