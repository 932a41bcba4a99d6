//! The order of strings: `str`'s `Ord`, which compares UTF-8 bytes and so
//! orders characters by their code points, position by position.

use vstd::prelude::*;
use crate::text::chars_of;

verus! {

/// `a < b` in `str` order.
pub open spec fn lex_lt(a: Seq<char>, b: Seq<char>) -> bool
    decreases a.len(),
{
    if a.len() == 0 {
        b.len() > 0
    } else if b.len() == 0 {
        false
    } else if a[0] != b[0] {
        a[0] < b[0]
    } else {
        lex_lt(a.drop_first(), b.drop_first())
    }
}

pub proof fn lemma_lex_irreflexive(a: Seq<char>)
    ensures
        !lex_lt(a, a),
    decreases a.len(),
{
    if a.len() > 0 {
        lemma_lex_irreflexive(a.drop_first());
    }
}

pub proof fn lemma_lex_transitive(a: Seq<char>, b: Seq<char>, c: Seq<char>)
    requires
        lex_lt(a, b),
        lex_lt(b, c),
    ensures
        lex_lt(a, c),
    decreases a.len(),
{
    if a.len() > 0 && b.len() > 0 && c.len() > 0 {
        if a[0] == b[0] && b[0] == c[0] {
            lemma_lex_transitive(a.drop_first(), b.drop_first(), c.drop_first());
        }
    }
}

/// Two strings are equal or one is smaller.
pub proof fn lemma_lex_total(a: Seq<char>, b: Seq<char>)
    ensures
        lex_lt(a, b) || a == b || lex_lt(b, a),
    decreases a.len(),
{
    if a.len() > 0 && b.len() > 0 {
        if a[0] == b[0] {
            lemma_lex_total(a.drop_first(), b.drop_first());
            if a.drop_first() == b.drop_first() {
                assert(a =~= seq![a[0]] + a.drop_first());
                assert(b =~= seq![b[0]] + b.drop_first());
            }
        } else {
        }
    } else if a.len() == 0 && b.len() == 0 {
        assert(a =~= b);
    }
}

/// `a < b` over character slices.
pub fn lex_lt_chars(a: &[char], b: &[char]) -> (r: bool)
    ensures
        r == lex_lt(a@, b@),
{
    let mut i: usize = 0;
    proof {
        assert(a@.subrange(0, a@.len() as int) =~= a@);
        assert(b@.subrange(0, b@.len() as int) =~= b@);
    }
    while i < a.len() && i < b.len() && a[i] == b[i]
        invariant
            i <= a.len(),
            i <= b.len(),
            lex_lt(a@, b@) == lex_lt(a@.subrange(i as int, a@.len() as int), b@.subrange(i as int, b@.len() as int)),
        decreases a.len() - i,
    {
        let ghost x = a@.subrange(i as int, a@.len() as int);
        let ghost y = b@.subrange(i as int, b@.len() as int);
        assert(x.drop_first() =~= a@.subrange(i + 1, a@.len() as int));
        assert(y.drop_first() =~= b@.subrange(i + 1, b@.len() as int));
        i = i + 1;
    }
    if i == a.len() {
        i < b.len()
    } else if i == b.len() {
        false
    } else {
        proof {
            assert(a@.subrange(i as int, a@.len() as int)[0] == a@[i as int]);
            assert(b@.subrange(i as int, b@.len() as int)[0] == b@[i as int]);
        }
        a[i] < b[i]
    }
}

/// `a < b` over strings.
pub fn lex_lt_str(a: &str, b: &str) -> (r: bool)
    ensures
        r == lex_lt(a@, b@),
{
    let x = chars_of(a);
    let y = chars_of(b);
    lex_lt_chars(x.as_slice(), y.as_slice())
}

} // verus!

verus! {

/// `s` is in order for the strict order `lt`: no element is smaller than
/// one before it.
pub open spec fn sorted_by<T>(s: Seq<T>, lt: spec_fn(T, T) -> bool) -> bool {
    forall|i: int, j: int| 0 <= i < j < s.len() ==> !lt(#[trigger] s[j], #[trigger] s[i])
}

/// `lt` is a strict order: irreflexive and transitive.
pub open spec fn strict_order<T>(lt: spec_fn(T, T) -> bool) -> bool {
    &&& forall|a: T| !#[trigger] lt(a, a)
    &&& forall|a: T, b: T, c: T| #[trigger] lt(a, b) && #[trigger] lt(b, c) ==> lt(a, c)
}

/// Inserting `x` right before the first element it is smaller than keeps a
/// sorted sequence sorted.
pub proof fn lemma_insert_sorted<T>(s: Seq<T>, x: T, p: int, lt: spec_fn(T, T) -> bool)
    requires
        strict_order(lt),
        sorted_by(s, lt),
        0 <= p <= s.len(),
        forall|k: int| 0 <= k < p ==> !lt(x, s[k]),
        p < s.len() ==> lt(x, s[p]),
    ensures
        sorted_by(s.insert(p, x), lt),
{
    let t = s.insert(p, x);
    assert forall|i: int, j: int| 0 <= i < j < t.len() implies !lt(t[j], t[i]) by {
        if j < p {
            assert(t[i] == s[i] && t[j] == s[j]);
        } else if j == p {
            assert(t[i] == s[i]);
        } else if i < p {
            assert(t[i] == s[i] && t[j] == s[j - 1]);
        } else if i == p {
            assert(t[j] == s[j - 1]);
            if lt(s[j - 1], x) {
                assert(lt(s[j - 1], s[p]));
                if j - 1 == p {
                    assert(!lt(s[p], s[p]));
                } else {
                    assert(!lt(s[j - 1], s[p]));
                }
            }
        } else {
            assert(t[i] == s[i - 1] && t[j] == s[j - 1]);
        }
    }
}

pub proof fn lemma_remove_insert_same<A>(m: vstd::multiset::Multiset<A>, a: A, s: Seq<A>, i: int)
    requires
        m == s.to_multiset(),
        0 <= i < s.len(),
        s[i] == a,
    ensures
        m.remove(a).insert(a) == m,
{
    broadcast use vstd::multiset::group_multiset_axioms;
    vstd::seq_lib::to_multiset_contains(s, a);
    assert(s.contains(a));
    assert(m.remove(a).insert(a) =~= m);
}

/// `str` order as a relation.
pub open spec fn str_lt() -> spec_fn(Seq<char>, Seq<char>) -> bool {
    |a: Seq<char>, b: Seq<char>| lex_lt(a, b)
}

pub proof fn lemma_str_lt_order()
    ensures
        strict_order(str_lt()),
{
    assert forall|a: Seq<char>| !#[trigger] str_lt()(a, a) by {
        lemma_lex_irreflexive(a);
    }
    assert forall|a: Seq<char>, b: Seq<char>, c: Seq<char>| #[trigger] str_lt()(a, b) && #[trigger] str_lt()(b, c) implies str_lt()(a, c) by {
        lemma_lex_transitive(a, b, c);
    }
}

pub open spec fn string_views(v: Seq<String>) -> Seq<Seq<char>> {
    v.map_values(|s: String| s@)
}

/// Sorts strings in `str` order, keeping equal strings in their order.
pub fn sort_strings(v: &mut Vec<String>)
    ensures
        string_views(final(v)@).to_multiset() == string_views(old(v)@).to_multiset(),
        sorted_by(string_views(final(v)@), str_lt()),
        final(v)@.len() == old(v)@.len(),
{
    proof {
        lemma_str_lt_order();
        broadcast use vstd::seq_lib::group_to_multiset_ensures;
    }
    let n = v.len();
    if n == 0 {
        return;
    }
    let mut i: usize = 1;
    assert(sorted_by(string_views(v@).take(1), str_lt()));
    while i < n
        invariant
            1 <= i <= n,
            v@.len() == n,
            string_views(v@).to_multiset() == string_views(old(v)@).to_multiset(),
            sorted_by(string_views(v@).take(i as int), str_lt()),
            strict_order(str_lt()),
        decreases n - i,
    {
        let ghost before = string_views(v@);
        let x = v.remove(i);
        let ghost xv = x@;
        let ghost mid = string_views(v@);
        assert(mid =~= before.remove(i as int));
        let mut p: usize = 0;
        while p < i && !lex_lt_str(x.as_str(), v[p].as_str())
            invariant
                p <= i,
                i < n,
                v@.len() == n - 1,
                string_views(v@) == mid,
                x@ == xv,
                forall|k: int| 0 <= k < p ==> !lex_lt(xv, mid[k]),
            decreases i - p,
        {
            p = p + 1;
        }
        v.insert(p, x);
        proof {
            let pre = mid.take(i as int);
            assert(pre =~= before.take(i as int));
            lemma_insert_sorted(pre, xv, p as int, str_lt());
            assert(string_views(v@) =~= mid.insert(p as int, xv));
            assert(string_views(v@).take(i + 1) =~= pre.insert(p as int, xv));
            vstd::seq_lib::to_multiset_remove(before, i as int);
            vstd::seq_lib::to_multiset_insert(mid, p as int, xv);
            assert(before[i as int] == xv);
            lemma_remove_insert_same(before.to_multiset(), xv, before, i as int);
        }
        i = i + 1;
    }
    assert(string_views(v@).take(n as int) =~= string_views(v@));
}

} // verus!
