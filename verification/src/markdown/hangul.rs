//! Hangul jamo composition (NFD to NFC for Hangul only): conjoining
//! leading consonant + vowel [+ trailing consonant] sequences become one
//! precomposed syllable, following the Unicode Hangul composition
//! algorithm. Other combining characters are left alone.

use vstd::prelude::*;
use crate::text::{chars_of, string_of};

verus! {

pub const S_BASE: u32 = 0xAC00;
pub const L_BASE: u32 = 0x1100;
pub const V_BASE: u32 = 0x1161;
pub const T_BASE: u32 = 0x11A7;
pub const L_COUNT: u32 = 19;
pub const V_COUNT: u32 = 21;
pub const T_COUNT: u32 = 28;
pub const N_COUNT: u32 = 588;
pub const S_COUNT: u32 = 11172;

/// A conjoining leading consonant (choseong).
pub open spec fn spec_is_leading(c: u32) -> bool {
    L_BASE <= c && c < L_BASE + L_COUNT
}

/// A conjoining vowel (jungseong).
pub open spec fn spec_is_vowel(c: u32) -> bool {
    V_BASE <= c && c < V_BASE + V_COUNT
}

/// A conjoining trailing consonant (jongseong), not the filler `T_BASE`.
pub open spec fn spec_is_trailing(c: u32) -> bool {
    T_BASE + 1 <= c && c < T_BASE + T_COUNT
}

/// A precomposed syllable without a trailing consonant.
pub open spec fn spec_is_lv_syllable(c: u32) -> bool {
    S_BASE <= c && c < S_BASE + S_COUNT && (c - S_BASE) % (T_COUNT as int) == 0
}

/// A character that may take part in a composition.
pub open spec fn is_jamo_like(c: char) -> bool {
    let u = c as u32;
    (L_BASE <= u && u <= 0x11FF) || (0xA960 <= u && u <= 0xA97C) || (0xD7B0 <= u && u <= 0xD7FB)
}

/// The syllable for leading `l` and vowel `v`.
pub open spec fn lv(l: u32, v: u32) -> int {
    S_BASE + ((l - L_BASE) * V_COUNT + (v - V_BASE)) * T_COUNT
}

/// The composed text, read from index `i` on.
pub open spec fn compose_from(s: Seq<char>, i: int) -> Seq<char>
    decreases s.len() - i,
{
    if i < 0 || i >= s.len() {
        Seq::empty()
    } else {
        let c = s[i] as u32;
        if spec_is_leading(c) && i + 1 < s.len() && spec_is_vowel(s[i + 1] as u32) {
            let syl = lv(c, s[i + 1] as u32);
            if i + 2 < s.len() && spec_is_trailing(s[i + 2] as u32) {
                seq![(syl + (s[i + 2] as u32 - T_BASE)) as char] + compose_from(s, i + 3)
            } else {
                seq![syl as char] + compose_from(s, i + 2)
            }
        } else if spec_is_lv_syllable(c) && i + 1 < s.len() && spec_is_trailing(s[i + 1] as u32) {
            seq![(c + (s[i + 1] as u32 - T_BASE)) as char] + compose_from(s, i + 2)
        } else {
            seq![s[i]] + compose_from(s, i + 1)
        }
    }
}

/// Composed text: unchanged when nothing in it can compose.
pub open spec fn spec_compose(s: Seq<char>) -> Seq<char> {
    if exists|i: int| 0 <= i < s.len() && is_jamo_like(#[trigger] s[i]) {
        compose_from(s, 0)
    } else {
        s
    }
}

/// Text with no character that can take part in a composition is left
/// as it is.
pub proof fn law_compose_keeps_plain_text(s: Seq<char>)
    requires
        forall|i: int| 0 <= i < s.len() ==> !is_jamo_like(#[trigger] s[i]),
    ensures
        spec_compose(s) == s,
{
}

/// Whether positions `i` and `i + 1` of `t` can compose: a leading
/// consonant and a vowel, or a syllable without a trailing consonant and a
/// trailing consonant.
pub open spec fn composes_at(t: Seq<char>, i: int) -> bool {
    &&& 0 <= i && i + 1 < t.len()
    &&& (spec_is_leading(t[i] as u32) && spec_is_vowel(t[i + 1] as u32)) || (spec_is_lv_syllable(t[i] as u32)
        && spec_is_trailing(t[i + 1] as u32))
}

proof fn lemma_compose_still(t: Seq<char>, i: int)
    requires
        0 <= i <= t.len(),
        forall|k: int| !composes_at(t, k),
    ensures
        compose_from(t, i) == t.subrange(i, t.len() as int),
    decreases t.len() - i,
{
    if i < t.len() {
        assert(!composes_at(t, i));
        lemma_compose_still(t, i + 1);
        assert(t.subrange(i, t.len() as int) =~= seq![t[i]] + t.subrange(i + 1, t.len() as int));
    } else {
        assert(t.subrange(i, t.len() as int) =~= Seq::<char>::empty());
    }
}

/// A precomposed syllable's scalar value.
pub open spec fn is_syllable_char(c: char) -> bool {
    S_BASE <= (c as u32) && (c as u32) < S_BASE + S_COUNT
}

proof fn lemma_syllable_char(v: int)
    requires
        S_BASE <= v < S_BASE + S_COUNT,
    ensures
        (v as char) as u32 == v,
        is_syllable_char(v as char),
{
}

proof fn lemma_compose_settled(s: Seq<char>, i: int)
    requires
        0 <= i <= s.len(),
    ensures
        forall|k: int| !composes_at(compose_from(s, i), k),
        i < s.len() ==> compose_from(s, i).len() > 0 && (is_syllable_char(compose_from(s, i)[0]) || compose_from(s, i)[0] == s[i]),
    decreases s.len() - i,
{
    if i < s.len() {
        let c = s[i] as u32;
        if spec_is_leading(c) && i + 1 < s.len() && spec_is_vowel(s[i + 1] as u32) {
            let syl = lv(c, s[i + 1] as u32);
            assert(S_BASE <= syl < S_BASE + S_COUNT) by (nonlinear_arith)
                requires
                    syl == S_BASE + ((c - L_BASE) * V_COUNT + (s[i + 1] as u32 - V_BASE)) * T_COUNT,
                    L_BASE <= c < L_BASE + L_COUNT,
                    V_BASE <= (s[i + 1] as u32) < V_BASE + V_COUNT,
            ;
            if i + 2 < s.len() && spec_is_trailing(s[i + 2] as u32) {
                let v = syl + (s[i + 2] as u32 - T_BASE);
                assert(S_BASE <= v < S_BASE + S_COUNT) by (nonlinear_arith)
                    requires
                        v == syl + (s[i + 2] as u32 - T_BASE),
                        syl == S_BASE + ((c - L_BASE) * V_COUNT + (s[i + 1] as u32 - V_BASE)) * T_COUNT,
                        L_BASE <= c < L_BASE + L_COUNT,
                        V_BASE <= (s[i + 1] as u32) < V_BASE + V_COUNT,
                        T_BASE + 1 <= (s[i + 2] as u32) < T_BASE + T_COUNT,
                ;
                assert((v - S_BASE) % (T_COUNT as int) != 0) by (nonlinear_arith)
                    requires
                        v == syl + (s[i + 2] as u32 - T_BASE),
                        syl == S_BASE + ((c - L_BASE) * V_COUNT + (s[i + 1] as u32 - V_BASE)) * T_COUNT,
                        T_BASE + 1 <= (s[i + 2] as u32) < T_BASE + T_COUNT,
                ;
                lemma_syllable_char(v);
                lemma_compose_settled(s, i + 3);
                let rest = compose_from(s, i + 3);
                let out = compose_from(s, i);
                assert(out == seq![v as char] + rest);
                assert forall|k: int| !composes_at(out, k) by {
                    if k >= 1 && k + 1 < out.len() {
                        assert(out[k] == rest[k - 1]);
                        assert(out[k + 1] == rest[k]);
                        assert(!composes_at(rest, k - 1));
                    }
                }
            } else {
                lemma_syllable_char(syl);
                lemma_compose_settled(s, i + 2);
                let rest = compose_from(s, i + 2);
                let out = compose_from(s, i);
                assert(out == seq![syl as char] + rest);
                assert forall|k: int| !composes_at(out, k) by {
                    if k >= 1 && k + 1 < out.len() {
                        assert(out[k] == rest[k - 1]);
                        assert(out[k + 1] == rest[k]);
                        assert(!composes_at(rest, k - 1));
                    }
                }
            }
        } else if spec_is_lv_syllable(c) && i + 1 < s.len() && spec_is_trailing(s[i + 1] as u32) {
            let v = c + (s[i + 1] as u32 - T_BASE);
            assert(S_BASE <= v < S_BASE + S_COUNT && (v - S_BASE) % (T_COUNT as int) != 0) by (nonlinear_arith)
                requires
                    v == c + (s[i + 1] as u32 - T_BASE),
                    S_BASE <= c < S_BASE + S_COUNT,
                    (c - S_BASE) % (T_COUNT as int) == 0,
                    T_BASE + 1 <= (s[i + 1] as u32) < T_BASE + T_COUNT,
            ;
            lemma_syllable_char(v);
            lemma_compose_settled(s, i + 2);
            let rest = compose_from(s, i + 2);
            let out = compose_from(s, i);
            assert(out == seq![v as char] + rest);
            assert forall|k: int| !composes_at(out, k) by {
                if k >= 1 && k + 1 < out.len() {
                    assert(out[k] == rest[k - 1]);
                    assert(out[k + 1] == rest[k]);
                    assert(!composes_at(rest, k - 1));
                }
            }
        } else {
            lemma_compose_settled(s, i + 1);
            let rest = compose_from(s, i + 1);
            let out = compose_from(s, i);
            assert(out == seq![s[i]] + rest);
            assert forall|k: int| !composes_at(out, k) by {
                if k >= 1 && k + 1 < out.len() {
                    assert(out[k] == rest[k - 1]);
                    assert(out[k + 1] == rest[k]);
                    assert(!composes_at(rest, k - 1));
                }
            }
        }
    }
}

/// Composing twice is composing once.
pub proof fn law_compose_idempotent(s: Seq<char>)
    ensures
        spec_compose(spec_compose(s)) == spec_compose(s),
{
    if exists|i: int| 0 <= i < s.len() && is_jamo_like(#[trigger] s[i]) {
        let c = compose_from(s, 0);
        lemma_compose_settled(s, 0);
        lemma_compose_still(c, 0);
        assert(c.subrange(0, c.len() as int) =~= c);
    }
}

fn is_leading(c: u32) -> (r: bool)
    ensures
        r == spec_is_leading(c),
{
    L_BASE <= c && c < L_BASE + L_COUNT
}

fn is_vowel(c: u32) -> (r: bool)
    ensures
        r == spec_is_vowel(c),
{
    V_BASE <= c && c < V_BASE + V_COUNT
}

fn is_trailing(c: u32) -> (r: bool)
    ensures
        r == spec_is_trailing(c),
{
    T_BASE + 1 <= c && c < T_BASE + T_COUNT
}

fn is_lv_syllable(c: u32) -> (r: bool)
    ensures
        r == spec_is_lv_syllable(c),
{
    S_BASE <= c && c < S_BASE + S_COUNT && (c - S_BASE) % T_COUNT == 0
}

/// `char::from_u32`: the scalar value `v` as a `char`, when it is one.
#[verifier::external_body]
fn char_from_u32(v: u32) -> (r: Option<char>)
    ensures
        (v < 0xD800 || (0xE000 <= v && v <= 0x10FFFF)) ==> r == Some(v as char),
        !(v < 0xD800 || (0xE000 <= v && v <= 0x10FFFF)) ==> r is None,
{
    char::from_u32(v)
}

/// Whether anything in `s` can take part in a composition.
fn needs_compose(s: &[char]) -> (r: bool)
    ensures
        r == exists|i: int| 0 <= i < s@.len() && is_jamo_like(#[trigger] s@[i]),
{
    let mut i: usize = 0;
    while i < s.len()
        invariant
            i <= s.len(),
            forall|j: int| 0 <= j < i ==> !is_jamo_like(#[trigger] s@[j]),
        decreases s.len() - i,
    {
        let u = s[i] as u32;
        if (L_BASE <= u && u <= 0x11FF) || (0xA960 <= u && u <= 0xA97C) || (0xD7B0 <= u && u
            <= 0xD7FB) {
            assert(is_jamo_like(s@[i as int]));
            return true;
        }
        i = i + 1;
    }
    false
}

/// Composes decomposed Hangul jamo into syllables; text with nothing to
/// compose comes back unchanged.
pub fn compose(s: &str) -> (r: String)
    ensures
        r@ == spec_compose(s@),
{
    let chars = chars_of(s);
    if !needs_compose(chars.as_slice()) {
        return string_of(chars.as_slice());
    }
    let mut out: Vec<char> = Vec::new();
    let mut i: usize = 0;
    let n = chars.len();
    assert(out@ + compose_from(chars@, 0) =~= compose_from(chars@, 0));
    while i < n
        invariant
            n == chars@.len(),
            i <= n,
            compose_from(chars@, 0) == out@ + compose_from(chars@, i as int),
        decreases n - i,
    {
        let c = chars[i] as u32;
        if is_leading(c) && i + 1 < n && is_vowel(chars[i + 1] as u32) {
            let l = c - L_BASE;
            let v = chars[i + 1] as u32 - V_BASE;
            let mut syllable = S_BASE + (l * V_COUNT + v) * T_COUNT;
            if i + 2 < n && is_trailing(chars[i + 2] as u32) {
                syllable = syllable + (chars[i + 2] as u32 - T_BASE);
                let ch = match char_from_u32(syllable) {
                    Some(ch) => ch,
                    None => chars[i + 2],
                };
                assert(ch == (lv(c, chars@[i + 1] as u32) + (chars@[i + 2] as u32 - T_BASE))
                    as char);
                out.push(ch);
                proof {
                    assert(compose_from(chars@, i as int) == seq![ch] + compose_from(
                        chars@,
                        i + 3,
                    ));
                    assert(out@ + compose_from(chars@, i + 3) =~= (out@.drop_last() + seq![ch])
                        + compose_from(chars@, i + 3));
                }
                i = i + 3;
            } else {
                let ch = match char_from_u32(syllable) {
                    Some(ch) => ch,
                    None => chars[i + 1],
                };
                assert(ch == lv(c, chars@[i + 1] as u32) as char);
                out.push(ch);
                proof {
                    assert(compose_from(chars@, i as int) == seq![ch] + compose_from(
                        chars@,
                        i + 2,
                    ));
                    assert(out@ + compose_from(chars@, i + 2) =~= (out@.drop_last() + seq![ch])
                        + compose_from(chars@, i + 2));
                }
                i = i + 2;
            }
        } else if is_lv_syllable(c) && i + 1 < n && is_trailing(chars[i + 1] as u32) {
            let v = c + (chars[i + 1] as u32 - T_BASE);
            let ch = match char_from_u32(v) {
                Some(ch) => ch,
                None => chars[i],
            };
            assert(ch == (c + (chars@[i + 1] as u32 - T_BASE)) as char);
            out.push(ch);
            proof {
                assert(compose_from(chars@, i as int) == seq![ch] + compose_from(chars@, i + 2));
                assert(out@ + compose_from(chars@, i + 2) =~= (out@.drop_last() + seq![ch])
                    + compose_from(chars@, i + 2));
            }
            i = i + 2;
        } else {
            let ch = chars[i];
            out.push(ch);
            proof {
                assert(compose_from(chars@, i as int) == seq![ch] + compose_from(chars@, i + 1));
                assert(out@ + compose_from(chars@, i + 1) =~= (out@.drop_last() + seq![ch])
                    + compose_from(chars@, i + 1));
            }
            i = i + 1;
        }
    }
    assert(compose_from(chars@, i as int) =~= Seq::<char>::empty());
    assert(out@ =~= compose_from(chars@, 0));
    string_of(out.as_slice())
}

} // verus!
