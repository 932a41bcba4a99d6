//! Display width of text in terminal columns, from the `unicode-width`
//! character widths summed over the `unicode-segmentation` grapheme
//! clusters.

use vstd::prelude::*;
use unicode_segmentation::UnicodeSegmentation;
use unicode_width::UnicodeWidthChar;
use crate::text::{chars_of, string_of};

verus! {

/// Result of `unicode_width::UnicodeWidthChar::width` for `c`.
pub uninterp spec fn char_width_of(c: char) -> Option<usize>;

/// `UnicodeWidthChar::width`: `None` for control characters (below U+0020
/// and U+007F..U+009F), 1 for printable ASCII, at most 3 columns otherwise
/// (the crate's lookup tables hold no wider entry).
#[verifier::external_body]
pub fn char_width(c: char) -> (r: Option<usize>)
    ensures
        r == char_width_of(c),
        r is None <==> (c as u32) < 0x20 || (0x7f <= (c as u32) && (c as u32) < 0xa0),
        0x20 <= (c as u32) && (c as u32) < 0x7f ==> r == Some(1usize),
        r matches Some(w) ==> w <= 3,
{
    UnicodeWidthChar::width(c)
}

/// The width a character contributes to a line: control characters none.
pub open spec fn cw(c: char) -> nat {
    match char_width_of(c) {
        Some(w) => w as nat,
        None => 0,
    }
}

/// Sum of the character widths of `s`.
pub open spec fn str_width(s: Seq<char>) -> nat
    decreases s.len(),
{
    if s.len() == 0 {
        0
    } else {
        str_width(s.drop_last()) + cw(s.last())
    }
}

/// `n` clamped to what a `usize` holds.
pub open spec fn sat(n: nat) -> usize {
    if n <= usize::MAX {
        n as usize
    } else {
        usize::MAX
    }
}

/// Result of `UnicodeSegmentation::graphemes(s, true)`, each cluster as a
/// character sequence.
pub uninterp spec fn graphemes_of(s: Seq<char>) -> Seq<Seq<char>>;

/// All pieces of `ps`, one after another.
pub open spec fn flatten(ps: Seq<Seq<char>>) -> Seq<char>
    decreases ps.len(),
{
    if ps.len() == 0 {
        Seq::empty()
    } else {
        flatten(ps.drop_last()) + ps.last()
    }
}

/// `UnicodeSegmentation::graphemes(s, true)`: the extended grapheme
/// clusters of `s`. The iterator hands out consecutive non-empty slices
/// from the start of `s` to its end, so the clusters concatenate back to
/// `s`.
#[verifier::external_body]
pub fn graphemes(s: &str) -> (r: Vec<String>)
    ensures
        r@.map_values(|g: String| g@) == graphemes_of(s@),
        flatten(r@.map_values(|g: String| g@)) == s@,
        forall|i: int| 0 <= i < r@.len() ==> (#[trigger] r@[i])@.len() > 0,
{
    s.graphemes(true).map(|g| g.to_string()).collect()
}

pub proof fn lemma_str_width_concat(a: Seq<char>, b: Seq<char>)
    ensures
        str_width(a + b) == str_width(a) + str_width(b),
    decreases b.len(),
{
    if b.len() == 0 {
        assert(a + b =~= a);
    } else {
        lemma_str_width_concat(a, b.drop_last());
        assert((a + b).drop_last() =~= a + b.drop_last());
    }
}

pub proof fn lemma_str_width_push(a: Seq<char>, c: char)
    ensures
        str_width(a.push(c)) == str_width(a) + cw(c),
{
    assert(a.push(c).drop_last() =~= a);
}

/// Width of one character as a line contributes it.
pub fn char_cols(c: char) -> (w: usize)
    ensures
        w == cw(c),
        w <= 3,
        (c as u32) >= 0x20 && (c as u32) < 0x7f ==> w == 1,
{
    match char_width(c) {
        Some(w) => w,
        None => 0,
    }
}

/// Width of a character sequence, saturating at `usize::MAX`.
pub fn chars_width(s: &[char]) -> (w: usize)
    ensures
        w == sat(str_width(s@)),
{
    let mut w: usize = 0;
    let mut i: usize = 0;
    while i < s.len()
        invariant
            i <= s.len(),
            w == sat(str_width(s@.take(i as int))),
        decreases s.len() - i,
    {
        proof {
            assert(s@.take(i + 1).drop_last() =~= s@.take(i as int));
        }
        let c = char_cols(s[i]);
        w = w.saturating_add(c);
        i = i + 1;
    }
    assert(s@.take(s.len() as int) =~= s@);
    w
}

/// Width of one grapheme cluster: the sum of its characters' widths.
pub fn grapheme_width(g: &str) -> (w: usize)
    ensures
        w == sat(str_width(g@)),
{
    let cs = chars_of(g);
    chars_width(cs.as_slice())
}

/// Display width of `s`: the widths of its grapheme clusters, summed.
pub fn line_width(s: &str) -> (w: usize)
    ensures
        w == sat(str_width(s@)),
{
    let gs = graphemes(s);
    let ghost gv = gs@.map_values(|g: String| g@);
    let mut w: usize = 0;
    let mut i: usize = 0;
    while i < gs.len()
        invariant
            i <= gs.len(),
            gv == gs@.map_values(|g: String| g@),
            w == sat(str_width(flatten(gv.take(i as int)))),
        decreases gs.len() - i,
    {
        let gw = grapheme_width(gs[i].as_str());
        proof {
            assert(gv.take(i + 1).drop_last() =~= gv.take(i as int));
            lemma_str_width_concat(flatten(gv.take(i as int)), gv[i as int]);
        }
        w = w.saturating_add(gw);
        i = i + 1;
    }
    assert(gv.take(gs.len() as int) =~= gv);
    w
}

/// `n` copies of `c`.
pub open spec fn rep(c: char, n: nat) -> Seq<char> {
    Seq::new(n, |i: int| c)
}

/// A string of `n` copies of `c`.
pub fn repeat_char(c: char, n: usize) -> (r: Vec<char>)
    ensures
        r@ == rep(c, n as nat),
{
    let mut v: Vec<char> = Vec::new();
    let mut i: usize = 0;
    while i < n
        invariant
            i <= n,
            v@ == rep(c, i as nat),
        decreases n - i,
    {
        v.push(c);
        i = i + 1;
        assert(v@ =~= rep(c, i as nat));
    }
    v
}

pub proof fn lemma_repeat_width(c: char, n: nat)
    ensures
        str_width(rep(c, n)) == n * cw(c),
    decreases n,
{
    if n > 0 {
        lemma_repeat_width(c, (n - 1) as nat);
        assert(rep(c, n).drop_last() =~= rep(c, (n - 1) as nat));
        assert(rep(c, n).last() == c);
        assert(str_width(rep(c, n)) == str_width(rep(c, (n - 1) as nat)) + cw(c));
        let m = (n - 1) as nat;
        let k = cw(c);
        assert(n * k == m * k + k) by (nonlinear_arith)
            requires
                n == m + 1,
        ;
    } else {
        assert(rep(c, n).len() == 0);
        assert(n * cw(c) == 0);
    }
}

/// `n` spaces.
pub fn spaces(n: usize) -> (r: Vec<char>)
    ensures
        r@ == rep(' ', n as nat),
        str_width(r@) == n,
{
    let r = repeat_char(' ', n);
    let sw = char_cols(' ');
    proof {
        assert((' ' as u32) == 0x20);
        assert(sw == 1);
        lemma_repeat_width(' ', n as nat);
    }
    r
}

} // verus!
