//! Compact sequence-diagram rendering: a header of actor names, then one
//! arrow row per message (three rows for a message an actor sends itself),
//! with lifelines under the actors a row does not involve. Names and
//! labels are abbreviated step by step until the whole diagram fits.

use vstd::prelude::*;
use crate::text::{chars_of, concat, string_of};
use crate::width::{graphemes, grapheme_width, line_width, spaces, str_width, sat, graphemes_of,
    lemma_str_width_concat, rep, cw, char_cols};
use super::parse::{Diagram, Message, DiagramV, MessageV, views};
use super::{Fallback, FallbackV};

verus! {

broadcast use super::parse::group_views;

pub const GAP: usize = 2;
pub const MIN_BUDGET: usize = 3;

/// The whole grapheme clusters of `gs` from `i` on that fit, together with
/// the `w` columns already used, in `budget` columns.
pub open spec fn abbrev_from(gs: Seq<Seq<char>>, i: int, w: nat, budget: nat) -> Seq<char>
    decreases gs.len() - i,
{
    if i < 0 || i >= gs.len() {
        Seq::empty()
    } else if w + str_width(gs[i]) > budget {
        Seq::empty()
    } else {
        gs[i] + abbrev_from(gs, i + 1, w + str_width(gs[i]), budget)
    }
}

/// `s` itself when it fits in `max_w` columns; otherwise as many leading
/// grapheme clusters as fit in `max_w - 1` columns, then `…`.
pub open spec fn spec_abbreviate(s: Seq<char>, max_w: nat) -> Seq<char> {
    if sat(str_width(s)) <= max_w {
        s
    } else if max_w == 0 {
        Seq::empty()
    } else if max_w == 1 {
        seq!['…']
    } else {
        abbrev_from(graphemes_of(s), 0, 0, (max_w - 1) as nat) + seq!['…']
    }
}

pub open spec fn spec_trunc(s: Seq<char>, budget: Option<usize>) -> Seq<char> {
    match budget {
        Some(b) => spec_abbreviate(s, b as nat),
        None => s,
    }
}

/// `s` centred in `w` columns, the odd column going to the right.
pub open spec fn spec_pad_center(s: Seq<char>, w: nat) -> Seq<char> {
    let sw = str_width(s);
    if sw >= w {
        s
    } else {
        let total = (w - sw) as nat;
        let left = total / 2;
        rep(' ', left) + s + rep(' ', (total - left) as nat)
    }
}

/// `s` padded with spaces on the right to `w` columns.
pub open spec fn spec_pad_to_width(s: Seq<char>, w: nat) -> Seq<char> {
    let sw = str_width(s);
    if sw >= w {
        s
    } else {
        s + rep(' ', (w - sw) as nat)
    }
}

/// Rows a message takes: three for a self message, one otherwise.
pub open spec fn msg_rows(ms: Seq<MessageV>) -> nat
    decreases ms.len(),
{
    if ms.len() == 0 {
        0
    } else {
        msg_rows(ms.drop_last()) + if ms.last().from == ms.last().to {
            3nat
        } else {
            1nat
        }
    }
}

/// Lines of one width, at most `width` columns.
pub open spec fn uniform_within(lines: Seq<Seq<char>>, width: nat) -> bool {
    lines.len() > 0 && str_width(lines[0]) <= width && forall|i: int|
        0 <= i < lines.len() ==> str_width(#[trigger] lines[i]) == str_width(lines[0])
}

/// Whether `s` is at most `w` columns wide.
pub fn fits(s: &[char], w: usize) -> (r: bool)
    ensures
        r == (sat(str_width(s@)) <= w),
{
    let t = string_of(s);
    line_width(t.as_str()) <= w
}

pub fn abbreviate(s: &[char], max_w: usize) -> (r: Vec<char>)
    ensures
        r@ == spec_abbreviate(s@, max_w as nat),
{
    if fits(s, max_w) {
        return crate::text::to_vec(s);
    }
    if max_w == 0 {
        return Vec::new();
    }
    if max_w == 1 {
        let mut v: Vec<char> = Vec::new();
        v.push('…');
        assert(v@ =~= seq!['…']);
        return v;
    }
    let budget = max_w - 1;
    let st = string_of(s);
    let gs = graphemes(st.as_str());
    let ghost gv = gs@.map_values(|g: String| g@);
    let mut out: Vec<char> = Vec::new();
    let mut w: usize = 0;
    let mut i: usize = 0;
    let mut stop = false;
    while i < gs.len() && !stop
        invariant
            i <= gs.len(),
            gv == gs@.map_values(|g: String| g@),
            gv == graphemes_of(s@),
            w <= budget,
            budget < usize::MAX,
            out@ + abbrev_from(gv, i as int, w as nat, budget as nat) == abbrev_from(
                gv,
                0,
                0,
                budget as nat,
            ),
            stop ==> abbrev_from(gv, i as int, w as nat, budget as nat) == Seq::<char>::empty(),
        decreases gs.len() - i, if stop { 0int } else { 1int },
    {
        let gw = grapheme_width(gs[i].as_str());
        proof {
            assert(gv[i as int] == gs@[i as int]@);
        }
        if gw > budget - w {
            stop = true;
        } else {
            let gc = chars_of(gs[i].as_str());
            proof {
                assert(str_width(gv[i as int]) == gw);
            }
            let ghost prev = out@;
            out = concat(out.as_slice(), gc.as_slice());
            proof {
                assert(prev + abbrev_from(gv, i as int, w as nat, budget as nat) =~= out@
                    + abbrev_from(gv, i + 1, (w + gw) as nat, budget as nat));
            }
            w = w + gw;
            i = i + 1;
        }
    }
    proof {
        if !stop {
            assert(abbrev_from(gv, i as int, w as nat, budget as nat) == Seq::<char>::empty());
        }
        assert(out@ =~= out@ + abbrev_from(gv, i as int, w as nat, budget as nat));
    }
    let ell = ['…'];
    let r = concat(out.as_slice(), &ell);
    assert(ell@ =~= seq!['…']);
    r
}

pub fn trunc(s: &[char], budget: Option<usize>) -> (r: Vec<char>)
    ensures
        r@ == spec_trunc(s@, budget),
{
    match budget {
        Some(b) => abbreviate(s, b),
        None => crate::text::to_vec(s),
    }
}

pub fn width_of(s: &[char]) -> (w: usize)
    ensures
        w == sat(str_width(s@)),
{
    let t = string_of(s);
    line_width(t.as_str())
}

fn pad_center(s: &[char], w: usize) -> (r: Vec<char>)
    ensures
        r@ == spec_pad_center(s@, w as nat),
        str_width(s@) <= w ==> str_width(r@) == w,
{
    let sw = width_of(s);
    if sw >= w {
        return crate::text::to_vec(s);
    }
    let total = w - sw;
    let left = total / 2;
    let right = total - left;
    let a = spaces(left);
    let b = spaces(right);
    let x = concat(a.as_slice(), s);
    let r = concat(x.as_slice(), b.as_slice());
    proof {
        lemma_str_width_concat(a@, s@);
        lemma_str_width_concat(x@, b@);
    }
    r
}

pub fn pad_to_width(s: &[char], w: usize) -> (r: Vec<char>)
    ensures
        r@ == spec_pad_to_width(s@, w as nat),
        str_width(s@) <= w ==> str_width(r@) == w,
        str_width(s@) > w ==> r@ == s@,
{
    let sw = width_of(s);
    let pad = w.saturating_sub(sw);
    if pad == 0 {
        return crate::text::to_vec(s);
    }
    let p = spaces(pad);
    let r = concat(s, p.as_slice());
    proof {
        lemma_str_width_concat(s@, p@);
    }
    r
}

/// Column of actor `i`'s lifeline.
pub open spec fn spec_center_x(i: nat, name_w: nat, gap: nat) -> nat {
    i * (name_w + gap) + name_w / 2
}

pub fn center_x(i: usize, name_w: usize, gap: usize) -> (x: usize)
    requires
        name_w + gap <= usize::MAX,
        spec_center_x(i as nat, name_w as nat, gap as nat) <= usize::MAX,
    ensures
        x == spec_center_x(i as nat, name_w as nat, gap as nat),
{
    proof {
        assert(i * (name_w + gap) <= i * (name_w + gap) + name_w / 2);
    }
    i * (name_w + gap) + name_w / 2
}

/// A piece of text placed at column `x` of a row.
struct Frag {
    x: usize,
    text: Vec<char>,
}

/// Laying out fragments (column and text) in order: the text so far and
/// the column it reaches. A fragment that starts left of that column is
/// dropped; any other is reached with spaces and written.
pub open spec fn lay(fs: Seq<(usize, Seq<char>)>) -> (Seq<char>, int)
    decreases fs.len(),
{
    if fs.len() == 0 {
        (Seq::empty(), 0)
    } else {
        let (l, c) = lay(fs.drop_last());
        let f = fs.last();
        if (f.0 as int) < c {
            (l, c)
        } else {
            (l + rep(' ', (f.0 - c) as nat) + f.1, sat((f.0 + sat(str_width(f.1))) as nat) as int)
        }
    }
}

/// The first position from `k` on whose column is right of `x`.
pub open spec fn first_right_of(s: Seq<(usize, Seq<char>)>, x: usize, k: int) -> int
    decreases s.len() - k,
{
    if k < 0 || k >= s.len() {
        s.len() as int
    } else if s[k].0 > x {
        k
    } else {
        first_right_of(s, x, k + 1)
    }
}

/// Fragments ordered by column, each placed after those at or left of
/// its column that came before it (a stable insertion sort).
pub open spec fn by_column(fs: Seq<(usize, Seq<char>)>) -> Seq<(usize, Seq<char>)>
    decreases fs.len(),
{
    if fs.len() == 0 {
        Seq::empty()
    } else {
        let s = by_column(fs.drop_last());
        s.insert(first_right_of(s, fs.last().0, 0), fs.last())
    }
}

spec fn frag_views(fs: Seq<Frag>) -> Seq<(usize, Seq<char>)> {
    fs.map_values(|f: Frag| (f.x, f.text@))
}

/// Inserts `f` after every fragment at or left of its column, up to the
/// first one right of it.
fn insert_frag(out: &mut Vec<Frag>, f: Frag)
    ensures
        frag_views(final(out)@) == frag_views(old(out)@).insert(first_right_of(frag_views(old(out)@), f.x, 0), (f.x, f.text@)),
{
    let ghost v = frag_views(out@);
    let mut k: usize = 0;
    while k < out.len() && out[k].x <= f.x
        invariant
            k <= out.len(),
            v == frag_views(out@),
            first_right_of(v, f.x, 0) == first_right_of(v, f.x, k as int),
        decreases out.len() - k,
    {
        k = k + 1;
    }
    let ghost prev = out@;
    let ghost fv = (f.x, f.text@);
    out.insert(k, f);
    assert(frag_views(out@) =~= v.insert(k as int, fv));
}

/// Lays fragments out left to right by column: a fragment that would start
/// inside text already placed is dropped.
#[verifier::loop_isolation(false)]
fn assemble(frags: Vec<Frag>) -> (line: Vec<char>)
    ensures
        line@ == lay(by_column(frag_views(frags@))).0,
{
    let ghost orig = frag_views(frags@);
    let mut sorted: Vec<Frag> = Vec::new();
    let mut frags = frags;
    let ghost mut m: int = 0;
    assert(frag_views(sorted@) =~= by_column(orig.take(0)));
    assert(frag_views(frags@) =~= orig.skip(0));
    while frags.len() > 0
        invariant
            0 <= m <= orig.len(),
            frag_views(sorted@) == by_column(orig.take(m)),
            frag_views(frags@) == orig.skip(m),
            frags@.len() == orig.len() - m,
        decreases frags.len(),
    {
        let ghost fr0 = frags@;
        assert(0 <= m < orig.len());
        let f = frags.remove(0);
        proof {
            assert(orig.skip(m)[0] == (f.x, f.text@));
            assert forall|q: int| 0 <= q < frags@.len() implies frags@[q] == fr0[q + 1] by {}
            assert(frag_views(frags@) =~= frag_views(fr0).drop_first());
            assert(orig.skip(m).drop_first() =~= orig.skip(m + 1));
            assert(orig.take(m + 1).drop_last() =~= orig.take(m));
        }
        insert_frag(&mut sorted, f);
        proof {
            m = m + 1;
        }
    }
    assert(orig.take(m) =~= orig);
    let ghost sv = frag_views(sorted@);
    let mut line: Vec<char> = Vec::new();
    let mut cur: usize = 0;
    let mut i: usize = 0;
    while i < sorted.len()
        invariant
            i <= sorted@.len(),
            sv == frag_views(sorted@),
            line@ == lay(sv.take(i as int)).0,
            cur as int == lay(sv.take(i as int)).1,
        decreases sorted.len() - i,
    {
        assert(sv.take(i + 1).drop_last() =~= sv.take(i as int));
        assert(sv.take(i + 1).last() == (sorted@[i as int].x, sorted@[i as int].text@));
        let ghost l0 = line@;
        let ghost c0 = cur;
        let x = sorted[i].x;
        if x > cur {
            let p = spaces(x - cur);
            line = concat(line.as_slice(), p.as_slice());
            cur = x;
        } else if x < cur {
            i = i + 1;
            continue;
        }
        proof {
            if x == c0 {
                assert(line@ =~= l0 + rep(' ', 0));
            }
        }
        line = concat(line.as_slice(), sorted[i].text.as_slice());
        cur = cur.saturating_add(width_of(sorted[i].text.as_slice()));
        i = i + 1;
    }
    assert(sv.take(sorted@.len() as int) =~= sv);
    line
}

fn push_str_chars(out: &mut Vec<char>, s: &str)
    ensures
        final(out)@ == old(out)@ + s@,
{
    let c = chars_of(s);
    let r = concat(out.as_slice(), c.as_slice());
    *out = r;
}

/// The header row: each name centred in `name_w` columns, `gap` spaces
/// between two names.
pub open spec fn header_row(names: Seq<Seq<char>>, name_w: nat, gap: nat) -> Seq<char>
    decreases names.len(),
{
    if names.len() == 0 {
        Seq::empty()
    } else if names.len() == 1 {
        spec_pad_center(names[0], name_w)
    } else {
        header_row(names.drop_last(), name_w, gap) + rep(' ', gap) + spec_pad_center(names.last(), name_w)
    }
}

fn build_header(actor_disp: &Vec<Vec<char>>, name_w: usize, gap: usize) -> (s: Vec<char>)
    ensures
        s@ == header_row(actor_disp.deep_view(), name_w as nat, gap as nat),
{
    let ghost names = actor_disp.deep_view();
    let mut s: Vec<char> = Vec::new();
    let mut i: usize = 0;
    while i < actor_disp.len()
        invariant
            i <= actor_disp@.len(),
            names == actor_disp.deep_view(),
            s@ == header_row(names.take(i as int), name_w as nat, gap as nat) + (if 0 < i < names.len() {
                rep(' ', gap as nat)
            } else {
                Seq::<char>::empty()
            }),
        decreases actor_disp.len() - i,
    {
        let p = pad_center(actor_disp[i].as_slice(), name_w);
        proof {
            assert(names[i as int] == actor_disp@[i as int]@);
            assert(names.take(i + 1).drop_last() =~= names.take(i as int));
            if i == 0 {
                assert(s@ =~= Seq::<char>::empty());
                assert(header_row(names.take(1), name_w as nat, gap as nat) == spec_pad_center(names[0], name_w as nat));
            }
        }
        s = concat(s.as_slice(), p.as_slice());
        proof {
            if i == 0 {
                assert(s@ =~= header_row(names.take(1), name_w as nat, gap as nat));
            } else {
                assert(s@ =~= header_row(names.take(i + 1), name_w as nat, gap as nat));
            }
        }
        if i + 1 < actor_disp.len() {
            let g = spaces(gap);
            s = concat(s.as_slice(), g.as_slice());
        } else {
            assert(s@ =~= header_row(names.take(i + 1), name_w as nat, gap as nat) + Seq::<char>::empty());
        }
        i = i + 1;
    }
    proof {
        assert(names.take(names.len() as int) =~= names);
        if names.len() == 0 {
            assert(s@ =~= header_row(names, name_w as nat, gap as nat));
        }
    }
    s
}

/// The lifeline bars of the first `i` actors that a row's content does
/// not cover (`lo <= x < hi`), as column and text.
pub open spec fn row_bars(i: nat, name_w: nat, gap: nat, lo: int, hi: int) -> Seq<(usize, Seq<char>)>
    decreases i,
{
    if i == 0 {
        Seq::empty()
    } else {
        let cx = spec_center_x((i - 1) as nat, name_w, gap);
        row_bars((i - 1) as nat, name_w, gap, lo, hi) + if !(cx >= lo && cx < hi) {
            seq![(cx as usize, "│"@)]
        } else {
            Seq::empty()
        }
    }
}

/// A row of lifelines with `content` written from column `content_x`:
/// the bars it covers are left out, and the rest laid out by column.
fn row_with_content(n: usize, name_w: usize, gap: usize, content_x: usize, content_text: &[char]) -> (r: Vec<char>)
    requires
        name_w + gap <= usize::MAX,
        n == 0 || spec_center_x((n - 1) as nat, name_w as nat, gap as nat) <= usize::MAX,
    ensures
        r@ == lay(
            by_column(
                row_bars(
                    n as nat,
                    name_w as nat,
                    gap as nat,
                    content_x as int,
                    sat((content_x + sat(str_width(content_text@))) as nat) as int,
                ) + seq![(content_x, content_text@)],
            ),
        ).0,
{
    let content_w = width_of(content_text);
    let content_end = content_x.saturating_add(content_w);
    let mut frags: Vec<Frag> = Vec::new();
    let mut i: usize = 0;
    assert(frag_views(frags@) =~= Seq::<(usize, Seq<char>)>::empty());
    while i < n
        invariant
            i <= n,
            name_w + gap <= usize::MAX,
            n == 0 || spec_center_x((n - 1) as nat, name_w as nat, gap as nat) <= usize::MAX,
            frag_views(frags@) == row_bars(i as nat, name_w as nat, gap as nat, content_x as int, content_end as int),
        decreases n - i,
    {
        let ghost fv0 = frag_views(frags@);
        proof {
            assert(i * (name_w + gap) <= (n - 1) * (name_w + gap)) by (nonlinear_arith)
                requires
                    i <= n - 1,
            ;
        }
        let cx = center_x(i, name_w, gap);
        if !(cx >= content_x && cx < content_end) {
            let bar = chars_of("│");
            frags.push(Frag { x: cx, text: bar });
            assert(frag_views(frags@) =~= fv0 + seq![(cx, "│"@)]);
        } else {
            assert(frag_views(frags@) =~= fv0 + Seq::<(usize, Seq<char>)>::empty());
        }
        i = i + 1;
    }
    let ghost fv1 = frag_views(frags@);
    frags.push(Frag { x: content_x, text: crate::text::to_vec(content_text) });
    assert(frag_views(frags@) =~= fv1 + seq![(content_x, content_text@)]);
    assemble(frags)
}

/// The middle of a message arrow: a bare line, or the label between two
/// short lines.
pub open spec fn arrow_mid(label: Seq<char>) -> Seq<char> {
    if label.len() == 0 {
        "────"@
    } else {
        "──"@ + label + "──"@
    }
}

/// A message row's content: sender, line and arrow head, receiver, read
/// left to right; a backward message starts at the receiver.
pub open spec fn spec_message_content(from: Seq<char>, to: Seq<char>, label: Seq<char>, forward: bool) -> Seq<char> {
    if forward {
        from + arrow_mid(label) + "►"@ + to
    } else {
        to + "◄"@ + arrow_mid(label) + from
    }
}

fn message_content(from_disp: &[char], to_disp: &[char], label_disp: &[char], forward: bool) -> (r: Vec<char>)
    ensures
        r@ == spec_message_content(from_disp@, to_disp@, label_disp@, forward),
{
    let mut mid: Vec<char> = Vec::new();
    if label_disp.len() == 0 {
        push_str_chars(&mut mid, "────");
    } else {
        push_str_chars(&mut mid, "──");
        mid = concat(mid.as_slice(), label_disp);
        push_str_chars(&mut mid, "──");
    }
    let mut out: Vec<char> = Vec::new();
    if forward {
        out = concat(out.as_slice(), from_disp);
        out = concat(out.as_slice(), mid.as_slice());
        push_str_chars(&mut out, "►");
        out = concat(out.as_slice(), to_disp);
    } else {
        out = concat(out.as_slice(), to_disp);
        push_str_chars(&mut out, "◄");
        out = concat(out.as_slice(), mid.as_slice());
        out = concat(out.as_slice(), from_disp);
    }
    proof {
        assert(Seq::<char>::empty() + "────"@ =~= "────"@);
        assert(Seq::<char>::empty() + "──"@ =~= "──"@);
        assert(Seq::<char>::empty() + from_disp@ =~= from_disp@);
        assert(Seq::<char>::empty() + to_disp@ =~= to_disp@);
    }
    out
}

/// A row of lifelines with `content` written from column `x` (see
/// [`row_with_content`]).
pub open spec fn row_spec(n: nat, name_w: nat, gap: nat, x: usize, content: Seq<char>) -> Seq<char> {
    lay(
        by_column(
            row_bars(n, name_w, gap, x as int, sat((x + sat(str_width(content))) as nat) as int) + seq![(x, content)],
        ),
    ).0
}

/// The three rows of a message from actor `idx` to itself: the line out,
/// the label, the arrow back.
pub open spec fn self_rows(n: nat, name_w: nat, gap: nat, idx: nat, label: Seq<char>) -> Seq<Seq<char>> {
    let cx = spec_center_x(idx, name_w, gap) as usize;
    seq![
        row_spec(n, name_w, gap, cx, "─┐"@),
        row_spec(n, name_w, gap, cx, "│"@ + if label.len() > 0 { " "@ + label } else { Seq::empty() }),
        row_spec(n, name_w, gap, cx, "◄┘"@),
    ]
}

fn self_loop_rows(n: usize, name_w: usize, gap: usize, idx: usize, label_disp: &[char]) -> (r: Vec<Vec<char>>)
    requires
        idx < n,
        name_w + gap <= usize::MAX,
        spec_center_x((n - 1) as nat, name_w as nat, gap as nat) <= usize::MAX,
    ensures
        r@.len() == 3,
        r.deep_view() == self_rows(n as nat, name_w as nat, gap as nat, idx as nat, label_disp@),
{
    proof {
        assert(idx * (name_w + gap) <= (n - 1) * (name_w + gap)) by (nonlinear_arith)
            requires
                idx <= n - 1,
        ;
    }
    let cx = center_x(idx, name_w, gap);
    let mut row2: Vec<char> = Vec::new();
    push_str_chars(&mut row2, "│");
    if label_disp.len() > 0 {
        push_str_chars(&mut row2, " ");
        row2 = concat(row2.as_slice(), label_disp);
    }
    proof {
        if label_disp@.len() > 0 {
            assert(row2@ =~= "│"@ + (" "@ + label_disp@));
        } else {
            assert(row2@ =~= "│"@ + Seq::<char>::empty());
        }
    }
    let top = chars_of("─┐");
    let bottom = chars_of("◄┘");
    let mut rows: Vec<Vec<char>> = Vec::new();
    rows.push(row_with_content(n, name_w, gap, cx, top.as_slice()));
    rows.push(row_with_content(n, name_w, gap, cx, row2.as_slice()));
    rows.push(row_with_content(n, name_w, gap, cx, bottom.as_slice()));
    proof {
        let sr = self_rows(n as nat, name_w as nat, gap as nat, idx as nat, label_disp@);
        assert(spec_center_x(idx as nat, name_w as nat, gap as nat) as usize == cx);
        assert(rows.deep_view().len() == 3);
        assert(rows.deep_view()[0] == rows@[0]@);
        assert(rows.deep_view()[1] == rows@[1]@);
        assert(rows.deep_view()[2] == rows@[2]@);
        assert(rows@[0]@ == sr[0]);
        assert(rows@[1]@ == sr[1]);
        assert(rows@[2]@ == sr[2]);
        assert(rows.deep_view() =~= sr);
    }
    rows
}

/// Index of the first actor named `name`.
fn actor_pos(actors: &Vec<String>, name: &String) -> (r: Option<usize>)
    ensures
        match r {
            Some(k) => k < actors@.len() && actors@[k as int]@ == name@ && forall|j: int|
                0 <= j < k ==> actors@[j]@ != name@,
            None => forall|j: int| 0 <= j < actors@.len() ==> actors@[j]@ != name@,
        },
{
    let mut i: usize = 0;
    while i < actors.len()
        invariant
            i <= actors.len(),
            forall|j: int| 0 <= j < i ==> actors@[j]@ != name@,
        decreases actors.len() - i,
    {
        if actors[i] == *name {
            return Some(i);
        }
        i = i + 1;
    }
    None
}

/// The names as the header shows them at `budget`.
pub open spec fn disp_names(actors: Seq<Seq<char>>, budget: Option<usize>) -> Seq<Seq<char>> {
    actors.map_values(|a: Seq<char>| spec_trunc(a, budget))
}

/// The column width of a name: the widest shown name, at least one.
pub open spec fn name_width(disp: Seq<Seq<char>>) -> nat
    decreases disp.len(),
{
    if disp.len() == 0 {
        1
    } else {
        let w = name_width(disp.drop_last());
        let d = sat(str_width(disp.last())) as nat;
        if d > w { d } else { w }
    }
}

/// The rows of one message: three for a message to its own sender, else
/// one with the arrow between the two lifelines; `None` when an endpoint
/// is not an actor.
pub open spec fn message_rows(actors: Seq<Seq<char>>, disp: Seq<Seq<char>>, m: MessageV, name_w: nat, budget: Option<usize>) -> Option<Seq<Seq<char>>> {
    match (crate::markdown::index_in(actors, m.from), crate::markdown::index_in(actors, m.to)) {
        (Some(fi), Some(ti)) => {
            let lab = spec_trunc(m.label, budget);
            let n = actors.len();
            if fi == ti {
                Some(self_rows(n, name_w, GAP as nat, fi as nat, lab))
            } else {
                let left = if fi < ti { fi } else { ti };
                Some(seq![row_spec(n, name_w, GAP as nat, spec_center_x(left as nat, name_w, GAP as nat) as usize,
                    spec_message_content(disp[fi], disp[ti], lab, ti > fi))])
            }
        },
        _ => None,
    }
}

/// The rows of all messages, in order; `None` when one has an endpoint
/// that is not an actor.
pub open spec fn all_message_rows(actors: Seq<Seq<char>>, disp: Seq<Seq<char>>, ms: Seq<MessageV>, name_w: nat, budget: Option<usize>) -> Option<Seq<Seq<char>>>
    decreases ms.len(),
{
    if ms.len() == 0 {
        Some(Seq::empty())
    } else {
        match all_message_rows(actors, disp, ms.drop_last(), name_w, budget) {
            Some(rs) => match message_rows(actors, disp, ms.last(), name_w, budget) {
                Some(x) => Some(rs + x),
                None => None,
            },
            None => None,
        }
    }
}

/// The widest of some rows, in columns.
pub open spec fn widest_row(rows: Seq<Seq<char>>) -> nat
    decreases rows.len(),
{
    if rows.len() == 0 {
        0
    } else {
        let w = widest_row(rows.drop_last());
        let d = sat(str_width(rows.last())) as nat;
        if d > w { d } else { w }
    }
}

/// The rows of a sequence diagram at one abbreviation budget: `None` when
/// the names alone cannot fit `width`, an endpoint is not an actor, or the
/// widest row is wider than `width`; else the header and the message rows,
/// each padded to the widest.
pub open spec fn seq_rows(actors: Seq<Seq<char>>, ms: Seq<MessageV>, budget: Option<usize>, width: nat) -> Option<Seq<Seq<char>>> {
    let n = actors.len();
    let disp = disp_names(actors, budget);
    let nw = name_width(disp);
    if nw > width || n > width || n * (nw + 2) > width + 2 {
        None
    } else {
        match all_message_rows(actors, disp, ms, nw, budget) {
            None => None,
            Some(rs) => {
                let rows = seq![header_row(disp, nw, GAP as nat)] + rs;
                let ow = widest_row(rows);
                if ow > width {
                    None
                } else {
                    Some(rows.map_values(|r: Seq<char>| spec_pad_to_width(r, ow)))
                }
            },
        }
    }
}

proof fn lemma_rows_none(actors: Seq<Seq<char>>, disp: Seq<Seq<char>>, ms: Seq<MessageV>, name_w: nat, budget: Option<usize>, m: int)
    requires
        0 <= m <= ms.len(),
        all_message_rows(actors, disp, ms.take(m), name_w, budget) is None,
    ensures
        all_message_rows(actors, disp, ms, name_w, budget) is None,
    decreases ms.len() - m,
{
    if m < ms.len() {
        assert(ms.take(m + 1).drop_last() =~= ms.take(m));
        lemma_rows_none(actors, disp, ms, name_w, budget, m + 1);
    } else {
        assert(ms.take(m) =~= ms);
    }
}

proof fn lemma_first_index(names: Seq<Seq<char>>, name: Seq<char>, k: int)
    requires
        0 <= k < names.len(),
        names[k] == name,
        forall|j: int| 0 <= j < k ==> names[j] != name,
    ensures
        crate::markdown::index_in(names, name) == Some(k),
{
    crate::markdown::lemma_index_in(names, name);
    match crate::markdown::index_in(names, name) {
        Some(i) => {
            if i < k {
            } else if i > k {
            }
        },
        None => {
            assert(names[k] != name);
        },
    }
}

/// The rows at one abbreviation budget, when every message's endpoints are
/// actors and the widest row fits in `width`: every row padded to the same
/// width, one header row plus one row per message (three for a self
/// message).
#[verifier::loop_isolation(false)]
#[verifier::rlimit(60)]
fn try_render(actors: &Vec<String>, messages: &Vec<Message>, budget: Option<usize>, width: usize) -> (r: Option<Vec<Vec<char>>>)
    requires
        width <= 0xffff,
    ensures
        r matches Some(rows) ==> {
            &&& rows.deep_view().len() == 1 + msg_rows(views(messages@))
            &&& uniform_within(rows.deep_view(), width as nat)
        },
        (match r {
            Some(rows) => Some(rows.deep_view()),
            None => None,
        }) == seq_rows(views(actors@), views(messages@), budget, width as nat),
{
    let ghost av = views(actors@);
    let ghost mv = views(messages@);
    let ghost disp = disp_names(av, budget);
    let n = actors.len();
    let mut actors_disp: Vec<Vec<char>> = Vec::new();
    let mut name_w: usize = 1;
    let mut i: usize = 0;
    assert(disp.take(0) =~= actors_disp.deep_view());
    while i < n
        invariant
            i <= n,
            n == actors@.len(),
            actors_disp@.len() == i,
            name_w >= 1,
            av == views(actors@),
            disp == disp_names(av, budget),
            actors_disp.deep_view() == disp.take(i as int),
            name_w == name_width(disp.take(i as int)),
        decreases n - i,
    {
        let a = chars_of(actors[i].as_str());
        let d = trunc(a.as_slice(), budget);
        let dw = width_of(d.as_slice());
        proof {
            assert(disp[i as int] == d@);
            assert(disp.take(i + 1).drop_last() =~= disp.take(i as int));
        }
        if dw > name_w {
            name_w = dw;
        }
        let ghost dv0 = actors_disp.deep_view();
        crate::text::push_chars(&mut actors_disp, d);
        proof {
            assert(actors_disp.deep_view() =~= dv0.push(disp[i as int]));
            assert(disp.take(i + 1) =~= disp.take(i as int).push(disp[i as int]));
        }
        i = i + 1;
    }
    assert(disp.take(n as int) =~= disp);
    // A header wider than `width` can never fit: stop before any column
    // arithmetic, which stays within `width` from here on.
    if name_w > width || n > width {
        return None;
    }
    let a: u64 = n as u64;
    let b: u64 = name_w as u64 + 2;
    assert(a * b <= 0xffff * 0x10001) by (nonlinear_arith)
        requires
            a <= 0xffff,
            b <= 0x10001,
    ;
    let span: u64 = a * b;
    if span > width as u64 + 2 {
        return None;
    }
    proof {
        if n > 0 {
            assert((n - 1) * (name_w + GAP) <= n * (name_w + GAP)) by (nonlinear_arith)
                requires
                    n >= 1,
            ;
            assert(spec_center_x((n - 1) as nat, name_w as nat, GAP as nat) <= 0x20000);
        }
    }
    let header = build_header(&actors_disp, name_w, GAP);
    let ghost hv = header@;
    let mut rows: Vec<Vec<char>> = Vec::new();
    crate::text::push_chars(&mut rows, header);
    assert(mv.take(0) =~= Seq::<MessageV>::empty());
    assert(rows.deep_view() =~= seq![hv] + Seq::<Seq<char>>::empty());
    let mut m: usize = 0;
    while m < messages.len()
        invariant
            m <= messages.len(),
            n == actors@.len(),
            n == actors_disp@.len(),
            n <= width,
            name_w <= width,
            width <= 0xffff,
            n == 0 || spec_center_x((n - 1) as nat, name_w as nat, GAP as nat) <= usize::MAX,
            rows@.len() == 1 + msg_rows(views(messages@).take(m as int)),
            av == views(actors@),
            mv == views(messages@),
            disp == disp_names(av, budget),
            actors_disp.deep_view() == disp,
            name_w == name_width(disp),
            all_message_rows(av, disp, mv.take(m as int), name_w as nat, budget) is Some,
            rows.deep_view() == seq![hv] + all_message_rows(av, disp, mv.take(m as int), name_w as nat, budget)->0,
        decreases messages.len() - m,
    {
        proof {
            assert(views(messages@).take(m + 1).drop_last() =~= views(messages@).take(m as int));
            assert(mv.take(m + 1).last() == mv[m as int]);
        }
        let msg = &messages[m];
        proof {
            assert(mv[m as int] == msg@);
        }
        let from_idx = match actor_pos(actors, &msg.from) {
            Some(k) => k,
            None => {
                proof {
                    crate::markdown::lemma_index_in(av, msg.from@);
                    if crate::markdown::index_in(av, msg.from@) is Some {
                        let q = crate::markdown::index_in(av, msg.from@)->0;
                        assert(av[q] == actors@[q]@);
                    }
                    lemma_rows_none(av, disp, mv, name_w as nat, budget, m + 1);
                }
                return None;
            },
        };
        proof {
            assert forall|j: int| 0 <= j < from_idx implies av[j] != msg.from@ by {
                assert(av[j] == actors@[j]@);
            }
            assert(av[from_idx as int] == actors@[from_idx as int]@);
            lemma_first_index(av, msg.from@, from_idx as int);
        }
        let to_idx = match actor_pos(actors, &msg.to) {
            Some(k) => k,
            None => {
                proof {
                    crate::markdown::lemma_index_in(av, msg.to@);
                    if crate::markdown::index_in(av, msg.to@) is Some {
                        let q = crate::markdown::index_in(av, msg.to@)->0;
                        assert(av[q] == actors@[q]@);
                    }
                    lemma_rows_none(av, disp, mv, name_w as nat, budget, m + 1);
                }
                return None;
            },
        };
        proof {
            assert forall|j: int| 0 <= j < to_idx implies av[j] != msg.to@ by {
                assert(av[j] == actors@[j]@);
            }
            assert(av[to_idx as int] == actors@[to_idx as int]@);
            lemma_first_index(av, msg.to@, to_idx as int);
            assert(views(messages@)[m as int] == messages@[m as int]@);
            assert((from_idx == to_idx) == (msg.from@ == msg.to@));
        }
        let lab = chars_of(msg.label.as_str());
        let label_disp = trunc(lab.as_slice(), budget);
        let ghost rv0 = rows.deep_view();
        let ghost prev = all_message_rows(av, disp, mv.take(m as int), name_w as nat, budget)->0;
        if from_idx == to_idx {
            let three = self_loop_rows(n, name_w, GAP, from_idx, label_disp.as_slice());
            let mut t: usize = 0;
            while t < 3
                invariant
                    t <= 3,
                    three@.len() == 3,
                    rows@.len() == 1 + msg_rows(views(messages@).take(m as int)) + t,
                    rows.deep_view() == rv0 + three.deep_view().take(t as int),
                decreases 3 - t,
            {
                let ghost rv1 = rows.deep_view();
                crate::text::push_chars(&mut rows, crate::text::to_vec(three[t].as_slice()));
                proof {
                    assert(rows.deep_view() =~= rv1.push(three@[t as int]@));
                    assert(three.deep_view()[t as int] == three@[t as int]@);
                    assert(three.deep_view().take(t + 1) =~= three.deep_view().take(t as int).push(three@[t as int]@));
                }
                t = t + 1;
            }
            proof {
                assert(three.deep_view().take(3) =~= three.deep_view());
                assert(rows.deep_view() =~= seq![hv] + (prev + self_rows(n as nat, name_w as nat, GAP as nat, from_idx as nat, label_disp@)));
            }
        } else {
            let forward = to_idx > from_idx;
            let left_idx = if from_idx < to_idx {
                from_idx
            } else {
                to_idx
            };
            proof {
                assert(left_idx * (name_w + GAP) <= (n - 1) * (name_w + GAP)) by (nonlinear_arith)
                    requires
                        left_idx <= n - 1,
                ;
            }
            let content_x = center_x(left_idx, name_w, GAP);
            proof {
                assert(disp[from_idx as int] == actors_disp@[from_idx as int]@);
                assert(disp[to_idx as int] == actors_disp@[to_idx as int]@);
            }
            let content = message_content(
                actors_disp[from_idx].as_slice(),
                actors_disp[to_idx].as_slice(),
                label_disp.as_slice(),
                forward,
            );
            let row = row_with_content(n, name_w, GAP, content_x, content.as_slice());
            let ghost rw = row@;
            crate::text::push_chars(&mut rows, row);
            proof {
                assert(rows.deep_view() =~= rv0.push(rw));
                assert(rows.deep_view() =~= seq![hv] + (prev + seq![rw]));
            }
        }
        m = m + 1;
    }
    assert(views(messages@).take(messages@.len() as int) =~= views(messages@));
    let ghost allrows = rows.deep_view();
    let mut overall_w: usize = 0;
    let mut k: usize = 0;
    assert(allrows.take(0) =~= Seq::<Seq<char>>::empty());
    while k < rows.len()
        invariant
            k <= rows.len(),
            allrows == rows.deep_view(),
            forall|j: int| 0 <= j < k ==> sat(str_width(#[trigger] rows@[j]@)) <= overall_w,
            overall_w == widest_row(allrows.take(k as int)),
        decreases rows.len() - k,
    {
        proof {
            assert(allrows.take(k + 1).drop_last() =~= allrows.take(k as int));
            assert(allrows.take(k + 1).last() == rows@[k as int]@);
        }
        let w = width_of(rows[k].as_slice());
        if w > overall_w {
            overall_w = w;
        }
        k = k + 1;
    }
    assert(allrows.take(rows@.len() as int) =~= allrows);
    if overall_w > width {
        return None;
    }
    let ghost padded = allrows.map_values(|r: Seq<char>| spec_pad_to_width(r, overall_w as nat));
    let mut out: Vec<Vec<char>> = Vec::new();
    let mut k: usize = 0;
    assert(out.deep_view() =~= padded.take(0));
    while k < rows.len()
        invariant
            k <= rows.len(),
            overall_w <= width,
            width <= 0xffff,
            allrows == rows.deep_view(),
            padded == allrows.map_values(|r: Seq<char>| spec_pad_to_width(r, overall_w as nat)),
            forall|j: int| 0 <= j < rows@.len() ==> sat(str_width(#[trigger] rows@[j]@)) <= overall_w,
            out.deep_view().len() == k,
            forall|j: int| 0 <= j < k ==> str_width(#[trigger] out.deep_view()[j]) == overall_w,
            out.deep_view() == padded.take(k as int),
        decreases rows.len() - k,
    {
        proof {
            assert(sat(str_width(rows@[k as int]@)) <= overall_w);
        }
        let p = pad_to_width(rows[k].as_slice(), overall_w);
        let ghost o0 = out.deep_view();
        crate::text::push_chars(&mut out, p);
        proof {
            assert(padded.take(k + 1) =~= padded.take(k as int).push(padded[k as int]));
            assert(allrows[k as int] == rows@[k as int]@);
            assert(padded[k as int] == spec_pad_to_width(rows@[k as int]@, overall_w as nat));
        }
        k = k + 1;
    }
    assert(padded.take(rows@.len() as int) =~= padded);
    Some(out)
}

/// The widest of `ws` in columns, or `start` when that is wider.
pub open spec fn max_from(ws: Seq<Seq<char>>, start: nat) -> nat
    decreases ws.len(),
{
    if ws.len() == 0 {
        start
    } else {
        let w = max_from(ws.drop_last(), start);
        let d = sat(str_width(ws.last())) as nat;
        if d > w { d } else { w }
    }
}

/// The labels of messages.
pub open spec fn labels_of(ms: Seq<MessageV>) -> Seq<Seq<char>> {
    ms.map_values(|m: MessageV| m.label)
}

/// The widest name or label, at least one column.
pub open spec fn natural_width(actors: Seq<Seq<char>>, ms: Seq<MessageV>) -> nat {
    max_from(labels_of(ms), max_from(actors, 1))
}

/// The first budget that is tried: one less than the natural width, at
/// least the smallest budget.
pub open spec fn first_budget(actors: Seq<Seq<char>>, ms: Seq<MessageV>) -> nat {
    if natural_width(actors, ms) - 1 > MIN_BUDGET { (natural_width(actors, ms) - 1) as nat } else { MIN_BUDGET as nat }
}

/// The rows at the first budget from `b` down to the smallest that fits.
pub open spec fn fit_from(actors: Seq<Seq<char>>, ms: Seq<MessageV>, width: nat, b: nat) -> Option<Seq<Seq<char>>>
    decreases b,
{
    match seq_rows(actors, ms, Some(b as usize), width) {
        Some(rows) => Some(rows),
        None => if b > MIN_BUDGET { fit_from(actors, ms, width, (b - 1) as nat) } else { None },
    }
}

/// The rows of a sequence diagram: names and labels in full when they
/// fit, else abbreviated to the widest budget that fits, from one less
/// than the natural width down to the smallest budget.
pub open spec fn seq_layout(actors: Seq<Seq<char>>, ms: Seq<MessageV>, width: nat) -> Option<Seq<Seq<char>>> {
    match seq_rows(actors, ms, None, width) {
        Some(rows) => Some(rows),
        None => fit_from(actors, ms, width, first_budget(actors, ms)),
    }
}

/// Renders a sequence diagram in at most `width` columns, abbreviating
/// names and labels further on each attempt (never below three columns).
#[verifier::loop_isolation(false)]
pub fn layout(diagram: &Diagram, width: u16) -> (r: Result<Vec<String>, Fallback>)
    ensures
        match r {
            Ok(lines) => {
                &&& diagram@ matches DiagramV::Sequence { actors, messages }
                &&& actors.len() > 0
                &&& lines@.len() == 1 + msg_rows(messages)
                &&& uniform_within(views(lines@), width as nat)
            },
            Err(f) => match f@ {
                FallbackV::Empty { kind } => kind == "sequence"@ && match diagram@ {
                    DiagramV::Sequence { actors, messages } => actors.len() == 0,
                    _ => true,
                },
                FallbackV::Overflow { kind } => kind == "sequence"@ && (match diagram@ {
                    DiagramV::Sequence { actors, messages } => actors.len() > 0,
                    _ => false,
                }),
            },
        },
        match diagram@ {
            DiagramV::Sequence { actors, messages } => actors.len() > 0 ==> match r {
                Ok(lines) => seq_layout(actors, messages, width as nat) == Some(views(lines@)),
                Err(_) => seq_layout(actors, messages, width as nat) is None,
            },
            _ => true,
        },
{
    let (actors, messages) = match diagram {
        Diagram::Sequence { actors, messages } => (actors, messages),
        _ => return Err(super::empty_fallback("sequence")),
    };
    if actors.len() == 0 {
        return Err(super::empty_fallback("sequence"));
    }
    let ghost av = views(actors@);
    let ghost mv = views(messages@);
    let ghost lv = labels_of(mv);
    let mut natural_max: usize = 1;
    let mut i: usize = 0;
    assert(av.take(0) =~= Seq::<Seq<char>>::empty());
    while i < actors.len()
        invariant
            i <= actors.len(),
            natural_max >= 1,
            av == views(actors@),
            natural_max == max_from(av.take(i as int), 1),
        decreases actors.len() - i,
    {
        proof {
            assert(av.take(i + 1).drop_last() =~= av.take(i as int));
            assert(av.take(i + 1).last() == actors@[i as int]@);
        }
        let w = line_width(actors[i].as_str());
        if w > natural_max {
            natural_max = w;
        }
        i = i + 1;
    }
    assert(av.take(actors@.len() as int) =~= av);
    let mut j: usize = 0;
    assert(lv.take(0) =~= Seq::<Seq<char>>::empty());
    while j < messages.len()
        invariant
            j <= messages.len(),
            natural_max >= 1,
            lv == labels_of(mv),
            mv == views(messages@),
            natural_max == max_from(lv.take(j as int), max_from(av, 1)),
        decreases messages.len() - j,
    {
        proof {
            assert(lv.take(j + 1).drop_last() =~= lv.take(j as int));
            assert(lv.take(j + 1).last() == messages@[j as int].label@);
        }
        let w = line_width(messages[j].label.as_str());
        if w > natural_max {
            natural_max = w;
        }
        j = j + 1;
    }
    assert(lv.take(messages@.len() as int) =~= lv);
    let ghost b0 = first_budget(av, mv);
    let ghost goal = seq_layout(av, mv, width as nat);
    let mut budget: Option<usize> = None;
    let max_attempts = natural_max.saturating_add(1);
    let mut attempt: usize = 0;
    loop
        invariant
            attempt <= max_attempts,
            natural_max >= 1,
            natural_max == natural_width(av, mv),
            max_attempts == natural_max + 1 || (natural_max == usize::MAX && max_attempts == usize::MAX),
            actors@.len() > 0,
            av == views(actors@),
            mv == views(messages@),
            b0 == first_budget(av, mv),
            goal == seq_layout(av, mv, width as nat),
            diagram@ == (DiagramV::Sequence { actors: views(actors@), messages: views(messages@) }),
            budget is None ==> attempt == 0,
            budget matches Some(b) ==> MIN_BUDGET <= b <= b0 && attempt + b == b0 + 1 && goal == fit_from(av, mv, width as nat, b as nat),
        decreases max_attempts - attempt,
    {
        if let Some(lines) = try_render(actors, messages, budget, width as usize) {
            let mut out: Vec<String> = Vec::new();
            let mut k: usize = 0;
            while k < lines.len()
                invariant
                    k <= lines.len(),
                    views(out@) == lines.deep_view().take(k as int),
                decreases lines.len() - k,
            {
                proof {
                    crate::text::lemma_chars_deep_view(lines@[k as int]);
                    assert(lines.deep_view().take(k + 1) =~= lines.deep_view().take(k as int).push(lines.deep_view()[k as int]));
                }
                out.push(string_of(lines[k].as_slice()));
                k = k + 1;
            }
            assert(lines.deep_view().take(lines.len() as int) =~= lines.deep_view());
            assert(views(out@) == lines.deep_view());
            assert(out@.len() == 1 + msg_rows(views(messages@)));
            assert(uniform_within(views(out@), width as nat));
            assert(goal == Some(views(out@)));
            assert(diagram@ == DiagramV::Sequence { actors: views(actors@), messages: views(messages@) });
            return Ok(out);
        }
        let next = match budget {
            None => {
                let b = natural_max - 1;
                if b > MIN_BUDGET {
                    b
                } else {
                    MIN_BUDGET
                }
            },
            Some(b) => {
                if b > MIN_BUDGET {
                    b - 1
                } else {
                    assert(goal is None);
                    break;
                }
            },
        };
        proof {
            assert(goal == fit_from(av, mv, width as nat, next as nat));
            assert(attempt + next == b0);
        }
        if budget == Some(next) {
            break;
        }
        budget = Some(next);
        proof {
            assert(next >= MIN_BUDGET);
            assert(b0 <= if natural_max - 1 > MIN_BUDGET { natural_max - 1 } else { MIN_BUDGET as int });
            assert(attempt != max_attempts);
        }
        if attempt == max_attempts {
            break;
        }
        attempt = attempt + 1;
    }
    Err(Fallback::Overflow { kind: "sequence".to_owned() })
}

} // verus!
