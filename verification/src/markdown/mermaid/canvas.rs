//! A character grid for drawing diagram connectors. Box-drawing characters
//! merge through direction bitmasks, so two crossing lines become a
//! junction (`┼`, `├`, ...) instead of one overwriting the other.

use vstd::prelude::*;
use crate::text::chars_of;
use crate::width::{char_width, char_width_of};

verus! {

/// Marker for the trailing cell of a double-width glyph.
pub const CONT: char = '\u{0}';

pub const UP: u8 = 1;
pub const RIGHT: u8 = 2;
pub const DOWN: u8 = 4;
pub const LEFT: u8 = 8;

/// The direction bitmask of a box-drawing character.
pub open spec fn spec_box_mask(ch: char) -> Option<u8> {
    if ch == '─' {
        Some(10u8)
    } else if ch == '│' {
        Some(5u8)
    } else if ch == '┌' {
        Some(6u8)
    } else if ch == '┐' {
        Some(12u8)
    } else if ch == '└' {
        Some(3u8)
    } else if ch == '┘' {
        Some(9u8)
    } else if ch == '├' {
        Some(7u8)
    } else if ch == '┤' {
        Some(13u8)
    } else if ch == '┬' {
        Some(14u8)
    } else if ch == '┴' {
        Some(11u8)
    } else if ch == '┼' {
        Some(15u8)
    } else {
        None
    }
}

/// The box-drawing character of a bitmask, `┼` for one without its own.
pub open spec fn spec_mask_char(mask: u8) -> char {
    if mask == 10 {
        '─'
    } else if mask == 5 {
        '│'
    } else if mask == 6 {
        '┌'
    } else if mask == 12 {
        '┐'
    } else if mask == 3 {
        '└'
    } else if mask == 9 {
        '┘'
    } else if mask == 7 {
        '├'
    } else if mask == 13 {
        '┤'
    } else if mask == 14 {
        '┬'
    } else if mask == 11 {
        '┴'
    } else {
        '┼'
    }
}

pub fn box_mask(ch: char) -> (r: Option<u8>)
    ensures
        r == spec_box_mask(ch),
{
    if ch == '─' {
        Some(10)
    } else if ch == '│' {
        Some(5)
    } else if ch == '┌' {
        Some(6)
    } else if ch == '┐' {
        Some(12)
    } else if ch == '└' {
        Some(3)
    } else if ch == '┘' {
        Some(9)
    } else if ch == '├' {
        Some(7)
    } else if ch == '┤' {
        Some(13)
    } else if ch == '┬' {
        Some(14)
    } else if ch == '┴' {
        Some(11)
    } else if ch == '┼' {
        Some(15)
    } else {
        None
    }
}

/// Whether `ch` is one of the connector glyphs the canvas draws
/// (`─│┌┐└┘├┤┬┴┼`).
pub fn is_connector_char(ch: char) -> (r: bool)
    ensures
        r == spec_box_mask(ch) is Some,
{
    box_mask(ch).is_some()
}

pub fn mask_char(mask: u8) -> (r: char)
    ensures
        r == spec_mask_char(mask),
{
    if mask == 10 {
        '─'
    } else if mask == 5 {
        '│'
    } else if mask == 6 {
        '┌'
    } else if mask == 12 {
        '┐'
    } else if mask == 3 {
        '└'
    } else if mask == 9 {
        '┘'
    } else if mask == 7 {
        '├'
    } else if mask == 13 {
        '┤'
    } else if mask == 14 {
        '┬'
    } else if mask == 11 {
        '┴'
    } else {
        '┼'
    }
}

/// A `w` by `h` grid of cells, row after row.
pub struct Canvas {
    w: usize,
    h: usize,
    cells: Vec<char>,
}

proof fn lemma_cell_index(x: int, y: int, w: int, h: int)
    requires
        0 <= x < w,
        0 <= y < h,
    ensures
        0 <= y * w + x < w * h,
        (y + 1) * w <= w * h,
        y * w + w == (y + 1) * w,
{
    assert(y * w + x < w * h) by (nonlinear_arith)
        requires
            0 <= x < w,
            0 <= y < h,
    ;
    assert(0 <= y * w) by (nonlinear_arith)
        requires
            0 <= y,
            0 <= w,
    ;
    assert((y + 1) * w <= w * h) by (nonlinear_arith)
        requires
            0 <= y < h,
            0 <= w,
    ;
    assert(y * w + w == (y + 1) * w) by (nonlinear_arith);
}

proof fn lemma_index_unique(p: int, q: int, x: int, y: int, w: int)
    requires
        0 <= p < w,
        0 <= x < w,
        0 <= q,
        0 <= y,
        q * w + p == y * w + x,
    ensures
        p == x,
        q == y,
{
    if q < y {
        assert(q * w + w <= y * w) by (nonlinear_arith)
            requires
                q < y,
                0 <= w,
        ;
    } else if q > y {
        assert(y * w + w <= q * w) by (nonlinear_arith)
            requires
                y < q,
                0 <= w,
        ;
    }
}

/// What drawing `ch` over `prev` leaves: two different connector glyphs
/// merge into their junction, anything else is overwritten.
pub open spec fn merge_glyph(prev: char, ch: char) -> char {
    match (spec_box_mask(prev), spec_box_mask(ch)) {
        (Some(a), Some(b)) => if a != b { spec_mask_char(a | b) } else { ch },
        _ => ch,
    }
}

/// Every cell outside columns `lo..=hi` of rows `top..=bottom` is the same
/// in both canvases.
pub open spec fn same_outside(a: Canvas, b: Canvas, lo: int, hi: int, top: int, bottom: int) -> bool {
    forall|i: int, j: int| (j < top || j > bottom || i < lo || i > hi) ==> #[trigger] b.cell(i, j) == a.cell(i, j)
}

/// The columns that writing `cs` from column `cx` takes on a grid `w`
/// wide: each character its width (none for a control character), up to
/// a newline or the first character that starts at or past the edge.
pub open spec fn text_cols(cs: Seq<char>, cx: int, w: int) -> int
    decreases cs.len(),
{
    if cs.len() == 0 || cs[0] == '\n' {
        0
    } else {
        let c = match char_width_of(cs[0]) {
            Some(v) => v as int,
            None => 0,
        };
        if c == 0 {
            text_cols(cs.drop_first(), cx, w)
        } else if cx >= w {
            0
        } else {
            c + text_cols(cs.drop_first(), cx + c, w)
        }
    }
}

impl Canvas {
    /// The grid is as big as its dimensions.
    pub closed spec fn wf(&self) -> bool {
        &&& self.cells@.len() == self.w * self.h
        &&& self.w * self.h <= usize::MAX
    }

    pub closed spec fn width(&self) -> nat {
        self.w as nat
    }

    pub closed spec fn height(&self) -> nat {
        self.h as nat
    }

    /// The cell at `(x, y)`, `' '` outside the grid.
    pub closed spec fn cell(&self, x: int, y: int) -> char {
        if 0 <= x < self.w && 0 <= y < self.h {
            self.cells@[y * self.w + x]
        } else {
            ' '
        }
    }

    /// A blank `w` by `h` canvas.
    pub fn new(w: usize, h: usize) -> (c: Canvas)
        requires
            w * h <= usize::MAX,
        ensures
            c.wf(),
            c.width() == w,
            c.height() == h,
            forall|x: int, y: int| #[trigger] c.cell(x, y) == ' ',
    {
        let n = w * h;
        let mut cells: Vec<char> = Vec::new();
        let mut i: usize = 0;
        while i < n
            invariant
                i <= n,
                cells@.len() == i,
                forall|k: int| 0 <= k < i ==> cells@[k] == ' ',
            decreases n - i,
        {
            cells.push(' ');
            i = i + 1;
        }
        let c = Canvas { w, h, cells };
        assert forall|x: int, y: int| #[trigger] c.cell(x, y) == ' ' by {
            if 0 <= x < w && 0 <= y < h {
                lemma_cell_index(x, y, w as int, h as int);
            }
        }
        c
    }

    fn idx(&self, x: usize, y: usize) -> (r: Option<usize>)
        requires
            self.wf(),
        ensures
            match r {
                Some(i) => x < self.w && y < self.h && i == y * self.w + x && i < self.cells@.len(),
                None => !(x < self.w && y < self.h),
            },
    {
        if x < self.w && y < self.h {
            proof {
                lemma_cell_index(x as int, y as int, self.w as int, self.h as int);
            }
            Some(y * self.w + x)
        } else {
            None
        }
    }

    /// The character at `(x, y)`, a space outside the grid.
    pub fn get(&self, x: usize, y: usize) -> (r: char)
        requires
            self.wf(),
        ensures
            r == self.cell(x as int, y as int),
    {
        match self.idx(x, y) {
            Some(i) => self.cells[i],
            None => ' ',
        }
    }

    /// Overwrites one cell, clearing the other half of a double-width glyph
    /// that the write splits.
    pub fn set(&mut self, x: usize, y: usize, ch: char)
        requires
            old(self).wf(),
        ensures
            final(self).wf(),
            final(self).width() == old(self).width(),
            final(self).height() == old(self).height(),
            x < old(self).width() && y < old(self).height() ==> final(self).cell(x as int, y as int) == ch,
            !(x < old(self).width() && y < old(self).height()) ==> *final(self) == *old(self),
            same_outside(*old(self), *final(self), x - 1, x + 1, y as int, y as int),
            final(self).cell(x - 1, y as int) == (if x < old(self).width() && y < old(self).height()
                && old(self).cell(x as int, y as int) == CONT && x > 0 { ' ' } else { old(self).cell(x - 1, y as int) }),
            final(self).cell(x + 1, y as int) == (if x + 1 < old(self).width() && y < old(self).height()
                && old(self).cell(x + 1, y as int) == CONT && char_width_of(old(self).cell(x as int, y as int)) == Some(2usize)
                { ' ' } else { old(self).cell(x + 1, y as int) }),
    {
        let i = match self.idx(x, y) {
            Some(i) => i,
            None => {
                return;
            },
        };
        proof {
            lemma_cell_index(x as int, y as int, self.w as int, self.h as int);
        }
        let ghost c0 = *self;
        if self.cells[i] == CONT && x > 0 {
            let j = i - 1;
            self.cells.set(j, ' ');
        }
        if x + 1 < self.w && self.cells[i + 1] == CONT {
            let wide = match char_width(self.cells[i]) {
                Some(cw) => cw == 2,
                None => false,
            };
            if wide {
                self.cells.set(i + 1, ' ');
            }
        }
        self.cells.set(i, ch);
        proof {
            let w = self.w as int;
            assert forall|p: int, q: int| (q < y || q > y || p < x - 1 || p > x + 1) implies #[trigger] self.cell(p, q) == c0.cell(p, q) by {
                if 0 <= p < w && 0 <= q < self.h {
                    lemma_cell_index(p, q, w, self.h as int);
                    let k = q * w + p;
                    if k == i - 1 && x > 0 {
                        lemma_index_unique(p, q, x - 1, y as int, w);
                    }
                    if k == i {
                        lemma_index_unique(p, q, x as int, y as int, w);
                    }
                    if k == i + 1 && x + 1 < w {
                        lemma_index_unique(p, q, x + 1, y as int, w);
                    }
                }
            }
            if x > 0 {
                assert(y * w + (x - 1) == i - 1);
            }
            if x + 1 < w {
                assert(y * w + (x + 1) == i + 1);
            }
        }
    }

    /// Draws a character, merging box-drawing characters with the one
    /// already there into a junction; anything else overwrites.
    pub fn draw(&mut self, x: usize, y: usize, ch: char)
        requires
            old(self).wf(),
        ensures
            final(self).wf(),
            final(self).width() == old(self).width(),
            final(self).height() == old(self).height(),
            x < old(self).width() && y < old(self).height() ==> final(self).cell(x as int, y as int) == merge_glyph(
                old(self).cell(x as int, y as int),
                ch,
            ),
            !(x < old(self).width() && y < old(self).height()) ==> *final(self) == *old(self),
            same_outside(*old(self), *final(self), x - 1, x + 1, y as int, y as int),
            old(self).cell(x as int, y as int) != CONT ==> final(self).cell(x - 1, y as int) == old(self).cell(x - 1, y as int),
            old(self).cell(x + 1, y as int) != CONT ==> final(self).cell(x + 1, y as int) == old(self).cell(x + 1, y as int),
            final(self).cell(x - 1, y as int) == old(self).cell(x - 1, y as int) || final(self).cell(x - 1, y as int) == ' ',
            final(self).cell(x + 1, y as int) == old(self).cell(x + 1, y as int) || final(self).cell(x + 1, y as int) == ' ',
    {
        let old_ch = self.get(x, y);
        match (box_mask(old_ch), box_mask(ch)) {
            (Some(a), Some(b)) => {
                if a != b {
                    self.set(x, y, mask_char(a | b));
                } else {
                    self.set(x, y, ch);
                }
            },
            _ => self.set(x, y, ch),
        }
    }

    /// Writes `ch` only into a blank cell.
    pub fn draw_soft(&mut self, x: usize, y: usize, ch: char)
        requires
            old(self).wf(),
        ensures
            final(self).wf(),
            final(self).width() == old(self).width(),
            final(self).height() == old(self).height(),
            old(self).cell(x as int, y as int) != ' ' ==> *final(self) == *old(self),
            old(self).cell(x as int, y as int) == ' ' && x < old(self).width() && y < old(self).height()
                ==> final(self).cell(x as int, y as int) == ch,
            same_outside(*old(self), *final(self), x as int, x + 1, y as int, y as int),
            old(self).cell(x + 1, y as int) != CONT ==> final(self).cell(x + 1, y as int) == old(self).cell(x + 1, y as int),
    {
        if self.get(x, y) == ' ' {
            self.set(x, y, ch);
        }
    }

    /// Writes `s` from `(x, y)` on, a double-width glyph taking two cells;
    /// stops at a newline or the right edge. Returns the columns used.
    pub fn text(&mut self, x: usize, y: usize, s: &str) -> (used: usize)
        requires
            old(self).wf(),
            old(self).width() + 4 <= usize::MAX,
        ensures
            final(self).wf(),
            final(self).width() == old(self).width(),
            final(self).height() == old(self).height(),
            used == text_cols(s@, x as int, old(self).width() as int),
            same_outside(*old(self), *final(self), x - 1, old(self).width() as int, y as int, y as int),
    {
        let cs = chars_of(s);
        self.text_chars(x, y, cs.as_slice())
    }

    /// [`Canvas::text`] for a character slice.
    #[verifier::loop_isolation(false)]
    pub fn text_chars(&mut self, x: usize, y: usize, cs: &[char]) -> (used: usize)
        requires
            old(self).wf(),
            old(self).width() + 4 <= usize::MAX,
        ensures
            final(self).wf(),
            final(self).width() == old(self).width(),
            final(self).height() == old(self).height(),
            used == text_cols(cs@, x as int, old(self).width() as int),
            same_outside(*old(self), *final(self), x - 1, old(self).width() as int, y as int, y as int),
    {
        let ghost full = text_cols(cs@, x as int, old(self).width() as int);
        let ghost cw = old(self).width() as int;
        assert(cs@.skip(0) =~= cs@);
        let mut cx = x;
        let mut k: usize = 0;
        while k < cs.len()
            invariant
                self.wf(),
                self.width() == old(self).width(),
                self.height() == old(self).height(),
                self.width() + 4 <= usize::MAX,
                x <= cx,
                cx == x || cx <= self.width() + 3,
                k <= cs@.len(),
                cw == self.width(),
                (cx - x) + text_cols(cs@.skip(k as int), cx as int, cw) == full,
                same_outside(*old(self), *self, x - 1, cw, y as int, y as int),
            decreases cs.len() - k,
        {
            let ghost rest = cs@.skip(k as int);
            proof {
                assert(rest.drop_first() =~= cs@.skip(k + 1));
            }
            let ch = cs[k];
            if ch == '\n' {
                assert(text_cols(rest, cx as int, cw) == 0);
                break;
            }
            let w = match char_width(ch) {
                Some(w) => w,
                None => 0,
            };
            if w == 0 {
                k = k + 1;
                continue;
            }
            if cx >= self.w {
                assert(text_cols(rest, cx as int, cw) == 0);
                break;
            }
            let ghost s0 = *self;
            self.set(cx, y, ch);
            if w == 2 {
                if cx + 1 < self.w {
                    match self.idx(cx + 1, y) {
                        Some(i) => {
                            let ghost s1 = *self;
                            self.cells.set(i, CONT);
                            proof {
                                assert forall|p: int, q: int| (q != y || p != cx + 1) implies #[trigger] self.cell(p, q)
                                    == s1.cell(p, q) by {
                                    if 0 <= p < cw && 0 <= q < self.h {
                                        lemma_cell_index(p, q, cw, self.h as int);
                                        if q * cw + p == i {
                                            lemma_index_unique(p, q, cx + 1, y as int, cw);
                                        }
                                    }
                                }
                            }
                        },
                        None => {},
                    }
                } else {
                    self.set(cx, y, ' ');
                }
            }
            proof {
                assert forall|p: int, q: int| (q < y || q > y || p < x - 1 || p > cw) implies #[trigger] self.cell(p, q)
                    == old(self).cell(p, q) by {
                    assert(s0.cell(p, q) == old(self).cell(p, q));
                    if p >= cw {
                        assert(self.cell(p, q) == ' ' && s0.cell(p, q) == ' ');
                    }
                }
            }
            cx = cx + w;
            k = k + 1;
        }
        proof {
            assert(cs@.skip(cs@.len() as int) =~= Seq::<char>::empty());
        }
        cx - x
    }

    /// A horizontal line over `x0..=x1` (either order).
    #[verifier::loop_isolation(false)]
    pub fn hline(&mut self, x0: usize, x1: usize, y: usize, ch: char)
        requires
            old(self).wf(),
        ensures
            final(self).wf(),
            final(self).width() == old(self).width(),
            final(self).height() == old(self).height(),
            ({
                let (a, b) = if x0 <= x1 { (x0 as int, x1 as int) } else { (x1 as int, x0 as int) };
                &&& same_outside(*old(self), *final(self), a - 1, b + 1, y as int, y as int)
                &&& b < old(self).width() && y < old(self).height() ==> (final(self).cell(b, y as int) == merge_glyph(
                    old(self).cell(b, y as int),
                    ch,
                ) || final(self).cell(b, y as int) == ch)
                &&& (ch != CONT && forall|i: int| a <= i <= b ==> #[trigger] old(self).cell(i, y as int) != CONT) ==> forall|
                    i: int,
                | a <= i <= b && i < old(self).width() && y < old(self).height() ==> #[trigger] final(self).cell(i, y as int)
                    == merge_glyph(old(self).cell(i, y as int), ch)
            }),
    {
        let (a, b) = if x0 <= x1 { (x0, x1) } else { (x1, x0) };
        let ghost hyp = ch != CONT && forall|i: int| a <= i <= b ==> #[trigger] old(self).cell(i, y as int) != CONT;
        let mut x = a;
        loop
            invariant
                self.wf(),
                self.width() == old(self).width(),
                self.height() == old(self).height(),
                a <= x <= b,
                hyp == (ch != CONT && forall|i: int| a <= i <= b ==> #[trigger] old(self).cell(i, y as int) != CONT),
                same_outside(*old(self), *self, a - 1, x as int, y as int, y as int),
                self.cell(x as int, y as int) == old(self).cell(x as int, y as int) || self.cell(x as int, y as int) == ' ',
                hyp ==> self.cell(x as int, y as int) == old(self).cell(x as int, y as int),
                hyp ==> forall|i: int| a <= i < x && i < self.width() && y < self.height()
                    ==> #[trigger] self.cell(i, y as int) == merge_glyph(old(self).cell(i, y as int), ch),
            decreases b - x,
        {
            let ghost s0 = *self;
            self.draw(x, y, ch);
            proof {
                assert forall|i: int, j: int| (j < y || j > y || i < a - 1 || i > x + 1) implies #[trigger] self.cell(i, j)
                    == old(self).cell(i, j) by {
                    assert(self.cell(i, j) == s0.cell(i, j));
                    if i > x {
                    } else {
                        assert(s0.cell(i, j) == old(self).cell(i, j));
                    }
                }
                if hyp {
                    assert(old(self).cell(x as int, y as int) != CONT);
                    assert forall|i: int| a <= i <= x && i < self.width() && y < self.height()
                        implies #[trigger] self.cell(i, y as int) == merge_glyph(old(self).cell(i, y as int), ch) by {
                        if i < x {
                            assert(s0.cell(i, y as int) == merge_glyph(old(self).cell(i, y as int), ch));
                            if i < x - 1 {
                                assert(self.cell(i, y as int) == s0.cell(i, y as int));
                            }
                        }
                    }
                }
                assert(s0.cell(x + 1, y as int) == old(self).cell(x + 1, y as int));
            }
            if x == b {
                break;
            }
            x = x + 1;
            proof {
                if hyp {
                    assert(old(self).cell(x as int, y as int) != CONT);
                }
            }
        }
    }

    /// A vertical line over `y0..=y1` (either order).
    #[verifier::loop_isolation(false)]
    pub fn vline(&mut self, x: usize, y0: usize, y1: usize, ch: char)
        requires
            old(self).wf(),
        ensures
            final(self).wf(),
            final(self).width() == old(self).width(),
            final(self).height() == old(self).height(),
            ({
                let (a, b) = if y0 <= y1 { (y0 as int, y1 as int) } else { (y1 as int, y0 as int) };
                &&& same_outside(*old(self), *final(self), x - 1, x + 1, a, b)
                &&& forall|j: int| a <= j <= b && x < old(self).width() && j < old(self).height()
                    ==> #[trigger] final(self).cell(x as int, j) == merge_glyph(old(self).cell(x as int, j), ch)
            }),
            forall|j: int| #[trigger] final(self).cell(x - 1, j) == old(self).cell(x - 1, j) || final(self).cell(x - 1, j) == ' ',
            forall|j: int| #[trigger] final(self).cell(x + 1, j) == old(self).cell(x + 1, j) || final(self).cell(x + 1, j) == ' ',
    {
        let (a, b) = if y0 <= y1 { (y0, y1) } else { (y1, y0) };
        let mut y = a;
        loop
            invariant
                self.wf(),
                self.width() == old(self).width(),
                self.height() == old(self).height(),
                a <= y <= b,
                same_outside(*old(self), *self, x - 1, x + 1, a as int, y - 1),
                forall|j: int| a <= j < y && x < self.width() && j < self.height()
                    ==> #[trigger] self.cell(x as int, j) == merge_glyph(old(self).cell(x as int, j), ch),
                forall|j: int| #[trigger] self.cell(x - 1, j) == old(self).cell(x - 1, j) || self.cell(x - 1, j) == ' ',
                forall|j: int| #[trigger] self.cell(x + 1, j) == old(self).cell(x + 1, j) || self.cell(x + 1, j) == ' ',
            decreases b - y,
        {
            let ghost s0 = *self;
            self.draw(x, y, ch);
            proof {
                assert forall|i: int, j: int| (j < a || j > y || i < x - 1 || i > x + 1) implies #[trigger] self.cell(i, j)
                    == old(self).cell(i, j) by {
                    assert(self.cell(i, j) == s0.cell(i, j));
                }
                assert forall|j: int| a <= j <= y && x < self.width() && j < self.height()
                    implies #[trigger] self.cell(x as int, j) == merge_glyph(old(self).cell(x as int, j), ch) by {
                    if j < y {
                        assert(self.cell(x as int, j) == s0.cell(x as int, j));
                    } else {
                        assert(s0.cell(x as int, j) == old(self).cell(x as int, j));
                    }
                }
                assert forall|j: int| #[trigger] self.cell(x - 1, j) == old(self).cell(x - 1, j) || self.cell(x - 1, j) == ' ' by {
                    if j != y {
                        assert(self.cell(x - 1, j) == s0.cell(x - 1, j));
                    }
                }
                assert forall|j: int| #[trigger] self.cell(x + 1, j) == old(self).cell(x + 1, j) || self.cell(x + 1, j) == ' ' by {
                    if j != y {
                        assert(self.cell(x + 1, j) == s0.cell(x + 1, j));
                    }
                }
            }
            if y == b {
                break;
            }
            y = y + 1;
        }
    }

    /// A square-cornered rectangle border; nothing below 2 by 2.
    pub fn rect(&mut self, x: usize, y: usize, w: usize, h: usize)
        requires
            old(self).wf(),
            x + w <= usize::MAX,
            y + h <= usize::MAX,
        ensures
            final(self).wf(),
            final(self).width() == old(self).width(),
            final(self).height() == old(self).height(),
            w < 2 || h < 2 ==> *final(self) == *old(self),
            same_outside(*old(self), *final(self), x - 1, x + w, y as int, y + h - 1),
            w >= 2 && h >= 2 ==> {
                let (x1, y1) = (x + w - 1, y + h - 1);
                let (cw, ch) = (old(self).width(), old(self).height());
                &&& x < cw && y < ch ==> final(self).cell(x as int, y as int) == '┌'
                &&& x1 < cw && y < ch ==> final(self).cell(x1, y as int) == '┐'
                &&& x < cw && y1 < ch ==> final(self).cell(x as int, y1) == '└'
                &&& x1 < cw && y1 < ch ==> final(self).cell(x1, y1) == '┘'
            },
    {
        if w < 2 || h < 2 {
            return;
        }
        let x1 = x + w - 1;
        let y1 = y + h - 1;
        let ghost s0 = *self;
        self.hline(x + 1, x1 - 1, y, '─');
        let ghost s1 = *self;
        self.hline(x + 1, x1 - 1, y1, '─');
        let ghost s2 = *self;
        self.vline(x, y + 1, y1 - 1, '│');
        let ghost s3 = *self;
        self.vline(x1, y + 1, y1 - 1, '│');
        let ghost s4 = *self;
        proof {
            if w == 2 {
                assert(s1.cell(x1 as int, y as int) != CONT);
                assert(s2.cell(x1 as int, y as int) != CONT);
                assert(s2.cell(x1 as int, y1 as int) != CONT);
                assert(s3.cell(x1 as int, y as int) != CONT);
                assert(s3.cell(x1 as int, y1 as int) != CONT);
                if h == 2 {
                    if x1 < self.width() && y1 < self.height() {
                        assert(s4.cell(x1 as int, y1 as int) == merge_glyph(s3.cell(x1 as int, y1 as int), '│'));
                    }
                    if x1 < self.width() && y < self.height() {
                        assert(s4.cell(x1 as int, y as int) == merge_glyph(s3.cell(x1 as int, y as int), '│'));
                    }
                } else {
                    assert(s4.cell(x1 as int, y1 as int) == s3.cell(x1 as int, y1 as int));
                    assert(s4.cell(x1 as int, y as int) == s3.cell(x1 as int, y as int));
                }
            }
        }
        self.set(x, y, '┌');
        let ghost s5 = *self;
        proof {
            assert(s5.cell(x1 as int, y1 as int) == s4.cell(x1 as int, y1 as int));
        }
        self.set(x1, y, '┐');
        let ghost s6 = *self;
        proof {
            assert(s6.cell(x1 as int, y1 as int) == s5.cell(x1 as int, y1 as int));
            assert(s6.cell(x as int, y as int) == s5.cell(x as int, y as int));
        }
        self.set(x, y1, '└');
        let ghost s7 = *self;
        proof {
            assert(s7.cell(x as int, y as int) == s6.cell(x as int, y as int));
            assert(s7.cell(x1 as int, y as int) == s6.cell(x1 as int, y as int));
        }
        self.set(x1, y1, '┘');
        proof {
            assert(self.cell(x as int, y as int) == s7.cell(x as int, y as int));
            assert(self.cell(x1 as int, y as int) == s7.cell(x1 as int, y as int));
            assert(self.cell(x as int, y1 as int) == s7.cell(x as int, y1 as int));
            assert forall|i: int, j: int| (j < y || j > y + h - 1 || i < x - 1 || i > x + w) implies #[trigger] self.cell(i, j)
                == s0.cell(i, j) by {
                assert(s1.cell(i, j) == s0.cell(i, j));
                assert(s2.cell(i, j) == s1.cell(i, j));
                assert(s3.cell(i, j) == s2.cell(i, j));
                assert(s4.cell(i, j) == s3.cell(i, j));
                assert(s5.cell(i, j) == s4.cell(i, j));
                assert(s6.cell(i, j) == s5.cell(i, j));
                assert(s7.cell(i, j) == s6.cell(i, j));
                assert(self.cell(i, j) == s7.cell(i, j));
            }
        }
    }

    /// Blanks a rectangle (border included).
    pub fn clear_rect(&mut self, x: usize, y: usize, w: usize, h: usize)
        requires
            old(self).wf(),
            x + w <= usize::MAX,
            y + h <= usize::MAX,
        ensures
            final(self).wf(),
            final(self).width() == old(self).width(),
            final(self).height() == old(self).height(),
            forall|i: int, j: int| x <= i < x + w && y <= j < y + h ==> #[trigger] final(self).cell(i, j) == ' ',
            same_outside(*old(self), *final(self), x - 1, x + w, y as int, y + h - 1),
            forall|i: int, j: int| #[trigger] final(self).cell(i, j) == old(self).cell(i, j) || final(self).cell(i, j) == ' ',
    {
        let ye = if y + h < self.h { y + h } else { self.h };
        let xe = if x + w < self.w { x + w } else { self.w };
        let mut yy = y;
        while yy < ye
            invariant
                self.wf(),
                self.width() == old(self).width(),
                self.height() == old(self).height(),
                ye <= self.height(),
                ye == y + h || ye == self.height(),
                ye <= y + h,
                xe <= x + w,
                xe <= self.width(),
                xe == x + w || xe == self.width(),
                y <= yy,
                yy <= ye || yy == y,
                forall|i: int, j: int| x <= i < x + w && y <= j < yy ==> #[trigger] self.cell(i, j) == ' ',
                same_outside(*old(self), *self, x - 1, x + w, y as int, yy - 1),
                forall|i: int, j: int| #[trigger] self.cell(i, j) == old(self).cell(i, j) || self.cell(i, j) == ' ',
            decreases ye - yy,
        {
            let mut xx = x;
            while xx < xe
                invariant
                    self.wf(),
                    self.width() == old(self).width(),
                    self.height() == old(self).height(),
                    xe <= self.width(),
                    xe == x + w || xe == self.width(),
                    xe <= x + w,
                    yy < ye,
                    ye <= self.height(),
                    x <= xx,
                    y <= yy,
                    forall|i: int, j: int| x <= i < x + w && y <= j < yy ==> #[trigger] self.cell(i, j) == ' ',
                    forall|i: int| x <= i < xx ==> #[trigger] self.cell(i, yy as int) == ' ',
                    same_outside(*old(self), *self, x - 1, x + w, y as int, yy as int),
                    forall|i: int, j: int| #[trigger] self.cell(i, j) == old(self).cell(i, j) || self.cell(i, j) == ' ',
                decreases xe - xx,
            {
                let ghost s0 = *self;
                self.set(xx, yy, ' ');
                proof {
                    assert forall|i: int, j: int| #[trigger] self.cell(i, j) == old(self).cell(i, j) || self.cell(i, j) == ' ' by {
                        assert(s0.cell(i, j) == old(self).cell(i, j) || s0.cell(i, j) == ' ');
                        if j != yy || i < xx - 1 || i > xx + 1 {
                            assert(self.cell(i, j) == s0.cell(i, j));
                        }
                    }
                    assert forall|i: int, j: int| x <= i < x + w && y <= j < yy implies #[trigger] self.cell(i, j) == ' ' by {
                        assert(self.cell(i, j) == s0.cell(i, j));
                    }
                    assert forall|i: int| x <= i <= xx implies #[trigger] self.cell(i, yy as int) == ' ' by {
                        if i < xx - 1 {
                            assert(self.cell(i, yy as int) == s0.cell(i, yy as int));
                        } else if i == xx - 1 {
                            assert(s0.cell(i, yy as int) == ' ');
                        }
                    }
                    assert forall|i: int, j: int| (j < y || j > yy || i < x - 1 || i > x + w) implies #[trigger] self.cell(i, j)
                        == old(self).cell(i, j) by {
                        assert(self.cell(i, j) == s0.cell(i, j));
                    }
                }
                xx = xx + 1;
            }
            proof {
                assert forall|i: int| x <= i < x + w implies #[trigger] self.cell(i, yy as int) == ' ' by {
                    if i >= xe {
                        assert(i >= self.width());
                    }
                }
            }
            yy = yy + 1;
        }
        proof {
            assert forall|i: int, j: int| (j < y || j > y + h - 1 || i < x - 1 || i > x + w) implies #[trigger] self.cell(i, j)
                == old(self).cell(i, j) by {
                assert(j < y || j > yy - 1 || i < x - 1 || i > x + w);
            }
            assert forall|i: int, j: int| x <= i < x + w && y <= j < y + h implies #[trigger] self.cell(i, j) == ' ' by {
                if j >= yy {
                    assert(j >= self.height());
                }
            }
        }
    }

    /// The rows as lines: trailing blanks trimmed, continuation markers
    /// dropped.
    pub fn into_lines(self) -> (r: Vec<Vec<char>>)
        requires
            self.wf(),
        ensures
            r@.len() == self.height(),
            forall|i: int| 0 <= i < r@.len() ==> r@[i]@.len() <= self.width(),
    {
        let mut out: Vec<Vec<char>> = Vec::new();
        let mut y: usize = 0;
        while y < self.h
            invariant
                self.wf(),
                y <= self.h,
                out@.len() == y,
                forall|i: int| 0 <= i < out@.len() ==> out@[i]@.len() <= self.w,
            decreases self.h - y,
        {
            proof {
                if self.w > 0 {
                    lemma_cell_index(0, y as int, self.w as int, self.h as int);
                } else {
                    assert(y * self.w == 0) by (nonlinear_arith)
                        requires
                            self.w == 0,
                    ;
                    assert((y + 1) * self.w == 0) by (nonlinear_arith)
                        requires
                            self.w == 0,
                    ;
                }
            }
            assert(y * self.w + self.w <= self.cells@.len());
            let start = y * self.w;
            let mut end: usize = self.w;
            while end > 0 && (self.cells[start + end - 1] == ' ' || self.cells[start + end - 1] == CONT)
                invariant
                    self.wf(),
                    end <= self.w,
                    start + self.w <= self.cells@.len(),
                decreases end,
            {
                end = end - 1;
            }
            let mut line: Vec<char> = Vec::new();
            let mut k: usize = 0;
            while k < end
                invariant
                    self.wf(),
                    k <= end <= self.w,
                    start + self.w <= self.cells@.len(),
                    line@.len() <= k,
                decreases end - k,
            {
                let c = self.cells[start + k];
                if c != CONT {
                    line.push(c);
                }
                k = k + 1;
            }
            out.push(line);
            y = y + 1;
        }
        out
    }
}

} // verus!
