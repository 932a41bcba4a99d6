//! Tables as bordered grids: columns as wide as their content, shrunk
//! widest first when the table would not fit, cells wrapped inside their
//! columns, the header row bold, a rule between all rows.

use vstd::prelude::*;
use super::{Line, LineStyle, Span, SpanStyle, span_texts};
use super::wrap::wrap_spans;
use crate::text::{chars_of, string_of};
use crate::width::{line_width, sat, str_width};

verus! {

/// Sum of a sequence of widths.
pub open spec fn width_sum(s: Seq<usize>) -> nat
    decreases s.len(),
{
    if s.len() == 0 {
        0
    } else {
        width_sum(s.drop_last()) + s.last() as nat
    }
}

proof fn lemma_width_sum_update(s: Seq<usize>, i: int, v: usize)
    requires
        0 <= i < s.len(),
    ensures
        width_sum(s.update(i, v)) == width_sum(s) - s[i] + v,
    decreases s.len(),
{
    if i == s.len() - 1 {
        assert(s.update(i, v).drop_last() =~= s.drop_last());
    } else {
        lemma_width_sum_update(s.drop_last(), i, v);
        assert(s.update(i, v).drop_last() =~= s.drop_last().update(i, v));
    }
}

proof fn lemma_width_sum_small(s: Seq<usize>)
    requires
        forall|i: int| 0 <= i < s.len() ==> s[i] <= 1,
    ensures
        width_sum(s) <= s.len(),
    decreases s.len(),
{
    if s.len() > 0 {
        lemma_width_sum_small(s.drop_last());
    }
}

proof fn lemma_width_sum_bound(s: Seq<usize>)
    ensures
        width_sum(s) <= s.len() * (usize::MAX as nat),
    decreases s.len(),
{
    if s.len() > 0 {
        lemma_width_sum_bound(s.drop_last());
        assert((s.len() - 1) * (usize::MAX as nat) + usize::MAX as nat == s.len() * (usize::MAX as nat))
            by (nonlinear_arith);
    }
}

/// Column widths for a table with content widths `natural` in `available`
/// columns: the content widths when they fit (or are all zero); otherwise
/// the widest column (the last of equals) gives up one column at a time,
/// never below one, until the total fits; if every column is down to one
/// and the total still does not fit, each is scaled to `available / total`
/// (at least one). When `available` is at least the number of columns the
/// result fits it.
#[verifier::loop_isolation(false)]
pub fn distribute_widths(natural: &Vec<usize>, available: usize) -> (r: Vec<usize>)
    ensures
        r@.len() == natural@.len(),
        width_sum(natural@) <= available || width_sum(natural@) == 0 ==> r@ == natural@,
        available >= natural@.len() ==> width_sum(r@) <= available,
        forall|i: int| 0 <= i < r@.len() ==> r@[i] <= natural@[i] || r@[i] == 1,
        forall|i: int| 0 <= i < r@.len() && natural@[i] >= 1 ==> r@[i] >= 1,
{
    let ncols = natural.len();
    let mut nat_total: u128 = 0;
    let mut i: usize = 0;
    proof {
        lemma_width_sum_bound(natural@);
    }
    while i < ncols
        invariant
            i <= ncols,
            nat_total == width_sum(natural@.take(i as int)),
            width_sum(natural@) <= ncols * (usize::MAX as nat),
        decreases ncols - i,
    {
        proof {
            assert(natural@.take(i + 1).drop_last() =~= natural@.take(i as int));
            lemma_width_sum_bound(natural@.take(i + 1));
            assert((i + 1) * (usize::MAX as nat) <= 0x1_0000_0000_0000_0000 * 0x1_0000_0000_0000_0000) by (nonlinear_arith)
                requires
                    i < ncols,
                    ncols <= usize::MAX,
                    usize::MAX <= 0xffff_ffff_ffff_ffff,
            ;
        }
        nat_total = nat_total + natural[i] as u128;
        i = i + 1;
    }
    assert(natural@.take(ncols as int) =~= natural@);
    let mut widths = natural.clone();
    if nat_total == 0 || nat_total <= available as u128 {
        return widths;
    }
    let mut sum: u128 = nat_total;
    let mut stuck = false;
    while sum > available as u128 && !stuck
        invariant
            widths@.len() == ncols,
            sum == width_sum(widths@),
            forall|q: int| 0 <= q < ncols ==> widths@[q] <= natural@[q] || widths@[q] == 1,
            forall|q: int| 0 <= q < ncols && natural@[q] >= 1 ==> widths@[q] >= 1,
            stuck ==> forall|q: int| 0 <= q < ncols ==> widths@[q] <= 1,
        decreases sum, if stuck { 0int } else { 1int },
    {
        let mut best: Option<usize> = None;
        let mut k: usize = 0;
        while k < ncols
            invariant
                k <= ncols,
                widths@.len() == ncols,
                best matches Some(b) ==> b < ncols && widths@[b as int] > 1,
                best is None ==> forall|q: int| 0 <= q < k ==> widths@[q] <= 1,
            decreases ncols - k,
        {
            if widths[k] > 1 {
                match best {
                    Some(b) => {
                        if widths[k] >= widths[b] {
                            best = Some(k);
                        }
                    },
                    None => {
                        best = Some(k);
                    },
                }
            }
            k = k + 1;
        }
        match best {
            Some(b) => {
                let ghost before = widths@;
                let v = widths[b] - 1;
                widths.set(b, v);
                proof {
                    lemma_width_sum_update(before, b as int, v);
                }
                sum = sum - 1;
            },
            None => {
                stuck = true;
            },
        }
    }
    if sum > available as u128 {
        assert(stuck);
        proof {
            lemma_width_sum_small(widths@);
        }
        let mut scaled: Vec<usize> = Vec::new();
        let mut q: usize = 0;
        while q < ncols
            invariant
                q <= ncols,
                scaled@.len() == q,
                widths@.len() == ncols,
                forall|j: int| 0 <= j < ncols ==> widths@[j] <= 1,
                sum > available,
                forall|j: int| 0 <= j < q ==> scaled@[j] == 1,
            decreases ncols - q,
        {
            let w = widths[q] as u128;
            let num: u128 = if w == 0 { 0 } else { available as u128 };
            proof {
                vstd::arithmetic::div_mod::lemma_basic_div(num as int, sum as int);
            }
            let v = num / sum;
            scaled.push(if v < 1 { 1 } else { v as usize });
            q = q + 1;
        }
        return scaled;
    }
    widths
}

/// The widths of spans' texts summed, each and the sum pinned at
/// `usize::MAX`.
pub open spec fn spans_width(spans: Seq<Span>) -> usize
    decreases spans.len(),
{
    if spans.len() == 0 {
        0
    } else {
        let a = spans_width(spans.drop_last());
        let b = sat(str_width(spans.last().text@));
        if a + b > usize::MAX { usize::MAX } else { (a + b) as usize }
    }
}

/// The display width of a cell line.
fn cell_width(cell: &Vec<Span>) -> (w: usize)
    ensures
        w == spans_width(cell@),
{
    let mut w: usize = 0;
    let mut i: usize = 0;
    while i < cell.len()
        invariant
            i <= cell@.len(),
            w == spans_width(cell@.take(i as int)),
        decreases cell.len() - i,
    {
        assert(cell@.take(i + 1).drop_last() =~= cell@.take(i as int));
        w = w.saturating_add(line_width(cell[i].text.as_str()));
        i = i + 1;
    }
    assert(cell@.take(cell@.len() as int) =~= cell@);
    w
}

/// The text of a run of spans, as a string.
pub fn spans_string(spans: &Vec<Span>) -> (r: String)
    ensures
        r@ == span_texts(spans@),
{
    let mut acc: Vec<char> = Vec::new();
    let mut i: usize = 0;
    while i < spans.len()
        invariant
            i <= spans@.len(),
            acc@ == span_texts(spans@.take(i as int)),
        decreases spans.len() - i,
    {
        let t = chars_of(spans[i].text.as_str());
        let ghost before = acc@;
        let mut j: usize = 0;
        while j < t.len()
            invariant
                j <= t@.len(),
                acc@ == before + t@.take(j as int),
            decreases t.len() - j,
        {
            acc.push(t[j]);
            j = j + 1;
            assert(acc@ =~= before + t@.take(j as int));
        }
        assert(t@.take(t@.len() as int) =~= t@);
        assert(spans@.take(i + 1).drop_last() =~= spans@.take(i as int));
        i = i + 1;
    }
    assert(spans@.take(spans@.len() as int) =~= spans@);
    string_of(acc.as_slice())
}

/// Whether every line from `from` on has its plain text beside it and the
/// table style.
pub open spec fn table_lines(out: Seq<Line>, plain: Seq<String>, from: int) -> bool {
    &&& out.len() == plain.len()
    &&& forall|i: int| from <= i < out.len() ==> table_line(#[trigger] out[i], plain[i])
}

/// A table line with its plain text.
pub open spec fn table_line(l: Line, p: String) -> bool {
    p@ == span_texts(l.spans@) && l.style == Some(LineStyle::Table)
}

proof fn lemma_table_lines_extend(o: Seq<Line>, p: Seq<String>, out: Seq<Line>, plain: Seq<String>, start: int)
    requires
        table_lines(o, p, start),
        0 <= start <= o.len(),
        o.len() == p.len(),
        out.len() >= o.len(),
        plain.len() == out.len(),
        out.subrange(0, o.len() as int) == o,
        plain.subrange(0, p.len() as int) == p,
        table_lines(out, plain, o.len() as int),
    ensures
        table_lines(out, plain, start),
{
    assert forall|i: int| start <= i < out.len() implies table_line(#[trigger] out[i], plain[i]) by {
        if i < o.len() {
            assert(out[i] == out.subrange(0, o.len() as int)[i]);
            assert(plain[i] == plain.subrange(0, p.len() as int)[i]);
            assert(table_line(o[i], p[i]));
        }
    }
}

fn push_line(out: &mut Vec<Line>, plain: &mut Vec<String>, spans: Vec<Span>)
    requires
        old(out)@.len() == old(plain)@.len(),
    ensures
        final(out)@ == old(out)@.push(final(out)@.last()),
        final(plain)@ == old(plain)@.push(final(plain)@.last()),
        final(plain)@.last()@ == span_texts(final(out)@.last().spans@),
        final(out)@.last().style == Some(LineStyle::Table),
        final(out)@.last().spans@ == spans@,
{
    let t = spans_string(&spans);
    out.push(Line { indent: 0, spans, style: Some(LineStyle::Table) });
    plain.push(t);
}

/// A border rule: `l`, then for each column its width plus two `─`, each
/// followed by `m` and the last by `r`.
fn push_rule(widths: &Vec<usize>, l: char, m: char, r: char, out: &mut Vec<Line>, plain: &mut Vec<String>)
    requires
        old(out)@.len() == old(plain)@.len(),
    ensures
        table_lines(final(out)@, final(plain)@, old(out)@.len() as int),
        final(out)@.len() == old(out)@.len() + 1,
        final(out)@.subrange(0, old(out)@.len() as int) == old(out)@,
        final(plain)@.subrange(0, old(plain)@.len() as int) == old(plain)@,
        final(plain)@.last()@.len() >= 1 && final(plain)@.last()@[0] == l,
{
    let mut s: Vec<char> = Vec::new();
    s.push(l);
    let mut i: usize = 0;
    while i < widths.len()
        invariant
            s@.len() >= 1 && s@[0] == l,
        decreases widths.len() - i,
    {
        let n = widths[i].saturating_add(2);
        let mut k: usize = 0;
        while k < n
            invariant
                s@.len() >= 1 && s@[0] == l,
            decreases n - k,
        {
            s.push('─');
            k = k + 1;
        }
        s.push(if i + 1 < widths.len() { m } else { r });
        i = i + 1;
    }
    let mut spans: Vec<Span> = Vec::new();
    spans.push(Span { text: string_of(s.as_slice()), style: SpanStyle::Plain });
    assert(span_texts(spans@) =~= s@) by {
        assert(spans@.drop_last() =~= Seq::<Span>::empty());
        assert(span_texts(Seq::<Span>::empty()) == Seq::<char>::empty());
        assert(Seq::<char>::empty() + s@ =~= s@);
    }
    push_line(out, plain, spans);
    assert(final(out)@.subrange(0, old(out)@.len() as int) =~= old(out)@);
    assert(final(plain)@.subrange(0, old(plain)@.len() as int) =~= old(plain)@);
}

/// Copies a cell's spans, in bold for a header cell.
fn cell_spans(row: &Vec<Vec<Span>>, i: usize, is_header: bool) -> (r: Vec<Span>)
    ensures
        r@.len() == (if i < row@.len() { row@[i as int]@.len() } else { 0 }),
        forall|k: int| 0 <= k < r@.len() ==> (#[trigger] r@[k]).text == row@[i as int]@[k].text
            && r@[k].style == (if is_header { SpanStyle::Bold } else { row@[i as int]@[k].style }),
{
    let mut out: Vec<Span> = Vec::new();
    if i < row.len() {
        let mut k: usize = 0;
        while k < row[i].len()
            invariant
                i < row@.len(),
                k <= row@[i as int]@.len(),
                out@.len() == k,
                forall|q: int| 0 <= q < k ==> (#[trigger] out@[q]).text == row@[i as int]@[q].text
                    && out@[q].style == (if is_header { SpanStyle::Bold } else { row@[i as int]@[q].style }),
            decreases row@[i as int]@.len() - k,
        {
            let style = if is_header { SpanStyle::Bold } else { row[i][k].style };
            out.push(Span { text: row[i][k].text.clone(), style });
            k = k + 1;
        }
    }
    out
}

/// The lines of one table row: each cell wrapped to its column, padded,
/// between bars.
#[verifier::loop_isolation(false)]
fn render_row(row: &Vec<Vec<Span>>, widths: &Vec<usize>, out: &mut Vec<Line>, plain: &mut Vec<String>, is_header: bool)
    requires
        old(out)@.len() == old(plain)@.len(),
    ensures
        table_lines(final(out)@, final(plain)@, old(out)@.len() as int),
        final(out)@.len() >= old(out)@.len() + 1,
        final(out)@.subrange(0, old(out)@.len() as int) == old(out)@,
        final(plain)@.subrange(0, old(plain)@.len() as int) == old(plain)@,
{
    let n = widths.len();
    let mut wrapped: Vec<Vec<Vec<Span>>> = Vec::new();
    let mut i: usize = 0;
    while i < n
        invariant
            wrapped@.len() == i,
            i <= n,
        decreases n - i,
    {
        let cell = cell_spans(row, i, is_header);
        let cw = if widths[i] < 1 { 1 } else { widths[i] };
        let cw16: u16 = if cw > 0xffff { 0xffff } else { cw as u16 };
        wrapped.push(wrap_spans(cell.as_slice(), cw16, 0));
        i = i + 1;
    }
    let mut height: usize = 1;
    let mut i: usize = 0;
    while i < n
        invariant
            height >= 1,
        decreases n - i,
    {
        if wrapped[i].len() > height {
            height = wrapped[i].len();
        }
        i = i + 1;
    }
    let ghost start = out@.len();
    let ghost out0 = out@;
    let ghost plain0 = plain@;
    let mut li: usize = 0;
    while li < height
        invariant
            table_lines(out@, plain@, start as int),
            out@.len() == start + li,
            li <= height,
            height >= 1,
            out@.subrange(0, start as int) == out0,
            plain@.subrange(0, start as int) == plain0,
            start == out0.len(),
        decreases height - li,
    {
        let mut spans: Vec<Span> = Vec::new();
        spans.push(Span { text: "│".to_string(), style: SpanStyle::Plain });
        let mut c: usize = 0;
        while c < n
            decreases n - c,
        {
            spans.push(Span { text: " ".to_string(), style: SpanStyle::Plain });
            let mut used: usize = 0;
            if li < wrapped[c].len() {
                let mut k: usize = 0;
                while k < wrapped[c][li].len()
                    decreases wrapped@[c as int]@[li as int]@.len() - k,
                {
                    let sp = &wrapped[c][li][k];
                    used = used.saturating_add(line_width(sp.text.as_str()));
                    spans.push(Span { text: sp.text.clone(), style: sp.style });
                    k = k + 1;
                }
            }
            let cw = widths[c];
            if used < cw {
                let mut pad: Vec<char> = Vec::new();
                let mut q: usize = 0;
                while q < cw - used
                    decreases cw - used - q,
                {
                    pad.push(' ');
                    q = q + 1;
                }
                spans.push(Span { text: string_of(pad.as_slice()), style: SpanStyle::Plain });
            }
            spans.push(Span { text: " ".to_string(), style: SpanStyle::Plain });
            spans.push(Span { text: "│".to_string(), style: SpanStyle::Plain });
            c = c + 1;
        }
        let ghost o = out@;
        let ghost p = plain@;
        push_line(out, plain, spans);
        proof {
            assert(out@.subrange(0, start as int) =~= o.subrange(0, start as int));
            assert(plain@.subrange(0, start as int) =~= p.subrange(0, start as int));
        }
        li = li + 1;
    }
}

/// Renders table rows (the first is the header) as a bordered grid:
/// `┌─┬─┐`, the rows with `├─┼─┤` between every two, `└─┴─┘`. Columns take
/// their content width, shrunk as [`distribute_widths`] does to fit `width`
/// less the borders (at least one column per cell). Nothing for a table
/// without cells. Every line pushed carries the table style and its text
/// beside it in `plain`.
#[verifier::loop_isolation(false)]
pub fn render_table(rows: &[Vec<Vec<Span>>], width: u16, out: &mut Vec<Line>, plain: &mut Vec<String>)
    requires
        old(out)@.len() == old(plain)@.len(),
    ensures
        table_lines(final(out)@, final(plain)@, old(out)@.len() as int),
        final(out)@.len() >= old(out)@.len(),
        final(out)@.subrange(0, old(out)@.len() as int) == old(out)@,
        final(plain)@.subrange(0, old(plain)@.len() as int) == old(plain)@,
        (forall|r: int| 0 <= r < rows@.len() ==> (#[trigger] rows@[r])@.len() == 0) ==> final(out)@ == old(out)@,
        (exists|r: int| 0 <= r < rows@.len() && (#[trigger] rows@[r])@.len() > 0) ==> {
            &&& final(out)@.len() >= old(out)@.len() + 2 * rows@.len() + 1
            &&& final(plain)@[old(plain)@.len() as int]@.len() >= 1
            &&& final(plain)@[old(plain)@.len() as int]@[0] == '┌'
            &&& final(plain)@.last()@.len() >= 1 && final(plain)@.last()@[0] == '└'
        },
{
    let mut ncols: usize = 0;
    let mut i: usize = 0;
    while i < rows.len()
        invariant
            i <= rows@.len(),
            forall|r: int| 0 <= r < i ==> (#[trigger] rows@[r])@.len() <= ncols,
            (ncols == 0) || exists|r: int| 0 <= r < i && (#[trigger] rows@[r])@.len() == ncols,
        decreases rows.len() - i,
    {
        if rows[i].len() > ncols {
            ncols = rows[i].len();
        }
        i = i + 1;
    }
    if ncols == 0 {
        assert(out@.subrange(0, out@.len() as int) =~= out@);
        assert(plain@.subrange(0, plain@.len() as int) =~= plain@);
        return;
    }
    let mut natural: Vec<usize> = Vec::new();
    let mut c: usize = 0;
    while c < ncols
        invariant
            natural@.len() == c,
            c <= ncols,
        decreases ncols - c,
    {
        natural.push(0);
        c = c + 1;
    }
    let mut r: usize = 0;
    while r < rows.len()
        invariant
            natural@.len() == ncols,
        decreases rows.len() - r,
    {
        let mut c: usize = 0;
        while c < rows[r].len() && c < ncols
            invariant
                natural@.len() == ncols,
            decreases ncols - c,
        {
            let w = cell_width(&rows[r][c]);
            if w > natural[c] {
                natural.set(c, w);
            }
            c = c + 1;
        }
        r = r + 1;
    }
    let overhead = if ncols <= (usize::MAX - 1) / 3 { 3 * ncols + 1 } else { usize::MAX };
    let avail0 = (width as usize).saturating_sub(overhead);
    let avail = if avail0 > ncols { avail0 } else { ncols };
    let widths = distribute_widths(&natural, avail);
    let ghost start = out@.len();
    let ghost out0 = out@;
    let ghost plain0 = plain@;
    push_rule(&widths, '┌', '┬', '┐', out, plain);
    assert(plain@[start as int] == plain@.last());
    let mut ri: usize = 0;
    while ri < rows.len()
        invariant
            table_lines(out@, plain@, start as int),
            out@.subrange(0, start as int) == out0,
            plain@.subrange(0, start as int) == plain0,
            start == out0.len(),
            ri <= rows@.len(),
            ri < rows@.len() ==> out@.len() >= start + 2 * ri + 1,
            ri == rows@.len() ==> out@.len() >= start + 2 * ri,
            out@.len() >= start + 1,
            plain@[start as int]@.len() >= 1 && plain@[start as int]@[0] == '┌',
        decreases rows.len() - ri,
    {
        let ghost o = out@;
        let ghost p = plain@;
        render_row(&rows[ri], &widths, out, plain, ri == 0);
        proof {
            lemma_table_lines_extend(o, p, out@, plain@, start as int);
            assert(out@.subrange(0, start as int) =~= o.subrange(0, start as int));
            assert(plain@.subrange(0, start as int) =~= p.subrange(0, start as int));
            assert(plain@[start as int] == plain@.subrange(0, p.len() as int)[start as int]);
        }
        if ri + 1 < rows.len() {
            let ghost o2 = out@;
            let ghost p2 = plain@;
            push_rule(&widths, '├', '┼', '┤', out, plain);
            proof {
                lemma_table_lines_extend(o2, p2, out@, plain@, start as int);
                assert(out@.subrange(0, start as int) =~= o2.subrange(0, start as int));
                assert(plain@.subrange(0, start as int) =~= p2.subrange(0, start as int));
                assert(plain@[start as int] == plain@.subrange(0, p2.len() as int)[start as int]);
            }
        }
        ri = ri + 1;
    }
    let ghost o3 = out@;
    let ghost p3 = plain@;
    push_rule(&widths, '└', '┴', '┘', out, plain);
    proof {
        assert(plain@[start as int] == plain@.subrange(0, p3.len() as int)[start as int]);
        lemma_table_lines_extend(o3, p3, out@, plain@, start as int);
        assert(out@.subrange(0, start as int) =~= o3.subrange(0, start as int));
        assert(plain@.subrange(0, start as int) =~= p3.subrange(0, start as int));
    }
}

} // verus!
