//! Block elements to lines: headings (with a rule below when the theme
//! draws one), paragraphs, nested lists, tables and block quotes.

use vstd::prelude::*;
use super::{FootnoteState, HeadingAnchor, Line, LineStyle, Span, SpanStyle, span_texts};
use super::events::{MdEnd, MdEvent, MdEventV, MdStart, MdStartV};
use super::inline::{collect_inline, event_views, inline_from, StopAt};
use super::table::{render_table, spans_string};
use super::theme::{list_marker_char, Theme, QUOTE_BAR};
use super::wrap::{spans_fit, wrap_max, wrap_spans};
use crate::text::{chars_of, string_of, trim, trim_slice};
use crate::width::{line_width, rep};

verus! {

/// `out` and `plain` grew from `out0` and `plain0` by the same number of
/// lines, the earlier ones untouched.
pub open spec fn extends(out0: Seq<Line>, plain0: Seq<String>, out: Seq<Line>, plain: Seq<String>) -> bool {
    &&& out.len() == plain.len()
    &&& out.len() >= out0.len()
    &&& out.subrange(0, out0.len() as int) == out0
    &&& plain.subrange(0, plain0.len() as int) == plain0
}

/// A wrapped line of a paragraph, list or quote: its pieces (a quote's
/// after the bar) fit `width` less the indentation (or the bar) unless
/// there is a lone piece.
pub open spec fn wrapped_line(l: Line, width: u16) -> bool {
    match l.style {
        Some(LineStyle::Quote) => l.spans@.len() >= 1 && spans_fit(l.spans@.drop_first(), wrap_max(width, 2)),
        _ => spans_fit(l.spans@, wrap_max(width, l.indent)),
    }
}

/// Every line from `from` on is a wrapped line with its text beside it.
pub open spec fn wrapped_from(out: Seq<Line>, plain: Seq<String>, from: int, width: u16) -> bool {
    forall|i: int| from <= i < out.len() ==> wrapped_line(#[trigger] out[i], width) && plain[i]@ == span_texts(out[i].spans@)
}

pub proof fn lemma_extends_trans(
    o0: Seq<Line>, p0: Seq<String>, o1: Seq<Line>, p1: Seq<String>, o2: Seq<Line>, p2: Seq<String>,
)
    requires
        o0.len() == p0.len(),
        extends(o0, p0, o1, p1),
        extends(o1, p1, o2, p2),
    ensures
        extends(o0, p0, o2, p2),
{
    assert(o2.subrange(0, o0.len() as int) =~= o1.subrange(0, o0.len() as int));
    assert(p2.subrange(0, p0.len() as int) =~= p1.subrange(0, p0.len() as int));
}

proof fn lemma_wrapped_extend(
    o0: Seq<Line>, p0: Seq<String>, o1: Seq<Line>, p1: Seq<String>, start: int, width: u16,
)
    requires
        o0.len() == p0.len(),
        0 <= start <= o0.len(),
        wrapped_from(o0, p0, start, width),
        extends(o0, p0, o1, p1),
        wrapped_from(o1, p1, o0.len() as int, width),
    ensures
        wrapped_from(o1, p1, start, width),
{
    assert forall|i: int| start <= i < o1.len() implies wrapped_line(#[trigger] o1[i], width) && p1[i]@ == span_texts(o1[i].spans@) by {
        if i < o0.len() {
            assert(o1[i] == o1.subrange(0, o0.len() as int)[i]);
            assert(p1[i] == p1.subrange(0, p0.len() as int)[i]);
            assert(wrapped_line(o0[i], width) && p0[i]@ == span_texts(o0[i].spans@));
        }
    }
}

/// Pushes wrapped pieces as lines of one indentation and style.
#[verifier::loop_isolation(false)]
fn push_wrapped(pieces: Vec<Vec<Span>>, indent: u16, style: LineStyle, width: u16, out: &mut Vec<Line>, plain: &mut Vec<String>)
    requires
        old(out)@.len() == old(plain)@.len(),
        style != LineStyle::Quote,
        forall|i: int| 0 <= i < pieces@.len() ==> spans_fit(#[trigger] pieces@[i]@, wrap_max(width, indent)),
    ensures
        extends(old(out)@, old(plain)@, final(out)@, final(plain)@),
        wrapped_from(final(out)@, final(plain)@, old(out)@.len() as int, width),
        forall|i: int| old(out)@.len() <= i < final(out)@.len() ==> (#[trigger] final(out)@[i]).indent == indent
            && final(out)@[i].style == Some(style),
{
    let ghost o0 = out@;
    let ghost p0 = plain@;
    let mut pieces = pieces;
    let mut rest: Vec<Vec<Span>> = Vec::new();
    while pieces.len() > 0
        invariant
            forall|i: int| 0 <= i < pieces@.len() ==> spans_fit(#[trigger] pieces@[i]@, wrap_max(width, indent)),
            forall|i: int| 0 <= i < rest@.len() ==> spans_fit(#[trigger] rest@[i]@, wrap_max(width, indent)),
        decreases pieces@.len(),
    {
        let p = pieces.pop().unwrap();
        rest.push(p);
    }
    assert(out@.subrange(0, o0.len() as int) =~= o0);
    assert(plain@.subrange(0, p0.len() as int) =~= p0);
    while rest.len() > 0
        invariant
            forall|i: int| 0 <= i < rest@.len() ==> spans_fit(#[trigger] rest@[i]@, wrap_max(width, indent)),
            extends(o0, p0, out@, plain@),
            wrapped_from(out@, plain@, o0.len() as int, width),
            forall|i: int| o0.len() <= i < out@.len() ==> (#[trigger] out@[i]).indent == indent && out@[i].style == Some(style),
        decreases rest@.len(),
    {
        let piece = rest.pop().unwrap();
        let t = spans_string(&piece);
        let ghost o1 = out@;
        let ghost p1 = plain@;
        out.push(Line { indent, spans: piece, style: Some(style) });
        plain.push(t);
        proof {
            assert(out@.subrange(0, o0.len() as int) =~= o1.subrange(0, o0.len() as int));
            assert(plain@.subrange(0, p0.len() as int) =~= p1.subrange(0, p0.len() as int));
            assert forall|i: int| o0.len() <= i < out@.len() implies wrapped_line(#[trigger] out@[i], width) && plain@[i]@ == span_texts(out@[i].spans@) by {
                if i < o1.len() {
                    assert(out@[i] == o1[i]);
                    assert(plain@[i] == p1[i]);
                }
            }
            assert forall|i: int| o0.len() <= i < out@.len() implies (#[trigger] out@[i]).indent == indent && out@[i].style == Some(style) by {
                if i < o1.len() {
                    assert(out@[i] == o1[i]);
                }
            }
        }
    }
}

/// A heading line (with its text trimmed into `plain` and an anchor in
/// `headings`), then, when the theme draws a rule under this level and the
/// text is not blank, a rule as wide as the text.
#[verifier::loop_isolation(false)]
pub fn push_heading(
    spans: Vec<Span>,
    level: u8,
    out: &mut Vec<Line>,
    plain: &mut Vec<String>,
    headings: &mut Vec<HeadingAnchor>,
    theme: &Theme,
)
    requires
        old(out)@.len() == old(plain)@.len(),
    ensures
        extends(old(out)@, old(plain)@, final(out)@, final(plain)@),
        final(out)@.len() >= old(out)@.len() + 1,
        final(headings)@ == old(headings)@.push(final(headings)@.last()),
        final(headings)@.last().line == old(out)@.len(),
        final(headings)@.last().level == level,
        final(headings)@.last().text@ == trim(span_texts(spans@)),
        final(out)@[old(out)@.len() as int].style == Some(LineStyle::Heading(level)),
        final(plain)@[old(out)@.len() as int]@ == final(headings)@.last().text@,
        super::rule_line_ok(*theme, final(plain)@, final(headings)@.last()),
{
    let text = spans_string(&spans);
    let cs = chars_of(text.as_str());
    let trimmed = string_of(trim_slice(cs.as_slice()));
    let line_idx = out.len();
    let ghost o0 = out@;
    let ghost p0 = plain@;
    out.push(Line { indent: 0, spans, style: Some(LineStyle::Heading(level)) });
    plain.push(trimmed.clone());
    headings.push(HeadingAnchor { level, text: trimmed.clone(), line: line_idx });
    let ghost o1 = out@;
    let ghost p1 = plain@;
    assert(out@.subrange(0, o0.len() as int) =~= o0);
    assert(plain@.subrange(0, p0.len() as int) =~= p0);
    match theme.heading_rule_char(level) {
        Some(rule_char) => {
            let w = line_width(trimmed.as_str());
            if w > 0 {
                let mut rule: Vec<char> = Vec::new();
                let mut k: usize = 0;
                while k < w
                    invariant
                        k <= w,
                        rule@ == rep(rule_char, k as nat),
                    decreases w - k,
                {
                    rule.push(rule_char);
                    k = k + 1;
                    assert(rule@ =~= rep(rule_char, k as nat));
                }
                let rs = string_of(rule.as_slice());
                let mut rspans: Vec<Span> = Vec::new();
                rspans.push(Span { text: rs.clone(), style: SpanStyle::Plain });
                out.push(Line { indent: 0, spans: rspans, style: Some(LineStyle::Plain) });
                plain.push(rs);
                assert(out@.subrange(0, o0.len() as int) =~= o0);
                assert(plain@.subrange(0, p0.len() as int) =~= p0);
                assert(out@[o0.len() as int] == o1[o0.len() as int]);
                assert(plain@[o0.len() as int] == p1[o0.len() as int]);
            }
        },
        None => {},
    }
}

/// Where an element whose inline content runs from `idx + 1` to its end
/// event `end` ends (just past that event), and the footnote reference
/// order after its content.
pub open spec fn inline_block(ev: Seq<MdEventV>, idx: int, end: MdEnd, order: Seq<Seq<char>>) -> (int, Seq<Seq<char>>) {
    let (sp, j, o2) = inline_from(ev, idx + 1, StopAt::End(end), Seq::empty(), order);
    (if j < ev.len() { j + 1 } else { j }, o2)
}

/// Where a block that must start with `Start(start)` ends, and the
/// reference order after it: nothing read at the end of the events, one
/// event skipped when another starts there.
pub open spec fn simple_block(ev: Seq<MdEventV>, idx: int, start: MdStartV, end: MdEnd, order: Seq<Seq<char>>) -> (int, Seq<Seq<char>>) {
    if idx >= ev.len() {
        (idx, order)
    } else if ev[idx] == MdEventV::Start(start) {
        inline_block(ev, idx, end, order)
    } else {
        (idx + 1, order)
    }
}

/// The cells of a table row from `i` up to its end event: where the row
/// ends and the reference order after its cells.
pub open spec fn row_from(ev: Seq<MdEventV>, i: int, order: Seq<Seq<char>>) -> (int, Seq<Seq<char>>)
    decreases ev.len() - i,
{
    if i < 0 || i >= ev.len() {
        (i, order)
    } else if ev[i] == MdEventV::End(MdEnd::TableHead) || ev[i] == MdEventV::End(MdEnd::TableRow) {
        (i + 1, order)
    } else if ev[i] == MdEventV::Start(MdStartV::TableCell) {
        let (j, o2) = inline_block(ev, i, MdEnd::TableCell, order);
        if i < j <= ev.len() { row_from(ev, j, o2) } else { (j, o2) }
    } else {
        row_from(ev, i + 1, order)
    }
}

/// The rows of a table from `i` up to its end event: where the table ends
/// and the reference order after its cells.
pub open spec fn table_from(ev: Seq<MdEventV>, i: int, order: Seq<Seq<char>>) -> (int, Seq<Seq<char>>)
    decreases ev.len() - i,
{
    if i < 0 || i >= ev.len() {
        (i, order)
    } else if ev[i] == MdEventV::End(MdEnd::Table) {
        (i + 1, order)
    } else if ev[i] == MdEventV::Start(MdStartV::TableHead) || ev[i] == MdEventV::Start(MdStartV::TableRow) {
        let (j, o2) = row_from(ev, i + 1, order);
        if i < j <= ev.len() { table_from(ev, j, o2) } else { (j, o2) }
    } else {
        table_from(ev, i + 1, order)
    }
}

/// Where a table block ends and the reference order after it.
pub open spec fn table_block(ev: Seq<MdEventV>, idx: int, order: Seq<Seq<char>>) -> (int, Seq<Seq<char>>) {
    if idx >= ev.len() {
        (idx, order)
    } else if ev[idx] == MdEventV::Start(MdStartV::Table) {
        table_from(ev, idx + 1, order)
    } else {
        (idx + 1, order)
    }
}

/// Where a list at `idx` ends and the reference order after its items:
/// nothing read unless a list starts there.
pub open spec fn list_at(ev: Seq<MdEventV>, idx: int, order: Seq<Seq<char>>) -> (int, Seq<Seq<char>>)
    decreases ev.len() - idx, 1int,
{
    if idx < 0 || idx >= ev.len() || ev[idx] != MdEventV::Start(MdStartV::List) {
        (idx, order)
    } else {
        items_from(ev, idx + 1, idx, order)
    }
}

/// The items of the list that starts at `idx`, read from `i`: each item's
/// content up to its end or a nested list, the nested list, and so on to
/// the list's end.
pub open spec fn items_from(ev: Seq<MdEventV>, i: int, idx: int, order: Seq<Seq<char>>) -> (int, Seq<Seq<char>>)
    decreases ev.len() - i, 0int,
{
    if i < 0 || i >= ev.len() {
        (i, order)
    } else if ev[i] == MdEventV::End(MdEnd::List) {
        (i + 1, order)
    } else if ev[i] == MdEventV::Start(MdStartV::Item) {
        let (sp, j, o2) = inline_from(ev, i + 1, StopAt::ItemEndOrList, Seq::empty(), order);
        let nested = j < ev.len() && ev[j] == MdEventV::Start(MdStartV::List);
        let j1 = if j < ev.len() && ev[j] == MdEventV::End(MdEnd::Item) { j + 1 } else { j };
        let (i2, o3) = if nested && i < j1 <= ev.len() { list_at(ev, j1, o2) } else { (j1, o2) };
        let i3 = if i2 <= idx { idx + 1 } else { i2 };
        if i < i3 <= ev.len() { items_from(ev, i3, idx, o3) } else { (i3, o3) }
    } else {
        items_from(ev, i + 1, idx, order)
    }
}

/// A paragraph starting at `idx`: its inline content wrapped to `width`,
/// one plain line per piece. Anything else at `idx` is skipped. Returns the
/// index after what was read.
#[verifier::loop_isolation(false)]
pub fn push_paragraph(
    events: &Vec<MdEvent>,
    idx: usize,
    out: &mut Vec<Line>,
    plain: &mut Vec<String>,
    width: u16,
    fns: &mut FootnoteState,
) -> (next: usize)
    requires
        idx <= events@.len(),
        old(out)@.len() == old(plain)@.len(),
    ensures
        (next as int, final(fns).order_view()) == simple_block(event_views(events@), idx as int, MdStartV::Paragraph, MdEnd::Paragraph, old(fns).order_view()),
        final(fns).defs_view() == old(fns).defs_view(),
        old(fns).order_view().no_duplicates() ==> final(fns).order_view().no_duplicates(),
        idx <= next <= events@.len(),
        idx < events@.len() ==> idx < next,
        extends(old(out)@, old(plain)@, final(out)@, final(plain)@),
        wrapped_from(final(out)@, final(plain)@, old(out)@.len() as int, width),
{
    let n = events.len();
    if idx >= n {
        assert(out@.subrange(0, out@.len() as int) =~= out@);
        assert(plain@.subrange(0, plain@.len() as int) =~= plain@);
        return idx;
    }
    match &events[idx] {
        MdEvent::Start(MdStart::Paragraph) => {
            let (spans, mut i) = collect_inline(events, idx + 1, fns, StopAt::End(MdEnd::Paragraph));
            if i < n {
                i = i + 1;
            }
            let wrapped = wrap_spans(spans.as_slice(), width, 0);
            push_wrapped(wrapped, 0, LineStyle::Plain, width, out, plain);
            i
        },
        _ => {
            assert(out@.subrange(0, out@.len() as int) =~= out@);
            assert(plain@.subrange(0, plain@.len() as int) =~= plain@);
            idx + 1
        },
    }
}

/// The indentation of a list item at `depth`: two columns a level below
/// the first.
pub open spec fn list_indent(depth: usize) -> u16 {
    #[verifier::truncate] ((((if depth > 0 { depth - 1 } else { 0 }) as int % 0x10000) * 2) as u16)
}

/// The line style of a list item at `depth`.
pub open spec fn list_style(depth: usize) -> LineStyle {
    LineStyle::ListItem(#[verifier::truncate] ((depth as int % 0x10000) as u16))
}

/// A list line of an item at `depth` or deeper: that depth's indentation
/// and style.
pub open spec fn list_line(l: Line, depth: usize) -> bool {
    exists|d: usize| d >= depth && l.indent == list_indent(d) && l.style == Some(#[trigger] list_style(d))
}

fn list_indent_of(depth: usize) -> (r: u16)
    ensures
        r == list_indent(depth),
{
    let d = depth.saturating_sub(1);
    #[verifier::truncate] (((d % 0x10000) * 2) as u16)
}

/// A list starting at `idx`: each item as `marker content`, wrapped at
/// the depth's indentation (two columns a level) with the depth's marker,
/// a nested list after its item at the next depth. Nothing when `idx`
/// holds no list. Returns the index after what was read.
#[verifier::loop_isolation(false)]
pub fn push_list(
    events: &Vec<MdEvent>,
    idx: usize,
    depth: usize,
    out: &mut Vec<Line>,
    plain: &mut Vec<String>,
    width: u16,
    fns: &mut FootnoteState,
) -> (next: usize)
    requires
        idx <= events@.len(),
        old(out)@.len() == old(plain)@.len(),
    ensures
        (next as int, final(fns).order_view()) == list_at(event_views(events@), idx as int, old(fns).order_view()),
        final(fns).defs_view() == old(fns).defs_view(),
        old(fns).order_view().no_duplicates() ==> final(fns).order_view().no_duplicates(),
        idx <= next <= events@.len(),
        idx < events@.len() && events@[idx as int]@ is Start && events@[idx as int]@->Start_0 is List ==> idx < next,
        extends(old(out)@, old(plain)@, final(out)@, final(plain)@),
        wrapped_from(final(out)@, final(plain)@, old(out)@.len() as int, width),
        forall|i: int| old(out)@.len() <= i < final(out)@.len() ==> list_line(#[trigger] final(out)@[i], depth),
    decreases events@.len() - idx,
{
    let n = events.len();
    let ghost o0 = out@;
    let ghost p0 = plain@;
    assert(out@.subrange(0, out@.len() as int) =~= out@);
    assert(plain@.subrange(0, plain@.len() as int) =~= plain@);
    if idx >= n {
        return idx;
    }
    match &events[idx] {
        MdEvent::Start(MdStart::List) => {},
        _ => {
            return idx;
        },
    }
    let ghost ev = event_views(events@);
    let ghost goal = list_at(ev, idx as int, old(fns).order_view());
    assert(ev[idx as int] == events@[idx as int]@);
    let mut i = idx + 1;
    while i < n
        invariant
            ev == event_views(events@),
            goal == items_from(ev, i as int, idx as int, fns.order_view()),
            fns.defs_view() == old(fns).defs_view(),
            old(fns).order_view().no_duplicates() ==> fns.order_view().no_duplicates(),
            idx < i <= n,
            n == events@.len(),
            extends(o0, p0, out@, plain@),
            wrapped_from(out@, plain@, o0.len() as int, width),
            forall|q: int| o0.len() <= q < out@.len() ==> list_line(#[trigger] out@[q], depth),
        decreases n - i,
    {
        assert(ev[i as int] == events@[i as int]@);
        let ghost ord0 = fns.order_view();
        match &events[i] {
            MdEvent::End(MdEnd::List) => {
                i = i + 1;
                break;
            },
            MdEvent::Start(MdStart::Item) => {
                let (content, mut j) = collect_inline(events, i + 1, fns, StopAt::ItemEndOrList);
                proof {
                    if j < n {
                        assert(ev[j as int] == events@[j as int]@);
                    }
                }
                let nested = j < n && match &events[j] {
                    MdEvent::Start(MdStart::List) => true,
                    _ => false,
                };
                if j < n {
                    match &events[j] {
                        MdEvent::End(MdEnd::Item) => {
                            j = j + 1;
                        },
                        _ => {},
                    }
                }
                let indent: u16 = list_indent_of(depth);
                let marker = list_marker_char(depth);
                let mut m: Vec<char> = Vec::new();
                m.push(marker);
                m.push(' ');
                let mut item: Vec<Span> = Vec::new();
                item.push(Span { text: string_of(m.as_slice()), style: SpanStyle::Plain });
                let mut content = content;
                item.append(&mut content);
                let wrapped = wrap_spans(item.as_slice(), width, indent);
                let ghost o1 = out@;
                let ghost p1 = plain@;
                let style = LineStyle::ListItem(#[verifier::truncate] ((depth % 0x10000) as u16));
                assert(style == list_style(depth));
                push_wrapped(wrapped, indent, style, width, out, plain);
                proof {
                    lemma_wrapped_extend(o1, p1, out@, plain@, o0.len() as int, width);
                    lemma_extends_trans(o0, p0, o1, p1, out@, plain@);
                    assert forall|q: int| o0.len() <= q < out@.len() implies list_line(#[trigger] out@[q], depth) by {
                        if q < o1.len() {
                            assert(out@[q] == out@.subrange(0, o1.len() as int)[q]);
                        } else {
                            assert(out@[q].indent == list_indent(depth) && out@[q].style == Some(list_style(depth)));
                        }
                    }
                }
                i = j;
                if nested {
                    let ghost o2 = out@;
                    let ghost p2 = plain@;
                    i = push_list(events, j, depth.saturating_add(1), out, plain, width, fns);
                    proof {
                        lemma_wrapped_extend(o2, p2, out@, plain@, o0.len() as int, width);
                        lemma_extends_trans(o0, p0, o2, p2, out@, plain@);
                        assert forall|q: int| o0.len() <= q < out@.len() implies list_line(#[trigger] out@[q], depth) by {
                            if q < o2.len() {
                                assert(out@[q] == out@.subrange(0, o2.len() as int)[q]);
                            } else {
                                assert(list_line(out@[q], depth.saturating_add(1)));
                                let d = choose|d: usize| d >= depth.saturating_add(1) && out@[q].indent == list_indent(d) && out@[q].style == Some(#[trigger] list_style(d));
                                assert(d >= depth);
                            }
                        }
                    }
                }
                if i <= idx {
                    i = idx + 1;
                }
            },
            _ => {
                i = i + 1;
            },
        }
    }
    i
}

/// A table starting at `idx`: its header and body rows of inline cells,
/// rendered by [`render_table`]. Anything else at `idx` is skipped. Returns
/// the index after what was read.
#[verifier::loop_isolation(false)]
pub fn push_table(
    events: &Vec<MdEvent>,
    idx: usize,
    out: &mut Vec<Line>,
    plain: &mut Vec<String>,
    width: u16,
    fns: &mut FootnoteState,
) -> (next: usize)
    requires
        idx <= events@.len(),
        old(out)@.len() == old(plain)@.len(),
    ensures
        (next as int, final(fns).order_view()) == table_block(event_views(events@), idx as int, old(fns).order_view()),
        final(fns).defs_view() == old(fns).defs_view(),
        old(fns).order_view().no_duplicates() ==> final(fns).order_view().no_duplicates(),
        idx <= next <= events@.len(),
        idx < events@.len() ==> idx < next,
        extends(old(out)@, old(plain)@, final(out)@, final(plain)@),
{
    let n = events.len();
    assert(out@.subrange(0, out@.len() as int) =~= out@);
    assert(plain@.subrange(0, plain@.len() as int) =~= plain@);
    if idx >= n {
        return idx;
    }
    match &events[idx] {
        MdEvent::Start(MdStart::Table) => {},
        _ => {
            return idx + 1;
        },
    }
    let ghost ev = event_views(events@);
    let ghost goal = table_block(ev, idx as int, old(fns).order_view());
    let mut rows: Vec<Vec<Vec<Span>>> = Vec::new();
    let mut i = idx + 1;
    while i < n
        invariant
            old(fns).order_view().no_duplicates() ==> fns.order_view().no_duplicates(),
            idx < i <= n,
            n == events@.len(),
            ev == event_views(events@),
            goal == table_from(ev, i as int, fns.order_view()),
            fns.defs_view() == old(fns).defs_view(),
        decreases n - i,
    {
        assert(ev[i as int] == events@[i as int]@);
        let ghost i0 = i;
        match &events[i] {
            MdEvent::End(MdEnd::Table) => {
                i = i + 1;
                break;
            },
            MdEvent::Start(MdStart::TableHead) | MdEvent::Start(MdStart::TableRow) => {
                i = i + 1;
                let ghost start = i;
                let ghost rgoal = row_from(ev, i as int, fns.order_view());
                let mut row: Vec<Vec<Span>> = Vec::new();
                while i < n
                    invariant
                        old(fns).order_view().no_duplicates() ==> fns.order_view().no_duplicates(),
                        idx < i <= n,
                        start <= i,
                        n == events@.len(),
                        ev == event_views(events@),
                        rgoal == row_from(ev, i as int, fns.order_view()),
                        fns.defs_view() == old(fns).defs_view(),
                    decreases n - i,
                {
                    assert(ev[i as int] == events@[i as int]@);
                    match &events[i] {
                        MdEvent::End(MdEnd::TableHead) | MdEvent::End(MdEnd::TableRow) => {
                            i = i + 1;
                            break;
                        },
                        MdEvent::Start(MdStart::TableCell) => {
                            let (cell, mut j) = collect_inline(events, i + 1, fns, StopAt::End(MdEnd::TableCell));
                            if j < n {
                                j = j + 1;
                            }
                            row.push(cell);
                            i = j;
                        },
                        _ => {
                            i = i + 1;
                        },
                    }
                }
                rows.push(row);
                proof {
                    assert(rgoal == (i as int, fns.order_view()));
                }
            },
            _ => {
                i = i + 1;
            },
        }
    }
    render_table(rows.as_slice(), width, out, plain);
    i
}

/// A block quote starting at `idx`: its inline content wrapped two columns
/// narrower, each line after a `│ ` bar span. Anything else at `idx` is
/// skipped. Returns the index after what was read.
#[verifier::loop_isolation(false)]
pub fn push_quote(
    events: &Vec<MdEvent>,
    idx: usize,
    out: &mut Vec<Line>,
    plain: &mut Vec<String>,
    width: u16,
    fns: &mut FootnoteState,
) -> (next: usize)
    requires
        idx <= events@.len(),
        old(out)@.len() == old(plain)@.len(),
    ensures
        (next as int, final(fns).order_view()) == simple_block(event_views(events@), idx as int, MdStartV::BlockQuote, MdEnd::BlockQuote, old(fns).order_view()),
        final(fns).defs_view() == old(fns).defs_view(),
        old(fns).order_view().no_duplicates() ==> final(fns).order_view().no_duplicates(),
        idx <= next <= events@.len(),
        idx < events@.len() ==> idx < next,
        extends(old(out)@, old(plain)@, final(out)@, final(plain)@),
        wrapped_from(final(out)@, final(plain)@, old(out)@.len() as int, width),
{
    let n = events.len();
    let ghost o0 = out@;
    let ghost p0 = plain@;
    assert(out@.subrange(0, out@.len() as int) =~= out@);
    assert(plain@.subrange(0, plain@.len() as int) =~= plain@);
    if idx >= n {
        return idx;
    }
    match &events[idx] {
        MdEvent::Start(MdStart::BlockQuote) => {},
        _ => {
            return idx + 1;
        },
    }
    let (content, mut i) = collect_inline(events, idx + 1, fns, StopAt::End(MdEnd::BlockQuote));
    if i < n {
        i = i + 1;
    }
    let mut wrapped = wrap_spans(content.as_slice(), width, 2);
    let mut rest: Vec<Vec<Span>> = Vec::new();
    while wrapped.len() > 0
        invariant
            forall|q: int| 0 <= q < wrapped@.len() ==> spans_fit(#[trigger] wrapped@[q]@, wrap_max(width, 2)),
            forall|q: int| 0 <= q < rest@.len() ==> spans_fit(#[trigger] rest@[q]@, wrap_max(width, 2)),
        decreases wrapped@.len(),
    {
        let p = wrapped.pop().unwrap();
        rest.push(p);
    }
    while rest.len() > 0
        invariant
            forall|q: int| 0 <= q < rest@.len() ==> spans_fit(#[trigger] rest@[q]@, wrap_max(width, 2)),
            extends(o0, p0, out@, plain@),
            wrapped_from(out@, plain@, o0.len() as int, width),
        decreases rest@.len(),
    {
        let piece = rest.pop().unwrap();
        let mut bar: Vec<char> = Vec::new();
        bar.push(QUOTE_BAR);
        bar.push(' ');
        let mut spans: Vec<Span> = Vec::new();
        spans.push(Span { text: string_of(bar.as_slice()), style: SpanStyle::Plain });
        let ghost pv = piece@;
        let mut piece = piece;
        spans.append(&mut piece);
        assert(spans@.drop_first() =~= pv);
        let t = spans_string(&spans);
        let ghost o1 = out@;
        let ghost p1 = plain@;
        out.push(Line { indent: 0, spans, style: Some(LineStyle::Quote) });
        plain.push(t);
        proof {
            assert(out@.subrange(0, o0.len() as int) =~= o1.subrange(0, o0.len() as int));
            assert(plain@.subrange(0, p0.len() as int) =~= p1.subrange(0, p0.len() as int));
            assert forall|q: int| o0.len() <= q < out@.len() implies wrapped_line(#[trigger] out@[q], width) && plain@[q]@ == span_texts(out@[q].spans@) by {
                if q < o1.len() {
                    assert(out@[q] == o1[q]);
                    assert(plain@[q] == p1[q]);
                }
            }
        }
    }
    i
}

} // verus!
