//! Inline events to styled spans: text, code, emphasis, links with their
//! destination, images as a labelled destination, task boxes and footnote
//! numbers.

use vstd::prelude::*;
use super::{FootnoteState, Span, SpanStyle};
use super::events::{MdEnd, MdEvent, MdEventV, MdStart, MdStartV};
use super::theme::{CHECK_DONE, CHECK_TODO};
use crate::text::{chars_of, string_of, trim, trim_slice};
use crate::app::loader::{dec, push_dec};

verus! {

/// Where inline collection stops.
#[derive(Clone, Copy)]
pub enum StopAt {
    /// At the end of the given element.
    End(MdEnd),
    /// At the end of a list item or the start of a nested list.
    ItemEndOrList,
}

/// Whether `e` is where collection stops.
pub open spec fn stops(stop: StopAt, e: MdEventV) -> bool {
    match stop {
        StopAt::End(t) => e == MdEventV::End(t),
        StopAt::ItemEndOrList => e == MdEventV::End(MdEnd::Item) || e is Start && e->Start_0 is List,
    }
}

pub fn is_stop(stop: StopAt, e: &MdEvent) -> (r: bool)
    ensures
        r == stops(stop, e@),
{
    match stop {
        StopAt::End(t) => match e {
            MdEvent::End(x) => *x == t,
            _ => false,
        },
        StopAt::ItemEndOrList => match e {
            MdEvent::End(MdEnd::Item) => true,
            MdEvent::Start(MdStart::List) => true,
            _ => false,
        },
    }
}

/// `new` is `old` with `text` appended in `style`: nothing for empty
/// text; merged into the last span when that has the same style; else a
/// span of its own.
pub open spec fn text_pushed(old: Seq<Span>, text: Seq<char>, style: SpanStyle, new: Seq<Span>) -> bool {
    if text.len() == 0 {
        new == old
    } else if old.len() > 0 && old.last().style == style {
        &&& new.len() == old.len()
        &&& new.drop_last() == old.drop_last()
        &&& new.last().text@ == old.last().text@ + text
        &&& new.last().style == style
    } else {
        &&& new.len() == old.len() + 1
        &&& new.drop_last() == old
        &&& new.last().text@ == text
        &&& new.last().style == style
    }
}

/// Appends text in a style, merged into the last span when that has the
/// same style; empty text is dropped.
fn push_text(out: &mut Vec<Span>, text: &Vec<char>, style: SpanStyle)
    ensures
        text_pushed(old(out)@, text@, style, final(out)@),
{
    if text.len() == 0 {
        return;
    }
    let n = out.len();
    if n > 0 && out[n - 1].style == style {
        let last = out.pop().unwrap();
        let mut cs = chars_of(last.text.as_str());
        let ghost base = cs@;
        let mut j: usize = 0;
        while j < text.len()
            invariant
                j <= text@.len(),
                cs@ == base + text@.take(j as int),
            decreases text.len() - j,
        {
            cs.push(text[j]);
            j = j + 1;
            assert(cs@ =~= base + text@.take(j as int));
        }
        assert(text@.take(text@.len() as int) =~= text@);
        out.push(Span { text: string_of(cs.as_slice()), style });
        assert(out@.drop_last() =~= old(out)@.drop_last());
        return;
    }
    out.push(Span { text: string_of(text.as_slice()), style });
    assert(out@.drop_last() =~= old(out)@);
}

fn push_str_text(out: &mut Vec<Span>, text: &str, style: SpanStyle)
    ensures
        text_pushed(old(out)@, text@, style, final(out)@),
{
    let cs = chars_of(text);
    push_text(out, &cs, style);
}

/// Appends the characters of `s` to `v`.
fn append_str(v: &mut Vec<char>, s: &str)
    ensures
        final(v)@ == old(v)@ + s@,
{
    let cs = chars_of(s);
    let mut j: usize = 0;
    while j < cs.len()
        invariant
            j <= cs@.len(),
            v@ == old(v)@ + cs@.take(j as int),
        decreases cs.len() - j,
    {
        v.push(cs[j]);
        j = j + 1;
        assert(v@ =~= old(v)@ + cs@.take(j as int));
    }
    assert(cs@.take(cs@.len() as int) =~= cs@);
}

/// Spans as text and style.
pub open spec fn pairs_of(ss: Seq<Span>) -> Seq<(Seq<char>, SpanStyle)> {
    ss.map_values(|s: Span| (s.text@, s.style))
}

/// `sp` with `text` appended in `style` (see [`text_pushed`]).
pub open spec fn push_pair(sp: Seq<(Seq<char>, SpanStyle)>, text: Seq<char>, style: SpanStyle) -> Seq<(Seq<char>, SpanStyle)> {
    if text.len() == 0 {
        sp
    } else if sp.len() > 0 && sp.last().1 == style {
        sp.drop_last().push((sp.last().0 + text, style))
    } else {
        sp.push((text, style))
    }
}

proof fn lemma_text_pushed(old: Seq<Span>, text: Seq<char>, style: SpanStyle, new: Seq<Span>)
    requires
        text_pushed(old, text, style, new),
    ensures
        pairs_of(new) == push_pair(pairs_of(old), text, style),
{
    if text.len() == 0 {
    } else if old.len() > 0 && old.last().style == style {
        assert(pairs_of(new) =~= push_pair(pairs_of(old), text, style)) by {
            assert(new.drop_last() == old.drop_last());
            assert forall|k: int| 0 <= k < new.len() - 1 implies new[k] == old[k] by {
                assert(new.drop_last()[k] == old.drop_last()[k]);
            }
        }
    } else {
        assert(pairs_of(new) =~= push_pair(pairs_of(old), text, style)) by {
            assert forall|k: int| 0 <= k < old.len() implies new[k] == old[k] by {
                assert(new.drop_last()[k] == old[k]);
            }
        }
    }
}

/// The number a footnote reference gets and the reference order after
/// it: its place in order of first reference, a new name going last.
pub open spec fn ref_order(order: Seq<Seq<char>>, name: Seq<char>) -> (nat, Seq<Seq<char>>) {
    match super::index_in(order, name) {
        Some(i) => ((i + 1) as nat, order),
        None => ((order.len() + 1) as nat, order.push(name)),
    }
}

/// The spans of a tagged element appended to `out`: plain ones take
/// `style`, others keep theirs.
pub open spec fn map_tagged(out: Seq<(Seq<char>, SpanStyle)>, inner: Seq<(Seq<char>, SpanStyle)>, style: SpanStyle) -> Seq<(Seq<char>, SpanStyle)>
    decreases inner.len(),
{
    if inner.len() == 0 {
        out
    } else {
        let last = inner.last();
        push_pair(map_tagged(out, inner.drop_last(), style), last.0, if last.1 == SpanStyle::Plain { style } else { last.1 })
    }
}

/// An image's alternative text (its text events) from `i` up to its end
/// event, and the index after that end (the end of `events` without one).
pub open spec fn image_alt(events: Seq<MdEventV>, i: int) -> (Seq<char>, int)
    decreases events.len() - i,
{
    if i < 0 || i >= events.len() {
        (Seq::empty(), i)
    } else {
        match events[i] {
            MdEventV::End(MdEnd::Image) => (Seq::empty(), i + 1),
            MdEventV::Text(t) => {
                let (a, j) = image_alt(events, i + 1);
                (t + a, j)
            },
            _ => image_alt(events, i + 1),
        }
    }
}

/// How an image shows: a picture sign, its trimmed alternative text when
/// there is one, and its destination in brackets.
pub open spec fn image_label(alt: Seq<char>, url: Seq<char>) -> Seq<char> {
    seq!['\u{1F5BC}', ' '] + (if trim(alt).len() > 0 { trim(alt) + seq![' '] } else { Seq::empty() }) + seq!['('] + url + seq![')']
}

/// Inline collection from `i`, with spans `sp` and reference order
/// `order` so far: the spans, the index of the stopping event (or the end)
/// and the reference order after it.
pub open spec fn inline_from(events: Seq<MdEventV>, i: int, stop: StopAt, sp: Seq<(Seq<char>, SpanStyle)>, order: Seq<Seq<char>>) -> (
    Seq<(Seq<char>, SpanStyle)>,
    int,
    Seq<Seq<char>>,
)
    decreases events.len() - i, 1int,
{
    if i < 0 || i >= events.len() || stops(stop, events[i]) {
        (sp, i, order)
    } else {
        match events[i] {
            MdEventV::Text(t) => inline_from(events, i + 1, stop, push_pair(sp, t, SpanStyle::Plain), order),
            MdEventV::Code(c) => inline_from(events, i + 1, stop, push_pair(sp, c, SpanStyle::Code), order),
            MdEventV::SoftBreak => inline_from(events, i + 1, stop, push_pair(sp, " "@, SpanStyle::Plain), order),
            MdEventV::HardBreak => inline_from(events, i + 1, stop, push_pair(sp, " "@, SpanStyle::Plain), order),
            MdEventV::TaskListMarker(done) => inline_from(
                events,
                i + 1,
                stop,
                push_pair(sp, seq![if done { CHECK_DONE } else { CHECK_TODO }, ' '], SpanStyle::Plain),
                order,
            ),
            MdEventV::FootnoteReference(name) => {
                let (n, o2) = ref_order(order, name);
                inline_from(events, i + 1, stop, push_pair(sp, seq!['['] + dec(n) + seq![']'], SpanStyle::Plain), o2)
            },
            MdEventV::Start(MdStartV::Emphasis) => {
                let (sp2, j, o2) = tagged(events, i, MdEnd::Emphasis, SpanStyle::Italic, sp, order);
                if i < j <= events.len() { inline_from(events, j, stop, sp2, o2) } else { (sp2, j, o2) }
            },
            MdEventV::Start(MdStartV::Strong) => {
                let (sp2, j, o2) = tagged(events, i, MdEnd::Strong, SpanStyle::Bold, sp, order);
                if i < j <= events.len() { inline_from(events, j, stop, sp2, o2) } else { (sp2, j, o2) }
            },
            MdEventV::Start(MdStartV::Strikethrough) => {
                let (sp2, j, o2) = tagged(events, i, MdEnd::Strikethrough, SpanStyle::Strikethrough, sp, order);
                if i < j <= events.len() { inline_from(events, j, stop, sp2, o2) } else { (sp2, j, o2) }
            },
            MdEventV::Start(MdStartV::Link(url)) => {
                let (inner, j, o2) = tagged(events, i, MdEnd::Link, SpanStyle::Link, Seq::empty(), order);
                let sp2 = push_pair(sp + inner, " ("@ + url + ")"@, SpanStyle::Plain);
                if i < j <= events.len() { inline_from(events, j, stop, sp2, o2) } else { (sp2, j, o2) }
            },
            MdEventV::Start(MdStartV::Image(url)) => {
                let (alt, j) = image_alt(events, i + 1);
                let sp2 = push_pair(sp, image_label(alt, url), SpanStyle::Plain);
                if i < j <= events.len() { inline_from(events, j, stop, sp2, order) } else { (sp2, j, order) }
            },
            _ => inline_from(events, i + 1, stop, sp, order),
        }
    }
}

/// A tagged element starting at `i`: its inner spans mapped onto `out`,
/// the index after its end event, and the reference order after it.
pub open spec fn tagged(events: Seq<MdEventV>, i: int, end: MdEnd, style: SpanStyle, out: Seq<(Seq<char>, SpanStyle)>, order: Seq<Seq<char>>) -> (
    Seq<(Seq<char>, SpanStyle)>,
    int,
    Seq<Seq<char>>,
)
    decreases events.len() - i, 0int,
{
    if i < 0 || i >= events.len() {
        (out, i, order)
    } else {
        let (inner, j, o2) = inline_from(events, i + 1, StopAt::End(end), Seq::empty(), order);
        (map_tagged(out, inner, style), if j < events.len() { j + 1 } else { j }, o2)
    }
}

/// The views of parse events.
pub open spec fn event_views(es: Seq<MdEvent>) -> Seq<MdEventV> {
    es.map_values(|e: MdEvent| e@)
}

proof fn lemma_image_alt_bounds(events: Seq<MdEventV>, i: int)
    requires
        0 <= i <= events.len(),
    ensures
        i <= image_alt(events, i).1 <= events.len(),
    decreases events.len() - i,
{
    if i < events.len() {
        lemma_image_alt_bounds(events, i + 1);
    }
}

/// An image's alternative text from `start` and the index after its end
/// event (see [`image_alt`]).
#[verifier::loop_isolation(false)]
fn image_alt_at(events: &Vec<MdEvent>, start: usize) -> (r: (Vec<char>, usize))
    requires
        start <= events@.len(),
    ensures
        (r.0@, r.1 as int) == image_alt(event_views(events@), start as int),
{
    let ghost ev = event_views(events@);
    let mut i = start;
    let mut alt: Vec<char> = Vec::new();
    assert(alt@ + image_alt(ev, i as int).0 =~= image_alt(ev, start as int).0);
    while i < events.len()
        invariant
            start <= i <= events@.len(),
            ev == event_views(events@),
            alt@ + image_alt(ev, i as int).0 == image_alt(ev, start as int).0,
            image_alt(ev, i as int).1 == image_alt(ev, start as int).1,
        decreases events@.len() - i,
    {
        assert(ev[i as int] == events@[i as int]@);
        match &events[i] {
            MdEvent::End(MdEnd::Image) => {
                assert(alt@ + Seq::<char>::empty() =~= alt@);
                i = i + 1;
                return (alt, i);
            },
            MdEvent::Text(t) => {
                let ghost a0 = alt@;
                append_str(&mut alt, t.as_str());
                assert(a0 + (t@ + image_alt(ev, i + 1).0) =~= alt@ + image_alt(ev, i + 1).0);
                i = i + 1;
            },
            _ => {
                i = i + 1;
            },
        }
    }
    assert(alt@ + Seq::<char>::empty() =~= alt@);
    (alt, i)
}

/// The text an image shows (see [`image_label`]).
fn image_text(alt: &Vec<char>, url: &str) -> (label: Vec<char>)
    ensures
        label@ == image_label(alt@, url@),
{
    let trimmed = trim_slice(alt.as_slice());
    let mut label: Vec<char> = Vec::new();
    label.push('\u{1F5BC}');
    label.push(' ');
    if trimmed.len() > 0 {
        let ghost l0 = label@;
        let mut j: usize = 0;
        while j < trimmed.len()
            invariant
                j <= trimmed@.len(),
                label@ == l0 + trimmed@.take(j as int),
            decreases trimmed.len() - j,
        {
            label.push(trimmed[j]);
            j = j + 1;
            assert(label@ =~= l0 + trimmed@.take(j as int));
        }
        assert(trimmed@.take(trimmed@.len() as int) =~= trimmed@);
        label.push(' ');
    }
    label.push('(');
    append_str(&mut label, url);
    label.push(')');
    assert(label@ =~= image_label(alt@, url@));
    label
}

/// Collects inline events from `idx` into spans until the event `stop`
/// names, which is left for the caller; returns the spans and the index
/// of the stopping event (the end of `events` when there is none).
/// Footnote references are numbered through `fns`.
#[verifier::loop_isolation(false)]
#[verifier::rlimit(40)]
pub fn collect_inline(events: &Vec<MdEvent>, idx: usize, fns: &mut FootnoteState, stop: StopAt) -> (r: (Vec<Span>, usize))
    requires
        idx <= events@.len(),
    ensures
        idx <= r.1 <= events@.len(),
        r.1 < events@.len() ==> stops(stop, events@[r.1 as int]@),
        ({
            let res = inline_from(event_views(events@), idx as int, stop, Seq::empty(), old(fns).order_view());
            &&& pairs_of(r.0@) == res.0
            &&& r.1 == res.1
            &&& final(fns).order_view() == res.2
        }),
        final(fns).defs_view() == old(fns).defs_view(),
        old(fns).order_view().no_duplicates() ==> final(fns).order_view().no_duplicates(),
    decreases events@.len() - idx, 1int,
{
    let ghost ev = event_views(events@);
    let ghost full = inline_from(ev, idx as int, stop, Seq::empty(), fns.order_view());
    let mut spans: Vec<Span> = Vec::new();
    let mut i = idx;
    assert(pairs_of(spans@) =~= Seq::<(Seq<char>, SpanStyle)>::empty());
    while i < events.len()
        invariant
            idx <= i <= events@.len(),
            ev == event_views(events@),
            full == inline_from(ev, i as int, stop, pairs_of(spans@), fns.order_view()),
            fns.defs_view() == old(fns).defs_view(),
            old(fns).order_view().no_duplicates() ==> fns.order_view().no_duplicates(),
        decreases events@.len() - i,
    {
        assert(ev[i as int] == events@[i as int]@);
        let ghost sp0 = spans@;
        let ghost o0 = fns.order_view();
        if is_stop(stop, &events[i]) {
            break;
        }
        match &events[i] {
            MdEvent::Text(t) => {
                push_str_text(&mut spans, t.as_str(), SpanStyle::Plain);
                proof { lemma_text_pushed(sp0, t@, SpanStyle::Plain, spans@); }
                i = i + 1;
            },
            MdEvent::Code(c) => {
                push_str_text(&mut spans, c.as_str(), SpanStyle::Code);
                proof { lemma_text_pushed(sp0, c@, SpanStyle::Code, spans@); }
                i = i + 1;
            },
            MdEvent::SoftBreak | MdEvent::HardBreak => {
                push_str_text(&mut spans, " ", SpanStyle::Plain);
                proof { lemma_text_pushed(sp0, " "@, SpanStyle::Plain, spans@); }
                i = i + 1;
            },
            MdEvent::TaskListMarker(done) => {
                let mut t: Vec<char> = Vec::new();
                t.push(if *done { CHECK_DONE } else { CHECK_TODO });
                t.push(' ');
                assert(t@ =~= seq![if *done { CHECK_DONE } else { CHECK_TODO }, ' ']);
                push_text(&mut spans, &t, SpanStyle::Plain);
                proof { lemma_text_pushed(sp0, t@, SpanStyle::Plain, spans@); }
                i = i + 1;
            },
            MdEvent::FootnoteReference(name) => {
                let n = fns.ref_index(name.as_str());
                let mut t: Vec<char> = Vec::new();
                t.push('[');
                push_dec(&mut t, n as u128);
                t.push(']');
                assert(t@ =~= seq!['['] + dec(n as nat) + seq![']']);
                push_text(&mut spans, &t, SpanStyle::Plain);
                proof { lemma_text_pushed(sp0, t@, SpanStyle::Plain, spans@); }
                i = i + 1;
            },
            MdEvent::Start(MdStart::Emphasis) => {
                i = collect_tagged(events, i, fns, MdEnd::Emphasis, SpanStyle::Italic, &mut spans);
            },
            MdEvent::Start(MdStart::Strong) => {
                i = collect_tagged(events, i, fns, MdEnd::Strong, SpanStyle::Bold, &mut spans);
            },
            MdEvent::Start(MdStart::Strikethrough) => {
                i = collect_tagged(events, i, fns, MdEnd::Strikethrough, SpanStyle::Strikethrough, &mut spans);
            },
            MdEvent::Start(MdStart::Link(url)) => {
                let mut inner: Vec<Span> = Vec::new();
                assert(pairs_of(inner@) =~= Seq::<(Seq<char>, SpanStyle)>::empty());
                i = collect_tagged(events, i, fns, MdEnd::Link, SpanStyle::Link, &mut inner);
                let ghost iv = inner@;
                spans.append(&mut inner);
                assert(pairs_of(spans@) =~= pairs_of(sp0) + pairs_of(iv));
                let ghost sp1 = spans@;
                let mut t: Vec<char> = Vec::new();
                append_str(&mut t, " (");
                append_str(&mut t, url.as_str());
                append_str(&mut t, ")");
                assert(t@ =~= " ("@ + url@ + ")"@);
                push_text(&mut spans, &t, SpanStyle::Plain);
                proof { lemma_text_pushed(sp1, t@, SpanStyle::Plain, spans@); }
            },
            MdEvent::Start(MdStart::Image(url)) => {
                proof { lemma_image_alt_bounds(ev, i + 1); }
                let (alt, next) = image_alt_at(events, i + 1);
                i = next;
                let label = image_text(&alt, url.as_str());
                push_text(&mut spans, &label, SpanStyle::Plain);
                proof { lemma_text_pushed(sp0, label@, SpanStyle::Plain, spans@); }
            },
            _ => {
                i = i + 1;
            },
        }
    }
    (spans, i)
}

/// Collects an emphasis-like element starting at `idx` up to its end
/// event, and appends its spans to `out`, plain ones taking `style`;
/// returns the index after the end event.
fn collect_tagged(
    events: &Vec<MdEvent>,
    idx: usize,
    fns: &mut FootnoteState,
    end: MdEnd,
    style: SpanStyle,
    out: &mut Vec<Span>,
) -> (next: usize)
    requires
        idx < events@.len(),
    ensures
        idx < next <= events@.len(),
        ({
            let res = tagged(event_views(events@), idx as int, end, style, pairs_of(old(out)@), old(fns).order_view());
            &&& pairs_of(final(out)@) == res.0
            &&& next == res.1
            &&& final(fns).order_view() == res.2
        }),
        final(fns).defs_view() == old(fns).defs_view(),
        old(fns).order_view().no_duplicates() ==> final(fns).order_view().no_duplicates(),
    decreases events@.len() - idx, 0int,
{
    let n = events.len();
    let (inner, mut i) = collect_inline(events, idx + 1, fns, StopAt::End(end));
    if i < events.len() {
        i = i + 1;
    }
    let ghost iv = pairs_of(inner@);
    let ghost base = pairs_of(out@);
    let mut k: usize = 0;
    assert(iv.take(0) =~= Seq::<(Seq<char>, SpanStyle)>::empty());
    while k < inner.len()
        invariant
            k <= inner@.len(),
            iv == pairs_of(inner@),
            pairs_of(out@) == map_tagged(base, iv.take(k as int), style),
        decreases inner.len() - k,
    {
        let ghost o0 = out@;
        let st = if inner[k].style == SpanStyle::Plain { style } else { inner[k].style };
        let cs = chars_of(inner[k].text.as_str());
        push_text(out, &cs, st);
        proof {
            lemma_text_pushed(o0, cs@, st, out@);
            assert(iv.take(k + 1).drop_last() =~= iv.take(k as int));
            assert(iv.take(k + 1).last() == iv[k as int]);
        }
        k = k + 1;
    }
    assert(iv.take(inner@.len() as int) =~= iv);
    i
}

proof fn lemma_pair_texts_push(sp: Seq<(Seq<char>, SpanStyle)>, x: (Seq<char>, SpanStyle))
    ensures
        super::pair_texts(sp.push(x)) == super::pair_texts(sp) + x.0,
{
    assert(sp.push(x).drop_last() =~= sp);
}

proof fn lemma_pair_texts_add(a: Seq<(Seq<char>, SpanStyle)>, b: Seq<(Seq<char>, SpanStyle)>)
    ensures
        super::pair_texts(a + b) == super::pair_texts(a) + super::pair_texts(b),
    decreases b.len(),
{
    if b.len() == 0 {
        assert(a + b =~= a);
        assert(super::pair_texts(a) + super::pair_texts(b) =~= super::pair_texts(a));
    } else {
        lemma_pair_texts_add(a, b.drop_last());
        assert((a + b).drop_last() =~= a + b.drop_last());
        assert(super::pair_texts(a) + super::pair_texts(b.drop_last()) + b.last().0 =~= super::pair_texts(a) + (
        super::pair_texts(b.drop_last()) + b.last().0));
    }
}

proof fn lemma_push_pair_text(sp: Seq<(Seq<char>, SpanStyle)>, t: Seq<char>, style: SpanStyle)
    ensures
        super::pair_texts(push_pair(sp, t, style)) == super::pair_texts(sp) + t,
{
    if t.len() == 0 {
        assert(super::pair_texts(sp) + t =~= super::pair_texts(sp));
    } else if sp.len() > 0 && sp.last().1 == style {
        lemma_pair_texts_push(sp.drop_last(), (sp.last().0 + t, style));
        assert(sp.drop_last().push(sp.last()) =~= sp);
        lemma_pair_texts_push(sp.drop_last(), sp.last());
        assert(super::pair_texts(sp.drop_last()) + (sp.last().0 + t) =~= super::pair_texts(sp.drop_last()) + sp.last().0 + t);
    } else {
        lemma_pair_texts_push(sp, (t, style));
    }
}

proof fn lemma_map_tagged_text(out: Seq<(Seq<char>, SpanStyle)>, inner: Seq<(Seq<char>, SpanStyle)>, style: SpanStyle)
    ensures
        super::pair_texts(map_tagged(out, inner, style)) == super::pair_texts(out) + super::pair_texts(inner),
    decreases inner.len(),
{
    if inner.len() == 0 {
        assert(super::pair_texts(out) + super::pair_texts(inner) =~= super::pair_texts(out));
    } else {
        let last = inner.last();
        lemma_map_tagged_text(out, inner.drop_last(), style);
        lemma_push_pair_text(map_tagged(out, inner.drop_last(), style), last.0, if last.1 == SpanStyle::Plain { style } else { last.1 });
        assert(super::pair_texts(out) + super::pair_texts(inner.drop_last()) + last.0 =~= super::pair_texts(out) + (
        super::pair_texts(inner.drop_last()) + last.0));
    }
}

proof fn lemma_prefix_trans(a: Seq<char>, b: Seq<char>, c: Seq<char>)
    requires
        a.is_prefix_of(b),
        b.is_prefix_of(c),
    ensures
        a.is_prefix_of(c),
{
    assert forall|k: int| 0 <= k < a.len() implies a[k] == c[k] by {
        assert(a[k] == b[k]);
        assert(b[k] == c[k]);
    }
    assert(c.subrange(0, a.len() as int) =~= a);
}

proof fn lemma_prefix_append(a: Seq<char>, t: Seq<char>)
    ensures
        a.is_prefix_of(a + t),
{
    assert((a + t).subrange(0, a.len() as int) =~= a);
}

/// Inline collection only appends: the text collected so far stays at the
/// start of what is collected.
pub proof fn law_inline_only_appends(
    ev: Seq<MdEventV>,
    i: int,
    stop: StopAt,
    sp: Seq<(Seq<char>, SpanStyle)>,
    order: Seq<Seq<char>>,
)
    ensures
        super::pair_texts(sp).is_prefix_of(super::pair_texts(inline_from(ev, i, stop, sp, order).0)),
    decreases ev.len() - i,
{
    let t0 = super::pair_texts(sp);
    let res = inline_from(ev, i, stop, sp, order);
    if i < 0 || i >= ev.len() || stops(stop, ev[i]) {
        assert(t0.subrange(0, t0.len() as int) =~= t0);
    } else {
        match ev[i] {
            MdEventV::Text(t) => {
                let sp2 = push_pair(sp, t, SpanStyle::Plain);
                lemma_push_pair_text(sp, t, SpanStyle::Plain);
                lemma_prefix_append(t0, t);
                law_inline_only_appends(ev, i + 1, stop, sp2, order);
                lemma_prefix_trans(t0, super::pair_texts(sp2), super::pair_texts(res.0));
            },
            MdEventV::Code(t) => {
                let sp2 = push_pair(sp, t, SpanStyle::Code);
                lemma_push_pair_text(sp, t, SpanStyle::Code);
                lemma_prefix_append(t0, t);
                law_inline_only_appends(ev, i + 1, stop, sp2, order);
                lemma_prefix_trans(t0, super::pair_texts(sp2), super::pair_texts(res.0));
            },
            MdEventV::SoftBreak => {
                let sp2 = push_pair(sp, " "@, SpanStyle::Plain);
                lemma_push_pair_text(sp, " "@, SpanStyle::Plain);
                lemma_prefix_append(t0, " "@);
                law_inline_only_appends(ev, i + 1, stop, sp2, order);
                lemma_prefix_trans(t0, super::pair_texts(sp2), super::pair_texts(res.0));
            },
            MdEventV::HardBreak => {
                let sp2 = push_pair(sp, " "@, SpanStyle::Plain);
                lemma_push_pair_text(sp, " "@, SpanStyle::Plain);
                lemma_prefix_append(t0, " "@);
                law_inline_only_appends(ev, i + 1, stop, sp2, order);
                lemma_prefix_trans(t0, super::pair_texts(sp2), super::pair_texts(res.0));
            },
            MdEventV::TaskListMarker(done) => {
                let g = seq![if done { CHECK_DONE } else { CHECK_TODO }, ' '];
                let sp2 = push_pair(sp, g, SpanStyle::Plain);
                lemma_push_pair_text(sp, g, SpanStyle::Plain);
                lemma_prefix_append(t0, g);
                law_inline_only_appends(ev, i + 1, stop, sp2, order);
                lemma_prefix_trans(t0, super::pair_texts(sp2), super::pair_texts(res.0));
            },
            MdEventV::FootnoteReference(name) => {
                let (n, o2) = ref_order(order, name);
                let g = seq!['['] + dec(n) + seq![']'];
                let sp2 = push_pair(sp, g, SpanStyle::Plain);
                lemma_push_pair_text(sp, g, SpanStyle::Plain);
                lemma_prefix_append(t0, g);
                law_inline_only_appends(ev, i + 1, stop, sp2, o2);
                lemma_prefix_trans(t0, super::pair_texts(sp2), super::pair_texts(res.0));
            },
            MdEventV::Start(MdStartV::Emphasis) => {
                lemma_tagged_grows(ev, i, MdEnd::Emphasis, SpanStyle::Italic, sp, order);
                let (sp2, j, o2) = tagged(ev, i, MdEnd::Emphasis, SpanStyle::Italic, sp, order);
                if i < j <= ev.len() {
                    law_inline_only_appends(ev, j, stop, sp2, o2);
                    lemma_prefix_trans(t0, super::pair_texts(sp2), super::pair_texts(res.0));
                }
            },
            MdEventV::Start(MdStartV::Strong) => {
                lemma_tagged_grows(ev, i, MdEnd::Strong, SpanStyle::Bold, sp, order);
                let (sp2, j, o2) = tagged(ev, i, MdEnd::Strong, SpanStyle::Bold, sp, order);
                if i < j <= ev.len() {
                    law_inline_only_appends(ev, j, stop, sp2, o2);
                    lemma_prefix_trans(t0, super::pair_texts(sp2), super::pair_texts(res.0));
                }
            },
            MdEventV::Start(MdStartV::Strikethrough) => {
                lemma_tagged_grows(ev, i, MdEnd::Strikethrough, SpanStyle::Strikethrough, sp, order);
                let (sp2, j, o2) = tagged(ev, i, MdEnd::Strikethrough, SpanStyle::Strikethrough, sp, order);
                if i < j <= ev.len() {
                    law_inline_only_appends(ev, j, stop, sp2, o2);
                    lemma_prefix_trans(t0, super::pair_texts(sp2), super::pair_texts(res.0));
                }
            },
            MdEventV::Start(MdStartV::Link(url)) => {
                let (inner, j, o2) = tagged(ev, i, MdEnd::Link, SpanStyle::Link, Seq::empty(), order);
                let u = " ("@ + url + ")"@;
                let sp2 = push_pair(sp + inner, u, SpanStyle::Plain);
                lemma_pair_texts_add(sp, inner);
                lemma_push_pair_text(sp + inner, u, SpanStyle::Plain);
                assert(t0 + super::pair_texts(inner) + u =~= t0 + (super::pair_texts(inner) + u));
                lemma_prefix_append(t0, super::pair_texts(inner) + u);
                if i < j <= ev.len() {
                    law_inline_only_appends(ev, j, stop, sp2, o2);
                    lemma_prefix_trans(t0, super::pair_texts(sp2), super::pair_texts(res.0));
                }
            },
            MdEventV::Start(MdStartV::Image(url)) => {
                let (alt, j) = image_alt(ev, i + 1);
                let g = image_label(alt, url);
                let sp2 = push_pair(sp, g, SpanStyle::Plain);
                lemma_push_pair_text(sp, g, SpanStyle::Plain);
                lemma_prefix_append(t0, g);
                if i < j <= ev.len() {
                    law_inline_only_appends(ev, j, stop, sp2, order);
                    lemma_prefix_trans(t0, super::pair_texts(sp2), super::pair_texts(res.0));
                }
            },
            _ => {
                law_inline_only_appends(ev, i + 1, stop, sp, order);
            },
        }
    }
}

proof fn lemma_tagged_grows(ev: Seq<MdEventV>, i: int, end: MdEnd, style: SpanStyle, out: Seq<(Seq<char>, SpanStyle)>, order: Seq<Seq<char>>)
    ensures
        super::pair_texts(out).is_prefix_of(super::pair_texts(tagged(ev, i, end, style, out, order).0)),
{
    if i < 0 || i >= ev.len() {
        lemma_prefix_append(super::pair_texts(out), Seq::empty());
        assert(super::pair_texts(out) + Seq::<char>::empty() =~= super::pair_texts(out));
    } else {
        let (inner, j, o2) = inline_from(ev, i + 1, StopAt::End(end), Seq::empty(), order);
        lemma_map_tagged_text(out, inner, style);
        lemma_prefix_append(super::pair_texts(out), super::pair_texts(inner));
    }
}

/// A task-list box shows its state: inline text that starts at a checked
/// box (`- [x]`) starts with `✓` and a space, at an unchecked one (`- [ ]`)
/// with `☐` and a space, whatever follows.
pub proof fn law_task_box_glyph(ev: Seq<MdEventV>, i: int, stop: StopAt, order: Seq<Seq<char>>, done: bool)
    requires
        0 <= i < ev.len(),
        ev[i] == MdEventV::TaskListMarker(done),
    ensures
        seq![if done { '\u{2713}' } else { '\u{2610}' }, ' '].is_prefix_of(
            super::pair_texts(inline_from(ev, i, stop, Seq::empty(), order).0),
        ),
{
    let g = seq![if done { '\u{2713}' } else { '\u{2610}' }, ' '];
    assert(!stops(stop, ev[i]));
    let sp2 = push_pair(Seq::empty(), g, SpanStyle::Plain);
    lemma_push_pair_text(Seq::empty(), g, SpanStyle::Plain);
    assert(super::pair_texts(Seq::<(Seq<char>, SpanStyle)>::empty()) + g =~= g);
    law_inline_only_appends(ev, i + 1, stop, sp2, order);
}

/// A footnote reference shows its number in brackets: the number of the
/// name in order of first reference, a new name taking the next number.
pub proof fn law_footnote_reference_number(ev: Seq<MdEventV>, i: int, stop: StopAt, order: Seq<Seq<char>>, name: Seq<char>)
    requires
        0 <= i < ev.len(),
        ev[i] == MdEventV::FootnoteReference(name),
    ensures
        ({
            let n: nat = match super::index_in(order, name) {
                Some(k) => (k + 1) as nat,
                None => (order.len() + 1) as nat,
            };
            (seq!['['] + dec(n) + seq![']']).is_prefix_of(super::pair_texts(inline_from(ev, i, stop, Seq::empty(), order).0))
        }),
        super::index_in(order, name) is None ==> inline_from(ev, i, stop, Seq::empty(), order).2.contains(name),
{
    let (n, o2) = ref_order(order, name);
    let g = seq!['['] + dec(n) + seq![']'];
    assert(!stops(stop, ev[i]));
    let sp2 = push_pair(Seq::empty(), g, SpanStyle::Plain);
    lemma_push_pair_text(Seq::empty(), g, SpanStyle::Plain);
    assert(super::pair_texts(Seq::<(Seq<char>, SpanStyle)>::empty()) + g =~= g);
    law_inline_only_appends(ev, i + 1, stop, sp2, o2);
    if super::index_in(order, name) is None {
        assert(o2 == order.push(name));
        assert(o2[order.len() as int] == name);
        lemma_order_grows(ev, i + 1, stop, sp2, o2);
        let res = inline_from(ev, i + 1, stop, sp2, o2).2;
        assert(res[order.len() as int] == name);
    }
}

/// Inline collection only adds names to the reference order.
proof fn lemma_order_grows(ev: Seq<MdEventV>, i: int, stop: StopAt, sp: Seq<(Seq<char>, SpanStyle)>, order: Seq<Seq<char>>)
    ensures
        order.is_prefix_of(inline_from(ev, i, stop, sp, order).2),
    decreases ev.len() - i, 1int,
{
    let res = inline_from(ev, i, stop, sp, order);
    if i < 0 || i >= ev.len() || stops(stop, ev[i]) {
        assert(order.subrange(0, order.len() as int) =~= order);
    } else {
        match ev[i] {
            MdEventV::FootnoteReference(name) => {
                let (n, o2) = ref_order(order, name);
                lemma_order_grows(ev, i + 1, stop, push_pair(sp, seq!['['] + dec(n) + seq![']'], SpanStyle::Plain), o2);
                assert(order.is_prefix_of(o2)) by {
                    assert(o2.subrange(0, order.len() as int) =~= order);
                }
                lemma_seq_prefix_trans(order, o2, res.2);
            },
            MdEventV::Start(MdStartV::Emphasis) => {
                lemma_tagged_order(ev, i, MdEnd::Emphasis, SpanStyle::Italic, sp, order);
                let (sp2, j, o2) = tagged(ev, i, MdEnd::Emphasis, SpanStyle::Italic, sp, order);
                if i < j <= ev.len() {
                    lemma_order_grows(ev, j, stop, sp2, o2);
                    lemma_seq_prefix_trans(order, o2, res.2);
                }
            },
            MdEventV::Start(MdStartV::Strong) => {
                lemma_tagged_order(ev, i, MdEnd::Strong, SpanStyle::Bold, sp, order);
                let (sp2, j, o2) = tagged(ev, i, MdEnd::Strong, SpanStyle::Bold, sp, order);
                if i < j <= ev.len() {
                    lemma_order_grows(ev, j, stop, sp2, o2);
                    lemma_seq_prefix_trans(order, o2, res.2);
                }
            },
            MdEventV::Start(MdStartV::Strikethrough) => {
                lemma_tagged_order(ev, i, MdEnd::Strikethrough, SpanStyle::Strikethrough, sp, order);
                let (sp2, j, o2) = tagged(ev, i, MdEnd::Strikethrough, SpanStyle::Strikethrough, sp, order);
                if i < j <= ev.len() {
                    lemma_order_grows(ev, j, stop, sp2, o2);
                    lemma_seq_prefix_trans(order, o2, res.2);
                }
            },
            MdEventV::Start(MdStartV::Link(url)) => {
                lemma_tagged_order(ev, i, MdEnd::Link, SpanStyle::Link, Seq::empty(), order);
                let (inner, j, o2) = tagged(ev, i, MdEnd::Link, SpanStyle::Link, Seq::empty(), order);
                let sp2 = push_pair(sp + inner, " ("@ + url + ")"@, SpanStyle::Plain);
                if i < j <= ev.len() {
                    lemma_order_grows(ev, j, stop, sp2, o2);
                    lemma_seq_prefix_trans(order, o2, res.2);
                }
            },
            MdEventV::Start(MdStartV::Image(url)) => {
                let (alt, j) = image_alt(ev, i + 1);
                if i < j <= ev.len() {
                    lemma_order_grows(ev, j, stop, push_pair(sp, image_label(alt, url), SpanStyle::Plain), order);
                }
            },
            MdEventV::Text(t) => {
                lemma_order_grows(ev, i + 1, stop, push_pair(sp, t, SpanStyle::Plain), order);
            },
            MdEventV::Code(t) => {
                lemma_order_grows(ev, i + 1, stop, push_pair(sp, t, SpanStyle::Code), order);
            },
            MdEventV::SoftBreak => {
                lemma_order_grows(ev, i + 1, stop, push_pair(sp, " "@, SpanStyle::Plain), order);
            },
            MdEventV::HardBreak => {
                lemma_order_grows(ev, i + 1, stop, push_pair(sp, " "@, SpanStyle::Plain), order);
            },
            MdEventV::TaskListMarker(done) => {
                lemma_order_grows(ev, i + 1, stop, push_pair(sp, seq![if done { CHECK_DONE } else { CHECK_TODO }, ' '], SpanStyle::Plain), order);
            },
            _ => {
                lemma_order_grows(ev, i + 1, stop, sp, order);
            },
        }
    }
}

proof fn lemma_tagged_order(ev: Seq<MdEventV>, i: int, end: MdEnd, style: SpanStyle, out: Seq<(Seq<char>, SpanStyle)>, order: Seq<Seq<char>>)
    ensures
        order.is_prefix_of(tagged(ev, i, end, style, out, order).2),
    decreases ev.len() - i, 0int,
{
    if i < 0 || i >= ev.len() {
        assert(order.subrange(0, order.len() as int) =~= order);
    } else {
        lemma_order_grows(ev, i + 1, StopAt::End(end), Seq::empty(), order);
    }
}

proof fn lemma_seq_prefix_trans(a: Seq<Seq<char>>, b: Seq<Seq<char>>, c: Seq<Seq<char>>)
    requires
        a.is_prefix_of(b),
        b.is_prefix_of(c),
    ensures
        a.is_prefix_of(c),
{
    assert forall|k: int| 0 <= k < a.len() implies a[k] == c[k] by {
        assert(a[k] == b.subrange(0, a.len() as int)[k]);
        assert(b[k] == c.subrange(0, b.len() as int)[k]);
    }
    assert(c.subrange(0, a.len() as int) =~= a);
}

/// A link shows its text and then its destination in brackets: inline
/// text that starts at a link starts with the text of the link's content
/// followed by ` (url)`.
pub proof fn law_link_shows_destination(ev: Seq<MdEventV>, i: int, stop: StopAt, order: Seq<Seq<char>>, url: Seq<char>)
    requires
        0 <= i < ev.len(),
        ev[i] == MdEventV::Start(MdStartV::Link(url)),
        !stops(stop, ev[i]),
    ensures
        ({
            let inner = tagged(ev, i, MdEnd::Link, SpanStyle::Link, Seq::empty(), order);
            let res = inline_from(ev, i, stop, Seq::empty(), order);
            &&& super::pair_texts(inner.0) == super::pair_texts(inline_from(ev, i + 1, StopAt::End(MdEnd::Link), Seq::empty(), order).0)
            &&& (super::pair_texts(inner.0) + " ("@ + url + ")"@).is_prefix_of(super::pair_texts(res.0))
        }),
{
    let (inner, j, o2) = tagged(ev, i, MdEnd::Link, SpanStyle::Link, Seq::empty(), order);
    let e = Seq::<(Seq<char>, SpanStyle)>::empty();
    let u = " ("@ + url + ")"@;
    let sp2 = push_pair(e + inner, u, SpanStyle::Plain);
    assert(e + inner =~= inner);
    lemma_push_pair_text(inner, u, SpanStyle::Plain);
    let (sp_in, j0, o0) = inline_from(ev, i + 1, StopAt::End(MdEnd::Link), Seq::empty(), order);
    lemma_map_tagged_text(Seq::empty(), sp_in, SpanStyle::Link);
    assert(super::pair_texts(e) == Seq::<char>::empty());
    assert(super::pair_texts(e) + super::pair_texts(sp_in) =~= super::pair_texts(sp_in));
    assert(super::pair_texts(inner) + u =~= super::pair_texts(inner) + " ("@ + url + ")"@);
    let res = inline_from(ev, i, stop, e, order);
    if i < j <= ev.len() {
        law_inline_only_appends(ev, j, stop, sp2, o2);
    } else {
        assert(super::pair_texts(sp2).subrange(0, super::pair_texts(sp2).len() as int) =~= super::pair_texts(sp2));
    }
}

} // verus!
