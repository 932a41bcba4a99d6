//! Heading anchors and footnotes for a document whose lines were drawn by
//! someone else: the headings and footnote definitions are read from the
//! source, and each heading is found again among the drawn plain lines.

use vstd::prelude::*;
use super::{Footnote, HeadingAnchor};
use super::events::{parse_markdown, markdown_events, MdEnd, MdEvent, MdEventV, MdStart, MdStartV};
use crate::text::{chars_of, eq, string_of, trim, trim_slice};

verus! {

/// What a scan of events has gathered: the headings and footnote
/// definitions so far, the open heading's level and text, the open
/// definition's name and text.
pub open spec fn scan_start() -> (Seq<(u8, Seq<char>)>, Seq<(Seq<char>, Seq<char>)>, Option<u8>, Seq<char>, Option<Seq<char>>, Seq<char>) {
    (Seq::empty(), Seq::empty(), None, Seq::empty(), None, Seq::empty())
}

/// The text of an open heading or definition grows by `t`.
pub open spec fn scan_text(
    st: (Seq<(u8, Seq<char>)>, Seq<(Seq<char>, Seq<char>)>, Option<u8>, Seq<char>, Option<Seq<char>>, Seq<char>),
    t: Seq<char>,
) -> (Seq<(u8, Seq<char>)>, Seq<(Seq<char>, Seq<char>)>, Option<u8>, Seq<char>, Option<Seq<char>>, Seq<char>) {
    (
        st.0,
        st.1,
        st.2,
        if st.2 is Some { st.3 + t } else { st.3 },
        st.4,
        if st.4 is Some { st.5 + t } else { st.5 },
    )
}

/// One event of the scan: a heading or definition opens with empty text
/// and is recorded, trimmed, when it closes; text and code add their
/// characters to what is open, a line break a space.
pub open spec fn scan_step(
    st: (Seq<(u8, Seq<char>)>, Seq<(Seq<char>, Seq<char>)>, Option<u8>, Seq<char>, Option<Seq<char>>, Seq<char>),
    e: MdEventV,
) -> (Seq<(u8, Seq<char>)>, Seq<(Seq<char>, Seq<char>)>, Option<u8>, Seq<char>, Option<Seq<char>>, Seq<char>) {
    match e {
        MdEventV::Start(MdStartV::Heading(l)) => (st.0, st.1, Some(l), Seq::empty(), st.4, st.5),
        MdEventV::End(MdEnd::Heading) => (
            match st.2 {
                Some(l) => st.0.push((l, trim(st.3))),
                None => st.0,
            },
            st.1,
            None,
            st.3,
            st.4,
            st.5,
        ),
        MdEventV::Start(MdStartV::FootnoteDefinition(n)) => (st.0, st.1, st.2, st.3, Some(n), Seq::empty()),
        MdEventV::End(MdEnd::FootnoteDefinition) => (
            st.0,
            match st.4 {
                Some(n) => st.1.push((n, trim(st.5))),
                None => st.1,
            },
            st.2,
            st.3,
            None,
            st.5,
        ),
        MdEventV::Text(t) => scan_text(st, t),
        MdEventV::Code(t) => scan_text(st, t),
        MdEventV::SoftBreak => scan_text(st, seq![' ']),
        MdEventV::HardBreak => scan_text(st, seq![' ']),
        _ => st,
    }
}

/// The scan over a run of events.
pub open spec fn scan_events_spec(es: Seq<MdEventV>) -> (Seq<(u8, Seq<char>)>, Seq<(Seq<char>, Seq<char>)>, Option<u8>, Seq<char>, Option<Seq<char>>, Seq<char>)
    decreases es.len(),
{
    if es.len() == 0 {
        scan_start()
    } else {
        scan_step(scan_events_spec(es.drop_last()), es.last())
    }
}

/// The headings (level and trimmed text, in order) and footnote
/// definitions (name and trimmed text, in order) among parse events.
#[verifier::loop_isolation(false)]
pub fn scan_events(events: &Vec<MdEvent>) -> (r: (Vec<(u8, String)>, Vec<(String, String)>))
    ensures
        r.0@.map_values(|h: (u8, String)| (h.0, h.1@)) == scan_events_spec(events@.map_values(|e: MdEvent| e@)).0,
        r.1@.map_values(|f: (String, String)| (f.0@, f.1@)) == scan_events_spec(events@.map_values(|e: MdEvent| e@)).1,
{
    let ghost ev = events@.map_values(|e: MdEvent| e@);
    let mut headings: Vec<(u8, String)> = Vec::new();
    let mut footnotes: Vec<(String, String)> = Vec::new();
    let mut in_heading: Option<u8> = None;
    let mut heading_text: Vec<char> = Vec::new();
    let mut in_footnote: Option<String> = None;
    let mut footnote_text: Vec<char> = Vec::new();
    let mut i: usize = 0;
    proof {
        assert(ev.take(0) =~= Seq::<MdEventV>::empty());
        assert(headings@.map_values(|h: (u8, String)| (h.0, h.1@)) =~= Seq::<(u8, Seq<char>)>::empty());
        assert(footnotes@.map_values(|f: (String, String)| (f.0@, f.1@)) =~= Seq::<(Seq<char>, Seq<char>)>::empty());
    }
    while i < events.len()
        invariant
            i <= events@.len(),
            ev == events@.map_values(|e: MdEvent| e@),
            ({
                let st = scan_events_spec(ev.take(i as int));
                &&& headings@.map_values(|h: (u8, String)| (h.0, h.1@)) == st.0
                &&& footnotes@.map_values(|f: (String, String)| (f.0@, f.1@)) == st.1
                &&& in_heading == st.2
                &&& heading_text@ == st.3
                &&& match in_footnote {
                    Some(n) => st.4 == Some(n@),
                    None => st.4 is None,
                }
                &&& footnote_text@ == st.5
            }),
        decreases events.len() - i,
    {
        proof {
            assert(ev.take(i + 1).drop_last() =~= ev.take(i as int));
            assert(ev.take(i + 1).last() == events@[i as int]@);
        }
        let ghost hv0 = headings@.map_values(|h: (u8, String)| (h.0, h.1@));
        let ghost fv0 = footnotes@.map_values(|f: (String, String)| (f.0@, f.1@));
        match &events[i] {
            MdEvent::Start(MdStart::Heading(level)) => {
                in_heading = Some(*level);
                heading_text = Vec::new();
            },
            MdEvent::End(MdEnd::Heading) => {
                match in_heading {
                    Some(level) => {
                        headings.push((level, string_of(trim_slice(heading_text.as_slice()))));
                        assert(headings@.map_values(|h: (u8, String)| (h.0, h.1@)) =~= hv0.push((level, trim(heading_text@))));
                    },
                    None => {},
                }
                in_heading = None;
            },
            MdEvent::Start(MdStart::FootnoteDefinition(name)) => {
                in_footnote = Some(name.clone());
                footnote_text = Vec::new();
            },
            MdEvent::End(MdEnd::FootnoteDefinition) => {
                match in_footnote {
                    Some(name) => {
                        let ghost nv = name@;
                        footnotes.push((name, string_of(trim_slice(footnote_text.as_slice()))));
                        assert(footnotes@.map_values(|f: (String, String)| (f.0@, f.1@)) =~= fv0.push((nv, trim(footnote_text@))));
                    },
                    None => {},
                }
                in_footnote = None;
            },
            MdEvent::Text(t) | MdEvent::Code(t) => {
                let tc = chars_of(t.as_str());
                let ghost h0 = heading_text@;
                let ghost f0 = footnote_text@;
                let mut j: usize = 0;
                while j < tc.len()
                    invariant
                        j <= tc@.len(),
                        heading_text@ == (if in_heading is Some { h0 + tc@.take(j as int) } else { h0 }),
                        footnote_text@ == (if in_footnote is Some { f0 + tc@.take(j as int) } else { f0 }),
                    decreases tc.len() - j,
                {
                    if in_heading.is_some() {
                        heading_text.push(tc[j]);
                    }
                    if in_footnote.is_some() {
                        footnote_text.push(tc[j]);
                    }
                    j = j + 1;
                    assert(h0 + tc@.take(j as int) =~= (h0 + tc@.take(j - 1)).push(tc@[j - 1]));
                    assert(f0 + tc@.take(j as int) =~= (f0 + tc@.take(j - 1)).push(tc@[j - 1]));
                }
                assert(tc@.take(tc@.len() as int) =~= tc@);
            },
            MdEvent::SoftBreak | MdEvent::HardBreak => {
                if in_heading.is_some() {
                    heading_text.push(' ');
                }
                if in_footnote.is_some() {
                    footnote_text.push(' ');
                }
            },
            _ => {},
        }
        i = i + 1;
    }
    assert(ev.take(events@.len() as int) =~= ev);
    (headings, footnotes)
}

/// The headings (level and trimmed text, in document order) and footnote
/// definitions (name and trimmed text, in definition order) of `src`, read
/// from a parse with footnotes enabled.
pub fn scan_headings_and_footnotes(src: &str) -> (r: (Vec<(u8, String)>, Vec<(String, String)>))
    ensures
        r.0@.map_values(|h: (u8, String)| (h.0, h.1@)) == scan_events_spec(markdown_events(src@, true)).0,
        r.1@.map_values(|f: (String, String)| (f.0@, f.1@)) == scan_events_spec(markdown_events(src@, true)).1,
{
    let events = parse_markdown(src, true);
    scan_events(&events)
}

/// The first line at or after `from` whose trimmed text is `t`.
pub open spec fn first_line_with(plain: Seq<Seq<char>>, t: Seq<char>, from: int) -> Option<int>
    decreases plain.len() - from,
{
    if from < 0 || from >= plain.len() {
        None
    } else if trim(plain[from]) == t {
        Some(from)
    } else {
        first_line_with(plain, t, from + 1)
    }
}

/// The anchors (level, trimmed text, line) of `hs` found in `plain`, the
/// search for each starting at `cursor` or after the previous match.
pub open spec fn located(plain: Seq<Seq<char>>, hs: Seq<(u8, Seq<char>)>, cursor: int) -> Seq<(u8, Seq<char>, int)>
    decreases hs.len(),
{
    if hs.len() == 0 {
        Seq::empty()
    } else {
        let t = trim(hs[0].1);
        match first_line_with(plain, t, cursor) {
            Some(j) => seq![(hs[0].0, t, j)] + located(plain, hs.drop_first(), j + 1),
            None => located(plain, hs.drop_first(), cursor),
        }
    }
}

/// Each heading's line among `plain`: the next line at or after the line
/// after the previous match whose trimmed text equals the heading's
/// trimmed text. A heading with no such line is left out, and the search
/// goes on from the same place.
#[verifier::loop_isolation(false)]
pub fn locate_heading_lines(plain: &[String], headings: &[(u8, String)]) -> (r: Vec<HeadingAnchor>)
    ensures
        r@.len() <= headings@.len(),
        forall|k: int| 0 <= k < r@.len() ==> (#[trigger] r@[k]).line < plain@.len()
            && trim(plain@[r@[k].line as int]@) == r@[k].text@,
        forall|a: int, b: int| 0 <= a < b < r@.len() ==> r@[a].line < r@[b].line,
        r@.map_values(|a: HeadingAnchor| (a.level, a.text@, a.line as int)) == located(
            plain@.map_values(|l: String| l@),
            headings@.map_values(|h: (u8, String)| (h.0, h.1@)),
            0,
        ),
{
    let ghost pv = plain@.map_values(|l: String| l@);
    let ghost hv = headings@.map_values(|h: (u8, String)| (h.0, h.1@));
    let ghost full = located(pv, hv, 0);
    assert(hv.skip(0) =~= hv);
    let mut result: Vec<HeadingAnchor> = Vec::new();
    let mut cursor: usize = 0;
    let mut h: usize = 0;
    while h < headings.len()
        invariant
            h <= headings@.len(),
            result@.len() <= h,
            cursor <= plain@.len(),
            forall|k: int| 0 <= k < result@.len() ==> (#[trigger] result@[k]).line < cursor
                && trim(plain@[result@[k].line as int]@) == result@[k].text@,
            forall|a: int, b: int| 0 <= a < b < result@.len() ==> result@[a].line < result@[b].line,
            result@.map_values(|a: HeadingAnchor| (a.level, a.text@, a.line as int)) + located(pv, hv.skip(h as int), cursor as int)
                == full,
        decreases headings.len() - h,
    {
        let ghost rv0 = result@.map_values(|a: HeadingAnchor| (a.level, a.text@, a.line as int));
        proof {
            assert(hv.skip(h as int).drop_first() =~= hv.skip(h + 1));
            assert(hv.skip(h as int)[0] == (headings@[h as int].0, headings@[h as int].1@));
        }
        let level = headings[h].0;
        let tc = chars_of(headings[h].1.as_str());
        let trimmed = trim_slice(tc.as_slice());
        let mut j = cursor;
        let mut found: Option<usize> = None;
        while j < plain.len()
            invariant
                cursor <= j <= plain@.len(),
                found is None,
                first_line_with(pv, trimmed@, cursor as int) == first_line_with(pv, trimmed@, j as int),
            decreases plain.len() - j,
        {
            let lc = chars_of(plain[j].as_str());
            assert(pv[j as int] == plain@[j as int]@);
            if eq(trim_slice(lc.as_slice()), trimmed) {
                assert(first_line_with(pv, trimmed@, j as int) == Some(j as int));
                assert(first_line_with(pv, trimmed@, cursor as int) == Some(j as int));
                found = Some(j);
                break;
            }
            j = j + 1;
        }
        match found {
            Some(line) => {
                let ghost r0 = result@;
                result.push(HeadingAnchor { level, text: string_of(trimmed), line });
                proof {
                    let hs = hv.skip(h as int);
                    assert(trim(hs[0].1) == trimmed@);
                    assert(hs.len() > 0);
                    assert(first_line_with(pv, trimmed@, cursor as int) == Some(line as int));
                    assert(located(pv, hs, cursor as int) == seq![(hs[0].0, trimmed@, line as int)] + located(pv, hs.drop_first(), line + 1));
                    assert(result@.map_values(|a: HeadingAnchor| (a.level, a.text@, a.line as int)) =~= rv0 + seq![
                        (level, trimmed@, line as int),
                    ]);
                    assert(rv0 + seq![(level, trimmed@, line as int)] + located(pv, hv.skip(h + 1), line + 1) =~= rv0 + located(
                        pv,
                        hv.skip(h as int),
                        cursor as int,
                    ));
                }
                cursor = line + 1;
            },
            None => {
                proof {
                    let hs = hv.skip(h as int);
                    assert(trim(hs[0].1) == trimmed@);
                    assert(located(pv, hs, cursor as int) == located(pv, hs.drop_first(), cursor as int));
                }
            },
        }
        h = h + 1;
    }
    proof {
        assert(hv.skip(headings@.len() as int) =~= Seq::<(u8, Seq<char>)>::empty());
        assert(result@.map_values(|a: HeadingAnchor| (a.level, a.text@, a.line as int)) =~= full);
    }
    result
}

/// Footnotes from definitions, numbered from one in definition order.
#[verifier::loop_isolation(false)]
pub fn footnotes_in_definition_order(defs: Vec<(String, String)>) -> (r: Vec<Footnote>)
    ensures
        r@.len() == defs@.len(),
        forall|k: int| 0 <= k < r@.len() ==> (#[trigger] r@[k]).index == k + 1 && r@[k].name@ == defs@[k].0@
            && r@[k].text@ == defs@[k].1@,
{
    let mut out: Vec<Footnote> = Vec::new();
    let mut i: usize = 0;
    while i < defs.len()
        invariant
            i <= defs@.len(),
            out@.len() == i,
            forall|k: int| 0 <= k < out@.len() ==> (#[trigger] out@[k]).index == k + 1 && out@[k].name@ == defs@[k].0@
                && out@[k].text@ == defs@[k].1@,
        decreases defs.len() - i,
    {
        out.push(Footnote { index: i + 1, name: defs[i].0.clone(), text: defs[i].1.clone() });
        i = i + 1;
    }
    out
}

} // verus!
