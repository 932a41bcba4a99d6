//! Markdown rendered to wrapped, styled lines for a terminal panel.

use vstd::prelude::*;
use self::block::{extends, push_heading, push_list, push_paragraph, push_quote, push_table};
use self::code::push_code_block;
use self::events::{parse_markdown, MdEnd, MdEvent, MdStart};
use self::inline::{collect_inline, inline_from, StopAt};
use self::events::{MdEventV, MdStartV};
use self::block::{list_at, simple_block, table_block};
use crate::text::trim;
use self::mermaid::engine::{EngineRegistry, GraphEngine};
use self::mermaid::engine::builtin::BuiltinEngine;
use self::table::spans_string;
use self::theme::{heading_rule, Theme};
use self::wrap::wrap_spans;
use crate::text::{chars_of, find, find_str, slice_vec, starts_with_str, string_of, trim_slice};
use crate::app::loader::push_dec;
use crate::width::{rep, sat, str_width};

pub mod block;
pub mod code;
pub mod delegated;
pub mod events;
pub mod hangul;
pub mod inline;
pub mod table;
pub mod theme;
pub mod wrap;
pub mod mermaid;

verus! {

/// One rendered line: indentation, styled pieces of text, and what kind of
/// block it belongs to.
#[derive(Clone)]
pub struct Line {
    pub indent: u16,
    pub spans: Vec<Span>,
    pub style: Option<LineStyle>,
}

/// A piece of text with one inline style.
#[derive(Clone, Debug)]
pub struct Span {
    pub text: String,
    pub style: SpanStyle,
}

#[derive(Clone, Copy, PartialEq, Eq, Debug, Structural)]
pub enum SpanStyle {
    Plain,
    Bold,
    Italic,
    Strikethrough,
    Code,
    Link,
}

#[derive(Clone, Copy, PartialEq, Eq, Debug, Structural)]
pub enum LineStyle {
    Heading(u8),
    Quote,
    ListItem(u16),
    Table,
    Plain,
}

/// The text of a run of spans.
pub open spec fn span_texts(ss: Seq<Span>) -> Seq<char>
    decreases ss.len(),
{
    if ss.len() == 0 {
        Seq::empty()
    } else {
        span_texts(ss.drop_last()) + ss.last().text@
    }
}

/// A heading's level, text and the rendered line it starts on.
pub struct HeadingAnchor {
    pub level: u8,
    pub text: String,
    pub line: usize,
}

/// One footnote, numbered by first reference (1-based).
pub struct Footnote {
    pub index: usize,
    pub name: String,
    pub text: String,
}

/// A rendered document: styled lines, the same lines as plain text, the
/// headings and the footnotes.
pub struct Rendered {
    pub lines: Vec<Line>,
    pub plain: Vec<String>,
    pub headings: Vec<HeadingAnchor>,
    pub footnotes: Vec<Footnote>,
}

/// Footnote references and definitions met while rendering: the names in
/// order of first reference, and each defined name's text (a later
/// definition of a name replaces an earlier one).
pub struct FootnoteState {
    defs: Vec<(String, String)>,
    order: Vec<String>,
}

/// The index of `name` in `names`, if it is there.
pub open spec fn index_in(names: Seq<Seq<char>>, name: Seq<char>) -> Option<int>
    decreases names.len(),
{
    if names.len() == 0 {
        None
    } else if names.last() == name {
        match index_in(names.drop_last(), name) {
            Some(i) => Some(i),
            None => Some(names.len() - 1),
        }
    } else {
        index_in(names.drop_last(), name)
    }
}

pub proof fn lemma_index_in(names: Seq<Seq<char>>, name: Seq<char>)
    ensures
        index_in(names, name) matches Some(i) ==> 0 <= i < names.len() && names[i] == name
            && forall|j: int| 0 <= j < i ==> names[j] != name,
        index_in(names, name) is None ==> forall|j: int| 0 <= j < names.len() ==> names[j] != name,
    decreases names.len(),
{
    if names.len() > 0 {
        let pre = names.drop_last();
        lemma_index_in(pre, name);
        assert forall|j: int| 0 <= j < pre.len() implies pre[j] == names[j] by {}
    }
}

impl FootnoteState {
    /// The referenced names, first reference first.
    pub closed spec fn order_view(&self) -> Seq<Seq<char>> {
        self.order@.map_values(|s: String| s@)
    }

    /// The defined names and texts, in order of first definition.
    pub closed spec fn defs_view(&self) -> Seq<(Seq<char>, Seq<char>)> {
        self.defs@.map_values(|d: (String, String)| (d.0@, d.1@))
    }

    pub fn new() -> (r: FootnoteState)
        ensures
            r.order_view() == Seq::<Seq<char>>::empty(),
            r.defs_view() == Seq::<(Seq<char>, Seq<char>)>::empty(),
    {
        let r = FootnoteState { defs: Vec::new(), order: Vec::new() };
        assert(r.order_view() =~= Seq::<Seq<char>>::empty());
        assert(r.defs_view() =~= Seq::<(Seq<char>, Seq<char>)>::empty());
        r
    }

    /// The 1-based number of a referenced name: its place in order of first
    /// reference, a new name going last.
    #[verifier::loop_isolation(false)]
    pub fn ref_index(&mut self, name: &str) -> (r: usize)
        ensures
            final(self).defs_view() == old(self).defs_view(),
            match index_in(old(self).order_view(), name@) {
                Some(i) => r == i + 1 && final(self).order_view() == old(self).order_view(),
                None => final(self).order_view() == old(self).order_view().push(name@)
                    && r == final(self).order_view().len(),
            },
            old(self).order_view().no_duplicates() ==> final(self).order_view().no_duplicates(),
    {
        let mut i: usize = 0;
        proof {
            lemma_index_in(self.order_view(), name@);
        }
        while i < self.order.len()
            invariant
                i <= self.order@.len(),
                forall|j: int| 0 <= j < i ==> self.order_view()[j] != name@,
            decreases self.order.len() - i,
        {
            if crate::spec::meta::str_eq(self.order[i].as_str(), name) {
                proof {
                    assert(self.order_view()[i as int] == name@);
                }
                return i + 1;
            }
            i = i + 1;
        }
        let ghost before = self.order@;
        let ghost ov = self.order_view();
        self.order.push(name.to_owned());
        proof {
            assert(self.order_view() =~= before.map_values(|s: String| s@).push(name@));
            assert forall|a: int, b: int| 0 <= a < b < self.order_view().len() && ov.no_duplicates() implies self.order_view()[a]
                != self.order_view()[b] by {
                if b == ov.len() {
                    assert(self.order_view()[a] == ov[a]);
                } else {
                    assert(self.order_view()[a] == ov[a] && self.order_view()[b] == ov[b]);
                }
            }
        }
        self.order.len()
    }

    /// The defined names, in order of first definition.
    pub open spec fn def_names(&self) -> Seq<Seq<char>> {
        names_of_defs(self.defs_view())
    }

    /// Records the text of a definition, replacing an earlier one of the
    /// same name.
    #[verifier::loop_isolation(false)]
    pub fn define(&mut self, name: &str, text: String)
        ensures
            final(self).order_view() == old(self).order_view(),
            match index_in(old(self).def_names(), name@) {
                Some(i) => final(self).defs_view() == old(self).defs_view().update(i, (name@, text@)),
                None => final(self).defs_view() == old(self).defs_view().push((name@, text@)),
            },
    {
        proof {
            lemma_index_in(self.def_names(), name@);
        }
        let mut i: usize = 0;
        while i < self.defs.len()
            invariant
                i <= self.defs@.len(),
                self.order@ == old(self).order@,
                self.defs@ == old(self).defs@,
                forall|j: int| 0 <= j < i ==> self.def_names()[j] != name@,
            decreases self.defs.len() - i,
        {
            if crate::spec::meta::str_eq(self.defs[i].0.as_str(), name) {
                proof {
                    assert(self.def_names()[i as int] == name@);
                }
                let key = self.defs[i].0.clone();
                self.defs.set(i, (key, text));
                proof {
                    assert(self.defs_view() =~= old(self).defs_view().update(i as int, (name@, text@)));
                }
                return;
            }
            i = i + 1;
        }
        proof {
            if index_in(old(self).def_names(), name@) is Some {
                let k = index_in(old(self).def_names(), name@)->0;
                assert(old(self).def_names()[k] == name@);
                assert(self.defs_view() == old(self).defs_view());
                assert(self.def_names()[k] == old(self).def_names()[k]);
                assert(false);
            }
        }
        self.defs.push((name.to_owned(), text));
        proof {
            assert(self.defs_view() =~= old(self).defs_view().push((name@, text@)));
        }
    }

    /// The text defined for `name`, empty when there is none.
    #[verifier::loop_isolation(false)]
    pub fn text_of(&self, name: &String) -> (r: String)
        ensures
            r@ == match index_in(self.def_names(), name@) {
                Some(i) => self.defs_view()[i].1,
                None => Seq::<char>::empty(),
            },
    {
        proof {
            lemma_index_in(self.def_names(), name@);
        }
        let mut i: usize = 0;
        while i < self.defs.len()
            invariant
                i <= self.defs@.len(),
                forall|j: int| 0 <= j < i ==> self.def_names()[j] != name@,
            decreases self.defs.len() - i,
        {
            if crate::spec::meta::str_eq(self.defs[i].0.as_str(), name.as_str()) {
                proof {
                    assert(self.def_names()[i as int] == name@);
                }
                return self.defs[i].1.clone();
            }
            i = i + 1;
        }
        String::new()
    }

    /// The number of referenced names.
    pub fn referenced(&self) -> (r: usize)
        ensures
            r == self.order_view().len(),
    {
        self.order.len()
    }

    /// The referenced name numbered `i + 1`.
    pub fn name_at(&self, i: usize) -> (r: String)
        requires
            i < self.order_view().len(),
        ensures
            r@ == self.order_view()[i as int],
    {
        self.order[i].clone()
    }
}

/// `s` without a leading YAML front matter block: when `s` starts with
/// `---` and a newline and a later line starts with `---`, everything up to
/// the end of that `---` and one newline after it.
pub open spec fn spec_strip_frontmatter(s: Seq<char>) -> Seq<char> {
    if !"---\n"@.is_prefix_of(s) {
        s
    } else {
        let body = s.subrange(4, s.len() as int);
        match find(body, "\n---"@) {
            None => s,
            Some(p) => {
                let rest = body.subrange(p + 4, body.len() as int);
                if rest.len() > 0 && rest[0] == '\n' {
                    rest.subrange(1, rest.len() as int)
                } else {
                    rest
                }
            },
        }
    }
}

pub fn strip_frontmatter(src: &str) -> (r: String)
    ensures
        r@ == spec_strip_frontmatter(src@),
{
    let cs = chars_of(src);
    if !starts_with_str(cs.as_slice(), "---\n") {
        return src.to_owned();
    }
    proof {
        reveal_strlit("---\n");
    }
    let body = slice_vec(cs.as_slice(), 4, cs.len());
    match find_str(body.as_slice(), "\n---") {
        None => src.to_owned(),
        Some(p) => {
            proof {
                crate::text::lemma_find_from_bounds(body@, "\n---"@, 0);
                reveal_strlit("\n---");
            }
            let rest = slice_vec(body.as_slice(), p + 4, body.len());
            if rest.len() > 0 && rest[0] == '\n' {
                string_of(slice_vec(rest.as_slice(), 1, rest.len()).as_slice())
            } else {
                string_of(rest.as_slice())
            }
        },
    }
}

/// The rendered lines and their plain text run side by side; every heading
/// anchor names a heading line of its level whose plain text is the
/// anchor's text, the anchors in line order.
pub open spec fn doc_ok(out: Seq<Line>, plain: Seq<String>, headings: Seq<HeadingAnchor>) -> bool {
    &&& out.len() == plain.len()
    &&& forall|k: int| 0 <= k < headings.len() ==> heading_ok(out, plain, #[trigger] headings[k])
    &&& forall|a: int, b: int| 0 <= a < b < headings.len() ==> headings[a].line < headings[b].line
}

/// One heading anchor names a heading line of its level with its text.
pub open spec fn heading_ok(out: Seq<Line>, plain: Seq<String>, h: HeadingAnchor) -> bool {
    &&& h.line < out.len()
    &&& out[h.line as int].style == Some(LineStyle::Heading(h.level))
    &&& plain[h.line as int]@ == h.text@
}

/// A rendered document keeps [`doc_ok`], numbers its footnotes from one
/// and lists each referenced name once.
pub open spec fn rendered_ok(r: Rendered) -> bool {
    &&& doc_ok(r.lines@, r.plain@, r.headings@)
    &&& forall|k: int| 0 <= k < r.footnotes@.len() ==> (#[trigger] r.footnotes@[k]).index == k + 1
    &&& forall|a: int, b: int| 0 <= a < b < r.footnotes@.len() ==> (#[trigger] r.footnotes@[a]).name@ != (#[trigger] r.footnotes@[b]).name@
}

/// The rule under a heading: where the theme draws one for its level
/// and its text takes columns, the next plain line is the rule character
/// as many times as the text is wide.
pub open spec fn rule_line_ok(theme: Theme, plain: Seq<String>, h: HeadingAnchor) -> bool {
    match heading_rule(theme, h.level) {
        Some(c) => sat(str_width(h.text@)) > 0 ==> {
            &&& h.line + 1 < plain.len()
            &&& plain[h.line + 1]@ == rep(c, sat(str_width(h.text@)) as nat)
        },
        None => true,
    }
}

/// [`rule_line_ok`] for every heading.
pub open spec fn rules_ok(theme: Theme, plain: Seq<String>, headings: Seq<HeadingAnchor>) -> bool {
    forall|k: int| 0 <= k < headings.len() ==> rule_line_ok(theme, plain, #[trigger] headings[k])
}

proof fn lemma_doc_ok_extends(
    theme: Theme, o0: Seq<Line>, p0: Seq<String>, o1: Seq<Line>, p1: Seq<String>, h: Seq<HeadingAnchor>,
)
    requires
        doc_ok(o0, p0, h),
        rules_ok(theme, p0, h),
        extends(o0, p0, o1, p1),
    ensures
        doc_ok(o1, p1, h),
        rules_ok(theme, p1, h),
{
    assert forall|k: int| 0 <= k < h.len() implies rule_line_ok(theme, p1, #[trigger] h[k]) by {
        assert(rule_line_ok(theme, p0, h[k]));
        let l = h[k].line as int;
        if l + 1 < p0.len() {
            assert(p1[l + 1] == p1.subrange(0, p0.len() as int)[l + 1]);
        }
    }
    assert forall|k: int| 0 <= k < h.len() implies heading_ok(o1, p1, #[trigger] h[k]) by {
        assert(heading_ok(o0, p0, h[k]));
        let l = h[k].line as int;
        assert(o1[l] == o1.subrange(0, o0.len() as int)[l]);
        assert(p1[l] == p1.subrange(0, p0.len() as int)[l]);
    }
}

/// Pushes one plain line of one plain span.
fn push_plain_line(out: &mut Vec<Line>, plain: &mut Vec<String>, text: String)
    requires
        old(out)@.len() == old(plain)@.len(),
    ensures
        extends(old(out)@, old(plain)@, final(out)@, final(plain)@),
{
    let mut spans: Vec<Span> = Vec::new();
    spans.push(Span { text: text.clone(), style: SpanStyle::Plain });
    let ghost o0 = out@;
    let ghost p0 = plain@;
    out.push(Line { indent: 0, spans, style: Some(LineStyle::Plain) });
    plain.push(text);
    assert(out@.subrange(0, o0.len() as int) =~= o0);
    assert(plain@.subrange(0, p0.len() as int) =~= p0);
}

/// The names of footnote definitions.
pub open spec fn names_of_defs(defs: Seq<(Seq<char>, Seq<char>)>) -> Seq<Seq<char>> {
    defs.map_values(|d: (Seq<char>, Seq<char>)| d.0)
}

/// The definitions after defining `name` as `text`: an earlier definition
/// of the name is replaced, else the definition goes last.
pub open spec fn def_update(defs: Seq<(Seq<char>, Seq<char>)>, name: Seq<char>, text: Seq<char>) -> Seq<(Seq<char>, Seq<char>)> {
    match index_in(names_of_defs(defs), name) {
        Some(i) => defs.update(i, (name, text)),
        None => defs.push((name, text)),
    }
}

/// The text defined for `name`, empty when there is none.
pub open spec fn def_lookup(defs: Seq<(Seq<char>, Seq<char>)>, name: Seq<char>) -> Seq<char> {
    match index_in(names_of_defs(defs), name) {
        Some(i) => defs[i].1,
        None => Seq::empty(),
    }
}

/// The text of spans given as text and style, one after another.
pub open spec fn pair_texts(ps: Seq<(Seq<char>, SpanStyle)>) -> Seq<char>
    decreases ps.len(),
{
    if ps.len() == 0 {
        Seq::empty()
    } else {
        pair_texts(ps.drop_last()) + ps.last().0
    }
}

proof fn lemma_pair_texts(ss: Seq<Span>)
    ensures
        span_texts(ss) == pair_texts(self::inline::pairs_of(ss)),
    decreases ss.len(),
{
    if ss.len() > 0 {
        lemma_pair_texts(ss.drop_last());
        assert(self::inline::pairs_of(ss).drop_last() =~= self::inline::pairs_of(ss.drop_last()));
    }
}

/// Where a code block's content, read from `i`, ends (past its end event).
pub open spec fn code_end(ev: Seq<MdEventV>, i: int) -> int
    decreases ev.len() - i,
{
    if i < 0 || i >= ev.len() {
        i
    } else if ev[i] == MdEventV::End(MdEnd::CodeBlock) {
        i + 1
    } else {
        code_end(ev, i + 1)
    }
}

/// A footnote definition's text read from `i` (its text events, a space
/// for a line break) and where it ends (past its end event).
pub open spec fn def_text(ev: Seq<MdEventV>, i: int) -> (Seq<char>, int)
    decreases ev.len() - i,
{
    if i < 0 || i >= ev.len() {
        (Seq::empty(), i)
    } else {
        match ev[i] {
            MdEventV::End(MdEnd::FootnoteDefinition) => (Seq::empty(), i + 1),
            MdEventV::Text(t) => {
                let (a, j) = def_text(ev, i + 1);
                (t + a, j)
            },
            MdEventV::SoftBreak => {
                let (a, j) = def_text(ev, i + 1);
                (seq![' '] + a, j)
            },
            MdEventV::HardBreak => {
                let (a, j) = def_text(ev, i + 1);
                (seq![' '] + a, j)
            },
            _ => def_text(ev, i + 1),
        }
    }
}

/// A document read so far: its headings (level and trimmed text), the
/// footnote names in order of first reference, and the footnote
/// definitions.
pub open spec fn walk_next(
    ev: Seq<MdEventV>,
    j: int,
    idx: int,
    st: (Seq<(u8, Seq<char>)>, Seq<Seq<char>>, Seq<(Seq<char>, Seq<char>)>),
) -> (Seq<(u8, Seq<char>)>, Seq<Seq<char>>, Seq<(Seq<char>, Seq<char>)>)
    decreases ev.len() - idx, 0int,
{
    if idx < j <= ev.len() { walk(ev, j, st) } else { st }
}

/// What the top-level reading of the events from `idx` gathers onto `st`:
/// each heading with its inline text trimmed, the footnote references of
/// every inline content in order, and every footnote definition.
pub open spec fn walk(
    ev: Seq<MdEventV>,
    idx: int,
    st: (Seq<(u8, Seq<char>)>, Seq<Seq<char>>, Seq<(Seq<char>, Seq<char>)>),
) -> (Seq<(u8, Seq<char>)>, Seq<Seq<char>>, Seq<(Seq<char>, Seq<char>)>)
    decreases ev.len() - idx, 1int,
{
    if idx < 0 || idx >= ev.len() {
        st
    } else {
        match ev[idx] {
            MdEventV::Start(MdStartV::Heading(l)) => {
                let (sp, j, o2) = inline_from(ev, idx + 1, StopAt::End(MdEnd::Heading), Seq::empty(), st.1);
                let j2 = if j < ev.len() { j + 1 } else { j };
                walk_next(ev, j2, idx, (st.0.push((l, trim(pair_texts(sp)))), o2, st.2))
            },
            MdEventV::Start(MdStartV::CodeBlock(_)) => walk_next(ev, code_end(ev, idx + 1), idx, st),
            MdEventV::Start(MdStartV::Paragraph) => {
                let (j, o2) = simple_block(ev, idx, MdStartV::Paragraph, MdEnd::Paragraph, st.1);
                walk_next(ev, j, idx, (st.0, o2, st.2))
            },
            MdEventV::Start(MdStartV::List) => {
                let (j, o2) = list_at(ev, idx, st.1);
                walk_next(ev, j, idx, (st.0, o2, st.2))
            },
            MdEventV::Start(MdStartV::BlockQuote) => {
                let (j, o2) = simple_block(ev, idx, MdStartV::BlockQuote, MdEnd::BlockQuote, st.1);
                walk_next(ev, j, idx, (st.0, o2, st.2))
            },
            MdEventV::Start(MdStartV::Table) => {
                let (j, o2) = table_block(ev, idx, st.1);
                walk_next(ev, j, idx, (st.0, o2, st.2))
            },
            MdEventV::Start(MdStartV::FootnoteDefinition(name)) => {
                let (t, j) = def_text(ev, idx + 1);
                walk_next(ev, j, idx, (st.0, st.1, def_update(st.2, name, trim(t))))
            },
            _ => walk(ev, idx + 1, st),
        }
    }
}

/// The level and text of each heading anchor.
pub open spec fn anchors_view(hs: Seq<HeadingAnchor>) -> Seq<(u8, Seq<char>)> {
    hs.map_values(|h: HeadingAnchor| (h.level, h.text@))
}

/// What a document's events read as from the start.
pub open spec fn doc_walk(ev: Seq<MdEventV>) -> (Seq<(u8, Seq<char>)>, Seq<Seq<char>>, Seq<(Seq<char>, Seq<char>)>) {
    walk(ev, 0, (Seq::empty(), Seq::empty(), Seq::empty()))
}

/// A rendering's headings and footnotes are those of the events: the
/// headings in order with their level and trimmed text, one footnote per
/// referenced name in order of first reference, numbered from one, with
/// the text defined for it (empty when none is).
pub open spec fn tied_to(r: Rendered, ev: Seq<MdEventV>) -> bool {
    let st = doc_walk(ev);
    &&& anchors_view(r.headings@) == st.0
    &&& r.footnotes@.len() == st.1.len()
    &&& forall|k: int| 0 <= k < r.footnotes@.len() ==> (#[trigger] r.footnotes@[k]).name@ == st.1[k]
        && r.footnotes@[k].text@ == def_lookup(st.2, st.1[k])
}

/// A code block's text from `start` and the index past its end event.
#[verifier::loop_isolation(false)]
fn code_text_at(events: &Vec<MdEvent>, start: usize) -> (r: (Vec<char>, usize))
    requires
        0 < start <= events@.len(),
    ensures
        r.1 as int == code_end(self::inline::event_views(events@), start as int),
        start <= r.1 <= events@.len(),
{
    let ghost ev = self::inline::event_views(events@);
    let n = events.len();
    let mut i = start;
    let mut code: Vec<char> = Vec::new();
    while i < n
        invariant
            start <= i <= n,
            n == events@.len(),
            ev == self::inline::event_views(events@),
            code_end(ev, start as int) == code_end(ev, i as int),
        decreases n - i,
    {
        assert(ev[i as int] == events@[i as int]@);
        match &events[i] {
            MdEvent::End(MdEnd::CodeBlock) => {
                i = i + 1;
                return (code, i);
            },
            MdEvent::Text(t) => {
                let tc = chars_of(t.as_str());
                let mut j: usize = 0;
                while j < tc.len()
                    decreases tc.len() - j,
                {
                    code.push(tc[j]);
                    j = j + 1;
                }
            },
            _ => {},
        }
        i = i + 1;
    }
    (code, i)
}

/// A footnote definition's text from `start` (see [`def_text`]) and the
/// index past its end event.
#[verifier::loop_isolation(false)]
fn def_text_at(events: &Vec<MdEvent>, start: usize) -> (r: (Vec<char>, usize))
    requires
        0 < start <= events@.len(),
    ensures
        (r.0@, r.1 as int) == def_text(self::inline::event_views(events@), start as int),
        start <= r.1 <= events@.len(),
{
    let ghost ev = self::inline::event_views(events@);
    let n = events.len();
    let mut i = start;
    let mut text: Vec<char> = Vec::new();
    let ghost dt = def_text(ev, start as int);
    assert(text@ + dt.0 =~= dt.0);
    while i < n
        invariant
            start <= i <= n,
            n == events@.len(),
            ev == self::inline::event_views(events@),
            text@ + def_text(ev, i as int).0 == dt.0,
            def_text(ev, i as int).1 == dt.1,
            dt == def_text(ev, start as int),
        decreases n - i,
    {
        assert(ev[i as int] == events@[i as int]@);
        let ghost t0 = text@;
        match &events[i] {
            MdEvent::End(MdEnd::FootnoteDefinition) => {
                assert(text@ + Seq::<char>::empty() =~= text@);
                i = i + 1;
                return (text, i);
            },
            MdEvent::Text(t) => {
                let tc = chars_of(t.as_str());
                let mut j: usize = 0;
                while j < tc.len()
                    invariant
                        j <= tc@.len(),
                        text@ == t0 + tc@.take(j as int),
                    decreases tc.len() - j,
                {
                    text.push(tc[j]);
                    j = j + 1;
                    assert(text@ =~= t0 + tc@.take(j as int));
                }
                assert(tc@.take(tc@.len() as int) =~= tc@);
                assert(t0 + (t@ + def_text(ev, i + 1).0) =~= text@ + def_text(ev, i + 1).0);
            },
            MdEvent::SoftBreak | MdEvent::HardBreak => {
                text.push(' ');
                assert(t0 + (seq![' '] + def_text(ev, i + 1).0) =~= text@ + def_text(ev, i + 1).0);
            },
            _ => {},
        }
        i = i + 1;
    }
    assert(text@ + Seq::<char>::empty() =~= text@);
    (text, i)
}

/// Renders parse events to lines of at most `width` columns: headings,
/// code blocks (mermaid ones through the registry's engines), paragraphs,
/// lists, quotes, tables, `---` for a rule; footnote definitions are kept
/// back and listed under a `각주` line at the end, numbered in order of
/// first reference.
#[verifier::loop_isolation(false)]
#[verifier::rlimit(30)]
pub fn render_events<E: GraphEngine>(reg: &EngineRegistry<E>, events: &Vec<MdEvent>, width: u16, theme: &Theme) -> (r: Rendered)
    requires
        reg.wf(),
    ensures
        rendered_ok(r),
        rules_ok(*theme, r.plain@, r.headings@),
        tied_to(r, self::inline::event_views(events@)),
{
    let ghost ev = self::inline::event_views(events@);
    let mut lines: Vec<Line> = Vec::new();
    let mut plain: Vec<String> = Vec::new();
    let mut headings: Vec<HeadingAnchor> = Vec::new();
    let mut fns = FootnoteState::new();
    let n = events.len();
    let mut idx: usize = 0;
    assert(anchors_view(headings@) =~= Seq::<(u8, Seq<char>)>::empty());
    while idx < n
        invariant
            idx <= n,
            n == events@.len(),
            doc_ok(lines@, plain@, headings@),
            rules_ok(*theme, plain@, headings@),
            fns.order_view().no_duplicates(),
            ev == self::inline::event_views(events@),
            doc_walk(ev) == walk(ev, idx as int, (anchors_view(headings@), fns.order_view(), fns.defs_view())),
        decreases n - idx,
    {
        let ghost o0 = lines@;
        let ghost p0 = plain@;
        let ghost st0 = (anchors_view(headings@), fns.order_view(), fns.defs_view());
        let ghost idx0 = idx;
        assert(ev[idx as int] == events@[idx as int]@);
        match &events[idx] {
            MdEvent::Start(MdStart::Heading(lvl)) => {
                let (spans, mut i) = collect_inline(events, idx + 1, &mut fns, StopAt::End(MdEnd::Heading));
                if i < n {
                    i = i + 1;
                }
                let ghost h0 = headings@;
                let ghost spv = spans@;
                push_heading(spans, *lvl, &mut lines, &mut plain, &mut headings, theme);
                proof {
                    lemma_pair_texts(spv);
                    assert(anchors_view(headings@) =~= anchors_view(h0).push((*lvl, trim(pair_texts(self::inline::pairs_of(spv))))));
                    lemma_doc_ok_extends(*theme, o0, p0, lines@, plain@, h0);
                    let h = headings@.last();
                    assert(heading_ok(lines@, plain@, h));
                    assert forall|k: int| 0 <= k < headings@.len() implies heading_ok(lines@, plain@, #[trigger] headings@[k]) by {
                        if k < h0.len() {
                            assert(headings@[k] == h0[k]);
                        }
                    }
                    assert forall|k: int| 0 <= k < headings@.len() implies rule_line_ok(*theme, plain@, #[trigger] headings@[k]) by {
                        if k < h0.len() {
                            assert(headings@[k] == h0[k]);
                        }
                    }
                    assert forall|a: int, b: int| 0 <= a < b < headings@.len() implies headings@[a].line < headings@[b].line by {
                        if b < h0.len() {
                            assert(headings@[a] == h0[a] && headings@[b] == h0[b]);
                        } else {
                            assert(headings@[a] == h0[a]);
                            assert(heading_ok(o0, p0, h0[a]));
                        }
                    }
                }
                idx = i;
                proof {
                    assert(walk(ev, idx0 as int, st0) == walk_next(ev, idx as int, idx0 as int, (anchors_view(headings@), fns.order_view(), fns.defs_view())));
                    assert(walk(ev, idx0 as int, st0) == walk(ev, idx as int, (anchors_view(headings@), fns.order_view(), fns.defs_view())));
                }
            },
            MdEvent::Start(MdStart::CodeBlock(info)) => {
                let (code, i) = code_text_at(events, idx + 1);
                let code_s = string_of(code.as_slice());
                match info {
                    Some(lang) => push_code_block(reg, lang.as_str(), code_s.as_str(), width, &mut lines, &mut plain),
                    None => push_code_block(reg, "text", code_s.as_str(), width, &mut lines, &mut plain),
                }
                proof {
                    lemma_doc_ok_extends(*theme, o0, p0, lines@, plain@, headings@);
                }
                idx = i;
                proof {
                    assert(walk(ev, idx0 as int, st0) == walk_next(ev, idx as int, idx0 as int, st0));
                    assert(walk(ev, idx0 as int, st0) == walk(ev, idx as int, (anchors_view(headings@), fns.order_view(), fns.defs_view())));
                }
            },
            MdEvent::Start(MdStart::Paragraph) => {
                idx = push_paragraph(events, idx, &mut lines, &mut plain, width, &mut fns);
                proof {
                    lemma_doc_ok_extends(*theme, o0, p0, lines@, plain@, headings@);
                    assert(walk(ev, idx0 as int, st0) == walk_next(ev, idx as int, idx0 as int, (st0.0, fns.order_view(), st0.2)));
                    assert(walk(ev, idx0 as int, st0) == walk(ev, idx as int, (anchors_view(headings@), fns.order_view(), fns.defs_view())));
                }
            },
            MdEvent::Start(MdStart::List) => {
                idx = push_list(events, idx, 1, &mut lines, &mut plain, width, &mut fns);
                proof {
                    lemma_doc_ok_extends(*theme, o0, p0, lines@, plain@, headings@);
                    assert(walk(ev, idx0 as int, st0) == walk_next(ev, idx as int, idx0 as int, (st0.0, fns.order_view(), st0.2)));
                    assert(walk(ev, idx0 as int, st0) == walk(ev, idx as int, (anchors_view(headings@), fns.order_view(), fns.defs_view())));
                }
            },
            MdEvent::Start(MdStart::BlockQuote) => {
                idx = push_quote(events, idx, &mut lines, &mut plain, width, &mut fns);
                proof {
                    lemma_doc_ok_extends(*theme, o0, p0, lines@, plain@, headings@);
                    assert(walk(ev, idx0 as int, st0) == walk_next(ev, idx as int, idx0 as int, (st0.0, fns.order_view(), st0.2)));
                    assert(walk(ev, idx0 as int, st0) == walk(ev, idx as int, (anchors_view(headings@), fns.order_view(), fns.defs_view())));
                }
            },
            MdEvent::Start(MdStart::Table) => {
                idx = push_table(events, idx, &mut lines, &mut plain, width, &mut fns);
                proof {
                    lemma_doc_ok_extends(*theme, o0, p0, lines@, plain@, headings@);
                    assert(walk(ev, idx0 as int, st0) == walk_next(ev, idx as int, idx0 as int, (st0.0, fns.order_view(), st0.2)));
                    assert(walk(ev, idx0 as int, st0) == walk(ev, idx as int, (anchors_view(headings@), fns.order_view(), fns.defs_view())));
                }
            },
            MdEvent::Start(MdStart::FootnoteDefinition(name)) => {
                let (text, i) = def_text_at(events, idx + 1);
                let trimmed = string_of(trim_slice(text.as_slice()));
                fns.define(name.as_str(), trimmed);
                idx = i;
                proof {
                    assert(walk(ev, idx0 as int, st0) == walk_next(ev, idx as int, idx0 as int, (st0.0, st0.1, fns.defs_view())));
                    assert(walk(ev, idx0 as int, st0) == walk(ev, idx as int, (anchors_view(headings@), fns.order_view(), fns.defs_view())));
                }
            },
            MdEvent::Rule => {
                push_plain_line(&mut lines, &mut plain, "---".to_string());
                proof {
                    lemma_doc_ok_extends(*theme, o0, p0, lines@, plain@, headings@);
                }
                idx = idx + 1;
            },
            _ => {
                idx = idx + 1;
            },
        }
    }
    let ghost fin = (anchors_view(headings@), fns.order_view(), fns.defs_view());
    assert(doc_walk(ev) == fin);
    let mut footnotes: Vec<Footnote> = Vec::new();
    let count = fns.referenced();
    let mut i: usize = 0;
    while i < count
        invariant
            i <= count,
            count == fns.order_view().len(),
            footnotes@.len() == i,
            fns.order_view().no_duplicates(),
            forall|q: int| 0 <= q < i ==> (#[trigger] footnotes@[q]).name@ == fns.order_view()[q],
            forall|q: int| 0 <= q < i ==> (#[trigger] footnotes@[q]).text@ == def_lookup(fns.defs_view(), fns.order_view()[q]),
            fin == (anchors_view(headings@), fns.order_view(), fns.defs_view()),
            forall|k: int| 0 <= k < footnotes@.len() ==> (#[trigger] footnotes@[k]).index == k + 1,
        decreases count - i,
    {
        let name = fns.name_at(i);
        let text = fns.text_of(&name);
        footnotes.push(Footnote { index: i + 1, name, text });
        i = i + 1;
    }
    if footnotes.len() > 0 {
        let ghost o0 = lines@;
        let ghost p0 = plain@;
        push_plain_line(&mut lines, &mut plain, "각주".to_string());
        proof {
            lemma_doc_ok_extends(*theme, o0, p0, lines@, plain@, headings@);
        }
        let mut k: usize = 0;
        while k < footnotes.len()
            invariant
                doc_ok(lines@, plain@, headings@),
                rules_ok(*theme, plain@, headings@),
            decreases footnotes.len() - k,
        {
            let mut entry: Vec<char> = Vec::new();
            entry.push('[');
            push_dec(&mut entry, footnotes[k].index as u128);
            entry.push(']');
            entry.push(' ');
            let tc = chars_of(footnotes[k].text.as_str());
            let mut j: usize = 0;
            while j < tc.len()
                decreases tc.len() - j,
            {
                entry.push(tc[j]);
                j = j + 1;
            }
            let mut one: Vec<Span> = Vec::new();
            one.push(Span { text: string_of(entry.as_slice()), style: SpanStyle::Plain });
            let pieces = wrap_spans(one.as_slice(), width, 0);
            let mut q: usize = 0;
            while q < pieces.len()
                invariant
                    doc_ok(lines@, plain@, headings@),
                    rules_ok(*theme, plain@, headings@),
                decreases pieces.len() - q,
            {
                let ghost o1 = lines@;
                let ghost p1 = plain@;
                let t = spans_string(&pieces[q]);
                let mut copy: Vec<Span> = Vec::new();
                let mut z: usize = 0;
                while z < pieces[q].len()
                    decreases pieces@[q as int]@.len() - z,
                {
                    copy.push(Span { text: pieces[q][z].text.clone(), style: pieces[q][z].style });
                    z = z + 1;
                }
                lines.push(Line { indent: 0, spans: copy, style: Some(LineStyle::Plain) });
                plain.push(t);
                proof {
                    assert(lines@.subrange(0, o1.len() as int) =~= o1);
                    assert(plain@.subrange(0, p1.len() as int) =~= p1);
                    lemma_doc_ok_extends(*theme, o1, p1, lines@, plain@, headings@);
                }
                q = q + 1;
            }
            k = k + 1;
        }
    }
    Rendered { lines, plain, headings, footnotes }
}

/// Renders markdown with the given engines and theme: Hangul jamo
/// composed, front matter dropped, then [`render_events`] over the parse.
pub fn render_using<E: GraphEngine>(reg: &EngineRegistry<E>, src: &str, width: u16, theme: &Theme) -> (r: Rendered)
    requires
        reg.wf(),
    ensures
        rendered_ok(r),
        rules_ok(*theme, r.plain@, r.headings@),
        tied_to(r, source_events(src@)),
{
    let composed = hangul::compose(src);
    let stripped = strip_frontmatter(composed.as_str());
    let events = parse_markdown(stripped.as_str(), false);
    assert(self::inline::event_views(events@) =~= source_events(src@));
    render_events(reg, &events, width, theme)
}

/// The parse events of a markdown source as rendered: Hangul jamo
/// composed, front matter dropped, then parsed with tables, task lists,
/// strikethrough and footnotes.
pub open spec fn source_events(src: Seq<char>) -> Seq<MdEventV> {
    self::events::markdown_events(spec_strip_frontmatter(self::hangul::spec_compose(src)), false)
}

/// [`render_using`] with the crate's own engines (`mdview` selected).
pub fn render_with(src: &str, width: u16, theme: &Theme) -> (r: Rendered)
    ensures
        rendered_ok(r),
        rules_ok(*theme, r.plain@, r.headings@),
        tied_to(r, source_events(src@)),
{
    let reg: EngineRegistry<BuiltinEngine> = EngineRegistry::new();
    render_using(&reg, src, width, theme)
}

/// [`render_with`] the default theme.
pub fn render(src: &str, width: u16) -> (r: Rendered)
    ensures
        rendered_ok(r),
        rules_ok(self::theme::spec_default_theme(), r.plain@, r.headings@),
        tied_to(r, source_events(src@)),
{
    render_with(src, width, &Theme::default())
}

} // verus!
