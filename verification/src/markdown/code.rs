//! Fenced and indented code blocks: mermaid fences drawn as diagrams (or,
//! when a diagram cannot be drawn, a label and the source), other code
//! highlighted by `syntect` and cut at the panel width.

use vstd::prelude::*;
use syntect::easy::HighlightLines;
use syntect::highlighting::ThemeSet;
use syntect::parsing::SyntaxSet;
use super::{Line, LineStyle, Span, SpanStyle, span_texts};
use super::block::extends;
use super::mermaid::{mermaid_ok, render_mermaid, Fallback, FallbackV};
use super::mermaid::engine::{EngineRegistry, GraphEngine};
use crate::text::{chars_of, lines, lines_of, string_of};
use crate::width::{line_width, sat, str_width};
use crate::spec::meta::str_eq;

verus! {

/// The file extension `syntect` knows a fence language by: common full
/// names map to their extension (`typescript` and `ts` to `js`).
pub open spec fn lang_alias(lang: Seq<char>) -> Seq<char> {
    if lang == "rust"@ {
        "rs"@
    } else if lang == "python"@ {
        "py"@
    } else if lang == "javascript"@ || lang == "typescript"@ || lang == "ts"@ {
        "js"@
    } else if lang == "shell"@ {
        "sh"@
    } else {
        lang
    }
}

pub fn resolve_lang_alias(lang: &str) -> (r: &str)
    ensures
        r@ == lang_alias(lang@),
{
    if str_eq(lang, "rust") {
        "rs"
    } else if str_eq(lang, "python") {
        "py"
    } else if str_eq(lang, "javascript") || str_eq(lang, "typescript") || str_eq(lang, "ts") {
        "js"
    } else if str_eq(lang, "shell") {
        "sh"
    } else {
        lang
    }
}

/// Highlighted code as rows of `(unstyled, text)` tokens.
pub open spec fn token_rows(r: Option<Vec<Vec<(bool, String)>>>) -> Option<Seq<Seq<(bool, Seq<char>)>>> {
    match r {
        Some(rows) => Some(rows@.map_values(|row: Vec<(bool, String)>| row@.map_values(|t: (bool, String)| (t.0, t.1@)))),
        None => None,
    }
}

/// What [`highlight`] gives for a syntax extension and code.
pub uninterp spec fn syntax_tokens(ext: Seq<char>, code: Seq<char>) -> Option<Seq<Seq<(bool, Seq<char>)>>>;

/// `syntect::easy::HighlightLines::highlight_line` over each of
/// `code.lines()`, with the default newline syntax set (the syntax for the
/// extension `ext`, plain text when there is none) and the default theme
/// set's `base16-ocean.theme` (else its first theme). Each token is its
/// text and whether its font style is empty. `None` when highlighting a
/// line fails. One row per line; nothing is claimed of the tokens but that
/// they are a function of `ext` and `code`.
#[verifier::external_body]
fn highlight(ext: &str, code: &str) -> (r: Option<Vec<Vec<(bool, String)>>>)
    ensures
        token_rows(r) == syntax_tokens(ext@, code@),
        r matches Some(rows) ==> rows@.len() == lines(code@).len(),
{
    let ps = SyntaxSet::load_defaults_newlines();
    let ts = ThemeSet::load_defaults();
    let syntax = ps.find_syntax_by_extension(ext).unwrap_or_else(|| ps.find_syntax_plain_text());
    let theme = ts.themes.get("base16-ocean.theme").unwrap_or_else(|| ts.themes.values().next().unwrap());
    let mut h = HighlightLines::new(syntax, theme);
    let mut rows = Vec::new();
    for line in code.lines() {
        let ranges = h.highlight_line(line, &ps).ok()?;
        rows.push(ranges.into_iter().map(|(s, t)| (s.font_style.is_empty(), t.to_string())).collect());
    }
    Some(rows)
}

/// The first `n` characters of `s` (all of them when there are fewer).
pub open spec fn prefix(s: Seq<char>, n: int) -> Seq<char> {
    if n <= s.len() {
        s.take(n)
    } else {
        s
    }
}

/// The spans of one highlighted row cut to `width` columns, `used` being
/// taken already: tokens while they fit (unstyled ones as code, styled
/// ones plain); the first that does not fit, when there is room left, as
/// its first `room - 1` characters and `…`.
pub open spec fn fit_row(tokens: Seq<(bool, Seq<char>)>, width: nat, used: nat) -> Seq<(Seq<char>, SpanStyle)>
    decreases tokens.len(),
{
    if tokens.len() == 0 {
        Seq::empty()
    } else {
        let t = tokens[0];
        let style = if t.0 { SpanStyle::Code } else { SpanStyle::Plain };
        let w = sat(str_width(t.1)) as nat;
        if used + w > width {
            if width > used {
                seq![(prefix(t.1, width - used - 1).push('…'), style)]
            } else {
                Seq::empty()
            }
        } else {
            seq![(t.1, style)] + fit_row(tokens.drop_first(), width, used + w)
        }
    }
}

/// The text and style of each span.
pub open spec fn span_pairs(ss: Seq<Span>) -> Seq<(Seq<char>, SpanStyle)> {
    ss.map_values(|s: Span| (s.text@, s.style))
}

/// One highlighted row cut to `width` columns (see [`fit_row`]).
#[verifier::loop_isolation(false)]
pub fn fit_tokens(tokens: &Vec<(bool, String)>, width: u16) -> (r: Vec<Span>)
    ensures
        span_pairs(r@) == fit_row(tokens@.map_values(|t: (bool, String)| (t.0, t.1@)), width as nat, 0),
{
    let ghost tv = tokens@.map_values(|t: (bool, String)| (t.0, t.1@));
    let mut out: Vec<Span> = Vec::new();
    let mut used: usize = 0;
    let mut k: usize = 0;
    assert(tv.subrange(0, tv.len() as int) =~= tv);
    assert(span_pairs(out@) =~= Seq::<(Seq<char>, SpanStyle)>::empty());
    while k < tokens.len()
        invariant
            k <= tokens@.len(),
            used <= width,
            span_pairs(out@) + fit_row(tv.subrange(k as int, tv.len() as int), width as nat, used as nat)
                == fit_row(tv, width as nat, 0),
        decreases tokens.len() - k,
    {
        let ghost rest = tv.subrange(k as int, tv.len() as int);
        assert(rest.drop_first() =~= tv.subrange(k + 1, tv.len() as int));
        assert(rest[0] == (tokens@[k as int].0, tokens@[k as int].1@));
        let style = if tokens[k].0 { SpanStyle::Code } else { SpanStyle::Plain };
        let w = line_width(tokens[k].1.as_str());
        let ghost before = out@;
        if w > (width as usize) - used {
            if (width as usize) > used {
                let room = (width as usize) - used - 1;
                let cs = chars_of(tokens[k].1.as_str());
                let mut cut: Vec<char> = Vec::new();
                let mut j: usize = 0;
                while j < room && j < cs.len()
                    invariant
                        j <= room,
                        j <= cs@.len(),
                        cut@ == cs@.take(j as int),
                    decreases room - j,
                {
                    cut.push(cs[j]);
                    j = j + 1;
                }
                assert(cut@ =~= prefix(cs@, room as int));
                assert(rest.len() > 0);
                assert(rest[0].1 == cs@);
                assert(fit_row(rest, width as nat, used as nat) == seq![(prefix(cs@, room as int).push('…'), style)]);
                cut.push('…');
                out.push(Span { text: string_of(cut.as_slice()), style });
                assert(span_pairs(out@) =~= span_pairs(before).push((cut@, style)));
                assert(span_pairs(out@) =~= span_pairs(before) + fit_row(rest, width as nat, used as nat));
            } else {
                assert(span_pairs(before) + fit_row(rest, width as nat, used as nat) =~= span_pairs(before));
            }
            assert(fit_row(tv.subrange(tokens@.len() as int, tv.len() as int), width as nat, used as nat) =~= Seq::<(Seq<char>, SpanStyle)>::empty());
            return out;
        }
        out.push(Span { text: tokens[k].1.clone(), style });
        proof {
            assert(span_pairs(out@) =~= span_pairs(before).push((tokens@[k as int].1@, style)));
            assert(seq![(rest[0].1, style)] + fit_row(rest.drop_first(), width as nat, (used + w) as nat)
                == fit_row(rest, width as nat, used as nat));
            assert(span_pairs(out@) + fit_row(rest.drop_first(), width as nat, (used + w) as nat)
                =~= span_pairs(before) + (seq![(rest[0].1, style)] + fit_row(rest.drop_first(), width as nat, (used + w) as nat)));
        }
        used = used + w;
        k = k + 1;
    }
    assert(tv.subrange(tokens@.len() as int, tv.len() as int) =~= Seq::<(bool, Seq<char>)>::empty());
    assert(span_pairs(out@) + Seq::<(Seq<char>, SpanStyle)>::empty() =~= span_pairs(out@));
    out
}

/// One pushed code line: no indent, plain line style, the given spans
/// (text and style) and plain text.
pub open spec fn line_is(l: Line, p: String, e: (Seq<(Seq<char>, SpanStyle)>, Seq<char>)) -> bool {
    &&& l.indent == 0
    &&& l.style == Some(LineStyle::Plain)
    &&& span_pairs(l.spans@) == e.0
    &&& p@ == e.1
}

/// From index `from` on, the lines are exactly `es`.
pub open spec fn lines_are(out: Seq<Line>, plain: Seq<String>, from: int, es: Seq<(Seq<(Seq<char>, SpanStyle)>, Seq<char>)>) -> bool {
    &&& out.len() == from + es.len()
    &&& plain.len() == out.len()
    &&& forall|k: int| 0 <= k < es.len() ==> line_is(#[trigger] out[from + k], plain[from + k], es[k])
}

/// A line of one span whose text is also the plain text.
pub open spec fn one_span(t: Seq<char>, style: SpanStyle) -> (Seq<(Seq<char>, SpanStyle)>, Seq<char>) {
    (seq![(t, style)], t)
}

/// A source line shown under a fallback label: wider than `width`, its
/// first `width - 1` characters and `…`.
pub open spec fn cut_line(l: Seq<char>, width: nat) -> Seq<char> {
    if sat(str_width(l)) > width {
        prefix(l, if width > 0 { width - 1 } else { 0 }).push('…')
    } else {
        l
    }
}

/// The label of a diagram that could not be drawn.
pub open spec fn fallback_label(f: FallbackV) -> Seq<char> {
    match f {
        FallbackV::Empty { kind } => "Mermaid (Empty): "@ + kind,
        FallbackV::Overflow { kind } => "Mermaid (Overflow): "@ + kind,
    }
}

/// The lines of a mermaid block: the drawn lines, plain; or the label and
/// the cut source lines, as code.
pub open spec fn mermaid_lines(r: Result<Vec<String>, Fallback>, code: Seq<char>, width: u16) -> Seq<(Seq<(Seq<char>, SpanStyle)>, Seq<char>)> {
    match r {
        Ok(ls) => ls@.map_values(|l: String| one_span(l@, SpanStyle::Plain)),
        Err(f) => seq![one_span(fallback_label(f@), SpanStyle::Code)] + lines(code).map_values(
            |l: Seq<char>| one_span(cut_line(l, width as nat), SpanStyle::Code),
        ),
    }
}

/// `s` with each tab widened to four spaces.
pub open spec fn expand_tabs(s: Seq<char>) -> Seq<char>
    decreases s.len(),
{
    if s.len() == 0 {
        Seq::empty()
    } else {
        expand_tabs(s.drop_last()) + if s.last() == '\t' { seq![' ', ' ', ' ', ' '] } else { seq![s.last()] }
    }
}

/// The tokens of line `k` of highlighted code: the highlighter's, or the
/// whole line as one code token when highlighting failed.
pub open spec fn row_tokens(rows: Option<Seq<Seq<(bool, Seq<char>)>>>, ls: Seq<Seq<char>>, k: int) -> Seq<(bool, Seq<char>)> {
    match rows {
        Some(rs) => rs[k],
        None => seq![(true, ls[k])],
    }
}

/// The lines of a non-mermaid block: tabs widened, one line per source
/// line, its tokens cut to `width` ([`fit_row`]) and the whole line as
/// plain text.
pub open spec fn code_lines(lang: Seq<char>, code: Seq<char>, width: u16) -> Seq<(Seq<(Seq<char>, SpanStyle)>, Seq<char>)> {
    let ex = expand_tabs(code);
    let ls = lines(ex);
    let rows = syntax_tokens(lang_alias(lang), ex);
    Seq::new(ls.len(), |k: int| (fit_row(row_tokens(rows, ls, k), width as nat, 0), ls[k]))
}

/// Pushes one single-span line.
fn push_one(out: &mut Vec<Line>, plain: &mut Vec<String>, text: String, style: SpanStyle, shown: String)
    requires
        old(out)@.len() == old(plain)@.len(),
    ensures
        extends(old(out)@, old(plain)@, final(out)@, final(plain)@),
        final(out)@.len() == old(out)@.len() + 1,
        final(out)@.last().style == Some(LineStyle::Plain),
        final(plain)@.last() == shown,
        line_is(final(out)@.last(), final(plain)@.last(), (seq![(text@, style)], shown@)),
{
    let ghost tv = text@;
    let mut spans: Vec<Span> = Vec::new();
    spans.push(Span { text, style });
    assert(span_pairs(spans@) =~= seq![(tv, style)]);
    let ghost o0 = out@;
    let ghost p0 = plain@;
    out.push(Line { indent: 0, spans, style: Some(LineStyle::Plain) });
    plain.push(shown);
    assert(out@.subrange(0, o0.len() as int) =~= o0);
    assert(plain@.subrange(0, p0.len() as int) =~= p0);
}

proof fn lemma_lines_are_push(
    out0: Seq<Line>, plain0: Seq<String>, out: Seq<Line>, plain: Seq<String>, from: int,
    es: Seq<(Seq<(Seq<char>, SpanStyle)>, Seq<char>)>, e: (Seq<(Seq<char>, SpanStyle)>, Seq<char>),
)
    requires
        0 <= from,
        lines_are(out0, plain0, from, es),
        out.len() == out0.len() + 1,
        plain.len() == plain0.len() + 1,
        out.subrange(0, out0.len() as int) == out0,
        plain.subrange(0, plain0.len() as int) == plain0,
        line_is(out.last(), plain.last(), e),
    ensures
        lines_are(out, plain, from, es.push(e)),
{
    assert forall|k: int| 0 <= k < es.len() + 1 implies line_is(#[trigger] out[from + k], plain[from + k], es.push(e)[k]) by {
        if k < es.len() {
            assert(out[from + k] == out.subrange(0, out0.len() as int)[from + k]);
            assert(plain[from + k] == plain.subrange(0, plain0.len() as int)[from + k]);
        }
    }
}

/// The lines of a mermaid block once the diagram was rendered (`res`):
/// the drawn lines, plain; or, when it could not be drawn, the fallback
/// label and each source line cut to `width`, as code.
#[verifier::loop_isolation(false)]
pub fn push_mermaid_lines(res: &Result<Vec<String>, Fallback>, code: &str, width: u16, out: &mut Vec<Line>, plain: &mut Vec<String>)
    requires
        old(out)@.len() == old(plain)@.len(),
    ensures
        extends(old(out)@, old(plain)@, final(out)@, final(plain)@),
        lines_are(final(out)@, final(plain)@, old(out)@.len() as int, mermaid_lines(*res, code@, width)),
{
    let ghost o0 = out@;
    let ghost p0 = plain@;
    let ghost from = o0.len() as int;
    assert(out@.subrange(0, o0.len() as int) =~= o0);
    assert(plain@.subrange(0, p0.len() as int) =~= p0);
    let ghost es = mermaid_lines(*res, code@, width);
    match res {
        Ok(lines) => {
            let mut k: usize = 0;
            assert(es.take(0) =~= Seq::<(Seq<(Seq<char>, SpanStyle)>, Seq<char>)>::empty());
            while k < lines.len()
                invariant
                    extends(o0, p0, out@, plain@),
                    k <= lines@.len(),
                    es == lines@.map_values(|l: String| one_span(l@, SpanStyle::Plain)),
                    lines_are(out@, plain@, from, es.take(k as int)),
                decreases lines.len() - k,
            {
                let ghost o1 = out@;
                let ghost p1 = plain@;
                push_one(out, plain, lines[k].clone(), SpanStyle::Plain, lines[k].clone());
                proof {
                    super::block::lemma_extends_trans(o0, p0, o1, p1, out@, plain@);
                    lemma_lines_are_push(o1, p1, out@, plain@, from, es.take(k as int), es[k as int]);
                    assert(es.take(k as int).push(es[k as int]) =~= es.take(k + 1));
                }
                k = k + 1;
            }
            assert(es.take(lines@.len() as int) =~= es);
        },
        Err(fallback) => {
            let mut label: Vec<char> = Vec::new();
            let kind = match fallback {
                Fallback::Empty { kind } => {
                    let mut j: usize = 0;
                    let pre = chars_of("Mermaid (Empty): ");
                    while j < pre.len()
                        invariant
                            j <= pre@.len(),
                            label@ == pre@.take(j as int),
                        decreases pre.len() - j,
                    {
                        label.push(pre[j]);
                        j = j + 1;
                    }
                    assert(pre@.take(pre@.len() as int) =~= pre@);
                    kind
                },
                Fallback::Overflow { kind } => {
                    let mut j: usize = 0;
                    let pre = chars_of("Mermaid (Overflow): ");
                    while j < pre.len()
                        invariant
                            j <= pre@.len(),
                            label@ == pre@.take(j as int),
                        decreases pre.len() - j,
                    {
                        label.push(pre[j]);
                        j = j + 1;
                    }
                    assert(pre@.take(pre@.len() as int) =~= pre@);
                    kind
                },
            };
            let ghost head = label@;
            let kc = chars_of(kind.as_str());
            let mut j: usize = 0;
            while j < kc.len()
                invariant
                    j <= kc@.len(),
                    label@ == head + kc@.take(j as int),
                decreases kc.len() - j,
            {
                label.push(kc[j]);
                j = j + 1;
                assert(label@ =~= head + kc@.take(j as int));
            }
            assert(kc@.take(kc@.len() as int) =~= kc@);
            assert(label@ == fallback_label(fallback@));
            let ls = string_of(label.as_slice());
            let ghost o1 = out@;
            let ghost p1 = plain@;
            push_one(out, plain, ls.clone(), SpanStyle::Code, ls);
            proof {
                super::block::lemma_extends_trans(o0, p0, o1, p1, out@, plain@);
                assert(lines_are(o1, p1, from, Seq::empty()));
                lemma_lines_are_push(o1, p1, out@, plain@, from, Seq::empty(), es[0]);
                assert(Seq::<(Seq<(Seq<char>, SpanStyle)>, Seq<char>)>::empty().push(es[0]) =~= es.take(1));
            }
            let src = chars_of(code);
            let src_lines = lines_of(src.as_slice());
            let ghost lv = lines(code@);
            let mut k: usize = 0;
            while k < src_lines.len()
                invariant
                    extends(o0, p0, out@, plain@),
                    k <= src_lines@.len(),
                    src_lines.deep_view() == lv,
                    es.len() == lv.len() + 1,
                    forall|q: int| 0 <= q < lv.len() ==> #[trigger] es[q + 1] == one_span(cut_line(lv[q], width as nat), SpanStyle::Code),
                    lines_are(out@, plain@, from, es.take(k + 1)),
                decreases src_lines.len() - k,
            {
                let line = &src_lines[k];
                assert(line@ == lv[k as int]);
                let t = string_of(line.as_slice());
                let shown = if line_width(t.as_str()) > width as usize {
                    let limit = (width as usize).saturating_sub(1);
                    let mut cut: Vec<char> = Vec::new();
                    let mut q: usize = 0;
                    while q < limit && q < line.len()
                        invariant
                            q <= line@.len(),
                            q <= limit,
                            cut@ == line@.take(q as int),
                        decreases limit - q,
                    {
                        cut.push(line[q]);
                        q = q + 1;
                    }
                    assert(cut@ =~= prefix(line@, limit as int));
                    cut.push('…');
                    string_of(cut.as_slice())
                } else {
                    t
                };
                assert(shown@ == cut_line(lv[k as int], width as nat));
                let ghost o2 = out@;
                let ghost p2 = plain@;
                push_one(out, plain, shown.clone(), SpanStyle::Code, shown);
                proof {
                    super::block::lemma_extends_trans(o0, p0, o2, p2, out@, plain@);
                    lemma_lines_are_push(o2, p2, out@, plain@, from, es.take(k + 1), es[k + 1]);
                    assert(es.take(k + 1).push(es[k + 1]) =~= es.take(k + 2));
                }
                k = k + 1;
            }
            assert(es.take(lv.len() as int + 1) =~= es);
        },
    }
}

/// A code block's lines. A `mermaid` block is drawn by the registry's
/// engines, one plain line each; when it cannot be, a code-styled
/// `Mermaid (Empty): kind` or `Mermaid (Overflow): kind` label, then each
/// source line as code, cut to `width - 1` characters and `…` when wider
/// than `width`. Other code has tabs widened to four spaces and each line
/// highlighted and cut as [`fit_tokens`] does (as a single code token when
/// highlighting fails), with the whole line in `plain`.
#[verifier::loop_isolation(false)]
#[verifier::rlimit(80)]
pub fn push_code_block<E: GraphEngine>(
    reg: &EngineRegistry<E>,
    lang: &str,
    code: &str,
    width: u16,
    out: &mut Vec<Line>,
    plain: &mut Vec<String>,
)
    requires
        reg.wf(),
        old(out)@.len() == old(plain)@.len(),
    ensures
        extends(old(out)@, old(plain)@, final(out)@, final(plain)@),
        lang@ == "mermaid"@ ==> exists|r: Result<Vec<String>, Fallback>|
            #![trigger mermaid_lines(r, code@, width)]
            mermaid_ok(*reg, code@, width, r) && lines_are(
                final(out)@,
                final(plain)@,
                old(out)@.len() as int,
                mermaid_lines(r, code@, width),
            ),
        lang@ != "mermaid"@ ==> lines_are(final(out)@, final(plain)@, old(out)@.len() as int, code_lines(lang@, code@, width)),
{
    let ghost o0 = out@;
    let ghost p0 = plain@;
    let ghost from = o0.len() as int;
    assert(out@.subrange(0, o0.len() as int) =~= o0);
    assert(plain@.subrange(0, p0.len() as int) =~= p0);
    if str_eq(lang, "mermaid") {
        let res = render_mermaid(reg, code, width);
        push_mermaid_lines(&res, code, width, out, plain);
        return;
    }
    let src = chars_of(code);
    let mut expanded: Vec<char> = Vec::new();
    let mut j: usize = 0;
    assert(src@.take(0) =~= Seq::<char>::empty());
    while j < src.len()
        invariant
            j <= src@.len(),
            expanded@ == expand_tabs(src@.take(j as int)),
        decreases src.len() - j,
    {
        assert(src@.take(j + 1).drop_last() =~= src@.take(j as int));
        if src[j] == '\t' {
            expanded.push(' ');
            expanded.push(' ');
            expanded.push(' ');
            expanded.push(' ');
        } else {
            expanded.push(src[j]);
        }
        j = j + 1;
        assert(expanded@ =~= expand_tabs(src@.take(j as int)));
    }
    assert(src@.take(src@.len() as int) =~= src@);
    let code_str = string_of(expanded.as_slice());
    let src_lines = lines_of(expanded.as_slice());
    let rows = highlight(resolve_lang_alias(lang), code_str.as_str());
    let ghost es = code_lines(lang@, code@, width);
    let ghost lv = lines(expanded@);
    let ghost tr = syntax_tokens(lang_alias(lang@), expanded@);
    let mut k: usize = 0;
    assert(es.take(0) =~= Seq::<(Seq<(Seq<char>, SpanStyle)>, Seq<char>)>::empty());
    while k < src_lines.len()
        invariant
            extends(o0, p0, out@, plain@),
            k <= src_lines@.len(),
            src_lines.deep_view() == lv,
            es.len() == lv.len(),
            rows matches Some(rs) ==> rs@.len() == src_lines@.len(),
            token_rows(rows) == tr,
            forall|q: int| 0 <= q < lv.len() ==> #[trigger] es[q] == (fit_row(row_tokens(tr, lv, q), width as nat, 0), lv[q]),
            lines_are(out@, plain@, from, es.take(k as int)),
        decreases src_lines.len() - k,
    {
        let line = string_of(src_lines[k].as_slice());
        assert(line@ == lv[k as int]);
        let spans = match &rows {
            Some(rs) => {
                assert(tr == Some(rs@.map_values(|row: Vec<(bool, String)>| row@.map_values(|t: (bool, String)| (t.0, t.1@)))));
                fit_tokens(&rs[k], width)
            },
            None => {
                let mut one: Vec<(bool, String)> = Vec::new();
                one.push((true, line.clone()));
                assert(one@.map_values(|t: (bool, String)| (t.0, t.1@)) =~= seq![(true, lv[k as int])]);
                fit_tokens(&one, width)
            },
        };
        let ghost o1 = out@;
        let ghost p1 = plain@;
        out.push(Line { indent: 0, spans, style: Some(LineStyle::Plain) });
        plain.push(line);
        proof {
            assert(out@.subrange(0, o1.len() as int) =~= o1);
            assert(plain@.subrange(0, p1.len() as int) =~= p1);
            super::block::lemma_extends_trans(o0, p0, o1, p1, out@, plain@);
            lemma_lines_are_push(o1, p1, out@, plain@, from, es.take(k as int), es[k as int]);
            assert(es.take(k as int).push(es[k as int]) =~= es.take(k + 1));
        }
        k = k + 1;
    }
    assert(es.take(lv.len() as int) =~= es);
}

} // verus!
