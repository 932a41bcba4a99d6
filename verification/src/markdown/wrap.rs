//! Word wrapping of styled text: plain text breaks at white space, a styled
//! span is kept whole where it fits, and a word wider than the line is cut
//! between grapheme clusters.

use vstd::prelude::*;
use super::{Span, SpanStyle, span_texts};
use crate::text::{chars_of, string_of, words, words_of};
use crate::width::{char_cols, graphemes, grapheme_width, chars_width, str_width, sat, cw, lemma_str_width_concat, lemma_str_width_push, graphemes_of, flatten};

verus! {

/// A span under construction.
pub struct Piece {
    pub text: Vec<char>,
    pub style: SpanStyle,
}

/// The text of a run of pieces.
pub open spec fn piece_text(ps: Seq<Piece>) -> Seq<char>
    decreases ps.len(),
{
    if ps.len() == 0 {
        Seq::empty()
    } else {
        piece_text(ps.drop_last()) + ps.last().text@
    }
}

/// The columns a line may take: `width - indent`, at least one.
pub open spec fn wrap_max(width: u16, indent: u16) -> nat {
    if width > indent && width - indent >= 1 {
        (width - indent) as nat
    } else {
        1
    }
}

/// A wrapped line: at least one piece, and no wider than `max` unless it
/// is a single piece (a grapheme cluster wider than the line).
pub open spec fn line_fits(ps: Seq<Piece>, max: nat) -> bool {
    ps.len() >= 1 && (sat(str_width(piece_text(ps))) <= max || ps.len() == 1)
}

/// [`line_fits`] for finished spans.
pub open spec fn spans_fit(ss: Seq<Span>, max: nat) -> bool {
    ss.len() >= 1 && (sat(str_width(span_texts(ss))) <= max || ss.len() == 1)
}

proof fn lemma_piece_text_push(ps: Seq<Piece>, p: Piece)
    ensures
        piece_text(ps.push(p)) == piece_text(ps) + p.text@,
{
    assert(ps.push(p).drop_last() =~= ps);
}

/// Whether `t` is one of the grapheme clusters of `word`.
pub open spec fn is_cluster_of(t: Seq<char>, word: Seq<char>) -> bool {
    exists|j: int| 0 <= j < graphemes_of(word).len() && #[trigger] graphemes_of(word)[j] == t
}

/// Whether `t` is one of the grapheme clusters of one of the words.
pub open spec fn cluster_of_words(t: Seq<char>, ws: Seq<(Seq<char>, SpanStyle)>) -> bool {
    exists|k: int| 0 <= k < ws.len() && #[trigger] is_cluster_of(t, ws[k].0)
}

/// A line no wider than `max`, or a single piece that is one grapheme
/// cluster of one of the words.
pub open spec fn over_is_cluster(ps: Seq<Piece>, max: nat, ws: Seq<(Seq<char>, SpanStyle)>) -> bool {
    sat(str_width(piece_text(ps))) <= max || (ps.len() == 1 && cluster_of_words(ps[0].text@, ws))
}

/// Splits a word into parts of at most `max` columns between grapheme
/// clusters; a cluster wider than `max` is a part of its own.
#[verifier::loop_isolation(false)]
fn wrap_token(token: &Vec<char>, max: usize) -> (parts: Vec<Vec<char>>)
    requires
        max >= 1,
    ensures
        forall|k: int| 0 <= k < parts@.len() ==> (#[trigger] parts@[k])@.len() > 0,
        flatten(parts@.map_values(|p: Vec<char>| p@)) == token@,
        forall|k: int| 0 <= k < parts@.len() ==> sat(str_width((#[trigger] parts@[k])@)) <= max || is_cluster_of(parts@[k]@, token@),
{
    let s = string_of(token.as_slice());
    let gs = graphemes(s.as_str());
    let ghost gv = gs@.map_values(|g: String| g@);
    let mut parts: Vec<Vec<char>> = Vec::new();
    let mut acc: Vec<char> = Vec::new();
    let mut acc_w: usize = 0;
    let mut i: usize = 0;
    while i < gs.len()
        invariant
            forall|k: int| 0 <= k < parts@.len() ==> (#[trigger] parts@[k])@.len() > 0,
            acc_w == sat(str_width(acc@)),
            i <= gs@.len(),
            gv == gs@.map_values(|g: String| g@),
            flatten(parts@.map_values(|p: Vec<char>| p@)) + acc@ == flatten(gv.take(i as int)),
            acc_w <= max,
            gv == graphemes_of(token@),
            forall|k: int| 0 <= k < parts@.len() ==> sat(str_width((#[trigger] parts@[k])@)) <= max || is_cluster_of(parts@[k]@, token@),
        decreases gs.len() - i,
    {
        let ghost parts0 = parts@;
        assert(gv.take(i + 1).drop_last() =~= gv.take(i as int));
        let ghost pv0 = parts@.map_values(|p: Vec<char>| p@);
        let ghost acc0 = acc@;
        let g = chars_of(gs[i].as_str());
        proof {
            assert(gs@[i as int]@.len() > 0);
        }
        let w = grapheme_width(gs[i].as_str());
        proof {
            assert(g@ == gv[i as int]);
            assert(is_cluster_of(g@, token@)) by {
                assert(graphemes_of(token@)[i as int] == g@);
            }
        }
        if acc.len() == 0 {
            if w <= max {
                acc = g;
                acc_w = w;
            } else {
                parts.push(g);
            }
        } else {
            if acc_w <= max && w <= max - acc_w {
                let ghost before = acc@;
                let mut j: usize = 0;
                while j < g.len()
                    invariant
                        j <= g@.len(),
                        acc@ == before + g@.take(j as int),
                    decreases g.len() - j,
                {
                    acc.push(g[j]);
                    j = j + 1;
                    assert(acc@ =~= before + g@.take(j as int));
                }
                assert(g@.take(g@.len() as int) =~= g@);
                proof {
                    lemma_str_width_concat(before, g@);
                }
                acc_w = acc_w + w;
            } else {
                parts.push(acc);
                acc = Vec::new();
                acc_w = 0;
                if w <= max {
                    acc = g;
                    acc_w = w;
                } else {
                    parts.push(g);
                }
            }
        }
        proof {
            let pv = parts@.map_values(|p: Vec<char>| p@);
            let fl = flatten(gv.take(i + 1));
            assert(fl == flatten(gv.take(i as int)) + g@);
            if pv.len() == pv0.len() + 2 {
                assert(pv.drop_last().drop_last() =~= pv0);
                assert(pv.drop_last().last() == acc0);
                assert(pv.last() == g@);
                assert(flatten(pv.drop_last()) == flatten(pv0) + acc0);
                assert(flatten(pv) == flatten(pv0) + acc0 + g@);
            } else if pv.len() == pv0.len() + 1 {
                assert(pv.drop_last() =~= pv0);
            } else {
                assert(pv =~= pv0);
            }
            assert(flatten(pv) + acc@ =~= fl);
        }
        i = i + 1;
    }
    proof {
        assert(gv.take(gs@.len() as int) =~= gv);
    }
    if acc.len() > 0 {
        let ghost pv0 = parts@.map_values(|p: Vec<char>| p@);
        parts.push(acc);
        assert(parts@.map_values(|p: Vec<char>| p@).drop_last() =~= pv0);
    } else {
        assert(flatten(parts@.map_values(|p: Vec<char>| p@)) + acc@ =~= flatten(parts@.map_values(|p: Vec<char>| p@)));
    }
    parts
}

/// Appends `word` to a line, after a space when `leading_space`; merges
/// into the last piece when its style is the same, otherwise a plain space
/// piece comes first.
fn push_word(out: &mut Vec<Piece>, word: &Vec<char>, style: SpanStyle, leading_space: bool)
    ensures
        piece_text(final(out)@) == piece_text(old(out)@) + (if leading_space { seq![' '] } else { Seq::empty() })
            + word@,
        final(out)@.len() >= 1,
        old(out)@.len() >= 1 ==> final(out)@.len() >= old(out)@.len(),
        old(out)@.len() == 0 && !leading_space ==> final(out)@.len() == 1,
{
    let n = out.len();
    if n > 0 && out[n - 1].style == style {
        let mut last = out.pop().unwrap();
        let ghost before = last.text@;
        if leading_space {
            last.text.push(' ');
        }
        let ghost mid = last.text@;
        let mut j: usize = 0;
        while j < word.len()
            invariant
                j <= word@.len(),
                last.text@ == mid + word@.take(j as int),
            decreases word.len() - j,
        {
            last.text.push(word[j]);
            j = j + 1;
            assert(last.text@ =~= mid + word@.take(j as int));
        }
        assert(word@.take(word@.len() as int) =~= word@);
        let ghost rest = out@;
        out.push(last);
        proof {
            lemma_piece_text_push(rest, last);
            lemma_piece_text_push(rest, old(out)@.last());
            assert(rest.push(old(out)@.last()) =~= old(out)@);
            if leading_space {
                assert(mid =~= before + seq![' ']);
            } else {
                assert(mid =~= before);
            }
        }
        return;
    }
    if leading_space {
        let ghost before = out@;
        out.push(Piece { text: vec![' '], style: SpanStyle::Plain });
        proof {
            lemma_piece_text_push(before, out@.last());
        }
    }
    let ghost before2 = out@;
    let mut text: Vec<char> = Vec::new();
    let mut j: usize = 0;
    while j < word.len()
        invariant
            j <= word@.len(),
            text@ == word@.take(j as int),
        decreases word.len() - j,
    {
        text.push(word[j]);
        j = j + 1;
    }
    assert(word@.take(word@.len() as int) =~= word@);
    out.push(Piece { text, style });
    proof {
        lemma_piece_text_push(before2, out@.last());
    }
}

/// A span's words: a plain span split at white space, a styled one whole.
pub open spec fn span_words(sp: Span) -> Seq<(Seq<char>, SpanStyle)> {
    if sp.style == SpanStyle::Plain {
        words(sp.text@).map_values(|w: Seq<char>| (w, SpanStyle::Plain))
    } else {
        seq![(sp.text@, sp.style)]
    }
}

/// The words of spans, in order.
pub open spec fn all_words(spans: Seq<Span>) -> Seq<(Seq<char>, SpanStyle)>
    decreases spans.len(),
{
    if spans.len() == 0 {
        Seq::empty()
    } else {
        all_words(spans.drop_last()) + span_words(spans.last())
    }
}

pub open spec fn words_view(v: Seq<(Vec<char>, SpanStyle)>) -> Seq<(Seq<char>, SpanStyle)> {
    v.map_values(|x: (Vec<char>, SpanStyle)| (x.0@, x.1))
}

/// Whether one of the first `n` words takes any columns.
pub open spec fn has_ink(ws: Seq<(Seq<char>, SpanStyle)>, n: int) -> bool {
    exists|j: int| 0 <= j < n && #[trigger] sat(str_width(ws[j].0)) > 0
}

/// The words that wrapping works on: each plain span split at white space,
/// each styled span whole.
#[verifier::loop_isolation(false)]
fn collect_words(spans: &[Span]) -> (r: Vec<(Vec<char>, SpanStyle)>)
    ensures
        words_view(r@) == all_words(spans@),
{
    let mut out: Vec<(Vec<char>, SpanStyle)> = Vec::new();
    let mut i: usize = 0;
    while i < spans.len()
        invariant
            i <= spans@.len(),
            words_view(out@) == all_words(spans@.take(i as int)),
        decreases spans.len() - i,
    {
        assert(spans@.take(i + 1).drop_last() =~= spans@.take(i as int));
        let ghost base = words_view(out@);
        let text = chars_of(spans[i].text.as_str());
        if spans[i].style == SpanStyle::Plain {
            let ws = words_of(text.as_slice());
            let ghost wv = words(text@).map_values(|w: Seq<char>| (w, SpanStyle::Plain));
            let mut k: usize = 0;
            while k < ws.len()
                invariant
                    k <= ws@.len(),
                    ws.deep_view() == words(text@),
                    wv == words(text@).map_values(|w: Seq<char>| (w, SpanStyle::Plain)),
                    words_view(out@) == base + wv.take(k as int),
                decreases ws.len() - k,
            {
                assert(ws.deep_view()[k as int] == ws@[k as int]@);
                let ghost out0 = out@;
                let item = crate::text::to_vec(ws[k].as_slice());
                out.push((item, SpanStyle::Plain));
                proof {
                    assert(wv[k as int] == (ws@[k as int]@, SpanStyle::Plain));
                    assert(words_view(out@) =~= words_view(out0).push((ws@[k as int]@, SpanStyle::Plain)));
                    assert(wv.take(k + 1) =~= wv.take(k as int).push(wv[k as int]));
                }
                k = k + 1;
                assert(words_view(out@) =~= base + wv.take(k as int));
            }
            assert(wv.take(ws@.len() as int) =~= wv);
        } else {
            out.push((text, spans[i].style));
            assert(words_view(out@) =~= base + seq![(spans@[i as int].text@, spans@[i as int].style)]);
        }
        i = i + 1;
    }
    assert(spans@.take(spans@.len() as int) =~= spans@);
    out
}

/// `s` without its spaces.
pub open spec fn no_space(s: Seq<char>) -> Seq<char>
    decreases s.len(),
{
    if s.len() == 0 {
        Seq::empty()
    } else {
        no_space(s.drop_last()) + if s.last() == ' ' { Seq::empty() } else { seq![s.last()] }
    }
}

proof fn lemma_no_space_add(a: Seq<char>, b: Seq<char>)
    ensures
        no_space(a + b) == no_space(a) + no_space(b),
    decreases b.len(),
{
    if b.len() == 0 {
        assert(a + b =~= a);
        assert(no_space(a) + no_space(b) =~= no_space(a));
    } else {
        lemma_no_space_add(a, b.drop_last());
        assert((a + b).drop_last() =~= a + b.drop_last());
        assert((a + b).last() == b.last());
        let t: Seq<char> = if b.last() == ' ' { Seq::empty() } else { seq![b.last()] };
        assert(no_space(a) + no_space(b.drop_last()) + t =~= no_space(a) + (no_space(b.drop_last()) + t));
    }
}

/// The text of the words that take columns, one after another.
pub open spec fn inked_text(ws: Seq<(Seq<char>, SpanStyle)>) -> Seq<char>
    decreases ws.len(),
{
    if ws.len() == 0 {
        Seq::empty()
    } else if sat(str_width(ws.last().0)) > 0 {
        inked_text(ws.drop_last()) + ws.last().0
    } else {
        inked_text(ws.drop_last())
    }
}

/// The text of wrapped lines, one after another.
pub open spec fn line_texts(ls: Seq<Vec<Piece>>) -> Seq<char>
    decreases ls.len(),
{
    if ls.len() == 0 {
        Seq::empty()
    } else {
        line_texts(ls.drop_last()) + piece_text(ls.last()@)
    }
}

proof fn lemma_line_texts_push(ls: Seq<Vec<Piece>>, l: Vec<Piece>)
    ensures
        line_texts(ls.push(l)) == line_texts(ls) + piece_text(l@),
{
    assert(ls.push(l).drop_last() =~= ls);
}

/// Wraps styled text to lines of `width - indent` columns (at least one).
/// Plain text breaks at white space, joined by single spaces; a styled span
/// stays whole unless it is wider than a line, and a word wider than a line
/// is cut between grapheme clusters. Every line holds a piece, and is no
/// wider than the limit unless it is a single piece: a grapheme cluster
/// wider than the line.
#[verifier::loop_isolation(false)]
#[verifier::rlimit(80)]
pub fn wrap_pieces(spans: &[Span], width: u16, indent: u16) -> (r: Vec<Vec<Piece>>)
    ensures
        forall|i: int| 0 <= i < r@.len() ==> line_fits(#[trigger] r@[i]@, wrap_max(width, indent)),
        forall|i: int| 0 <= i < r@.len() ==> over_is_cluster(#[trigger] r@[i]@, wrap_max(width, indent), all_words(spans@)),
        r@.len() > 0 <==> has_ink(all_words(spans@), all_words(spans@).len() as int),
        no_space(line_texts(r@)) == no_space(inked_text(all_words(spans@))),
{
    let max: usize = if width > indent && width - indent >= 1 { (width - indent) as usize } else { 1 };
    let words = collect_words(spans);
    let mut lines: Vec<Vec<Piece>> = Vec::new();
    let mut cur: Vec<Piece> = Vec::new();
    let mut cur_w: usize = 0;
    let mut k: usize = 0;
    while k < words.len()
        invariant
            max == wrap_max(width, indent),
            max >= 1,
            forall|i: int| 0 <= i < lines@.len() ==> line_fits(#[trigger] lines@[i]@, max as nat),
            forall|i: int| 0 <= i < lines@.len() ==> over_is_cluster(#[trigger] lines@[i]@, max as nat, all_words(spans@)),
            over_is_cluster(cur@, max as nat, all_words(spans@)),
            cur_w == sat(str_width(piece_text(cur@))),
            cur@.len() == 0 ==> cur_w == 0,
            cur@.len() == 0 || cur_w <= max || cur@.len() == 1,
            k <= words@.len(),
            words_view(words@) == all_words(spans@),
            (lines@.len() > 0 || cur@.len() > 0) == has_ink(words_view(words@), k as int),
            no_space(line_texts(lines@) + piece_text(cur@)) == no_space(inked_text(words_view(words@).take(k as int))),
        decreases words.len() - k,
    {
        assert(words_view(words@)[k as int] == (words@[k as int].0@, words@[k as int].1));
        let ghost wv = words_view(words@);
        let ghost base = no_space(inked_text(wv.take(k as int)));
        proof {
            assert(wv.take(k + 1).drop_last() =~= wv.take(k as int));
            assert(wv.take(k + 1).last() == wv[k as int]);
        }
        let ghost ink0 = has_ink(words_view(words@), k as int);
        let ghost lines0 = lines@.len();
        let word = &words[k].0;
        let style = words[k].1;
        let s = string_of(word.as_slice());
        let w = crate::width::line_width(s.as_str());
        if w == 0 {
            proof {
                assert(has_ink(words_view(words@), k + 1) == ink0) by {
                    if has_ink(words_view(words@), k + 1) {
                        let j = choose|j: int| 0 <= j < k + 1 && #[trigger] sat(str_width(words_view(words@)[j].0)) > 0;
                        assert(j < k);
                    }
                }
            }
            k = k + 1;
            continue;
        }
        assert(has_ink(words_view(words@), k + 1)) by {
            assert(sat(str_width(words_view(words@)[k as int].0)) > 0);
        }
        proof {
            lemma_no_space_add(inked_text(wv.take(k as int)), word@);
            assert(no_space(inked_text(wv.take(k + 1))) == base + no_space(word@));
        }
        let sep: usize = if cur.len() > 0 { 1 } else { 0 };
        if w > max {
            if cur.len() > 0 {
                let ghost l0 = lines@;
                let ghost c0 = cur@;
                lines.push(cur);
                proof {
                    lemma_line_texts_push(l0, lines@.last());
                }
                cur = Vec::new();
                cur_w = 0;
            }
            assert(piece_text(cur@) == Seq::<char>::empty());
            assert(line_texts(lines@) + piece_text(cur@) =~= line_texts(lines@));
            let ghost lt0 = line_texts(lines@);
            let parts = wrap_token(word, max);
            proof {
                if parts@.len() == 0 {
                    assert(parts@.map_values(|q: Vec<char>| q@) =~= Seq::<Seq<char>>::empty());
                    assert(word@.len() == 0);
                    assert(str_width(word@) == 0);
                }
            }
            let ghost lines1 = lines@.len();
            let mut p: usize = 0;
            while p < parts.len()
                invariant
                    forall|i: int| 0 <= i < lines@.len() ==> line_fits(#[trigger] lines@[i]@, max as nat),
                    forall|i: int| 0 <= i < lines@.len() ==> over_is_cluster(#[trigger] lines@[i]@, max as nat, all_words(spans@)),
                    over_is_cluster(cur@, max as nat, all_words(spans@)),
                    forall|q: int| 0 <= q < parts@.len() ==> sat(str_width((#[trigger] parts@[q])@)) <= max || cluster_of_words(parts@[q]@, all_words(spans@)),
                    cur_w == sat(str_width(piece_text(cur@))),
                    cur@.len() == 0 ==> cur_w == 0,
                    cur@.len() <= 1,
                    max >= 1,
                    lines@.len() >= lines1,
                    p > 0 ==> (lines@.len() > 0 || cur@.len() > 0),
                    parts@.len() > 0,
                    p <= parts@.len(),
                    p < parts@.len() ==> cur@.len() == 0,
                    no_space(line_texts(lines@) + piece_text(cur@)) == no_space(lt0) + no_space(
                        flatten(parts@.map_values(|q: Vec<char>| q@).take(p as int)),
                    ),
                decreases parts.len() - p,
            {
                let ghost pv = parts@.map_values(|q: Vec<char>| q@);
                proof {
                    assert(pv.take(p + 1).drop_last() =~= pv.take(p as int));
                    assert(pv.take(p + 1).last() == parts@[p as int]@);
                    lemma_no_space_add(flatten(pv.take(p as int)), parts@[p as int]@);
                    assert(piece_text(cur@) == Seq::<char>::empty());
                    assert(line_texts(lines@) + piece_text(cur@) =~= line_texts(lines@));
                }
                let ghost l0 = lines@;
                let text = parts[p].clone();
                if p + 1 == parts.len() {
                    let pt = string_of(text.as_slice());
                    let pw = crate::width::line_width(pt.as_str());
                    let mut one: Vec<Piece> = Vec::new();
                    one.push(Piece { text, style });
                    proof {
                        lemma_piece_text_push(Seq::empty(), one@[0]);
                        assert(Seq::<Piece>::empty().push(one@[0]) =~= one@);
                    }
                    cur = one;
                    cur_w = pw;
                    proof {
                        lemma_no_space_add(line_texts(lines@), piece_text(cur@));
                        lemma_no_space_add(line_texts(l0), Seq::<char>::empty());
                        lemma_no_space_add(no_space(lt0), Seq::<char>::empty());
                    }
                } else {
                    let mut one: Vec<Piece> = Vec::new();
                    one.push(Piece { text, style });
                    proof {
                        lemma_piece_text_push(Seq::empty(), one@[0]);
                        assert(Seq::<Piece>::empty().push(one@[0]) =~= one@);
                    }
                    lines.push(one);
                    proof {
                        lemma_line_texts_push(l0, lines@.last());
                        assert(line_texts(lines@) + piece_text(cur@) =~= line_texts(lines@));
                        lemma_no_space_add(line_texts(l0), piece_text(lines@.last()@));
                    }
                }
                p = p + 1;
            }
            proof {
                let pv = parts@.map_values(|q: Vec<char>| q@);
                assert(pv.take(parts@.len() as int) =~= pv);
            }
        } else if cur_w <= max && sep + w <= max - cur_w {
            let ghost before = piece_text(cur@);
            let sep_w: usize = if sep == 1 { char_cols(' ') } else { 0 };
            push_word(&mut cur, word, style, sep == 1);
            proof {
                let sp: Seq<char> = if sep == 1 { seq![' '] } else { Seq::empty() };
                lemma_no_space_add(line_texts(lines@), before);
                lemma_no_space_add(line_texts(lines@), before + sp + word@);
                lemma_no_space_add(before + sp, word@);
                lemma_no_space_add(before, sp);
                assert(no_space(sp) =~= Seq::<char>::empty()) by {
                    assert(no_space(Seq::<char>::empty()) == Seq::<char>::empty());
                    if sep == 1 {
                        assert(sp.drop_last() =~= Seq::<char>::empty());
                        assert(sp.last() == ' ');
                    }
                }
                lemma_no_space_add(no_space(line_texts(lines@)) + no_space(before), no_space(word@));
            }
            proof {
                if sep == 1 {
                    lemma_str_width_push(before, ' ');
                    lemma_str_width_concat(before.push(' '), s@);
                    assert(before + seq![' '] =~= before.push(' '));
                } else {
                    lemma_str_width_concat(before, s@);
                    assert(before + Seq::<char>::empty() =~= before);
                }
            }
            cur_w = cur_w + sep_w + w;
        } else {
            let ghost l0 = lines@;
            let ghost c0 = piece_text(cur@);
            lines.push(cur);
            proof {
                lemma_line_texts_push(l0, lines@.last());
            }
            cur = Vec::new();
            push_word(&mut cur, word, style, false);
            proof {
                assert(piece_text(Seq::<Piece>::empty()) + Seq::<char>::empty() + s@ =~= s@);
                lemma_no_space_add(line_texts(lines@), word@);
                lemma_no_space_add(line_texts(l0) + c0, word@);
            }
            cur_w = w;
        }
        k = k + 1;
    }
    proof {
        assert(words_view(words@).take(words@.len() as int) =~= words_view(words@));
    }
    if cur.len() > 0 {
        let ghost l0 = lines@;
        lines.push(cur);
        proof {
            lemma_line_texts_push(l0, lines@.last());
        }
    } else {
        assert(line_texts(lines@) + piece_text(cur@) =~= line_texts(lines@));
    }
    proof {
        assert(words_view(words@).len() == words@.len());
    }
    lines
}

/// Finishes pieces into spans.
#[verifier::loop_isolation(false)]
pub fn to_spans(ps: Vec<Piece>) -> (r: Vec<Span>)
    ensures
        r@.len() == ps@.len(),
        span_texts(r@) == piece_text(ps@),
{
    let mut out: Vec<Span> = Vec::new();
    let mut i: usize = 0;
    while i < ps.len()
        invariant
            i <= ps@.len(),
            out@.len() == i,
            span_texts(out@) == piece_text(ps@.take(i as int)),
        decreases ps.len() - i,
    {
        let ghost before = out@;
        out.push(Span { text: string_of(ps[i].text.as_slice()), style: ps[i].style });
        proof {
            assert(out@.drop_last() =~= before);
            assert(ps@.take(i + 1).drop_last() =~= ps@.take(i as int));
        }
        i = i + 1;
    }
    assert(ps@.take(ps@.len() as int) =~= ps@);
    out
}

/// The text of lines of spans, one after another.
pub open spec fn span_line_texts(ls: Seq<Vec<Span>>) -> Seq<char>
    decreases ls.len(),
{
    if ls.len() == 0 {
        Seq::empty()
    } else {
        span_line_texts(ls.drop_last()) + span_texts(ls.last()@)
    }
}

/// [`wrap_pieces`], as spans: every line holds a span and is no wider than
/// `width - indent` columns (at least one) unless it is a single span; no
/// word is lost.
#[verifier::loop_isolation(false)]
pub fn wrap_spans(spans: &[Span], width: u16, indent: u16) -> (r: Vec<Vec<Span>>)
    ensures
        forall|i: int| 0 <= i < r@.len() ==> spans_fit(#[trigger] r@[i]@, wrap_max(width, indent)),
        r@.len() > 0 <==> has_ink(all_words(spans@), all_words(spans@).len() as int),
        no_space(span_line_texts(r@)) == no_space(inked_text(all_words(spans@))),
        forall|i: int| 0 <= i < r@.len() ==> sat(str_width(span_texts((#[trigger] r@[i])@))) <= wrap_max(width, indent) || (
        r@[i]@.len() == 1 && cluster_of_words(r@[i]@[0].text@, all_words(spans@))),
{
    let mut lines = wrap_pieces(spans, width, indent);
    let ghost l0 = lines@;
    let ghost n0 = lines@.len();
    let mut out: Vec<Vec<Span>> = Vec::new();
    let mut rest: Vec<Vec<Piece>> = Vec::new();
    while lines.len() > 0
        invariant
            forall|q: int| 0 <= q < lines@.len() ==> line_fits(#[trigger] lines@[q]@, wrap_max(width, indent)),
            forall|q: int| 0 <= q < rest@.len() ==> line_fits(#[trigger] rest@[q]@, wrap_max(width, indent)),
            lines@.len() + rest@.len() == n0,
            lines@ == l0.take(lines@.len() as int),
            forall|q: int| 0 <= q < rest@.len() ==> #[trigger] rest@[q] == l0[n0 - 1 - q],
        decreases lines@.len(),
    {
        let ghost r0 = rest@;
        let l = lines.pop().unwrap();
        rest.push(l);
        proof {
            assert forall|q: int| 0 <= q < rest@.len() implies #[trigger] rest@[q] == l0[n0 - 1 - q] by {
                if q < r0.len() {
                    assert(rest@[q] == r0[q]);
                }
            }
            assert(lines@ =~= l0.take(lines@.len() as int));
        }
    }
    assert(span_line_texts(out@) =~= line_texts(l0.take(0)));
    while rest.len() > 0
        invariant
            forall|q: int| 0 <= q < rest@.len() ==> line_fits(#[trigger] rest@[q]@, wrap_max(width, indent)),
            forall|q: int| 0 <= q < out@.len() ==> spans_fit(#[trigger] out@[q]@, wrap_max(width, indent)),
            out@.len() + rest@.len() == n0,
            forall|q: int| 0 <= q < rest@.len() ==> #[trigger] rest@[q] == l0[n0 - 1 - q],
            span_line_texts(out@) == line_texts(l0.take(out@.len() as int)),
            forall|q: int| 0 <= q < l0.len() ==> over_is_cluster(#[trigger] l0[q]@, wrap_max(width, indent), all_words(spans@)),
            forall|q: int| 0 <= q < out@.len() ==> sat(str_width(span_texts((#[trigger] out@[q])@))) <= wrap_max(width, indent) || (
            out@[q]@.len() == 1 && cluster_of_words(out@[q]@[0].text@, all_words(spans@))),
        decreases rest@.len(),
    {
        let ghost o0 = out@;
        let ghost k = out@.len();
        let l = rest.pop().unwrap();
        assert(l == l0[k as int]);
        let ghost lv = l@;
        let ss = to_spans(l);
        proof {
            if ss@.len() == 1 {
                assert(ss@.drop_last() =~= Seq::<Span>::empty());
                assert(lv.drop_last() =~= Seq::<Piece>::empty());
                assert(span_texts(ss@.drop_last()) == Seq::<char>::empty());
                assert(Seq::<char>::empty() + ss@[0].text@ =~= ss@[0].text@);
                assert(span_texts(ss@) == ss@[0].text@);
                assert(piece_text(lv.drop_last()) == Seq::<char>::empty());
                assert(Seq::<char>::empty() + lv[0].text@ =~= lv[0].text@);
                assert(piece_text(lv) == lv[0].text@);
            }
        }
        out.push(ss);
        proof {
            assert(out@.drop_last() =~= o0);
            assert(l0.take(k as int + 1).drop_last() =~= l0.take(k as int));
        }
    }
    assert(l0.take(n0 as int) =~= l0);
    out
}

} // verus!
