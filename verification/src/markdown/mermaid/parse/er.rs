//! `erDiagram` diagrams.

use vstd::prelude::*;
use crate::text::{chars_of, eq_str, find, find_ch, find_ch_exec, find_exec, lemma_chars_deep_view,
    lemma_find_ch_from_bounds, lemma_find_from_bounds, lines, lines_of, slice_vec, split_once_ch,
    starts_with_str, string_of, trim, trim_slice, words, words_of};
use super::{Dir, Shape, Node, EdgeStyle, Edge, Diagram, ShapeV, NodeV, EdgeStyleV, EdgeV, SubgraphV,
    DiagramV, views, result_view, is_content, node_pos, node_pos_exec, opt_view};
use super::super::{Fallback, FallbackV};

verus! {

broadcast use super::group_views;

/// The relationship symbols recognised, in the order they are tried.
pub open spec fn card_syms() -> Seq<Seq<char>> {
    seq![
        "||--o{"@,
        "||--|{"@,
        "}o--||"@,
        "}|--||"@,
        "||--||"@,
        "}o--o{"@,
        "}|--|{"@,
        "o|--o|"@,
    ]
}

pub struct Cardinality {
    pub left: Seq<char>,
    pub right: Seq<char>,
    pub left_card: Seq<char>,
    pub right_card: Seq<char>,
    pub label: Option<Seq<char>>,
}

/// The first symbol at or after position `k` of [`card_syms`] found in
/// `rel`; its two halves around `--` are the two cardinalities.
pub open spec fn card_from(rel: Seq<char>, label: Option<Seq<char>>, k: int) -> Option<Cardinality>
    decreases 8 - k,
{
    if k < 0 || k >= 8 {
        None
    } else {
        let sym = card_syms()[k];
        match find(rel, sym) {
            Some(idx) => Some(
                Cardinality {
                    left: trim(rel.subrange(0, idx)),
                    right: trim(rel.subrange(idx + sym.len(), rel.len() as int)),
                    left_card: sym.subrange(0, 2),
                    right_card: sym.subrange(4, 6),
                    label,
                },
            ),
            None => card_from(rel, label, k + 1),
        }
    }
}

/// `LEFT <sym> RIGHT [: label]`.
pub open spec fn spec_cardinality(l: Seq<char>) -> Option<Cardinality> {
    match split_once_ch(l, ':') {
        Some((r, lb)) => card_from(trim(r), Some(trim(lb)), 0),
        None => card_from(l, None, 0),
    }
}

/// Whitespace-separated words taken two at a time (`type name`).
pub open spec fn pair_fields(ws: Seq<Seq<char>>) -> Seq<Seq<char>> {
    Seq::new(
        ((ws.len() + 1) / 2) as nat,
        |i: int|
            if 2 * i + 1 < ws.len() {
                ws[2 * i] + " "@ + ws[2 * i + 1]
            } else {
                ws[2 * i]
            },
    )
}

pub open spec fn ensure_entity(nodes: Seq<NodeV>, e: Seq<char>) -> Seq<NodeV> {
    if node_pos(nodes, e) is Some {
        nodes
    } else {
        nodes.push(NodeV { id: e, shape: ShapeV::Entity { name: e, fields: Seq::empty() } })
    }
}

pub struct ErState {
    pub header: bool,
    pub nodes: Seq<NodeV>,
    pub edges: Seq<EdgeV>,
    pub open: Option<(Seq<char>, Seq<Seq<char>>)>,
}

/// A content line after the header: inside an open `{` block a field or
/// the closing `}`; otherwise a relationship, or an entity block.
pub open spec fn body_step(st: ErState, l: Seq<char>) -> ErState {
    match st.open {
        Some((name, fields)) => if l == "}"@ {
            ErState {
                nodes: st.nodes.push(
                    NodeV { id: name, shape: ShapeV::Entity { name, fields } },
                ),
                open: None,
                ..st
            }
        } else if trim(l).len() > 0 {
            ErState { open: Some((name, fields.push(trim(l)))), ..st }
        } else {
            st
        },
        None => match spec_cardinality(l) {
            Some(c) => ErState {
                nodes: ensure_entity(ensure_entity(st.nodes, c.left), c.right),
                edges: st.edges.push(
                    EdgeV {
                        from: c.left,
                        to: c.right,
                        label: c.label,
                        style: EdgeStyleV::Cardinality(c.left_card, c.right_card),
                    },
                ),
                ..st
            },
            None => match find_ch(l, '{') {
                Some(b) => {
                    let name = trim(l.subrange(0, b));
                    let rest = trim(l.subrange(b + 1, l.len() as int));
                    match find_ch(rest, '}') {
                        Some(e) => ErState {
                            nodes: st.nodes.push(
                                NodeV {
                                    id: name,
                                    shape: ShapeV::Entity {
                                        name,
                                        fields: pair_fields(words(rest.subrange(0, e))),
                                    },
                                },
                            ),
                            ..st
                        },
                        None => ErState { open: Some((name, Seq::empty())), ..st },
                    }
                },
                None => st,
            },
        },
    }
}

pub open spec fn step(st: ErState, raw: Seq<char>) -> ErState {
    let l = trim(raw);
    if !is_content(l) {
        st
    } else if !st.header {
        ErState { header: true, ..st }
    } else {
        body_step(st, l)
    }
}

pub open spec fn fold(ls: Seq<Seq<char>>) -> ErState
    decreases ls.len(),
{
    if ls.len() == 0 {
        ErState { header: false, nodes: Seq::empty(), edges: Seq::empty(), open: None }
    } else {
        step(fold(ls.drop_last()), ls.last())
    }
}

/// Entities and relationships from the lines after the header.
pub open spec fn spec_parse(src: Seq<char>) -> Result<DiagramV, FallbackV> {
    let st = fold(lines(src));
    if st.nodes.len() == 0 {
        Err(FallbackV::Empty { kind: "er"@ })
    } else {
        Ok(
            DiagramV::Graph {
                dir: Dir::TB,
                nodes: st.nodes,
                edges: st.edges,
                groups: Seq::<SubgraphV>::empty(),
            },
        )
    }
}

fn card_sym(k: usize) -> (r: &'static str)
    requires
        k < 8,
    ensures
        r@ == card_syms()[k as int],
        r@.len() == 6,
{
    proof {
        reveal_strlit("||--o{");
        reveal_strlit("||--|{");
        reveal_strlit("}o--||");
        reveal_strlit("}|--||");
        reveal_strlit("||--||");
        reveal_strlit("}o--o{");
        reveal_strlit("}|--|{");
        reveal_strlit("o|--o|");
    }
    if k == 0 {
        "||--o{"
    } else if k == 1 {
        "||--|{"
    } else if k == 2 {
        "}o--||"
    } else if k == 3 {
        "}|--||"
    } else if k == 4 {
        "||--||"
    } else if k == 5 {
        "}o--o{"
    } else if k == 6 {
        "}|--|{"
    } else {
        "o|--o|"
    }
}

struct CardExec {
    left: String,
    right: String,
    left_card: String,
    right_card: String,
    label: Option<String>,
}

impl View for CardExec {
    type V = Cardinality;

    closed spec fn view(&self) -> Cardinality {
        Cardinality {
            left: self.left@,
            right: self.right@,
            left_card: self.left_card@,
            right_card: self.right_card@,
            label: opt_view(self.label),
        }
    }
}

fn card_from_exec(rel: &[char], label: Option<String>) -> (r: Option<CardExec>)
    ensures
        match r {
            Some(c) => card_from(rel@, opt_view(label), 0) == Some(c@),
            None => card_from(rel@, opt_view(label), 0) is None,
        },
{
    let mut k: usize = 0;
    while k < 8
        invariant
            k <= 8,
            card_from(rel@, opt_view(label), 0) == card_from(rel@, opt_view(label), k as int),
        decreases 8 - k,
    {
        let sym = chars_of(card_sym(k));
        match find_exec(rel, sym.as_slice()) {
            Some(idx) => {
                proof {
                    lemma_find_from_bounds(rel@, sym@, 0);
                    assert(find(rel@, sym@) == Some(idx as int));
                    assert(idx + 6 <= rel.len());
                }
                let c = CardExec {
                    left: string_of(trim_slice(&rel[0..idx])),
                    right: string_of(trim_slice(&rel[idx + 6..rel.len()])),
                    left_card: string_of(slice_vec(sym.as_slice(), 0, 2).as_slice()),
                    right_card: string_of(slice_vec(sym.as_slice(), 4, 6).as_slice()),
                    label,
                };
                return Some(c);
            },
            None => {},
        }
        k = k + 1;
    }
    None
}

fn parse_cardinality_line(l: &[char]) -> (r: Option<CardExec>)
    ensures
        match r {
            Some(c) => spec_cardinality(l@) == Some(c@),
            None => spec_cardinality(l@) is None,
        },
{
    match find_ch_exec(l, ':') {
        Some(c) => {
            proof {
                lemma_find_ch_from_bounds(l@, ':', 0);
                assert(find_ch(l@, ':') == Some(c as int));
                assert(c + 1 <= l.len());
            }
            let rel = trim_slice(&l[0..c]);
            let lb = string_of(trim_slice(&l[c + 1..l.len()]));
            card_from_exec(rel, Some(lb))
        },
        None => card_from_exec(l, None),
    }
}

fn pair_fields_exec(ws: &Vec<Vec<char>>) -> (r: Vec<String>)
    ensures
        views(r@) == pair_fields(ws.deep_view()),
{
    let mut out: Vec<String> = Vec::new();
    let ghost target = pair_fields(ws.deep_view());
    let n = ws.len() / 2 + ws.len() % 2;
    let mut j: usize = 0;
    while j < n
        invariant
            j <= n,
            n == target.len(),
            n * 2 <= ws.len() + 1,
            target == pair_fields(ws.deep_view()),
            views(out@) == target.take(j as int),
        decreases n - j,
    {
        proof {
            lemma_chars_deep_view(ws@[2 * j as int]);
            assert(target.take(j + 1) =~= target.take(j as int).push(target[j as int]));
        }
        if 2 * j + 1 < ws.len() {
            proof {
                lemma_chars_deep_view(ws@[2 * j + 1]);
            }
            let sp = chars_of(" ");
            let a = crate::text::concat(ws[2 * j].as_slice(), sp.as_slice());
            let b = crate::text::concat(a.as_slice(), ws[2 * j + 1].as_slice());
            out.push(string_of(b.as_slice()));
        } else {
            out.push(string_of(ws[2 * j].as_slice()));
        }
        j = j + 1;
    }
    assert(target.take(n as int) =~= target);
    out
}

fn ensure_entity_exec(nodes: &mut Vec<Node>, e: &String)
    ensures
        views(final(nodes)@) == ensure_entity(views(old(nodes)@), e@),
{
    if node_pos_exec(nodes, e).is_some() {
        return;
    }
    let fields: Vec<String> = Vec::new();
    proof {
        assert(views(fields@) =~= Seq::<Seq<char>>::empty());
    }
    nodes.push(Node { id: e.clone(), shape: Shape::Entity { name: e.clone(), fields } });
}

struct ErAcc {
    header: bool,
    nodes: Vec<Node>,
    edges: Vec<Edge>,
    open: Option<(String, Vec<String>)>,
}

spec fn open_view(o: Option<(String, Vec<String>)>) -> Option<(Seq<char>, Seq<Seq<char>>)> {
    match o {
        Some((n, f)) => Some((n@, views(f@))),
        None => None,
    }
}

impl View for ErAcc {
    type V = ErState;

    closed spec fn view(&self) -> ErState {
        ErState {
            header: self.header,
            nodes: views(self.nodes@),
            edges: views(self.edges@),
            open: open_view(self.open),
        }
    }
}

fn body_step_exec(acc: &mut ErAcc, l: &[char])
    ensures
        final(acc)@ == body_step(old(acc)@, l@),
{
    let open = acc.open.take();
    match open {
        Some((name, fields)) => {
            if eq_str(l, "}") {
                let nm = name.clone();
                acc.nodes.push(Node { id: name, shape: Shape::Entity { name: nm, fields } });
            } else {
                let a = trim_slice(l);
                let mut fields = fields;
                if a.len() > 0 {
                    fields.push(string_of(a));
                }
                acc.open = Some((name, fields));
            }
            return;
        },
        None => {},
    }
    if let Some(c) = parse_cardinality_line(l) {
        let CardExec { left, right, left_card, right_card, label } = c;
        ensure_entity_exec(&mut acc.nodes, &left);
        ensure_entity_exec(&mut acc.nodes, &right);
        acc.edges.push(
            Edge { from: left, to: right, label, style: EdgeStyle::Cardinality(left_card, right_card) },
        );
        return;
    }
    match find_ch_exec(l, '{') {
        Some(b) => {
            proof {
                lemma_find_ch_from_bounds(l@, '{', 0);
                assert(find_ch(l@, '{') == Some(b as int));
                assert(b + 1 <= l.len());
            }
            let name = string_of(trim_slice(&l[0..b]));
            let rest = trim_slice(&l[b + 1..l.len()]);
            match find_ch_exec(rest, '}') {
                Some(e) => {
                    proof {
                        lemma_find_ch_from_bounds(rest@, '}', 0);
                        assert(find_ch(rest@, '}') == Some(e as int));
                    }
                    let ws = words_of(&rest[0..e]);
                    let fields = pair_fields_exec(&ws);
                    let nm = name.clone();
                    acc.nodes.push(Node { id: name, shape: Shape::Entity { name: nm, fields } });
                },
                None => {
                    let fields: Vec<String> = Vec::new();
                    proof {
                        assert(views(fields@) =~= Seq::<Seq<char>>::empty());
                    }
                    acc.open = Some((name, fields));
                },
            }
        },
        None => {},
    }
}

fn step_exec(acc: &mut ErAcc, raw: &[char])
    ensures
        final(acc)@ == step(old(acc)@, raw@),
{
    let l = trim_slice(raw);
    if l.len() == 0 || starts_with_str(l, "%%") {
        return;
    }
    if !acc.header {
        acc.header = true;
        return;
    }
    body_step_exec(acc, l);
}

/// Parses an `erDiagram`.
pub fn parse(src: &str) -> (r: Result<Diagram, Fallback>)
    ensures
        result_view(r) == spec_parse(src@),
{
    let chars = chars_of(src);
    let ls = lines_of(chars.as_slice());
    let mut acc = ErAcc { header: false, nodes: Vec::new(), edges: Vec::new(), open: None };
    proof {
        assert(ls.deep_view().take(0) =~= Seq::<Seq<char>>::empty());
        assert(views(acc.nodes@) =~= Seq::<NodeV>::empty());
        assert(views(acc.edges@) =~= Seq::<EdgeV>::empty());
    }
    let mut i: usize = 0;
    while i < ls.len()
        invariant
            i <= ls.len(),
            acc@ == fold(ls.deep_view().take(i as int)),
        decreases ls.len() - i,
    {
        proof {
            lemma_chars_deep_view(ls@[i as int]);
            assert(ls.deep_view().take(i + 1).drop_last() =~= ls.deep_view().take(i as int));
        }
        step_exec(&mut acc, ls[i].as_slice());
        i = i + 1;
    }
    assert(ls.deep_view().take(ls.len() as int) =~= ls.deep_view());
    let ErAcc { header: _, nodes, edges, open: _ } = acc;
    if nodes.len() == 0 {
        Err(super::super::empty_fallback("er"))
    } else {
        let groups = Vec::new();
        proof {
            assert(views(groups@) =~= Seq::<SubgraphV>::empty());
        }
        Ok(Diagram::Graph { dir: Dir::TB, nodes, edges, groups })
    }
}

} // verus!
