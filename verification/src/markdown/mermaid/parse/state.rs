//! `stateDiagram` diagrams.

use vstd::prelude::*;
use crate::text::{chars_of, eq_str, find, find_ch_exec, find_str, lemma_chars_deep_view,
    lemma_find_ch_from_bounds, lemma_find_from_bounds, lines, lines_of, split_once_ch,
    starts_with_str, string_of, trim, trim_slice, find_ch};
use super::{Dir, Shape, Node, EdgeStyle, Edge, Diagram, ShapeV, NodeV, EdgeStyleV, EdgeV, SubgraphV,
    DiagramV, views, result_view, is_content, opt_view, shape_eq};
use super::super::{Fallback, FallbackV};

verus! {

broadcast use super::group_views;

/// Adds state `id` drawn as `shape`, unless the same state is there
/// already; `[*]` may appear once as a start and once as an end.
pub open spec fn spec_upsert_state(nodes: Seq<NodeV>, id: Seq<char>, shape: ShapeV) -> Seq<NodeV> {
    if exists|i: int| 0 <= i < nodes.len() && nodes[i].id == id && nodes[i].shape == shape {
        nodes
    } else if id != "[*]"@ && exists|i: int| 0 <= i < nodes.len() && nodes[i].id == id {
        nodes
    } else {
        nodes.push(NodeV { id, shape })
    }
}

/// `[*]` is the start pseudo-state as a source, the end one as a target.
pub open spec fn end_shape(id: Seq<char>, source: bool) -> ShapeV {
    if id == "[*]"@ {
        if source {
            ShapeV::Start
        } else {
            ShapeV::End
        }
    } else {
        ShapeV::State(id)
    }
}

pub struct StateState {
    pub header: bool,
    pub nodes: Seq<NodeV>,
    pub edges: Seq<EdgeV>,
}

/// A content line after the header: `a --> b [: label]`, or a bare state.
pub open spec fn body_step(st: StateState, l: Seq<char>) -> StateState {
    match find(l, "-->"@) {
        Some(idx) => {
            let from = trim(l.subrange(0, idx));
            let rest = trim(l.subrange(idx + 3, l.len() as int));
            let (to, label) = match split_once_ch(rest, ':') {
                Some((t, lb)) => (trim(t), Some(trim(lb))),
                None => (rest, None),
            };
            let n1 = spec_upsert_state(st.nodes, from, end_shape(from, true));
            StateState {
                nodes: spec_upsert_state(n1, to, end_shape(to, false)),
                edges: st.edges.push(EdgeV { from, to, label, style: EdgeStyleV::Transition }),
                ..st
            }
        },
        None => if l.len() > 0 && l != "[*]"@ {
            StateState { nodes: spec_upsert_state(st.nodes, l, ShapeV::State(l)), ..st }
        } else {
            st
        },
    }
}

pub open spec fn step(st: StateState, raw: Seq<char>) -> StateState {
    let l = trim(raw);
    if !is_content(l) {
        st
    } else if !st.header {
        StateState { header: true, ..st }
    } else {
        body_step(st, l)
    }
}

pub open spec fn fold(ls: Seq<Seq<char>>) -> StateState
    decreases ls.len(),
{
    if ls.len() == 0 {
        StateState { header: false, nodes: Seq::empty(), edges: Seq::empty() }
    } else {
        step(fold(ls.drop_last()), ls.last())
    }
}

/// States and transitions from the lines after the header.
pub open spec fn spec_parse(src: Seq<char>) -> Result<DiagramV, FallbackV> {
    let st = fold(lines(src));
    if st.nodes.len() == 0 {
        Err(FallbackV::Empty { kind: "state"@ })
    } else {
        Ok(
            DiagramV::Graph {
                dir: Dir::TB,
                nodes: st.nodes,
                edges: st.edges,
                groups: Seq::<SubgraphV>::empty(),
            },
        )
    }
}

fn upsert_state(nodes: &mut Vec<Node>, id: &String, shape: Shape)
    ensures
        views(final(nodes)@) == spec_upsert_state(views(old(nodes)@), id@, shape@),
{
    let mut i: usize = 0;
    while i < nodes.len()
        invariant
            i <= nodes.len(),
            forall|j: int|
                0 <= j < i ==> !(views(nodes@)[j].id == id@ && views(nodes@)[j].shape == shape@),
        decreases nodes.len() - i,
    {
        if nodes[i].id == *id && shape_eq(&nodes[i].shape, &shape) {
            assert(views(nodes@)[i as int].id == id@);
            return;
        }
        i = i + 1;
    }
    let idc = chars_of(id.as_str());
    if !eq_str(idc.as_slice(), "[*]") {
        let mut j: usize = 0;
        while j < nodes.len()
            invariant
                j <= nodes.len(),
                id@ != "[*]"@,
                forall|k: int| 0 <= k < j ==> views(nodes@)[k].id != id@,
                forall|k: int|
                    0 <= k < nodes.len() ==> !(views(nodes@)[k].id == id@ && views(nodes@)[k].shape
                        == shape@),
            decreases nodes.len() - j,
        {
            if nodes[j].id == *id {
                assert(views(nodes@)[j as int].id == id@);
                return;
            }
            j = j + 1;
        }
    }
    nodes.push(Node { id: id.clone(), shape });
}

fn end_shape_exec(id: &String, source: bool) -> (s: Shape)
    ensures
        s@ == end_shape(id@, source),
{
    if eq_str(chars_of(id.as_str()).as_slice(), "[*]") {
        if source {
            Shape::Start
        } else {
            Shape::End
        }
    } else {
        Shape::State(id.clone())
    }
}

struct StateAcc {
    header: bool,
    nodes: Vec<Node>,
    edges: Vec<Edge>,
}

impl View for StateAcc {
    type V = StateState;

    closed spec fn view(&self) -> StateState {
        StateState { header: self.header, nodes: views(self.nodes@), edges: views(self.edges@) }
    }
}

fn body_step_exec(acc: &mut StateAcc, l: &[char])
    ensures
        final(acc)@ == body_step(old(acc)@, l@),
{
    match find_str(l, "-->") {
        Some(idx) => {
            proof {
                lemma_find_from_bounds(l@, "-->"@, 0);
                reveal_strlit("-->");
                assert(find(l@, "-->"@) == Some(idx as int));
                assert(idx + 3 <= l.len());
            }
            let from = string_of(trim_slice(&l[0..idx]));
            let rest = trim_slice(&l[idx + 3..l.len()]);
            let (to, label): (String, Option<String>) = match find_ch_exec(rest, ':') {
                Some(c) => {
                    proof {
                        lemma_find_ch_from_bounds(rest@, ':', 0);
                        assert(find_ch(rest@, ':') == Some(c as int));
                        assert(c + 1 <= rest.len());
                    }
                    (
                        string_of(trim_slice(&rest[0..c])),
                        Some(string_of(trim_slice(&rest[c + 1..rest.len()]))),
                    )
                },
                None => (string_of(rest), None),
            };
            let fs = end_shape_exec(&from, true);
            upsert_state(&mut acc.nodes, &from, fs);
            let ts = end_shape_exec(&to, false);
            upsert_state(&mut acc.nodes, &to, ts);
            acc.edges.push(Edge { from, to, label, style: EdgeStyle::Transition });
        },
        None => {
            if l.len() > 0 && !eq_str(l, "[*]") {
                let id = string_of(l);
                let sh = Shape::State(string_of(l));
                upsert_state(&mut acc.nodes, &id, sh);
            }
        },
    }
}

fn step_exec(acc: &mut StateAcc, raw: &[char])
    ensures
        final(acc)@ == step(old(acc)@, raw@),
{
    let l = trim_slice(raw);
    if l.len() == 0 || starts_with_str(l, "%%") {
        return;
    }
    if !acc.header {
        acc.header = true;
        return;
    }
    body_step_exec(acc, l);
}

/// Parses a `stateDiagram` diagram.
pub fn parse(src: &str) -> (r: Result<Diagram, Fallback>)
    ensures
        result_view(r) == spec_parse(src@),
{
    let chars = chars_of(src);
    let ls = lines_of(chars.as_slice());
    let mut acc = StateAcc { header: false, nodes: Vec::new(), edges: Vec::new() };
    proof {
        assert(ls.deep_view().take(0) =~= Seq::<Seq<char>>::empty());
        assert(views(acc.nodes@) =~= Seq::<NodeV>::empty());
        assert(views(acc.edges@) =~= Seq::<EdgeV>::empty());
    }
    let mut i: usize = 0;
    while i < ls.len()
        invariant
            i <= ls.len(),
            acc@ == fold(ls.deep_view().take(i as int)),
        decreases ls.len() - i,
    {
        proof {
            lemma_chars_deep_view(ls@[i as int]);
            assert(ls.deep_view().take(i + 1).drop_last() =~= ls.deep_view().take(i as int));
        }
        step_exec(&mut acc, ls[i].as_slice());
        i = i + 1;
    }
    assert(ls.deep_view().take(ls.len() as int) =~= ls.deep_view());
    let StateAcc { header: _, nodes, edges } = acc;
    if nodes.len() == 0 {
        Err(super::super::empty_fallback("state"))
    } else {
        let groups = Vec::new();
        proof {
            assert(views(groups@) =~= Seq::<SubgraphV>::empty());
        }
        Ok(Diagram::Graph { dir: Dir::TB, nodes, edges, groups })
    }
}

} // verus!
