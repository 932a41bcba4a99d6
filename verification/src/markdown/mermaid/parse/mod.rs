//! Mermaid source text to [`Diagram`]: one parser per diagram kind, picked
//! by the first non-blank line.

use vstd::prelude::*;
use crate::text::{chars_of, concat, contains, contains_char, eq, eq_str, find, find_ch, find_ch_exec, find_ch_from, find_exec, find_from, find_str, is_ws, is_ws_char, join, lemma_chars_deep_view, lemma_find_ch_from_bounds, lemma_find_from_bounds, lemma_find_shift, lemma_rfind_below_bounds, lemma_trim_shape, lemma_ws_back_bounds, lemma_ws_from_bounds, lines, lines_of, lines_state, matches_at, matches_at_exec, oi, push_chars, rfind, rfind_below, rfind_exec, rfind_str, slice_vec, split, split_any, split_any_of, split_any_state, split_exec, split_from, split_once, split_once_ch, starts_with, starts_with_str, string_of, strip_cr, strip_prefix, to_vec, trim, trim_end, trim_slice, trim_start, trim_start_slice, trim_vec, words, words_of, words_state, ws_back, ws_back_exec, ws_from, ws_from_exec};
use super::{Fallback, FallbackV};

pub mod class;
pub mod er;
pub mod flow;
pub mod generic;
pub mod seq;
pub mod state;

verus! {

/// Layout direction of a graph diagram.
#[derive(Debug, Clone, Copy, PartialEq, Eq, Structural)]
pub enum Dir {
    TB,
    LR,
}

/// How a node is drawn.
#[derive(Debug, PartialEq)]
pub enum Shape {
    Box(String),
    Entity { name: String, fields: Vec<String> },
    Class { name: String, attrs: Vec<String>, methods: Vec<String> },
    State(String),
    Start,
    End,
}

#[derive(Debug, PartialEq)]
pub struct Node {
    pub id: String,
    pub shape: Shape,
}

/// How an edge is drawn.
#[derive(Debug, PartialEq)]
pub enum EdgeStyle {
    Arrow,
    Line,
    Cardinality(String, String),
    Inherit,
    Compose,
    Aggregate,
    Transition,
}

#[derive(Debug, PartialEq)]
pub struct Edge {
    pub from: String,
    pub to: String,
    pub label: Option<String>,
    pub style: EdgeStyle,
}

#[derive(Debug, PartialEq)]
pub struct Subgraph {
    pub title: String,
    pub members: Vec<String>,
}

#[derive(Debug, PartialEq)]
pub struct Message {
    pub from: String,
    pub to: String,
    pub label: String,
    pub self_msg: bool,
}

#[derive(Debug, PartialEq)]
pub enum Diagram {
    Graph { dir: Dir, nodes: Vec<Node>, edges: Vec<Edge>, groups: Vec<Subgraph> },
    Sequence { actors: Vec<String>, messages: Vec<Message> },
}

// ------------------------------------------------------------ models

pub enum ShapeV {
    Box(Seq<char>),
    Entity { name: Seq<char>, fields: Seq<Seq<char>> },
    Class { name: Seq<char>, attrs: Seq<Seq<char>>, methods: Seq<Seq<char>> },
    State(Seq<char>),
    Start,
    End,
}

pub struct NodeV {
    pub id: Seq<char>,
    pub shape: ShapeV,
}

pub enum EdgeStyleV {
    Arrow,
    Line,
    Cardinality(Seq<char>, Seq<char>),
    Inherit,
    Compose,
    Aggregate,
    Transition,
}

pub struct EdgeV {
    pub from: Seq<char>,
    pub to: Seq<char>,
    pub label: Option<Seq<char>>,
    pub style: EdgeStyleV,
}

pub struct SubgraphV {
    pub title: Seq<char>,
    pub members: Seq<Seq<char>>,
}

pub struct MessageV {
    pub from: Seq<char>,
    pub to: Seq<char>,
    pub label: Seq<char>,
    pub self_msg: bool,
}

pub enum DiagramV {
    Graph { dir: Dir, nodes: Seq<NodeV>, edges: Seq<EdgeV>, groups: Seq<SubgraphV> },
    Sequence { actors: Seq<Seq<char>>, messages: Seq<MessageV> },
}

/// The views of the elements of `s`, in order.
pub open spec fn views<T: View>(s: Seq<T>) -> Seq<T::V> {
    s.map_values(|x: T| x@)
}

pub broadcast proof fn lemma_views_push<T: View>(s: Seq<T>, x: T)
    ensures
        #[trigger] views(s.push(x)) == views(s).push(x@),
{
    assert(views(s.push(x)) =~= views(s).push(x@));
}

pub broadcast proof fn lemma_views_update<T: View>(s: Seq<T>, i: int, x: T)
    requires
        0 <= i < s.len(),
    ensures
        #[trigger] views(s.update(i, x)) == views(s).update(i, x@),
{
    assert(views(s.update(i, x)) =~= views(s).update(i, x@));
}

pub broadcast group group_views {
    lemma_views_push,
    lemma_views_update,
}

/// An optional string as an optional character sequence.
pub open spec fn opt_view(o: Option<String>) -> Option<Seq<char>> {
    match o {
        Some(s) => Some(s@),
        None => None,
    }
}

/// An optional character vector as an optional character sequence.
pub open spec fn opt_chars(o: Option<Vec<char>>) -> Option<Seq<char>> {
    match o {
        Some(s) => Some(s@),
        None => None,
    }
}

impl View for Shape {
    type V = ShapeV;

    open spec fn view(&self) -> ShapeV {
        match self {
            Shape::Box(s) => ShapeV::Box(s@),
            Shape::Entity { name, fields } => ShapeV::Entity { name: name@, fields: views(fields@) },
            Shape::Class { name, attrs, methods } => ShapeV::Class {
                name: name@,
                attrs: views(attrs@),
                methods: views(methods@),
            },
            Shape::State(s) => ShapeV::State(s@),
            Shape::Start => ShapeV::Start,
            Shape::End => ShapeV::End,
        }
    }
}

impl View for Node {
    type V = NodeV;

    open spec fn view(&self) -> NodeV {
        NodeV { id: self.id@, shape: self.shape@ }
    }
}

impl View for EdgeStyle {
    type V = EdgeStyleV;

    open spec fn view(&self) -> EdgeStyleV {
        match self {
            EdgeStyle::Arrow => EdgeStyleV::Arrow,
            EdgeStyle::Line => EdgeStyleV::Line,
            EdgeStyle::Cardinality(l, r) => EdgeStyleV::Cardinality(l@, r@),
            EdgeStyle::Inherit => EdgeStyleV::Inherit,
            EdgeStyle::Compose => EdgeStyleV::Compose,
            EdgeStyle::Aggregate => EdgeStyleV::Aggregate,
            EdgeStyle::Transition => EdgeStyleV::Transition,
        }
    }
}

impl View for Edge {
    type V = EdgeV;

    open spec fn view(&self) -> EdgeV {
        EdgeV { from: self.from@, to: self.to@, label: opt_view(self.label), style: self.style@ }
    }
}

impl View for Subgraph {
    type V = SubgraphV;

    open spec fn view(&self) -> SubgraphV {
        SubgraphV { title: self.title@, members: views(self.members@) }
    }
}

impl View for Message {
    type V = MessageV;

    open spec fn view(&self) -> MessageV {
        MessageV { from: self.from@, to: self.to@, label: self.label@, self_msg: self.self_msg }
    }
}

impl View for Diagram {
    type V = DiagramV;

    open spec fn view(&self) -> DiagramV {
        match self {
            Diagram::Graph { dir, nodes, edges, groups } => DiagramV::Graph {
                dir: *dir,
                nodes: views(nodes@),
                edges: views(edges@),
                groups: views(groups@),
            },
            Diagram::Sequence { actors, messages } => DiagramV::Sequence {
                actors: views(actors@),
                messages: views(messages@),
            },
        }
    }
}

/// A parse result as a model.
pub open spec fn result_view(r: Result<Diagram, Fallback>) -> Result<DiagramV, FallbackV> {
    match r {
        Ok(d) => Ok(d@),
        Err(f) => Err(f@),
    }
}

/// The first non-blank line of `ls`, trimmed.
pub open spec fn first_nonblank(ls: Seq<Seq<char>>) -> Option<Seq<char>>
    decreases ls.len(),
{
    if ls.len() == 0 {
        None
    } else if trim(ls[0]).len() > 0 {
        Some(trim(ls[0]))
    } else {
        first_nonblank(ls.drop_first())
    }
}

/// A trimmed line that a kind-specific parser reads: not blank and not a
/// `%%` comment.
pub open spec fn is_content(l: Seq<char>) -> bool {
    l.len() > 0 && !"%%"@.is_prefix_of(l)
}

/// Which parser the first non-blank line selects, and its result.
pub open spec fn spec_parse(src: Seq<char>) -> Result<DiagramV, FallbackV> {
    match first_nonblank(lines(src)) {
        None => Err(FallbackV::Empty { kind: "unknown"@ }),
        Some(first) => if "graph"@.is_prefix_of(first) || "flowchart"@.is_prefix_of(first) {
            flow::spec_parse(src)
        } else if "erDiagram"@.is_prefix_of(first) {
            er::spec_parse(src)
        } else if "classDiagram"@.is_prefix_of(first) {
            class::spec_parse(src)
        } else if "stateDiagram"@.is_prefix_of(first) {
            state::spec_parse(src)
        } else if "sequenceDiagram"@.is_prefix_of(first) {
            seq::spec_parse(src)
        } else {
            generic::spec_parse(src)
        },
    }
}

/// The first non-blank line, trimmed.
pub fn first_nonblank_exec(ls: &Vec<Vec<char>>) -> (r: Option<Vec<char>>)
    ensures
        opt_chars(r) == first_nonblank(ls.deep_view()),
{
    let mut i: usize = 0;
    assert(ls.deep_view().skip(0) =~= ls.deep_view());
    while i < ls.len()
        invariant
            i <= ls.len(),
            first_nonblank(ls.deep_view()) == first_nonblank(ls.deep_view().skip(i as int)),
        decreases ls.len() - i,
    {
        proof {
            lemma_chars_deep_view(ls@[i as int]);
            assert(ls.deep_view().skip(i as int).drop_first() =~= ls.deep_view().skip(i + 1));
        }
        let t = trim_slice(ls[i].as_slice());
        if t.len() > 0 {
            return Some(to_vec(t));
        }
        i = i + 1;
    }
    proof {
        assert(ls.deep_view().skip(i as int).len() == 0);
    }
    None
}

/// Index of the first node at or after `i` whose id is `id`.
pub open spec fn node_pos_from(nodes: Seq<NodeV>, id: Seq<char>, i: int) -> Option<int>
    decreases nodes.len() - i,
{
    if i < 0 || i >= nodes.len() {
        None
    } else if nodes[i].id == id {
        Some(i)
    } else {
        node_pos_from(nodes, id, i + 1)
    }
}

/// Index of the first node whose id is `id`.
pub open spec fn node_pos(nodes: Seq<NodeV>, id: Seq<char>) -> Option<int> {
    node_pos_from(nodes, id, 0)
}

pub proof fn lemma_node_pos_from(nodes: Seq<NodeV>, id: Seq<char>, i: int)
    requires
        0 <= i,
    ensures
        node_pos_from(nodes, id, i) matches Some(k) ==> i <= k < nodes.len() && nodes[k].id == id,
        node_pos_from(nodes, id, i) is None ==> forall|j: int|
            i <= j < nodes.len() ==> nodes[j].id != id,
    decreases nodes.len() - i,
{
    if i < nodes.len() && nodes[i].id != id {
        lemma_node_pos_from(nodes, id, i + 1);
    }
}

/// Index of the first node whose id is `id`.
pub fn node_pos_exec(nodes: &Vec<Node>, id: &String) -> (r: Option<usize>)
    ensures
        oi(r) == node_pos(views(nodes@), id@),
{
    let mut i: usize = 0;
    while i < nodes.len()
        invariant
            i <= nodes.len(),
            node_pos(views(nodes@), id@) == node_pos_from(views(nodes@), id@, i as int),
        decreases nodes.len() - i,
    {
        if nodes[i].id == *id {
            return Some(i);
        }
        i = i + 1;
    }
    None
}

/// Whether some string of `v` equals `x`.
pub fn contains_string(v: &Vec<String>, x: &String) -> (r: bool)
    ensures
        r == views(v@).contains(x@),
{
    let mut i: usize = 0;
    while i < v.len()
        invariant
            i <= v.len(),
            forall|j: int| 0 <= j < i ==> views(v@)[j] != x@,
        decreases v.len() - i,
    {
        if v[i] == *x {
            assert(views(v@)[i as int] == x@);
            return true;
        }
        i = i + 1;
    }
    false
}

/// Element-wise equality of two string lists.
pub fn strings_eq(a: &Vec<String>, b: &Vec<String>) -> (r: bool)
    ensures
        r == (views(a@) == views(b@)),
{
    if a.len() != b.len() {
        proof {
            assert(views(a@).len() != views(b@).len());
        }
        return false;
    }
    let mut i: usize = 0;
    while i < a.len()
        invariant
            i <= a.len(),
            a.len() == b.len(),
            forall|j: int| 0 <= j < i ==> views(a@)[j] == views(b@)[j],
        decreases a.len() - i,
    {
        if a[i] != b[i] {
            assert(views(a@)[i as int] != views(b@)[i as int]);
            return false;
        }
        i = i + 1;
    }
    assert(views(a@) =~= views(b@));
    true
}

/// Structural equality of two shapes.
pub fn shape_eq(a: &Shape, b: &Shape) -> (r: bool)
    ensures
        r == (a@ == b@),
{
    match (a, b) {
        (Shape::Box(x), Shape::Box(y)) => *x == *y,
        (Shape::Entity { name: n1, fields: f1 }, Shape::Entity { name: n2, fields: f2 }) => *n1
            == *n2 && strings_eq(f1, f2),
        (
            Shape::Class { name: n1, attrs: a1, methods: m1 },
            Shape::Class { name: n2, attrs: a2, methods: m2 },
        ) => *n1 == *n2 && strings_eq(a1, a2) && strings_eq(m1, m2),
        (Shape::State(x), Shape::State(y)) => *x == *y,
        (Shape::Start, Shape::Start) => true,
        (Shape::End, Shape::End) => true,
        _ => false,
    }
}


/// Parses mermaid source, dispatching on its first non-blank line.
pub fn parse(src: &str) -> (r: Result<Diagram, Fallback>)
    ensures
        result_view(r) == spec_parse(src@),
{
    let chars = chars_of(src);
    let ls = lines_of(chars.as_slice());
    match first_nonblank_exec(&ls) {
        None => Err(super::empty_fallback("unknown")),
        Some(first) => {
            let f = first.as_slice();
            if starts_with_str(f, "graph") || starts_with_str(f, "flowchart") {
                flow::parse(src)
            } else if starts_with_str(f, "erDiagram") {
                er::parse(src)
            } else if starts_with_str(f, "classDiagram") {
                class::parse(src)
            } else if starts_with_str(f, "stateDiagram") {
                state::parse(src)
            } else if starts_with_str(f, "sequenceDiagram") {
                seq::parse(src)
            } else {
                generic::parse(src)
            }
        },
    }
}

} // verus!
