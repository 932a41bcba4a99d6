//! `graph` / `flowchart` diagrams.

use vstd::prelude::*;
use crate::text::{chars_of, concat, contains, contains_char, eq, eq_str, find, find_ch, find_ch_exec, find_ch_from, find_exec, find_from, find_str, is_ws, is_ws_char, join, lemma_chars_deep_view, lemma_find_ch_from_bounds, lemma_find_from_bounds, lemma_find_shift, lemma_rfind_below_bounds, lemma_trim_shape, lemma_ws_back_bounds, lemma_ws_from_bounds, lines, lines_of, lines_state, matches_at, matches_at_exec, oi, push_chars, rfind, rfind_below, rfind_exec, rfind_str, slice_vec, split, split_any, split_any_of, split_any_state, split_exec, split_from, split_once, split_once_ch, starts_with, starts_with_str, string_of, strip_cr, strip_prefix, to_vec, trim, trim_end, trim_slice, trim_start, trim_start_slice, trim_vec, words, words_of, words_state, ws_back, ws_back_exec, ws_from, ws_from_exec};
use super::{Dir, Shape, Node, EdgeStyle, Edge, Subgraph, Diagram, ShapeV, NodeV, EdgeStyleV, EdgeV,
    SubgraphV, DiagramV, views, opt_chars, result_view, is_content, node_pos, node_pos_exec,
    lemma_node_pos_from};
use super::super::{Fallback, FallbackV};

verus! {

broadcast use super::group_views;

// ------------------------------------------------------------ models

/// `LR`/`RL` as the header's second word lays the graph out left to right;
/// anything else top to bottom.
pub open spec fn spec_parse_dir(header: Seq<char>) -> Dir {
    let w = words(header);
    if w.len() > 1 && (w[1] == "LR"@ || w[1] == "RL"@) {
        Dir::LR
    } else {
        Dir::TB
    }
}

/// `id<open>label<close>` with the first `open` and the last `close`.
pub open spec fn bracket_label(t: Seq<char>, open: Seq<char>, close: Seq<char>) -> Option<
    (Seq<char>, Option<Seq<char>>),
> {
    match (find(t, open), rfind(t, close)) {
        (Some(a), Some(b)) => if b > a {
            Some((trim(t.subrange(0, a)), Some(trim(t.subrange(a + open.len(), b)))))
        } else {
            None
        },
        _ => None,
    }
}

/// A node token: its id and, when it carries one in `((..))`, `[..]`,
/// `(..)` or `{..}` (tried in that order), its label.
pub open spec fn spec_node_token(token: Seq<char>) -> (Seq<char>, Option<Seq<char>>) {
    let t = trim(token);
    match bracket_label(t, "(("@, "))"@) {
        Some(r) => r,
        None => match bracket_label(t, "["@, "]"@) {
            Some(r) => r,
            None => match bracket_label(t, "("@, ")"@) {
                Some(r) => r,
                None => match bracket_label(t, "{"@, "}"@) {
                    Some(r) => r,
                    None => (t, None),
                },
            },
        },
    }
}

/// Adds node `id`, or, when it exists still labelled with its own id, gives
/// it `label`.
pub open spec fn spec_upsert(nodes: Seq<NodeV>, id: Seq<char>, label: Option<Seq<char>>) -> Seq<
    NodeV,
> {
    match node_pos(nodes, id) {
        Some(k) => match label {
            Some(l) => match nodes[k].shape {
                ShapeV::Box(ex) => if ex == id {
                    nodes.update(k, NodeV { id: nodes[k].id, shape: ShapeV::Box(l) })
                } else {
                    nodes
                },
                _ => nodes,
            },
            None => nodes,
        },
        None => nodes.push(
            NodeV {
                id,
                shape: ShapeV::Box(
                    match label {
                        Some(l) => l,
                        None => id,
                    },
                ),
            },
        ),
    }
}

pub struct RawEdgeV {
    pub from: Seq<char>,
    pub from_label: Option<Seq<char>>,
    pub to: Seq<char>,
    pub to_label: Option<Seq<char>>,
    pub label: Option<Seq<char>>,
    pub style: EdgeStyleV,
}

pub open spec fn raw_edge(
    left: Seq<char>,
    right: Seq<char>,
    label: Option<Seq<char>>,
    style: EdgeStyleV,
) -> RawEdgeV {
    let (from, from_label) = spec_node_token(left);
    let (to, to_label) = spec_node_token(right);
    RawEdgeV { from, from_label, to, to_label, label, style }
}

/// An edge between each two neighbouring pieces.
pub open spec fn chain(parts: Seq<Seq<char>>, style: EdgeStyleV) -> Seq<RawEdgeV> {
    Seq::new(
        if parts.len() > 0 {
            (parts.len() - 1) as nat
        } else {
            0
        },
        |i: int| raw_edge(parts[i], parts[i + 1], None, style),
    )
}

/// The edges one line declares: `a -->|l| b`, `a -- l --> b`,
/// `a --> b --> c`, or `a --- b --- c`.
pub open spec fn spec_parse_edges(line: Seq<char>) -> Seq<RawEdgeV> {
    match find(line, "-->"@) {
        Some(idx) => {
            let left = line.subrange(0, idx);
            let right = line.subrange(idx + 3, line.len() as int);
            let piped = match strip_prefix(right, "|"@) {
                Some(rest) => match find_ch(rest, '|') {
                    Some(e) => Some(
                        raw_edge(
                            left,
                            rest.subrange(e + 1, rest.len() as int),
                            Some(trim(rest.subrange(0, e))),
                            EdgeStyleV::Arrow,
                        ),
                    ),
                    None => None,
                },
                None => None,
            };
            match piped {
                Some(r) => seq![r],
                None => match find(left, "--"@) {
                    Some(d) => {
                        let lab = trim(left.subrange(d + 2, left.len() as int));
                        seq![
                            raw_edge(
                                left.subrange(0, d),
                                right,
                                if lab.len() == 0 {
                                    None
                                } else {
                                    Some(lab)
                                },
                                EdgeStyleV::Arrow,
                            ),
                        ]
                    },
                    None => chain(split(line, "-->"@), EdgeStyleV::Arrow),
                },
            }
        },
        None => if contains(line, "---"@) {
            chain(split(line, "---"@), EdgeStyleV::Line)
        } else {
            Seq::empty()
        },
    }
}

pub struct FlowState {
    pub header: Option<Dir>,
    pub nodes: Seq<NodeV>,
    pub edges: Seq<EdgeV>,
    pub groups: Seq<SubgraphV>,
    pub cur: Option<(Seq<char>, Seq<Seq<char>>)>,
}

/// Records `x` as a member of the open subgraph, if any.
pub open spec fn add_member(
    cur: Option<(Seq<char>, Seq<Seq<char>>)>,
    x: Seq<char>,
) -> Option<(Seq<char>, Seq<Seq<char>>)> {
    match cur {
        Some((t, m)) => Some((t, m.push(x))),
        None => None,
    }
}

pub open spec fn add_raw(st: FlowState, r: RawEdgeV) -> FlowState {
    FlowState {
        nodes: spec_upsert(spec_upsert(st.nodes, r.from, r.from_label), r.to, r.to_label),
        cur: add_member(add_member(st.cur, r.from), r.to),
        edges: st.edges.push(EdgeV { from: r.from, to: r.to, label: r.label, style: r.style }),
        ..st
    }
}

pub open spec fn add_raws(st: FlowState, rs: Seq<RawEdgeV>) -> FlowState
    decreases rs.len(),
{
    if rs.len() == 0 {
        st
    } else {
        add_raw(add_raws(st, rs.drop_last()), rs.last())
    }
}

/// One content line after the header.
pub open spec fn body_step(st: FlowState, l: Seq<char>) -> FlowState {
    match strip_prefix(l, "subgraph"@) {
        Some(t) => FlowState { cur: Some((trim(t), Seq::empty())), ..st },
        None => if l == "end"@ {
            match st.cur {
                Some((t, m)) => FlowState {
                    groups: st.groups.push(SubgraphV { title: t, members: m }),
                    cur: None,
                    ..st
                },
                None => st,
            }
        } else {
            let raws = spec_parse_edges(l);
            if raws.len() > 0 {
                add_raws(st, raws)
            } else {
                let (id, label) = spec_node_token(l);
                if id.len() > 0 {
                    FlowState {
                        nodes: spec_upsert(st.nodes, id, label),
                        cur: add_member(st.cur, id),
                        ..st
                    }
                } else {
                    st
                }
            }
        },
    }
}

pub open spec fn step(st: FlowState, raw: Seq<char>) -> FlowState {
    let l = trim(raw);
    if !is_content(l) {
        st
    } else if st.header is None {
        FlowState { header: Some(spec_parse_dir(l)), ..st }
    } else {
        body_step(st, l)
    }
}

pub open spec fn fold(ls: Seq<Seq<char>>) -> FlowState
    decreases ls.len(),
{
    if ls.len() == 0 {
        FlowState {
            header: None,
            nodes: Seq::empty(),
            edges: Seq::empty(),
            groups: Seq::empty(),
            cur: None,
        }
    } else {
        step(fold(ls.drop_last()), ls.last())
    }
}

/// A flowchart: the header line picks the direction; nodes, edges and
/// subgraphs come from the lines after it.
pub open spec fn spec_parse(src: Seq<char>) -> Result<DiagramV, FallbackV> {
    let st = fold(lines(src));
    match st.header {
        None => Err(FallbackV::Empty { kind: "flowchart"@ }),
        Some(dir) => if st.nodes.len() == 0 {
            Err(FallbackV::Empty { kind: "flowchart"@ })
        } else {
            Ok(DiagramV::Graph { dir, nodes: st.nodes, edges: st.edges, groups: st.groups })
        },
    }
}

proof fn lemma_add_raws_header(st: FlowState, rs: Seq<RawEdgeV>)
    ensures
        add_raws(st, rs).header == st.header,
    decreases rs.len(),
{
    if rs.len() > 0 {
        lemma_add_raws_header(st, rs.drop_last());
    }
}

proof fn lemma_body_step_header(st: FlowState, l: Seq<char>)
    ensures
        body_step(st, l).header == st.header,
{
    lemma_add_raws_header(st, spec_parse_edges(l));
}

proof fn lemma_fold_header(ls: Seq<Seq<char>>)
    requires
        ls.len() > 0,
        is_content(trim(ls[0])),
    ensures
        fold(ls).header == Some(spec_parse_dir(trim(ls[0]))),
    decreases ls.len(),
{
    if ls.len() == 1 {
        assert(ls.drop_last().len() == 0);
    } else {
        assert(ls.drop_last()[0] == ls[0]);
        lemma_fold_header(ls.drop_last());
        lemma_body_step_header(fold(ls.drop_last()), trim(ls.last()));
    }
}

/// A header whose direction word is `RL` lays the graph out left to
/// right, as `LR` does.
pub proof fn law_rl_header_is_left_to_right(header: Seq<char>)
    requires
        words(header).len() > 1,
        words(header)[1] == "RL"@,
    ensures
        spec_parse_dir(header) == Dir::LR,
{
}

/// A flowchart whose first line is `graph RL` or `flowchart RL` (any first
/// word, `RL` second) parses, when it parses, into a graph laid out left to
/// right.
pub proof fn law_rl_flowchart_is_left_to_right(src: Seq<char>)
    requires
        lines(src).len() > 0,
        is_content(trim(lines(src)[0])),
        words(trim(lines(src)[0])).len() > 1,
        words(trim(lines(src)[0]))[1] == "RL"@,
    ensures
        match spec_parse(src) {
            Ok(DiagramV::Graph { dir, .. }) => dir == Dir::LR,
            _ => true,
        },
{
    lemma_fold_header(lines(src));
}

/// Only `LR` and `RL` lay a graph out left to right: a header with any
/// other second word, or none, lays it out top to bottom.
pub proof fn law_other_headers_are_top_to_bottom(header: Seq<char>)
    requires
        !(words(header).len() > 1 && (words(header)[1] == "LR"@ || words(header)[1] == "RL"@)),
    ensures
        spec_parse_dir(header) == Dir::TB,
{
}

/// The `LR` header lays the graph out left to right.
pub proof fn law_lr_header_is_left_to_right(header: Seq<char>)
    requires
        words(header).len() > 1,
        words(header)[1] == "LR"@,
    ensures
        spec_parse_dir(header) == Dir::LR,
{
}

// ------------------------------------------------------------ exec

fn parse_dir(header: &[char]) -> (d: Dir)
    ensures
        d == spec_parse_dir(header@),
{
    let w = words_of(header);
    proof {
        if w.len() > 1 {
            lemma_chars_deep_view(w@[1]);
        }
    }
    if w.len() > 1 && (eq_str(w[1].as_slice(), "LR") || eq_str(w[1].as_slice(), "RL")) {
        Dir::LR
    } else {
        Dir::TB
    }
}

fn bracket_exec(t: &[char], open: &str, close: &str) -> (r: Option<(Vec<char>, Option<Vec<char>>)>)
    requires
        open@.len() == 1 || (open@ == "(("@ && close@ == "))"@),
    ensures
        match r {
            Some((id, l)) => bracket_label(t@, open@, close@) == Some((id@, opt_chars(l))),
            None => bracket_label(t@, open@, close@) is None,
        },
{
    proof {
        reveal_strlit("((");
        reveal_strlit("))");
    }
    let a = find_str(t, open);
    let b = rfind_str(t, close);
    match (a, b) {
        (Some(a), Some(b)) => {
            if b > a {
                proof {
                    lemma_find_from_bounds(t@, open@, 0);
                    lemma_rfind_below_bounds(t@, close@, t@.len() - close@.len());
                    if open@.len() == 2 && b == a + 1 {
                        assert(t@.subrange(a as int, a + 2)[1] == open@[1]);
                        assert(t@.subrange(b as int, b + 2)[0] == close@[0]);
                    }
                    assert(a + open@.len() <= b);
                }
                let ol = chars_of(open).len();
                let id = trim_vec(&t[0..a]);
                let label = trim_vec(&t[a + ol..b]);
                Some((id, Some(label)))
            } else {
                None
            }
        },
        _ => None,
    }
}

fn parse_node_token(token: &[char]) -> (r: (Vec<char>, Option<Vec<char>>))
    ensures
        (r.0@, opt_chars(r.1)) == spec_node_token(token@),
{
    let t = trim_slice(token);
    proof {
        reveal_strlit("[");
        reveal_strlit("(");
        reveal_strlit("{");
    }
    if let Some(r) = bracket_exec(t, "((", "))") {
        return r;
    }
    if let Some(r) = bracket_exec(t, "[", "]") {
        return r;
    }
    if let Some(r) = bracket_exec(t, "(", ")") {
        return r;
    }
    if let Some(r) = bracket_exec(t, "{", "}") {
        return r;
    }
    (to_vec(t), None)
}

fn upsert_node(nodes: &mut Vec<Node>, id: &[char], label: Option<Vec<char>>)
    ensures
        views(final(nodes)@) == spec_upsert(views(old(nodes)@), id@, opt_chars(label)),
{
    let ids = string_of(id);
    match node_pos_exec(nodes, &ids) {
        Some(k) => {
            proof {
                lemma_node_pos_from(views(nodes@), id@, 0);
            }
            match label {
                Some(l) => {
                    let relabel = match &nodes[k].shape {
                        Shape::Box(ex) => *ex == ids,
                        _ => false,
                    };
                    if relabel {
                        let nid = nodes[k].id.clone();
                        let node = Node { id: nid, shape: Shape::Box(string_of(l.as_slice())) };
                        nodes.set(k, node);
                    }
                },
                None => {},
            }
        },
        None => {
            let text = match label {
                Some(l) => string_of(l.as_slice()),
                None => string_of(id),
            };
            nodes.push(Node { id: ids, shape: Shape::Box(text) });
        },
    }
}

struct RawEdge {
    from: Vec<char>,
    from_label: Option<Vec<char>>,
    to: Vec<char>,
    to_label: Option<Vec<char>>,
    label: Option<Vec<char>>,
    style: EdgeStyle,
}

impl View for RawEdge {
    type V = RawEdgeV;

    closed spec fn view(&self) -> RawEdgeV {
        RawEdgeV {
            from: self.from@,
            from_label: opt_chars(self.from_label),
            to: self.to@,
            to_label: opt_chars(self.to_label),
            label: opt_chars(self.label),
            style: self.style@,
        }
    }
}

fn make_raw(left: &[char], right: &[char], label: Option<Vec<char>>, style: EdgeStyle) -> (r:
    RawEdge)
    ensures
        r@ == raw_edge(left@, right@, opt_chars(label), style@),
{
    let (from, from_label) = parse_node_token(left);
    let (to, to_label) = parse_node_token(right);
    RawEdge { from, from_label, to, to_label, label, style }
}

fn chain_exec(parts: &Vec<Vec<char>>, line_style: bool) -> (r: Vec<RawEdge>)
    ensures
        views(r@) == chain(parts.deep_view(), if line_style {
            EdgeStyleV::Line
        } else {
            EdgeStyleV::Arrow
        }),
{
    let ghost style = if line_style {
        EdgeStyleV::Line
    } else {
        EdgeStyleV::Arrow
    };
    let mut out: Vec<RawEdge> = Vec::new();
    if parts.len() == 0 {
        assert(views(out@) =~= chain(parts.deep_view(), style));
        return out;
    }
    let mut i: usize = 0;
    while i + 1 < parts.len()
        invariant
            i + 1 <= parts.len(),
            style == (if line_style {
                EdgeStyleV::Line
            } else {
                EdgeStyleV::Arrow
            }),
            views(out@) == chain(parts.deep_view(), style).take(i as int),
        decreases parts.len() - i,
    {
        proof {
            lemma_chars_deep_view(parts@[i as int]);
            lemma_chars_deep_view(parts@[i + 1]);
        }
        let st = if line_style {
            EdgeStyle::Line
        } else {
            EdgeStyle::Arrow
        };
        let r = make_raw(parts[i].as_slice(), parts[i + 1].as_slice(), None, st);
        assert(st@ == style);
        assert(parts.deep_view()[i as int] == parts@[i as int]@);
        assert(parts.deep_view()[i + 1] == parts@[i + 1]@);
        assert(r@ == chain(parts.deep_view(), style)[i as int]);
        out.push(r);
        i = i + 1;
        assert(chain(parts.deep_view(), style).take(i as int) =~= chain(
            parts.deep_view(),
            style,
        ).take(i - 1).push(chain(parts.deep_view(), style)[i - 1]));
    }
    assert(chain(parts.deep_view(), style).take(i as int) =~= chain(parts.deep_view(), style));
    out
}

fn parse_edges(line: &[char]) -> (r: Vec<RawEdge>)
    ensures
        views(r@) == spec_parse_edges(line@),
{
    match find_str(line, "-->") {
        Some(idx) => {
            proof {
                lemma_find_from_bounds(line@, "-->"@, 0);
                reveal_strlit("-->");
                assert(matches_at(line@, "-->"@, idx as int));
                assert(idx + 3 <= line.len());
            }
            let left = &line[0..idx];
            let right = &line[idx + 3..line.len()];
            if starts_with_str(right, "|") {
                proof {
                    reveal_strlit("|");
                }
                let rest = &right[1..right.len()];
                match find_ch_exec(rest, '|') {
                    Some(e) => {
                        proof {
                            lemma_find_ch_from_bounds(rest@, '|', 0);
                        }
                        let label = trim_vec(&rest[0..e]);
                        let r = make_raw(
                            left,
                            &rest[e + 1..rest.len()],
                            Some(label),
                            EdgeStyle::Arrow,
                        );
                        let mut out: Vec<RawEdge> = Vec::new();
                        out.push(r);
                        assert(views(out@) =~= seq![r@]);
                        return out;
                    },
                    None => {},
                }
            }
            match find_str(left, "--") {
                Some(d) => {
                    proof {
                        lemma_find_from_bounds(left@, "--"@, 0);
                        reveal_strlit("--");
                    }
                    let lab = trim_vec(&left[d + 2..left.len()]);
                    let label = if lab.len() == 0 {
                        None
                    } else {
                        Some(lab)
                    };
                    let r = make_raw(&left[0..d], right, label, EdgeStyle::Arrow);
                    let mut out: Vec<RawEdge> = Vec::new();
                    out.push(r);
                    assert(views(out@) =~= seq![r@]);
                    out
                },
                None => {
                    let pat = chars_of("-->");
                    let parts = split_exec(line, pat.as_slice());
                    chain_exec(&parts, false)
                },
            }
        },
        None => {
            match find_str(line, "---") {
                Some(_) => {
                    proof {
                        reveal_strlit("---");
                    }
                    let pat = chars_of("---");
                    let parts = split_exec(line, pat.as_slice());
                    chain_exec(&parts, true)
                },
                None => {
                    let out: Vec<RawEdge> = Vec::new();
                    assert(views(out@) =~= Seq::<RawEdgeV>::empty());
                    out
                },
            }
        },
    }
}

struct FlowAcc {
    header: Option<Dir>,
    nodes: Vec<Node>,
    edges: Vec<Edge>,
    groups: Vec<Subgraph>,
    cur: Option<(String, Vec<String>)>,
}

spec fn cur_view(c: Option<(String, Vec<String>)>) -> Option<(Seq<char>, Seq<Seq<char>>)> {
    match c {
        Some((t, m)) => Some((t@, views(m@))),
        None => None,
    }
}

impl View for FlowAcc {
    type V = FlowState;

    closed spec fn view(&self) -> FlowState {
        FlowState {
            header: self.header,
            nodes: views(self.nodes@),
            edges: views(self.edges@),
            groups: views(self.groups@),
            cur: cur_view(self.cur),
        }
    }
}

fn add_member_exec(cur: Option<(String, Vec<String>)>, x: &[char]) -> (r: Option<
    (String, Vec<String>),
>)
    ensures
        cur_view(r) == add_member(cur_view(cur), x@),
{
    match cur {
        Some((t, m)) => {
            let mut m = m;
            m.push(string_of(x));
            Some((t, m))
        },
        None => None,
    }
}

fn add_raw_exec(acc: &mut FlowAcc, r: RawEdge)
    ensures
        final(acc)@ == add_raw(old(acc)@, r@),
{
    let RawEdge { from, from_label, to, to_label, label, style } = r;
    upsert_node(&mut acc.nodes, from.as_slice(), from_label);
    upsert_node(&mut acc.nodes, to.as_slice(), to_label);
    let cur = acc.cur.take();
    let cur = add_member_exec(cur, from.as_slice());
    acc.cur = add_member_exec(cur, to.as_slice());
    let lab = match label {
        Some(l) => Some(string_of(l.as_slice())),
        None => None,
    };
    acc.edges.push(Edge { from: string_of(from.as_slice()), to: string_of(to.as_slice()), label: lab, style });
}

fn body_step_exec(acc: &mut FlowAcc, l: &[char])
    ensures
        final(acc)@ == body_step(old(acc)@, l@),
{
    if starts_with_str(l, "subgraph") {
        let n = chars_of("subgraph").len();
        let title = trim_vec(&l[n..l.len()]);
        acc.cur = Some((string_of(title.as_slice()), Vec::new()));
        proof {
            assert(views(Seq::<String>::empty()) =~= Seq::<Seq<char>>::empty());
        }
        return;
    }
    if eq_str(l, "end") {
        let cur = acc.cur.take();
        match cur {
            Some((t, m)) => {
                acc.groups.push(Subgraph { title: t, members: m });
            },
            None => {},
        }
        return;
    }
    let raws = parse_edges(l);
    if raws.len() > 0 {
        let ghost start = acc@;
        let ghost rv = views(raws@);
        let mut raws = raws;
        let n = raws.len();
        let mut i: usize = 0;
        while i < n
            invariant
                i <= n,
                n == rv.len(),
                views(raws@) == rv.skip(i as int),
                raws@.len() == n - i,
                acc@ == add_raws(start, rv.take(i as int)),
            decreases n - i,
        {
            let ghost before = raws@;
            let r = raws.remove(0);
            proof {
                assert(rv.take(i + 1).drop_last() =~= rv.take(i as int));
                assert(views(before)[0] == r@);
                assert(r@ == rv.skip(i as int)[0]);
                assert(raws@ =~= before.subrange(1, before.len() as int));
                assert forall|j: int| 0 <= j < raws@.len() implies views(raws@)[j] == rv.skip(
                    i + 1,
                )[j] by {
                    assert(views(before)[j + 1] == rv.skip(i as int)[j + 1]);
                }
                assert(views(raws@) =~= rv.skip(i + 1));
            }
            add_raw_exec(acc, r);
            i = i + 1;
        }
        assert(rv.take(n as int) =~= rv);
        return;
    }
    let (id, label) = parse_node_token(l);
    if id.len() > 0 {
        upsert_node(&mut acc.nodes, id.as_slice(), label);
        let cur = acc.cur.take();
        acc.cur = add_member_exec(cur, id.as_slice());
    }
}

fn step_exec(acc: &mut FlowAcc, raw: &[char])
    ensures
        final(acc)@ == step(old(acc)@, raw@),
{
    let l = trim_slice(raw);
    if l.len() == 0 || starts_with_str(l, "%%") {
        return;
    }
    if acc.header.is_none() {
        acc.header = Some(parse_dir(l));
        return;
    }
    body_step_exec(acc, l);
}

/// Parses a `graph` / `flowchart` diagram.
pub fn parse(src: &str) -> (r: Result<Diagram, Fallback>)
    ensures
        result_view(r) == spec_parse(src@),
{
    let chars = chars_of(src);
    let ls = lines_of(chars.as_slice());
    let mut acc = FlowAcc {
        header: None,
        nodes: Vec::new(),
        edges: Vec::new(),
        groups: Vec::new(),
        cur: None,
    };
    proof {
        assert(ls.deep_view().take(0) =~= Seq::<Seq<char>>::empty());
        assert(views(acc.nodes@) =~= Seq::<NodeV>::empty());
        assert(views(acc.edges@) =~= Seq::<EdgeV>::empty());
        assert(views(acc.groups@) =~= Seq::<SubgraphV>::empty());
    }
    let mut i: usize = 0;
    while i < ls.len()
        invariant
            i <= ls.len(),
            acc@ == fold(ls.deep_view().take(i as int)),
        decreases ls.len() - i,
    {
        proof {
            lemma_chars_deep_view(ls@[i as int]);
            assert(ls.deep_view().take(i + 1).drop_last() =~= ls.deep_view().take(i as int));
        }
        step_exec(&mut acc, ls[i].as_slice());
        i = i + 1;
    }
    assert(ls.deep_view().take(ls.len() as int) =~= ls.deep_view());
    let FlowAcc { header, nodes, edges, groups, cur: _ } = acc;
    match header {
        None => Err(super::super::empty_fallback("flowchart")),
        Some(dir) => {
            if nodes.len() == 0 {
                Err(super::super::empty_fallback("flowchart"))
            } else {
                Ok(Diagram::Graph { dir, nodes, edges, groups })
            }
        },
    }
}

} // verus!
