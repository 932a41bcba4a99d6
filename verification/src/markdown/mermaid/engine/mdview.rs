//! The `mdview` engine: a layered layout of graph-shaped diagrams. Nodes
//! are ranked top to bottom by the longest path reaching them (a subgraph
//! is ranked as one cluster), ordered within each rank by barycenters,
//! packed left to right with subgraph members kept together, and wired
//! through bands between the ranks; an edge that points back up takes a
//! gutter on the right. The declared direction is not used: every diagram
//! stacks top to bottom.
//!
//! Labels are wrapped at 30 columns, then at narrower caps down to 9;
//! after that the bodies of class and entity boxes are folded to their
//! names, and as a last resort a rank that is too wide is split into
//! several rows. `Overflow` when even that does not fit.

use vstd::prelude::*;
use super::GraphEngine;
use super::builtin::builtin_kind;
use super::super::canvas::{Canvas, is_connector_char, same_outside};
use super::super::parse::{Diagram, DiagramV, EdgeStyle as PEdgeStyle, Node, Shape as PShape};
use super::super::{kind_of, sniff_kind, Fallback, FallbackV};
use crate::text::{chars_of, string_of, to_vec, trim_slice, words_of};
use crate::width::{char_cols, chars_width, cw, sat, str_width};
use crate::spec::meta::str_eq;

verus! {

// ---------------------------------------------------------------- model

/// How a node box is drawn.
#[derive(Clone, Copy)]
#[allow(dead_code)]
enum MShape {
    Rect,
    Round,
    Diamond,
    Cylinder,
    Subroutine,
    Circle,
}

/// The mark at one end of an edge.
#[derive(Clone, Copy)]
#[allow(dead_code)]
enum MArrow {
    Plain,
    Open,
    Hollow,
    Diamond,
    HollowDiamond,
    Cross,
}

/// The line that stands for a divider between the compartments of a box.
const DIVIDER: char = '\u{1}';

struct GNode {
    lines: Vec<Vec<char>>,
    shape: MShape,
    group: Option<usize>,
    left_align: bool,
    header: bool,
}

struct GEdge {
    from: usize,
    to: usize,
    label: Vec<char>,
    head: MArrow,
    tail: MArrow,
    head_tag: Vec<char>,
    tail_tag: Vec<char>,
}

struct MGroup {
    title: Vec<char>,
    members: Vec<usize>,
}

/// The members of each group.
spec fn group_members(gs: Seq<MGroup>) -> Seq<Seq<usize>> {
    gs.map_values(|g: MGroup| g.members@)
}

/// Whether a rank holds a node below `n` that is a member.
spec fn rank_hit(rank: Seq<usize>, members: Seq<usize>, n: int) -> bool {
    exists|q: int| 0 <= q < rank.len() && #[trigger] rank[q] < n && members.contains(rank[q])
}

/// The first and last of the first `r` ranks that hold a member.
spec fn span_upto(ranks: Seq<Seq<usize>>, members: Seq<usize>, n: int, r: int) -> Option<(int, int)>
    decreases r,
{
    if r <= 0 {
        None
    } else {
        let hit = rank_hit(ranks[r - 1], members, n);
        match span_upto(ranks, members, n, r - 1) {
            None => if hit { Some((r - 1, r - 1)) } else { None },
            Some(s) => if hit { Some((s.0, r - 1)) } else { Some(s) },
        }
    }
}

/// `(group, first, last)` for each group with a member in `ranks`.
spec fn rank_spans(gm: Seq<Seq<usize>>, ranks: Seq<Seq<usize>>, n: int) -> Seq<(usize, usize, usize)>
    decreases gm.len(),
{
    if gm.len() == 0 {
        Seq::empty()
    } else {
        rank_spans(gm.drop_last(), ranks, n) + match span_upto(ranks, gm.last(), n, ranks.len() as int) {
            Some(s) => seq![((gm.len() - 1) as usize, s.0 as usize, s.1 as usize)],
            None => Seq::empty(),
        }
    }
}

struct Graph {
    nodes: Vec<GNode>,
    edges: Vec<GEdge>,
    groups: Vec<MGroup>,
}

/// Every value of `v` is below `b`.
spec fn below(v: Seq<usize>, b: int) -> bool {
    forall|k: int| 0 <= k < v.len() ==> v[k] < b
}

/// Every value of every row of `rows` is below `b`.
spec fn rows_below(rows: Seq<Vec<usize>>, b: int) -> bool {
    forall|k: int, j: int| 0 <= k < rows.len() && 0 <= j < rows[k]@.len() ==> rows[k]@[j] < b
}

/// The largest node, edge or group count the layout takes on.
spec fn size_limit() -> int {
    0x1000_0000
}

impl Graph {
    /// Edge ends and group members are nodes, node groups are groups, and
    /// the counts stay far from `usize::MAX`.
    spec fn wf(&self) -> bool {
        &&& forall|e: int| 0 <= e < self.edges@.len() ==> self.edges@[e].from < self.nodes@.len()
            && self.edges@[e].to < self.nodes@.len()
        &&& forall|g: int| 0 <= g < self.groups@.len() ==> below(#[trigger] self.groups@[g].members@, self.nodes@.len() as int)
        &&& forall|i: int| 0 <= i < self.nodes@.len() ==> ((#[trigger] self.nodes@[i]).group matches Some(g) ==> g < self.groups@.len())
        &&& self.nodes@.len() < size_limit()
        &&& self.edges@.len() < size_limit()
        &&& self.groups@.len() < size_limit()
    }
}

// ---------------------------------------------------------------- text helpers

/// Whether a box line is the divider.
fn is_divider(l: &Vec<char>) -> (r: bool)
    ensures
        r == (l@ == seq![DIVIDER]),
{
    if l.len() == 1 && l[0] == DIVIDER {
        assert(l@ =~= seq![DIVIDER]);
        true
    } else {
        false
    }
}

fn divider_line() -> (r: Vec<char>)
    ensures
        r@ == seq![DIVIDER],
{
    let mut v: Vec<char> = Vec::new();
    v.push(DIVIDER);
    assert(v@ =~= seq![DIVIDER]);
    v
}

fn one_char(c: char) -> (r: Vec<char>)
    ensures
        r@ == seq![c],
{
    let mut v: Vec<char> = Vec::new();
    v.push(c);
    assert(v@ =~= seq![c]);
    v
}

/// How many leading characters of `s`, from `i` on, fit in `budget`
/// columns, counted from the start: characters are taken until one does
/// not fit.
spec fn fit_len(s: Seq<char>, budget: nat, i: int) -> int
    decreases s.len() - i,
{
    if i < 0 || i >= s.len() || cw(s[i]) > budget {
        if i < 0 { 0 } else { i }
    } else {
        fit_len(s, (budget - cw(s[i])) as nat, i + 1)
    }
}

/// `s` when it fits `max` columns; otherwise the longest prefix fitting
/// `max - 1` columns followed by `…` (nothing at all for a zero budget).
spec fn truncated(s: Seq<char>, max: usize) -> Seq<char> {
    if sat(str_width(s)) <= max {
        s
    } else if max == 0 {
        Seq::empty()
    } else {
        s.take(fit_len(s, (max - 1) as nat, 0)) + seq!['…']
    }
}

/// Shortens `s` to at most `max` columns, ending in `…` when it is cut.
#[verifier::loop_isolation(false)]
fn truncate(s: &Vec<char>, max: usize) -> (r: Vec<char>)
    ensures
        r@ == truncated(s@, max),
{
    if chars_width(s.as_slice()) <= max {
        return to_vec(s.as_slice());
    }
    if max == 0 {
        return Vec::new();
    }
    let mut out: Vec<char> = Vec::new();
    let mut w: usize = 0;
    let mut i: usize = 0;
    while i < s.len()
        invariant
            i <= s@.len(),
            max >= 1,
            w <= max - 1,
            out@ == s@.take(i as int),
            fit_len(s@, (max - 1) as nat, 0) == fit_len(s@, (max - 1 - w) as nat, i as int),
        decreases s.len() - i,
    {
        let cw = char_cols(s[i]);
        if cw > max - 1 - w {
            break;
        }
        out.push(s[i]);
        w = w + cw;
        i = i + 1;
        assert(out@ =~= s@.take(i as int));
    }
    assert(fit_len(s@, (max - 1 - w) as nat, i as int) == i);
    out.push('…');
    out
}

/// Splits a label into lines of at most `cap` columns: at whitespace
/// first, inside a word where one word alone is too wide.
#[verifier::loop_isolation(false)]
fn wrap_label(s: &Vec<char>, cap: usize) -> (r: Vec<Vec<char>>)
    requires
        cap >= 3,
    ensures
        r@.len() >= 1,
{
    let t = trim_slice(s.as_slice());
    let mut out: Vec<Vec<char>> = Vec::new();
    if t.len() == 0 {
        out.push(Vec::new());
        return out;
    }
    if chars_width(t) <= cap {
        out.push(to_vec(t));
        return out;
    }
    let words = words_of(t);
    let mut cur: Vec<char> = Vec::new();
    let mut k: usize = 0;
    while k < words.len()
        invariant
            k <= words@.len(),
            cap >= 3,
        decreases words.len() - k,
    {
        let word = &words[k];
        let ww = chars_width(word.as_slice());
        if cur.len() == 0 {
            cur = word.clone();
        } else {
            let cw = chars_width(cur.as_slice());
            if cw.saturating_add(1).saturating_add(ww) <= cap {
                cur.push(' ');
                let mut j: usize = 0;
                while j < word.len()
                    invariant
                        j <= word@.len(),
                    decreases word.len() - j,
                {
                    cur.push(word[j]);
                    j = j + 1;
                }
            } else {
                out.push(cur);
                cur = word.clone();
            }
        }
        while chars_width(cur.as_slice()) > cap
            invariant
                cap >= 3,
            decreases cur@.len(),
        {
            let mut head: Vec<char> = Vec::new();
            let mut rest: Vec<char> = Vec::new();
            let mut wsum: usize = 0;
            let mut q: usize = 0;
            while q < cur.len()
                invariant
                    q <= cur@.len(),
                    wsum <= cap,
                    cap >= 3,
                    q == 0 ==> wsum == 0 && rest@.len() == 0,
                    head@.len() + rest@.len() == q,
                    q >= 1 ==> head@.len() >= 1,
                decreases cur.len() - q,
            {
                let ch = cur[q];
                let cw = char_cols(ch);
                if cw <= cap - wsum && rest.len() == 0 {
                    head.push(ch);
                    wsum = wsum + cw;
                } else {
                    rest.push(ch);
                }
                q = q + 1;
            }
            out.push(head);
            cur = rest;
        }
        k = k + 1;
    }
    if cur.len() > 0 {
        out.push(cur);
    }
    if out.len() == 0 {
        out.push(Vec::new());
    }
    out
}

// ---------------------------------------------------------------- adapter

spec fn str_views(xs: Seq<String>) -> Seq<Seq<char>> {
    xs.map_values(|x: String| x@)
}

spec fn line_views(xs: Seq<Vec<char>>) -> Seq<Seq<char>> {
    xs.map_values(|x: Vec<char>| x@)
}

/// A node's box lines, shape, alignment and header flag: a box's label in
/// a rectangle, a state's name in a rounded box, `●` or `◉` in a circle
/// for start and end; an entity's name, a divider and its fields, or a
/// class's name, a divider, its attributes, a divider and its methods, in
/// a left-aligned rectangle with a header.
spec fn shape_spec(shape: PShape) -> (Seq<Seq<char>>, MShape, bool, bool) {
    match shape {
        PShape::Box(l) => (seq![l@], MShape::Rect, false, false),
        PShape::State(n) => (seq![n@], MShape::Round, false, false),
        PShape::Start => (seq![seq!['\u{25cf}']], MShape::Circle, false, false),
        PShape::End => (seq![seq!['\u{25c9}']], MShape::Circle, false, false),
        PShape::Entity { name, fields } => (seq![name@, seq![DIVIDER]] + str_views(fields@), MShape::Rect, true, true),
        PShape::Class { name, attrs, methods } => (
            seq![name@, seq![DIVIDER]] + str_views(attrs@) + seq![seq![DIVIDER]] + str_views(methods@),
            MShape::Rect,
            true,
            true,
        ),
    }
}

fn push_lines(v: &mut Vec<Vec<char>>, xs: &Vec<String>)
    ensures
        line_views(final(v)@) == line_views(old(v)@) + str_views(xs@),
{
    let mut i: usize = 0;
    while i < xs.len()
        invariant
            i <= xs@.len(),
            line_views(v@) == line_views(old(v)@) + str_views(xs@.take(i as int)),
        decreases xs.len() - i,
    {
        let ghost before = v@;
        v.push(chars_of(xs[i].as_str()));
        i = i + 1;
        assert(line_views(v@) =~= line_views(old(v)@) + str_views(xs@.take(i as int))) by {
            assert(line_views(v@) =~= line_views(before).push(xs@[i - 1]@));
            assert(str_views(xs@.take(i as int)) =~= str_views(xs@.take(i - 1)).push(xs@[i - 1]@));
        }
    }
    assert(xs@.take(xs@.len() as int) =~= xs@);
}

/// The box lines, shape, alignment and header flag of a parsed node.
fn shape_lines(shape: &PShape) -> (r: (Vec<Vec<char>>, MShape, bool, bool))
    ensures
        line_views(r.0@) == shape_spec(*shape).0,
        r.1 == shape_spec(*shape).1,
        r.2 == shape_spec(*shape).2,
        r.3 == shape_spec(*shape).3,
{
    match shape {
        PShape::Box(label) => {
            let mut v: Vec<Vec<char>> = Vec::new();
            v.push(chars_of(label.as_str()));
            (v, MShape::Rect, false, false)
        },
        PShape::State(name) => {
            let mut v: Vec<Vec<char>> = Vec::new();
            v.push(chars_of(name.as_str()));
            (v, MShape::Round, false, false)
        },
        PShape::Start => {
            let mut v: Vec<Vec<char>> = Vec::new();
            v.push(one_char('\u{25cf}'));
            (v, MShape::Circle, false, false)
        },
        PShape::End => {
            let mut v: Vec<Vec<char>> = Vec::new();
            v.push(one_char('\u{25c9}'));
            (v, MShape::Circle, false, false)
        },
        PShape::Entity { name, fields } => {
            let mut v: Vec<Vec<char>> = Vec::new();
            v.push(chars_of(name.as_str()));
            v.push(divider_line());
            assert(line_views(v@) =~= seq![name@, seq![DIVIDER]]);
            push_lines(&mut v, fields);
            (v, MShape::Rect, true, true)
        },
        PShape::Class { name, attrs, methods } => {
            let mut v: Vec<Vec<char>> = Vec::new();
            v.push(chars_of(name.as_str()));
            v.push(divider_line());
            assert(line_views(v@) =~= seq![name@, seq![DIVIDER]]);
            push_lines(&mut v, attrs);
            let ghost mid = line_views(v@);
            v.push(divider_line());
            assert(line_views(v@) =~= mid + seq![seq![DIVIDER]]);
            push_lines(&mut v, methods);
            (v, MShape::Rect, true, true)
        },
    }
}

/// The marks at the `from` and `to` ends of an edge style, and the
/// cardinalities written beside them.
spec fn style_marks(style: PEdgeStyle) -> (MArrow, MArrow, Seq<char>, Seq<char>) {
    match style {
        PEdgeStyle::Arrow => (MArrow::Plain, MArrow::Open, Seq::empty(), Seq::empty()),
        PEdgeStyle::Line => (MArrow::Plain, MArrow::Plain, Seq::empty(), Seq::empty()),
        PEdgeStyle::Cardinality(t, h) => (MArrow::Plain, MArrow::Plain, t@, h@),
        PEdgeStyle::Inherit => (MArrow::Plain, MArrow::Hollow, Seq::empty(), Seq::empty()),
        PEdgeStyle::Compose => (MArrow::Diamond, MArrow::Plain, Seq::empty(), Seq::empty()),
        PEdgeStyle::Aggregate => (MArrow::HollowDiamond, MArrow::Plain, Seq::empty(), Seq::empty()),
        PEdgeStyle::Transition => (MArrow::Plain, MArrow::Open, Seq::empty(), Seq::empty()),
    }
}

/// `(tail, head, tail_tag, head_tag)` of an edge style: the mark at the
/// `from` end, at the `to` end, and the cardinalities written beside them.
fn edge_style(style: &PEdgeStyle) -> (r: (MArrow, MArrow, Vec<char>, Vec<char>))
    ensures
        r.0 == style_marks(*style).0,
        r.1 == style_marks(*style).1,
        r.2@ == style_marks(*style).2,
        r.3@ == style_marks(*style).3,
{
    match style {
        PEdgeStyle::Arrow => (MArrow::Plain, MArrow::Open, Vec::new(), Vec::new()),
        PEdgeStyle::Line => (MArrow::Plain, MArrow::Plain, Vec::new(), Vec::new()),
        PEdgeStyle::Cardinality(tail_tag, head_tag) => (
            MArrow::Plain,
            MArrow::Plain,
            chars_of(tail_tag.as_str()),
            chars_of(head_tag.as_str()),
        ),
        PEdgeStyle::Inherit => (MArrow::Plain, MArrow::Hollow, Vec::new(), Vec::new()),
        PEdgeStyle::Compose => (MArrow::Diamond, MArrow::Plain, Vec::new(), Vec::new()),
        PEdgeStyle::Aggregate => (MArrow::HollowDiamond, MArrow::Plain, Vec::new(), Vec::new()),
        PEdgeStyle::Transition => (MArrow::Plain, MArrow::Open, Vec::new(), Vec::new()),
    }
}

/// The last of the first `n` nodes with the given id.
spec fn last_pos(nodes: Seq<Node>, id: Seq<char>, n: int) -> Option<int>
    decreases n,
{
    if n <= 0 {
        None
    } else if nodes[n - 1].id@ == id {
        Some(n - 1)
    } else {
        last_pos(nodes, id, n - 1)
    }
}

/// The index of the last node with the given id.
fn index_of(nodes: &Vec<Node>, id: &String) -> (r: Option<usize>)
    ensures
        r matches Some(i) ==> i < nodes@.len(),
        match r {
            Some(i) => last_pos(nodes@, id@, nodes@.len() as int) == Some(i as int),
            None => last_pos(nodes@, id@, nodes@.len() as int) is None,
        },
{
    let mut found: Option<usize> = None;
    let mut i: usize = 0;
    while i < nodes.len()
        invariant
            i <= nodes@.len(),
            found matches Some(j) ==> j < nodes@.len(),
            match found {
                Some(j) => last_pos(nodes@, id@, i as int) == Some(j as int),
                None => last_pos(nodes@, id@, i as int) is None,
            },
        decreases nodes.len() - i,
    {
        if nodes[i].id == *id {
            found = Some(i);
        }
        i = i + 1;
    }
    found
}

/// The engine's own model of a graph diagram; edges whose ends are not
/// nodes are dropped. `None` for a diagram that is not graph-shaped.
#[verifier::loop_isolation(false)]
fn build_graph(diagram: &Diagram) -> (r: Option<Graph>)
    ensures
        r is Some <==> diagram@ is Graph,
        r matches Some(g) ==> diagram@ matches DiagramV::Graph { nodes, .. } && g.nodes@.len() == nodes.len(),
        r matches Some(g) ==> forall|e: int| 0 <= e < g.edges@.len() ==> g.edges@[e].from < g.nodes@.len()
            && g.edges@[e].to < g.nodes@.len(),
        r matches Some(g) ==> forall|k: int| 0 <= k < g.groups@.len() ==> below(#[trigger] g.groups@[k].members@, g.nodes@.len() as int),
        r matches Some(g) ==> forall|i: int| 0 <= i < g.nodes@.len() ==> ((#[trigger] g.nodes@[i]).group matches Some(k) ==> k < g.groups@.len()),
{
    let (nodes, edges, groups) = match diagram {
        Diagram::Graph { dir: _, nodes, edges, groups } => (nodes, edges, groups),
        _ => {
            return None;
        },
    };
    let mut gnodes: Vec<GNode> = Vec::new();
    let mut i: usize = 0;
    while i < nodes.len()
        invariant
            i <= nodes@.len(),
            gnodes@.len() == i,
            forall|j: int| 0 <= j < gnodes@.len() ==> (#[trigger] gnodes@[j]).group is None,
        decreases nodes.len() - i,
    {
        let (lines, shape, left_align, header) = shape_lines(&nodes[i].shape);
        gnodes.push(GNode { lines, shape, group: None, left_align, header });
        i = i + 1;
    }
    let mut mgroups: Vec<MGroup> = Vec::new();
    let mut g: usize = 0;
    while g < groups.len()
        invariant
            g <= groups@.len(),
            mgroups@.len() == g,
            forall|k: int| 0 <= k < mgroups@.len() ==> below(mgroups@[k].members@, nodes@.len() as int),
        decreases groups.len() - g,
    {
        let mut members: Vec<usize> = Vec::new();
        let mut m: usize = 0;
        while m < groups[g].members.len()
            invariant
                m <= groups@[g as int].members@.len(),
                below(members@, nodes@.len() as int),
            decreases groups@[g as int].members@.len() - m,
        {
            match index_of(nodes, &groups[g].members[m]) {
                Some(ix) => members.push(ix),
                None => {},
            }
            m = m + 1;
        }
        mgroups.push(MGroup { title: chars_of(groups[g].title.as_str()), members });
        g = g + 1;
    }
    let mut gi: usize = 0;
    while gi < mgroups.len()
        invariant
            gi <= mgroups@.len(),
            gnodes@.len() == nodes@.len(),
            forall|j: int| 0 <= j < gnodes@.len() ==> ((#[trigger] gnodes@[j]).group matches Some(k) ==> k < mgroups@.len()),
        decreases mgroups.len() - gi,
    {
        let mut k: usize = 0;
        while k < mgroups[gi].members.len()
            invariant
                k <= mgroups@[gi as int].members@.len(),
                gnodes@.len() == nodes@.len(),
                forall|j: int| 0 <= j < gnodes@.len() ==> ((#[trigger] gnodes@[j]).group matches Some(q) ==> q < mgroups@.len()),
            decreases mgroups@[gi as int].members@.len() - k,
        {
            let m = mgroups[gi].members[k];
            let mut node = gnodes.remove(m);
            node.group = Some(gi);
            gnodes.insert(m, node);
            k = k + 1;
        }
        gi = gi + 1;
    }
    let mut gedges: Vec<GEdge> = Vec::new();
    let mut e: usize = 0;
    while e < edges.len()
        invariant
            e <= edges@.len(),
            forall|q: int| 0 <= q < gedges@.len() ==> gedges@[q].from < nodes@.len() && gedges@[q].to < nodes@.len(),
        decreases edges.len() - e,
    {
        match (index_of(nodes, &edges[e].from), index_of(nodes, &edges[e].to)) {
            (Some(from), Some(to)) => {
                let (tail, head, tail_tag, head_tag) = edge_style(&edges[e].style);
                let label = match &edges[e].label {
                    Some(l) => chars_of(l.as_str()),
                    None => Vec::new(),
                };
                gedges.push(GEdge { from, to, label, head, tail, head_tag, tail_tag });
            },
            _ => {},
        }
        e = e + 1;
    }
    Some(Graph { nodes: gnodes, edges: gedges, groups: mgroups })
}

// ---------------------------------------------------------------- ranking

/// Sum of a sequence of counts.
spec fn total(s: Seq<usize>) -> nat
    decreases s.len(),
{
    if s.len() == 0 {
        0
    } else {
        total(s.drop_last()) + s.last() as nat
    }
}

proof fn lemma_total_update(s: Seq<usize>, i: int, v: usize)
    requires
        0 <= i < s.len(),
    ensures
        total(s.update(i, v)) == total(s) - s[i] + v,
    decreases s.len(),
{
    if i == s.len() - 1 {
        assert(s.update(i, v).drop_last() =~= s.drop_last());
    } else {
        lemma_total_update(s.drop_last(), i, v);
        assert(s.update(i, v).drop_last() =~= s.drop_last().update(i, v));
    }
}

/// `n` copies of `v`.
fn filled(n: usize, v: usize) -> (r: Vec<usize>)
    ensures
        r@.len() == n,
        forall|k: int| 0 <= k < n ==> r@[k] == v,
{
    let mut out: Vec<usize> = Vec::new();
    let mut i: usize = 0;
    while i < n
        invariant
            i <= n,
            out@.len() == i,
            forall|k: int| 0 <= k < i ==> out@[k] == v,
        decreases n - i,
    {
        out.push(v);
        i = i + 1;
    }
    out
}

/// `n` empty rows.
fn empty_rows(n: usize) -> (r: Vec<Vec<usize>>)
    ensures
        r@.len() == n,
        forall|k: int| 0 <= k < n ==> r@[k]@.len() == 0,
{
    let mut out: Vec<Vec<usize>> = Vec::new();
    let mut i: usize = 0;
    while i < n
        invariant
            i <= n,
            out@.len() == i,
            forall|k: int| 0 <= k < i ==> out@[k]@.len() == 0,
        decreases n - i,
    {
        out.push(Vec::new());
        i = i + 1;
    }
    out
}

/// Appends `x` to row `r` of `rows`.
fn push_to_row(rows: &mut Vec<Vec<usize>>, r: usize, x: usize)
    requires
        r < old(rows)@.len(),
    ensures
        final(rows)@.len() == old(rows)@.len(),
        final(rows)@[r as int]@ == old(rows)@[r as int]@.push(x),
        forall|k: int| 0 <= k < old(rows)@.len() && k != r ==> final(rows)@[k] == old(rows)@[k],
{
    let mut row = rows.remove(r);
    row.push(x);
    rows.insert(r, row);
}

/// Whether `pairs` holds `(a, b)`.
fn has_pair(pairs: &Vec<(usize, usize)>, a: usize, b: usize) -> (r: bool)
    ensures
        r == pairs@.contains((a, b)),
{
    let mut i: usize = 0;
    while i < pairs.len()
        invariant
            i <= pairs@.len(),
            forall|q: int| 0 <= q < i ==> pairs@[q] != (a, b),
        decreases pairs.len() - i,
    {
        if pairs[i].0 == a && pairs[i].1 == b {
            assert(pairs@[i as int] == (a, b));
            return true;
        }
        i = i + 1;
    }
    false
}

/// Each node's rank: the longest path reaching it over the edges that a
/// depth-first search does not find to close a cycle.
#[verifier::loop_isolation(false)]
fn longest_path(n: usize, edges: &Vec<(usize, usize)>) -> (r: Vec<usize>)
    ensures
        r@.len() == n,
{
    let mut adj = empty_rows(n);
    let mut k: usize = 0;
    while k < edges.len()
        invariant
            adj@.len() == n,
            rows_below(adj@, n as int),
        decreases edges.len() - k,
    {
        let (a, b) = edges[k];
        if a != b && a < n && b < n {
            push_to_row(&mut adj, a, b);
        }
        k = k + 1;
    }
    // state: 0 unvisited, 1 on the stack, 2 done
    let mut state = filled(n, 0);
    let mut next = filled(n, 0);
    let mut back: Vec<(usize, usize)> = Vec::new();
    let mut s: usize = 0;
    while s < n
        invariant
            s <= n,
            adj@.len() == n,
            rows_below(adj@, n as int),
            state@.len() == n,
            next@.len() == n,
            forall|v: int| 0 <= v < n ==> next@[v] <= adj@[v]@.len(),
            forall|v: int| 0 <= v < n ==> state@[v] <= 2,
        decreases n - s,
    {
        if state[s] == 0 {
            state.set(s, 1);
            let mut stack: Vec<usize> = Vec::new();
            stack.push(s);
            while stack.len() > 0
                invariant
                    adj@.len() == n,
                    rows_below(adj@, n as int),
                    state@.len() == n,
                    next@.len() == n,
                    forall|v: int| 0 <= v < n ==> next@[v] <= adj@[v]@.len(),
                    forall|v: int| 0 <= v < n ==> state@[v] <= 2,
                    below(stack@, n as int),
                    forall|q: int| 0 <= q < stack@.len() ==> state@[stack@[q] as int] == 1,
                    forall|q1: int, q2: int| 0 <= q1 < stack@.len() && 0 <= q2 < stack@.len() && q1 != q2
                        ==> stack@[q1] != stack@[q2],
                decreases total(Seq::new(n as nat, |v: int| (adj@[v]@.len() - next@[v]) as usize))
                    + total(Seq::new(n as nat, |v: int| if state@[v] == 2 { 0usize } else { 1usize })),
            {
                let ghost m1 = Seq::new(n as nat, |v: int| (adj@[v]@.len() - next@[v]) as usize);
                let ghost m2 = Seq::new(n as nat, |v: int| if state@[v] == 2 { 0usize } else { 1usize });
                let v = stack[stack.len() - 1];
                let i = next[v];
                if i < adj[v].len() {
                    let w = adj[v][i];
                    next.set(v, i + 1);
                    proof {
                        let m1n = Seq::new(n as nat, |u: int| (adj@[u]@.len() - next@[u]) as usize);
                        assert(m1n =~= m1.update(v as int, (adj@[v as int]@.len() - next@[v as int]) as usize));
                        lemma_total_update(m1, v as int, (adj@[v as int]@.len() - next@[v as int]) as usize);
                    }
                    if state[w] == 0 {
                        let ghost m2b = Seq::new(n as nat, |u: int| if state@[u] == 2 { 0usize } else { 1usize });
                        state.set(w, 1);
                        proof {
                            let m2n = Seq::new(n as nat, |u: int| if state@[u] == 2 { 0usize } else { 1usize });
                            assert(m2n =~= m2b);
                        }
                        stack.push(w);
                    } else if state[w] == 1 {
                        back.push((v, w));
                        proof {
                            let m2n = Seq::new(n as nat, |u: int| if state@[u] == 2 { 0usize } else { 1usize });
                            assert(m2n =~= m2);
                        }
                    } else {
                        proof {
                            let m2n = Seq::new(n as nat, |u: int| if state@[u] == 2 { 0usize } else { 1usize });
                            assert(m2n =~= m2);
                        }
                    }
                } else {
                    state.set(v, 2);
                    stack.pop();
                    proof {
                        let m1n = Seq::new(n as nat, |u: int| (adj@[u]@.len() - next@[u]) as usize);
                        assert(m1n =~= m1);
                        let m2n = Seq::new(n as nat, |u: int| if state@[u] == 2 { 0usize } else { 1usize });
                        assert(m2n =~= m2.update(v as int, 0usize));
                        lemma_total_update(m2, v as int, 0usize);
                    }
                }
            }
        }
        s = s + 1;
    }
    let mut indeg = filled(n, 0);
    let mut fwd = empty_rows(n);
    let mut q: usize = 0;
    while q < edges.len()
        invariant
            indeg@.len() == n,
            fwd@.len() == n,
            rows_below(fwd@, n as int),
        decreases edges.len() - q,
    {
        let (a, b) = edges[q];
        if !(a == b || a >= n || b >= n || has_pair(&back, a, b)) {
            push_to_row(&mut fwd, a, b);
            if indeg[b] < usize::MAX {
                let d = indeg[b] + 1;
                indeg.set(b, d);
            }
        }
        q = q + 1;
    }
    let mut rank = filled(n, 0);
    let mut queue: Vec<usize> = Vec::new();
    let mut z: usize = 0;
    while z < n
        invariant
            indeg@.len() == n,
            below(queue@, n as int),
        decreases n - z,
    {
        if indeg[z] == 0 {
            queue.push(z);
        }
        z = z + 1;
    }
    while queue.len() > 0
        invariant
            indeg@.len() == n,
            rank@.len() == n,
            fwd@.len() == n,
            rows_below(fwd@, n as int),
            below(queue@, n as int),
        decreases total(indeg@) + queue@.len(),
    {
        let v = queue.pop().unwrap();
        let ghost bound = total(indeg@) + queue@.len();
        let mut j: usize = 0;
        while j < fwd[v].len()
            invariant
                indeg@.len() == n,
                rank@.len() == n,
                fwd@.len() == n,
                rows_below(fwd@, n as int),
                below(queue@, n as int),
                v < n,
                total(indeg@) + queue@.len() <= bound,
            decreases fwd@[v as int]@.len() - j,
        {
            let w = fwd[v][j];
            let rv = rank[v].saturating_add(1);
            if rank[w] < rv {
                rank.set(w, rv);
            }
            if indeg[w] > 0 {
                let ghost before = indeg@;
                let d = indeg[w] - 1;
                indeg.set(w, d);
                proof {
                    lemma_total_update(before, w as int, d);
                }
                if d == 0 {
                    queue.push(w);
                }
            }
            j = j + 1;
        }
    }
    rank
}


/// A stable ordering of `0..keys.len()` by key.
#[verifier::loop_isolation(false)]
fn order_by_key(keys: &Vec<usize>) -> (r: Vec<usize>)
    ensures
        r@.len() == keys@.len(),
        below(r@, keys@.len() as int),
{
    let mut out: Vec<usize> = Vec::new();
    let mut i: usize = 0;
    while i < keys.len()
        invariant
            i <= keys@.len(),
            out@.len() == i,
            below(out@, keys@.len() as int),
        decreases keys.len() - i,
    {
        let mut j: usize = out.len();
        while j > 0 && keys[out[j - 1]] > keys[i]
            invariant
                j <= out@.len(),
            decreases j,
        {
            j = j - 1;
        }
        out.insert(j, i);
        i = i + 1;
    }
    out
}

impl Graph {
    /// Each node's box: width, height and lines, the lines wrapped at
    /// `cap` (at least 22 for the bodies of class and entity boxes), or
    /// with `fold` a class or entity box reduced to its name.
    #[verifier::loop_isolation(false)]
    fn sizes(&self, cap: usize, fold: bool) -> (r: Vec<(usize, usize, Vec<Vec<char>>)>)
        requires
            cap >= 3,
        ensures
            r@.len() == self.nodes@.len(),
            forall|i: int| 0 <= i < r@.len() ==> r@[i].0 >= 5 && r@[i].1 >= 3 && r@[i].2@.len() >= 1,
    {
        let mut out: Vec<(usize, usize, Vec<Vec<char>>)> = Vec::new();
        let mut i: usize = 0;
        while i < self.nodes.len()
            invariant
                i <= self.nodes@.len(),
                out@.len() == i,
                forall|k: int| 0 <= k < out@.len() ==> out@[k].0 >= 5 && out@[k].1 >= 3 && out@[k].2@.len() >= 1,
            decreases self.nodes.len() - i,
        {
            let n = &self.nodes[i];
            let mut lines: Vec<Vec<char>> = Vec::new();
            if fold && n.header {
                if n.lines.len() > 0 {
                    let mut wrapped = wrap_label(&n.lines[0], cap);
                    lines.append(&mut wrapped);
                }
            } else {
                let body_cap = if n.left_align && cap < 22 { 22 } else { cap };
                let mut k: usize = 0;
                while k < n.lines.len()
                    decreases n.lines@.len() - k,
                {
                    if is_divider(&n.lines[k]) {
                        lines.push(divider_line());
                    } else {
                        let mut wrapped = wrap_label(&n.lines[k], body_cap);
                        lines.append(&mut wrapped);
                    }
                    k = k + 1;
                }
            }
            if lines.len() == 0 {
                lines.push(Vec::new());
            }
            let mut w: usize = 0;
            let mut k: usize = 0;
            while k < lines.len()
                decreases lines@.len() - k,
            {
                if !is_divider(&lines[k]) {
                    let lw = chars_width(lines[k].as_slice());
                    if lw > w {
                        w = lw;
                    }
                }
                k = k + 1;
            }
            let w = w.saturating_add(4);
            let h = lines.len().saturating_add(2);
            let w = if w < 5 { 5 } else { w };
            out.push((w, h, lines));
            i = i + 1;
        }
        out
    }

    /// Each node's rank: clusters (a subgraph, or a node outside any) are
    /// ranked by the longest path between clusters and stacked on the
    /// tallest cluster before them; inside a cluster, nodes are ranked by
    /// the longest path within it.
    #[verifier::loop_isolation(false)]
    fn rank_nodes(&self) -> (r: Vec<usize>)
        requires
            self.wf(),
        ensures
            r@.len() == self.nodes@.len(),
    {
        let n = self.nodes.len();
        let ng = self.groups.len();
        let ncl = ng + n;
        let mut cluster: Vec<usize> = Vec::new();
        let mut i: usize = 0;
        while i < n
            invariant
                i <= n,
                cluster@.len() == i,
                below(cluster@, ncl as int),
            decreases n - i,
        {
            let c = match self.nodes[i].group {
                Some(g) => g,
                None => ng + i,
            };
            cluster.push(c);
            i = i + 1;
        }
        let mut intra: Vec<(usize, usize)> = Vec::new();
        let mut inter: Vec<(usize, usize)> = Vec::new();
        let mut k: usize = 0;
        while k < self.edges.len()
            invariant
                cluster@.len() == n,
                below(cluster@, ncl as int),
                forall|q: int| 0 <= q < inter@.len() ==> inter@[q].0 < ncl && inter@[q].1 < ncl,
            decreases self.edges.len() - k,
        {
            let e = &self.edges[k];
            if e.from != e.to && cluster[e.from] == cluster[e.to] {
                intra.push((e.from, e.to));
            }
            if cluster[e.from] != cluster[e.to] {
                inter.push((cluster[e.from], cluster[e.to]));
            }
            k = k + 1;
        }
        let local = longest_path(n, &intra);
        let mut height = filled(ncl, 1);
        let mut i: usize = 0;
        while i < n
            invariant
                height@.len() == ncl,
                local@.len() == n,
                cluster@.len() == n,
                below(cluster@, ncl as int),
            decreases n - i,
        {
            let h = local[i].saturating_add(1);
            if height[cluster[i]] < h {
                height.set(cluster[i], h);
            }
            i = i + 1;
        }
        let crank = longest_path(ncl, &inter);
        let order = order_by_key(&crank);
        let mut base = filled(ncl, 0);
        let mut oi: usize = 0;
        while oi < order.len()
            invariant
                base@.len() == ncl,
                height@.len() == ncl,
                crank@.len() == ncl,
                order@.len() == ncl,
                below(order@, ncl as int),
                forall|q: int| 0 <= q < inter@.len() ==> inter@[q].0 < ncl && inter@[q].1 < ncl,
            decreases order.len() - oi,
        {
            let c = order[oi];
            let mut q: usize = 0;
            while q < inter.len()
                invariant
                    base@.len() == ncl,
                    c < ncl,
                decreases inter.len() - q,
            {
                let (a, b) = inter[q];
                if b == c && crank[a] < crank[c] {
                    let cand = base[a].saturating_add(height[a]);
                    if base[c] < cand {
                        base.set(c, cand);
                    }
                }
                q = q + 1;
            }
            oi = oi + 1;
        }
        let mut out: Vec<usize> = Vec::new();
        let mut i: usize = 0;
        while i < n
            invariant
                i <= n,
                out@.len() == i,
            decreases n - i,
        {
            out.push(base[cluster[i]].saturating_add(local[i]));
            i = i + 1;
        }
        out
    }
}

proof fn lemma_mul_fits(a: usize, b: usize)
    ensures
        (a as int) * (b as int) <= u128::MAX,
{
    assert((a as int) * (b as int) <= 0xffff_ffff_ffff_ffff * 0xffff_ffff_ffff_ffff) by (nonlinear_arith)
        requires
            0 <= a <= 0xffff_ffff_ffff_ffff,
            0 <= b <= 0xffff_ffff_ffff_ffff,
    ;
}

/// Whether the barycenter `an / ad` (with its index `ai`) sorts before
/// `bn / bd` (index `bi`); denominators are positive.
fn key_before(an: usize, ad: usize, ai: usize, bn: usize, bd: usize, bi: usize) -> (r: bool)
    ensures
        r == (an * bd < bn * ad || (an * bd == bn * ad && ai < bi)),
{
    proof {
        lemma_mul_fits(an, bd);
        lemma_mul_fits(bn, ad);
    }
    let l = (an as u128) * (bd as u128);
    let r = (bn as u128) * (ad as u128);
    l < r || (l == r && ai < bi)
}

/// Sorts a rank by `(num / den, index)` keys and returns its node order.
#[verifier::loop_isolation(false)]
fn sort_keyed(keyed: &Vec<(usize, usize, usize, usize)>, bound: usize) -> (r: Vec<usize>)
    requires
        forall|j: int| 0 <= j < keyed@.len() ==> (#[trigger] keyed@[j]).3 < bound,
    ensures
        r@.len() == keyed@.len(),
        below(r@, bound as int),
        r@.to_multiset() == fourths(keyed@).to_multiset(),
        r@ == fourths(sorted_keys(keyed@)),
{
    proof {
        broadcast use vstd::seq_lib::group_to_multiset_ensures;
    }
    let mut sorted: Vec<(usize, usize, usize, usize)> = Vec::new();
    let mut i: usize = 0;
    assert(fourths(keyed@.take(0)) =~= fourths(sorted@));
    while i < keyed.len()
        invariant
            i <= keyed@.len(),
            sorted@.len() == i,
            forall|k: int| 0 <= k < sorted@.len() ==> (#[trigger] sorted@[k]).3 < bound,
            fourths(sorted@).to_multiset() == fourths(keyed@.take(i as int)).to_multiset(),
            sorted@ == sorted_keys(keyed@.take(i as int)),
        decreases keyed.len() - i,
    {
        let x = keyed[i];
        let mut j: usize = sorted.len();
        proof {
            assert(keyed@.take(i + 1).drop_last() =~= keyed@.take(i as int));
            assert(keyed@.take(i + 1).last() == x);
        }
        while j > 0
            invariant
                j <= sorted@.len(),
                back_pos(sorted@, x, sorted@.len() as int) == back_pos(sorted@, x, j as int),
            decreases j,
        {
            let y = sorted[j - 1];
            if key_before(x.0, x.1, x.2, y.0, y.1, y.2) {
                j = j - 1;
            } else {
                assert(back_pos(sorted@, x, j as int) == j);
                break;
            }
        }
        let ghost prev = sorted@;
        sorted.insert(j, x);
        assert forall|k: int| 0 <= k < sorted@.len() implies (#[trigger] sorted@[k]).3 < bound by {
            if k < j {
                assert(sorted@[k] == prev[k]);
            } else if k > j {
                assert(sorted@[k] == prev[k - 1]);
            }
        }
        proof {
            assert(fourths(sorted@) =~= fourths(prev).insert(j as int, x.3));
            vstd::seq_lib::to_multiset_insert(fourths(prev), j as int, x.3);
            assert(fourths(keyed@.take(i + 1)) =~= fourths(keyed@.take(i as int)).push(x.3));
        }
        i = i + 1;
    }
    assert(keyed@.take(keyed@.len() as int) =~= keyed@);
    let mut out: Vec<usize> = Vec::new();
    let mut k: usize = 0;
    while k < sorted.len()
        invariant
            k <= sorted@.len(),
            out@.len() == k,
            below(out@, bound as int),
            out@ == fourths(sorted@).take(k as int),
        decreases sorted.len() - k,
    {
        out.push(sorted[k].3);
        k = k + 1;
        assert(out@ =~= fourths(sorted@).take(k as int));
    }
    assert(fourths(sorted@).take(sorted@.len() as int) =~= fourths(sorted@));
    out
}

/// Whether key `x` sorts before key `y` (see [`key_before`]).
spec fn kb(x: (usize, usize, usize, usize), y: (usize, usize, usize, usize)) -> bool {
    x.0 * y.1 < y.0 * x.1 || (x.0 * y.1 == y.0 * x.1 && x.2 < y.2)
}

/// Where `x` goes in `s`, scanning back from `j` past the entries it
/// sorts before.
spec fn back_pos(s: Seq<(usize, usize, usize, usize)>, x: (usize, usize, usize, usize), j: int) -> int
    decreases j,
{
    if 0 < j <= s.len() && kb(x, s[j - 1]) {
        back_pos(s, x, j - 1)
    } else {
        j
    }
}

/// Keyed entries insertion-sorted by key, each taken in turn.
spec fn sorted_keys(ks: Seq<(usize, usize, usize, usize)>) -> Seq<(usize, usize, usize, usize)>
    decreases ks.len(),
{
    if ks.len() == 0 {
        Seq::empty()
    } else {
        let s = sorted_keys(ks.drop_last());
        s.insert(back_pos(s, ks.last(), s.len() as int), ks.last())
    }
}

proof fn lemma_back_pos(s: Seq<(usize, usize, usize, usize)>, x: (usize, usize, usize, usize), j: int)
    requires
        0 <= j <= s.len(),
    ensures
        0 <= back_pos(s, x, j) <= j,
    decreases j,
{
    if 0 < j && kb(x, s[j - 1]) {
        lemma_back_pos(s, x, j - 1);
    }
}

/// `a + b`, at most `usize::MAX`.
spec fn sat_add(a: usize, b: usize) -> usize {
    if a + b > usize::MAX { usize::MAX } else { (a + b) as usize }
}

/// The sum of the positions of `v`'s neighbours in other ranks (above it
/// when `down`, below otherwise) and their number, both saturating.
spec fn bary(es: Seq<GEdge>, rank: Seq<usize>, pos: Seq<usize>, v: usize, down: bool) -> (usize, usize)
    decreases es.len(),
{
    if es.len() == 0 {
        (0, 0)
    } else {
        let (s, c) = bary(es.drop_last(), rank, pos, v, down);
        let e = es.last();
        let other: Option<usize> = if e.to == v && down {
            Some(e.from)
        } else if e.from == v && !down {
            Some(e.to)
        } else {
            None
        };
        match other {
            Some(o) => if rank[o as int] != rank[v as int] { (sat_add(s, pos[o as int]), sat_add(c, 1)) } else { (s, c) },
            None => (s, c),
        }
    }
}

/// A rank's nodes keyed by the mean position of their neighbours (by
/// their own position when they have none).
spec fn bary_keys(row: Seq<usize>, es: Seq<GEdge>, rank: Seq<usize>, pos: Seq<usize>, down: bool) -> Seq<(usize, usize, usize, usize)> {
    Seq::new(
        row.len(),
        |k: int|
            {
                let v = row[k];
                let (s, c) = bary(es, rank, pos, v, down);
                if c > 0 { (s, c, k as usize, v) } else { (k as usize, 1usize, k as usize, v) }
            },
    )
}

/// Positions after placing each node of `row` at its index in it.
spec fn positions(pos: Seq<usize>, row: Seq<usize>) -> Seq<usize>
    decreases row.len(),
{
    if row.len() == 0 {
        pos
    } else {
        positions(pos, row.drop_last()).update(row.last() as int, (row.len() - 1) as usize)
    }
}

/// The positions of the nodes of all rows.
spec fn init_positions(rows: Seq<Seq<usize>>, pos: Seq<usize>) -> Seq<usize>
    decreases rows.len(),
{
    if rows.len() == 0 {
        pos
    } else {
        positions(init_positions(rows.drop_last(), pos), rows.last())
    }
}

/// One sweep over the ranks from step `t` on: each rank (downwards the
/// second, third, ...; upwards the one before last, ...) reordered by its
/// barycenter keys, positions following.
spec fn sweep(rows: Seq<Seq<usize>>, pos: Seq<usize>, t: int, steps: int, down: bool, es: Seq<GEdge>, rank: Seq<usize>) -> (Seq<Seq<usize>>, Seq<usize>)
    decreases steps - t,
{
    if t >= steps {
        (rows, pos)
    } else {
        let r = if down { t + 1 } else { steps - 1 - t };
        let row2 = fourths(sorted_keys(bary_keys(rows[r], es, rank, pos, down)));
        sweep(rows.update(r, row2), positions(pos, row2), t + 1, steps, down, es, rank)
    }
}

/// The four sweeps, down, up, down, up, from sweep `p` on.
spec fn sweeps(rows: Seq<Seq<usize>>, pos: Seq<usize>, p: int, nranks: int, es: Seq<GEdge>, rank: Seq<usize>) -> (Seq<Seq<usize>>, Seq<usize>)
    decreases 4 - p,
{
    if p >= 4 {
        (rows, pos)
    } else {
        let steps = if nranks > 0 { nranks - 1 } else { 0 };
        let (r2, p2) = sweep(rows, pos, 0, steps, p % 2 == 0, es, rank);
        sweeps(r2, p2, p + 1, nranks, es, rank)
    }
}

/// For each subgraph, the sum of the indices of its members in `row` and
/// their number (saturating).
spec fn group_sums(row: Seq<usize>, groups: Seq<Option<usize>>, ng: nat) -> Seq<(usize, usize)>
    decreases row.len(),
{
    if row.len() == 0 {
        Seq::new(ng, |g: int| (0usize, 0usize))
    } else {
        let m = group_sums(row.drop_last(), groups, ng);
        let k = (row.len() - 1) as usize;
        match groups[row.last() as int] {
            Some(g) => m.update(g as int, (sat_add(m[g as int].0, k), sat_add(m[g as int].1, 1))),
            None => m,
        }
    }
}

/// A rank's nodes keyed by the mean index of their subgraph's members
/// (by their own index outside a subgraph).
spec fn group_keys(row: Seq<usize>, groups: Seq<Option<usize>>, sums: Seq<(usize, usize)>) -> Seq<(usize, usize, usize, usize)> {
    Seq::new(
        row.len(),
        |k: int|
            {
                let v = row[k];
                match groups[v as int] {
                    Some(g) => if sums[g as int].1 > 0 { (sums[g as int].0, sums[g as int].1, k as usize, v) } else {
                        (k as usize, 1usize, k as usize, v)
                    },
                    None => (k as usize, 1usize, k as usize, v),
                }
            },
    )
}

/// The ranks' orders: each rank's nodes in index order, four barycenter
/// sweeps, then each rank's subgraph members drawn together by their mean
/// index.
spec fn rank_orders(groups: Seq<Option<usize>>, ng: nat, es: Seq<GEdge>, rank: Seq<usize>, nranks: nat) -> Seq<Seq<usize>> {
    let n = rank.len() as int;
    let rows0 = Seq::new(nranks, |q: int| rank_members(rank, q, n));
    let pos0 = init_positions(rows0, Seq::new(n as nat, |i: int| 0usize));
    let rows = sweeps(rows0, pos0, 0, nranks as int, es, rank).0;
    Seq::new(nranks, |q: int| fourths(sorted_keys(group_keys(rows[q], groups, group_sums(rows[q], groups, ng)))))
}

spec fn node_groups(nodes: Seq<GNode>) -> Seq<Option<usize>> {
    nodes.map_values(|nd: GNode| nd.group)
}

spec fn rows_view(v: Seq<Vec<usize>>) -> Seq<Seq<usize>> {
    v.map_values(|r: Vec<usize>| r@)
}

/// The last components of keyed entries: the nodes they stand for.
spec fn fourths(s: Seq<(usize, usize, usize, usize)>) -> Seq<usize> {
    s.map_values(|t: (usize, usize, usize, usize)| t.3)
}

/// The nodes below `i` whose rank is `r`, ascending.
spec fn rank_members(rank: Seq<usize>, r: int, i: int) -> Seq<usize>
    decreases i,
{
    if i <= 0 {
        Seq::empty()
    } else if rank[i - 1] == r {
        rank_members(rank, r, i - 1).push((i - 1) as usize)
    } else {
        rank_members(rank, r, i - 1)
    }
}

/// An edge piece between two adjacent ranks (`top` and `bottom` are node
/// or waypoint indices).
#[derive(Clone, Copy)]
struct Seg {
    edge: usize,
    top: usize,
    bottom: usize,
}

/// A node box or an edge waypoint with its place on the canvas.
#[derive(Clone, Copy)]
struct Placed {
    x: usize,
    y: usize,
    w: usize,
    h: usize,
    rank: usize,
    dummy: bool,
    node: usize,
}

/// Two placements that differ at most in their column.
spec fn same_but_x(a: Placed, b: Placed) -> bool {
    a.y == b.y && a.w == b.w && a.h == b.h && a.rank == b.rank && a.dummy == b.dummy && a.node == b.node
}

/// Across a run of `w` occupied columns from `x0` the column map grows by
/// one a column.
proof fn lemma_run_map(map: Seq<usize>, occ: Seq<bool>, x0: int, w: int, maxu: int, ps: Seq<Placed>, a: int)
    requires
        0 <= a < ps.len(),
        ps[a].x == x0,
        ps[a].w == w,
        0 <= x0,
        0 <= w,
        x0 + w <= maxu,
        map.len() == maxu + 2,
        occ.len() == maxu + 2,
        forall|q: int, y: int| 0 <= q < ps.len() && ps[q].x <= y < ps[q].x + ps[q].w ==> #[trigger] occ[y] && (#[trigger] ps[q]).x == ps[q].x,
        forall|c: int| 0 <= c < map.len() && c <= maxu && occ[c] ==> (if c + 1 < map.len() { map[c + 1] as int } else { -1 }) == #[trigger] map[c] + 1,
    ensures
        map[x0 + w] == map[x0] + w,
    decreases w,
{
    if w > 0 {
        let ps2 = ps.update(a, Placed { w: (w - 1) as usize, ..ps[a] });
        assert forall|q: int, y: int| 0 <= q < ps2.len() && ps2[q].x <= y < ps2[q].x + ps2[q].w implies #[trigger] occ[y] && (#[trigger] ps2[q]).x == ps2[q].x by {
            assert(ps[q].x <= y < ps[q].x + ps[q].w);
            assert(occ[y] && ps[q].x == ps[q].x);
        }
        lemma_run_map(map, occ, x0, w - 1, maxu, ps2, a);
        let c = x0 + w - 1;
        assert(occ[c] && ps[a].x == ps[a].x);
        assert(map[c + 1] == map[c] + 1);
    }
}

/// The first column free after a box at `x` that is `w` wide, with the
/// gap between boxes of a rank (saturating).
spec fn spaced(x: usize, w: usize) -> usize {
    if x + w + HGAP > usize::MAX {
        usize::MAX
    } else {
        (x + w + HGAP) as usize
    }
}

/// Whether `v` holds `x`.
fn contains_index(v: &Vec<usize>, x: usize) -> (r: bool)
    ensures
        r == v@.contains(x),
{
    let mut i: usize = 0;
    while i < v.len()
        invariant
            i <= v@.len(),
            forall|q: int| 0 <= q < i ==> v@[q] != x,
        decreases v.len() - i,
    {
        if v[i] == x {
            assert(v@[i as int] == x);
            return true;
        }
        i = i + 1;
    }
    false
}

/// The middle column of a span.
fn center(x: usize, w: usize) -> usize {
    x.saturating_add(w / 2)
}

/// The gap between two boxes of a rank.
const HGAP: usize = 3;

/// The room around the members of a subgraph.
const GROUP_PAD: usize = 2;

impl Graph {
    /// The barycenter sum and count of `v` (see [`bary`]).
    fn bary_of(&self, rank: &Vec<usize>, pos: &Vec<usize>, v: usize, down: bool) -> (r: (usize, usize))
        requires
            self.wf(),
            rank@.len() == self.nodes@.len(),
            pos@.len() == self.nodes@.len(),
            v < self.nodes@.len(),
        ensures
            r == bary(self.edges@, rank@, pos@, v, down),
    {
        let mut sum: usize = 0;
        let mut cnt: usize = 0;
        let mut e: usize = 0;
        while e < self.edges.len()
            invariant
                e <= self.edges@.len(),
                self.wf(),
                rank@.len() == self.nodes@.len(),
                pos@.len() == self.nodes@.len(),
                v < self.nodes@.len(),
                (sum, cnt) == bary(self.edges@.take(e as int), rank@, pos@, v, down),
            decreases self.edges.len() - e,
        {
            proof {
                assert(self.edges@.take(e + 1).drop_last() =~= self.edges@.take(e as int));
                assert(self.edges@.take(e + 1).last() == self.edges@[e as int]);
            }
            let ed = &self.edges[e];
            let other = if ed.to == v && down {
                Some(ed.from)
            } else if ed.from == v && !down {
                Some(ed.to)
            } else {
                None
            };
            match other {
                Some(o) => {
                    if rank[o] != rank[v] {
                        sum = sum.saturating_add(pos[o]);
                        cnt = cnt.saturating_add(1);
                    }
                },
                None => {},
            }
            e = e + 1;
        }
        assert(self.edges@.take(self.edges@.len() as int) =~= self.edges@);
        (sum, cnt)
    }

    /// Reorders rank `r` by its barycenter keys and places its nodes.
    fn sweep_rank(&self, ranks: &mut Vec<Vec<usize>>, pos: &mut Vec<usize>, r: usize, rank: &Vec<usize>, down: bool)
        requires
            self.wf(),
            r < old(ranks)@.len(),
            rows_below(old(ranks)@, self.nodes@.len() as int),
            old(pos)@.len() == self.nodes@.len(),
            rank@.len() == self.nodes@.len(),
        ensures
            ({
                let row2 = fourths(sorted_keys(bary_keys(old(ranks)@[r as int]@, self.edges@, rank@, old(pos)@, down)));
                &&& rows_view(final(ranks)@) == rows_view(old(ranks)@).update(r as int, row2)
                &&& final(pos)@ == positions(old(pos)@, row2)
            }),
            final(ranks)@.len() == old(ranks)@.len(),
            rows_below(final(ranks)@, self.nodes@.len() as int),
            final(pos)@.len() == self.nodes@.len(),
            final(ranks)@[r as int]@.to_multiset() == old(ranks)@[r as int]@.to_multiset(),
            forall|q: int| 0 <= q < old(ranks)@.len() && q != r ==> #[trigger] final(ranks)@[q] == old(ranks)@[q],
    {
        let n = self.nodes.len();
        let ghost row = ranks@[r as int]@;
        let ghost bk = bary_keys(row, self.edges@, rank@, pos@, down);
        let mut keyed: Vec<(usize, usize, usize, usize)> = Vec::new();
        let mut k: usize = 0;
        while k < ranks[r].len()
            invariant
                r < ranks@.len(),
                row == ranks@[r as int]@,
                rows_below(ranks@, n as int),
                n == self.nodes@.len(),
                pos@.len() == n,
                rank@.len() == n,
                self.wf(),
                forall|q: int| 0 <= q < keyed@.len() ==> (#[trigger] keyed@[q]).3 < n,
                k <= row.len(),
                keyed@ == bk.take(k as int),
                bk == bary_keys(row, self.edges@, rank@, pos@, down),
            decreases row.len() - k,
        {
            let v = ranks[r][k];
            let (sum, cnt) = self.bary_of(rank, pos, v, down);
            if cnt > 0 {
                keyed.push((sum, cnt, k, v));
            } else {
                keyed.push((k, 1, k, v));
            }
            k = k + 1;
            assert(keyed@ =~= bk.take(k as int));
        }
        assert(bk.take(row.len() as int) =~= bk);
        assert(fourths(bk) =~= row);
        let sorted = sort_keyed(&keyed, n);
        let ghost p0 = pos@;
        let mut k: usize = 0;
        assert(sorted@.take(0) =~= Seq::<usize>::empty());
        while k < sorted.len()
            invariant
                pos@.len() == n,
                below(sorted@, n as int),
                k <= sorted@.len(),
                pos@ == positions(p0, sorted@.take(k as int)),
            decreases sorted.len() - k,
        {
            pos.set(sorted[k], k);
            k = k + 1;
            assert(sorted@.take(k as int).drop_last() =~= sorted@.take(k - 1));
        }
        assert(sorted@.take(sorted@.len() as int) =~= sorted@);
        let ghost rk0 = ranks@;
        let ghost sv = sorted@;
        let _ = ranks.remove(r);
        ranks.insert(r, sorted);
        proof {
            assert(ranks@ =~= rk0.update(r as int, ranks@[r as int]));
            assert(rows_view(ranks@) =~= rows_view(rk0).update(r as int, sv));
        }
    }

    /// A rank's order with each subgraph's members drawn together (see
    /// [`group_keys`]).
    fn group_order(&self, row: &Vec<usize>) -> (r: Vec<usize>)
        requires
            self.wf(),
            below(row@, self.nodes@.len() as int),
        ensures
            r@ == fourths(sorted_keys(group_keys(row@, node_groups(self.nodes@), group_sums(row@, node_groups(self.nodes@), self.groups@.len())))),
            r@.to_multiset() == row@.to_multiset(),
            below(r@, self.nodes@.len() as int),
    {
        let n = self.nodes.len();
        let ng = self.groups.len();
        let ghost gs = node_groups(self.nodes@);
        let mut mean: Vec<(usize, usize)> = Vec::new();
        let mut g: usize = 0;
        while g < ng
            invariant
                mean@.len() == g,
                g <= ng,
                forall|q: int| 0 <= q < g ==> mean@[q] == (0usize, 0usize),
            decreases ng - g,
        {
            mean.push((0, 0));
            g = g + 1;
        }
        assert(mean@ =~= group_sums(row@.take(0), gs, ng as nat));
        let mut k: usize = 0;
        while k < row.len()
            invariant
                k <= row@.len(),
                self.wf(),
                below(row@, n as int),
                n == self.nodes@.len(),
                ng == self.groups@.len(),
                gs == node_groups(self.nodes@),
                mean@ == group_sums(row@.take(k as int), gs, ng as nat),
                mean@.len() == ng,
            decreases row.len() - k,
        {
            proof {
                assert(row@.take(k + 1).drop_last() =~= row@.take(k as int));
                assert(row@.take(k + 1).last() == row@[k as int]);
            }
            let v = row[k];
            assert(gs[v as int] == self.nodes@[v as int].group);
            match self.nodes[v].group {
                Some(g) => {
                    let (a, b) = mean[g];
                    mean.set(g, (a.saturating_add(k), b.saturating_add(1)));
                },
                None => {},
            }
            k = k + 1;
        }
        assert(row@.take(row@.len() as int) =~= row@);
        let ghost gk = group_keys(row@, gs, mean@);
        let mut keyed: Vec<(usize, usize, usize, usize)> = Vec::new();
        let mut k: usize = 0;
        while k < row.len()
            invariant
                k <= row@.len(),
                self.wf(),
                below(row@, n as int),
                n == self.nodes@.len(),
                gs == node_groups(self.nodes@),
                mean@.len() == ng,
                ng == self.groups@.len(),
                gk == group_keys(row@, gs, mean@),
                keyed@ == gk.take(k as int),
                forall|q: int| 0 <= q < keyed@.len() ==> (#[trigger] keyed@[q]).3 < n,
            decreases row.len() - k,
        {
            let v = row[k];
            assert(gs[v as int] == self.nodes@[v as int].group);
            match self.nodes[v].group {
                Some(g) => {
                    let (a, b) = mean[g];
                    if b > 0 {
                        keyed.push((a, b, k, v));
                    } else {
                        keyed.push((k, 1, k, v));
                    }
                },
                None => keyed.push((k, 1, k, v)),
            }
            k = k + 1;
            assert(keyed@ =~= gk.take(k as int));
        }
        assert(gk.take(row@.len() as int) =~= gk);
        assert(fourths(gk) =~= row@);
        sort_keyed(&keyed, n)
    }

    /// Each rank's nodes, ordered: by node index first, then four sweeps
    /// (down, up, down, up) that sort each rank by the mean position of
    /// the neighbours in other ranks, and last by subgraph, each
    /// subgraph's members where their mean position puts them.
    #[verifier::loop_isolation(false)]
    fn order_ranks(&self, rank: &Vec<usize>, nranks: usize) -> (r: Vec<Vec<usize>>)
        requires
            self.wf(),
            rank@.len() == self.nodes@.len(),
            below(rank@, nranks as int),
        ensures
            r@.len() == nranks,
            rows_below(r@, self.nodes@.len() as int),
            forall|q: int| 0 <= q < nranks ==> (#[trigger] r@[q])@.to_multiset() == rank_members(rank@, q, rank@.len() as int).to_multiset(),
            rows_view(r@) == rank_orders(node_groups(self.nodes@), self.groups@.len(), self.edges@, rank@, nranks as nat),
    {
        let n = self.nodes.len();
        let ghost es = self.edges@;
        let ghost rows0 = Seq::new(nranks as nat, |q: int| rank_members(rank@, q, n as int));
        let ghost zeros = Seq::new(n as nat, |i: int| 0usize);
        let mut ranks = empty_rows(nranks);
        let mut i: usize = 0;
        while i < n
            invariant
                ranks@.len() == nranks,
                rows_below(ranks@, n as int),
                i <= n,
                forall|q: int| 0 <= q < nranks ==> (#[trigger] ranks@[q])@ == rank_members(rank@, q, i as int),
            decreases n - i,
        {
            push_to_row(&mut ranks, rank[i], i);
            i = i + 1;
        }
        assert(rows_view(ranks@) =~= rows0);
        let mut pos = filled(n, 0);
        assert(pos@ =~= zeros);
        assert(rows0.take(0) =~= Seq::<Seq<usize>>::empty());
        let mut r: usize = 0;
        while r < nranks
            invariant
                ranks@.len() == nranks,
                rows_below(ranks@, n as int),
                pos@.len() == n,
                r <= nranks,
                rows_view(ranks@) == rows0,
                forall|q: int| 0 <= q < nranks ==> (#[trigger] ranks@[q])@ == rank_members(rank@, q, n as int),
                pos@ == init_positions(rows0.take(r as int), zeros),
            decreases nranks - r,
        {
            let ghost pr = pos@;
            let ghost row = ranks@[r as int]@;
            proof {
                assert(rows0.take(r + 1).drop_last() =~= rows0.take(r as int));
                assert(rows0.take(r + 1).last() == row);
                assert(row.take(0) =~= Seq::<usize>::empty());
            }
            let mut k: usize = 0;
            while k < ranks[r].len()
                invariant
                    pos@.len() == n,
                    r < nranks,
                    ranks@.len() == nranks,
                    rows_below(ranks@, n as int),
                    row == ranks@[r as int]@,
                    k <= row.len(),
                    pos@ == positions(pr, row.take(k as int)),
                decreases ranks@[r as int]@.len() - k,
            {
                pos.set(ranks[r][k], k);
                k = k + 1;
                assert(row.take(k as int).drop_last() =~= row.take(k - 1));
            }
            assert(row.take(row.len() as int) =~= row);
            r = r + 1;
        }
        assert(rows0.take(nranks as int) =~= rows0);
        let ghost pos0 = pos@;
        let ghost goal = sweeps(rows0, pos0, 0, nranks as int, es, rank@);
        let mut pass: usize = 0;
        while pass < 4
            invariant
                ranks@.len() == nranks,
                rows_below(ranks@, n as int),
                pos@.len() == n,
                pass <= 4,
                es == self.edges@,
                forall|q: int| 0 <= q < nranks ==> (#[trigger] ranks@[q])@.to_multiset() == rank_members(rank@, q, n as int).to_multiset(),
                goal == sweeps(rows_view(ranks@), pos@, pass as int, nranks as int, es, rank@),
            decreases 4 - pass,
        {
            let down = pass % 2 == 0;
            let steps = if nranks > 0 { nranks - 1 } else { 0 };
            let ghost rs = rows_view(ranks@);
            let ghost ps = pos@;
            let ghost sw = sweep(rs, ps, 0, steps as int, down, es, rank@);
            assert(goal == sweeps(sw.0, sw.1, pass + 1, nranks as int, es, rank@));
            let mut t: usize = 0;
            while t < steps
                invariant
                    ranks@.len() == nranks,
                    rows_below(ranks@, n as int),
                    pos@.len() == n,
                    steps < nranks || steps == 0,
                    t <= steps,
                    es == self.edges@,
                    forall|q: int| 0 <= q < nranks ==> (#[trigger] ranks@[q])@.to_multiset() == rank_members(rank@, q, n as int).to_multiset(),
                    sw == sweep(rows_view(ranks@), pos@, t as int, steps as int, down, es, rank@),
                decreases steps - t,
            {
                let r = if down { t + 1 } else { steps - 1 - t };
                let ghost rk0 = ranks@;
                self.sweep_rank(&mut ranks, &mut pos, r, rank, down);
                proof {
                    assert forall|q: int| 0 <= q < nranks implies (#[trigger] ranks@[q])@.to_multiset() == rank_members(rank@, q, n as int).to_multiset() by {
                        if q != r {
                            assert(ranks@[q] == rk0[q]);
                        }
                    }
                    assert(rows_view(rk0)[r as int] == rk0[r as int]@);
                }
                t = t + 1;
            }
            pass = pass + 1;
        }
        assert(rows_view(ranks@) == goal.0);
        let ghost target = rank_orders(node_groups(self.nodes@), self.groups@.len(), self.edges@, rank@, nranks as nat);
        let mut out: Vec<Vec<usize>> = Vec::new();
        let mut r: usize = 0;
        while r < nranks
            invariant
                ranks@.len() == nranks,
                rows_below(ranks@, n as int),
                out@.len() == r,
                r <= nranks,
                rows_below(out@, n as int),
                rows_view(ranks@) == goal.0,
                target == rank_orders(node_groups(self.nodes@), self.groups@.len(), self.edges@, rank@, nranks as nat),
                forall|q: int| 0 <= q < nranks ==> (#[trigger] ranks@[q])@.to_multiset() == rank_members(rank@, q, n as int).to_multiset(),
                forall|q: int| 0 <= q < r ==> (#[trigger] out@[q])@.to_multiset() == rank_members(rank@, q, n as int).to_multiset(),
                rows_view(out@) == target.take(r as int),
            decreases nranks - r,
        {
            proof {
                assert forall|k: int| 0 <= k < ranks@[r as int]@.len() implies ranks@[r as int]@[k] < n by {}
                assert(rows_view(ranks@)[r as int] == ranks@[r as int]@);
            }
            let sorted = self.group_order(&ranks[r]);
            let ghost o0 = out@;
            out.push(sorted);
            proof {
                assert forall|q: int| 0 <= q < r + 1 implies (#[trigger] out@[q])@.to_multiset() == rank_members(rank@, q, n as int).to_multiset() by {
                    if q < r {
                        assert(out@[q] == o0[q]);
                    }
                }
                assert(rows_view(out@) =~= target.take(r + 1));
            }
            r = r + 1;
        }
        assert(target.take(nranks as int) =~= target);
        out
    }

    /// The ranks a subgraph's members span: `(group, first, last)` for each
    /// subgraph with a member in `ranks`.
    #[verifier::loop_isolation(false)]
    fn group_rank_spans(&self, ranks: &Vec<Vec<usize>>, n: usize) -> (r: Vec<(usize, usize, usize)>)
        ensures
            forall|k: int| 0 <= k < r@.len() ==> r@[k].0 < self.groups@.len() && r@[k].1 <= r@[k].2 < ranks@.len(),
            r@ == rank_spans(group_members(self.groups@), ranks.deep_view(), n as int),
    {
        let ghost gm = group_members(self.groups@);
        let ghost rv = ranks.deep_view();
        let mut out: Vec<(usize, usize, usize)> = Vec::new();
        let mut gi: usize = 0;
        assert(gm.take(0) =~= Seq::<Seq<usize>>::empty());
        while gi < self.groups.len()
            invariant
                gi <= self.groups@.len(),
                gm == group_members(self.groups@),
                rv == ranks.deep_view(),
                forall|k: int| 0 <= k < out@.len() ==> out@[k].0 < self.groups@.len() && out@[k].1 <= out@[k].2 < ranks@.len(),
                out@ == rank_spans(gm.take(gi as int), rv, n as int),
            decreases self.groups.len() - gi,
        {
            proof {
                assert(gm.take(gi + 1).drop_last() =~= gm.take(gi as int));
                assert(gm[gi as int] == self.groups@[gi as int].members@);
            }
            let ghost mem = gm[gi as int];
            let mut found = false;
            let mut lo: usize = 0;
            let mut hi: usize = 0;
            let mut r: usize = 0;
            while r < ranks.len()
                invariant
                    found ==> lo <= hi && hi < r,
                    r <= ranks@.len(),
                    found ==> span_upto(rv, mem, n as int, r as int) == Some((lo as int, hi as int)),
                    !found ==> span_upto(rv, mem, n as int, r as int) is None,
                decreases ranks.len() - r,
            {
                proof {
                    assert(rv[r as int] == ranks@[r as int]@);
                }
                let mut any = false;
                let mut k: usize = 0;
                while k < ranks[r].len()
                    invariant
                        k <= ranks@[r as int]@.len(),
                        any == exists|q: int| 0 <= q < k && #[trigger] rv[r as int][q] < n && mem.contains(rv[r as int][q]),
                    decreases ranks@[r as int]@.len() - k,
                {
                    let i = ranks[r][k];
                    if i < n && contains_index(&self.groups[gi].members, i) {
                        any = true;
                    }
                    proof {
                        if !any {
                            assert forall|q: int| 0 <= q < k + 1 implies !(#[trigger] rv[r as int][q] < n && mem.contains(rv[r as int][q])) by {
                                if q < k {
                                }
                            }
                        }
                    }
                    k = k + 1;
                }
                assert(any == rank_hit(rv[r as int], mem, n as int));
                if any {
                    if !found {
                        lo = r;
                        found = true;
                    }
                    hi = r;
                }
                r = r + 1;
            }
            let ghost o0 = out@;
            if found {
                out.push((gi, lo, hi));
            }
            proof {
                assert(rank_spans(gm.take(gi + 1), rv, n as int) == rank_spans(gm.take(gi as int), rv, n as int) + match span_upto(rv, mem, n as int, rv.len() as int) {
                    Some(s) => seq![(gi as usize, s.0 as usize, s.1 as usize)],
                    None => Seq::empty(),
                });
                if found {
                    assert(out@ =~= o0 + seq![(gi as usize, lo, hi)]);
                } else {
                    assert(out@ =~= o0 + Seq::<(usize, usize, usize)>::empty());
                }
            }
            gi = gi + 1;
        }
        assert(gm.take(self.groups@.len() as int) =~= gm);
        out
    }

    /// Moves the boxes of rank `r` towards the mean column of their
    /// neighbours in the adjacent rank (above when `down`), left to right
    /// and never overlapping.
    #[verifier::loop_isolation(false)]
    fn align_rank(
        &self,
        ranks: &Vec<Vec<usize>>,
        r: usize,
        segments: &Vec<Seg>,
        pu: &mut Vec<usize>,
        psz: &Vec<usize>,
        down: bool,
    )
        requires
            r < ranks@.len(),
            rows_below(ranks@, old(pu)@.len() as int),
            forall|q: int| 0 <= q < segments@.len() ==> segments@[q].top < old(pu)@.len() && segments@[q].bottom < old(pu)@.len(),
            psz@.len() == old(pu)@.len(),
        ensures
            final(pu)@.len() == old(pu)@.len(),
            forall|j: usize| j < old(pu)@.len() && !ranks@[r as int]@.contains(j) ==> #[trigger] final(pu)@[j as int]
                == old(pu)@[j as int],
            ({
                let ids = ranks@[r as int]@;
                (forall|a: int, b: int| 0 <= a < b < ids.len() ==> ids[a] != ids[b]) ==> forall|q: int|
                    0 <= q && q + 1 < ids.len() ==> #[trigger] final(pu)@[ids[q + 1] as int] >= spaced(
                        final(pu)@[ids[q] as int],
                        psz@[ids[q] as int],
                    )
            }),
    {
        let ids = &ranks[r];
        let ghost iv = ids@;
        let mut desired: Vec<(usize, usize)> = Vec::new();
        let mut k: usize = 0;
        while k < ids.len()
            invariant
                pu@.len() == psz@.len(),
                pu@ == old(pu)@,
                iv == ids@,
                k <= iv.len(),
                desired@.len() == k,
                forall|q: int| 0 <= q < desired@.len() ==> (#[trigger] desired@[q]).0 < pu@.len() && desired@[q].0 == iv[q],
            decreases ids.len() - k,
        {
            let i = ids[k];
            let mut sum: usize = 0;
            let mut cnt: usize = 0;
            let mut q: usize = 0;
            while q < segments.len()
                decreases segments.len() - q,
            {
                let (a, b) = (segments[q].top, segments[q].bottom);
                let other = if down && b == i {
                    Some(a)
                } else if !down && a == i {
                    Some(b)
                } else {
                    None
                };
                match other {
                    Some(o) => {
                        sum = sum.saturating_add(center(pu[o], psz[o]));
                        cnt = cnt.saturating_add(1);
                    },
                    None => {},
                }
                q = q + 1;
            }
            let want = if cnt > 0 {
                (sum / cnt).saturating_sub(psz[i] / 2)
            } else {
                pu[i]
            };
            let ghost d0 = desired@;
            desired.push((i, want));
            proof {
                assert(i == iv[k as int]);
                assert forall|q: int| 0 <= q < desired@.len() implies (#[trigger] desired@[q]).0 < pu@.len() && desired@[q].0 == iv[q] by {
                    if q < k {
                        assert(desired@[q] == d0[q]);
                        assert(d0[q].0 == iv[q]);
                    }
                }
            }
            k = k + 1;
        }
        let ghost dist = forall|a: int, b: int| 0 <= a < b < iv.len() ==> iv[a] != iv[b];
        let mut cursor: usize = 0;
        let mut first = true;
        let mut k: usize = 0;
        while k < desired.len()
            invariant
                pu@.len() == psz@.len(),
                pu@.len() == old(pu)@.len(),
                k <= desired@.len(),
                desired@.len() == iv.len(),
                iv == ranks@[r as int]@,
                iv == ids@,
                dist == (forall|a: int, b: int| 0 <= a < b < iv.len() ==> iv[a] != iv[b]),
                forall|q: int| 0 <= q < desired@.len() ==> (#[trigger] desired@[q]).0 < pu@.len() && desired@[q].0 == iv[q],
                first == (k == 0),
                forall|j: usize| j < old(pu)@.len() && !iv.contains(j) ==> #[trigger] pu@[j as int] == old(pu)@[j as int],
                dist && k > 0 ==> cursor == spaced(pu@[iv[k - 1] as int], psz@[iv[k - 1] as int]),
                dist ==> forall|q: int| 0 <= q && q + 1 < k ==> #[trigger] pu@[iv[q + 1] as int] >= spaced(
                    pu@[iv[q] as int],
                    psz@[iv[q] as int],
                ),
            decreases desired.len() - k,
        {
            let (i, want) = desired[k];
            let ghost pu0 = pu@;
            let x = if first || want >= cursor { want } else { cursor };
            pu.set(i, x);
            proof {
                assert forall|j: usize| j < old(pu)@.len() && !iv.contains(j) implies #[trigger] pu@[j as int] == old(pu)@[j as int] by {
                    if j == i {
                        assert(iv[k as int] == i);
                    }
                }
                if dist {
                    assert forall|q: int| 0 <= q && q + 1 < k + 1 implies #[trigger] pu@[iv[q + 1] as int] >= spaced(
                        pu@[iv[q] as int],
                        psz@[iv[q] as int],
                    ) by {
                        assert(iv[q] != iv[k as int]);
                        if q + 1 < k {
                            assert(iv[q + 1] != iv[k as int]);
                        }
                    }
                }
            }
            cursor = x.saturating_add(psz[i]).saturating_add(HGAP);
            first = false;
            k = k + 1;
        }
    }

    /// Closes up empty columns: a run of free columns shrinks to at most
    /// five; columns under a box or a subgraph's frame are kept. Boxes only
    /// move left, keep their order, and two boxes apart stay apart.
    #[verifier::loop_isolation(false)]
    fn compact_x(&self, placed: &mut Vec<Placed>)
        ensures
            final(placed)@.len() == old(placed)@.len(),
            forall|k: int| 0 <= k < old(placed)@.len() ==> same_but_x(#[trigger] final(placed)@[k], old(placed)@[k]),
            forall|k: int| 0 <= k < old(placed)@.len() ==> (#[trigger] final(placed)@[k]).x <= old(placed)@[k].x,
            forall|a: int, b: int|
                0 <= a < old(placed)@.len() && 0 <= b < old(placed)@.len() && old(placed)@[a].x <= old(placed)@[b].x
                    ==> (#[trigger] final(placed)@[a]).x <= (#[trigger] final(placed)@[b]).x,
            forall|a: int, b: int|
                0 <= a < old(placed)@.len() && 0 <= b < old(placed)@.len() && old(placed)@[a].x + old(placed)@[a].w
                    <= old(placed)@[b].x ==> (#[trigger] final(placed)@[a]).x + final(placed)@[a].w <= (
                #[trigger] final(placed)@[b]).x,
    {
        let mut maxu: usize = 0;
        let mut k: usize = 0;
        while k < placed.len()
            invariant
                forall|q: int| 0 <= q < k ==> placed@[q].x + placed@[q].w <= maxu || maxu == usize::MAX,
                k <= placed@.len(),
            decreases placed.len() - k,
        {
            let e = placed[k].x.saturating_add(placed[k].w);
            if e > maxu {
                maxu = e;
            }
            k = k + 1;
        }
        if maxu >= 0x1000_0000 {
            return;
        }
        let size = maxu + 2;
        let mut occ: Vec<bool> = Vec::new();
        let mut i: usize = 0;
        while i < size
            invariant
                occ@.len() == i,
                i <= size,
            decreases size - i,
        {
            occ.push(false);
            i = i + 1;
        }
        let mut k: usize = 0;
        while k < placed.len()
            invariant
                occ@.len() == size,
                k <= placed@.len(),
                placed@ == old(placed)@,
                forall|q: int, y: int| 0 <= q < k && placed@[q].x <= y < placed@[q].x + placed@[q].w ==> #[trigger] occ@[y]
                    && (#[trigger] placed@[q]).x == placed@[q].x,
            decreases placed.len() - k,
        {
            let p = placed[k];
            let mut x = p.x;
            while x < p.x + p.w
                invariant
                    occ@.len() == size,
                    p.x + p.w <= maxu,
                    p.x <= x,
                    p == placed@[k as int],
                    forall|q: int, y: int| 0 <= q < k && placed@[q].x <= y < placed@[q].x + placed@[q].w ==> #[trigger] occ@[y]
                        && (#[trigger] placed@[q]).x == placed@[q].x,
                    forall|y: int| p.x <= y < x ==> #[trigger] occ@[y],
                decreases p.x + p.w - x,
            {
                occ.set(x, true);
                x = x + 1;
            }
            k = k + 1;
        }
        let mut gi: usize = 0;
        while gi < self.groups.len()
            invariant
                occ@.len() == size,
                placed@ == old(placed)@,
                forall|q: int, y: int| 0 <= q < placed@.len() && placed@[q].x <= y < placed@[q].x + placed@[q].w ==> #[trigger] occ@[y]
                    && (#[trigger] placed@[q]).x == placed@[q].x,
            decreases self.groups.len() - gi,
        {
            let mut any = false;
            let mut lo: usize = 0;
            let mut hi: usize = 0;
            let mut k: usize = 0;
            while k < placed.len()
                invariant
                    any ==> hi <= maxu,
                decreases placed.len() - k,
            {
                let p = placed[k];
                if !p.dummy && contains_index(&self.groups[gi].members, p.node) {
                    let e = p.x + p.w;
                    if !any {
                        lo = p.x;
                        hi = e;
                        any = true;
                    } else {
                        if p.x < lo {
                            lo = p.x;
                        }
                        if e > hi {
                            hi = e;
                        }
                    }
                }
                k = k + 1;
            }
            if any {
                let a = lo.saturating_sub(2);
                let b = if hi + 1 < maxu { hi + 1 } else { maxu };
                let mut x = a;
                while x <= b
                    invariant
                        occ@.len() == size,
                        b <= maxu,
                        forall|q: int, y: int| 0 <= q < placed@.len() && placed@[q].x <= y < placed@[q].x + placed@[q].w ==> #[trigger] occ@[y]
                            && (#[trigger] placed@[q]).x == placed@[q].x,
                    decreases b + 1 - x,
                {
                    occ.set(x, true);
                    x = x + 1;
                }
            }
            gi = gi + 1;
        }
        let mut map: Vec<usize> = Vec::new();
        let mut cur: usize = 0;
        let mut run: usize = 0;
        let mut x: usize = 0;
        while x < size
            invariant
                map@.len() == x,
                x <= size,
                cur <= x,
                occ@.len() == size,
                forall|a: int| 0 <= a < x ==> #[trigger] map@[a] <= a && map@[a] <= cur,
                forall|a: int, b: int| 0 <= a <= b < x ==> #[trigger] map@[a] <= #[trigger] map@[b],
                forall|a: int| 0 <= a < x && a <= maxu && occ@[a] ==> (if a + 1 < x { map@[a + 1] as int } else { cur as int }) == #[trigger] map@[a] + 1,
            decreases size - x,
        {
            map.push(cur);
            if x <= maxu && occ[x] {
                cur = cur + 1;
                run = 0;
            } else {
                run = run.saturating_add(1);
                if run <= 5 {
                    cur = cur + 1;
                }
            }
            x = x + 1;
        }
        let mut k: usize = 0;
        while k < placed.len()
            invariant
                map@.len() == size,
                placed@.len() == old(placed)@.len(),
                forall|q: int| 0 <= q < old(placed)@.len() ==> old(placed)@[q].x + old(placed)@[q].w <= maxu,
                forall|q: int| 0 <= q < placed@.len() ==> same_but_x(#[trigger] placed@[q], old(placed)@[q]),
                forall|q: int| k <= q < placed@.len() ==> placed@[q] == old(placed)@[q],
                forall|q: int| 0 <= q < k ==> (#[trigger] placed@[q]).x == map@[old(placed)@[q].x as int],
            decreases placed.len() - k,
        {
            let mut p = placed[k];
            p.x = map[p.x];
            placed.set(k, p);
            k = k + 1;
        }
        proof {
            assert forall|a: int, b: int|
                0 <= a < old(placed)@.len() && 0 <= b < old(placed)@.len() && old(placed)@[a].x + old(placed)@[a].w
                    <= old(placed)@[b].x implies (#[trigger] placed@[a]).x + placed@[a].w <= (#[trigger] placed@[b]).x by {
                let pa = old(placed)@[a];
                lemma_run_map(map@, occ@, pa.x as int, pa.w as int, maxu as int, old(placed)@, a);
            }
        }
    }

    /// Pushes a subgraph that overlaps another to the right of it, once for
    /// each subgraph at most.
    #[verifier::loop_isolation(false)]
    fn separate_groups(&self, placed: &mut Vec<Placed>, n: usize)
        ensures
            final(placed)@.len() == old(placed)@.len(),
            forall|k: int| 0 <= k < old(placed)@.len() ==> same_but_x(#[trigger] final(placed)@[k], old(placed)@[k]),
            self.groups@.len() < 2 ==> final(placed)@ == old(placed)@,
            forall|k: int| 0 <= k < old(placed)@.len() ==> (#[trigger] final(placed)@[k]).x >= old(placed)@[k].x,
            forall|k: int|
                0 <= k < old(placed)@.len() && !old(placed)@[k].dummy && old(placed)@[k].node >= n
                    ==> #[trigger] final(placed)@[k] == old(placed)@[k],
    {
        if self.groups.len() < 2 {
            return;
        }
        let mut round: usize = 0;
        while round < self.groups.len()
            invariant
                placed@.len() == old(placed)@.len(),
                forall|q: int| 0 <= q < placed@.len() ==> same_but_x(#[trigger] placed@[q], old(placed)@[q]),
                forall|q: int| 0 <= q < placed@.len() ==> (#[trigger] placed@[q]).x >= old(placed)@[q].x,
                forall|q: int| 0 <= q < placed@.len() && !old(placed)@[q].dummy && old(placed)@[q].node >= n ==> #[trigger] placed@[q]
                    == old(placed)@[q],
            decreases self.groups.len() - round,
        {
            let mut boxes: Vec<Option<(usize, usize, usize, usize)>> = Vec::new();
            let mut gi: usize = 0;
            while gi < self.groups.len()
                invariant
                    boxes@.len() == gi,
                    gi <= self.groups@.len(),
                decreases self.groups.len() - gi,
            {
                let mut any = false;
                let (mut x0, mut x1, mut y0, mut y1) = (0usize, 0usize, 0usize, 0usize);
                let mut k: usize = 0;
                while k < placed.len()
                    decreases placed.len() - k,
                {
                    let p = placed[k];
                    if !p.dummy && contains_index(&self.groups[gi].members, p.node) {
                        let xe = p.x.saturating_add(p.w);
                        let ye = p.y.saturating_add(p.h);
                        if !any {
                            x0 = p.x;
                            x1 = xe;
                            y0 = p.y;
                            y1 = ye;
                            any = true;
                        } else {
                            if p.x < x0 {
                                x0 = p.x;
                            }
                            if xe > x1 {
                                x1 = xe;
                            }
                            if p.y < y0 {
                                y0 = p.y;
                            }
                            if ye > y1 {
                                y1 = ye;
                            }
                        }
                    }
                    k = k + 1;
                }
                if any {
                    boxes.push(Some((x0.saturating_sub(2), x1.saturating_add(1), y0.saturating_sub(2), y1)));
                } else {
                    boxes.push(None);
                }
                gi = gi + 1;
            }
            let mut shift: Option<(usize, usize)> = None;
            let mut a: usize = 0;
            while a < boxes.len() && shift.is_none()
                decreases boxes.len() - a,
            {
                let mut b: usize = 0;
                while b < boxes.len() && shift.is_none()
                    decreases boxes.len() - b,
                {
                    match (boxes[a], boxes[b]) {
                        (Some(ba), Some(bb)) => {
                            if a != b && ba.0 <= bb.0 {
                                let overlap_y = ba.2 < bb.3 && bb.2 < ba.3;
                                let overlap_x = ba.0 < bb.1 && bb.0 < ba.1;
                                if overlap_y && overlap_x {
                                    shift = Some((bb.0, (ba.1 - bb.0).saturating_add(2)));
                                }
                            }
                        },
                        _ => {},
                    }
                    b = b + 1;
                }
                a = a + 1;
            }
            let (from_u, delta) = match shift {
                Some(s) => s,
                None => {
                    return;
                },
            };
            let mut k: usize = 0;
            while k < placed.len()
                invariant
                    placed@.len() == old(placed)@.len(),
                    forall|q: int| 0 <= q < placed@.len() ==> same_but_x(#[trigger] placed@[q], old(placed)@[q]),
                    forall|q: int| 0 <= q < placed@.len() ==> (#[trigger] placed@[q]).x >= old(placed)@[q].x,
                    forall|q: int| 0 <= q < placed@.len() && !old(placed)@[q].dummy && old(placed)@[q].node >= n ==> #[trigger] placed@[q]
                        == old(placed)@[q],
                decreases placed.len() - k,
            {
                let mut p = placed[k];
                if p.x >= from_u && (p.dummy || p.node < n) {
                    p.x = p.x.saturating_add(delta);
                    placed.set(k, p);
                }
                k = k + 1;
            }
            round = round + 1;
        }
    }
}

/// Splits each rank, in order, into rows whose boxes and gaps fit
/// `budget` columns; a box wider than the budget gets a row to itself.
#[verifier::loop_isolation(false)]
fn wrap_rows(ranks: &Vec<Vec<usize>>, boxes: &Vec<(usize, usize, Vec<Vec<char>>)>, budget: usize) -> (r: Vec<Vec<usize>>)
    requires
        rows_below(ranks@, boxes@.len() as int),
    ensures
        r@.len() >= ranks@.len(),
        rows_below(r@, boxes@.len() as int),
{
    let mut out: Vec<Vec<usize>> = Vec::new();
    let mut r: usize = 0;
    while r < ranks.len()
        invariant
            out@.len() >= r,
            r <= ranks@.len(),
            rows_below(out@, boxes@.len() as int),
        decreases ranks.len() - r,
    {
        let mut group: Vec<usize> = Vec::new();
        let mut w: usize = 0;
        let mut k: usize = 0;
        while k < ranks[r].len()
            invariant
                out@.len() >= r,
                r < ranks@.len(),
                rows_below(out@, boxes@.len() as int),
                below(group@, boxes@.len() as int),
            decreases ranks@[r as int]@.len() - k,
        {
            let i = ranks[r][k];
            let sz = boxes[i].0;
            let projected = if group.len() == 0 { sz } else { w.saturating_add(HGAP).saturating_add(sz) };
            if group.len() > 0 && projected > budget {
                out.push(group);
                group = Vec::new();
                w = 0;
            }
            w = if group.len() == 0 { sz } else { w.saturating_add(HGAP).saturating_add(sz) };
            group.push(i);
            k = k + 1;
        }
        out.push(group);
        r = r + 1;
    }
    out
}


/// Where the wiring of a rank's band goes: an edge piece, or an edge
/// that points back up.
#[derive(Clone, Copy)]
enum Slot {
    Piece(usize),
    Back(usize),
}

/// A complete layout.
struct Plan {
    placed: Vec<Placed>,
    segments: Vec<Seg>,
    seg_row: Vec<usize>,
    band_rows: Vec<usize>,
    band_start: Vec<usize>,
    gutters: Vec<(usize, usize)>,
    fb_row: Vec<Option<usize>>,
    selfloop: Vec<usize>,
    total_w: usize,
    total_h: usize,
    lines: Vec<Vec<Vec<char>>>,
}

impl Plan {
    /// The indices a drawing follows are in bounds: placements are the
    /// graph's nodes, then waypoints; pieces, gutters and self-loops name
    /// edges; every rank has a band of at least one row.
    spec fn fits(&self, n: nat, m: nat) -> bool {
        &&& self.placed@.len() >= n
        &&& forall|i: int| 0 <= i < n ==> (#[trigger] self.placed@[i]).node == i && !self.placed@[i].dummy
        &&& forall|i: int| 0 <= i < self.placed@.len() ==> (#[trigger] self.placed@[i]).rank < self.band_start@.len()
            && self.placed@[i].h >= 1
        &&& forall|i: int| 0 <= i < self.placed@.len() ==> (!(#[trigger] self.placed@[i]).dummy ==> self.placed@[i].node < n)
        &&& self.band_rows@.len() == self.band_start@.len()
        &&& forall|r: int| 0 <= r < self.band_rows@.len() ==> self.band_rows@[r] >= 1
        &&& self.seg_row@.len() == self.segments@.len()
        &&& forall|k: int| 0 <= k < self.segments@.len() ==> (#[trigger] self.segments@[k]).edge < m
            && self.segments@[k].top < self.placed@.len() && self.segments@[k].bottom < self.placed@.len()
        &&& forall|k: int| 0 <= k < self.gutters@.len() ==> (#[trigger] self.gutters@[k]).0 < m
        &&& self.fb_row@.len() == m
        &&& below(self.selfloop@, m as int)
        &&& self.lines@.len() == n
    }
}

/// The rank of a node or waypoint.
fn node_rank(i: usize, n: usize, rank: &Vec<usize>, dummy_rank: &Vec<usize>) -> (r: usize)
    requires
        rank@.len() == n,
        i < n + dummy_rank@.len(),
    ensures
        i < n ==> r == rank@[i as int],
        i >= n ==> r == dummy_rank@[i - n],
{
    if i < n {
        rank[i]
    } else {
        dummy_rank[i - n]
    }
}

impl Graph {
    /// Lays the boxes out: ranks (split into rows of at most `width`
    /// columns with `wrap`), waypoints for edges that skip ranks, columns,
    /// band rows for the wiring and gutters for edges that point back up.
    /// `None` when a count would not fit a `usize`.
    #[verifier::loop_isolation(false)]
    #[verifier::rlimit(50)]
    fn place(&self, boxes: &Vec<(usize, usize, Vec<Vec<char>>)>, width: usize, wrap: bool) -> (r: Option<Plan>)
        requires
            self.wf(),
            boxes@.len() == self.nodes@.len(),
            forall|i: int| 0 <= i < boxes@.len() ==> boxes@[i].1 >= 1,
        ensures
            r matches Some(p) ==> p.fits(self.nodes@.len(), self.edges@.len()),
            r matches Some(p) ==> p.total_w >= 4,
    {
        let n = self.nodes.len();
        let rank0 = self.rank_nodes();
        let mut maxr: usize = 0;
        let mut i: usize = 0;
        while i < n
            invariant
                i <= n,
                forall|q: int| 0 <= q < i ==> rank0@[q] <= maxr,
            decreases n - i,
        {
            if rank0[i] > maxr {
                maxr = rank0[i];
            }
            i = i + 1;
        }
        if maxr >= 0x1000_0000 {
            return None;
        }
        let nranks0 = maxr + 1;
        let ranks0 = self.order_ranks(&rank0, nranks0);
        let (rank, ranks, nranks) = if wrap {
            let wrapped = wrap_rows(&ranks0, boxes, width);
            let mut new_rank = filled(n, 0);
            let mut r: usize = 0;
            while r < wrapped.len()
                invariant
                    new_rank@.len() == n,
                    below(new_rank@, wrapped@.len() as int),
                decreases wrapped.len() - r,
            {
                let mut k: usize = 0;
                while k < wrapped[r].len()
                    invariant
                        new_rank@.len() == n,
                        r < wrapped@.len(),
                        below(new_rank@, wrapped@.len() as int),
                    decreases wrapped@[r as int]@.len() - k,
                {
                    new_rank.set(wrapped[r][k], r);
                    k = k + 1;
                }
                r = r + 1;
            }
            let nr = wrapped.len();
            (new_rank, wrapped, nr)
        } else {
            (rank0, ranks0, nranks0)
        };
        if nranks == 0 || nranks >= 0x1000_0000 {
            return None;
        }
        let mut ranks = ranks;
        let mut dummy_rank: Vec<usize> = Vec::new();
        let mut segments: Vec<Seg> = Vec::new();
        let mut feedback: Vec<usize> = Vec::new();
        let mut selfloop: Vec<usize> = Vec::new();
        let mut ei: usize = 0;
        while ei < self.edges.len()
            invariant
                ranks@.len() == nranks,
                below(rank@, nranks as int),
                rank@.len() == n,
                below(dummy_rank@, nranks as int),
                n + dummy_rank@.len() < 0x4000_0000,
                rows_below(ranks@, n + dummy_rank@.len()),
                forall|k: int| 0 <= k < segments@.len() ==> (#[trigger] segments@[k]).edge < self.edges@.len()
                    && segments@[k].top < n + dummy_rank@.len() && segments@[k].bottom < n + dummy_rank@.len(),
                below(feedback@, self.edges@.len() as int),
                below(selfloop@, self.edges@.len() as int),
                feedback@.len() <= ei,
                ei <= self.edges@.len(),
            decreases self.edges.len() - ei,
        {
            let e = &self.edges[ei];
            if e.from == e.to {
                selfloop.push(ei);
            } else {
                let ra = rank[e.from];
                let rb = rank[e.to];
                if ra >= rb {
                    feedback.push(ei);
                } else {
                    if dummy_rank.len() + (rb - ra) >= 0x1000_0000 {
                        return None;
                    }
                    let mut prev = e.from;
                    let mut r = ra + 1;
                    while r < rb
                        invariant
                            ranks@.len() == nranks,
                            rb < nranks,
                            below(dummy_rank@, nranks as int),
                            rows_below(ranks@, n + dummy_rank@.len()),
                            prev < n + dummy_rank@.len(),
                            n + dummy_rank@.len() < 0x4000_0000,
                            dummy_rank@.len() + (rb - r) < 0x1000_0000 + 1,
                            forall|k: int| 0 <= k < segments@.len() ==> (#[trigger] segments@[k]).edge < self.edges@.len()
                                && segments@[k].top < n + dummy_rank@.len() && segments@[k].bottom < n + dummy_rank@.len(),
                        decreases rb - r,
                    {
                        let id = n + dummy_rank.len();
                        dummy_rank.push(r);
                        push_to_row(&mut ranks, r, id);
                        segments.push(Seg { edge: ei, top: prev, bottom: id });
                        prev = id;
                        r = r + 1;
                    }
                    segments.push(Seg { edge: ei, top: prev, bottom: e.to });
                }
            }
            ei = ei + 1;
        }
        let total = n + dummy_rank.len();
        let mut pu = filled(total, 0);
        let mut psz = filled(total, 1);
        let mut i: usize = 0;
        while i < n
            invariant
                psz@.len() == total,
            decreases n - i,
        {
            psz.set(i, boxes[i].0);
            i = i + 1;
        }
        let mut rank_extent = filled(nranks, 1);
        let mut r: usize = 0;
        while r < nranks
            invariant
                rank_extent@.len() == nranks,
                forall|q: int| 0 <= q < nranks ==> rank_extent@[q] >= 1,
            decreases nranks - r,
        {
            let mut ext: usize = 0;
            let mut k: usize = 0;
            while k < ranks[r].len()
                invariant
                    r < nranks,
                decreases ranks@[r as int]@.len() - k,
            {
                let id = ranks[r][k];
                let sz = if id < n { boxes[id].1 } else { 1 };
                if sz > ext {
                    ext = sz;
                }
                k = k + 1;
            }
            rank_extent.set(r, if ext == 0 { 1 } else { ext });
            r = r + 1;
        }
        let ng = self.groups.len();
        let nitems = ng + total;
        let mut item_of: Vec<usize> = Vec::new();
        let mut i: usize = 0;
        while i < total
            invariant
                item_of@.len() == i,
                i <= total,
                below(item_of@, nitems as int),
            decreases total - i,
        {
            let it = if i < n {
                match self.nodes[i].group {
                    Some(g) => g,
                    None => ng + i,
                }
            } else {
                ng + i
            };
            item_of.push(it);
            i = i + 1;
        }
        let mut members = empty_rows(nitems);
        let mut i: usize = 0;
        while i < total
            invariant
                members@.len() == nitems,
                rows_below(members@, total as int),
            decreases total - i,
        {
            push_to_row(&mut members, item_of[i], i);
            i = i + 1;
        }
        let mut it: usize = 0;
        while it < nitems
            invariant
                pu@.len() == total,
                psz@.len() == total,
            decreases nitems - it,
        {
            if members[it].len() <= 1 {
                if members[it].len() == 1 {
                    pu.set(members[it][0], 0);
                }
            } else {
                let mut sub: Vec<Vec<usize>> = Vec::new();
                let mut r: usize = 0;
                while r < nranks
                    invariant
                        sub@.len() == r,
                        r <= nranks,
                        rows_below(sub@, total as int),
                    decreases nranks - r,
                {
                    let mut row: Vec<usize> = Vec::new();
                    let mut k: usize = 0;
                    while k < ranks[r].len()
                        invariant
                            below(row@, total as int),
                            r < nranks,
                        decreases ranks@[r as int]@.len() - k,
                    {
                        let id = ranks[r][k];
                        if item_of[id] == it {
                            row.push(id);
                        }
                        k = k + 1;
                    }
                    sub.push(row);
                    r = r + 1;
                }
                let mut r: usize = 0;
                while r < nranks
                    invariant
                        pu@.len() == total,
                    decreases nranks - r,
                {
                    let mut x: usize = 0;
                    let mut k: usize = 0;
                    while k < sub[r].len()
                        invariant
                            pu@.len() == total,
                            r < nranks,
                        decreases sub@[r as int]@.len() - k,
                    {
                        let id = sub[r][k];
                        if k > 0 {
                            x = x.saturating_add(HGAP);
                        }
                        pu.set(id, x);
                        x = x.saturating_add(psz[id]);
                        k = k + 1;
                    }
                    r = r + 1;
                }
                let mut inner: Vec<Seg> = Vec::new();
                let mut q: usize = 0;
                while q < segments.len()
                    invariant
                        forall|k: int| 0 <= k < inner@.len() ==> (#[trigger] inner@[k]).top < total
                            && inner@[k].bottom < total,
                    decreases segments.len() - q,
                {
                    let sg = segments[q];
                    if item_of[sg.top] == it && item_of[sg.bottom] == it {
                        inner.push(sg);
                    }
                    q = q + 1;
                }
                let mut round: usize = 0;
                while round < 3
                    invariant
                        pu@.len() == total,
                    decreases 3 - round,
                {
                    let mut r: usize = 1;
                    while r < nranks
                        invariant
                            pu@.len() == total,
                        decreases nranks - r,
                    {
                        self.align_rank(&sub, r, &inner, &mut pu, &psz, true);
                        r = r + 1;
                    }
                    let mut t: usize = 0;
                    while t < nranks - 1
                        invariant
                            pu@.len() == total,
                            nranks >= 1,
                        decreases nranks - t,
                    {
                        let r = nranks - 2 - t;
                        self.align_rank(&sub, r, &inner, &mut pu, &psz, false);
                        t = t + 1;
                    }
                    round = round + 1;
                }
                let mut base: usize = pu[members[it][0]];
                let mut k: usize = 1;
                while k < members[it].len()
                    invariant
                        pu@.len() == total,
                    decreases members@[it as int]@.len() - k,
                {
                    let id = members[it][k];
                    if pu[id] < base {
                        base = pu[id];
                    }
                    k = k + 1;
                }
                let mut k: usize = 0;
                while k < members[it].len()
                    invariant
                        pu@.len() == total,
                    decreases members@[it as int]@.len() - k,
                {
                    let id = members[it][k];
                    let v = pu[id].saturating_sub(base);
                    pu.set(id, v);
                    k = k + 1;
                }
            }
            it = it + 1;
        }
        let mut item_w = filled(nitems, 0);
        let mut item_lo: Vec<Option<(usize, usize)>> = Vec::new();
        let mut it: usize = 0;
        while it < nitems
            invariant
                item_w@.len() == nitems,
                item_lo@.len() == it,
                it <= nitems,
                forall|q: int| 0 <= q < item_lo@.len() ==> (#[trigger] item_lo@[q] matches Some(s) ==> s.0 <= s.1 < nranks),
            decreases nitems - it,
        {
            let mut wmax: usize = 0;
            let mut span: Option<(usize, usize)> = None;
            let mut k: usize = 0;
            while k < members[it].len()
                invariant
                    span matches Some(s) ==> s.0 <= s.1 < nranks,
                    it < nitems,
                decreases members@[it as int]@.len() - k,
            {
                let id = members[it][k];
                let e = pu[id].saturating_add(psz[id]);
                if e > wmax {
                    wmax = e;
                }
                let rr = node_rank(id, n, &rank, &dummy_rank);
                span = match span {
                    None => Some((rr, rr)),
                    Some((lo, hi)) => Some((if rr < lo { rr } else { lo }, if rr > hi { rr } else { hi })),
                };
                k = k + 1;
            }
            item_w.set(it, wmax);
            item_lo.push(span);
            it = it + 1;
        }
        let mut item_x: Vec<Option<usize>> = Vec::new();
        let mut it: usize = 0;
        while it < nitems
            invariant
                item_x@.len() == it,
                it <= nitems,
            decreases nitems - it,
        {
            item_x.push(None);
            it = it + 1;
        }
        let mut cursor = filled(nranks, 0);
        let mut r: usize = 0;
        while r < nranks
            invariant
                item_x@.len() == nitems,
                cursor@.len() == nranks,
            decreases nranks - r,
        {
            let mut seen: Vec<usize> = Vec::new();
            let mut k: usize = 0;
            while k < ranks[r].len()
                invariant
                    below(seen@, nitems as int),
                    r < nranks,
                decreases ranks@[r as int]@.len() - k,
            {
                let item = item_of[ranks[r][k]];
                if !contains_index(&seen, item) {
                    seen.push(item);
                }
                k = k + 1;
            }
            let mut k: usize = 0;
            while k < seen.len()
                invariant
                    item_x@.len() == nitems,
                    cursor@.len() == nranks,
                    below(seen@, nitems as int),
                decreases seen.len() - k,
            {
                let item = seen[k];
                if item_x[item].is_none() {
                    match item_lo[item] {
                        Some((lo, hi)) => {
                            let pad = if item < ng { GROUP_PAD } else { 0 };
                            let mut off: usize = 0;
                            let mut q = lo;
                            while q <= hi
                                invariant
                                    hi < nranks,
                                    cursor@.len() == nranks,
                                decreases hi + 1 - q,
                            {
                                if cursor[q] > off {
                                    off = cursor[q];
                                }
                                q = q + 1;
                            }
                            let off = off.saturating_add(pad);
                            item_x.set(item, Some(off));
                            let next = off.saturating_add(item_w[item]).saturating_add(pad).saturating_add(HGAP);
                            let mut q = lo;
                            while q <= hi
                                invariant
                                    hi < nranks,
                                    cursor@.len() == nranks,
                                decreases hi + 1 - q,
                            {
                                cursor.set(q, next);
                                q = q + 1;
                            }
                        },
                        None => {},
                    }
                }
                k = k + 1;
            }
            r = r + 1;
        }
        let mut i: usize = 0;
        while i < total
            invariant
                pu@.len() == total,
            decreases total - i,
        {
            let add = match item_x[item_of[i]] {
                Some(x) => x,
                None => 0,
            };
            let v = pu[i].saturating_add(add);
            pu.set(i, v);
            i = i + 1;
        }
        let mut body_extent: usize = 0;
        let mut i: usize = 0;
        while i < n
            decreases n - i,
        {
            let e = pu[i].saturating_add(psz[i]);
            if e > body_extent {
                body_extent = e;
            }
            i = i + 1;
        }
        let body_extent = body_extent.saturating_add(1);
        let mut gutters0: Vec<(usize, usize)> = Vec::new();
        let mut k: usize = 0;
        while k < feedback.len()
            invariant
                forall|q: int| 0 <= q < gutters0@.len() ==> (#[trigger] gutters0@[q]).0 < self.edges@.len(),
                gutters0@.len() == k,
                k <= feedback@.len(),
            decreases feedback.len() - k,
        {
            let gx = body_extent.saturating_add(1).saturating_add(k * 2);
            gutters0.push((feedback[k], gx));
            k = k + 1;
        }
        let mut band_rows = filled(nranks, 1);
        let mut seg_row = filled(segments.len(), 0);
        let mut fb_row: Vec<Option<usize>> = Vec::new();
        let mut k: usize = 0;
        while k < self.edges.len()
            invariant
                fb_row@.len() == k,
                k <= self.edges@.len(),
            decreases self.edges.len() - k,
        {
            fb_row.push(None);
            k = k + 1;
        }
        let mut r: usize = 0;
        while r < nranks
            invariant
                band_rows@.len() == nranks,
                forall|q: int| 0 <= q < nranks ==> band_rows@[q] >= 1,
                seg_row@.len() == segments@.len(),
                fb_row@.len() == self.edges@.len(),
            decreases nranks - r,
        {
            let mut intervals: Vec<(usize, usize, Slot)> = Vec::new();
            let mut si: usize = 0;
            while si < segments.len()
                invariant
                    forall|q: int| 0 <= q < intervals@.len() ==> slot_ok((#[trigger] intervals@[q]).2, segments@.len(), self.edges@.len()),
                decreases segments.len() - si,
            {
                let seg = segments[si];
                let ra = node_rank(seg.top, n, &rank, &dummy_rank);
                if ra == r {
                    let ax = center(pu[seg.top], psz[seg.top]);
                    let bx = center(pu[seg.bottom], psz[seg.bottom]);
                    let lab = chars_width(self.edges[seg.edge].label.as_slice());
                    let lo = if ax < bx { ax } else { bx };
                    let hi0 = if ax < bx { bx } else { ax };
                    let hi = if lab > 0 { hi0.saturating_add(lab).saturating_add(2) } else { hi0 };
                    intervals.push((lo, hi, Slot::Piece(si)));
                }
                si = si + 1;
            }
            let mut k: usize = 0;
            while k < gutters0.len()
                invariant
                    forall|q: int| 0 <= q < intervals@.len() ==> slot_ok((#[trigger] intervals@[q]).2, segments@.len(), self.edges@.len()),
                decreases gutters0.len() - k,
            {
                let (e, gx) = gutters0[k];
                let src = self.edges[e].from;
                if rank[src] == r {
                    let lo = center(pu[src], psz[src]);
                    let lab = chars_width(self.edges[e].label.as_slice());
                    let reach = lo.saturating_add(lab).saturating_add(2);
                    let hi = if gx > reach { gx } else { reach };
                    intervals.push((lo, hi, Slot::Back(e)));
                }
                k = k + 1;
            }
            let sorted = sort_intervals(&intervals, segments.len(), self.edges.len());
            let mut ends: Vec<usize> = Vec::new();
            let mut k: usize = 0;
            while k < sorted.len()
                invariant
                    seg_row@.len() == segments@.len(),
                    fb_row@.len() == self.edges@.len(),
                    forall|q: int| 0 <= q < sorted@.len() ==> slot_ok((#[trigger] sorted@[q]).2, segments@.len(), self.edges@.len()),
                decreases sorted.len() - k,
            {
                let (lo, hi, tag) = sorted[k];
                let mut slot: usize = 0;
                while slot < ends.len() && !(lo > 0 && ends[slot] < lo - 1)
                    invariant
                        slot <= ends@.len(),
                    decreases ends.len() - slot,
                {
                    slot = slot + 1;
                }
                if slot == ends.len() {
                    ends.push(hi);
                } else {
                    ends.set(slot, hi);
                }
                match tag {
                    Slot::Back(e) => fb_row.set(e, Some(slot)),
                    Slot::Piece(p) => seg_row.set(p, slot),
                }
                k = k + 1;
            }
            band_rows.set(r, if ends.len() > 1 { ends.len() } else { 1 });
            r = r + 1;
        }
        let group_ranks = self.group_rank_spans(&ranks, n);
        let mut rank_v = filled(nranks, 0);
        let mut band_start = filled(nranks, 0);
        let mut vv: usize = 0;
        let mut r: usize = 0;
        while r < nranks
            invariant
                rank_v@.len() == nranks,
                band_start@.len() == nranks,
            decreases nranks - r,
        {
            let mut opens = false;
            let mut closes = false;
            let mut k: usize = 0;
            while k < group_ranks.len()
                decreases group_ranks.len() - k,
            {
                if group_ranks[k].1 == r {
                    opens = true;
                }
                if group_ranks[k].2 == r {
                    closes = true;
                }
                k = k + 1;
            }
            if opens {
                vv = vv.saturating_add(2);
            }
            rank_v.set(r, vv);
            vv = vv.saturating_add(rank_extent[r]);
            if closes {
                vv = vv.saturating_add(1);
            }
            band_start.set(r, vv);
            if r + 1 < nranks {
                vv = vv.saturating_add(band_rows[r]).saturating_add(2);
            }
            r = r + 1;
        }
        let total_v = vv;
        let mut placed: Vec<Placed> = Vec::new();
        let mut i: usize = 0;
        while i < total
            invariant
                i <= total,
                placed@.len() == i,
                forall|q: int| 0 <= q < i && q < n ==> (#[trigger] placed@[q]).node == q && !placed@[q].dummy,
                forall|q: int| 0 <= q < i ==> (#[trigger] placed@[q]).rank < nranks && placed@[q].h >= 1,
                forall|q: int| 0 <= q < i ==> (!(#[trigger] placed@[q]).dummy ==> placed@[q].node < n),
            decreases total - i,
        {
            let rr = node_rank(i, n, &rank, &dummy_rank);
            let (w, h) = if i < n { (boxes[i].0, boxes[i].1) } else { (psz[i], rank_extent[rr]) };
            placed.push(Placed { x: pu[i], y: rank_v[rr], w, h, rank: rr, dummy: i >= n, node: i });
            i = i + 1;
        }
        self.separate_groups(&mut placed, n);
        self.compact_x(&mut placed);
        let mut minu: usize = usize::MAX;
        let mut k: usize = 0;
        while k < placed.len()
            invariant
                forall|q: int| 0 <= q < k ==> minu <= placed@[q].x,
            decreases placed.len() - k,
        {
            if placed[k].x < minu {
                minu = placed[k].x;
            }
            k = k + 1;
        }
        let pad = if self.groups.len() == 0 { 0 } else { 2 };
        let ghost before = placed@;
        let mut k: usize = 0;
        while k < placed.len()
            invariant
                placed@.len() == before.len(),
                forall|q: int| 0 <= q < placed@.len() ==> same_but_x(#[trigger] placed@[q], before[q]),
                forall|q: int| k <= q < placed@.len() ==> placed@[q] == before[q],
                forall|q: int| 0 <= q < before.len() ==> minu <= before[q].x,
            decreases placed.len() - k,
        {
            let mut p = placed[k];
            p.x = (p.x - minu).saturating_add(pad);
            placed.set(k, p);
            k = k + 1;
        }
        let mut body: usize = 0;
        let mut k: usize = 0;
        while k < placed.len()
            decreases placed.len() - k,
        {
            if !placed[k].dummy {
                let e = placed[k].x.saturating_add(placed[k].w);
                if e > body {
                    body = e;
                }
            }
            k = k + 1;
        }
        let body_extent = body.saturating_add(2);
        let mut gutters: Vec<(usize, usize)> = Vec::new();
        let mut k: usize = 0;
        while k < gutters0.len()
            invariant
                forall|q: int| 0 <= q < gutters@.len() ==> (#[trigger] gutters@[q]).0 < self.edges@.len(),
                forall|q: int| 0 <= q < gutters0@.len() ==> (#[trigger] gutters0@[q]).0 < self.edges@.len(),
            decreases gutters0.len() - k,
        {
            gutters.push((gutters0[k].0, body_extent.saturating_add(k * 2)));
            k = k + 1;
        }
        let total_u = if gutters.len() > 0 {
            gutters[gutters.len() - 1].1.saturating_add(2)
        } else {
            body_extent
        }.saturating_add(GROUP_PAD);
        let mut lines: Vec<Vec<Vec<char>>> = Vec::new();
        let mut i: usize = 0;
        while i < n
            invariant
                lines@.len() == i,
                i <= n,
            decreases n - i,
        {
            lines.push(boxes[i].2.clone());
            i = i + 1;
        }
        Some(Plan {
            placed,
            segments,
            seg_row,
            band_rows,
            band_start,
            gutters,
            fb_row,
            selfloop,
            total_w: total_u,
            total_h: total_v.saturating_add(1),
            lines,
        })
    }
}

/// A band slot names a piece below `nseg` or an edge below `nedge`.
spec fn slot_ok(s: Slot, nseg: nat, nedge: nat) -> bool {
    match s {
        Slot::Piece(x) => x < nseg,
        Slot::Back(x) => x < nedge,
    }
}

/// Sorts band intervals by their left end, keeping the order of ties.
#[verifier::loop_isolation(false)]
fn sort_intervals(v: &Vec<(usize, usize, Slot)>, nseg: usize, nedge: usize) -> (r: Vec<(usize, usize, Slot)>)
    requires
        forall|q: int| 0 <= q < v@.len() ==> slot_ok((#[trigger] v@[q]).2, nseg as nat, nedge as nat),
    ensures
        forall|q: int| 0 <= q < r@.len() ==> slot_ok((#[trigger] r@[q]).2, nseg as nat, nedge as nat),
        r@.to_multiset() == v@.to_multiset(),
        forall|a: int, b: int| 0 <= a < b < r@.len() ==> (#[trigger] r@[a]).0 <= (#[trigger] r@[b]).0,
{
    proof {
        broadcast use vstd::seq_lib::group_to_multiset_ensures;
    }
    let mut out: Vec<(usize, usize, Slot)> = Vec::new();
    let mut i: usize = 0;
    while i < v.len()
        invariant
            i <= v@.len(),
            forall|q: int| 0 <= q < out@.len() ==> slot_ok((#[trigger] out@[q]).2, nseg as nat, nedge as nat),
            out@.to_multiset() == v@.take(i as int).to_multiset(),
            forall|a: int, b: int| 0 <= a < b < out@.len() ==> (#[trigger] out@[a]).0 <= (#[trigger] out@[b]).0,
        decreases v.len() - i,
    {
        let x = v[i];
        let mut j: usize = out.len();
        while j > 0 && out[j - 1].0 > x.0
            invariant
                j <= out@.len(),
                forall|q: int| j <= q < out@.len() ==> (#[trigger] out@[q]).0 > x.0,
            decreases j,
        {
            j = j - 1;
        }
        let ghost prev = out@;
        out.insert(j, x);
        assert forall|q: int| 0 <= q < out@.len() implies slot_ok((#[trigger] out@[q]).2, nseg as nat, nedge as nat) by {
            if q < j {
                assert(out@[q] == prev[q]);
            } else if q > j {
                assert(out@[q] == prev[q - 1]);
            }
        }
        proof {
            vstd::seq_lib::to_multiset_insert(prev, j as int, x);
            assert(v@.take(i + 1) =~= v@.take(i as int).push(x));
            assert forall|a: int, b: int| 0 <= a < b < out@.len() implies (#[trigger] out@[a]).0 <= (#[trigger] out@[b]).0 by {
                if b < j {
                    assert(out@[a] == prev[a] && out@[b] == prev[b]);
                } else if b == j {
                    assert(out@[a] == prev[a]);
                    if j > 0 {
                        assert(prev[j - 1].0 <= x.0);
                        if a < j - 1 {
                            assert(prev[a].0 <= prev[j - 1].0);
                        }
                    }
                } else if a == j {
                    assert(out@[b] == prev[b - 1]);
                } else if a < j {
                    assert(out@[a] == prev[a] && out@[b] == prev[b - 1]);
                } else {
                    assert(out@[a] == prev[a - 1] && out@[b] == prev[b - 1]);
                }
            }
        }
        i = i + 1;
    }
    assert(v@.take(v@.len() as int) =~= v@);
    out
}

/// The glyph for an edge mark at its lower (`down`) or upper end: none
/// for a plain end, `▼▲` for an arrow, `▽△` for a hollow head, `◆` or `◇`
/// for a diamond, `×` for a cross.
spec fn arrow_glyph(a: MArrow, down: bool) -> Option<char> {
    match a {
        MArrow::Plain => None,
        MArrow::Open => Some(if down { '\u{25bc}' } else { '\u{25b2}' }),
        MArrow::Hollow => Some(if down { '\u{25bd}' } else { '\u{25b3}' }),
        MArrow::Diamond => Some('\u{25c6}'),
        MArrow::HollowDiamond => Some('\u{25c7}'),
        MArrow::Cross => Some('\u{d7}'),
    }
}

/// The glyph for an edge mark at its lower (`down`) or upper end.
fn arrow_char(a: MArrow, down: bool) -> (r: Option<char>)
    ensures
        r == arrow_glyph(a, down),
{
    match a {
        MArrow::Plain => None,
        MArrow::Open => Some(if down { '\u{25bc}' } else { '\u{25b2}' }),
        MArrow::Hollow => Some(if down { '\u{25bd}' } else { '\u{25b3}' }),
        MArrow::Diamond => Some('\u{25c6}'),
        MArrow::HollowDiamond => Some('\u{25c7}'),
        MArrow::Cross => Some('\u{d7}'),
    }
}

/// Whether `a + b` fits a `usize`.
fn fits_sum(a: usize, b: usize) -> (r: bool)
    ensures
        r == (a + b <= usize::MAX),
{
    a <= usize::MAX - b
}

/// Draws a box's outline.
fn draw_shape(c: &mut Canvas, x: usize, y: usize, w: usize, h: usize, shape: MShape)
    requires
        old(c).wf(),
        x + w <= usize::MAX,
        y + h <= usize::MAX,
    ensures
        final(c).wf(),
        final(c).width() == old(c).width(),
        final(c).height() == old(c).height(),
        w < 2 || h < 2 ==> *final(c) == *old(c),
        same_outside(*old(c), *final(c), x - 1, x + w, y as int, y + h - 1),
        w >= 2 && h >= 2 && shape == MShape::Diamond && x < old(c).width() && y < old(c).height() ==> final(c).cell(
            x as int,
            y as int,
        ) == '\u{25c7}',
        w >= 2 && h >= 2 && shape != MShape::Diamond && shape != MShape::Cylinder ==> {
            let (x1, y1) = (x + w - 1, y + h - 1);
            let (cw, ch) = (old(c).width(), old(c).height());
            &&& x < cw && y < ch ==> final(c).cell(x as int, y as int) == '┌'
            &&& x1 < cw && y < ch ==> final(c).cell(x1, y as int) == '┐'
            &&& x < cw && y1 < ch ==> final(c).cell(x as int, y1) == '└'
            &&& x1 < cw && y1 < ch ==> final(c).cell(x1, y1) == '┘'
        },
{
    let ghost c0 = *c;
    c.rect(x, y, w, h);
    if w < 2 || h < 2 {
        return;
    }
    let ghost c1 = *c;
    match shape {
        MShape::Cylinder => {
            if w >= 3 {
                c.hline(x + 1, x + w - 2, y, '\u{2550}');
                let ghost c2 = *c;
                c.hline(x + 1, x + w - 2, y + h - 1, '\u{2550}');
                proof {
                    assert forall|i: int, j: int| (j < y || j > y + h - 1 || i < x - 1 || i > x + w) implies #[trigger] c.cell(i, j)
                        == c0.cell(i, j) by {
                        assert(c1.cell(i, j) == c0.cell(i, j));
                        assert(c2.cell(i, j) == c1.cell(i, j));
                    }
                }
            }
        },
        MShape::Subroutine => {
            let mut yy = y + 1;
            let end = y + h.saturating_sub(1);
            while yy < end
                invariant
                    c.wf(),
                    c.width() == old(c).width(),
                    c.height() == old(c).height(),
                    x + w <= usize::MAX,
                    w >= 2,
                    h >= 2,
                    end == y + h - 1,
                    y + 1 <= yy,
                    same_outside(c1, *c, x - 1, x + w, y + 1, y + h - 2),
                decreases end - yy,
            {
                let ghost c2 = *c;
                c.set(x + 1, yy, '│');
                let ghost c3 = *c;
                c.set(x + w.saturating_sub(2), yy, '│');
                proof {
                    assert forall|i: int, j: int| (j < y + 1 || j > y + h - 2 || i < x - 1 || i > x + w) implies #[trigger] c.cell(
                        i,
                        j,
                    ) == c1.cell(i, j) by {
                        assert(c2.cell(i, j) == c1.cell(i, j));
                        assert(c3.cell(i, j) == c2.cell(i, j));
                    }
                }
                yy = yy + 1;
            }
            proof {
                assert forall|i: int, j: int| (j < y || j > y + h - 1 || i < x - 1 || i > x + w) implies #[trigger] c.cell(i, j)
                    == c0.cell(i, j) by {
                    assert(c1.cell(i, j) == c0.cell(i, j));
                }
                assert(c.cell(x as int, y as int) == c1.cell(x as int, y as int));
                assert(c.cell(x + w - 1, y as int) == c1.cell(x + w - 1, y as int));
                assert(c.cell(x as int, y + h - 1) == c1.cell(x as int, y + h - 1));
                assert(c.cell(x + w - 1, y + h - 1) == c1.cell(x + w - 1, y + h - 1));
            }
        },
        MShape::Diamond => {
            c.set(x, y, '\u{25c7}');
            proof {
                assert forall|i: int, j: int| (j < y || j > y + h - 1 || i < x - 1 || i > x + w) implies #[trigger] c.cell(i, j)
                    == c0.cell(i, j) by {
                    assert(c1.cell(i, j) == c0.cell(i, j));
                }
            }
        },
        _ => {},
    }
}

/// Whether no piece before index `si` belongs to `edge`.
fn first_piece(segments: &Vec<Seg>, si: usize, edge: usize) -> (r: bool)
    requires
        si <= segments@.len(),
    ensures
        r == (forall|k: int| 0 <= k < si ==> (#[trigger] segments@[k]).edge != edge),
{
    let mut k: usize = 0;
    while k < si
        invariant
            si <= segments@.len(),
            k <= si,
            forall|q: int| 0 <= q < k ==> (#[trigger] segments@[q]).edge != edge,
        decreases si - k,
    {
        if segments[k].edge == edge {
            return false;
        }
        k = k + 1;
    }
    true
}

/// Whether no piece after index `si` belongs to `edge`.
fn last_piece(segments: &Vec<Seg>, si: usize, edge: usize) -> (r: bool)
    ensures
        r == (forall|k: int| si < k < segments@.len() ==> (#[trigger] segments@[k]).edge != edge),
{
    let mut k: usize = si.saturating_add(1);
    while k < segments.len()
        invariant
            si < k || (si == usize::MAX && k == usize::MAX),
            forall|q: int| si < q < k ==> (#[trigger] segments@[q]).edge != edge,
        decreases segments.len() - k,
    {
        if segments[k].edge == edge {
            assert(segments@[k as int].edge == edge);
            return false;
        }
        k = k + 1;
    }
    assert forall|q: int| si < q < segments@.len() implies (#[trigger] segments@[q]).edge != edge by {
        assert(q < k);
    }
    true
}

impl Graph {
    /// Draws a plan: subgraph frames, edge wiring with its marks and
    /// labels, back edges through their gutters, self-loops, then the
    /// boxes on top.
    #[verifier::loop_isolation(false)]
    #[verifier::rlimit(50)]
    fn draw(&self, plan: &Plan) -> (r: Vec<Vec<char>>)
        requires
            self.wf(),
            plan.fits(self.nodes@.len(), self.edges@.len()),
            plan.total_w <= 0xffff,
            plan.total_h + 2 <= usize::MAX,
            (plan.total_w + 2) * (plan.total_h + 2) <= usize::MAX,
        ensures
            r@.len() == plan.total_h + 2,
            forall|i: int| 0 <= i < r@.len() ==> r@[i]@.len() <= plan.total_w + 2,
    {
        let n = self.nodes.len();
        let cw = plan.total_w + 2;
        let mut c = Canvas::new(cw, plan.total_h + 2);
        let mut group_titles: Vec<(usize, usize, Vec<char>)> = Vec::new();
        let mut gi: usize = 0;
        while gi < self.groups.len()
            invariant
                c.wf(),
                c.width() == cw,
                c.height() == plan.total_h + 2,
                cw <= 0x10001,
            decreases self.groups.len() - gi,
        {
            let g = &self.groups[gi];
            let mut any = false;
            let (mut x0, mut x1, mut y0, mut y1) = (0usize, 0usize, 0usize, 0usize);
            let mut k: usize = 0;
            while k < plan.placed.len()
                decreases plan.placed.len() - k,
            {
                let p = plan.placed[k];
                if !p.dummy && contains_index(&g.members, p.node) {
                    let xe = p.x.saturating_add(p.w);
                    let ye = p.y.saturating_add(p.h);
                    if !any {
                        x0 = p.x;
                        x1 = xe;
                        y0 = p.y;
                        y1 = ye;
                        any = true;
                    } else {
                        if p.x < x0 {
                            x0 = p.x;
                        }
                        if xe > x1 {
                            x1 = xe;
                        }
                        if p.y < y0 {
                            y0 = p.y;
                        }
                        if ye > y1 {
                            y1 = ye;
                        }
                    }
                }
                k = k + 1;
            }
            if any {
                let x0 = x0.saturating_sub(2);
                let x1 = x1.saturating_add(1);
                let y0 = y0.saturating_sub(2);
                let title = truncate(&g.title, 28);
                let tw = chars_width(title.as_slice()).saturating_add(6);
                let span = x1.saturating_add(1).saturating_sub(x0);
                let w = if span > tw { span } else { tw };
                let h = y1.saturating_add(1).saturating_sub(y0);
                if fits_sum(x0, w) && fits_sum(y0, h) {
                    c.rect(x0, y0, w, h);
                }
                if title.len() > 0 {
                    let mut t: Vec<char> = Vec::new();
                    t.push(' ');
                    t.append(&mut title.clone());
                    t.push(' ');
                    group_titles.push((x0.saturating_add(2), y0, t));
                }
            }
            gi = gi + 1;
        }
        let mut labels: Vec<(usize, usize, Vec<char>)> = Vec::new();
        let mut si: usize = 0;
        while si < plan.segments.len()
            invariant
                c.wf(),
                c.width() == cw,
                c.height() == plan.total_h + 2,
                cw <= 0x10001,
            decreases plan.segments.len() - si,
        {
            let seg = plan.segments[si];
            let e = &self.edges[seg.edge];
            let upper = plan.placed[seg.top];
            let lower = plan.placed[seg.bottom];
            let band_v = plan.band_start[upper.rank];
            let rows = plan.band_rows[upper.rank] - 1;
            let slot = if plan.seg_row[si] < rows { plan.seg_row[si] } else { rows };
            let row = band_v.saturating_add(slot);
            let uu = center(upper.x, upper.w);
            let lu0 = center(lower.x, lower.w);
            let close = if uu >= lu0 { uu - lu0 <= 1 } else { lu0 - uu <= 1 };
            let lu = if close { uu } else { lu0 };
            let from_v = if upper.dummy { upper.y } else { upper.y.saturating_add(upper.h) };
            let to_v = if lower.dummy {
                lower.y.saturating_add(lower.h) - 1
            } else {
                lower.y.saturating_sub(1)
            };
            if uu == lu {
                c.vline(uu, from_v, to_v, '│');
            } else {
                if row > from_v {
                    c.vline(uu, from_v, row - 1, '│');
                }
                let lo = if uu < lu { uu } else { lu };
                let hi = if uu < lu { lu } else { uu };
                c.hline(lo + 1, hi - 1, row, '─');
                if to_v > row {
                    c.vline(lu, row + 1, to_v, '│');
                }
                if lu > uu {
                    c.draw(uu, row, '└');
                    c.draw(lu, row, '┐');
                } else {
                    c.draw(uu, row, '┘');
                    c.draw(lu, row, '┌');
                }
            }
            let is_first = first_piece(&plan.segments, si, seg.edge);
            let is_last = last_piece(&plan.segments, si, seg.edge);
            if is_last && !lower.dummy {
                match arrow_char(e.head, true) {
                    Some(ch) => c.draw(lu, to_v, ch),
                    None => {},
                }
                if e.head_tag.len() > 0 {
                    c.text_chars(lu.saturating_add(2), to_v, e.head_tag.as_slice());
                }
            }
            if is_first && !upper.dummy {
                match arrow_char(e.tail, false) {
                    Some(ch) => c.draw(uu, from_v, ch),
                    None => {},
                }
                if e.tail_tag.len() > 0 {
                    c.text_chars(uu.saturating_add(2), from_v, e.tail_tag.as_slice());
                }
            }
            if e.label.len() > 0 && is_first {
                let lab = truncate(&e.label, 24);
                let lw = chars_width(lab.as_slice());
                let tt = if e.tail_tag.len() > 0 { chars_width(e.tail_tag.as_slice()).saturating_add(1) } else { 0 };
                let ht = if e.head_tag.len() > 0 { chars_width(e.head_tag.as_slice()).saturating_add(1) } else { 0 };
                let tag_pad = if tt > ht { tt } else { ht };
                let lo = if uu < lu { uu } else { lu };
                let hi = if uu < lu { lu } else { uu };
                let lu_at = if hi - lo < lw {
                    hi.saturating_add(2).saturating_add(tag_pad)
                } else {
                    let sum = lo.saturating_add(hi);
                    let mid = sum / 2 + sum % 2;
                    mid.saturating_sub(lw / 2)
                };
                labels.push((lu_at, row, lab));
            }
            si = si + 1;
        }
        let mut k: usize = 0;
        while k < plan.gutters.len()
            invariant
                c.wf(),
                c.width() == cw,
                c.height() == plan.total_h + 2,
                cw <= 0x10001,
            decreases plan.gutters.len() - k,
        {
            let (ei, gv) = plan.gutters[k];
            let e = &self.edges[ei];
            let src = plan.placed[e.from];
            let tgt = plan.placed[e.to];
            let su = center(src.x, src.w);
            let tv = tgt.y.saturating_add(tgt.h / 2);
            let slot = match plan.fb_row[ei] {
                Some(s) => s,
                None => 0,
            };
            let sv = plan.band_start[src.rank].saturating_add(slot);
            let gl = gv.saturating_sub(1);
            c.hline(su.saturating_add(1), gl, sv, '─');
            c.vline(gv, tv.saturating_add(1), sv.saturating_sub(1), '│');
            let tr = tgt.x.saturating_add(tgt.w);
            c.hline(tr.saturating_add(1), gl, tv, '─');
            c.draw(su, sv, '└');
            c.draw(gv, sv, '┘');
            c.draw(gv, tv, '┐');
            if arrow_char(e.head, true).is_some() {
                c.draw(tr, tv, '\u{25c0}');
            }
            if e.label.len() > 0 {
                labels.push((su.saturating_add(2), sv, truncate(&e.label, 20)));
            }
            k = k + 1;
        }
        let mut k: usize = 0;
        while k < group_titles.len()
            invariant
                c.wf(),
                c.width() == cw,
                c.height() == plan.total_h + 2,
                cw <= 0x10001,
            decreases group_titles.len() - k,
        {
            c.text_chars(group_titles[k].0, group_titles[k].1, group_titles[k].2.as_slice());
            k = k + 1;
        }
        let mut k: usize = 0;
        while k < labels.len()
            invariant
                c.wf(),
                c.width() == cw,
                c.height() == plan.total_h + 2,
                cw <= 0x10001,
            decreases labels.len() - k,
        {
            let (u, v, lab) = (labels[k].0, labels[k].1, &labels[k].2);
            let mut cx: usize = 0;
            let mut q: usize = 0;
            while q < lab.len()
                invariant
                    c.wf(),
                    c.width() == cw,
                    c.height() == plan.total_h + 2,
                    cw <= 0x10001,
                decreases lab.len() - q,
            {
                let ch = lab[q];
                let rx = u.saturating_add(cx);
                let existing = c.get(rx, v);
                if existing == ' ' || is_connector_char(existing) {
                    let one = one_char(ch);
                    c.text_chars(rx, v, one.as_slice());
                }
                cx = cx.saturating_add(char_cols(ch));
                q = q + 1;
            }
            k = k + 1;
        }
        let mut k: usize = 0;
        while k < plan.selfloop.len()
            invariant
                c.wf(),
                c.width() == cw,
                c.height() == plan.total_h + 2,
                cw <= 0x10001,
            decreases plan.selfloop.len() - k,
        {
            let e = &self.edges[plan.selfloop[k]];
            let p = plan.placed[e.from];
            let mut text: Vec<char> = Vec::new();
            text.push('\u{21ba}');
            if e.label.len() > 0 {
                text.push(' ');
                let mut t = truncate(&e.label, 18);
                text.append(&mut t);
            }
            c.text_chars(p.x.saturating_add(p.w).saturating_add(1), p.y.saturating_add(p.h / 2), text.as_slice());
            k = k + 1;
        }
        let mut k: usize = 0;
        while k < plan.placed.len()
            invariant
                c.wf(),
                c.width() == cw,
                c.height() == plan.total_h + 2,
                cw <= 0x10001,
            decreases plan.placed.len() - k,
        {
            let p = plan.placed[k];
            if !p.dummy && fits_sum(p.x, p.w) && fits_sum(p.y, p.h) {
                let node = &self.nodes[p.node];
                c.clear_rect(p.x, p.y, p.w, p.h);
                draw_shape(&mut c, p.x, p.y, p.w, p.h, node.shape);
                let lines = &plan.lines[p.node];
                let mut before_divider = true;
                let mut i: usize = 0;
                while i < lines.len()
                    invariant
                        c.wf(),
                        c.width() == cw,
                        c.height() == plan.total_h + 2,
                        cw <= 0x10001,
                    decreases lines.len() - i,
                {
                    let y = p.y.saturating_add(1).saturating_add(i);
                    if is_divider(&lines[i]) {
                        let xr = (p.x + p.w).saturating_sub(1);
                        c.hline(p.x, xr, y, '─');
                        c.set(p.x, y, '├');
                        c.set(xr, y, '┤');
                        before_divider = false;
                    } else {
                        let inner = p.w.saturating_sub(2);
                        let head = node.header && i == 0;
                        let centered = !node.left_align || head || before_divider;
                        let off = if centered {
                            inner.saturating_sub(chars_width(lines[i].as_slice())) / 2
                        } else {
                            1
                        };
                        c.text_chars(p.x.saturating_add(1).saturating_add(off), y, lines[i].as_slice());
                    }
                    i = i + 1;
                }
            }
            k = k + 1;
        }
        c.into_lines()
    }

    /// Renders the graph in at most `width` columns, trying narrower label
    /// caps, then folded class and entity bodies, then (for diagrams with
    /// such boxes) ranks split into rows; `None` when nothing fits.
    #[verifier::loop_isolation(false)]
    fn render(&self, width: usize) -> (r: Option<Vec<Vec<char>>>)
        requires
            self.wf(),
            width <= 0xffff,
        ensures
            r matches Some(lines) ==> forall|i: int| 0 <= i < lines@.len() ==> lines@[i]@.len() <= width + 2,
            r is Some ==> width >= 4,
    {
        let caps: [usize; 6] = [30, 24, 20, 16, 12, 9];
        let mut f: usize = 0;
        while f < 2
            decreases 2 - f,
        {
            let fold = f == 1;
            let mut k: usize = 0;
            while k < 6
                decreases 6 - k,
            {
                let cap = caps[k];
                let boxes = self.sizes(cap, fold);
                match self.place(&boxes, width, false) {
                    Some(plan) => {
                        if plan.total_w <= width && canvas_fits(plan.total_w, plan.total_h) {
                            return Some(self.draw(&plan));
                        }
                    },
                    None => {},
                }
                k = k + 1;
            }
            f = f + 1;
        }
        let mut any_header = false;
        let mut i: usize = 0;
        while i < self.nodes.len()
            decreases self.nodes.len() - i,
        {
            if self.nodes[i].header {
                any_header = true;
            }
            i = i + 1;
        }
        if any_header {
            let boxes = self.sizes(9, true);
            match self.place(&boxes, width, true) {
                Some(plan) => {
                    if plan.total_w <= width && canvas_fits(plan.total_w, plan.total_h) {
                        return Some(self.draw(&plan));
                    }
                },
                None => {},
            }
        }
        None
    }
}

/// Whether a canvas two cells wider and taller than `w` by `h` has a
/// size that fits a `usize`.
fn canvas_fits(w: usize, h: usize) -> (r: bool)
    ensures
        r == (w + 2 <= usize::MAX && h + 2 <= usize::MAX && (w + 2) * (h + 2) <= usize::MAX),
{
    proof {
        if w >= usize::MAX - 2 && h + 2 <= usize::MAX {
            assert((w + 2) * (h + 2) > usize::MAX) by (nonlinear_arith)
                requires
                    w + 2 >= usize::MAX,
                    h >= 0,
            ;
        }
        if h >= usize::MAX - 2 && w + 2 <= usize::MAX {
            assert((w + 2) * (h + 2) > usize::MAX) by (nonlinear_arith)
                requires
                    h + 2 >= usize::MAX,
                    w >= 0,
            ;
        }
    }
    if w >= usize::MAX - 2 || h >= usize::MAX - 2 {
        return false;
    }
    match (w + 2).checked_mul(h + 2) {
        Some(_) => true,
        None => false,
    }
}

// ---------------------------------------------------------------- engine

/// The mermaid keyword a short kind stands for, for fallback messages.
pub open spec fn display_kind(short: Seq<char>) -> Seq<char> {
    if short == "er"@ {
        "erDiagram"@
    } else if short == "class"@ {
        "classDiagram"@
    } else if short == "state"@ {
        "stateDiagram"@
    } else if short == "flowchart"@ {
        "flowchart"@
    } else {
        "generic"@
    }
}

fn display_kind_exec(short: &str) -> (r: &'static str)
    ensures
        r@ == display_kind(short@),
{
    if str_eq(short, "er") {
        "erDiagram"
    } else if str_eq(short, "class") {
        "classDiagram"
    } else if str_eq(short, "state") {
        "stateDiagram"
    } else if str_eq(short, "flowchart") {
        "flowchart"
    } else {
        "generic"
    }
}

/// What the mdview engine gives for a diagram: lines of at most
/// `width + 2` characters for a graph with nodes, never below four columns
/// (a layout is at least that wide); `Empty` for one without or for a
/// diagram that is not graph-shaped, `Overflow` when nothing fits, each
/// named by the mermaid keyword of the source's kind.
pub open spec fn mdview_outcome(src: Seq<char>, diagram: DiagramV, width: u16, r: Result<Vec<String>, Fallback>) -> bool {
    match r {
        Ok(lines) => {
            &&& diagram matches DiagramV::Graph { nodes, .. }
            &&& nodes.len() > 0
            &&& width >= 4
            &&& forall|i: int| 0 <= i < lines@.len() ==> (#[trigger] lines@[i])@.len() <= width + 2
        },
        Err(f) => match f@ {
            FallbackV::Empty { kind } => kind == display_kind(kind_of(src)) && match diagram {
                DiagramV::Graph { nodes, .. } => nodes.len() == 0,
                _ => true,
            },
            FallbackV::Overflow { kind } => kind == display_kind(kind_of(src)) && (match diagram {
                DiagramV::Graph { nodes, .. } => nodes.len() > 0,
                _ => false,
            }),
        },
    }
}

/// The layered (`mdview`) graph renderer.
pub struct MdviewEngine;

impl GraphEngine for MdviewEngine {
    fn name(&self) -> (r: &'static str)
        ensures
            r@ == "mdview"@,
    {
        "mdview"
    }

    fn supports(&self, kind: &str) -> (r: bool)
        ensures
            r == builtin_kind(kind@),
    {
        str_eq(kind, "flowchart") || str_eq(kind, "er") || str_eq(kind, "class") || str_eq(kind, "state")
            || str_eq(kind, "generic")
    }

    #[verifier::loop_isolation(false)]
    fn render(&self, src: &str, diagram: &Diagram, width: u16) -> (r: Result<Vec<String>, Fallback>)
        ensures
            mdview_outcome(src@, diagram@, width, r),
    {
        let kind = display_kind_exec(sniff_kind(src));
        let graph = match build_graph(diagram) {
            Some(g) => g,
            None => {
                return Err(Fallback::Empty { kind: kind.to_owned() });
            },
        };
        if graph.nodes.len() == 0 {
            return Err(Fallback::Empty { kind: kind.to_owned() });
        }
        if graph.nodes.len() >= 0x1000_0000 || graph.edges.len() >= 0x1000_0000
            || graph.groups.len() >= 0x1000_0000 {
            return Err(Fallback::Overflow { kind: kind.to_owned() });
        }
        match graph.render(width as usize) {
            Some(lines) => {
                let mut out: Vec<String> = Vec::new();
                let mut i: usize = 0;
                while i < lines.len()
                    invariant
                        out@.len() == i,
                        i <= lines@.len(),
                        forall|q: int| 0 <= q < i ==> (#[trigger] out@[q])@.len() <= width + 2,
                    decreases lines.len() - i,
                {
                    out.push(string_of(lines[i].as_slice()));
                    i = i + 1;
                }
                Ok(out)
            },
            None => Err(Fallback::Overflow { kind: kind.to_owned() }),
        }
    }
}

} // verus!
