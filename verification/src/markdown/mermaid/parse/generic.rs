//! Any other diagram kind: one box per line, `a --> b` style relations
//! between box titles.

use vstd::prelude::*;
use crate::text::{chars_of, find, find_str, is_alphanumeric, lemma_chars_deep_view,
    lemma_find_from_bounds, lemma_ws_pos_from_bounds, lines, lines_of, spec_is_alphanumeric,
    starts_with_str, string_of, trim, trim_slice, ws_pos_exec, ws_pos_from};
use super::{Dir, Shape, Node, EdgeStyle, Edge, Diagram, ShapeV, NodeV, EdgeStyleV, EdgeV, SubgraphV,
    DiagramV, views, result_view, is_content, node_pos, node_pos_exec};
use super::super::{Fallback, FallbackV};

verus! {

broadcast use super::group_views;

/// A word made only of letters, digits, `_` and `-`.
pub open spec fn looks_like_title(s: Seq<char>) -> bool {
    s.len() > 0 && forall|i: int|
        0 <= i < s.len() ==> spec_is_alphanumeric(#[trigger] s[i]) || s[i] == '_' || s[i] == '-'
}

/// Adds a box titled `title` unless a node of that id exists; a non-empty
/// body becomes its one attribute line.
pub open spec fn spec_ensure_box(nodes: Seq<NodeV>, title: Seq<char>, body: Option<Seq<char>>) -> Seq<
    NodeV,
> {
    if node_pos(nodes, title) is Some {
        nodes
    } else {
        let attrs = match body {
            Some(b) => if b.len() > 0 {
                seq![b]
            } else {
                Seq::empty()
            },
            None => Seq::empty(),
        };
        nodes.push(
            NodeV {
                id: title,
                shape: ShapeV::Class { name: title, attrs, methods: Seq::empty() },
            },
        )
    }
}

/// `left <sep> right` where both sides look like titles.
pub open spec fn try_sep(l: Seq<char>, sep: Seq<char>) -> Option<(Seq<char>, Seq<char>)> {
    match find(l, sep) {
        Some(idx) => {
            let left = trim(l.subrange(0, idx));
            let right = trim(l.subrange(idx + sep.len(), l.len() as int));
            if looks_like_title(left) && looks_like_title(right) {
                Some((left, right))
            } else {
                None
            }
        },
        None => None,
    }
}

pub struct GenericState {
    pub header: bool,
    pub nodes: Seq<NodeV>,
    pub edges: Seq<EdgeV>,
}

pub open spec fn add_relation(st: GenericState, left: Seq<char>, right: Seq<char>, style: EdgeStyleV) -> GenericState {
    GenericState {
        nodes: spec_ensure_box(spec_ensure_box(st.nodes, left, None), right, None),
        edges: st.edges.push(EdgeV { from: left, to: right, label: None, style }),
        ..st
    }
}

/// A content line after the header: a relation (`-->`, `->` or `:`, tried
/// in that order), else a box titled by its first word.
pub open spec fn body_step(st: GenericState, l: Seq<char>) -> GenericState {
    match try_sep(l, "-->"@) {
        Some((a, b)) => add_relation(st, a, b, EdgeStyleV::Arrow),
        None => match try_sep(l, "->"@) {
            Some((a, b)) => add_relation(st, a, b, EdgeStyleV::Arrow),
            None => match try_sep(l, ":"@) {
                Some((a, b)) => add_relation(st, a, b, EdgeStyleV::Line),
                None => {
                    let k = ws_pos_from(l, 0);
                    let title = trim(l.subrange(0, k));
                    let rest = if k < l.len() {
                        trim(l.subrange(k + 1, l.len() as int))
                    } else {
                        Seq::empty()
                    };
                    if title.len() == 0 {
                        st
                    } else {
                        GenericState {
                            nodes: spec_ensure_box(
                                st.nodes,
                                title,
                                if rest.len() == 0 {
                                    None
                                } else {
                                    Some(rest)
                                },
                            ),
                            ..st
                        }
                    }
                },
            },
        },
    }
}

pub open spec fn step(st: GenericState, raw: Seq<char>) -> GenericState {
    let l = trim(raw);
    if !is_content(l) {
        st
    } else if !st.header {
        GenericState { header: true, ..st }
    } else {
        body_step(st, l)
    }
}

pub open spec fn fold(ls: Seq<Seq<char>>) -> GenericState
    decreases ls.len(),
{
    if ls.len() == 0 {
        GenericState { header: false, nodes: Seq::empty(), edges: Seq::empty() }
    } else {
        step(fold(ls.drop_last()), ls.last())
    }
}

/// Boxes and relations from the lines after the header.
pub open spec fn spec_parse(src: Seq<char>) -> Result<DiagramV, FallbackV> {
    let st = fold(lines(src));
    if st.nodes.len() == 0 {
        Err(FallbackV::Empty { kind: "generic"@ })
    } else {
        Ok(
            DiagramV::Graph {
                dir: Dir::TB,
                nodes: st.nodes,
                edges: st.edges,
                groups: Seq::<SubgraphV>::empty(),
            },
        )
    }
}

fn looks_like_title_exec(s: &[char]) -> (r: bool)
    ensures
        r == looks_like_title(s@),
{
    if s.len() == 0 {
        return false;
    }
    let mut i: usize = 0;
    while i < s.len()
        invariant
            i <= s.len(),
            forall|j: int|
                0 <= j < i ==> spec_is_alphanumeric(#[trigger] s@[j]) || s@[j] == '_' || s@[j]
                    == '-',
        decreases s.len() - i,
    {
        let c = s[i];
        if !(is_alphanumeric(c) || c == '_' || c == '-') {
            return false;
        }
        i = i + 1;
    }
    true
}

fn ensure_box(nodes: &mut Vec<Node>, title: &[char], body: Option<&[char]>)
    ensures
        views(final(nodes)@) == spec_ensure_box(
            views(old(nodes)@),
            title@,
            match body {
                Some(b) => Some(b@),
                None => None,
            },
        ),
{
    let t = string_of(title);
    if node_pos_exec(nodes, &t).is_some() {
        return;
    }
    let mut attrs: Vec<String> = Vec::new();
    match body {
        Some(b) => {
            if b.len() > 0 {
                attrs.push(string_of(b));
            }
        },
        None => {},
    }
    proof {
        assert(views(attrs@) =~= (match body {
            Some(b) => if b@.len() > 0 {
                seq![b@]
            } else {
                Seq::empty()
            },
            None => Seq::empty(),
        }));
    }
    let name = string_of(title);
    let methods: Vec<String> = Vec::new();
    proof {
        assert(views(methods@) =~= Seq::<Seq<char>>::empty());
    }
    nodes.push(Node { id: t, shape: Shape::Class { name, attrs, methods } });
}

fn try_sep_exec<'a>(l: &'a [char], sep: &str) -> (r: Option<(&'a [char], &'a [char])>)
    ensures
        match r {
            Some((a, b)) => try_sep(l@, sep@) == Some((a@, b@)),
            None => try_sep(l@, sep@) is None,
        },
{
    match find_str(l, sep) {
        Some(idx) => {
            proof {
                lemma_find_from_bounds(l@, sep@, 0);
                assert(find(l@, sep@) == Some(idx as int));
                assert(idx + sep@.len() <= l@.len());
            }
            let sv = chars_of(sep);
            let n = sv.len();
            assert(sv@.len() == sep@.len());
            assert(idx + n <= l.len());
            let left = trim_slice(&l[0..idx]);
            let right = trim_slice(&l[idx + n..l.len()]);
            if looks_like_title_exec(left) && looks_like_title_exec(right) {
                Some((left, right))
            } else {
                None
            }
        },
        None => None,
    }
}

struct GenericAcc {
    header: bool,
    nodes: Vec<Node>,
    edges: Vec<Edge>,
}

impl View for GenericAcc {
    type V = GenericState;

    closed spec fn view(&self) -> GenericState {
        GenericState { header: self.header, nodes: views(self.nodes@), edges: views(self.edges@) }
    }
}

fn add_relation_exec(acc: &mut GenericAcc, left: &[char], right: &[char], style: EdgeStyle)
    ensures
        final(acc)@ == add_relation(old(acc)@, left@, right@, style@),
{
    ensure_box(&mut acc.nodes, left, None);
    ensure_box(&mut acc.nodes, right, None);
    acc.edges.push(Edge { from: string_of(left), to: string_of(right), label: None, style });
}

fn body_step_exec(acc: &mut GenericAcc, l: &[char])
    ensures
        final(acc)@ == body_step(old(acc)@, l@),
{
    if let Some((a, b)) = try_sep_exec(l, "-->") {
        add_relation_exec(acc, a, b, EdgeStyle::Arrow);
        return;
    }
    if let Some((a, b)) = try_sep_exec(l, "->") {
        add_relation_exec(acc, a, b, EdgeStyle::Arrow);
        return;
    }
    if let Some((a, b)) = try_sep_exec(l, ":") {
        add_relation_exec(acc, a, b, EdgeStyle::Line);
        return;
    }
    let k = ws_pos_exec(l);
    proof {
        lemma_ws_pos_from_bounds(l@, 0);
    }
    let title = trim_slice(&l[0..k]);
    let rest: &[char] = if k < l.len() {
        trim_slice(&l[k + 1..l.len()])
    } else {
        &l[0..0]
    };
    if title.len() == 0 {
        return;
    }
    if rest.len() == 0 {
        ensure_box(&mut acc.nodes, title, None);
    } else {
        ensure_box(&mut acc.nodes, title, Some(rest));
    }
}

fn step_exec(acc: &mut GenericAcc, raw: &[char])
    ensures
        final(acc)@ == step(old(acc)@, raw@),
{
    let l = trim_slice(raw);
    if l.len() == 0 || starts_with_str(l, "%%") {
        return;
    }
    if !acc.header {
        acc.header = true;
        return;
    }
    body_step_exec(acc, l);
}

/// Parses a diagram of a kind without a dedicated parser.
pub fn parse(src: &str) -> (r: Result<Diagram, Fallback>)
    ensures
        result_view(r) == spec_parse(src@),
{
    let chars = chars_of(src);
    let ls = lines_of(chars.as_slice());
    let mut acc = GenericAcc { header: false, nodes: Vec::new(), edges: Vec::new() };
    proof {
        assert(ls.deep_view().take(0) =~= Seq::<Seq<char>>::empty());
        assert(views(acc.nodes@) =~= Seq::<NodeV>::empty());
        assert(views(acc.edges@) =~= Seq::<EdgeV>::empty());
    }
    let mut i: usize = 0;
    while i < ls.len()
        invariant
            i <= ls.len(),
            acc@ == fold(ls.deep_view().take(i as int)),
        decreases ls.len() - i,
    {
        proof {
            lemma_chars_deep_view(ls@[i as int]);
            assert(ls.deep_view().take(i + 1).drop_last() =~= ls.deep_view().take(i as int));
        }
        step_exec(&mut acc, ls[i].as_slice());
        i = i + 1;
    }
    assert(ls.deep_view().take(ls.len() as int) =~= ls.deep_view());
    let GenericAcc { header: _, nodes, edges } = acc;
    if nodes.len() == 0 {
        Err(super::super::empty_fallback("generic"))
    } else {
        let groups = Vec::new();
        proof {
            assert(views(groups@) =~= Seq::<SubgraphV>::empty());
        }
        Ok(Diagram::Graph { dir: Dir::TB, nodes, edges, groups })
    }
}

} // verus!
