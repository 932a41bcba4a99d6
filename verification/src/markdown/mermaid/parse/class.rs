//! `classDiagram` diagrams.

use vstd::prelude::*;
use crate::text::{chars_of, concat, eq_str, find, find_ch, find_ch_exec, find_exec, find_str, is_ws,
    is_ws_char, join, join_exec, lemma_chars_deep_view, lemma_find_ch_from_bounds,
    lemma_find_from_bounds, lines, lines_of, push_chars, split_any, split_any_of, split_once_ch,
    starts_with_str, string_of, strip_prefix, to_vec, trim, trim_slice, trim_start,
    trim_start_slice, words, words_of};
use super::{Dir, Shape, Node, EdgeStyle, Edge, Diagram, ShapeV, NodeV, EdgeStyleV, EdgeV, SubgraphV,
    DiagramV, views, result_view, node_pos, node_pos_exec, opt_view};
use super::super::{Fallback, FallbackV};

verus! {

broadcast use super::group_views;

/// A line with any `%%` comment cut off, trimmed.
pub open spec fn class_line(raw: Seq<char>) -> Seq<char> {
    match find(raw, "%%"@) {
        Some(k) => trim(raw.subrange(0, k)),
        None => trim(raw),
    }
}

/// A visibility marker that starts a member.
pub open spec fn is_marker(c: char) -> bool {
    c == '+' || c == '-' || c == '#' || c == '~'
}

/// Members found so far when a marker after white space (or at the start)
/// begins a new member, and the member in progress.
pub open spec fn markers_state(s: Seq<char>) -> (Seq<Seq<char>>, Seq<char>)
    decreases s.len(),
{
    if s.len() == 0 {
        (Seq::empty(), Seq::empty())
    } else {
        let (res, cur) = markers_state(s.drop_last());
        let i = s.len() - 1;
        let c = s.last();
        let boundary = i == 0 || is_ws(s[i - 1]);
        if is_marker(c) && boundary && trim(cur).len() > 0 {
            (res.push(trim(cur)), seq![c])
        } else {
            (res, cur.push(c))
        }
    }
}

/// A one-line class body cut before each visibility marker.
pub open spec fn split_by_markers(s: Seq<char>) -> Seq<Seq<char>> {
    let (res, cur) = markers_state(s);
    if trim(cur).len() > 0 {
        res.push(trim(cur))
    } else {
        res
    }
}

/// The non-blank pieces, trimmed.
pub open spec fn trimmed_nonblank(ps: Seq<Seq<char>>) -> Seq<Seq<char>>
    decreases ps.len(),
{
    if ps.len() == 0 {
        Seq::empty()
    } else {
        let rest = trimmed_nonblank(ps.drop_last());
        if trim(ps.last()).len() > 0 {
            rest.push(trim(ps.last()))
        } else {
            rest
        }
    }
}

/// Members containing `(` are methods, the others attributes.
pub open spec fn partition(ms: Seq<Seq<char>>) -> (Seq<Seq<char>>, Seq<Seq<char>>)
    decreases ms.len(),
{
    if ms.len() == 0 {
        (Seq::empty(), Seq::empty())
    } else {
        let (a, m) = partition(ms.drop_last());
        if find_ch(ms.last(), '(') is Some {
            (a, m.push(ms.last()))
        } else {
            (a.push(ms.last()), m)
        }
    }
}

/// A class body's members: cut at visibility markers when the body starts
/// with one, else at newlines and `;`.
pub open spec fn spec_split_members(body: Seq<char>) -> (Seq<Seq<char>>, Seq<Seq<char>>) {
    let t = trim_start(body);
    let raw = if t.len() > 0 && is_marker(t[0]) {
        split_by_markers(body)
    } else {
        trimmed_nonblank(split_any(body, seq!['\n', ';']))
    };
    partition(raw)
}

/// Characters outside double quotes, and whether a quote is open.
pub open spec fn unquoted_state(s: Seq<char>) -> (bool, Seq<char>)
    decreases s.len(),
{
    if s.len() == 0 {
        (false, Seq::empty())
    } else {
        let (q, out) = unquoted_state(s.drop_last());
        let c = s.last();
        if c == '"' {
            (!q, out)
        } else if !q {
            (q, out.push(c))
        } else {
            (q, out)
        }
    }
}

/// A relation end without its quoted multiplicity (`"1"`, `"0..*"`), with
/// white space runs collapsed.
pub open spec fn strip_quoted_multiplicity(s: Seq<char>) -> Seq<char> {
    join(words(unquoted_state(s).1), " "@)
}

/// The relationship operators, in the order they are tried.
pub open spec fn rel_ops() -> Seq<Seq<char>> {
    seq!["<|--"@, "--|>"@, "*--"@, "--*"@, "o--"@, "--o"@, "-->"@, "--"@]
}

pub open spec fn spec_relationship_style(op: Seq<char>) -> EdgeStyleV {
    if op == "<|--"@ || op == "--|>"@ {
        EdgeStyleV::Inherit
    } else if op == "*--"@ || op == "--*"@ {
        EdgeStyleV::Compose
    } else if op == "o--"@ || op == "--o"@ {
        EdgeStyleV::Aggregate
    } else if op == "-->"@ {
        EdgeStyleV::Arrow
    } else {
        EdgeStyleV::Line
    }
}

/// A relationship's style follows its operator's mark: a `*` end is a
/// composition, an `o` end an aggregation, a `|` (triangle) end an
/// inheritance, and a bare `-->` an arrow.
pub proof fn law_relationship_marks(k: int)
    requires
        0 <= k < 8,
    ensures
        rel_ops()[k].contains('*') <==> spec_relationship_style(rel_ops()[k]) == EdgeStyleV::Compose,
        rel_ops()[k].contains('o') <==> spec_relationship_style(rel_ops()[k]) == EdgeStyleV::Aggregate,
        rel_ops()[k].contains('|') <==> spec_relationship_style(rel_ops()[k]) == EdgeStyleV::Inherit,
        rel_ops()[k].contains('>') && !rel_ops()[k].contains('|') <==> spec_relationship_style(rel_ops()[k]) == EdgeStyleV::Arrow,
{
    reveal_strlit("<|--");
    reveal_strlit("--|>");
    reveal_strlit("*--");
    reveal_strlit("--*");
    reveal_strlit("o--");
    reveal_strlit("--o");
    reveal_strlit("-->");
    reveal_strlit("--");
    let op = rel_ops()[k];
    if k == 0 {
        assert(op == "<|--"@);
        assert(op[1] == '|');
        assert(!op.contains('*') && !op.contains('o') && !op.contains('>'));
    } else if k == 1 {
        assert(op == "--|>"@);
        assert(op[2] == '|');
        assert(!op.contains('*') && !op.contains('o'));
    } else if k == 2 {
        assert(op == "*--"@);
        assert(op[0] == '*');
        assert(!op.contains('o') && !op.contains('|') && !op.contains('>'));
    } else if k == 3 {
        assert(op == "--*"@);
        assert(op[2] == '*');
        assert(!op.contains('o') && !op.contains('|') && !op.contains('>'));
    } else if k == 4 {
        assert(op == "o--"@);
        assert(op[0] == 'o');
        assert(!op.contains('*') && !op.contains('|') && !op.contains('>'));
    } else if k == 5 {
        assert(op == "--o"@);
        assert(op[2] == 'o');
        assert(!op.contains('*') && !op.contains('|') && !op.contains('>'));
    } else if k == 6 {
        assert(op == "-->"@);
        assert(op[2] == '>');
        assert(!op.contains('*') && !op.contains('|') && !op.contains('o'));
    } else {
        assert(op == "--"@);
        assert(!op.contains('*') && !op.contains('|') && !op.contains('o') && !op.contains('>'));
    }
}

pub struct Relation {
    pub left: Seq<char>,
    pub right: Seq<char>,
    pub style: EdgeStyleV,
    pub label: Option<Seq<char>>,
}

/// The first operator at or after position `k` of [`rel_ops`] with a
/// non-empty class name on both sides.
pub open spec fn rel_from(rel: Seq<char>, label: Option<Seq<char>>, k: int) -> Option<Relation>
    decreases 8 - k,
{
    if k < 0 || k >= 8 {
        None
    } else {
        let op = rel_ops()[k];
        match find(rel, op) {
            Some(idx) => {
                let left = strip_quoted_multiplicity(trim(rel.subrange(0, idx)));
                let right = strip_quoted_multiplicity(
                    trim(rel.subrange(idx + op.len(), rel.len() as int)),
                );
                if left.len() == 0 || right.len() == 0 {
                    rel_from(rel, label, k + 1)
                } else {
                    Some(Relation { left, right, style: spec_relationship_style(op), label })
                }
            },
            None => rel_from(rel, label, k + 1),
        }
    }
}

/// `A <op> B [: label]`.
pub open spec fn spec_relationship(l: Seq<char>) -> Option<Relation> {
    match split_once_ch(l, ':') {
        Some((r, lb)) => rel_from(trim(r), Some(trim(lb)), 0),
        None => rel_from(trim(l), None, 0),
    }
}

pub open spec fn push_class(nodes: Seq<NodeV>, name: Seq<char>, body: Seq<char>) -> Seq<NodeV> {
    let (attrs, methods) = spec_split_members(body);
    nodes.push(NodeV { id: name, shape: ShapeV::Class { name, attrs, methods } })
}

pub open spec fn ensure_class(nodes: Seq<NodeV>, id: Seq<char>) -> Seq<NodeV> {
    if node_pos(nodes, id) is Some {
        nodes
    } else {
        nodes.push(
            NodeV {
                id,
                shape: ShapeV::Class { name: id, attrs: Seq::empty(), methods: Seq::empty() },
            },
        )
    }
}

pub struct ClassState {
    pub header: bool,
    pub nodes: Seq<NodeV>,
    pub edges: Seq<EdgeV>,
    pub open: Option<(Seq<char>, Seq<char>)>,
}

/// A line after the header: a line of an open class body, a `class`
/// declaration, or a relationship.
pub open spec fn body_step(st: ClassState, l: Seq<char>) -> ClassState {
    match st.open {
        Some((name, buf)) => if l == "}"@ {
            ClassState { nodes: push_class(st.nodes, name, buf), open: None, ..st }
        } else {
            ClassState { open: Some((name, buf + l + seq!['\n'])), ..st }
        },
        None => match strip_prefix(l, "class "@) {
            Some(r) => {
                let rest = trim(r);
                match find_ch(rest, '{') {
                    Some(b) => {
                        let name = trim(rest.subrange(0, b));
                        let after = trim(rest.subrange(b + 1, rest.len() as int));
                        match find_ch(after, '}') {
                            Some(e) => ClassState {
                                nodes: push_class(st.nodes, name, after.subrange(0, e)),
                                ..st
                            },
                            None => ClassState { open: Some((name, after)), ..st },
                        }
                    },
                    None => if rest.len() > 0 {
                        ClassState { nodes: push_class(st.nodes, rest, Seq::empty()), ..st }
                    } else {
                        st
                    },
                }
            },
            None => match spec_relationship(l) {
                Some(r) => ClassState {
                    nodes: ensure_class(ensure_class(st.nodes, r.left), r.right),
                    edges: st.edges.push(
                        EdgeV { from: r.left, to: r.right, label: r.label, style: r.style },
                    ),
                    ..st
                },
                None => st,
            },
        },
    }
}

pub open spec fn step(st: ClassState, raw: Seq<char>) -> ClassState {
    let l = class_line(raw);
    if l.len() == 0 {
        st
    } else if !st.header {
        ClassState { header: true, ..st }
    } else {
        body_step(st, l)
    }
}

pub open spec fn fold(ls: Seq<Seq<char>>) -> ClassState
    decreases ls.len(),
{
    if ls.len() == 0 {
        ClassState { header: false, nodes: Seq::empty(), edges: Seq::empty(), open: None }
    } else {
        step(fold(ls.drop_last()), ls.last())
    }
}

/// Classes and relationships from the lines after the header.
pub open spec fn spec_parse(src: Seq<char>) -> Result<DiagramV, FallbackV> {
    let st = fold(lines(src));
    if st.nodes.len() == 0 {
        Err(FallbackV::Empty { kind: "class"@ })
    } else {
        Ok(
            DiagramV::Graph {
                dir: Dir::TB,
                nodes: st.nodes,
                edges: st.edges,
                groups: Seq::<SubgraphV>::empty(),
            },
        )
    }
}

// ------------------------------------------------------------ exec

fn is_marker_exec(c: char) -> (r: bool)
    ensures
        r == is_marker(c),
{
    c == '+' || c == '-' || c == '#' || c == '~'
}

fn classify_member(member: &[char]) -> (r: bool)
    ensures
        r == (find_ch(member@, '(') is Some),
{
    find_ch_exec(member, '(').is_some()
}

fn split_by_markers_exec(body: &[char]) -> (r: Vec<Vec<char>>)
    ensures
        r.deep_view() == split_by_markers(body@),
{
    let mut res: Vec<Vec<char>> = Vec::new();
    let mut cur: Vec<char> = Vec::new();
    let mut i: usize = 0;
    while i < body.len()
        invariant
            i <= body.len(),
            (res.deep_view(), cur@) == markers_state(body@.take(i as int)),
        decreases body.len() - i,
    {
        proof {
            assert(body@.take(i + 1).drop_last() =~= body@.take(i as int));
            if i > 0 {
                assert(body@.take(i + 1)[i - 1] == body@[i - 1]);
            }
        }
        let c = body[i];
        let boundary = i == 0 || is_ws_char(body[i - 1]);
        if is_marker_exec(c) && boundary {
            let t = trim_slice(cur.as_slice());
            if t.len() > 0 {
                let tv = to_vec(t);
                push_chars(&mut res, tv);
                cur = Vec::new();
            }
        }
        cur.push(c);
        proof {
            assert(cur@ =~= markers_state(body@.take(i + 1)).1);
        }
        i = i + 1;
    }
    assert(body@.take(body.len() as int) =~= body@);
    let t = trim_slice(cur.as_slice());
    if t.len() > 0 {
        push_chars(&mut res, to_vec(t));
    }
    res
}

fn trimmed_nonblank_exec(ps: &Vec<Vec<char>>) -> (r: Vec<Vec<char>>)
    ensures
        r.deep_view() == trimmed_nonblank(ps.deep_view()),
{
    let mut out: Vec<Vec<char>> = Vec::new();
    let mut i: usize = 0;
    while i < ps.len()
        invariant
            i <= ps.len(),
            out.deep_view() == trimmed_nonblank(ps.deep_view().take(i as int)),
        decreases ps.len() - i,
    {
        proof {
            lemma_chars_deep_view(ps@[i as int]);
            assert(ps.deep_view().take(i + 1).drop_last() =~= ps.deep_view().take(i as int));
        }
        let t = trim_slice(ps[i].as_slice());
        if t.len() > 0 {
            push_chars(&mut out, to_vec(t));
        }
        i = i + 1;
    }
    assert(ps.deep_view().take(ps.len() as int) =~= ps.deep_view());
    out
}

fn split_members(body: &[char]) -> (r: (Vec<String>, Vec<String>))
    ensures
        (views(r.0@), views(r.1@)) == spec_split_members(body@),
{
    let t = trim_start_slice(body);
    let raw = if t.len() > 0 && is_marker_exec(t[0]) {
        split_by_markers_exec(body)
    } else {
        let seps = ['\n', ';'];
        let pieces = split_any_of(body, &seps);
        proof {
            assert(seps@ =~= seq!['\n', ';']);
        }
        trimmed_nonblank_exec(&pieces)
    };
    let mut attrs: Vec<String> = Vec::new();
    let mut methods: Vec<String> = Vec::new();
    let mut i: usize = 0;
    proof {
        assert(raw.deep_view().take(0) =~= Seq::<Seq<char>>::empty());
        assert(views(attrs@) =~= Seq::<Seq<char>>::empty());
        assert(views(methods@) =~= Seq::<Seq<char>>::empty());
    }
    while i < raw.len()
        invariant
            i <= raw.len(),
            (views(attrs@), views(methods@)) == partition(raw.deep_view().take(i as int)),
        decreases raw.len() - i,
    {
        proof {
            lemma_chars_deep_view(raw@[i as int]);
            assert(raw.deep_view().take(i + 1).drop_last() =~= raw.deep_view().take(i as int));
        }
        let m = raw[i].as_slice();
        if classify_member(m) {
            methods.push(string_of(m));
        } else {
            attrs.push(string_of(m));
        }
        i = i + 1;
    }
    assert(raw.deep_view().take(raw.len() as int) =~= raw.deep_view());
    (attrs, methods)
}

fn strip_quoted_multiplicity_exec(s: &[char]) -> (r: Vec<char>)
    ensures
        r@ == strip_quoted_multiplicity(s@),
{
    let mut q = false;
    let mut out: Vec<char> = Vec::new();
    let mut i: usize = 0;
    while i < s.len()
        invariant
            i <= s.len(),
            (q, out@) == unquoted_state(s@.take(i as int)),
        decreases s.len() - i,
    {
        proof {
            assert(s@.take(i + 1).drop_last() =~= s@.take(i as int));
        }
        let c = s[i];
        if c == '"' {
            q = !q;
        } else if !q {
            out.push(c);
        }
        i = i + 1;
    }
    assert(s@.take(s.len() as int) =~= s@);
    let ws = words_of(out.as_slice());
    let sp = chars_of(" ");
    join_exec(&ws, sp.as_slice())
}

fn rel_op(k: usize) -> (r: &'static str)
    requires
        k < 8,
    ensures
        r@ == rel_ops()[k as int],
{
    if k == 0 {
        "<|--"
    } else if k == 1 {
        "--|>"
    } else if k == 2 {
        "*--"
    } else if k == 3 {
        "--*"
    } else if k == 4 {
        "o--"
    } else if k == 5 {
        "--o"
    } else if k == 6 {
        "-->"
    } else {
        "--"
    }
}

fn relationship_style(op: &[char]) -> (r: EdgeStyle)
    ensures
        r@ == spec_relationship_style(op@),
{
    if eq_str(op, "<|--") || eq_str(op, "--|>") {
        EdgeStyle::Inherit
    } else if eq_str(op, "*--") || eq_str(op, "--*") {
        EdgeStyle::Compose
    } else if eq_str(op, "o--") || eq_str(op, "--o") {
        EdgeStyle::Aggregate
    } else if eq_str(op, "-->") {
        EdgeStyle::Arrow
    } else {
        EdgeStyle::Line
    }
}

struct RelExec {
    left: String,
    right: String,
    style: EdgeStyle,
    label: Option<String>,
}

impl View for RelExec {
    type V = Relation;

    closed spec fn view(&self) -> Relation {
        Relation {
            left: self.left@,
            right: self.right@,
            style: self.style@,
            label: opt_view(self.label),
        }
    }
}

fn rel_from_exec(rel: &[char], label: Option<String>) -> (r: Option<RelExec>)
    ensures
        match r {
            Some(x) => rel_from(rel@, opt_view(label), 0) == Some(x@),
            None => rel_from(rel@, opt_view(label), 0) is None,
        },
{
    let mut k: usize = 0;
    while k < 8
        invariant
            k <= 8,
            rel_from(rel@, opt_view(label), 0) == rel_from(rel@, opt_view(label), k as int),
        decreases 8 - k,
    {
        let op = chars_of(rel_op(k));
        match find_exec(rel, op.as_slice()) {
            Some(idx) => {
                proof {
                    lemma_find_from_bounds(rel@, op@, 0);
                    assert(find(rel@, op@) == Some(idx as int));
                    assert(idx + op.len() <= rel.len());
                }
                let left = strip_quoted_multiplicity_exec(trim_slice(&rel[0..idx]));
                let right = strip_quoted_multiplicity_exec(
                    trim_slice(&rel[idx + op.len()..rel.len()]),
                );
                if left.len() > 0 && right.len() > 0 {
                    let style = relationship_style(op.as_slice());
                    return Some(
                        RelExec {
                            left: string_of(left.as_slice()),
                            right: string_of(right.as_slice()),
                            style,
                            label,
                        },
                    );
                }
            },
            None => {},
        }
        k = k + 1;
    }
    None
}

fn parse_relationship_line(l: &[char]) -> (r: Option<RelExec>)
    ensures
        match r {
            Some(x) => spec_relationship(l@) == Some(x@),
            None => spec_relationship(l@) is None,
        },
{
    match find_ch_exec(l, ':') {
        Some(c) => {
            proof {
                lemma_find_ch_from_bounds(l@, ':', 0);
                assert(find_ch(l@, ':') == Some(c as int));
                assert(c + 1 <= l.len());
            }
            let rel = trim_slice(&l[0..c]);
            let lb = string_of(trim_slice(&l[c + 1..l.len()]));
            rel_from_exec(rel, Some(lb))
        },
        None => rel_from_exec(trim_slice(l), None),
    }
}

fn push_class_exec(nodes: &mut Vec<Node>, name: &[char], body: &[char])
    ensures
        views(final(nodes)@) == push_class(views(old(nodes)@), name@, body@),
{
    let (attrs, methods) = split_members(body);
    nodes.push(
        Node { id: string_of(name), shape: Shape::Class { name: string_of(name), attrs, methods } },
    );
}

fn ensure_class_exec(nodes: &mut Vec<Node>, id: &String)
    ensures
        views(final(nodes)@) == ensure_class(views(old(nodes)@), id@),
{
    if node_pos_exec(nodes, id).is_some() {
        return;
    }
    let attrs: Vec<String> = Vec::new();
    let methods: Vec<String> = Vec::new();
    proof {
        assert(views(attrs@) =~= Seq::<Seq<char>>::empty());
        assert(views(methods@) =~= Seq::<Seq<char>>::empty());
    }
    nodes.push(Node { id: id.clone(), shape: Shape::Class { name: id.clone(), attrs, methods } });
}

struct ClassAcc {
    header: bool,
    nodes: Vec<Node>,
    edges: Vec<Edge>,
    open: Option<(Vec<char>, Vec<char>)>,
}

spec fn open_view(o: Option<(Vec<char>, Vec<char>)>) -> Option<(Seq<char>, Seq<char>)> {
    match o {
        Some((n, b)) => Some((n@, b@)),
        None => None,
    }
}

impl View for ClassAcc {
    type V = ClassState;

    closed spec fn view(&self) -> ClassState {
        ClassState {
            header: self.header,
            nodes: views(self.nodes@),
            edges: views(self.edges@),
            open: open_view(self.open),
        }
    }
}

fn body_step_exec(acc: &mut ClassAcc, l: &[char])
    ensures
        final(acc)@ == body_step(old(acc)@, l@),
{
    let open = acc.open.take();
    match open {
        Some((name, buf)) => {
            if eq_str(l, "}") {
                push_class_exec(&mut acc.nodes, name.as_slice(), buf.as_slice());
            } else {
                let b1 = concat(buf.as_slice(), l);
                let nl = ['\n'];
                let b2 = concat(b1.as_slice(), &nl);
                proof {
                    assert(nl@ =~= seq!['\n']);
                }
                acc.open = Some((name, b2));
            }
            return;
        },
        None => {},
    }
    if starts_with_str(l, "class ") {
        let n = chars_of("class ").len();
        let rest = trim_slice(&l[n..l.len()]);
        match find_ch_exec(rest, '{') {
            Some(b) => {
                proof {
                    lemma_find_ch_from_bounds(rest@, '{', 0);
                    assert(find_ch(rest@, '{') == Some(b as int));
                    assert(b + 1 <= rest.len());
                }
                let name = trim_slice(&rest[0..b]);
                let after = trim_slice(&rest[b + 1..rest.len()]);
                match find_ch_exec(after, '}') {
                    Some(e) => {
                        proof {
                            lemma_find_ch_from_bounds(after@, '}', 0);
                            assert(find_ch(after@, '}') == Some(e as int));
                        }
                        push_class_exec(&mut acc.nodes, name, &after[0..e]);
                    },
                    None => {
                        acc.open = Some((to_vec(name), to_vec(after)));
                    },
                }
            },
            None => {
                if rest.len() > 0 {
                    push_class_exec(&mut acc.nodes, rest, &rest[0..0]);
                }
            },
        }
        return;
    }
    if let Some(r) = parse_relationship_line(l) {
        let RelExec { left, right, style, label } = r;
        ensure_class_exec(&mut acc.nodes, &left);
        ensure_class_exec(&mut acc.nodes, &right);
        acc.edges.push(Edge { from: left, to: right, label, style });
    }
}

fn class_line_exec(raw: &[char]) -> (r: &[char])
    ensures
        r@ == class_line(raw@),
{
    match find_str(raw, "%%") {
        Some(k) => {
            proof {
                lemma_find_from_bounds(raw@, "%%"@, 0);
                assert(find(raw@, "%%"@) == Some(k as int));
            }
            trim_slice(&raw[0..k])
        },
        None => trim_slice(raw),
    }
}

fn step_exec(acc: &mut ClassAcc, raw: &[char])
    ensures
        final(acc)@ == step(old(acc)@, raw@),
{
    let l = class_line_exec(raw);
    if l.len() == 0 {
        return;
    }
    if !acc.header {
        acc.header = true;
        return;
    }
    body_step_exec(acc, l);
}

/// Parses a `classDiagram`.
pub fn parse(src: &str) -> (r: Result<Diagram, Fallback>)
    ensures
        result_view(r) == spec_parse(src@),
{
    let chars = chars_of(src);
    let ls = lines_of(chars.as_slice());
    let mut acc = ClassAcc { header: false, nodes: Vec::new(), edges: Vec::new(), open: None };
    proof {
        assert(ls.deep_view().take(0) =~= Seq::<Seq<char>>::empty());
        assert(views(acc.nodes@) =~= Seq::<NodeV>::empty());
        assert(views(acc.edges@) =~= Seq::<EdgeV>::empty());
    }
    let mut i: usize = 0;
    while i < ls.len()
        invariant
            i <= ls.len(),
            acc@ == fold(ls.deep_view().take(i as int)),
        decreases ls.len() - i,
    {
        proof {
            lemma_chars_deep_view(ls@[i as int]);
            assert(ls.deep_view().take(i + 1).drop_last() =~= ls.deep_view().take(i as int));
        }
        step_exec(&mut acc, ls[i].as_slice());
        i = i + 1;
    }
    assert(ls.deep_view().take(ls.len() as int) =~= ls.deep_view());
    let ClassAcc { header: _, nodes, edges, open: _ } = acc;
    if nodes.len() == 0 {
        Err(super::super::empty_fallback("class"))
    } else {
        let groups = Vec::new();
        proof {
            assert(views(groups@) =~= Seq::<SubgraphV>::empty());
        }
        Ok(Diagram::Graph { dir: Dir::TB, nodes, edges, groups })
    }
}

} // verus!
