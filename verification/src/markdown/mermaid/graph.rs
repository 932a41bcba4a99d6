//! Box-and-connector rendering of graph-shaped diagrams (flowcharts, ER,
//! class and state diagrams): nodes are ranked into layers by the longest
//! path reaching them, laid out left to right (`LR`) or top to bottom
//! (`TB`), and joined by connector strips drawn on a [`Canvas`]. Labels are
//! abbreviated step by step until the drawing fits the width.

use vstd::prelude::*;
use crate::text::{chars_of, concat, string_of, to_vec};
use crate::width::{rep, repeat_char, spaces, str_width, sat};
use super::canvas::Canvas;
use super::parse::{views, Diagram, Dir, Edge, EdgeStyle, Node, Shape, Subgraph, DiagramV};
use super::seq::{abbreviate, fits, pad_to_width, spec_abbreviate, spec_pad_to_width, spec_trunc, trunc, width_of, MIN_BUDGET};
use super::{Fallback, FallbackV};

verus! {

/// Whether two character sequences are equal.
#[verifier::loop_isolation(false)]
fn same_chars(a: &Vec<char>, b: &Vec<char>) -> (r: bool)
    ensures
        r == (a@ == b@),
{
    crate::text::eq(a.as_slice(), b.as_slice())
}

/// The widest of some lines, in columns (0 for none).
pub open spec fn max_w(lines: Seq<Vec<char>>) -> usize
    decreases lines.len(),
{
    if lines.len() == 0 {
        0
    } else {
        let m = max_w(lines.drop_last());
        let x = sat(str_width(lines.last()@));
        if x > m { x } else { m }
    }
}

/// The widest of some lines (0 for none).
#[verifier::loop_isolation(false)]
fn max_width(lines: &Vec<Vec<char>>) -> (w: usize)
    ensures
        w == max_w(lines@),
{
    let mut w: usize = 0;
    let mut i: usize = 0;
    while i < lines.len()
        invariant
            i <= lines@.len(),
            w == max_w(lines@.take(i as int)),
        decreases lines.len() - i,
    {
        assert(lines@.take(i + 1).drop_last() =~= lines@.take(i as int));
        let lw = width_of(lines[i].as_slice());
        if lw > w {
            w = lw;
        }
        i = i + 1;
    }
    assert(lines@.take(lines@.len() as int) =~= lines@);
    w
}

/// The distinct ids, in first-occurrence order.
pub open spec fn distinct_ids(ids: Seq<String>) -> Seq<Seq<char>>
    decreases ids.len(),
{
    if ids.len() == 0 {
        Seq::empty()
    } else {
        let d = distinct_ids(ids.drop_last());
        if d.contains(ids.last()@) { d } else { d.push(ids.last()@) }
    }
}

pub open spec fn chars_views(v: Seq<Vec<char>>) -> Seq<Seq<char>> {
    v.map_values(|c: Vec<char>| c@)
}

/// The distinct ids, in first-occurrence order, each with a display form
/// abbreviated to `budget` columns; ids whose abbreviations collide get the
/// smallest wider budget that tells them apart, or their full text.
#[verifier::loop_isolation(false)]
pub fn dedupe_abbreviations(ids: &[String], budget: usize) -> (r: Vec<(String, String)>)
    ensures
        r@.len() == distinct_ids(ids@).len(),
        forall|j: int| 0 <= j < r@.len() ==> (#[trigger] r@[j]).0@ == distinct_ids(ids@)[j],
        no_collision(distinct_ids(ids@), budget as nat) ==> forall|j: int| 0 <= j < r@.len() ==> (#[trigger] r@[j]).1@
            == spec_abbreviate(distinct_ids(ids@)[j], budget as nat),
{
    let mut unique: Vec<Vec<char>> = Vec::new();
    let mut i: usize = 0;
    while i < ids.len()
        invariant
            i <= ids@.len(),
            chars_views(unique@) == distinct_ids(ids@.take(i as int)),
        decreases ids.len() - i,
    {
        assert(ids@.take(i + 1).drop_last() =~= ids@.take(i as int));
        let c = chars_of(ids[i].as_str());
        let mut seen = false;
        let mut k: usize = 0;
        while k < unique.len()
            invariant
                k <= unique@.len(),
                seen == (exists|q: int| 0 <= q < k && #[trigger] unique@[q]@ == c@),
            decreases unique.len() - k,
        {
            if same_chars(&unique[k], &c) {
                seen = true;
            }
            k = k + 1;
        }
        proof {
            let d = chars_views(unique@);
            if seen {
                let q = choose|q: int| 0 <= q < k && #[trigger] unique@[q]@ == c@;
                assert(d[q] == c@);
            } else {
                assert forall|q: int| 0 <= q < d.len() implies d[q] != c@ by {
                    assert(d[q] == unique@[q]@);
                }
            }
        }
        if !seen {
            let ghost u0 = unique@;
            let ghost cv = c@;
            unique.push(c);
            assert(chars_views(unique@) =~= chars_views(u0).push(cv));
        }
        i = i + 1;
    }
    assert(ids@.take(ids@.len() as int) =~= ids@);
    let abbr = dedupe_chars(&unique, budget);
    let mut out: Vec<(String, String)> = Vec::new();
    let mut j: usize = 0;
    while j < unique.len() && j < abbr.len()
        invariant
            j <= unique@.len(),
            abbr@.len() == unique@.len(),
            out@.len() == j,
            chars_views(unique@) == distinct_ids(ids@),
            forall|q: int| 0 <= q < j ==> (#[trigger] out@[q]).0@ == unique@[q]@,
            forall|q: int| 0 <= q < j ==> (#[trigger] out@[q]).1@ == abbr@[q]@,
        decreases unique.len() - j,
    {
        out.push((string_of(unique[j].as_slice()), string_of(abbr[j].as_slice())));
        j = j + 1;
    }
    out
}

/// Whether the ids abbreviated to `budget` are pairwise distinct.
pub open spec fn no_collision(ids: Seq<Seq<char>>, budget: nat) -> bool {
    forall|a: int, b: int| 0 <= a < b < ids.len() ==> spec_abbreviate(#[trigger] ids[a], budget) != spec_abbreviate(
        #[trigger] ids[b],
        budget,
    )
}

/// Whether the strings are pairwise distinct.
#[verifier::loop_isolation(false)]
fn all_distinct(v: &Vec<Vec<char>>) -> (r: bool)
    ensures
        r == (forall|a: int, b: int| 0 <= a < b < v@.len() ==> #[trigger] v@[a]@ != #[trigger] v@[b]@),
{
    let mut a: usize = 0;
    while a < v.len()
        invariant
            a <= v@.len(),
            forall|x: int, y: int| 0 <= x < a && x < y < v@.len() ==> #[trigger] v@[x]@ != #[trigger] v@[y]@,
        decreases v.len() - a,
    {
        let mut b: usize = a + 1;
        while b < v.len()
            invariant
                a < b <= v@.len(),
                forall|x: int, y: int| 0 <= x < a && x < y < v@.len() ==> #[trigger] v@[x]@ != #[trigger] v@[y]@,
                forall|y: int| a < y < b ==> v@[a as int]@ != #[trigger] v@[y]@,
            decreases v.len() - b,
        {
            if same_chars(&v[a], &v[b]) {
                assert(v@[a as int]@ == v@[b as int]@);
                return false;
            }
            b = b + 1;
        }
        a = a + 1;
    }
    true
}

/// The display forms of distinct ids (see [`dedupe_abbreviations`]).
#[verifier::loop_isolation(false)]
fn dedupe_chars(unique: &Vec<Vec<char>>, budget: usize) -> (r: Vec<Vec<char>>)
    ensures
        r@.len() == unique@.len(),
        no_collision(chars_views(unique@), budget as nat) ==> forall|i: int| 0 <= i < r@.len() ==> (#[trigger] r@[i])@ == spec_abbreviate(
            unique@[i]@,
            budget as nat,
        ),
{
    let n = unique.len();
    let mut abbr: Vec<Vec<char>> = Vec::new();
    let mut i: usize = 0;
    while i < n
        invariant
            i <= n,
            n == unique@.len(),
            abbr@.len() == i,
            forall|k: int| 0 <= k < i ==> (#[trigger] abbr@[k])@ == spec_abbreviate(unique@[k]@, budget as nat),
        decreases n - i,
    {
        abbr.push(abbreviate(unique[i].as_slice(), budget));
        i = i + 1;
    }
    proof {
        if no_collision(chars_views(unique@), budget as nat) {
            assert forall|a: int, b: int| 0 <= a < b < abbr@.len() implies #[trigger] abbr@[a]@ != #[trigger] abbr@[b]@ by {
                assert(chars_views(unique@)[a] == unique@[a]@ && chars_views(unique@)[b] == unique@[b]@);
            }
        }
    }
    let distinct = all_distinct(&abbr);
    if distinct {
        return abbr;
    }
    assert(!no_collision(chars_views(unique@), budget as nat));
    let max_rounds = n.saturating_add(4);
    let mut round: usize = 0;
    while round < max_rounds
        invariant
            n == unique@.len(),
            abbr@.len() == n,
        decreases max_rounds - round,
    {
        let snapshot = abbr.clone();
        let mut colliding = false;
        let mut g: usize = 0;
        while g < n
            invariant
                n == unique@.len(),
                abbr@.len() == n,
                snapshot@.len() == n,
            decreases n - g,
        {
            // `g` leads its group when no earlier id shares its text.
            let mut leads = true;
            let mut j: usize = 0;
            while j < g
                decreases g - j,
            {
                if same_chars(&snapshot[j], &snapshot[g]) {
                    leads = false;
                }
                j = j + 1;
            }
            let mut members: Vec<usize> = Vec::new();
            if leads {
                let mut k: usize = g;
                while k < n
                    invariant
                        g <= k <= n,
                        n == snapshot@.len(),
                        forall|t: int| 0 <= t < members@.len() ==> members@[t] < n,
                    decreases n - k,
                {
                    if same_chars(&snapshot[k], &snapshot[g]) {
                        members.push(k);
                    }
                    k = k + 1;
                }
            }
            if members.len() > 1 {
                colliding = true;
                let mut max_needed: usize = 0;
                let mut cur_b: usize = 0;
                let mut m: usize = 0;
                while m < members.len()
                    invariant
                        n == unique@.len(),
                        abbr@.len() == n,
                        forall|t: int| 0 <= t < members@.len() ==> members@[t] < n,
                    decreases members.len() - m,
                {
                    let full = width_of(unique[members[m]].as_slice());
                    if full > max_needed {
                        max_needed = full;
                    }
                    let cur = width_of(abbr[members[m]].as_slice());
                    if cur > cur_b {
                        cur_b = cur;
                    }
                    m = m + 1;
                }
                let mut resolved = false;
                while cur_b < max_needed && !resolved
                    invariant
                        n == unique@.len(),
                        abbr@.len() == n,
                        forall|t: int| 0 <= t < members@.len() ==> members@[t] < n,
                    decreases max_needed - cur_b, if resolved { 0int } else { 1int },
                {
                    cur_b = cur_b + 1;
                    let mut abbrevs: Vec<Vec<char>> = Vec::new();
                    let mut m2: usize = 0;
                    while m2 < members.len()
                        invariant
                            n == unique@.len(),
                            abbrevs@.len() == m2,
                            m2 <= members@.len(),
                            forall|t: int| 0 <= t < members@.len() ==> members@[t] < n,
                        decreases members.len() - m2,
                    {
                        abbrevs.push(abbreviate(unique[members[m2]].as_slice(), cur_b));
                        m2 = m2 + 1;
                    }
                    if all_distinct(&abbrevs) {
                        let mut m3: usize = 0;
                        while m3 < members.len()
                            invariant
                                n == unique@.len(),
                                abbr@.len() == n,
                                abbrevs@.len() == members@.len(),
                                forall|t: int| 0 <= t < members@.len() ==> members@[t] < n,
                            decreases members.len() - m3,
                        {
                            abbr.set(members[m3], abbrevs[m3].clone());
                            m3 = m3 + 1;
                        }
                        resolved = true;
                    }
                }
                if !resolved {
                    let mut m4: usize = 0;
                    while m4 < members.len()
                        invariant
                            n == unique@.len(),
                            abbr@.len() == n,
                            forall|t: int| 0 <= t < members@.len() ==> members@[t] < n,
                        decreases members.len() - m4,
                    {
                        abbr.set(members[m4], unique[members[m4]].clone());
                        m4 = m4 + 1;
                    }
                }
            }
            g = g + 1;
        }
        if !colliding {
            break;
        }
        round = round + 1;
    }
    abbr
}

/// The display form the first entry for `id` gives it in a table.
pub open spec fn map_lookup(m: Seq<(Vec<char>, Vec<char>)>, id: Seq<char>) -> Option<Seq<char>>
    decreases m.len(),
{
    if m.len() == 0 {
        None
    } else if m[0].0@ == id {
        Some(m[0].1@)
    } else {
        map_lookup(m.drop_first(), id)
    }
}

/// An id's display form: its table entry, else the id abbreviated.
pub open spec fn spec_id_disp(id: Seq<char>, budget: Option<usize>, id_map: Option<Vec<(Vec<char>, Vec<char>)>>) -> Seq<char> {
    match id_map {
        Some(m) => match map_lookup(m@, id) {
            Some(d) => d,
            None => spec_trunc(id, budget),
        },
        None => spec_trunc(id, budget),
    }
}

/// The display form of an id: its entry in the abbreviation table when
/// there is one, else the id abbreviated to the budget.
#[verifier::loop_isolation(false)]
fn id_disp(id: &Vec<char>, budget: Option<usize>, id_map: &Option<Vec<(Vec<char>, Vec<char>)>>) -> (r: Vec<char>)
    ensures
        r@ == spec_id_disp(id@, budget, *id_map),
{
    match id_map {
        Some(m) => {
            let mut i: usize = 0;
            assert(m@.skip(0) =~= m@);
            while i < m.len()
                invariant
                    i <= m@.len(),
                    map_lookup(m@, id@) == map_lookup(m@.skip(i as int), id@),
                decreases m.len() - i,
            {
                assert(m@.skip(i as int).drop_first() =~= m@.skip(i + 1));
                if same_chars(&m[i].0, id) {
                    return to_vec(m[i].1.as_slice());
                }
                i = i + 1;
            }
            trunc(id.as_slice(), budget)
        },
        None => trunc(id.as_slice(), budget),
    }
}

/// `s` between vertical borders, padded to `w` columns.
#[verifier::loop_isolation(false)]
fn pad_row(s: &Vec<char>, w: usize) -> (r: Vec<char>)
    ensures
        r@ == seq!['│'] + spec_pad_to_width(s@, w as nat) + seq!['│'],
{
    let mut out: Vec<char> = Vec::new();
    out.push('│');
    let p = pad_to_width(s.as_slice(), w);
    out = concat(out.as_slice(), p.as_slice());
    out.push('│');
    assert(out@ =~= seq!['│'] + spec_pad_to_width(s@, w as nat) + seq!['│']);
    out
}

/// `left`, then `w` copies of `fill`, then `right`.
#[verifier::loop_isolation(false)]
fn border(left: char, fill: char, w: usize, right: char) -> (r: Vec<char>)
    ensures
        r@ == seq![left] + rep(fill, w as nat) + seq![right],
{
    let mut out: Vec<char> = Vec::new();
    out.push(left);
    let f = repeat_char(fill, w);
    out = concat(out.as_slice(), f.as_slice());
    out.push(right);
    assert(out@ =~= seq![left] + rep(fill, w as nat) + seq![right]);
    out
}

/// Lines framed in a box as wide as the widest.
#[verifier::loop_isolation(false)]
fn render_box(lines: &Vec<Vec<char>>) -> (r: Vec<Vec<char>>)
    ensures
        r@.len() == lines@.len() + 2,
{
    let w = max_width(lines);
    let mut out: Vec<Vec<char>> = Vec::new();
    out.push(border('┌', '─', w, '┐'));
    let mut i: usize = 0;
    while i < lines.len()
        invariant
            i <= lines.len(),
            out@.len() == i + 1,
        decreases lines.len() - i,
    {
        out.push(pad_row(&lines[i], w));
        i = i + 1;
    }
    out.push(border('└', '─', w, '┘'));
    out
}

/// Each string abbreviated to the budget.
#[verifier::loop_isolation(false)]
fn trunc_all(v: &Vec<String>, budget: Option<usize>) -> (r: Vec<Vec<char>>)
    ensures
        r@.len() == v@.len(),
{
    let mut out: Vec<Vec<char>> = Vec::new();
    let mut i: usize = 0;
    while i < v.len()
        invariant
            i <= v.len(),
            out@.len() == i,
        decreases v.len() - i,
    {
        let c = chars_of(v[i].as_str());
        out.push(trunc(c.as_slice(), budget));
        i = i + 1;
    }
    out
}

/// A box with compartments: a header, then each group of lines after a
/// divider.
#[verifier::loop_isolation(false)]
fn compartments(header: Vec<char>, groups: Vec<Vec<Vec<char>>>) -> (r: Vec<Vec<char>>)
    ensures
        r@.len() >= 3,
{
    let mut all: Vec<Vec<char>> = Vec::new();
    all.push(header.clone());
    let mut g: usize = 0;
    while g < groups.len()
        decreases groups.len() - g,
    {
        let mut k: usize = 0;
        while k < groups[g].len()
            decreases groups@[g as int]@.len() - k,
        {
            all.push(groups[g][k].clone());
            k = k + 1;
        }
        g = g + 1;
    }
    let w = max_width(&all);
    let mut out: Vec<Vec<char>> = Vec::new();
    out.push(border('┌', '─', w, '┐'));
    out.push(pad_row(&header, w));
    let mut g2: usize = 0;
    while g2 < groups.len()
        invariant
            out@.len() >= 2,
        decreases groups.len() - g2,
    {
        out.push(border('├', '─', w, '┤'));
        let mut k: usize = 0;
        while k < groups[g2].len()
            invariant
                out@.len() >= 2,
            decreases groups@[g2 as int]@.len() - k,
        {
            out.push(pad_row(&groups[g2][k], w));
            k = k + 1;
        }
        g2 = g2 + 1;
    }
    out.push(border('└', '─', w, '┘'));
    out
}

/// The lines of a node's box at an abbreviation budget.
#[verifier::loop_isolation(false)]
fn node_box(node: &Node, budget: Option<usize>, id_map: &Option<Vec<(Vec<char>, Vec<char>)>>) -> (r: Vec<Vec<char>>)
    ensures
        r@.len() >= 1,
{
    match &node.shape {
        Shape::Box(label) => {
            let id = chars_of(node.id.as_str());
            let l = chars_of(label.as_str());
            let content = if l.len() == 0 || same_chars(&l, &id) {
                id_disp(&id, budget, id_map)
            } else {
                trunc(l.as_slice(), budget)
            };
            let mut one: Vec<Vec<char>> = Vec::new();
            one.push(content);
            render_box(&one)
        },
        Shape::State(name) => {
            let c = chars_of(name.as_str());
            let mut one: Vec<Vec<char>> = Vec::new();
            one.push(trunc(c.as_slice(), budget));
            render_box(&one)
        },
        Shape::Start => {
            let mut one: Vec<Vec<char>> = Vec::new();
            one.push(chars_of("●"));
            one
        },
        Shape::End => {
            let mut one: Vec<Vec<char>> = Vec::new();
            one.push(chars_of("◉"));
            one
        },
        Shape::Entity { name, fields } => {
            let c = chars_of(name.as_str());
            let header = trunc(c.as_slice(), budget);
            let mut groups: Vec<Vec<Vec<char>>> = Vec::new();
            groups.push(trunc_all(fields, budget));
            compartments(header, groups)
        },
        Shape::Class { name, attrs, methods } => {
            let c = chars_of(name.as_str());
            let header = trunc(c.as_slice(), budget);
            let mut groups: Vec<Vec<Vec<char>>> = Vec::new();
            groups.push(trunc_all(attrs, budget));
            groups.push(trunc_all(methods, budget));
            compartments(header, groups)
        },
    }
}

/// The widest of `w` and the widths of `xs`.
pub open spec fn widest(w: usize, xs: Seq<String>) -> usize
    decreases xs.len(),
{
    if xs.len() == 0 {
        w
    } else {
        let m = widest(w, xs.drop_last());
        let x = sat(str_width(xs.last()@));
        if x > m { x } else { m }
    }
}

/// Columns of a node's widest natural label: a box's label (its id when
/// the label is empty), a state's name, one column for start and end, the
/// widest of an entity's name and fields or of a class's name, attributes
/// and methods.
pub open spec fn label_w(n: Node) -> usize {
    match n.shape {
        Shape::Box(l) => if l@.len() == 0 { sat(str_width(n.id@)) } else { sat(str_width(l@)) },
        Shape::State(st) => sat(str_width(st@)),
        Shape::Start => 1,
        Shape::End => 1,
        Shape::Entity { name, fields } => widest(sat(str_width(name@)), fields@),
        Shape::Class { name, attrs, methods } => widest(widest(sat(str_width(name@)), attrs@), methods@),
    }
}

fn widest_of(w0: usize, xs: &Vec<String>) -> (r: usize)
    ensures
        r == widest(w0, xs@),
{
    let mut w = w0;
    let mut i: usize = 0;
    while i < xs.len()
        invariant
            i <= xs@.len(),
            w == widest(w0, xs@.take(i as int)),
        decreases xs.len() - i,
    {
        assert(xs@.take(i + 1).drop_last() =~= xs@.take(i as int));
        let fw = crate::width::line_width(xs[i].as_str());
        if fw > w {
            w = fw;
        }
        i = i + 1;
    }
    assert(xs@.take(xs@.len() as int) =~= xs@);
    w
}

/// Columns of a node's widest natural (unabbreviated) label.
#[verifier::loop_isolation(false)]
fn node_label_width(n: &Node) -> (r: usize)
    ensures
        r == label_w(*n),
{
    match &n.shape {
        Shape::Box(l) => {
            if l.as_str().is_empty() {
                crate::width::line_width(n.id.as_str())
            } else {
                crate::width::line_width(l.as_str())
            }
        },
        Shape::State(st) => crate::width::line_width(st.as_str()),
        Shape::Start => 1,
        Shape::End => 1,
        Shape::Entity { name, fields } => widest_of(crate::width::line_width(name.as_str()), fields),
        Shape::Class { name, attrs, methods } => {
            let w = widest_of(crate::width::line_width(name.as_str()), attrs);
            widest_of(w, methods)
        },
    }
}

/// The glyphs at an edge's source and target ends: an arrowhead (`►`
/// across, `▼` down) at the target of an arrow or transition, nothing for
/// a plain line, the two cardinalities, `▷` at the parent of an
/// inheritance, `◆` or `◇` at the owner of a composition or aggregation.
pub open spec fn ends_of(style: EdgeStyle, lr: bool) -> (Seq<char>, Seq<char>) {
    match style {
        EdgeStyle::Arrow | EdgeStyle::Transition => (Seq::empty(), if lr { "►"@ } else { "▼"@ }),
        EdgeStyle::Line => (Seq::empty(), Seq::empty()),
        EdgeStyle::Cardinality(l, r) => (l@, r@),
        EdgeStyle::Inherit => (Seq::empty(), "▷"@),
        EdgeStyle::Compose => ("◆"@, Seq::empty()),
        EdgeStyle::Aggregate => ("◇"@, Seq::empty()),
    }
}

/// A composition draws the filled diamond `◆` (U+25C6) at its owner's
/// end and an aggregation the hollow diamond `◇` (U+25C7); neither draws
/// anything at the other end, in either direction.
pub proof fn law_owner_diamonds(lr: bool)
    ensures
        ends_of(EdgeStyle::Compose, lr) == (seq!['\u{25C6}'], Seq::<char>::empty()),
        ends_of(EdgeStyle::Aggregate, lr) == (seq!['\u{25C7}'], Seq::<char>::empty()),
{
    reveal_strlit("◆");
    reveal_strlit("◇");
    assert("◆"@ =~= seq!['\u{25C6}']);
    assert("◇"@ =~= seq!['\u{25C7}']);
}

/// Of the edges whose end marks are fixed glyphs (all but cardinalities),
/// exactly the compositions carry `◆` at their source end and exactly the
/// aggregations carry `◇` there.
pub proof fn law_source_mark_tells_ownership(style: EdgeStyle, lr: bool)
    requires
        !(style is Cardinality),
    ensures
        ends_of(style, lr).0 == seq!['\u{25C6}'] <==> style is Compose,
        ends_of(style, lr).0 == seq!['\u{25C7}'] <==> style is Aggregate,
{
    law_owner_diamonds(lr);
    assert(seq!['\u{25C6}'] != seq!['\u{25C7}']) by {
        assert(seq!['\u{25C6}'][0] != seq!['\u{25C7}'][0]);
    }
    assert(Seq::<char>::empty() != seq!['\u{25C6}']) by {
        assert(seq!['\u{25C6}'].len() == 1);
    }
    assert(Seq::<char>::empty() != seq!['\u{25C7}']) by {
        assert(seq!['\u{25C7}'].len() == 1);
    }
}

/// Arrows and transitions point at their target: `►` (U+25BA) across a
/// left-to-right layout, `▼` (U+25BC) down a top-to-bottom one, nothing at
/// the source; an inheritance shows `▷` (U+25B7) at the parent; a plain line
/// shows nothing.
pub proof fn law_target_marks(lr: bool)
    ensures
        ends_of(EdgeStyle::Arrow, lr) == (Seq::<char>::empty(), if lr { seq!['\u{25BA}'] } else { seq!['\u{25BC}'] }),
        ends_of(EdgeStyle::Transition, lr) == (Seq::<char>::empty(), if lr { seq!['\u{25BA}'] } else { seq!['\u{25BC}'] }),
        ends_of(EdgeStyle::Inherit, lr) == (Seq::<char>::empty(), seq!['\u{25B7}']),
        ends_of(EdgeStyle::Line, lr) == (Seq::<char>::empty(), Seq::<char>::empty()),
{
    reveal_strlit("►");
    reveal_strlit("▼");
    reveal_strlit("▷");
    assert("►"@ =~= seq!['\u{25BA}']);
    assert("▼"@ =~= seq!['\u{25BC}']);
    assert("▷"@ =~= seq!['\u{25B7}']);
}

/// The glyphs at an edge's source and target ends.
fn glyph_ends(style: &EdgeStyle, lr: bool) -> (r: (Vec<char>, Vec<char>))
    ensures
        r.0@ == ends_of(*style, lr).0,
        r.1@ == ends_of(*style, lr).1,
{
    match style {
        EdgeStyle::Arrow | EdgeStyle::Transition => (
            Vec::new(),
            if lr { chars_of("►") } else { chars_of("▼") },
        ),
        EdgeStyle::Line => (Vec::new(), Vec::new()),
        EdgeStyle::Cardinality(l, r) => (chars_of(l.as_str()), chars_of(r.as_str())),
        EdgeStyle::Inherit => (Vec::new(), chars_of("▷")),
        EdgeStyle::Compose => (chars_of("◆"), Vec::new()),
        EdgeStyle::Aggregate => (chars_of("◇"), Vec::new()),
    }
}

/// The text written over a connector: the source-end glyph, a space and
/// the label, or whichever of the two the edge has.
pub open spec fn overlay_of(style: EdgeStyle, label: Option<String>, lr: bool) -> Seq<char> {
    let ns = ends_of(style, lr).0;
    let l = match label {
        Some(t) => t@,
        None => Seq::empty(),
    };
    if ns.len() == 0 {
        l
    } else if l.len() == 0 {
        ns
    } else {
        ns + seq![' '] + l
    }
}

/// The text written over a connector: the source-end glyph and the label,
/// whichever the edge has (never the source node's id).
fn edge_overlay_text(style: &EdgeStyle, label: &Option<String>, lr: bool) -> (r: Vec<char>)
    ensures
        r@ == overlay_of(*style, *label, lr),
{
    let (ns, _nt) = glyph_ends(style, lr);
    let l = match label {
        Some(t) => chars_of(t.as_str()),
        None => Vec::new(),
    };
    if ns.len() == 0 {
        l
    } else if l.len() == 0 {
        ns
    } else {
        let mut a = ns;
        a.push(' ');
        let r = concat(a.as_slice(), l.as_slice());
        assert(r@ =~= overlay_of(*style, *label, lr));
        r
    }
}

/// Writes an edge's trailing glyph flush against the right end of a strip.
fn place_arrowhead(canvas: &mut Canvas, w: usize, row: usize, glyph: &Vec<char>)
    requires
        old(canvas).wf(),
        old(canvas).width() + 4 <= usize::MAX,
    ensures
        final(canvas).wf(),
        final(canvas).width() == old(canvas).width(),
        final(canvas).height() == old(canvas).height(),
        glyph@.len() == 0 ==> *final(canvas) == *old(canvas),
        super::canvas::same_outside(
            *old(canvas),
            *final(canvas),
            w - sat(str_width(glyph@)) - 1,
            old(canvas).width() as int,
            row as int,
            row as int,
        ),
{
    if glyph.len() == 0 {
        return;
    }
    let gw = width_of(glyph.as_slice());
    let x = w.saturating_sub(gw);
    canvas.text_chars(x, row, glyph.as_slice());
}

/// Each node's layer: the length of the longest edge path reaching it,
/// relaxed over at most `max(n, 1)` passes (so a cycle stops growing);
/// `None` if a layer number would overflow.
#[verifier::loop_isolation(false)]
pub fn compute_layers(n: usize, resolved: &Vec<(usize, usize, usize)>) -> (r: Option<Vec<usize>>)
    requires
        forall|k: int| 0 <= k < resolved@.len() ==> resolved@[k].0 < n && resolved@[k].1 < n,
    ensures
        r matches Some(l) ==> l@.len() == n,
        r matches Some(l) ==> forall|i: int| 0 <= i < n ==> l@[i] <= (if n > 1 { n as int } else { 1 }) * resolved@.len(),
        (if n > 1 { n as int } else { 1 }) * resolved@.len() < usize::MAX ==> r is Some,
{
    let mut layer: Vec<usize> = Vec::new();
    let mut i: usize = 0;
    while i < n
        invariant
            layer@.len() == i,
            i <= n,
            forall|j: int| 0 <= j < i ==> layer@[j] == 0,
        decreases n - i,
    {
        layer.push(0);
        i = i + 1;
    }
    let m = resolved.len();
    let passes = if n > 1 { n } else { 1 };
    let ghost bound = passes * m;
    let mut p: usize = 0;
    while p < passes
        invariant
            layer@.len() == n,
            p <= passes,
            forall|j: int| 0 <= j < n ==> layer@[j] <= p * m,
            p * m <= passes * m,
        decreases passes - p,
    {
        let mut changed = false;
        let mut k: usize = 0;
        proof {
            assert((p + 1) * m <= passes * m) by (nonlinear_arith)
                requires
                    p < passes,
            ;
            assert((p + 1) * m == p * m + m) by (nonlinear_arith);
        }
        while k < resolved.len()
            invariant
                layer@.len() == n,
                k <= m,
                m == resolved@.len(),
                forall|j: int| 0 <= j < n ==> layer@[j] <= p * m + k,
                p * m + m <= passes * m,
            decreases resolved.len() - k,
        {
            let (f, t, _) = resolved[k];
            if f != t {
                if layer[f] == usize::MAX {
                    return None;
                }
                if layer[t] < layer[f] + 1 {
                    let v = layer[f] + 1;
                    layer.set(t, v);
                    changed = true;
                }
            }
            k = k + 1;
        }
        if !changed {
            proof {
                assert((p + 1) * m == p * m + m) by (nonlinear_arith);
                assert(p * m <= passes * m) by (nonlinear_arith)
                    requires
                        p < passes,
                ;
            }
            break;
        }
        p = p + 1;
    }
    Some(layer)
}

/// The indices below `n` of the nodes on layer `a`, ascending.
pub open spec fn indices_at(layer: Seq<usize>, a: int, n: int) -> Seq<usize>
    decreases n,
{
    if n <= 0 {
        Seq::empty()
    } else if layer[n - 1] == a {
        indices_at(layer, a, n - 1).push((n - 1) as usize)
    } else {
        indices_at(layer, a, n - 1)
    }
}

/// The node indices of each layer, in node order.
#[verifier::loop_isolation(false)]
fn group_by_layer(layer: &Vec<usize>) -> (r: Option<Vec<Vec<usize>>>)
    ensures
        r matches Some(g) ==> g@.len() >= 1 && forall|i: int| 0 <= i < layer@.len() ==> layer@[i] < g@.len(),
        r matches Some(g) ==> forall|a: int, b: int| 0 <= a < g@.len() && 0 <= b < g@[a]@.len() ==> g@[a]@[b] < layer@.len(),
        r matches Some(g) ==> forall|a: int| 0 <= a < g@.len() ==> (#[trigger] g@[a])@ == indices_at(layer@, a, layer@.len() as int),
        r matches Some(g) ==> (layer@.len() == 0 && g@.len() == 1) || exists|i: int| 0 <= i < layer@.len() && #[trigger] layer@[i] + 1 == g@.len(),
        r is None <==> exists|i: int| 0 <= i < layer@.len() && #[trigger] layer@[i] == usize::MAX,
{
    let mut max_layer: usize = 0;
    let mut i: usize = 0;
    while i < layer.len()
        invariant
            i <= layer@.len(),
            forall|j: int| 0 <= j < i ==> layer@[j] <= max_layer,
            (i == 0 && max_layer == 0) || exists|j: int| 0 <= j < i && #[trigger] layer@[j] == max_layer,
        decreases layer.len() - i,
    {
        if layer[i] > max_layer {
            max_layer = layer[i];
        }
        i = i + 1;
    }
    if max_layer == usize::MAX {
        return None;
    }
    let mut out: Vec<Vec<usize>> = Vec::new();
    let mut k: usize = 0;
    while k <= max_layer
        invariant
            k <= max_layer + 1,
            out@.len() == k,
            forall|a: int| 0 <= a < k ==> (#[trigger] out@[a])@ == Seq::<usize>::empty(),
        decreases max_layer + 1 - k,
    {
        out.push(Vec::new());
        k = k + 1;
    }
    let mut j: usize = 0;
    while j < layer.len()
        invariant
            j <= layer@.len(),
            out@.len() == max_layer + 1,
            forall|q: int| 0 <= q < layer@.len() ==> layer@[q] <= max_layer,
            forall|a: int| 0 <= a < out@.len() ==> (#[trigger] out@[a])@ == indices_at(layer@, a, j as int),
        decreases layer.len() - j,
    {
        let l = layer[j];
        let mut bucket = vec_usize_copy(&out[l]);
        bucket.push(j);
        out.set(l, bucket);
        j = j + 1;
    }
    assert forall|a: int, b: int| 0 <= a < out@.len() && 0 <= b < out@[a]@.len() implies out@[a]@[b] < layer@.len() by {
        lemma_indices_below(layer@, a, layer@.len() as int);
    }
    Some(out)
}

proof fn lemma_indices_below(layer: Seq<usize>, a: int, n: int)
    ensures
        forall|b: int| 0 <= b < indices_at(layer, a, n).len() ==> #[trigger] indices_at(layer, a, n)[b] < n,
    decreases n,
{
    if n > 0 {
        lemma_indices_below(layer, a, n - 1);
        let prev = indices_at(layer, a, n - 1);
        assert forall|b: int| 0 <= b < indices_at(layer, a, n).len() implies #[trigger] indices_at(layer, a, n)[b] < n by {
            if b < prev.len() {
                assert(indices_at(layer, a, n)[b] == prev[b]);
            }
        }
    }
}

fn vec_usize_copy(v: &Vec<usize>) -> (r: Vec<usize>)
    ensures
        r@ == v@,
{
    let mut out: Vec<usize> = Vec::new();
    let mut i: usize = 0;
    while i < v.len()
        invariant
            i <= v@.len(),
            out@ == v@.take(i as int),
        decreases v.len() - i,
    {
        out.push(v[i]);
        i = i + 1;
        assert(out@ =~= v@.take(i as int));
    }
    assert(v@.take(v@.len() as int) =~= v@);
    out
}

/// One edge routed through a left-to-right strip.
struct LrDraw {
    row_f: usize,
    land: usize,
    e: usize,
}

/// One edge routed through a top-to-bottom band.
struct TbDraw {
    col_f: usize,
    col_t: usize,
    lane: usize,
    overlay: Vec<char>,
    nt: Vec<char>,
}

/// The well-formedness shared by the two renderers' inputs: edge
/// endpoints and layer members are node indices, each node's layer has a
/// group.
pub open spec fn routed(n: nat, m: nat, groups: Seq<Vec<usize>>, resolved: Seq<(usize, usize, usize)>, layer: Seq<usize>) -> bool {
    &&& layer.len() == n
    &&& forall|k: int| 0 <= k < resolved.len() ==> resolved[k].0 < n && resolved[k].1 < n && resolved[k].2 < m
    &&& forall|a: int, b: int| 0 <= a < groups.len() && 0 <= b < groups[a]@.len() ==> groups[a]@[b] < n
    &&& forall|i: int| 0 <= i < n ==> layer[i] < groups.len()
}

/// The node boxes at a budget, with their widths.
#[verifier::loop_isolation(false)]
fn all_boxes(nodes: &Vec<Node>, budget: Option<usize>, id_map: &Option<Vec<(Vec<char>, Vec<char>)>>) -> (r: (Vec<Vec<Vec<char>>>, Vec<usize>))
    ensures
        r.0@.len() == nodes@.len(),
        r.1@.len() == nodes@.len(),
{
    let mut boxes: Vec<Vec<Vec<char>>> = Vec::new();
    let mut widths: Vec<usize> = Vec::new();
    let mut i: usize = 0;
    while i < nodes.len()
        invariant
            boxes@.len() == i,
            widths@.len() == i,
            i <= nodes@.len(),
        decreases nodes.len() - i,
    {
        let b = node_box(&nodes[i], budget, id_map);
        widths.push(max_width(&b));
        boxes.push(b);
        i = i + 1;
    }
    (boxes, widths)
}

/// The edges whose target sits in layer `b + 1`, for every boundary `b`
/// between consecutive layers (self loops dropped).
#[verifier::loop_isolation(false)]
fn edges_per_boundary(num_bounds: usize, resolved: &Vec<(usize, usize, usize)>, layer: &Vec<usize>) -> (r: Vec<Vec<(usize, usize, usize)>>)
    requires
        forall|k: int| 0 <= k < resolved@.len() ==> resolved@[k].1 < layer@.len(),
    ensures
        r@.len() == num_bounds,
        forall|a: int, b: int| 0 <= a < r@.len() && 0 <= b < r@[a]@.len() ==> resolved@.contains(#[trigger] r@[a]@[b]),
{
    let mut per: Vec<Vec<(usize, usize, usize)>> = Vec::new();
    let mut k: usize = 0;
    while k < num_bounds
        invariant
            per@.len() == k,
            k <= num_bounds,
            forall|a: int, b: int| 0 <= a < per@.len() && 0 <= b < per@[a]@.len() ==> resolved@.contains(#[trigger] per@[a]@[b]),
        decreases num_bounds - k,
    {
        per.push(Vec::new());
        k = k + 1;
    }
    let mut j: usize = 0;
    while j < resolved.len()
        invariant
            per@.len() == num_bounds,
            forall|a: int, b: int| 0 <= a < per@.len() && 0 <= b < per@[a]@.len() ==> resolved@.contains(#[trigger] per@[a]@[b]),
        decreases resolved.len() - j,
    {
        let (f, t, e) = resolved[j];
        if f != t && layer[t] != 0 {
            let b = layer[t] - 1;
            if b < num_bounds {
                let mut v = copy_triples(&per[b]);
                v.push((f, t, e));
                assert(resolved@.contains((f, t, e))) by {
                    assert(resolved@[j as int] == (f, t, e));
                }
                assert forall|q: int| 0 <= q < v@.len() implies resolved@.contains(#[trigger] v@[q]) by {
                    if q < v@.len() - 1 {
                        assert(v@[q] == per@[b as int]@[q]);
                    }
                }
                per.set(b, v);
            }
        }
        j = j + 1;
    }
    per
}

/// A copy of a list of plain values.
fn copy_triples<T: Copy>(v: &Vec<T>) -> (r: Vec<T>)
    ensures
        r@ == v@,
{
    let mut out: Vec<T> = Vec::new();
    let mut i: usize = 0;
    while i < v.len()
        invariant
            i <= v@.len(),
            out@ == v@.take(i as int),
        decreases v.len() - i,
    {
        out.push(v[i]);
        i = i + 1;
        assert(out@ =~= v@.take(i as int));
    }
    assert(v@.take(v@.len() as int) =~= v@);
    out
}

/// `(a, b, c) < (x, y, z)` in tuple order.
pub open spec fn spec_key_lt(a: (usize, usize, usize), b: (usize, usize, usize)) -> bool {
    a.0 < b.0 || (a.0 == b.0 && (a.1 < b.1 || (a.1 == b.1 && a.2 < b.2)))
}

/// `(a, b, c) < (x, y, z)` in tuple order.
fn key_lt(a: (usize, usize, usize), b: (usize, usize, usize)) -> (r: bool)
    ensures
        r == spec_key_lt(a, b),
{
    a.0 < b.0 || (a.0 == b.0 && (a.1 < b.1 || (a.1 == b.1 && a.2 < b.2)))
}

/// Sorts `(key, item)` pairs by key, keeping equal keys in order.
#[verifier::loop_isolation(false)]
fn sort_by_key3(v: &mut Vec<((usize, usize, usize), (usize, usize, usize))>)
    ensures
        final(v)@.to_multiset() == old(v)@.to_multiset(),
        forall|a: int, b: int| 0 <= a < b < final(v)@.len() ==> !spec_key_lt(#[trigger] final(v)@[b].0, #[trigger] final(v)@[a].0),
{
    proof {
        broadcast use vstd::seq_lib::group_to_multiset_ensures;
    }
    let n = v.len();
    if n == 0 {
        return;
    }
    let mut i: usize = 1;
    while i < n
        invariant
            1 <= i <= n,
            v@.len() == n,
            v@.to_multiset() == old(v)@.to_multiset(),
            forall|a: int, b: int| 0 <= a < b < i ==> !spec_key_lt(#[trigger] v@[b].0, #[trigger] v@[a].0),
        decreases n - i,
    {
        let ghost before = v@;
        let x = v.remove(i);
        let ghost mid = v@;
        assert(forall|q: int| 0 <= q < i ==> mid[q] == before[q]);
        let mut p: usize = 0;
        while p < i && !key_lt(x.0, v[p].0)
            invariant
                p <= i,
                v@ == mid,
                mid.len() == n - 1,
                forall|q: int| 0 <= q < p ==> !spec_key_lt(x.0, #[trigger] mid[q].0),
            decreases i - p,
        {
            p = p + 1;
        }
        v.insert(p, x);
        proof {
            vstd::seq_lib::to_multiset_remove(before, i as int);
            vstd::seq_lib::to_multiset_insert(mid, p as int, x);
            crate::order::lemma_remove_insert_same(before.to_multiset(), x, before, i as int);
            assert forall|a: int, b: int| 0 <= a < b < i + 1 implies !spec_key_lt(#[trigger] v@[b].0, #[trigger] v@[a].0) by {
                if b < p {
                    assert(v@[a] == before[a] && v@[b] == before[b]);
                } else if b == p {
                    assert(v@[b] == x && v@[a] == mid[a]);
                } else if a == p {
                    assert(v@[a] == x && v@[b] == mid[b - 1]);
                    assert(spec_key_lt(x.0, mid[p as int].0));
                    if p < b - 1 {
                        assert(!spec_key_lt(mid[b - 1].0, mid[p as int].0));
                    }
                } else if a < p {
                    assert(v@[a] == mid[a] && v@[b] == mid[b - 1]);
                    assert(!spec_key_lt(mid[b - 1].0, mid[a].0));
                } else {
                    assert(v@[a] == mid[a - 1] && v@[b] == mid[b - 1]);
                    assert(!spec_key_lt(mid[b - 1].0, mid[a - 1].0));
                }
            }
        }
        i = i + 1;
    }
}

/// The cell of column lines `c` at row `r` padded to `w` (blank past the
/// column's end).
fn cell_at(lines: &Vec<Vec<char>>, r: usize, w: usize) -> (c: Vec<char>)
    ensures
        c@ == (if r < lines@.len() { spec_pad_to_width(lines@[r as int]@, w as nat) } else { rep(' ', w as nat) }),
{
    if r < lines.len() {
        pad_to_width(lines[r].as_slice(), w)
    } else {
        spaces(w)
    }
}

/// Left-to-right rendering: one column of boxes per layer, a connector
/// strip between consecutive columns. `None` when a size would overflow.
#[verifier::loop_isolation(false)]
#[verifier::rlimit(40)]
fn render_lr(
    nodes: &Vec<Node>,
    edges: &Vec<Edge>,
    layers_idx: &Vec<Vec<usize>>,
    resolved: &Vec<(usize, usize, usize)>,
    layer: &Vec<usize>,
    budget: Option<usize>,
    id_map: &Option<Vec<(Vec<char>, Vec<char>)>>,
) -> Option<Vec<Vec<char>>>
    requires
        routed(nodes@.len(), edges@.len(), layers_idx@, resolved@, layer@),
{
    let n = nodes.len();
    let (boxes, box_w) = all_boxes(nodes, budget, id_map);
    let mut col_lines: Vec<Vec<Vec<char>>> = Vec::new();
    let mut col_width: Vec<usize> = Vec::new();
    let mut node_row: Vec<usize> = Vec::new();
    let mut z: usize = 0;
    while z < n
        invariant
            node_row@.len() == z,
            z <= n,
        decreases n - z,
    {
        node_row.push(0);
        z = z + 1;
    }
    let mut c: usize = 0;
    while c < layers_idx.len()
        invariant
            node_row@.len() == n,
            col_lines@.len() == c,
            col_width@.len() == c,
            c <= layers_idx@.len(),
        decreases layers_idx.len() - c,
    {
        let col = &layers_idx[c];
        let mut w: usize = 0;
        let mut k: usize = 0;
        while k < col.len()
            invariant
                k <= col@.len(),
            decreases col.len() - k,
        {
            if box_w[col[k]] > w {
                w = box_w[col[k]];
            }
            k = k + 1;
        }
        let mut lines: Vec<Vec<char>> = Vec::new();
        let mut k2: usize = 0;
        while k2 < col.len()
            invariant
                k2 <= col@.len(),
                node_row@.len() == n,
            decreases col.len() - k2,
        {
            let i = col[k2];
            let b = &boxes[i];
            let ghost start0 = lines@.len();
            let mut q: usize = 0;
            while q < b.len()
                invariant
                    q <= b@.len(),
                    lines@.len() == start0 + q,
                decreases b.len() - q,
            {
                lines.push(pad_to_width(b[q].as_slice(), w));
                q = q + 1;
            }
            assert(lines@.len() >= b@.len());
            let start = lines.len() - b.len();
            node_row.set(i, start + b.len() / 2);
            lines.push(spaces(w));
            k2 = k2 + 1;
        }
        if lines.len() > 0 {
            lines.pop();
        }
        col_width.push(w);
        col_lines.push(lines);
        c = c + 1;
    }
    let num_bounds = layers_idx.len().saturating_sub(1);
    let per_bound = edges_per_boundary(num_bounds, resolved, layer);
    let mut canvas_h: usize = 0;
    let mut c2: usize = 0;
    while c2 < col_lines.len()
        decreases col_lines.len() - c2,
    {
        if col_lines[c2].len() > canvas_h {
            canvas_h = col_lines[c2].len();
        }
        c2 = c2 + 1;
    }
    let mut bound_draws: Vec<Vec<LrDraw>> = Vec::new();
    let mut b: usize = 0;
    while b < per_bound.len()
        invariant
            bound_draws@.len() == b,
            b <= per_bound@.len(),
            forall|x: int, y: int| 0 <= x < bound_draws@.len() && 0 <= y < bound_draws@[x]@.len() ==> bound_draws@[x]@[y].e < edges@.len(),
        decreases per_bound.len() - b,
    {
        let here = &per_bound[b];
        let mut es: Vec<((usize, usize, usize), (usize, usize, usize))> = Vec::new();
        let mut k: usize = 0;
        while k < here.len()
            invariant
                k <= here@.len(),
                forall|q: int| 0 <= q < es@.len() ==> resolved@.contains(#[trigger] es@[q].1),
            decreases here.len() - k,
        {
            let (f, t, e) = here[k];
            assert(resolved@.contains(here@[k as int]));
            let ghost j = choose|j: int| 0 <= j < resolved@.len() && resolved@[j] == here@[k as int];
            assert(f < n && t < n && e < edges@.len()) by {
                assert(resolved@[j] == (f, t, e));
            }
            es.push(((node_row[t], node_row[f], f), (f, t, e)));
            k = k + 1;
        }
        let ghost es_before = es@;
        sort_by_key3(&mut es);
        let mut used: Vec<usize> = Vec::new();
        let mut draws: Vec<LrDraw> = Vec::new();
        let mut k3: usize = 0;
        while k3 < es.len()
            invariant
                k3 <= es@.len(),
                es@.to_multiset() == es_before.to_multiset(),
                forall|q: int| 0 <= q < es_before.len() ==> resolved@.contains(#[trigger] es_before[q].1),
                forall|y: int| 0 <= y < draws@.len() ==> draws@[y].e < edges@.len(),
            decreases es.len() - k3,
        {
            let (_, (f, t, e)) = es[k3];
            proof {
                vstd::seq_lib::to_multiset_contains(es@, es@[k3 as int]);
                vstd::seq_lib::to_multiset_contains(es_before, es@[k3 as int]);
                let q = choose|q: int| 0 <= q < es_before.len() && es_before[q] == es@[k3 as int];
                assert(resolved@.contains(es_before[q].1));
                let j = choose|j: int| 0 <= j < resolved@.len() && resolved@[j] == es_before[q].1;
                assert(resolved@[j] == (f, t, e));
            }
            let mut land = node_row[t];
            let mut clash = true;
            while clash
                decreases usize::MAX - land, if clash { 1int } else { 0int },
            {
                let mut found = false;
                let mut u: usize = 0;
                while u < used.len()
                    decreases used.len() - u,
                {
                    if used[u] == land {
                        found = true;
                    }
                    u = u + 1;
                }
                if found {
                    if land == usize::MAX {
                        return None;
                    }
                    land = land + 1;
                } else {
                    clash = false;
                }
            }
            used.push(land);
            if land == usize::MAX {
                return None;
            }
            if land + 1 > canvas_h {
                canvas_h = land + 1;
            }
            draws.push(LrDraw { row_f: node_row[f], land, e });
            k3 = k3 + 1;
        }
        bound_draws.push(draws);
        b = b + 1;
    }
    let mut strip_w: Vec<usize> = Vec::new();
    let mut b2: usize = 0;
    while b2 < bound_draws.len()
        invariant
            strip_w@.len() == b2,
            b2 <= bound_draws@.len(),
        decreases bound_draws.len() - b2,
    {
        let draws = &bound_draws[b2];
        let mut w: usize = 4;
        let mut k: usize = 0;
        while k < draws.len()
            invariant
                k <= draws@.len(),
            decreases draws.len() - k,
        {
            let d = &draws[k];
            let edge = &edges[d.e];
            let (_ns, nt) = glyph_ends(&edge.style, true);
            let overlay = edge_overlay_text(&edge.style, &edge.label, true);
            let margin: usize = 1;
            let ow = width_of(overlay.as_slice());
            let tw = width_of(nt.as_slice());
            if ow > usize::MAX - 8 || tw > usize::MAX - 8 - ow {
                return None;
            }
            let need = ow + tw + margin + 1;
            if need > w {
                w = need;
            }
            k = k + 1;
        }
        strip_w.push(w);
        b2 = b2 + 1;
    }
    let mut strip_lines: Vec<Vec<Vec<char>>> = Vec::new();
    let mut b3: usize = 0;
    while b3 < bound_draws.len()
        invariant
            strip_lines@.len() == b3,
            b3 <= bound_draws@.len(),
            strip_w@.len() == bound_draws@.len(),
        decreases bound_draws.len() - b3,
    {
        let w = strip_w[b3];
        if w > usize::MAX - 8 {
            return None;
        }
        let area = w.checked_mul(canvas_h);
        if area.is_none() {
            return None;
        }
        let mut canvas = Canvas::new(w, canvas_h);
        let draws = &bound_draws[b3];
        let mut k: usize = 0;
        while k < draws.len()
            invariant
                canvas.wf(),
                canvas.width() == w,
                w + 8 <= usize::MAX,
            decreases draws.len() - k,
        {
            let d = &draws[k];
            if d.row_f == d.land {
                canvas.hline(0, w.saturating_sub(1), d.row_f, '─');
            } else {
                let lim = w.saturating_sub(1);
                let bend_x = if 1 < lim { 1 } else { lim };
                let bend_x = if bend_x > 1 { bend_x } else { 1 };
                canvas.hline(0, bend_x, d.row_f, '─');
                canvas.vline(bend_x, d.row_f, d.land, '│');
                canvas.hline(bend_x, w.saturating_sub(1), d.land, '─');
            }
            k = k + 1;
        }
        let mut k2: usize = 0;
        while k2 < draws.len()
            invariant
                canvas.wf(),
                canvas.width() == w,
                w + 8 <= usize::MAX,
            decreases draws.len() - k2,
        {
            let d = &draws[k2];
            let edge = &edges[d.e];
            let (_ns, nt) = glyph_ends(&edge.style, true);
            let overlay = edge_overlay_text(&edge.style, &edge.label, true);
            let lim = w.saturating_sub(1);
            if d.row_f == d.land {
                let tx = if 1 < lim { 1 } else { lim };
                canvas.text_chars(tx, d.row_f, overlay.as_slice());
                place_arrowhead(&mut canvas, w, d.row_f, &nt);
            } else {
                let bend_x = if 1 < lim { 1 } else { lim };
                let bend_x = if bend_x > 1 { bend_x } else { 1 };
                let text_x = if bend_x + 1 < lim { bend_x + 1 } else { lim };
                canvas.text_chars(text_x, d.land, overlay.as_slice());
                place_arrowhead(&mut canvas, w, d.land, &nt);
            }
            k2 = k2 + 1;
        }
        strip_lines.push(canvas.into_lines());
        b3 = b3 + 1;
    }
    let mut out: Vec<Vec<char>> = Vec::new();
    let mut r: usize = 0;
    while r < canvas_h
        invariant
            r <= canvas_h,
            strip_lines@.len() == strip_w@.len(),
            col_lines@.len() == col_width@.len(),
        decreases canvas_h - r,
    {
        let mut line: Vec<char> = Vec::new();
        let mut c3: usize = 0;
        while c3 < col_lines.len()
            invariant
                c3 <= col_lines@.len(),
            decreases col_lines.len() - c3,
        {
            let cell = cell_at(&col_lines[c3], r, col_width[c3]);
            line = concat(line.as_slice(), cell.as_slice());
            if c3 < strip_lines.len() {
                let sc = cell_at(&strip_lines[c3], r, strip_w[c3]);
                line = concat(line.as_slice(), sc.as_slice());
            }
            c3 = c3 + 1;
        }
        out.push(line);
        r = r + 1;
    }
    Some(out)
}

/// Top-to-bottom rendering: one row of boxes per layer, a connector band
/// between consecutive rows. `None` when a size would overflow.
#[verifier::loop_isolation(false)]
#[verifier::rlimit(60)]
fn render_tb(
    nodes: &Vec<Node>,
    edges: &Vec<Edge>,
    layers_idx: &Vec<Vec<usize>>,
    resolved: &Vec<(usize, usize, usize)>,
    layer: &Vec<usize>,
    budget: Option<usize>,
    id_map: &Option<Vec<(Vec<char>, Vec<char>)>>,
) -> Option<Vec<Vec<char>>>
    requires
        routed(nodes@.len(), edges@.len(), layers_idx@, resolved@, layer@),
{
    let n = nodes.len();
    let (boxes, box_w) = all_boxes(nodes, budget, id_map);
    let mut row_lines: Vec<Vec<Vec<char>>> = Vec::new();
    let mut node_col: Vec<usize> = Vec::new();
    let mut z: usize = 0;
    while z < n
        invariant
            node_col@.len() == z,
            z <= n,
        decreases n - z,
    {
        node_col.push(0);
        z = z + 1;
    }
    let mut c: usize = 0;
    while c < layers_idx.len()
        invariant
            node_col@.len() == n,
            row_lines@.len() == c,
            c <= layers_idx@.len(),
        decreases layers_idx.len() - c,
    {
        let row = &layers_idx[c];
        let mut h: usize = 0;
        let mut k: usize = 0;
        while k < row.len()
            invariant
                k <= row@.len(),
            decreases row.len() - k,
        {
            if boxes[row[k]].len() > h {
                h = boxes[row[k]].len();
            }
            k = k + 1;
        }
        let mut lines: Vec<Vec<char>> = Vec::new();
        let mut q: usize = 0;
        while q < h
            invariant
                lines@.len() == q,
                q <= h,
            decreases h - q,
        {
            lines.push(Vec::new());
            q = q + 1;
        }
        let mut x: usize = 0;
        let mut k2: usize = 0;
        while k2 < row.len()
            invariant
                k2 <= row@.len(),
                node_col@.len() == n,
                lines@.len() == h,
            decreases row.len() - k2,
        {
            let i = row[k2];
            if k2 > 0 {
                let mut li: usize = 0;
                while li < h
                    invariant
                        lines@.len() == h,
                        li <= h,
                    decreases h - li,
                {
                    let mut l = copy_triples(&lines[li]);
                    l.push(' ');
                    l.push(' ');
                    lines.set(li, l);
                    li = li + 1;
                }
                if x > usize::MAX - 2 {
                    return None;
                }
                x = x + 2;
            }
            let w = box_w[i];
            if w > usize::MAX - x {
                return None;
            }
            node_col.set(i, x + w / 2);
            let mut li2: usize = 0;
            while li2 < h
                invariant
                    lines@.len() == h,
                    li2 <= h,
                decreases h - li2,
            {
                let content = if li2 < boxes[i].len() {
                    pad_to_width(boxes[i][li2].as_slice(), w)
                } else {
                    spaces(w)
                };
                let l = concat(lines[li2].as_slice(), content.as_slice());
                lines.set(li2, l);
                li2 = li2 + 1;
            }
            x = x + w;
            k2 = k2 + 1;
        }
        row_lines.push(lines);
        c = c + 1;
    }
    let mut canvas_w: usize = 0;
    let mut c2: usize = 0;
    while c2 < row_lines.len()
        decreases row_lines.len() - c2,
    {
        let w = max_width(&row_lines[c2]);
        if w > canvas_w {
            canvas_w = w;
        }
        c2 = c2 + 1;
    }
    let num_bounds = layers_idx.len().saturating_sub(1);
    let per_bound = edges_per_boundary(num_bounds, resolved, layer);
    let mut band_lines: Vec<Vec<Vec<char>>> = Vec::new();
    let mut b: usize = 0;
    while b < per_bound.len()
        invariant
            b <= per_bound@.len(),
            band_lines@.len() == b,
        decreases per_bound.len() - b,
    {
        let here = &per_bound[b];
        if here.len() == 0 {
            band_lines.push(Vec::new());
        } else {
            match tb_band(edges, &node_col, here, resolved, canvas_w) {
                Some(lines) => band_lines.push(lines),
                None => {
                    return None;
                },
            }
        }
        b = b + 1;
    }
    let mut out: Vec<Vec<char>> = Vec::new();
    let mut ri: usize = 0;
    while ri < row_lines.len()
        invariant
            ri <= row_lines@.len(),
        decreases row_lines.len() - ri,
    {
        let row = &row_lines[ri];
        let mut q: usize = 0;
        while q < row.len()
            invariant
                q <= row@.len(),
            decreases row.len() - q,
        {
            out.push(pad_to_width(row[q].as_slice(), canvas_w));
            q = q + 1;
        }
        if ri < band_lines.len() {
            let band = &band_lines[ri];
            let mut q2: usize = 0;
            while q2 < band.len()
                invariant
                    q2 <= band@.len(),
                decreases band.len() - q2,
            {
                out.push(pad_to_width(band[q2].as_slice(), canvas_w));
                q2 = q2 + 1;
            }
        }
        ri = ri + 1;
    }
    Some(out)
}

/// One connector band of the top-to-bottom rendering: each target column
/// gets one lane per converging edge (in source order) for its overlay
/// text, the line bends on a shared row, and the arrowhead sits on the
/// bottom row.
#[verifier::loop_isolation(false)]
#[verifier::rlimit(60)]
fn tb_band(
    edges: &Vec<Edge>,
    node_col: &Vec<usize>,
    here: &Vec<(usize, usize, usize)>,
    resolved: &Vec<(usize, usize, usize)>,
    canvas_w: usize,
) -> Option<Vec<Vec<char>>>
    requires
        forall|k: int| 0 <= k < resolved@.len() ==> resolved@[k].0 < node_col@.len() && resolved@[k].1 < node_col@.len() && resolved@[k].2 < edges@.len(),
        forall|k: int| 0 <= k < here@.len() ==> resolved@.contains(#[trigger] here@[k]),
{
    let n = node_col.len();
    let mut bucket_x: Vec<usize> = Vec::new();
    let mut buckets: Vec<Vec<((usize, usize, usize), (usize, usize, usize))>> = Vec::new();
    let mut k: usize = 0;
    while k < here.len()
        invariant
            k <= here@.len(),
            bucket_x@.len() == buckets@.len(),
            forall|p: int, q: int| 0 <= p < buckets@.len() && 0 <= q < buckets@[p]@.len() ==> resolved@.contains(#[trigger] buckets@[p]@[q].1),
        decreases here.len() - k,
    {
        let (f, t, e) = here[k];
        assert(resolved@.contains(here@[k as int]));
        let ghost j = choose|j: int| 0 <= j < resolved@.len() && resolved@[j] == here@[k as int];
        assert(f < n && t < n && e < edges@.len()) by {
            assert(resolved@[j] == (f, t, e));
        }
        let x = node_col[t];
        let mut slot: usize = 0;
        while slot < bucket_x.len() && bucket_x[slot] != x
            invariant
                slot <= bucket_x@.len(),
            decreases bucket_x.len() - slot,
        {
            slot = slot + 1;
        }
        let item = ((f, 0, 0), (f, t, e));
        assert(resolved@.contains(item.1)) by {
            assert(resolved@[j] == item.1);
        }
        if slot < bucket_x.len() {
            let mut v = copy_triples(&buckets[slot]);
            v.push(item);
            assert forall|q: int| 0 <= q < v@.len() implies resolved@.contains(#[trigger] v@[q].1) by {
                if q < v@.len() - 1 {
                    assert(v@[q] == buckets@[slot as int]@[q]);
                }
            }
            buckets.set(slot, v);
        } else {
            bucket_x.push(x);
            let mut v: Vec<((usize, usize, usize), (usize, usize, usize))> = Vec::new();
            v.push(item);
            buckets.push(v);
        }
        k = k + 1;
    }
    let mut max_lanes: usize = 0;
    let mut p: usize = 0;
    while p < buckets.len()
        invariant
            p <= buckets@.len(),
            bucket_x@.len() == buckets@.len(),
            forall|a: int, q: int| 0 <= a < buckets@.len() && 0 <= q < buckets@[a]@.len() ==> resolved@.contains(#[trigger] buckets@[a]@[q].1),
        decreases buckets.len() - p,
    {
        let mut v = copy_triples(&buckets[p]);
        let ghost before = v@;
        sort_by_key3(&mut v);
        proof {
            assert forall|q: int| 0 <= q < v@.len() implies resolved@.contains(#[trigger] v@[q].1) by {
                vstd::seq_lib::to_multiset_contains(v@, v@[q]);
                vstd::seq_lib::to_multiset_contains(before, v@[q]);
                let w = choose|w: int| 0 <= w < before.len() && before[w] == v@[q];
                assert(before[w] == buckets@[p as int]@[w]);
            }
        }
        if v.len() > max_lanes {
            max_lanes = v.len();
        }
        buckets.set(p, v);
        p = p + 1;
    }
    let lanes = if max_lanes > 1 { max_lanes } else { 1 };
    if lanes > usize::MAX - 2 {
        return None;
    }
    let band_height = lanes + 2;
    let bottom = band_height - 1;
    let mut draws: Vec<TbDraw> = Vec::new();
    let mut w: usize = if canvas_w > 1 { canvas_w } else { 1 };
    let mut p2: usize = 0;
    while p2 < buckets.len()
        invariant
            p2 <= buckets@.len(),
            w >= 1,
            forall|a: int, q: int| 0 <= a < buckets@.len() && 0 <= q < buckets@[a]@.len() ==> resolved@.contains(#[trigger] buckets@[a]@[q].1),
        decreases buckets.len() - p2,
    {
        let v = &buckets[p2];
        let mut lane: usize = 0;
        while lane < v.len()
            invariant
                lane <= v@.len(),
                w >= 1,
            decreases v.len() - lane,
        {
            let (f, t, e) = v[lane].1;
            assert(resolved@.contains(v@[lane as int].1));
            let ghost j = choose|j: int| 0 <= j < resolved@.len() && resolved@[j] == v@[lane as int].1;
            assert(f < n && t < n && e < edges@.len()) by {
                assert(resolved@[j] == (f, t, e));
            }
            let col_f = node_col[f];
            let col_t = node_col[t];
            let (_ns, nt) = glyph_ends(&edges[e].style, false);
            let overlay = edge_overlay_text(&edges[e].style, &edges[e].label, false);
            let ow = width_of(overlay.as_slice());
            let tw = width_of(nt.as_slice());
            let m = if ow > tw { ow } else { tw };
            if m > usize::MAX - 1 || col_t > usize::MAX - 1 - m {
                return None;
            }
            let needed = col_t + m + 1;
            if needed > w {
                w = needed;
            }
            draws.push(TbDraw { col_f, col_t, lane, overlay, nt });
            lane = lane + 1;
        }
        p2 = p2 + 1;
    }
    if w > usize::MAX - 8 || w.checked_mul(band_height).is_none() {
        return None;
    }
    let mut canvas = Canvas::new(w, band_height);
    let last = w - 1;
    let mut d1: usize = 0;
    while d1 < draws.len()
        invariant
            canvas.wf(),
            canvas.width() == w,
            w + 8 <= usize::MAX,
        decreases draws.len() - d1,
    {
        let d = &draws[d1];
        let col_f = if d.col_f < last { d.col_f } else { last };
        let col_t = if d.col_t < last { d.col_t } else { last };
        if col_f == col_t {
            canvas.vline(col_t, 0, bottom, '│');
        } else {
            let half = band_height / 2;
            let lim = bottom.saturating_sub(1);
            let bend_y = if half < lim { half } else { lim };
            let bend_y = if bend_y > 1 { bend_y } else { 1 };
            canvas.vline(col_f, 0, bend_y, '│');
            canvas.hline(col_f, col_t, bend_y, '─');
            canvas.vline(col_t, bend_y, bottom, '│');
        }
        d1 = d1 + 1;
    }
    let mut d2: usize = 0;
    while d2 < draws.len()
        invariant
            canvas.wf(),
            canvas.width() == w,
            w + 8 <= usize::MAX,
        decreases draws.len() - d2,
    {
        let d = &draws[d2];
        let col_t = if d.col_t < last { d.col_t } else { last };
        let lim = bottom.saturating_sub(1);
        let lim = if lim > 1 { lim } else { 1 };
        let text_row = if d.lane < lim { 1 + d.lane } else { lim };
        canvas.text_chars(col_t, text_row, d.overlay.as_slice());
        if d.nt.len() > 0 {
            let gw = width_of(d.nt.as_slice());
            let room = w.saturating_sub(gw);
            let x = if col_t < room { col_t } else { room };
            canvas.text_chars(x, bottom, d.nt.as_slice());
        }
        d2 = d2 + 1;
    }
    Some(canvas.into_lines())
}

/// The title as the top border of a dashed box shows it.
pub open spec fn title_bar(t: Seq<char>) -> Seq<char> {
    if t.len() == 0 {
        Seq::empty()
    } else {
        "┄┄ "@ + t + seq![' ']
    }
}

/// The inner width of a dashed box: its widest line or its title bar.
pub open spec fn dashed_width(inner: Seq<Vec<char>>, t: Seq<char>) -> nat {
    let tw = sat(str_width(title_bar(t)));
    if max_w(inner) > tw {
        max_w(inner) as nat
    } else {
        tw as nat
    }
}

/// Lines framed in a dashed box whose top border carries `title`.
#[verifier::loop_isolation(false)]
fn dashed_box(inner: &Vec<Vec<char>>, title: &String) -> (r: Vec<Vec<char>>)
    ensures
        r@.len() == inner@.len() + 2,
        r@[0]@ == seq!['┌'] + title_bar(title@) + rep(
            '┄',
            (dashed_width(inner@, title@) - sat(str_width(title_bar(title@)))) as nat,
        ) + seq!['┐'],
        forall|i: int| 0 <= i < inner@.len() ==> (#[trigger] r@[i + 1])@ == seq!['┆'] + spec_pad_to_width(
            inner@[i]@,
            dashed_width(inner@, title@),
        ) + seq!['┆'],
        r@[r@.len() - 1]@ == seq!['└'] + rep('┄', dashed_width(inner@, title@)) + seq!['┘'],
{
    let content_w = max_width(inner);
    let t = chars_of(title.as_str());
    let title_disp = if t.len() == 0 {
        Vec::new()
    } else {
        let head = chars_of("┄┄ ");
        let a = concat(head.as_slice(), t.as_slice());
        let mut b = a;
        b.push(' ');
        assert(b@ =~= "┄┄ "@ + t@ + seq![' ']);
        b
    };
    assert(title_disp@ =~= title_bar(title@));
    let title_w = width_of(title_disp.as_slice());
    let w = if content_w > title_w { content_w } else { title_w };
    let dash_fill = w - title_w;
    let mut top: Vec<char> = Vec::new();
    top.push('┌');
    top = concat(top.as_slice(), title_disp.as_slice());
    let dashes = repeat_char('┄', dash_fill);
    top = concat(top.as_slice(), dashes.as_slice());
    top.push('┐');
    assert(top@ =~= seq!['┌'] + title_bar(title@) + rep('┄', dash_fill as nat) + seq!['┐']);
    let mut out: Vec<Vec<char>> = Vec::new();
    out.push(top);
    let mut i: usize = 0;
    while i < inner.len()
        invariant
            i <= inner@.len(),
            w == dashed_width(inner@, title@),
            out@.len() == i + 1,
            out@[0]@ == seq!['┌'] + title_bar(title@) + rep('┄', dash_fill as nat) + seq!['┐'],
            forall|k: int| 0 <= k < i ==> (#[trigger] out@[k + 1])@ == seq!['┆'] + spec_pad_to_width(inner@[k]@, w as nat)
                + seq!['┆'],
        decreases inner.len() - i,
    {
        let mut row: Vec<char> = Vec::new();
        row.push('┆');
        let p = pad_to_width(inner[i].as_slice(), w);
        row = concat(row.as_slice(), p.as_slice());
        row.push('┆');
        assert(row@ =~= seq!['┆'] + spec_pad_to_width(inner@[i as int]@, w as nat) + seq!['┆']);
        out.push(row);
        i = i + 1;
    }
    out.push(border('└', '┄', w, '┘'));
    out
}

/// Lines that make a dashed box titled `t`: the top border carries the
/// title bar and dashes, the bottom border is as wide, and every line
/// between starts and ends with `┆`.
pub open spec fn framed_box(r: Seq<Vec<char>>, t: Seq<char>) -> bool {
    &&& r.len() >= 2
    &&& exists|w: nat|
        #![trigger rep('┄', w)]
        w >= sat(str_width(title_bar(t))) && r[0]@ == seq!['┌'] + title_bar(t) + rep('┄', (w - sat(str_width(title_bar(t)))) as nat)
            + seq!['┐'] && r[r.len() - 1]@ == seq!['└'] + rep('┄', w) + seq!['┘']
    &&& forall|i: int| 1 <= i < r.len() - 1 ==> (#[trigger] r[i])@.len() >= 2 && r[i]@[0] == '┆' && r[i]@.last() == '┆'
}

proof fn lemma_dashed_box_framed(inner: Seq<Vec<char>>, t: Seq<char>, r: Seq<Vec<char>>)
    requires
        r.len() == inner.len() + 2,
        r[0]@ == seq!['┌'] + title_bar(t) + rep('┄', (dashed_width(inner, t) - sat(str_width(title_bar(t)))) as nat) + seq!['┐'],
        forall|i: int| 0 <= i < inner.len() ==> (#[trigger] r[i + 1])@ == seq!['┆'] + spec_pad_to_width(inner[i]@, dashed_width(inner, t))
            + seq!['┆'],
        r[r.len() - 1]@ == seq!['└'] + rep('┄', dashed_width(inner, t)) + seq!['┘'],
    ensures
        framed_box(r, t),
{
    let w = dashed_width(inner, t);
    assert(rep('┄', w) == rep('┄', w));
    assert forall|i: int| 1 <= i < r.len() - 1 implies (#[trigger] r[i])@.len() >= 2 && r[i]@[0] == '┆' && r[i]@.last() == '┆' by {
        assert(r[(i - 1) + 1] == r[i]);
    }
}

/// A subgraph: its members' boxes side by side (each member once, in
/// listed order) inside a dashed box titled with the subgraph's title.
#[verifier::loop_isolation(false)]
fn render_subgraph(nodes: &Vec<Node>, group: &Subgraph, budget: Option<usize>, id_map: &Option<Vec<(Vec<char>, Vec<char>)>>) -> (r: Vec<Vec<char>>)
    ensures
        framed_box(r@, group.title@),
{
    let mut seen: Vec<Vec<char>> = Vec::new();
    let mut member_boxes: Vec<Vec<Vec<char>>> = Vec::new();
    let mut i: usize = 0;
    while i < group.members.len()
        decreases group.members.len() - i,
    {
        let id = chars_of(group.members[i].as_str());
        let mut dup = false;
        let mut k: usize = 0;
        while k < seen.len()
            invariant
                k <= seen@.len(),
            decreases seen.len() - k,
        {
            if same_chars(&seen[k], &id) {
                dup = true;
            }
            k = k + 1;
        }
        if !dup {
            seen.push(copy_triples(&id));
            let mut j: usize = 0;
            let mut found = false;
            while j < nodes.len() && !found
                invariant
                    j <= nodes@.len(),
                decreases nodes.len() - j, if found { 0int } else { 1int },
            {
                if nodes[j].id == group.members[i] {
                    member_boxes.push(node_box(&nodes[j], budget, id_map));
                    found = true;
                } else {
                    j = j + 1;
                }
            }
        }
        i = i + 1;
    }
    if member_boxes.len() == 0 {
        let empty: Vec<Vec<char>> = Vec::new();
        let r = dashed_box(&empty, &group.title);
        proof {
            lemma_dashed_box_framed(empty@, group.title@, r@);
        }
        return r;
    }
    let mut h: usize = 0;
    let mut b: usize = 0;
    while b < member_boxes.len()
        decreases member_boxes.len() - b,
    {
        if member_boxes[b].len() > h {
            h = member_boxes[b].len();
        }
        b = b + 1;
    }
    let mut inner: Vec<Vec<char>> = Vec::new();
    let mut q: usize = 0;
    while q < h
        invariant
            inner@.len() == q,
            q <= h,
        decreases h - q,
    {
        inner.push(Vec::new());
        q = q + 1;
    }
    let mut m: usize = 0;
    while m < member_boxes.len()
        invariant
            inner@.len() == h,
        decreases member_boxes.len() - m,
    {
        let bx = &member_boxes[m];
        let w = max_width(bx);
        let mut row: usize = 0;
        while row < h
            invariant
                inner@.len() == h,
                row <= h,
            decreases h - row,
        {
            let mut l = copy_triples(&inner[row]);
            if m > 0 {
                l.push(' ');
                l.push(' ');
            }
            let content = if row < bx.len() {
                pad_to_width(bx[row].as_slice(), w)
            } else {
                spaces(w)
            };
            l = concat(l.as_slice(), content.as_slice());
            inner.set(row, l);
            row = row + 1;
        }
        m = m + 1;
    }
    let r = dashed_box(&inner, &group.title);
    proof {
        lemma_dashed_box_framed(inner@, group.title@, r@);
    }
    r
}

/// Whether every line is at most `width` columns wide.
pub open spec fn lines_fit(lines: Seq<Seq<char>>, width: nat) -> bool {
    forall|i: int| 0 <= i < lines.len() ==> sat(str_width(#[trigger] lines[i])) <= width
}

fn all_fit(lines: &Vec<Vec<char>>, width: usize) -> (r: bool)
    ensures
        r == lines_fit(lines.deep_view(), width as nat),
{
    let mut i: usize = 0;
    while i < lines.len()
        invariant
            i <= lines@.len(),
            forall|k: int| 0 <= k < i ==> sat(str_width(#[trigger] lines.deep_view()[k])) <= width,
        decreases lines.len() - i,
    {
        proof {
            crate::text::lemma_chars_deep_view(lines@[i as int]);
        }
        if !fits(lines[i].as_slice(), width) {
            assert(!(sat(str_width(lines.deep_view()[i as int])) <= width));
            return false;
        }
        i = i + 1;
    }
    true
}

/// The index of the first node with the given id.
/// The index of the first node with the given id.
pub open spec fn node_pos(nodes: Seq<Node>, id: Seq<char>, i: int) -> Option<int>
    decreases nodes.len() - i,
{
    if i < 0 || i >= nodes.len() {
        None
    } else if nodes[i].id@ == id {
        Some(i)
    } else {
        node_pos(nodes, id, i + 1)
    }
}

fn node_index(nodes: &Vec<Node>, id: &String) -> (r: Option<usize>)
    ensures
        r matches Some(i) ==> i < nodes@.len(),
        match r {
            Some(i) => node_pos(nodes@, id@, 0) == Some(i as int),
            None => node_pos(nodes@, id@, 0) is None,
        },
{
    let mut i: usize = 0;
    while i < nodes.len()
        invariant
            i <= nodes@.len(),
            node_pos(nodes@, id@, 0) == node_pos(nodes@, id@, i as int),
        decreases nodes.len() - i,
    {
        if nodes[i].id == *id {
            return Some(i);
        }
        i = i + 1;
    }
    None
}

/// Renders a graph-shaped diagram in at most `width` columns: `LR`
/// diagrams as columns of boxes joined by strips, `TB` diagrams as rows of
/// boxes joined by bands, subgraphs below. Node labels are abbreviated
/// further on each attempt (never below three columns) until everything
/// fits; `Overflow` when nothing does, `Empty` for a diagram without nodes
/// (or one that is not graph-shaped). `kind` names the diagram in the
/// fallback.
#[verifier::loop_isolation(false)]
pub fn layout(diagram: &Diagram, width: u16, kind: &str) -> (r: Result<Vec<String>, Fallback>)
    ensures
        match r {
            Ok(lines) => {
                &&& diagram@ matches DiagramV::Graph { nodes, .. }
                &&& nodes.len() > 0
                &&& lines_fit(views(lines@), width as nat)
            },
            Err(f) => match f@ {
                FallbackV::Empty { kind: k } => k == kind@ && match diagram@ {
                    DiagramV::Graph { nodes, .. } => nodes.len() == 0,
                    _ => true,
                },
                FallbackV::Overflow { kind: k } => k == kind@ && (match diagram@ {
                    DiagramV::Graph { nodes, .. } => nodes.len() > 0,
                    _ => false,
                }),
            },
        },
{
    broadcast use super::parse::group_views;
    let (dir, nodes, edges, groups) = match diagram {
        Diagram::Graph { dir, nodes, edges, groups } => (dir, nodes, edges, groups),
        _ => {
            return Err(super::empty_fallback(kind));
        },
    };
    if nodes.len() == 0 {
        return Err(super::empty_fallback(kind));
    }
    let n = nodes.len();
    let mut resolved: Vec<(usize, usize, usize)> = Vec::new();
    let mut ei: usize = 0;
    while ei < edges.len()
        invariant
            ei <= edges@.len(),
            forall|k: int| 0 <= k < resolved@.len() ==> resolved@[k].0 < n && resolved@[k].1 < n && resolved@[k].2 < edges@.len(),
        decreases edges.len() - ei,
    {
        match (node_index(nodes, &edges[ei].from), node_index(nodes, &edges[ei].to)) {
            (Some(f), Some(t)) => resolved.push((f, t, ei)),
            _ => {},
        }
        ei = ei + 1;
    }
    let overflow = Fallback::Overflow { kind: kind.to_owned() };
    let layer = match compute_layers(n, &resolved) {
        Some(l) => l,
        None => {
            return Err(overflow);
        },
    };
    let layers_idx = match group_by_layer(&layer) {
        Some(g) => g,
        None => {
            return Err(overflow);
        },
    };
    let mut natural_max_label: usize = 1;
    let mut all_ids: Vec<String> = Vec::new();
    let mut i: usize = 0;
    while i < nodes.len()
        invariant
            i <= nodes@.len(),
            natural_max_label >= 1,
        decreases nodes.len() - i,
    {
        let w = node_label_width(&nodes[i]);
        if w > natural_max_label {
            natural_max_label = w;
        }
        all_ids.push(nodes[i].id.clone());
        i = i + 1;
    }
    let mut budget: Option<usize> = None;
    let max_attempts = natural_max_label.saturating_add(1);
    let mut attempt: usize = 0;
    loop
        invariant
            attempt <= max_attempts,
            natural_max_label >= 1,
            routed(nodes@.len(), edges@.len(), layers_idx@, resolved@, layer@),
        decreases max_attempts - attempt,
    {
        let id_map = match budget {
            Some(b) => {
                let pairs = dedupe_abbreviations(all_ids.as_slice(), b);
                let mut m: Vec<(Vec<char>, Vec<char>)> = Vec::new();
                let mut k: usize = 0;
                while k < pairs.len()
                    decreases pairs.len() - k,
                {
                    m.push((chars_of(pairs[k].0.as_str()), chars_of(pairs[k].1.as_str())));
                    k = k + 1;
                }
                Some(m)
            },
            None => None,
        };
        let rendered = match dir {
            Dir::LR => render_lr(nodes, edges, &layers_idx, &resolved, &layer, budget, &id_map),
            Dir::TB => render_tb(nodes, edges, &layers_idx, &resolved, &layer, budget, &id_map),
        };
        if let Some(mut lines) = rendered {
            if groups.len() > 0 {
                lines.push(Vec::new());
                let mut g: usize = 0;
                while g < groups.len()
                    decreases groups.len() - g,
                {
                    let sub = render_subgraph(nodes, &groups[g], budget, &id_map);
                    let mut q: usize = 0;
                    while q < sub.len()
                        invariant
                            q <= sub@.len(),
                        decreases sub.len() - q,
                    {
                        lines.push(copy_triples(&sub[q]));
                        q = q + 1;
                    }
                    g = g + 1;
                }
            }
            if all_fit(&lines, width as usize) {
                let mut out: Vec<String> = Vec::new();
                let mut k: usize = 0;
                while k < lines.len()
                    invariant
                        k <= lines@.len(),
                        lines_fit(lines.deep_view(), width as nat),
                        views(out@) == lines.deep_view().take(k as int),
                    decreases lines.len() - k,
                {
                    proof {
                        crate::text::lemma_chars_deep_view(lines@[k as int]);
                    }
                    out.push(string_of(lines[k].as_slice()));
                    k = k + 1;
                    assert(views(out@) =~= lines.deep_view().take(k as int));
                }
                assert(lines.deep_view().take(lines@.len() as int) =~= lines.deep_view());
                return Ok(out);
            }
        }
        let next = match budget {
            None => {
                let a = natural_max_label - 1;
                if a > MIN_BUDGET { a } else { MIN_BUDGET }
            },
            Some(b) => {
                if b > MIN_BUDGET {
                    b - 1
                } else {
                    break;
                }
            },
        };
        if budget == Some(next) {
            break;
        }
        budget = Some(next);
        if attempt == max_attempts {
            break;
        }
        attempt = attempt + 1;
    }
    Err(overflow)
}

} // verus!
