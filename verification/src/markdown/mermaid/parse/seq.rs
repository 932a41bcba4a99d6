//! `sequenceDiagram` diagrams.

use vstd::prelude::*;
use crate::text::{chars_of, find, find_ch, find_ch_exec, find_str, lemma_chars_deep_view,
    lemma_find_ch_from_bounds, lemma_find_from_bounds, lines, lines_of, split_once, split_once_ch,
    starts_with_str, string_of, strip_prefix, trim, trim_slice};
use super::{Diagram, Message, DiagramV, MessageV, views, result_view, is_content, contains_string};
use super::super::{Fallback, FallbackV};

verus! {

broadcast use super::group_views;

/// `participant X [as Y]` / `actor X [as Y]`: the id and the display name.
pub open spec fn spec_participant(l: Seq<char>) -> Option<(Seq<char>, Seq<char>)> {
    let rest = match strip_prefix(l, "participant "@) {
        Some(r) => Some(r),
        None => strip_prefix(l, "actor "@),
    };
    match rest {
        None => None,
        Some(r) => {
            let r = trim(r);
            match split_once(r, " as "@) {
                Some((id, alias)) => Some((trim(id), trim(alias))),
                None => Some((r, r)),
            }
        },
    }
}

/// `from <arrow> to [: label]` for one arrow form.
pub open spec fn try_arrow(l: Seq<char>, arrow: Seq<char>) -> Option<
    (Seq<char>, Seq<char>, Seq<char>),
> {
    match find(l, arrow) {
        Some(idx) => {
            let from = trim(l.subrange(0, idx));
            let rest = l.subrange(idx + arrow.len(), l.len() as int);
            let (to, label) = match split_once_ch(rest, ':') {
                Some((t, lb)) => (trim(t), trim(lb)),
                None => (trim(rest), Seq::empty()),
            };
            if from.len() == 0 || to.len() == 0 {
                None
            } else {
                Some((from, to, label))
            }
        },
        None => None,
    }
}

/// A message line, trying `-->>`, `->>`, `-->`, `->` in that order.
pub open spec fn spec_message(l: Seq<char>) -> Option<(Seq<char>, Seq<char>, Seq<char>)> {
    match try_arrow(l, "-->>"@) {
        Some(m) => Some(m),
        None => match try_arrow(l, "->>"@) {
            Some(m) => Some(m),
            None => match try_arrow(l, "-->"@) {
                Some(m) => Some(m),
                None => try_arrow(l, "->"@),
            },
        },
    }
}

/// The latest display name recorded for `id`.
pub open spec fn lookup(ids: Seq<(Seq<char>, Seq<char>)>, id: Seq<char>) -> Option<Seq<char>>
    decreases ids.len(),
{
    if ids.len() == 0 {
        None
    } else if ids.last().0 == id {
        Some(ids.last().1)
    } else {
        lookup(ids.drop_last(), id)
    }
}

/// `id` resolved through the participant aliases.
pub open spec fn resolve(ids: Seq<(Seq<char>, Seq<char>)>, id: Seq<char>) -> Seq<char> {
    match lookup(ids, id) {
        Some(n) => n,
        None => id,
    }
}

pub open spec fn ensure_actor(actors: Seq<Seq<char>>, name: Seq<char>) -> Seq<Seq<char>> {
    if actors.contains(name) {
        actors
    } else {
        actors.push(name)
    }
}

pub struct SeqState {
    pub header: bool,
    pub actors: Seq<Seq<char>>,
    pub messages: Seq<MessageV>,
    pub ids: Seq<(Seq<char>, Seq<char>)>,
}

/// A content line after the header: a participant declaration or a message.
pub open spec fn body_step(st: SeqState, l: Seq<char>) -> SeqState {
    match spec_participant(l) {
        Some((id, name)) => SeqState {
            actors: ensure_actor(st.actors, name),
            ids: st.ids.push((id, name)),
            ..st
        },
        None => match spec_message(l) {
            Some((f, t, label)) => {
                let from = resolve(st.ids, f);
                let to = resolve(st.ids, t);
                SeqState {
                    actors: ensure_actor(ensure_actor(st.actors, from), to),
                    messages: st.messages.push(
                        MessageV { from, to, label, self_msg: from == to },
                    ),
                    ..st
                }
            },
            None => st,
        },
    }
}

pub open spec fn step(st: SeqState, raw: Seq<char>) -> SeqState {
    let l = trim(raw);
    if !is_content(l) {
        st
    } else if !st.header {
        SeqState { header: true, ..st }
    } else {
        body_step(st, l)
    }
}

pub open spec fn fold(ls: Seq<Seq<char>>) -> SeqState
    decreases ls.len(),
{
    if ls.len() == 0 {
        SeqState { header: false, actors: Seq::empty(), messages: Seq::empty(), ids: Seq::empty() }
    } else {
        step(fold(ls.drop_last()), ls.last())
    }
}

/// Actors in order of first appearance and the messages between them.
pub open spec fn spec_parse(src: Seq<char>) -> Result<DiagramV, FallbackV> {
    let st = fold(lines(src));
    if st.actors.len() == 0 && st.messages.len() == 0 {
        Err(FallbackV::Empty { kind: "sequence"@ })
    } else {
        Ok(DiagramV::Sequence { actors: st.actors, messages: st.messages })
    }
}

/// `actor X [as Y]` declares a participant exactly as `participant X [as
/// Y]` does: the same id and display name, so the same actors and the same
/// resolution of later messages.
pub proof fn law_actor_declares_like_participant(st: SeqState, r: Seq<char>)
    ensures
        spec_participant("actor "@ + r) is Some,
        spec_participant("actor "@ + r) == spec_participant("participant "@ + r),
        body_step(st, "actor "@ + r) == body_step(st, "participant "@ + r),
{
    reveal_strlit("actor ");
    reveal_strlit("participant ");
    let a = "actor "@ + r;
    let p = "participant "@ + r;
    assert("participant "@.is_prefix_of(p)) by {
        assert(p.subrange(0, "participant "@.len() as int) =~= "participant "@);
    }
    assert(p.subrange("participant "@.len() as int, p.len() as int) =~= r);
    assert(!"participant "@.is_prefix_of(a)) by {
        assert(a[0] == 'a');
        assert("participant "@[0] == 'p');
    }
    assert("actor "@.is_prefix_of(a)) by {
        assert(a.subrange(0, "actor "@.len() as int) =~= "actor "@);
    }
    assert(a.subrange("actor "@.len() as int, a.len() as int) =~= r);
}

fn ensure_actor_exec(actors: &mut Vec<String>, name: &String)
    ensures
        views(final(actors)@) == ensure_actor(views(old(actors)@), name@),
{
    if !contains_string(actors, name) {
        actors.push(name.clone());
    }
}

fn parse_participant_line(l: &[char]) -> (r: Option<(String, String)>)
    ensures
        match r {
            Some((id, name)) => spec_participant(l@) == Some((id@, name@)),
            None => spec_participant(l@) is None,
        },
{
    let rest: &[char] = if starts_with_str(l, "participant ") {
        let n = chars_of("participant ").len();
        &l[n..l.len()]
    } else if starts_with_str(l, "actor ") {
        let n = chars_of("actor ").len();
        &l[n..l.len()]
    } else {
        return None;
    };
    let r = trim_slice(rest);
    match find_str(r, " as ") {
        Some(k) => {
            proof {
                lemma_find_from_bounds(r@, " as "@, 0);
                reveal_strlit(" as ");
                assert(find(r@, " as "@) == Some(k as int));
                assert(k + 4 <= r.len());
            }
            let id = string_of(trim_slice(&r[0..k]));
            let alias = string_of(trim_slice(&r[k + 4..r.len()]));
            Some((id, alias))
        },
        None => Some((string_of(r), string_of(r))),
    }
}

fn try_arrow_exec(l: &[char], arrow: &str) -> (r: Option<(String, String, String)>)
    ensures
        match r {
            Some((f, t, lb)) => try_arrow(l@, arrow@) == Some((f@, t@, lb@)),
            None => try_arrow(l@, arrow@) is None,
        },
{
    match find_str(l, arrow) {
        Some(idx) => {
            let av = chars_of(arrow);
            let n = av.len();
            proof {
                lemma_find_from_bounds(l@, arrow@, 0);
                assert(find(l@, arrow@) == Some(idx as int));
                assert(idx + n <= l.len());
            }
            let from = trim_slice(&l[0..idx]);
            let rest = &l[idx + n..l.len()];
            let (to, label): (&[char], &[char]) = match find_ch_exec(rest, ':') {
                Some(c) => {
                    proof {
                        lemma_find_ch_from_bounds(rest@, ':', 0);
                        assert(find_ch(rest@, ':') == Some(c as int));
                        assert(c + 1 <= rest.len());
                    }
                    (trim_slice(&rest[0..c]), trim_slice(&rest[c + 1..rest.len()]))
                },
                None => (trim_slice(rest), &rest[0..0]),
            };
            if from.len() == 0 || to.len() == 0 {
                None
            } else {
                Some((string_of(from), string_of(to), string_of(label)))
            }
        },
        None => None,
    }
}

fn parse_message_line(l: &[char]) -> (r: Option<(String, String, String)>)
    ensures
        match r {
            Some((f, t, lb)) => spec_message(l@) == Some((f@, t@, lb@)),
            None => spec_message(l@) is None,
        },
{
    if let Some(m) = try_arrow_exec(l, "-->>") {
        return Some(m);
    }
    if let Some(m) = try_arrow_exec(l, "->>") {
        return Some(m);
    }
    if let Some(m) = try_arrow_exec(l, "-->") {
        return Some(m);
    }
    try_arrow_exec(l, "->")
}

spec fn ids_view(ids: Seq<(String, String)>) -> Seq<(Seq<char>, Seq<char>)> {
    ids.map_values(|p: (String, String)| (p.0@, p.1@))
}

fn resolve_exec(ids: &Vec<(String, String)>, id: String) -> (r: String)
    ensures
        r@ == resolve(ids_view(ids@), id@),
{
    let mut i: usize = ids.len();
    assert(ids_view(ids@).take(i as int) =~= ids_view(ids@));
    while i > 0
        invariant
            i <= ids.len(),
            lookup(ids_view(ids@), id@) == lookup(ids_view(ids@).take(i as int), id@),
        decreases i,
    {
        proof {
            assert(ids_view(ids@).take(i as int).drop_last() =~= ids_view(ids@).take(i - 1));
        }
        if ids[i - 1].0 == id {
            return ids[i - 1].1.clone();
        }
        i = i - 1;
    }
    id
}

struct SeqAcc {
    header: bool,
    actors: Vec<String>,
    messages: Vec<Message>,
    ids: Vec<(String, String)>,
}

impl View for SeqAcc {
    type V = SeqState;

    closed spec fn view(&self) -> SeqState {
        SeqState {
            header: self.header,
            actors: views(self.actors@),
            messages: views(self.messages@),
            ids: ids_view(self.ids@),
        }
    }
}

fn body_step_exec(acc: &mut SeqAcc, l: &[char])
    ensures
        final(acc)@ == body_step(old(acc)@, l@),
{
    if let Some((id, name)) = parse_participant_line(l) {
        ensure_actor_exec(&mut acc.actors, &name);
        let ghost before = acc.ids@;
        acc.ids.push((id, name));
        proof {
            assert(ids_view(acc.ids@) =~= ids_view(before).push((id@, name@)));
        }
        return;
    }
    if let Some((f, t, label)) = parse_message_line(l) {
        let from = resolve_exec(&acc.ids, f);
        let to = resolve_exec(&acc.ids, t);
        ensure_actor_exec(&mut acc.actors, &from);
        ensure_actor_exec(&mut acc.actors, &to);
        let self_msg = from == to;
        acc.messages.push(Message { from, to, label, self_msg });
    }
}

fn step_exec(acc: &mut SeqAcc, raw: &[char])
    ensures
        final(acc)@ == step(old(acc)@, raw@),
{
    let l = trim_slice(raw);
    if l.len() == 0 || starts_with_str(l, "%%") {
        return;
    }
    if !acc.header {
        acc.header = true;
        return;
    }
    body_step_exec(acc, l);
}

/// Parses a `sequenceDiagram`.
pub fn parse(src: &str) -> (r: Result<Diagram, Fallback>)
    ensures
        result_view(r) == spec_parse(src@),
{
    let chars = chars_of(src);
    let ls = lines_of(chars.as_slice());
    let mut acc = SeqAcc { header: false, actors: Vec::new(), messages: Vec::new(), ids: Vec::new() };
    proof {
        assert(ls.deep_view().take(0) =~= Seq::<Seq<char>>::empty());
        assert(views(acc.actors@) =~= Seq::<Seq<char>>::empty());
        assert(views(acc.messages@) =~= Seq::<MessageV>::empty());
        assert(ids_view(acc.ids@) =~= Seq::<(Seq<char>, Seq<char>)>::empty());
    }
    let mut i: usize = 0;
    while i < ls.len()
        invariant
            i <= ls.len(),
            acc@ == fold(ls.deep_view().take(i as int)),
        decreases ls.len() - i,
    {
        proof {
            lemma_chars_deep_view(ls@[i as int]);
            assert(ls.deep_view().take(i + 1).drop_last() =~= ls.deep_view().take(i as int));
        }
        step_exec(&mut acc, ls[i].as_slice());
        i = i + 1;
    }
    assert(ls.deep_view().take(ls.len() as int) =~= ls.deep_view());
    let SeqAcc { header: _, actors, messages, ids: _ } = acc;
    if actors.len() == 0 && messages.len() == 0 {
        Err(super::super::empty_fallback("sequence"))
    } else {
        Ok(Diagram::Sequence { actors, messages })
    }
}

} // verus!
