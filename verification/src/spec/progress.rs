//! Checkbox progress of a `tasks.md` document.

use vstd::prelude::*;
use crate::text::{chars_of, lemma_chars_deep_view, lines, lines_of, lines_state, strip_cr, strip_prefix, trim_start, trim_start_slice};

verus! {

/// How many checkbox lines a task list has, and how many are checked.
#[derive(Debug, Clone, Copy, PartialEq, Eq, Structural)]
pub struct Progress {
    pub done: u32,
    pub total: u32,
}

/// A line with its leading white space and an optional `- ` or `-` list
/// marker removed.
pub open spec fn after_marker(line: Seq<char>) -> Seq<char> {
    let t = trim_start(line);
    match strip_prefix(t, seq!['-', ' ']) {
        Some(rest) => rest,
        None => match strip_prefix(t, seq!['-']) {
            Some(rest) => rest,
            None => t,
        },
    }
}

/// A checked box: `[x]` or `[X]`.
pub open spec fn is_checked(line: Seq<char>) -> bool {
    seq!['[', 'x', ']'].is_prefix_of(after_marker(line)) || seq!['[', 'X', ']'].is_prefix_of(
        after_marker(line),
    )
}

/// An unchecked box: `[ ]`, which also covers the optional-task `[ ]*`.
pub open spec fn is_unchecked(line: Seq<char>) -> bool {
    seq!['[', ' ', ']'].is_prefix_of(after_marker(line))
}

/// `(done, total)` over a list of lines.
pub open spec fn tally(ls: Seq<Seq<char>>) -> (nat, nat)
    decreases ls.len(),
{
    if ls.len() == 0 {
        (0, 0)
    } else {
        let (d, t) = tally(ls.drop_last());
        if is_checked(ls.last()) {
            (d + 1, t + 1)
        } else if is_unchecked(ls.last()) {
            (d, t + 1)
        } else {
            (d, t)
        }
    }
}

/// The progress of a document: `None` when it has no checkbox line at all.
pub open spec fn progress_of(md: Seq<char>) -> Option<Progress> {
    let (d, t) = tally(lines(md));
    if t == 0 {
        None
    } else {
        Some(Progress { done: d as u32, total: t as u32 })
    }
}

pub proof fn lemma_tally_bounds(ls: Seq<Seq<char>>)
    ensures
        tally(ls).0 <= tally(ls).1 <= ls.len(),
    decreases ls.len(),
{
    if ls.len() > 0 {
        lemma_tally_bounds(ls.drop_last());
    }
}

proof fn lemma_lines_state_len(s: Seq<char>)
    ensures
        lines_state(s).0.len() + lines_state(s).1.len() <= s.len(),
    decreases s.len(),
{
    if s.len() > 0 {
        lemma_lines_state_len(s.drop_last());
        let (done, cur) = lines_state(s.drop_last());
        if s.last() == '\n' {
            assert(strip_cr(cur).len() <= cur.len());
        }
    }
}

/// A text has no more lines than characters.
pub proof fn lemma_lines_len(s: Seq<char>)
    ensures
        lines(s).len() <= s.len(),
{
    lemma_lines_state_len(s);
}

/// Drops an optional `- ` or `-` list marker from the front of a line.
fn strip_list_marker(trimmed: &[char]) -> (r: &[char])
    ensures
        r@ == (match strip_prefix(trimmed@, seq!['-', ' ']) {
            Some(rest) => rest,
            None => match strip_prefix(trimmed@, seq!['-']) {
                Some(rest) => rest,
                None => trimmed@,
            },
        }),
{
    if trimmed.len() >= 2 && trimmed[0] == '-' && trimmed[1] == ' ' {
        assert(seq!['-', ' '].is_prefix_of(trimmed@)) by {
            assert(trimmed@.subrange(0, 2) =~= seq!['-', ' ']);
        }
        &trimmed[2..trimmed.len()]
    } else if trimmed.len() >= 1 && trimmed[0] == '-' {
        assert(!seq!['-', ' '].is_prefix_of(trimmed@)) by {
            if seq!['-', ' '].is_prefix_of(trimmed@) {
                assert(trimmed@[1] == seq!['-', ' '][1]);
            }
        }
        assert(seq!['-'].is_prefix_of(trimmed@)) by {
            assert(trimmed@.subrange(0, 1) =~= seq!['-']);
        }
        &trimmed[1..trimmed.len()]
    } else {
        assert(!seq!['-', ' '].is_prefix_of(trimmed@)) by {
            if seq!['-', ' '].is_prefix_of(trimmed@) {
                assert(trimmed@[0] == seq!['-', ' '][0]);
            }
        }
        assert(!seq!['-'].is_prefix_of(trimmed@)) by {
            if seq!['-'].is_prefix_of(trimmed@) {
                assert(trimmed@[0] == seq!['-'][0]);
            }
        }
        trimmed
    }
}

/// Whether `s` starts with the three characters `a`, `b`, `c`.
fn starts3(s: &[char], a: char, b: char, c: char) -> (r: bool)
    ensures
        r == seq![a, b, c].is_prefix_of(s@),
{
    let r = s.len() >= 3 && s[0] == a && s[1] == b && s[2] == c;
    proof {
        if r {
            assert(s@.subrange(0, 3) =~= seq![a, b, c]);
        } else if seq![a, b, c].is_prefix_of(s@) {
            assert(s@[0] == seq![a, b, c][0]);
            assert(s@[1] == seq![a, b, c][1]);
            assert(s@[2] == seq![a, b, c][2]);
        }
    }
    r
}

/// Counts the `[x]`/`[X]`/`[ ]`/`[ ]*` checkbox lines of a task list. A
/// line counts when, after its leading white space and an optional `- ` or
/// `-` marker, it starts with one of those boxes; `[ ]*` counts toward the
/// total only. `None` when no line holds a checkbox.
pub fn count_progress(tasks_md: &str) -> (r: Option<Progress>)
    requires
        tasks_md@.len() <= u32::MAX,
    ensures
        r == progress_of(tasks_md@),
        r matches Some(p) ==> p.done <= p.total && p.total > 0,
{
    let chars = chars_of(tasks_md);
    let ls = lines_of(chars.as_slice());
    proof {
        lemma_lines_len(tasks_md@);
    }
    let mut done: u32 = 0;
    let mut total: u32 = 0;
    let mut i: usize = 0;
    while i < ls.len()
        invariant
            i <= ls.len(),
            ls.deep_view() == lines(tasks_md@),
            ls.len() <= u32::MAX,
            (done as nat, total as nat) == tally(ls.deep_view().take(i as int)),
            done <= total <= i,
        decreases ls.len() - i,
    {
        proof {
            lemma_chars_deep_view(ls@[i as int]);
            assert(ls.deep_view().take(i + 1).drop_last() =~= ls.deep_view().take(i as int));
            assert(ls.deep_view().take(i + 1).last() == ls@[i as int]@);
        }
        let t = trim_start_slice(ls[i].as_slice());
        let a = strip_list_marker(t);
        if starts3(a, '[', 'x', ']') || starts3(a, '[', 'X', ']') {
            done = done + 1;
            total = total + 1;
        } else if starts3(a, '[', ' ', ']') {
            total = total + 1;
        }
        i = i + 1;
    }
    assert(ls.deep_view().take(ls.len() as int) =~= ls.deep_view());
    if total == 0 {
        None
    } else {
        Some(Progress { done, total })
    }
}

} // verus!
