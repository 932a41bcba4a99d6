//! The reducer: every input event, and every answer to outside work it
//! asked for, turned into the next state and the next outside work.

use vstd::prelude::*;
use std::path::PathBuf;
use crate::markdown::{HeadingAnchor, Rendered};
use crate::spec::{NodeId, TreeSource};
use crate::spec::sort::{next_key, sort_specs, spec_order};
use crate::order::sorted_by;
use super::mouse::{clamp, clamped_position, doc_position_clamped, doc_edge_at, edge_of, hit, panel_at, DocEdge, HitPanel};
use crate::spec::meta::str_eq;
use crate::text::{chars_of, string_of};
use super::keymap::{action_for_key, action_in, binding_table, help_entries, keys_text, Key};
use super::search::{
    clear_search, clear_tree_search, clone_path, next_match, prev_match, rendered_of, rendered_view, search, searched,
    stepped, tree_next_match, tree_prev_match, tree_search, tree_searched, tree_stepped,
};
use crate::spec::{build, countable, inclusion_of, built_spec, DirSnapshot, SpecRoot, SteeringDocV};
use super::loader::{
    definition_view_ok, doc_from_read, find_spec, load_definition, read_view_ok, resolve_selection, resolved_ok,
    snapshot_countable, spec_named, Resolved,
};
use super::{
    doc_panel_width, no_search, ordered_of, Action, AppState, FileRead, MouseInput, MouseKind, Pending, Scan, AutoScrollDir, Control, DocView, Drag, Effect, Panel, Popup, Selection, TreeMode,
    MIN_PANEL_WIDTH,
};

verus! {

/// The last line a view can be scrolled to.
pub open spec fn last_line(r: Rendered) -> int {
    if r.plain@.len() == 0 { 0 } else { r.plain@.len() - 1 }
}

/// The state scrolled by `delta` lines, kept within the shown document;
/// unchanged for a view without lines.
pub open spec fn scrolled(s: AppState, delta: int) -> AppState {
    match rendered_view(s.doc) {
        Some(r) => AppState { scroll: clamp(s.scroll + delta, 0, last_line(r)) as usize, ..s },
        None => s,
    }
}

/// The state scrolled to line `target`, or to the last line before it.
pub open spec fn scrolled_to(s: AppState, target: int) -> AppState {
    match rendered_view(s.doc) {
        Some(r) => AppState { scroll: (if target < last_line(r) { target } else { last_line(r) }) as usize, ..s },
        None => s,
    }
}

/// The last line of a view, for a `usize` scroll offset.
fn last_line_of(r: &Rendered) -> (m: usize)
    ensures
        m == last_line(*r),
{
    if r.plain.len() == 0 { 0 } else { r.plain.len() - 1 }
}

/// Scrolls the shown document by `delta` lines.
pub fn scroll_by(state: &mut AppState, delta: i64)
    ensures
        *final(state) == scrolled(*old(state), delta as int),
{
    let max = match rendered_of(&state.doc) {
        Some(r) => last_line_of(r),
        None => return,
    };
    let want: i128 = state.scroll as i128 + delta as i128;
    let new = if want < 0 { 0 } else if want > max as i128 { max } else { want as usize };
    state.scroll = new;
}

/// Scrolls the shown document to line `target`, or to its last line.
pub fn scroll_to(state: &mut AppState, target: usize)
    ensures
        *final(state) == scrolled_to(*old(state), target as int),
{
    let max = match rendered_of(&state.doc) {
        Some(r) => last_line_of(r),
        None => return,
    };
    state.scroll = if target < max { target } else { max };
}

/// The first heading, from index `i` on, below line `line`.
pub open spec fn first_after(hs: Seq<HeadingAnchor>, line: int, i: int) -> Option<int>
    decreases hs.len() - i,
{
    if i < 0 || i >= hs.len() {
        None
    } else if hs[i].line > line {
        Some(i)
    } else {
        first_after(hs, line, i + 1)
    }
}

/// The last heading among the first `n` above line `line` (`strict`), or
/// at or above it.
pub open spec fn last_before(hs: Seq<HeadingAnchor>, line: int, n: int, strict: bool) -> Option<int>
    decreases n,
{
    if n <= 0 || n > hs.len() {
        None
    } else if (strict && hs[n - 1].line < line) || (!strict && hs[n - 1].line <= line) {
        Some(n - 1)
    } else {
        last_before(hs, line, n - 1, strict)
    }
}

/// The state after jumping to the next heading below the scroll offset
/// (`forward`) or the last one above it; unchanged without one.
pub open spec fn jumped(s: AppState, forward: bool) -> AppState {
    match rendered_view(s.doc) {
        Some(r) => {
            let hs = r.headings@;
            let k = if forward { first_after(hs, s.scroll as int, 0) } else {
                last_before(hs, s.scroll as int, hs.len() as int, true)
            };
            match k {
                Some(i) => AppState { scroll: hs[i].line, ..s },
                None => s,
            }
        },
        None => s,
    }
}

fn find_after(hs: &Vec<HeadingAnchor>, line: usize) -> (r: Option<usize>)
    ensures
        match r {
            Some(i) => first_after(hs@, line as int, 0) == Some(i as int) && i < hs@.len(),
            None => first_after(hs@, line as int, 0) is None,
        },
{
    let mut i: usize = 0;
    while i < hs.len()
        invariant
            i <= hs.len(),
            first_after(hs@, line as int, 0) == first_after(hs@, line as int, i as int),
        decreases hs.len() - i,
    {
        if hs[i].line > line {
            return Some(i);
        }
        i = i + 1;
    }
    None
}

fn find_before(hs: &Vec<HeadingAnchor>, line: usize, strict: bool) -> (r: Option<usize>)
    ensures
        match r {
            Some(i) => last_before(hs@, line as int, hs@.len() as int, strict) == Some(i as int) && i < hs@.len(),
            None => last_before(hs@, line as int, hs@.len() as int, strict) is None,
        },
{
    let mut n: usize = hs.len();
    while n > 0
        invariant
            n <= hs.len(),
            last_before(hs@, line as int, hs@.len() as int, strict) == last_before(hs@, line as int, n as int, strict),
        decreases n,
    {
        let l = hs[n - 1].line;
        if (strict && l < line) || (!strict && l <= line) {
            return Some(n - 1);
        }
        n = n - 1;
    }
    None
}

/// Jumps to the next heading below the scroll offset, or to the last one
/// above it.
pub fn jump_heading(state: &mut AppState, forward: bool)
    ensures
        *final(state) == jumped(*old(state), forward),
{
    let target = match rendered_of(&state.doc) {
        Some(r) => {
            let k = if forward { find_after(&r.headings, state.scroll) } else {
                find_before(&r.headings, state.scroll, true)
            };
            match k {
                Some(i) => r.headings[i].line,
                None => return,
            }
        },
        None => return,
    };
    state.scroll = target;
}

/// The heading list index the table of contents opens at: the last
/// heading at or above the scroll offset, else the first.
pub open spec fn toc_index(hs: Seq<HeadingAnchor>, scroll: int) -> usize {
    match last_before(hs, scroll, hs.len() as int, false) {
        Some(i) => i as usize,
        None => 0,
    }
}

/// The state with the table of contents open, when the shown document
/// has headings.
pub open spec fn toc_opened(s: AppState) -> AppState {
    match rendered_view(s.doc) {
        Some(r) => if r.headings@.len() > 0 {
            AppState { popup: Some(super::Popup::Toc(toc_index(r.headings@, s.scroll as int))), ..s }
        } else {
            s
        },
        None => s,
    }
}

pub fn open_toc(state: &mut AppState)
    ensures
        *final(state) == toc_opened(*old(state)),
{
    let idx = match rendered_of(&state.doc) {
        Some(r) => {
            if r.headings.len() == 0 {
                return;
            }
            match find_before(&r.headings, state.scroll, false) {
                Some(i) => i,
                None => 0,
            }
        },
        None => return,
    };
    state.popup = Some(super::Popup::Toc(idx));
}

/// The state after the tree toggle: pinned under `Always`; otherwise the
/// tree shown or hidden, focus leaving a hidden tree for the doc panel.
pub open spec fn toggled(s: AppState) -> AppState {
    if s.tree_mode == TreeMode::Always {
        s
    } else {
        let v = !s.tree_visible;
        AppState { tree_visible: v, focus: if !v && s.focus == Panel::Tree { Panel::Doc } else { s.focus }, ..s }
    }
}

pub fn toggle_tree(state: &mut AppState)
    ensures
        *final(state) == toggled(*old(state)),
{
    if state.tree_mode == TreeMode::Always {
        return;
    }
    state.tree_visible = !state.tree_visible;
    if !state.tree_visible && state.focus == Panel::Tree {
        state.focus = Panel::Doc;
    }
}

/// The state in a layout mode: the tree shown under `Always` and `Auto`;
/// hidden under `Hidden`, focus leaving it; shown and focused under
/// `Single`. The single-mode doc flag always starts cleared.
pub open spec fn with_mode(s: AppState, mode: TreeMode) -> AppState {
    let s1 = AppState { tree_mode: mode, doc_focus: false, ..s };
    match mode {
        TreeMode::Always | TreeMode::Auto => AppState { tree_visible: true, ..s1 },
        TreeMode::Hidden => AppState {
            tree_visible: false,
            focus: if s.focus == Panel::Tree { Panel::Doc } else { s.focus },
            ..s1
        },
        TreeMode::Single => AppState { tree_visible: true, focus: Panel::Tree, ..s1 },
    }
}

pub fn set_tree_mode(state: &mut AppState, mode: TreeMode)
    ensures
        *final(state) == with_mode(*old(state), mode),
{
    state.tree_mode = mode;
    state.doc_focus = false;
    match mode {
        TreeMode::Always | TreeMode::Auto => {
            state.tree_visible = true;
        },
        TreeMode::Hidden => {
            state.tree_visible = false;
            if state.focus == Panel::Tree {
                state.focus = Panel::Doc;
            }
        },
        TreeMode::Single => {
            state.tree_visible = true;
            state.focus = Panel::Tree;
        },
    }
}

/// The state after the sort key moved on: in `.kiro` mode the specs are
/// reordered by the new key, the same specs in another order.
pub open spec fn resorted(s: AppState, new: AppState) -> bool {
    &&& new.sort_key == next_key(s.sort_key)
    &&& match (s.root, new.root) {
        (TreeSource::Kiro(a), TreeSource::Kiro(b)) => {
            &&& b.specs@.to_multiset() == a.specs@.to_multiset()
            &&& sorted_by(b.specs@, spec_order(new.sort_key))
            &&& b.steering == a.steering
        },
        (TreeSource::Files(a), TreeSource::Files(b)) => a == b,
        _ => false,
    }
    &&& new == (AppState { sort_key: new.sort_key, root: new.root, ..s })
}

pub fn cycle_sort(state: &mut AppState)
    ensures
        resorted(*old(state), *final(state)),
{
    let key = state.sort_key.cycle();
    state.sort_key = key;
    match &mut state.root {
        TreeSource::Kiro(root) => {
            sort_specs(&mut root.specs, key);
        },
        TreeSource::Files(_) => {},
    }
}

/// `new` is `s` with the effects `e` asked for after its own.
pub open spec fn asked(s: AppState, e: Seq<Effect>, new: AppState) -> bool {
    &&& new.effects@ == s.effects@ + e
    &&& new == (AppState { effects: new.effects, ..s })
}

fn ask(state: &mut AppState, e: Effect)
    ensures
        asked(*old(state), seq![e], *final(state)),
{
    state.effects.push(e);
    assert(state.effects@ =~= old(state).effects@ + seq![e]);
}


/// What a key-table action name asks for.
#[derive(Debug, Clone, Copy, PartialEq, Eq, Structural)]
pub enum Command {
    Quit,
    SwitchPanel,
    ToggleTree,
    Layout(TreeMode),
    CycleSort,
    Help,
    Select,
    LineDown,
    LineUp,
    HalfPageDown,
    HalfPageUp,
    PageDown,
    PageUp,
    Top,
    Bottom,
    PrevHeading,
    NextHeading,
    NavUp,
    NavDown,
    NavLeft,
    NavRight,
    NextMatch,
    PrevMatch,
    Refresh,
    OpenToc,
    OpenSearch,
}

/// The command an action name of the key table stands for.
pub open spec fn command_named(n: Seq<char>) -> Option<Command> {
    if n == "quit"@ { Some(Command::Quit) }
    else if n == "switch_panel"@ { Some(Command::SwitchPanel) }
    else if n == "toggle_tree"@ { Some(Command::ToggleTree) }
    else if n == "layout_auto"@ { Some(Command::Layout(TreeMode::Auto)) }
    else if n == "layout_fold"@ { Some(Command::Layout(TreeMode::Hidden)) }
    else if n == "layout_expand"@ { Some(Command::Layout(TreeMode::Always)) }
    else if n == "layout_single"@ { Some(Command::Layout(TreeMode::Single)) }
    else if n == "cycle_sort"@ { Some(Command::CycleSort) }
    else if n == "help"@ { Some(Command::Help) }
    else if n == "select"@ { Some(Command::Select) }
    else if n == "line_down"@ { Some(Command::LineDown) }
    else if n == "line_up"@ { Some(Command::LineUp) }
    else if n == "half_page_down"@ { Some(Command::HalfPageDown) }
    else if n == "half_page_up"@ { Some(Command::HalfPageUp) }
    else if n == "page_down"@ { Some(Command::PageDown) }
    else if n == "page_up"@ { Some(Command::PageUp) }
    else if n == "top"@ { Some(Command::Top) }
    else if n == "bottom"@ { Some(Command::Bottom) }
    else if n == "prev_heading"@ { Some(Command::PrevHeading) }
    else if n == "next_heading"@ { Some(Command::NextHeading) }
    else if n == "nav_up"@ { Some(Command::NavUp) }
    else if n == "nav_down"@ { Some(Command::NavDown) }
    else if n == "nav_left"@ { Some(Command::NavLeft) }
    else if n == "nav_right"@ { Some(Command::NavRight) }
    else if n == "next_match"@ { Some(Command::NextMatch) }
    else if n == "prev_match"@ { Some(Command::PrevMatch) }
    else if n == "refresh"@ { Some(Command::Refresh) }
    else if n == "open_toc"@ { Some(Command::OpenToc) }
    else if n == "open_search"@ { Some(Command::OpenSearch) }
    else { None }
}

pub fn command_of(n: &str) -> (r: Option<Command>)
    ensures
        r == command_named(n@),
{
    if str_eq(n, "quit") { Some(Command::Quit) }
    else if str_eq(n, "switch_panel") { Some(Command::SwitchPanel) }
    else if str_eq(n, "toggle_tree") { Some(Command::ToggleTree) }
    else if str_eq(n, "layout_auto") { Some(Command::Layout(TreeMode::Auto)) }
    else if str_eq(n, "layout_fold") { Some(Command::Layout(TreeMode::Hidden)) }
    else if str_eq(n, "layout_expand") { Some(Command::Layout(TreeMode::Always)) }
    else if str_eq(n, "layout_single") { Some(Command::Layout(TreeMode::Single)) }
    else if str_eq(n, "cycle_sort") { Some(Command::CycleSort) }
    else if str_eq(n, "help") { Some(Command::Help) }
    else if str_eq(n, "select") { Some(Command::Select) }
    else if str_eq(n, "line_down") { Some(Command::LineDown) }
    else if str_eq(n, "line_up") { Some(Command::LineUp) }
    else if str_eq(n, "half_page_down") { Some(Command::HalfPageDown) }
    else if str_eq(n, "half_page_up") { Some(Command::HalfPageUp) }
    else if str_eq(n, "page_down") { Some(Command::PageDown) }
    else if str_eq(n, "page_up") { Some(Command::PageUp) }
    else if str_eq(n, "top") { Some(Command::Top) }
    else if str_eq(n, "bottom") { Some(Command::Bottom) }
    else if str_eq(n, "prev_heading") { Some(Command::PrevHeading) }
    else if str_eq(n, "next_heading") { Some(Command::NextHeading) }
    else if str_eq(n, "nav_up") { Some(Command::NavUp) }
    else if str_eq(n, "nav_down") { Some(Command::NavDown) }
    else if str_eq(n, "nav_left") { Some(Command::NavLeft) }
    else if str_eq(n, "nav_right") { Some(Command::NavRight) }
    else if str_eq(n, "next_match") { Some(Command::NextMatch) }
    else if str_eq(n, "prev_match") { Some(Command::PrevMatch) }
    else if str_eq(n, "refresh") { Some(Command::Refresh) }
    else if str_eq(n, "open_toc") { Some(Command::OpenToc) }
    else if str_eq(n, "open_search") { Some(Command::OpenSearch) }
    else { None }
}

/// The other panel.
pub open spec fn other_panel(p: Panel) -> Panel {
    match p {
        Panel::Tree => Panel::Doc,
        Panel::Doc => Panel::Tree,
    }
}

/// What running a command does to the state, and whether the loop goes
/// on.
pub open spec fn command_step(s: AppState, c: Command, new: AppState, r: Control) -> bool {
    match c {
        Command::Quit => r == Control::Quit && new == s,
        _ => r == Control::Continue && match c {
            Command::SwitchPanel => new == (if s.tree_visible {
                AppState { focus: other_panel(s.focus), ..s }
            } else {
                s
            }),
            Command::ToggleTree => new == toggled(s),
            Command::Layout(m) => new == with_mode(s, m),
            Command::CycleSort => resorted(s, new),
            Command::Help => new.popup matches Some(Popup::Help(e)) && help_ok(e@)
                && new == (AppState { popup: new.popup, ..s }),
            Command::Select => asked(s, seq![Effect::ReportSelection], new),
            Command::LineDown => new == scrolled(s, 1),
            Command::LineUp => new == scrolled(s, -1),
            Command::HalfPageDown => new == scrolled(s, (s.size.1 / 2) as int),
            Command::HalfPageUp => new == scrolled(s, -((s.size.1 / 2) as int)),
            Command::PageDown => new == scrolled(s, s.size.1 as int),
            Command::PageUp => new == scrolled(s, -(s.size.1 as int)),
            Command::Top => new == scrolled_to(s, 0),
            Command::Bottom => new == scrolled_to(s, usize::MAX as int),
            Command::PrevHeading => new == jumped(s, false),
            Command::NextHeading => new == jumped(s, true),
            Command::NavUp => match s.focus {
                Panel::Tree => asked(s, seq![Effect::TreeUp], new),
                Panel::Doc => new == scrolled(s, -1),
            },
            Command::NavDown => match s.focus {
                Panel::Tree => asked(s, seq![Effect::TreeDown], new),
                Panel::Doc => new == scrolled(s, 1),
            },
            Command::NavLeft => if s.focus == Panel::Tree { asked(s, seq![Effect::TreeLeft], new) } else { new == s },
            Command::NavRight => if s.focus == Panel::Tree { asked(s, seq![Effect::TreeRight], new) } else { new == s },
            Command::NextMatch => match s.focus {
                Panel::Tree => tree_stepped(s, true, new),
                Panel::Doc => stepped(s, true, new),
            },
            Command::PrevMatch => match s.focus {
                Panel::Tree => tree_stepped(s, false, new),
                Panel::Doc => stepped(s, false, new),
            },
            Command::Refresh => asked(s, seq![Effect::Rescan], new),
            Command::OpenToc => new == toc_opened(s),
            Command::OpenSearch => new.popup matches Some(Popup::SearchInput(b)) && b@.len() == 0
                && new == (AppState { popup: new.popup, ..s }),
            _ => false,
        },
    }
}

/// The help listing: one entry per key-table binding, its keys and its
/// text.
pub open spec fn help_ok(e: Seq<(String, String)>) -> bool {
    &&& e.len() == binding_table().len()
    &&& forall|i: int| 0 <= i < e.len() ==> #[trigger] e[i].0@ == keys_text(binding_table()[i].keys)
        && e[i].1@ == binding_table()[i].help
}

pub fn run_command(state: &mut AppState, c: Command) -> (r: Control)
    ensures
        command_step(*old(state), c, *final(state), r),
{
    match c {
        Command::Quit => return Control::Quit,
        Command::SwitchPanel => {
            if state.tree_visible {
                state.focus = match state.focus {
                    Panel::Tree => Panel::Doc,
                    Panel::Doc => Panel::Tree,
                };
            }
        },
        Command::ToggleTree => toggle_tree(state),
        Command::Layout(m) => set_tree_mode(state, m),
        Command::CycleSort => cycle_sort(state),
        Command::Help => {
            state.popup = Some(Popup::Help(help_entries()));
        },
        Command::Select => ask(state, Effect::ReportSelection),
        Command::LineDown => scroll_by(state, 1),
        Command::LineUp => scroll_by(state, -1),
        Command::HalfPageDown => scroll_by(state, (state.size.1 / 2) as i64),
        Command::HalfPageUp => scroll_by(state, -((state.size.1 / 2) as i64)),
        Command::PageDown => scroll_by(state, state.size.1 as i64),
        Command::PageUp => scroll_by(state, -(state.size.1 as i64)),
        Command::Top => scroll_to(state, 0),
        Command::Bottom => scroll_to(state, usize::MAX),
        Command::PrevHeading => jump_heading(state, false),
        Command::NextHeading => jump_heading(state, true),
        Command::NavUp => match state.focus {
            Panel::Tree => ask(state, Effect::TreeUp),
            Panel::Doc => scroll_by(state, -1),
        },
        Command::NavDown => match state.focus {
            Panel::Tree => ask(state, Effect::TreeDown),
            Panel::Doc => scroll_by(state, 1),
        },
        Command::NavLeft => {
            if state.focus == Panel::Tree {
                ask(state, Effect::TreeLeft);
            }
        },
        Command::NavRight => {
            if state.focus == Panel::Tree {
                ask(state, Effect::TreeRight);
            }
        },
        Command::NextMatch => match state.focus {
            Panel::Tree => tree_next_match(state),
            Panel::Doc => next_match(state),
        },
        Command::PrevMatch => match state.focus {
            Panel::Tree => tree_prev_match(state),
            Panel::Doc => prev_match(state),
        },
        Command::Refresh => ask(state, Effect::Rescan),
        Command::OpenToc => open_toc(state),
        Command::OpenSearch => {
            state.popup = Some(Popup::SearchInput(String::new()));
        },
    }
    Control::Continue
}

/// `a + 1` or `a + n - 1`, modulo `n`, for a popup cursor.
fn wrap(a: usize, n: usize, forward: bool) -> (r: usize)
    requires
        n > 0,
    ensures
        r == (if forward { (a + 1) % (n as int) } else { (a + n - 1) % (n as int) }),
{
    super::search::wrap_index(a, n, forward)
}

/// What a key does while a popup is open: the table of contents moves
/// its cursor (wrapping) and jumps on `Enter`; the search prompt edits
/// its text and runs the search of the focused panel on `Enter`; `Esc`
/// closes any popup, `?` the help too; other keys do nothing.
pub open spec fn popup_step(s: AppState, key: Key, new: AppState) -> bool {
    match s.popup {
        Some(Popup::Toc(sel)) => {
            let n = match rendered_view(s.doc) { Some(r) => r.headings@.len() as int, None => 0 };
            if (key == Key::Down || key == Key::Char('j')) && n > 0 {
                new == AppState { popup: Some(Popup::Toc(((sel + 1) % n) as usize)), ..s }
            } else if (key == Key::Up || key == Key::Char('k')) && n > 0 {
                new == AppState { popup: Some(Popup::Toc(((sel + n - 1) % n) as usize)), ..s }
            } else if key == Key::Enter {
                new == AppState {
                    popup: None,
                    scroll: match rendered_view(s.doc) {
                        Some(r) => if sel < r.headings@.len() { r.headings@[sel as int].line } else { s.scroll },
                        None => s.scroll,
                    },
                    ..s
                }
            } else if key == Key::Esc {
                new == AppState { popup: None, ..s }
            } else {
                new == s
            }
        },
        Some(Popup::SearchInput(buf)) => match key {
            Key::Char(c) => new.popup matches Some(Popup::SearchInput(b)) && b@ == buf@.push(c)
                && new == (AppState { popup: new.popup, ..s }),
            Key::Backspace => new.popup matches Some(Popup::SearchInput(b))
                && b@ == (if buf@.len() == 0 { buf@ } else { buf@.drop_last() })
                && new == (AppState { popup: new.popup, ..s }),
            Key::Enter => match s.focus {
                Panel::Tree => tree_searched(AppState { popup: None, ..s }, buf@, new),
                Panel::Doc => searched(AppState { popup: None, ..s }, buf@, new),
            },
            Key::Esc => new == AppState { popup: None, ..s },
            _ => new == s,
        },
        Some(Popup::Help(_)) => if key == Key::Esc || key == Key::Char('?') {
            new == AppState { popup: None, ..s }
        } else {
            new == s
        },
        Some(Popup::Message(_)) => if key == Key::Esc { new == AppState { popup: None, ..s } } else { new == s },
        None => new == s,
    }
}

fn edit_buffer(buf: &String, push: Option<char>) -> (r: String)
    ensures
        r@ == match push {
            Some(c) => buf@.push(c),
            None => if buf@.len() == 0 { buf@ } else { buf@.drop_last() },
        },
{
    let mut cs = chars_of(buf.as_str());
    match push {
        Some(c) => {
            cs.push(c);
        },
        None => {
            if cs.len() > 0 {
                cs.pop();
            }
        },
    }
    proof {
        if push is None && buf@.len() > 0 {
            assert(cs@ =~= buf@.drop_last());
        }
    }
    string_of(cs.as_slice())
}

pub fn handle_popup_key(state: &mut AppState, key: Key)
    requires
        old(state).popup is Some,
    ensures
        popup_step(*old(state), key, *final(state)),
{
    let ghost s0 = *state;
    let popup = state.popup.take();
    match popup {
        Some(Popup::Toc(selected)) => {
            let n = match rendered_of(&state.doc) {
                Some(r) => r.headings.len(),
                None => 0,
            };
            if (key == Key::Down || key == Key::Char('j')) && n > 0 {
                state.popup = Some(Popup::Toc(wrap(selected, n, true)));
            } else if (key == Key::Up || key == Key::Char('k')) && n > 0 {
                state.popup = Some(Popup::Toc(wrap(selected, n, false)));
            } else if key == Key::Enter {
                let line = match rendered_of(&state.doc) {
                    Some(r) => if selected < r.headings.len() { r.headings[selected].line } else { state.scroll },
                    None => state.scroll,
                };
                state.scroll = line;
            } else if key == Key::Esc {
            } else {
                state.popup = Some(Popup::Toc(selected));
            }
        },
        Some(Popup::SearchInput(buffer)) => {
            match key {
                Key::Char(c) => {
                    state.popup = Some(Popup::SearchInput(edit_buffer(&buffer, Some(c))));
                },
                Key::Backspace => {
                    state.popup = Some(Popup::SearchInput(edit_buffer(&buffer, None)));
                },
                Key::Enter => {
                    match state.focus {
                        Panel::Tree => tree_search(state, buffer.as_str()),
                        Panel::Doc => search(state, buffer.as_str()),
                    }
                },
                Key::Esc => {},
                _ => {
                    state.popup = Some(Popup::SearchInput(buffer));
                },
            }
        },
        Some(Popup::Help(entries)) => {
            if !(key == Key::Esc || key == Key::Char('?')) {
                state.popup = Some(Popup::Help(entries));
            }
        },
        Some(Popup::Message(msg)) => {
            if key != Key::Esc {
                state.popup = Some(Popup::Message(msg));
            }
        },
        None => {},
    }
}

/// What a key does: the open popup's keys first; then `Esc` ends a tree
/// search on the focused tree, else clears a text selection, else leaves
/// the single-mode document for the tree; otherwise the key table's
/// command, if the key has one.
pub open spec fn key_step(s: AppState, key: Key, new: AppState, r: Control) -> bool {
    if s.popup is Some {
        r == Control::Continue && popup_step(s, key, new)
    } else if key == Key::Esc && s.focus == Panel::Tree && s.tree_search.query@.len() > 0 {
        &&& r == Control::Continue
        &&& no_search(new.tree_search) && new.tree_matches@.len() == 0
        &&& new == (AppState { tree_search: new.tree_search, tree_matches: new.tree_matches, ..s })
    } else if key == Key::Esc && s.selection is Some {
        r == Control::Continue && new == AppState { selection: None, ..s }
    } else if key == Key::Esc && s.tree_mode == TreeMode::Single && s.doc_focus {
        r == Control::Continue && new == AppState { doc_focus: false, focus: Panel::Tree, ..s }
    } else {
        match action_in(binding_table(), key) {
            Some(name) => match command_named(name) {
                Some(c) => command_step(s, c, new, r),
                None => r == Control::Continue && new == s,
            },
            None => r == Control::Continue && new == s,
        }
    }
}

pub fn handle_key(state: &mut AppState, key: Key) -> (r: Control)
    ensures
        key_step(*old(state), key, *final(state), r),
{
    if state.popup.is_some() {
        handle_popup_key(state, key);
        return Control::Continue;
    }
    if key == Key::Esc && state.focus == Panel::Tree && state.tree_search.query.as_str().unicode_len() > 0 {
        clear_tree_search(state);
        return Control::Continue;
    }
    if key == Key::Esc && state.selection.is_some() {
        state.selection = None;
        return Control::Continue;
    }
    if key == Key::Esc && state.tree_mode == TreeMode::Single && state.doc_focus {
        state.doc_focus = false;
        state.focus = Panel::Tree;
        return Control::Continue;
    }
    match action_for_key(key) {
        Some(name) => match command_of(name) {
            Some(c) => run_command(state, c),
            None => Control::Continue,
        },
        None => Control::Continue,
    }
}

/// The split after dragging the panel handle to column `x`: the tree gets
/// the columns left of the pointer, at least the minimum width and leaving
/// the doc panel its minimum too; nothing changes when the frame is too
/// narrow for two minimum panels.
pub open spec fn split_dragged(s: AppState, x: u16) -> AppState {
    let total = s.layout.tree.width + s.layout.sep.width + s.layout.doc.width;
    if total < 2 * MIN_PANEL_WIDTH + 1 {
        s
    } else {
        let raw = if x >= s.layout.tree.x { x - s.layout.tree.x } else { 0 };
        AppState { split: clamp(raw, MIN_PANEL_WIDTH as int, total - 1 - MIN_PANEL_WIDTH) as u16, ..s }
    }
}

pub fn resize_split(state: &mut AppState, x: u16)
    ensures
        *final(state) == split_dragged(*old(state), x),
{
    let total: u32 = state.layout.tree.width as u32 + state.layout.sep.width as u32 + state.layout.doc.width as u32;
    if total < 2 * MIN_PANEL_WIDTH as u32 + 1 {
        return;
    }
    let raw: u32 = if x >= state.layout.tree.x { (x - state.layout.tree.x) as u32 } else { 0 };
    let max_split: u32 = total - 1 - MIN_PANEL_WIDTH as u32;
    let v = if raw < MIN_PANEL_WIDTH as u32 { MIN_PANEL_WIDTH as u32 } else if raw > max_split { max_split } else { raw };
    state.split = v as u16;
}

/// The auto-scroll direction for a pointer row.
pub open spec fn scroll_dir(e: Option<DocEdge>) -> Option<AutoScrollDir> {
    match e {
        Some(DocEdge::Top) => Some(AutoScrollDir::Up),
        Some(DocEdge::Bottom) => Some(AutoScrollDir::Down),
        None => None,
    }
}

/// A selection drag to `(x, y)`: the head follows the pointer, pinned into
/// the doc panel, and auto-scroll runs while the pointer is at an edge.
pub open spec fn select_dragged(s: AppState, x: u16, y: u16) -> AppState {
    match s.selection {
        Some(sel) => AppState {
            selection: Some(Selection { head: clamped_position(s.layout.doc, s.scroll, x, y), ..sel }),
            auto_scroll: scroll_dir(edge_of(s.layout.doc, y)),
            ..s
        },
        None => s,
    }
}

pub fn drag_select(state: &mut AppState, x: u16, y: u16)
    ensures
        *final(state) == select_dragged(*old(state), x, y),
{
    match state.selection {
        Some(sel) => {
            let head = doc_position_clamped(state.layout.doc, state.scroll, x, y);
            state.selection = Some(Selection { anchor: sel.anchor, head });
            state.auto_scroll = match doc_edge_at(state.layout.doc, y) {
                Some(DocEdge::Top) => Some(AutoScrollDir::Up),
                Some(DocEdge::Bottom) => Some(AutoScrollDir::Down),
                None => None,
            };
        },
        None => {},
    }
}

/// One tick of auto-scroll: while a selection drag sits at an edge, the
/// selection's head moves a line that way (not above the first line) and
/// the document scrolls with it.
pub open spec fn ticked(s: AppState) -> AppState {
    if s.drag == Some(Drag::Select) && s.auto_scroll is Some && s.selection is Some {
        let sel = s.selection.unwrap();
        let up = s.auto_scroll == Some(AutoScrollDir::Up);
        let line = sel.head.0;
        let nl: usize = if up {
            if line == 0 { 0 } else { (line - 1) as usize }
        } else {
            if line == usize::MAX { line } else { (line + 1) as usize }
        };
        scrolled(
            AppState { selection: Some(Selection { head: (nl, sel.head.1), ..sel }), ..s },
            if up { -1 } else { 1 },
        )
    } else {
        s
    }
}

pub fn tick_auto_scroll(state: &mut AppState)
    ensures
        *final(state) == ticked(*old(state)),
{
    match state.drag {
        Some(Drag::Select) => {},
        _ => return,
    }
    let up = match state.auto_scroll {
        Some(AutoScrollDir::Up) => true,
        Some(AutoScrollDir::Down) => false,
        None => return,
    };
    let sel = match state.selection {
        Some(sel) => sel,
        None => return,
    };
    let line = sel.head.0;
    let nl = if up { line.saturating_sub(1) } else { line.saturating_add(1) };
    state.selection = Some(Selection { anchor: sel.anchor, head: (nl, sel.head.1) });
    scroll_by(state, if up { -1 } else { 1 });
}

/// The part of line `i` inside a selection from `(sl, sc)` to `(el, ec)`:
/// from the start column on the first line, up to the end column on the
/// last, both pinned to the line's length.
pub open spec fn segment(line: Seq<char>, i: int, sl: int, sc: int, el: int, ec: int) -> Seq<char> {
    let len = line.len() as int;
    let from = if i == sl { if sc < len { sc } else { len } } else { 0 };
    let to = if i == el { if ec < len { ec } else { len } } else { len };
    if from <= to { line.subrange(from, to) } else { Seq::empty() }
}

/// The selected text of lines `sl..=i`, a newline between lines.
pub open spec fn selected_text(plain: Seq<String>, sl: int, sc: int, el: int, ec: int, i: int) -> Seq<char>
    decreases i - sl,
{
    if i <= sl {
        segment(plain[sl]@, sl, sl, sc, el, ec)
    } else {
        selected_text(plain, sl, sc, el, ec, i - 1) + seq!['\n'] + segment(plain[i]@, i, sl, sc, el, ec)
    }
}

/// Copying the selection: its text, the end pinned to the last line, goes
/// to the clipboard; nothing happens without a selection, without lines,
/// or when the selection starts below the last line.
pub open spec fn copied(s: AppState, new: AppState) -> bool {
    match (s.selection, rendered_view(s.doc)) {
        (Some(sel), Some(r)) => {
            let (a, b) = ordered_of(sel);
            let n = r.plain@.len() as int;
            if a.0 >= n {
                new == s
            } else {
                let el = if b.0 < n - 1 { b.0 as int } else { n - 1 };
                &&& new.effects@.len() == s.effects@.len() + 1
                &&& new.effects@.drop_last() == s.effects@
                &&& new.effects@.last() matches Effect::Copy(t)
                    && t@ == selected_text(r.plain@, a.0 as int, a.1 as int, el, b.1 as int, el)
                &&& new == (AppState { effects: new.effects, ..s })
            }
        },
        _ => new == s,
    }
}

fn push_segment(out: &mut Vec<char>, line: &String, i: usize, sl: usize, sc: usize, el: usize, ec: usize)
    ensures
        final(out)@ == old(out)@ + segment(line@, i as int, sl as int, sc as int, el as int, ec as int),
{
    let cs = chars_of(line.as_str());
    let len = cs.len();
    let from = if i == sl { if sc < len { sc } else { len } } else { 0 };
    let to = if i == el { if ec < len { ec } else { len } } else { len };
    if from <= to {
        let mut k = from;
        while k < to
            invariant
                from <= k <= to <= cs@.len(),
                out@ == old(out)@ + cs@.subrange(from as int, k as int),
            decreases to - k,
        {
            out.push(cs[k]);
            k = k + 1;
            assert(out@ =~= old(out)@ + cs@.subrange(from as int, k as int));
        }
    } else {
        assert(out@ =~= old(out)@ + Seq::<char>::empty());
    }
}

pub fn copy_selection(state: &mut AppState)
    ensures
        copied(*old(state), *final(state)),
{
    let sel = match state.selection {
        Some(sel) => sel,
        None => return,
    };
    let (a, b) = sel.ordered();
    let text = match rendered_of(&state.doc) {
        None => return,
        Some(r) => {
            let n = r.plain.len();
            if a.0 >= n {
                return;
            }
            let el = if b.0 < n - 1 { b.0 } else { n - 1 };
            let mut out: Vec<char> = Vec::new();
            let mut i = a.0;
            push_segment(&mut out, &r.plain[i], i, a.0, a.1, el, b.1);
            while i < el
                invariant
                    a.0 <= i <= el < n,
                    n == r.plain@.len(),
                    out@ == selected_text(r.plain@, a.0 as int, a.1 as int, el as int, b.1 as int, i as int),
                decreases el - i,
            {
                i = i + 1;
                out.push('\n');
                push_segment(&mut out, &r.plain[i], i, a.0, a.1, el, b.1);
            }
            string_of(out.as_slice())
        },
    };
    ask(state, Effect::Copy(text));
    assert(state.effects@.drop_last() =~= old(state).effects@);
}

/// A wheel turn of `delta` rows over `(x, y)`: the tree's selection moves
/// that many rows, the document scrolls that many lines, whichever panel
/// is under the pointer, focused or not.
pub open spec fn wheeled(s: AppState, x: u16, y: u16, down: bool, new: AppState) -> bool {
    match hit(s.layout, x, y) {
        Some(HitPanel::Tree) => asked(
            s,
            if down { seq![Effect::TreeDown, Effect::TreeDown, Effect::TreeDown] } else {
                seq![Effect::TreeUp, Effect::TreeUp, Effect::TreeUp]
            },
            new,
        ),
        Some(HitPanel::Doc) => new == scrolled(s, if down { 3 } else { -3 }),
        _ => new == s,
    }
}

pub fn scroll_panel_under_pointer(state: &mut AppState, x: u16, y: u16, down: bool)
    ensures
        wheeled(*old(state), x, y, down, *final(state)),
{
    match panel_at(&state.layout, x, y) {
        Some(HitPanel::Tree) => {
            let mut k: usize = 0;
            while k < 3
                invariant
                    k <= 3,
                    asked(*old(state), Seq::new(k as nat, |i: int| if down { Effect::TreeDown } else { Effect::TreeUp }), *state),
                decreases 3 - k,
            {
                if down {
                    ask(state, Effect::TreeDown);
                } else {
                    ask(state, Effect::TreeUp);
                }
                k = k + 1;
                assert(state.effects@ =~= old(state).effects@ + Seq::new(k as nat, |i: int| if down { Effect::TreeDown } else { Effect::TreeUp }));
            }
            assert(Seq::new(3, |i: int| if down { Effect::TreeDown } else { Effect::TreeUp }) =~= (if down {
                seq![Effect::TreeDown, Effect::TreeDown, Effect::TreeDown]
            } else {
                seq![Effect::TreeUp, Effect::TreeUp, Effect::TreeUp]
            }));
        },
        Some(HitPanel::Doc) => scroll_by(state, if down { 3 } else { -3 }),
        _ => {},
    }
}

/// What a mouse event does. A left press first ends any gesture left
/// over; on the tree it focuses it, drops the text selection and asks for
/// the row under the pointer to be clicked; on the document it focuses it
/// and starts a selection there; on the handle it starts a split drag;
/// elsewhere it only drops the selection. A left drag moves the split or
/// the selection's head. A left release copies the selection a selection
/// drag made, and ends the gesture. The wheel scrolls the panel under the
/// pointer.
pub open spec fn mouse_step(s: AppState, m: MouseInput, new: AppState) -> bool {
    match m.kind {
        MouseKind::LeftDown => {
            let s1 = AppState { drag: None, auto_scroll: None, ..s };
            match hit(s.layout, m.column, m.row) {
                Some(HitPanel::Tree) => asked(
                    AppState { focus: Panel::Tree, selection: None, ..s1 },
                    seq![Effect::TreeClickAt { column: m.column, row: m.row }],
                    new,
                ),
                Some(HitPanel::Doc) => {
                    let p = clamped_position(s.layout.doc, s.scroll, m.column, m.row);
                    new == AppState {
                        focus: Panel::Doc,
                        selection: Some(Selection { anchor: p, head: p }),
                        drag: Some(Drag::Select),
                        ..s1
                    }
                },
                Some(HitPanel::Sep) => new == AppState { selection: None, drag: Some(Drag::Split), ..s1 },
                None => new == AppState { selection: None, ..s1 },
            }
        },
        MouseKind::LeftDrag => match s.drag {
            Some(Drag::Split) => new == split_dragged(s, m.column),
            Some(Drag::Select) => new == select_dragged(s, m.column, m.row),
            None => new == s,
        },
        MouseKind::LeftUp => {
            &&& if s.drag == Some(Drag::Select) {
                copied(s, AppState { effects: new.effects, ..s })
            } else {
                new.effects == s.effects
            }
            &&& new == (AppState { drag: None, auto_scroll: None, effects: new.effects, ..s })
        },
        MouseKind::ScrollUp => wheeled(s, m.column, m.row, false, new),
        MouseKind::ScrollDown => wheeled(s, m.column, m.row, true, new),
        MouseKind::Other => new == s,
    }
}

pub fn handle_mouse(state: &mut AppState, m: MouseInput)
    ensures
        mouse_step(*old(state), m, *final(state)),
{
    match m.kind {
        MouseKind::LeftDown => {
            state.drag = None;
            state.auto_scroll = None;
            match panel_at(&state.layout, m.column, m.row) {
                Some(HitPanel::Tree) => {
                    state.focus = Panel::Tree;
                    state.selection = None;
                    ask(state, Effect::TreeClickAt { column: m.column, row: m.row });
                },
                Some(HitPanel::Doc) => {
                    state.focus = Panel::Doc;
                    let pos = doc_position_clamped(state.layout.doc, state.scroll, m.column, m.row);
                    state.selection = Some(Selection { anchor: pos, head: pos });
                    state.drag = Some(Drag::Select);
                },
                Some(HitPanel::Sep) => {
                    state.selection = None;
                    state.drag = Some(Drag::Split);
                },
                None => {
                    state.selection = None;
                },
            }
        },
        MouseKind::LeftDrag => match state.drag {
            Some(Drag::Split) => resize_split(state, m.column),
            Some(Drag::Select) => drag_select(state, m.column, m.row),
            None => {},
        },
        MouseKind::LeftUp => {
            let selecting = match state.drag {
                Some(Drag::Select) => true,
                _ => false,
            };
            if selecting {
                copy_selection(state);
            }
            state.drag = None;
            state.auto_scroll = None;
        },
        MouseKind::ScrollUp => scroll_panel_under_pointer(state, m.column, m.row, false),
        MouseKind::ScrollDown => scroll_panel_under_pointer(state, m.column, m.row, true),
        MouseKind::Other => {},
    }
}

/// Whether a tree node has children: a spec, the steering group or a
/// directory.
pub open spec fn is_folder(n: NodeId) -> bool {
    n is Spec || n is SteeringGroup || n is Dir
}

/// Opening the tree selection `path`, with `k` more effects asked for
/// after: the view it resolves to is shown, or its file is asked for and
/// the shown view kept until the answer; the scroll goes to the top and
/// the document search is dropped. In single mode the document fills the
/// screen unless nothing is shown.
pub open spec fn opened(s: AppState, path: Seq<NodeId>, new: AppState, k: int) -> bool {
    let core = new.effects@.take(new.effects@.len() - k);
    &&& new.effects@.len() >= k
    &&& ({
        ||| new.pending is None && resolved_ok(s.root, path, Resolved::Show(new.doc)) && core == s.effects@
        ||| new.doc == s.doc && (new.pending matches Some(Pending::Select { path: p })
            && resolved_ok(s.root, path, Resolved::Read(p)) && core == s.effects@.push(Effect::ReadDoc(p)))
    })
    &&& new.scroll == 0 && no_search(new.search)
    &&& if s.tree_mode == TreeMode::Single {
        &&& new.doc_focus == !(new.pending is None && new.doc is Empty)
        &&& new.focus == (if new.doc_focus { Panel::Doc } else { s.focus })
    } else {
        new.doc_focus == s.doc_focus && new.focus == s.focus
    }
    &&& new == (AppState {
        doc: new.doc,
        pending: new.pending,
        effects: new.effects,
        scroll: 0,
        search: new.search,
        doc_focus: new.doc_focus,
        focus: new.focus,
        ..s
    })
}

/// Opens the tree selection `path` in the doc panel.
pub fn load_selected_doc(state: &mut AppState, path: &Vec<NodeId>)
    ensures
        opened(*old(state), path@, *final(state), 0),
{
    let ghost s0 = *state;
    let width = doc_panel_width(state);
    let res = resolve_selection(&state.root, path, width);
    let empty = match &res {
        Resolved::Show(DocView::Empty) => true,
        _ => false,
    };
    match res {
        Resolved::Show(v) => {
            state.doc = v;
            state.pending = None;
        },
        Resolved::Read(p) => {
            let q = p.clone();
            ask(state, Effect::ReadDoc(p));
            assert(state.effects@ =~= s0.effects@.push(Effect::ReadDoc(q)));
            state.pending = Some(Pending::Select { path: q });
        },
    }
    state.scroll = 0;
    clear_search(state);
    if state.tree_mode == TreeMode::Single {
        state.doc_focus = !empty;
        if state.doc_focus {
            state.focus = Panel::Doc;
        }
    }
    assert(state.effects@.take(state.effects@.len() - 0) =~= state.effects@);
}

/// A click on a tree row: the row is opened, and a folder row is also
/// folded or unfolded.
pub open spec fn clicked(s: AppState, path: Seq<NodeId>, new: AppState) -> bool {
    if path.len() > 0 && is_folder(path.last()) {
        opened(s, path, new, 1) && (new.effects@.last() matches Effect::TreeToggle(p) && p@ == path)
    } else {
        opened(s, path, new, 0)
    }
}

pub fn handle_tree_click(state: &mut AppState, path: &Vec<NodeId>)
    ensures
        clicked(*old(state), path@, *final(state)),
{
    load_selected_doc(state, path);
    let ghost mid = *state;
    if path.len() > 0 {
        let folder = match &path[path.len() - 1] {
            NodeId::Spec(_) | NodeId::SteeringGroup | NodeId::Dir(_) => true,
            _ => false,
        };
        if folder {
            ask(state, Effect::TreeToggle(clone_path(path)));
            assert(state.effects@.take(state.effects@.len() - 1) =~= mid.effects@);
            assert(mid.effects@.take(mid.effects@.len() - 0) =~= mid.effects@);
        }
    }
}

/// The file a view comes from.
pub open spec fn doc_file(doc: DocView) -> Option<PathBuf> {
    match doc {
        DocView::Rendered { path, .. } => Some(path),
        DocView::Missing(p) => Some(p),
        DocView::Deleted(p) => Some(p),
        DocView::ReadError { path, .. } => Some(path),
        _ => None,
    }
}

/// The spec a definition view, or its error, shows, while the tree still
/// has it.
pub open spec fn spec_to_reload(s: AppState) -> Option<crate::spec::Spec> {
    match (s.doc, s.root) {
        (DocView::Definition { spec, .. }, TreeSource::Kiro(kr)) | (DocView::MetaError { spec, .. }, TreeSource::Kiro(kr)) => {
            match spec_named(kr.specs@, spec@) {
                Some(i) => Some(kr.specs@[i]),
                None => None,
            }
        },
        _ => None,
    }
}

/// How the shown view is brought up to date.
pub enum Reload {
    /// Nothing to redo: nothing shown, or a spec the tree no longer has.
    Nothing,
    /// The definition view made again.
    Show(DocView),
    /// The file to read again.
    Read(PathBuf),
}

pub open spec fn reload_ok(s: AppState, r: Reload) -> bool {
    match doc_file(s.doc) {
        Some(p) => r == Reload::Read(p),
        None => match spec_to_reload(s) {
            Some(sp) => r matches Reload::Show(v) && definition_view_ok(sp, v),
            None => r == Reload::Nothing,
        },
    }
}

fn reload_current_doc(state: &AppState, width: u16) -> (r: Reload)
    ensures
        reload_ok(*state, r),
{
    match &state.doc {
        DocView::Empty => Reload::Nothing,
        DocView::Rendered { path, .. } => Reload::Read(path.clone()),
        DocView::Missing(p) => Reload::Read(p.clone()),
        DocView::Deleted(p) => Reload::Read(p.clone()),
        DocView::ReadError { path, .. } => Reload::Read(path.clone()),
        DocView::Definition { spec, .. } | DocView::MetaError { spec, .. } => match &state.root {
            TreeSource::Kiro(kr) => match find_spec(&kr.specs, spec) {
                Some(i) => Reload::Show(load_definition(&kr.specs[i], width)),
                None => Reload::Nothing,
            },
            TreeSource::Files(_) => Reload::Nothing,
        },
    }
}

/// The first heading of a level and text, from index `i` on.
pub open spec fn heading_like(hs: Seq<HeadingAnchor>, level: u8, text: Seq<char>, i: int) -> Option<int>
    decreases hs.len() - i,
{
    if i < 0 || i >= hs.len() {
        None
    } else if hs[i].level == level && hs[i].text@ == text {
        Some(i)
    } else {
        heading_like(hs, level, text, i + 1)
    }
}

/// The heading the view is under: the last one at or above the scroll
/// offset, by level and text.
pub open spec fn anchor_at(s: AppState) -> Option<(u8, Seq<char>)> {
    match rendered_view(s.doc) {
        Some(r) => match last_before(r.headings@, s.scroll as int, r.headings@.len() as int, false) {
            Some(i) => Some((r.headings@[i].level, r.headings@[i].text@)),
            None => None,
        },
        None => None,
    }
}

pub open spec fn anchor_view(a: Option<(u8, String)>) -> Option<(u8, Seq<char>)> {
    match a {
        Some((l, t)) => Some((l, t@)),
        None => None,
    }
}

/// The scroll offset in a view made again: at the anchor heading when it
/// is found (the top when not), else the old offset kept within the view.
pub open spec fn relocated(scroll: usize, anchor: Option<(u8, Seq<char>)>, doc: DocView) -> usize {
    match (anchor, rendered_view(doc)) {
        (Some((lv, t)), Some(r)) => match heading_like(r.headings@, lv, t, 0) {
            Some(k) => r.headings@[k].line,
            None => 0,
        },
        (None, Some(r)) => if (s_int(scroll) < last_line(r)) { scroll } else { last_line(r) as usize },
        (_, None) => scroll,
    }
}

pub open spec fn s_int(x: usize) -> int {
    x as int
}

fn find_heading(hs: &Vec<HeadingAnchor>, level: u8, text: &String) -> (r: Option<usize>)
    ensures
        match r {
            Some(i) => heading_like(hs@, level, text@, 0) == Some(i as int) && i < hs@.len(),
            None => heading_like(hs@, level, text@, 0) is None,
        },
{
    let mut i: usize = 0;
    while i < hs.len()
        invariant
            i <= hs.len(),
            heading_like(hs@, level, text@, 0) == heading_like(hs@, level, text@, i as int),
        decreases hs.len() - i,
    {
        if hs[i].level == level && hs[i].text == *text {
            return Some(i);
        }
        i = i + 1;
    }
    None
}

fn relocate(state: &mut AppState, anchor: &Option<(u8, String)>)
    ensures
        *final(state) == (AppState { scroll: relocated(old(state).scroll, anchor_view(*anchor), old(state).doc), ..*old(state) }),
{
    let s = match rendered_of(&state.doc) {
        Some(r) => match anchor {
            Some((lv, t)) => match find_heading(&r.headings, *lv, t) {
                Some(k) => r.headings[k].line,
                None => 0,
            },
            None => {
                let m = last_line_of(r);
                if state.scroll < m { state.scroll } else { m }
            },
        },
        None => state.scroll,
    };
    state.scroll = s;
}

fn anchor_of(state: &AppState) -> (r: Option<(u8, String)>)
    ensures
        anchor_view(r) == anchor_at(*state),
{
    match rendered_of(&state.doc) {
        Some(r) => match find_before(&r.headings, state.scroll, false) {
            Some(i) => Some((r.headings[i].level, r.headings[i].text.clone())),
            None => None,
        },
        None => None,
    }
}

/// A terminal resize: the new size is kept and the shown view made again
/// at the doc panel's new width, its file asked for when it has one; the
/// view then goes back to the heading it was under.
pub open spec fn resized(s: AppState, w: u16, h: u16, new: AppState) -> bool {
    let s1 = AppState { size: (w, h), ..s };
    let a = anchor_at(s);
    match doc_file(s.doc) {
        Some(p) => {
            &&& new.pending matches Some(Pending::Resize { path, anchor }) && path == p && anchor_view(anchor) == a
            &&& asked(AppState { pending: new.pending, ..s1 }, seq![Effect::ReadDoc(p)], new)
        },
        None => match spec_to_reload(s) {
            Some(sp) => definition_view_ok(sp, new.doc)
                && new == (AppState { doc: new.doc, scroll: relocated(s.scroll, a, new.doc), ..s1 }),
            None => new == AppState { scroll: relocated(s.scroll, a, s.doc), ..s1 },
        },
    }
}

pub fn resize_and_preserve_position(state: &mut AppState, w: u16, h: u16)
    ensures
        resized(*old(state), w, h, *final(state)),
{
    let anchor = anchor_of(state);
    state.size = (w, h);
    let width = doc_panel_width(state);
    match reload_current_doc(state, width) {
        Reload::Nothing => {},
        Reload::Show(v) => {
            state.doc = v;
        },
        Reload::Read(p) => {
            let q = p.clone();
            state.pending = Some(Pending::Resize { path: q, anchor });
            ask(state, Effect::ReadDoc(p));
            return;
        },
    }
    relocate(state, &anchor);
}

/// Bringing the shown view up to date after the tree was read again: its
/// file is asked for, to be marked deleted if a rendered file vanished; a
/// definition is made again; the scroll is kept within the view.
pub open spec fn refreshed(s: AppState, new: AppState) -> bool {
    match doc_file(s.doc) {
        Some(p) => {
            &&& new.pending matches Some(Pending::Refresh { path, was_rendered })
                && path == p && was_rendered == (s.doc is Rendered)
            &&& asked(AppState { pending: new.pending, ..s }, seq![Effect::ReadDoc(p)], new)
        },
        None => match spec_to_reload(s) {
            Some(sp) => definition_view_ok(sp, new.doc)
                && new == (AppState { doc: new.doc, scroll: relocated(s.scroll, None, new.doc), ..s }),
            None => new == AppState { scroll: relocated(s.scroll, None, s.doc), ..s },
        },
    }
}

pub fn refresh_current_doc(state: &mut AppState)
    ensures
        refreshed(*old(state), *final(state)),
{
    let was_rendered = match &state.doc {
        DocView::Rendered { .. } => true,
        _ => false,
    };
    let width = doc_panel_width(state);
    match reload_current_doc(state, width) {
        Reload::Nothing => {},
        Reload::Show(v) => {
            state.doc = v;
        },
        Reload::Read(p) => {
            let q = p.clone();
            state.pending = Some(Pending::Refresh { path: q, was_rendered });
            ask(state, Effect::ReadDoc(p));
            return;
        },
    }
    relocate(state, &None);
}

/// The answer to a file read: the view of what the read gave replaces the
/// shown one, a vanished rendered file reading as deleted on a refresh;
/// the scroll is kept within the view, or goes back to the heading it was
/// under after a resize. An answer nobody asked for changes nothing.
pub open spec fn read_done(s: AppState, read: FileRead, new: AppState) -> bool {
    match s.pending {
        None => new == s,
        Some(Pending::Select { path }) => read_view_ok(path, read, new.doc)
            && new == (AppState { doc: new.doc, pending: None, ..s }),
        Some(Pending::Refresh { path, was_rendered }) => {
            &&& if was_rendered && read is Missing {
                new.doc == DocView::Deleted(path)
            } else {
                read_view_ok(path, read, new.doc)
            }
            &&& new == (AppState { doc: new.doc, pending: None, scroll: relocated(s.scroll, None, new.doc), ..s })
        },
        Some(Pending::Resize { path, anchor }) => {
            &&& read_view_ok(path, read, new.doc)
            &&& new == (AppState {
                doc: new.doc,
                pending: None,
                scroll: relocated(s.scroll, anchor_view(anchor), new.doc),
                ..s
            })
        },
    }
}

pub fn doc_read(state: &mut AppState, read: FileRead)
    ensures
        read_done(*old(state), read, *final(state)),
{
    let pending = state.pending.take();
    let width = doc_panel_width(state);
    match pending {
        None => {},
        Some(Pending::Select { path }) => {
            state.doc = doc_from_read(path, read, width);
        },
        Some(Pending::Refresh { path, was_rendered }) => {
            let missing = match &read {
                FileRead::Missing => true,
                _ => false,
            };
            if was_rendered && missing {
                state.doc = DocView::Deleted(path);
            } else {
                state.doc = doc_from_read(path, read, width);
            }
            relocate(state, &None);
        },
        Some(Pending::Resize { path, anchor }) => {
            state.doc = doc_from_read(path, read, width);
            relocate(state, &anchor);
        },
    }
}

/// What `build` promises of the root it assembles from a snapshot.
pub open spec fn built_ok(snap: DirSnapshot, b: SpecRoot) -> bool {
    &&& b@.specs.len() == snap@.specs.len()
    &&& forall|i: int| 0 <= i < b@.specs.len() ==> built_spec(snap@.specs[i], #[trigger] b@.specs[i])
    &&& b@.steering.len() == snap@.steering.len()
    &&& forall|i: int| 0 <= i < b@.steering.len() ==> #[trigger] b@.steering[i] == (SteeringDocV {
        name: snap@.steering[i].name,
        path: snap@.steering[i].path,
        inclusion: inclusion_of(snap@.steering[i].content),
    })
}

/// A fresh read of the browsed root: a `.kiro` snapshot is assembled and
/// its specs sorted by the current key (a snapshot with a file too long to
/// count is passed over); a directory tree is taken as it is; then the
/// shown view is brought up to date.
pub open spec fn rescanned(s: AppState, scan: Scan, new: AppState) -> bool {
    match scan {
        Scan::Kiro(snap) => if !(forall|i: int| 0 <= i < snap@.specs.len() ==> countable(#[trigger] snap@.specs[i].files)) {
            new == s
        } else {
            &&& new.root matches TreeSource::Kiro(r) && sorted_by(r.specs@, spec_order(s.sort_key))
                && exists|b: SpecRoot| #[trigger] built_ok(snap, b) && r.specs@.to_multiset() == b.specs@.to_multiset()
                    && r.steering == b.steering
            &&& refreshed(AppState { root: new.root, ..s }, new)
        },
        Scan::Files(t) => refreshed(AppState { root: TreeSource::Files(t), ..s }, new),
    }
}

pub fn resync(state: &mut AppState, scan: Scan)
    ensures
        rescanned(*old(state), scan, *final(state)),
{
    match scan {
        Scan::Kiro(snap) => {
            if !snapshot_countable(&snap) {
                return;
            }
            let mut r = build(&snap);
            let ghost b = r;
            sort_specs(&mut r.specs, state.sort_key);
            assert(built_ok(snap, b));
            state.root = TreeSource::Kiro(r);
        },
        Scan::Files(t) => {
            state.root = TreeSource::Files(t);
        },
    }
    refresh_current_doc(state);
}

/// What one action does to the state, and whether the loop goes on.
pub open spec fn step(s: AppState, action: Action, new: AppState, r: Control) -> bool {
    match action {
        Action::Quit => r == Control::Quit && new == s,
        Action::Key(k) => key_step(s, k, new, r),
        _ => r == Control::Continue && match action {
            Action::Mouse(m) => mouse_step(s, m, new),
            Action::Tick => new == ticked(s),
            Action::Resize(w, h) => resized(s, w, h, new),
            Action::Fs | Action::Refresh => asked(s, seq![Effect::Rescan], new),
            Action::ToggleTree => new == toggled(s),
            Action::SetTreeMode(m) => new == with_mode(s, m),
            Action::Select(p) => opened(s, p@, new, 0),
            Action::Click(p) => clicked(s, p@, new),
            Action::DocRead(f) => read_done(s, f, new),
            Action::Rescanned(sc) => rescanned(s, sc, new),
            _ => false,
        },
    }
}

/// The reducer: the single entry point of every state change.
pub fn update(state: &mut AppState, action: Action) -> (r: Control)
    ensures
        step(*old(state), action, *final(state), r),
{
    match action {
        Action::Quit => Control::Quit,
        Action::Key(k) => handle_key(state, k),
        Action::Mouse(m) => {
            handle_mouse(state, m);
            Control::Continue
        },
        Action::Tick => {
            tick_auto_scroll(state);
            Control::Continue
        },
        Action::Resize(w, h) => {
            resize_and_preserve_position(state, w, h);
            Control::Continue
        },
        Action::Fs | Action::Refresh => {
            ask(state, Effect::Rescan);
            Control::Continue
        },
        Action::ToggleTree => {
            toggle_tree(state);
            Control::Continue
        },
        Action::SetTreeMode(m) => {
            set_tree_mode(state, m);
            Control::Continue
        },
        Action::Select(p) => {
            load_selected_doc(state, &p);
            Control::Continue
        },
        Action::Click(p) => {
            handle_tree_click(state, &p);
            Control::Continue
        },
        Action::DocRead(f) => {
            doc_read(state, f);
            Control::Continue
        },
        Action::Rescanned(sc) => {
            resync(state, sc);
            Control::Continue
        },
    }
}

/// Stepping to the next match and back to the previous one returns to the
/// same match, scroll and state, whenever a valid match is current and in
/// view.
pub proof fn lemma_next_then_prev(s: AppState, mid: AppState, end: AppState)
    requires
        s.search.matches@.len() > 0,
        s.search.current matches Some(c) && c < s.search.matches@.len()
            && s.scroll == s.search.matches@[c as int],
        stepped(s, true, mid),
        stepped(mid, false, end),
    ensures
        end == s,
{
    let len = s.search.matches@.len() as int;
    let c = s.search.current.unwrap() as int;
    let n = (c + 1) % len;
    assert(0 <= n < len) by {
        vstd::arithmetic::div_mod::lemma_mod_bound(c + 1, len);
    }
    assert((n + len - 1) % len == c) by {
        if c + 1 < len {
            vstd::arithmetic::div_mod::lemma_small_mod((c + 1) as nat, len as nat);
            vstd::arithmetic::div_mod::lemma_mod_add_multiples_vanish(c, len);
            vstd::arithmetic::div_mod::lemma_small_mod(c as nat, len as nat);
        } else {
            vstd::arithmetic::div_mod::lemma_mod_self_0(len);
            vstd::arithmetic::div_mod::lemma_small_mod((len - 1) as nat, len as nat);
        }
    }
    assert(s.search.matches@.len() == s.search.matches.len());
    assert(end.search == s.search);
}

/// In the tree search too, stepping forward and back returns to the same
/// current match, asking for the match before and then for it again.
pub proof fn lemma_tree_next_then_prev(s: AppState, mid: AppState, end: AppState)
    requires
        s.tree_matches@.len() > 0,
        s.tree_search.current matches Some(c) && c < s.tree_matches@.len(),
        tree_stepped(s, true, mid),
        tree_stepped(mid, false, end),
    ensures
        end.tree_search == s.tree_search,
        end.effects@.len() == s.effects@.len() + 2,
        end.effects@.last() matches Effect::TreeReveal(p) && p@ == s.tree_matches@[s.tree_search.current.unwrap() as int]@,
{
    let len = s.tree_matches@.len() as int;
    let c = s.tree_search.current.unwrap() as int;
    let n = (c + 1) % len;
    assert(0 <= n < len) by {
        vstd::arithmetic::div_mod::lemma_mod_bound(c + 1, len);
    }
    assert((n + len - 1) % len == c) by {
        if c + 1 < len {
            vstd::arithmetic::div_mod::lemma_small_mod((c + 1) as nat, len as nat);
            vstd::arithmetic::div_mod::lemma_mod_add_multiples_vanish(c, len);
            vstd::arithmetic::div_mod::lemma_small_mod(c as nat, len as nat);
        } else {
            vstd::arithmetic::div_mod::lemma_mod_self_0(len);
            vstd::arithmetic::div_mod::lemma_small_mod((len - 1) as nat, len as nat);
        }
    }
    assert(s.tree_matches@.len() == s.tree_matches.len());
    assert(end.tree_search == s.tree_search);
}

/// Outside `Always`, toggling the tree twice shows it exactly as before.
pub proof fn lemma_toggle_twice(s: AppState)
    requires
        s.tree_mode != TreeMode::Always,
    ensures
        toggled(toggled(s)).tree_visible == s.tree_visible,
        toggled(toggled(s)).tree_mode == s.tree_mode,
{
}

/// Choosing a layout mode a second time changes nothing more.
pub proof fn lemma_mode_idempotent(s: AppState, m: TreeMode)
    ensures
        with_mode(with_mode(s, m), m) == with_mode(s, m),
{
}

/// Scrolling never leaves the shown document: the offset stays at or
/// above the first line and at or below the last.
pub proof fn lemma_scroll_in_range(s: AppState, delta: int)
    requires
        rendered_view(s.doc) is Some,
    ensures
        scrolled(s, delta).scroll <= last_line(rendered_view(s.doc).unwrap()),
        scrolled_to(s, delta).scroll <= last_line(rendered_view(s.doc).unwrap()) || delta < 0,
{
}

/// While a popup is open no key quits, and `Esc` closes it, leaving the
/// rest of the state alone.
pub proof fn lemma_popup_is_modal(s: AppState, key: Key, new: AppState, r: Control)
    requires
        s.popup is Some,
        key_step(s, key, new, r),
    ensures
        r == Control::Continue,
        key == Key::Esc ==> new == (AppState { popup: None, ..s }),
{
}

/// Quitting, by action or by the quit key outside a popup, leaves the
/// state as it was.
pub proof fn lemma_quit_changes_nothing(s: AppState, new: AppState, r: Control)
    requires
        s.popup is None,
        key_step(s, Key::Char('q'), new, r),
    ensures
        r == Control::Quit,
        new == s,
{
    reveal_strlit("quit");
    assert(action_in(binding_table(), Key::Char('q')) == Some("quit"@)) by {
        assert(binding_table()[0].keys.contains(Key::Char('q'))) by {
            assert(binding_table()[0].keys[0] == Key::Char('q'));
        }
    }
}
} // verus!
