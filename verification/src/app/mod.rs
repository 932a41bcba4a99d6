//! Application state shared by the reducer and the panels.

use vstd::prelude::*;
use std::path::PathBuf;
use std::time::SystemTime;
use crate::markdown::Rendered;
use crate::spec::{DirSnapshot, FsTree, NodeId, SortKey, TreeSource};
use self::keymap::Key;
use self::mouse::PanelLayout;

pub mod clipboard;
pub mod keymap;
pub mod loader;
pub mod mouse;
pub mod reducer;
pub mod search;

pub use self::clipboard::Clipboard;
pub use self::keymap::help_entries;
pub use self::loader::format_size;

verus! {

#[verifier::external_type_specification]
#[verifier::external_body]
pub struct ExSystemTime(std::time::SystemTime);

/// What the doc panel shows.
pub enum DocView {
    Empty,
    Rendered { path: PathBuf, r: Rendered, meta: FileInfo },
    Definition { spec: String, text: Rendered },
    Missing(PathBuf),
    Deleted(PathBuf),
    ReadError { path: PathBuf, msg: String },
    MetaError { spec: String, msg: String },
}

/// A rendered file's modification time, byte size and line count.
#[derive(Debug, Clone, Copy, PartialEq, Eq)]
pub struct FileInfo {
    pub modified: SystemTime,
    pub size: u64,
    pub lines: usize,
}

/// `SystemTime::UNIX_EPOCH`.
#[verifier::external_body]
pub fn unix_epoch() -> SystemTime {
    SystemTime::UNIX_EPOCH
}

impl Default for FileInfo {
    /// The placeholder info: the epoch, no bytes, no lines.
    fn default() -> (r: Self)
        ensures
            r.size == 0 && r.lines == 0,
    {
        FileInfo { modified: unix_epoch(), size: 0, lines: 0 }
    }
}

/// Tree panel visibility mode.
#[derive(Debug, Clone, Copy, PartialEq, Eq, Structural)]
pub enum TreeMode {
    Always,
    Auto,
    Hidden,
    /// One panel at a time, tree or document, at full width.
    Single,
}

/// Whether the tree panel starts visible: always under `Always` and
/// `Single`, never under `Hidden`, and under `Auto` unless a single file
/// was opened.
pub fn initial_tree_visible(mode: TreeMode, is_file_arg: bool, _width: u16) -> (r: bool)
    ensures
        r == (match mode {
            TreeMode::Always => true,
            TreeMode::Hidden => false,
            TreeMode::Auto => !is_file_arg,
            TreeMode::Single => true,
        }),
{
    match mode {
        TreeMode::Always => true,
        TreeMode::Hidden => false,
        TreeMode::Auto => !is_file_arg,
        TreeMode::Single => true,
    }
}

/// Which panel receives key input.
#[derive(Debug, Clone, Copy, PartialEq, Eq, Structural)]
pub enum Panel {
    Tree,
    Doc,
}

/// Live or manual file watching.
#[derive(Debug, Clone, PartialEq, Eq)]
pub enum WatchStatus {
    Live,
    Manual { reason: String },
}

/// In-panel search: the query, the matching line indices and the current
/// match.
#[derive(Debug, Clone, Default, PartialEq, Eq)]
pub struct SearchState {
    pub query: String,
    pub matches: Vec<usize>,
    pub current: Option<usize>,
}

/// No query, no matches.
pub open spec fn no_search(s: SearchState) -> bool {
    s.query@.len() == 0 && s.matches@.len() == 0 && s.current is None
}

impl SearchState {
    pub fn empty() -> (r: SearchState)
        ensures
            no_search(r),
    {
        SearchState { query: String::new(), matches: Vec::new(), current: None }
    }
}

/// A modal overlay.
#[derive(Debug, Clone, PartialEq, Eq)]
pub enum Popup {
    Toc(usize),
    Help(Vec<(String, String)>),
    SearchInput(String),
    Message(String),
}

/// A doc-panel text selection in `(line, col)` coordinates: `anchor` where
/// the drag started, `head` where the pointer is.
#[derive(Debug, Clone, Copy, PartialEq, Eq)]
pub struct Selection {
    pub anchor: (usize, usize),
    pub head: (usize, usize),
}

/// `a <= b` in reading order.
pub open spec fn pos_le(a: (usize, usize), b: (usize, usize)) -> bool {
    a.0 < b.0 || (a.0 == b.0 && a.1 <= b.1)
}

/// The two ends of a selection in reading order.
pub open spec fn ordered_of(s: Selection) -> ((usize, usize), (usize, usize)) {
    if pos_le(s.anchor, s.head) { (s.anchor, s.head) } else { (s.head, s.anchor) }
}

impl Selection {
    /// `(start, end)` in reading order, whichever way the drag went.
    pub fn ordered(&self) -> (r: ((usize, usize), (usize, usize)))
        ensures
            r == ordered_of(*self),
    {
        if self.anchor.0 < self.head.0 || (self.anchor.0 == self.head.0 && self.anchor.1 <= self.head.1) {
            (self.anchor, self.head)
        } else {
            (self.head, self.anchor)
        }
    }
}

/// The two ends of an ordered selection are its anchor and head, start
/// first.
pub proof fn lemma_ordered_is_sorted(s: Selection)
    ensures
        ({
            let r = if pos_le(s.anchor, s.head) { (s.anchor, s.head) } else { (s.head, s.anchor) };
            pos_le(r.0, r.1) && ((r.0 == s.anchor && r.1 == s.head) || (r.0 == s.head && r.1 == s.anchor))
        }),
{
}

#[derive(Debug, Clone, Copy, PartialEq, Eq, Structural)]
pub enum AutoScrollDir {
    Up,
    Down,
}

/// The gesture a left-button drag performs.
#[derive(Debug, Clone, Copy, PartialEq, Eq, Structural)]
pub enum Drag {
    Split,
    Select,
}

/// Whether the event loop goes on.
#[derive(Debug, Clone, PartialEq, Eq, Structural)]
pub enum Control {
    Continue,
    Quit,
}


/// Below this terminal width only the focused panel is drawn, at full
/// width.
pub const NARROW_WIDTH_THRESHOLD: u16 = 80;

/// The tree panel's share of a two-panel frame before the user drags the
/// split, in percent.
pub const TREE_PANEL_PERCENT: u16 = 30;

/// The narrowest either panel may be dragged to.
pub const MIN_PANEL_WIDTH: u16 = 20;

/// What the document read under way, of `path`, was asked for.
#[derive(Debug, Clone, PartialEq, Eq)]
pub enum Pending {
    /// A tree selection is being opened.
    Select { path: PathBuf },
    /// The shown document is read again after a rescan; `was_rendered`
    /// tells whether it showed a rendered file, so that a vanished file
    /// reads as deleted.
    Refresh { path: PathBuf, was_rendered: bool },
    /// The shown document is rendered again at a new width; the heading
    /// the view was under, by level and text, is found again afterwards.
    Resize { path: PathBuf, anchor: Option<(u8, String)> },
}

/// Outside work the reducer asks the event loop for, in order.
#[derive(Debug)]
pub enum Effect {
    /// Move the tree selection up, down, to the parent (or fold) or into
    /// the node (or unfold).
    TreeUp,
    TreeDown,
    TreeLeft,
    TreeRight,
    /// Select the tree row drawn at this cell, if there is one, and answer
    /// with [`Action::Click`].
    TreeClickAt { column: u16, row: u16 },
    /// Answer with [`Action::Select`] carrying the tree's selection.
    ReportSelection,
    /// Fold or unfold this node.
    TreeToggle(Vec<NodeId>),
    /// Unfold every proper ancestor of this node and select it.
    TreeReveal(Vec<NodeId>),
    /// Read this document file and answer with [`Action::DocRead`].
    ReadDoc(PathBuf),
    /// Read the browsed root again and answer with [`Action::Rescanned`].
    Rescan,
    /// Put this text on the clipboard.
    Copy(String),
}

/// What reading a document file gave.
pub enum FileRead {
    /// Nothing exists at the path.
    Missing,
    /// The path exists but could not be read; the error's text.
    Failed(String),
    /// The file's bytes and modification time.
    Bytes { bytes: Vec<u8>, modified: SystemTime },
}

/// A fresh read of the browsed root.
pub enum Scan {
    Kiro(DirSnapshot),
    Files(FsTree),
}

/// A mouse gesture, as far as the reducer tells them apart.
#[derive(Debug, Clone, Copy, PartialEq, Eq, Structural)]
pub enum MouseKind {
    LeftDown,
    LeftDrag,
    LeftUp,
    ScrollUp,
    ScrollDown,
    Other,
}

/// A mouse event at a screen cell.
#[derive(Debug, Clone, Copy, PartialEq, Eq, Structural)]
pub struct MouseInput {
    pub kind: MouseKind,
    pub column: u16,
    pub row: u16,
}

/// Everything the reducer reacts to: input events, and the answers to the
/// effects it asked for.
pub enum Action {
    Key(Key),
    Mouse(MouseInput),
    Tick,
    Resize(u16, u16),
    /// Something changed under the watched root.
    Fs,
    Refresh,
    ToggleTree,
    SetTreeMode(TreeMode),
    Quit,
    /// The tree's selection, as asked for by [`Effect::ReportSelection`].
    Select(Vec<NodeId>),
    /// The tree row a click selected, as asked for by
    /// [`Effect::TreeClickAt`].
    Click(Vec<NodeId>),
    /// The answer to [`Effect::ReadDoc`].
    DocRead(FileRead),
    /// The answer to [`Effect::Rescan`].
    Rescanned(Scan),
}

/// The whole application state the reducer threads through.
pub struct AppState {
    /// What the tree panel browses.
    pub root: TreeSource,
    /// The directory `root` was read from, read again on a rescan.
    pub kiro_root: PathBuf,
    pub tree_mode: TreeMode,
    pub tree_visible: bool,
    /// Under [`TreeMode::Single`]: whether the doc panel, rather than the
    /// tree, fills the screen.
    pub doc_focus: bool,
    pub sort_key: SortKey,
    pub focus: Panel,
    pub doc: DocView,
    pub scroll: usize,
    pub search: SearchState,
    /// The tree panel's own search; its `matches` are the indices of
    /// `tree_matches`.
    pub tree_search: SearchState,
    /// The tree nodes the tree search matched, in tree order.
    pub tree_matches: Vec<Vec<NodeId>>,
    pub popup: Option<Popup>,
    pub watch: WatchStatus,
    pub size: (u16, u16),
    /// The panel rectangles of the last frame drawn.
    pub layout: PanelLayout,
    /// The tree panel's width in a two-panel frame; 0 until first sized.
    pub split: u16,
    pub drag: Option<Drag>,
    pub selection: Option<Selection>,
    pub auto_scroll: Option<AutoScrollDir>,
    /// The document read under way, if any.
    pub pending: Option<Pending>,
    /// The effects asked for and not yet carried out, oldest first.
    pub effects: Vec<Effect>,
}

impl AppState {
    /// The start state: tree focused, nothing shown, default sort, no
    /// search, no popup, no gesture, no effects.
    pub fn new(
        root: TreeSource,
        kiro_root: PathBuf,
        size: (u16, u16),
        watch: WatchStatus,
        tree_mode: TreeMode,
        tree_visible: bool,
    ) -> (r: Self)
        ensures
            r.root == root && r.kiro_root == kiro_root && r.size == size && r.watch == watch,
            r.tree_mode == tree_mode && r.tree_visible == tree_visible && !r.doc_focus,
            r.sort_key == SortKey::Name && r.focus == Panel::Tree && r.doc is Empty && r.scroll == 0,
            no_search(r.search) && no_search(r.tree_search) && r.tree_matches@.len() == 0,
            r.popup is None && r.layout == PanelLayout::default_spec() && r.split == 0,
            r.drag is None && r.selection is None && r.auto_scroll is None,
            r.pending is None && r.effects@.len() == 0,
    {
        AppState {
            root,
            kiro_root,
            tree_mode,
            tree_visible,
            doc_focus: false,
            sort_key: SortKey::Name,
            focus: Panel::Tree,
            doc: DocView::Empty,
            scroll: 0,
            search: SearchState::empty(),
            tree_search: SearchState::empty(),
            tree_matches: Vec::new(),
            popup: None,
            watch,
            size,
            layout: PanelLayout::zero(),
            split: 0,
            drag: None,
            selection: None,
            auto_scroll: None,
            pending: None,
            effects: Vec::new(),
        }
    }
}

/// The width, border included, that the doc panel gets at the state's
/// terminal size: the whole width when the tree is hidden, in single mode
/// or below the narrow threshold; otherwise what is left beside the tree
/// (the split, or 30 percent before the first drag, at most one column
/// short of the whole) and the one-column handle.
pub open spec fn doc_width_of(tree_visible: bool, mode: TreeMode, width: u16, split: u16) -> u16 {
    if !tree_visible || mode == TreeMode::Single || width < NARROW_WIDTH_THRESHOLD {
        width
    } else {
        let default_split = (width * TREE_PANEL_PERCENT / 100) as u16;
        let s = if split == 0 { default_split } else { split };
        let tree = if s < width - 1 { s as int } else { width - 1 };
        (width - tree - 1) as u16
    }
}

pub fn doc_panel_width(state: &AppState) -> (r: u16)
    ensures
        r == doc_width_of(state.tree_visible, state.tree_mode, state.size.0, state.split),
{
    let main_width = state.size.0;
    if !state.tree_visible || state.tree_mode == TreeMode::Single || main_width < NARROW_WIDTH_THRESHOLD {
        return main_width;
    }
    let mw = main_width as u32;
    let pct = TREE_PANEL_PERCENT as u32;
    assert(mw * pct <= 65535 * 30) by (nonlinear_arith)
        requires
            mw <= 65535,
            pct == 30,
    ;
    let default_split = ((mw * pct) / 100) as u16;
    let split = if state.split == 0 { default_split } else { state.split };
    let tree_width = if split < main_width - 1 { split } else { main_width - 1 };
    main_width - tree_width - 1
}

} // verus!
