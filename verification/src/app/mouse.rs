//! Screen coordinates to panels and document positions: hit-testing
//! against the panel rectangles the last frame was drawn into.

use vstd::prelude::*;

verus! {

/// A screen rectangle: its top-left cell and its size in cells.
#[derive(Debug, Clone, Copy, Default, PartialEq, Eq, Structural)]
pub struct Rect {
    pub x: u16,
    pub y: u16,
    pub width: u16,
    pub height: u16,
}

/// `a + b`, pinned at `u16::MAX`.
pub open spec fn sat_add(a: u16, b: u16) -> int {
    if a + b > u16::MAX { u16::MAX as int } else { a + b }
}

impl Rect {
    pub fn new(x: u16, y: u16, width: u16, height: u16) -> (r: Rect)
        ensures
            r == (Rect { x, y, width, height }),
    {
        Rect { x, y, width, height }
    }

    /// Whether the cell `(col, row)` lies inside; the right and bottom
    /// edges are pinned at `u16::MAX`.
    pub open spec fn has(self, col: u16, row: u16) -> bool {
        &&& self.x <= col
        &&& col < sat_add(self.x, self.width)
        &&& self.y <= row
        &&& row < sat_add(self.y, self.height)
    }

    /// The rectangle one cell in from every side; empty (all zero) when
    /// the rectangle is less than two cells wide or high.
    pub open spec fn shrunk(self) -> Rect {
        if self.width < 2 || self.height < 2 {
            Rect { x: 0, y: 0, width: 0, height: 0 }
        } else {
            Rect {
                x: sat_add(self.x, 1) as u16,
                y: sat_add(self.y, 1) as u16,
                width: (self.width - 2) as u16,
                height: (self.height - 2) as u16,
            }
        }
    }

    pub fn contains(&self, col: u16, row: u16) -> (r: bool)
        ensures
            r == self.has(col, row),
    {
        let right = self.x.saturating_add(self.width);
        let bottom = self.y.saturating_add(self.height);
        col >= self.x && col < right && row >= self.y && row < bottom
    }

    /// The area inside a one-cell border.
    pub fn inner(&self) -> (r: Rect)
        ensures
            r == self.shrunk(),
    {
        if self.width < 2 || self.height < 2 {
            Rect { x: 0, y: 0, width: 0, height: 0 }
        } else {
            Rect {
                x: self.x.saturating_add(1),
                y: self.y.saturating_add(1),
                width: self.width - 2,
                height: self.height - 2,
            }
        }
    }
}

/// The three hit-testable regions of one frame: the tree panel, the
/// one-column drag handle between the panels, and the doc panel. A panel
/// that was not drawn has a zero-size rectangle, which contains nothing.
#[derive(Debug, Clone, Copy, Default, PartialEq, Eq, Structural)]
pub struct PanelLayout {
    pub tree: Rect,
    pub sep: Rect,
    pub doc: Rect,
}

impl PanelLayout {
    pub open spec fn default_spec() -> PanelLayout {
        PanelLayout {
            tree: Rect { x: 0, y: 0, width: 0, height: 0 },
            sep: Rect { x: 0, y: 0, width: 0, height: 0 },
            doc: Rect { x: 0, y: 0, width: 0, height: 0 },
        }
    }

    /// The layout before any frame: three empty rectangles.
    pub fn zero() -> (r: PanelLayout)
        ensures
            r == PanelLayout::default_spec(),
    {
        let z = Rect { x: 0, y: 0, width: 0, height: 0 };
        PanelLayout { tree: z, sep: z, doc: z }
    }
}

/// Which region a screen cell falls in.
#[derive(Debug, Clone, Copy, PartialEq, Eq, Structural)]
pub enum HitPanel {
    Tree,
    Sep,
    Doc,
}

/// The region containing `(x, y)`, the tree first, then the handle, then
/// the doc panel.
pub open spec fn hit(layout: PanelLayout, x: u16, y: u16) -> Option<HitPanel> {
    if layout.tree.has(x, y) {
        Some(HitPanel::Tree)
    } else if layout.sep.has(x, y) {
        Some(HitPanel::Sep)
    } else if layout.doc.has(x, y) {
        Some(HitPanel::Doc)
    } else {
        None
    }
}

/// The region under `(x, y)`; `None` outside all three (the status bar,
/// say).
pub fn panel_at(layout: &PanelLayout, x: u16, y: u16) -> (r: Option<HitPanel>)
    ensures
        r == hit(*layout, x, y),
{
    if layout.tree.contains(x, y) {
        Some(HitPanel::Tree)
    } else if layout.sep.contains(x, y) {
        Some(HitPanel::Sep)
    } else if layout.doc.contains(x, y) {
        Some(HitPanel::Doc)
    } else {
        None
    }
}

/// The document `(line, col)` under `(x, y)`: the doc panel's content
/// starts inside its border, and line numbers count from the scroll
/// offset. `None` on the border or outside the panel.
pub fn doc_position_at(doc_area: Rect, scroll: usize, x: u16, y: u16) -> (r: Option<(usize, usize)>)
    requires
        doc_area.shrunk().has(x, y) ==> scroll + (y - doc_area.shrunk().y) <= usize::MAX,
    ensures
        match r {
            Some(p) => doc_area.shrunk().has(x, y) && p.0 == scroll + (y - doc_area.shrunk().y)
                && p.1 == x - doc_area.shrunk().x,
            None => !doc_area.shrunk().has(x, y),
        },
{
    let inner = doc_area.inner();
    if !inner.contains(x, y) {
        return None;
    }
    Some((scroll + (y - inner.y) as usize, (x - inner.x) as usize))
}

/// `v` pinned into `[lo, hi]`.
pub open spec fn clamp(v: int, lo: int, hi: int) -> int {
    if v < lo { lo } else if v > hi { hi } else { v }
}

/// The document position of `(x, y)` pinned into the doc panel's content
/// area: above or below the panel gives its first or last visible line,
/// left or right of it its first or last column. `(scroll, 0)` when the
/// content area is empty; the line saturates at `usize::MAX`.
pub open spec fn clamped_position(doc_area: Rect, scroll: usize, x: u16, y: u16) -> (usize, usize) {
    let inner = doc_area.shrunk();
    if inner.width == 0 || inner.height == 0 {
        (scroll, 0)
    } else {
        let cy = clamp(y as int, inner.y as int, inner.y + inner.height - 1);
        let cx = clamp(x as int, inner.x as int, inner.x + inner.width - 1);
        let line = scroll + (cy - inner.y);
        (if line > usize::MAX { usize::MAX } else { line as usize }, (cx - inner.x) as usize)
    }
}

pub fn doc_position_clamped(doc_area: Rect, scroll: usize, x: u16, y: u16) -> (r: (usize, usize))
    ensures
        r == clamped_position(doc_area, scroll, x, y),
{
    let inner = doc_area.inner();
    if inner.width == 0 || inner.height == 0 {
        return (scroll, 0);
    }
    let top = inner.y as u32;
    let bottom = inner.y as u32 + inner.height as u32 - 1;
    let left = inner.x as u32;
    let right = inner.x as u32 + inner.width as u32 - 1;
    let y32 = y as u32;
    let x32 = x as u32;
    let cy = if y32 < top { top } else if y32 > bottom { bottom } else { y32 };
    let cx = if x32 < left { left } else if x32 > right { right } else { x32 };
    let dy = (cy - top) as usize;
    let line = scroll.saturating_add(dy);
    (line, (cx - left) as usize)
}

/// Which edge of the doc panel a pointer row is at or beyond.
#[derive(Debug, Clone, Copy, PartialEq, Eq, Structural)]
pub enum DocEdge {
    Top,
    Bottom,
}

/// `Top` at or above the first content row, `Bottom` at or below the last
/// one, `None` strictly between them or when the content area has no
/// rows.
pub open spec fn edge_of(doc_area: Rect, y: u16) -> Option<DocEdge> {
    let inner = doc_area.shrunk();
    if inner.height == 0 {
        None
    } else if y <= inner.y {
        Some(DocEdge::Top)
    } else if y >= inner.y + inner.height - 1 {
        Some(DocEdge::Bottom)
    } else {
        None
    }
}

pub fn doc_edge_at(doc_area: Rect, y: u16) -> (r: Option<DocEdge>)
    ensures
        r == edge_of(doc_area, y),
{
    let inner = doc_area.inner();
    if inner.height == 0 {
        return None;
    }
    if y <= inner.y {
        Some(DocEdge::Top)
    } else if y as u32 >= inner.y as u32 + inner.height as u32 - 1 {
        Some(DocEdge::Bottom)
    } else {
        None
    }
}

} // verus!
