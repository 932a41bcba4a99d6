//! The rendering theme: the colours and text attributes of headings,
//! emphasis, quotes, tables and so on, and which headings get a rule below
//! them. List markers, checkboxes and the quote bar are fixed characters,
//! not theme data.

use vstd::prelude::*;
use super::{LineStyle, SpanStyle};

verus! {

/// A terminal text style: foreground and background as 256-colour palette
/// indices, and attributes.
#[derive(Clone, Copy, PartialEq, Eq, Debug, Structural)]
pub struct StyleSpec {
    pub fg: Option<u8>,
    pub bg: Option<u8>,
    pub bold: bool,
    pub italic: bool,
    pub crossed_out: bool,
    pub underlined: bool,
}

/// The unstyled style.
pub open spec fn spec_plain_style() -> StyleSpec {
    StyleSpec { fg: None, bg: None, bold: false, italic: false, crossed_out: false, underlined: false }
}

/// Colour `c`, otherwise plain.
pub open spec fn spec_colored(c: u8) -> StyleSpec {
    StyleSpec { fg: Some(c), ..spec_plain_style() }
}

/// Bold colour `c`.
pub open spec fn spec_bold_colored(c: u8) -> StyleSpec {
    StyleSpec { fg: Some(c), bold: true, ..spec_plain_style() }
}

fn plain_style() -> (r: StyleSpec)
    ensures
        r == spec_plain_style(),
{
    StyleSpec { fg: None, bg: None, bold: false, italic: false, crossed_out: false, underlined: false }
}

fn colored(c: u8) -> (r: StyleSpec)
    ensures
        r == spec_colored(c),
{
    StyleSpec { fg: Some(c), ..plain_style() }
}

fn bold_colored(c: u8) -> (r: StyleSpec)
    ensures
        r == spec_bold_colored(c),
{
    StyleSpec { fg: Some(c), bold: true, ..plain_style() }
}

/// Styles for every block and inline element.
#[derive(Clone, Debug)]
pub struct Theme {
    pub heading: [StyleSpec; 6],
    /// The character of the rule drawn below a heading of each level, if
    /// any.
    pub heading_rule: [Option<char>; 6],
    pub emphasis: StyleSpec,
    pub strong: StyleSpec,
    pub strikethrough: StyleSpec,
    pub code: StyleSpec,
    pub quote: StyleSpec,
    pub quote_bar: StyleSpec,
    pub list_marker: StyleSpec,
    pub task_done: StyleSpec,
    pub task_todo: StyleSpec,
    pub rule: StyleSpec,
    pub table_header: StyleSpec,
    pub table_border: StyleSpec,
    pub text: StyleSpec,
    pub link: StyleSpec,
}

/// The default theme: headings in palette colours 110, 110, 109, 252
/// (bold) and 248, 244; a heavy rule under H1 and a light one under H2.
pub open spec fn spec_default_theme() -> Theme {
    Theme {
        text: spec_colored(252),
        heading: [
            spec_bold_colored(110),
            spec_bold_colored(110),
            spec_bold_colored(109),
            spec_bold_colored(252),
            spec_colored(248),
            spec_colored(244),
        ],
        heading_rule: [Some('━'), Some('─'), None, None, None, None],
        emphasis: StyleSpec { italic: true, ..spec_plain_style() },
        strong: StyleSpec { bold: true, ..spec_plain_style() },
        strikethrough: StyleSpec { fg: Some(245), crossed_out: true, ..spec_plain_style() },
        code: StyleSpec { fg: Some(110), bg: Some(236), ..spec_plain_style() },
        quote: StyleSpec { fg: Some(245), italic: true, ..spec_plain_style() },
        quote_bar: spec_colored(240),
        list_marker: spec_colored(67),
        task_done: spec_colored(110),
        task_todo: spec_colored(244),
        rule: spec_colored(240),
        table_header: spec_bold_colored(110),
        table_border: spec_colored(240),
        link: StyleSpec { fg: Some(110), underlined: true, ..spec_plain_style() },
    }
}

impl Default for Theme {
    fn default() -> (r: Theme)
        ensures
            r == spec_default_theme(),
    {
        let plain = plain_style();
        Theme {
            text: colored(252),
            heading: [
                bold_colored(110),
                bold_colored(110),
                bold_colored(109),
                bold_colored(252),
                colored(248),
                colored(244),
            ],
            heading_rule: [Some('━'), Some('─'), None, None, None, None],
            emphasis: StyleSpec { italic: true, ..plain },
            strong: StyleSpec { bold: true, ..plain },
            strikethrough: StyleSpec { fg: Some(245), crossed_out: true, ..plain },
            code: StyleSpec { fg: Some(110), bg: Some(236), ..plain },
            quote: StyleSpec { fg: Some(245), italic: true, ..plain },
            quote_bar: colored(240),
            list_marker: colored(67),
            task_done: colored(110),
            task_todo: colored(244),
            rule: colored(240),
            table_header: bold_colored(110),
            table_border: colored(240),
            link: StyleSpec { fg: Some(110), underlined: true, ..plain },
        }
    }
}

/// The rule character a theme draws under a heading of `level`, if any.
pub open spec fn heading_rule(theme: Theme, level: u8) -> Option<char> {
    if level_index(level) < 6 {
        theme.heading_rule[level_index(level)]
    } else {
        None
    }
}

/// The index a 1-based level selects: level 0 counts as 1.
pub open spec fn level_index(level: u8) -> int {
    if level == 0 {
        0
    } else {
        level - 1
    }
}

impl Theme {
    /// The rule character under a heading of `level` (1-based; 0 counts as
    /// 1), if the theme draws one; none beyond level 6.
    pub fn heading_rule_char(&self, level: u8) -> (r: Option<char>)
        ensures
            r == (if level_index(level) < 6 { self.heading_rule[level_index(level)] } else { None }),
    {
        let idx: usize = if level == 0 { 0 } else { (level - 1) as usize };
        if idx < 6 {
            self.heading_rule[idx]
        } else {
            None
        }
    }

    /// The style of an inline element.
    pub fn span_style(&self, style: SpanStyle) -> (r: StyleSpec)
        ensures
            r == match style {
                SpanStyle::Plain => self.text,
                SpanStyle::Bold => self.strong,
                SpanStyle::Italic => self.emphasis,
                SpanStyle::Strikethrough => self.strikethrough,
                SpanStyle::Code => self.code,
                SpanStyle::Link => self.link,
            },
    {
        match style {
            SpanStyle::Plain => self.text,
            SpanStyle::Bold => self.strong,
            SpanStyle::Italic => self.emphasis,
            SpanStyle::Strikethrough => self.strikethrough,
            SpanStyle::Code => self.code,
            SpanStyle::Link => self.link,
        }
    }

    /// The style of a quote's bar, apart from the quoted text.
    pub fn quote_bar_style(&self) -> (r: StyleSpec)
        ensures
            r == self.quote_bar,
    {
        self.quote_bar
    }

    /// The style of a whole line: a heading's level style (the text style
    /// beyond level 6), the quote style, the table border style, or the
    /// text style.
    pub fn line_style(&self, style: &LineStyle) -> (r: StyleSpec)
        ensures
            r == match *style {
                LineStyle::Heading(level) => if level_index(level) < 6 {
                    self.heading[level_index(level)]
                } else {
                    self.text
                },
                LineStyle::Quote => self.quote,
                LineStyle::ListItem(_) => self.text,
                LineStyle::Table => self.table_border,
                LineStyle::Plain => self.text,
            },
    {
        match style {
            LineStyle::Heading(level) => {
                let idx: usize = if *level == 0 { 0 } else { (*level - 1) as usize };
                if idx < 6 {
                    self.heading[idx]
                } else {
                    self.text
                }
            },
            LineStyle::Quote => self.quote,
            LineStyle::ListItem(_) => self.text,
            LineStyle::Table => self.table_border,
            LineStyle::Plain => self.text,
        }
    }
}

/// The list markers by depth.
pub const LIST_MARKERS: [char; 3] = ['•', '◦', '▪'];

/// The list marker of a 1-based depth: `•`, `◦`, then `▪` for every deeper
/// level (depth 0 counts as 1).
pub open spec fn spec_list_marker(depth: usize) -> char {
    if depth <= 1 {
        '•'
    } else if depth == 2 {
        '◦'
    } else {
        '▪'
    }
}

pub fn list_marker_char(depth: usize) -> (r: char)
    ensures
        r == spec_list_marker(depth),
{
    let idx = depth.saturating_sub(1);
    let idx = if idx < 2 { idx } else { 2 };
    LIST_MARKERS[idx]
}

/// A checked task box.
pub const CHECK_DONE: char = '\u{2713}';

/// An unchecked task box.
pub const CHECK_TODO: char = '\u{2610}';

/// The bar in front of quoted lines.
pub const QUOTE_BAR: char = '\u{2502}';

} // verus!
