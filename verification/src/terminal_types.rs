//! Public value types for the terminal emulator.

use vstd::prelude::*;

verus! {

/// Zero-based position on the active screen.
#[derive(Debug, Clone, Copy, PartialEq, Eq, Structural, Hash)]
pub struct Position {
    /// Zero-based row.
    pub row: u16,
    /// Zero-based column.
    pub col: u16,
}

impl Position {
    /// The origin of the screen.
    pub open spec fn spec_origin() -> Position {
        Position { row: 0, col: 0 }
    }

    /// Returns the origin of the screen, `row` and `col` both zero.
    #[verifier::when_used_as_spec(spec_origin)]
    pub fn origin() -> (at: Position)
        ensures
            at == Position::spec_origin(),
    {
        Position { row: 0, col: 0 }
    }
}

/// Cell color.
///
/// Indexed values use the usual ANSI/xterm numbering: 0-15 are the system
/// palette, 16-255 are the 256-color cube and grayscale ramp.
#[derive(Debug, Clone, Copy, PartialEq, Eq, Structural, Hash)]
pub enum Color {
    /// Terminal default foreground or background.
    Default,
    /// Palette or 256-color index (`0..=255`).
    Indexed(u8),
    /// Direct 24-bit color.
    Rgb(u8, u8, u8),
}

/// The red, green and blue intensities of one of the sixteen system colors.
pub open spec fn system_color(index: u8) -> (u8, u8, u8) {
    match index {
        0 => (0u8, 0u8, 0u8),
        1 => (205u8, 0u8, 0u8),
        2 => (0u8, 205u8, 0u8),
        3 => (205u8, 205u8, 0u8),
        4 => (0u8, 0u8, 238u8),
        5 => (205u8, 0u8, 205u8),
        6 => (0u8, 205u8, 205u8),
        7 => (229u8, 229u8, 229u8),
        8 => (127u8, 127u8, 127u8),
        9 => (255u8, 0u8, 0u8),
        10 => (0u8, 255u8, 0u8),
        11 => (255u8, 255u8, 0u8),
        12 => (92u8, 92u8, 255u8),
        13 => (255u8, 0u8, 255u8),
        14 => (0u8, 255u8, 255u8),
        _ => (255u8, 255u8, 255u8),
    }
}

/// The intensity of one of the six levels of a color-cube component.
pub open spec fn cube_level(level: int) -> u8 {
    if level == 0 {
        0
    } else {
        (55 + 40 * level) as u8
    }
}

/// The color that an index of the 256-color palette stands for: sixteen
/// system colors, a 6x6x6 cube and a ramp of 24 grays.
pub open spec fn palette_color(index: u8) -> (u8, u8, u8) {
    if index < 16 {
        system_color(index)
    } else if index < 232 {
        let n = index - 16;
        (cube_level(n / 36), cube_level(n / 6 % 6), cube_level(n % 6))
    } else {
        let gray = (8 + 10 * (index - 232)) as u8;
        (gray, gray, gray)
    }
}

impl Color {
    /// Resolves this color to concrete 24-bit RGB.
    ///
    /// [`Color::Default`] has no fixed value (it is whatever the host terminal
    /// uses) and returns `None`. [`Color::Rgb`] is returned unchanged.
    /// [`Color::Indexed`] is resolved through the xterm 256-color palette.
    pub fn to_rgb(&self) -> (rgb: Option<(u8, u8, u8)>)
        ensures
            rgb == match *self {
                Color::Default => None,
                Color::Rgb(r, g, b) => Some((r, g, b)),
                Color::Indexed(index) => Some(palette_color(index)),
            },
    {
        match *self {
            Color::Default => None,
            Color::Rgb(r, g, b) => Some((r, g, b)),
            Color::Indexed(index) => Some(indexed_rgb(index)),
        }
    }
}

impl Default for Color {
    fn default() -> (color: Color)
        ensures
            color == Color::Default,
    {
        Color::Default
    }
}

/// Returns one of the sixteen ANSI/xterm system colors.
fn system_rgb(index: u8) -> (rgb: (u8, u8, u8))
    ensures
        rgb == system_color(index),
{
    match index {
        0 => (0, 0, 0),
        1 => (205, 0, 0),
        2 => (0, 205, 0),
        3 => (205, 205, 0),
        4 => (0, 0, 238),
        5 => (205, 0, 205),
        6 => (0, 205, 205),
        7 => (229, 229, 229),
        8 => (127, 127, 127),
        9 => (255, 0, 0),
        10 => (0, 255, 0),
        11 => (255, 255, 0),
        12 => (92, 92, 255),
        13 => (255, 0, 255),
        14 => (0, 255, 255),
        _ => (255, 255, 255),
    }
}

/// Resolves an xterm 256-color index to concrete RGB.
///
/// See [`Color::to_rgb`] for the palette layout.
fn indexed_rgb(index: u8) -> (rgb: (u8, u8, u8))
    ensures
        rgb == palette_color(index),
{
    if index < 16 {
        system_rgb(index)
    } else if index < 232 {
        let n: u8 = index - 16;
        let r: u8 = palette_level(n / 36);
        let g: u8 = palette_level((n % 36) / 6);
        let b: u8 = palette_level(n % 6);
        proof {
            let k = n as int;
            assert((k % 36) / 6 == k / 6 % 6) by (nonlinear_arith)
                requires
                    0 <= k < 216,
            {
                assert(k == 36 * (k / 36) + k % 36);
                assert(k / 6 == 6 * (k / 36) + (k % 36) / 6);
            }
        }
        (r, g, b)
    } else {
        let level: u8 = 8 + (index - 232) * 10;
        (level, level, level)
    }
}

/// Maps a 6-level color-cube component index to its 0-255 intensity.
fn palette_level(index: u8) -> (level: u8)
    requires
        index < 6,
    ensures
        level == cube_level(index as int),
{
    if index == 0 {
        0
    } else {
        55 + index * 40
    }
}

/// Graphic rendition applied to a cell.
#[derive(Debug, Clone, Copy, PartialEq, Eq, Structural, Hash)]
pub struct Style {
    /// Foreground color.
    pub foreground: Color,
    /// Background color.
    pub background: Color,
    /// Bold / increased intensity (SGR 1).
    pub bold: bool,
    /// Italic (SGR 3).
    pub italic: bool,
    /// Underline (SGR 4).
    pub underline: bool,
    /// Reverse video (SGR 7).
    pub reverse: bool,
}

impl Style {
    /// The rendition without colors or attributes.
    pub open spec fn spec_plain() -> Style {
        Style {
            foreground: Color::Default,
            background: Color::Default,
            bold: false,
            italic: false,
            underline: false,
            reverse: false,
        }
    }

    /// Returns the rendition without colors or attributes.
    #[verifier::when_used_as_spec(spec_plain)]
    pub fn plain() -> (style: Style)
        ensures
            style == Style::spec_plain(),
    {
        Style {
            foreground: Color::Default,
            background: Color::Default,
            bold: false,
            italic: false,
            underline: false,
            reverse: false,
        }
    }
}

impl Default for Style {
    fn default() -> (style: Style)
        ensures
            style == Style::spec_plain(),
    {
        Style::plain()
    }
}

/// One cell on the active screen.
#[derive(Debug, Clone, Copy, PartialEq, Eq, Structural, Hash)]
pub struct Cell {
    /// Glyph stored in this cell.
    ///
    /// Empty cells use `' '`. Wide-character continuation cells also use
    /// `' '` with [`Cell::width`] equal to `0`.
    pub ch: char,
    /// Display width contributed by this cell: `1` or `2` for a leading
    /// glyph cell, or `0` for the trailing half of a width-2 glyph.
    pub width: u8,
    /// Graphic rendition for this cell.
    pub style: Style,
}

impl Cell {
    /// A single-column space drawn with `style`.
    pub open spec fn spec_blank(style: Style) -> Cell {
        Cell { ch: ' ', width: 1, style }
    }

    /// An empty single-column cell with default style.
    pub open spec fn spec_empty() -> Cell {
        Cell::spec_blank(Style::spec_plain())
    }

    /// The trailing half of a width-2 glyph drawn with `style`.
    pub open spec fn trailing(style: Style) -> Cell {
        Cell { ch: ' ', width: 0, style }
    }

    /// Returns an empty single-column cell with default style.
    ///
    /// Identical to [`Cell::continuation`] except for [`Cell::width`], which
    /// is `1` here and `0` there.
    #[verifier::when_used_as_spec(spec_empty)]
    pub fn empty() -> (cell: Cell)
        ensures
            cell == Cell::spec_empty(),
    {
        Cell { ch: ' ', width: 1, style: Style::plain() }
    }

    /// Returns the trailing half of a width-2 glyph with default style.
    ///
    /// Identical to [`Cell::empty`] except for [`Cell::width`], which is `0`
    /// here and `1` there. Choose between the two by width, not by the glyph.
    pub fn continuation() -> (cell: Cell)
        ensures
            cell == Cell::trailing(Style::spec_plain()),
    {
        Cell { ch: ' ', width: 0, style: Style::plain() }
    }

    #[verifier::when_used_as_spec(spec_blank)]
    pub(crate) fn blank(style: Style) -> (cell: Cell)
        ensures
            cell == Cell::spec_blank(style),
    {
        Cell { ch: ' ', width: 1, style }
    }
}

/// Mouse reporting mode retained for input encoding and snapshots.
#[derive(Debug, Clone, Copy, PartialEq, Eq, Structural, Hash)]
pub enum MouseReporting {
    /// Mouse reports disabled.
    Off,
    /// X10 mouse reporting (`?9h`).
    X10,
    /// Normal tracking (`?1000h`).
    Normal,
    /// Button-event tracking (`?1002h`).
    ButtonEvent,
    /// Any-event tracking (`?1003h`).
    AnyEvent,
}

impl MouseReporting {
    /// Returns true when any mouse reporting mode is enabled.
    pub fn is_active(self) -> (active: bool)
        ensures
            active == (self != MouseReporting::Off),
    {
        !matches!(self, MouseReporting::Off)
    }
}

impl Default for MouseReporting {
    fn default() -> (mouse: MouseReporting)
        ensures
            mouse == MouseReporting::Off,
    {
        MouseReporting::Off
    }
}

/// Terminal modes that affect display and later input encoding.
#[derive(Debug, Clone, Copy, PartialEq, Eq, Structural, Hash)]
pub struct TerminalModes {
    /// DEC auto-wrap mode (`?7`); default on.
    pub autowrap: bool,
    /// DEC origin mode (`?6`); default off.
    pub origin: bool,
    /// IRM insert mode (SM/RM 4); default off (replace).
    pub insert: bool,
    /// Application cursor keys (`?1`); default off (normal).
    pub application_cursor: bool,
    /// Application keypad (`?66`); default off.
    pub application_keypad: bool,
    /// Bracketed paste (`?2004`); default off.
    pub bracketed_paste: bool,
    /// Cursor visibility (`?25`); default on.
    pub cursor_visible: bool,
    /// Mouse reporting style.
    pub mouse: MouseReporting,
    /// SGR mouse encoding (`?1006`).
    pub mouse_sgr: bool,
}

impl TerminalModes {
    /// The modes of a terminal that was just switched on.
    pub open spec fn initial() -> TerminalModes {
        TerminalModes {
            autowrap: true,
            origin: false,
            insert: false,
            application_cursor: false,
            application_keypad: false,
            bracketed_paste: false,
            cursor_visible: true,
            mouse: MouseReporting::Off,
            mouse_sgr: false,
        }
    }
}

impl Default for TerminalModes {
    fn default() -> (modes: TerminalModes)
        ensures
            modes == TerminalModes::initial(),
    {
        TerminalModes {
            autowrap: true,
            origin: false,
            insert: false,
            application_cursor: false,
            application_keypad: false,
            bracketed_paste: false,
            cursor_visible: true,
            mouse: MouseReporting::Off,
            mouse_sgr: false,
        }
    }
}

/// Side effect produced while feeding the emulator.
///
/// The emulator never writes to a PTY itself; the caller applies these
/// actions (typically by writing to the PTY master).
#[derive(Debug, Clone, PartialEq, Eq, Hash)]
pub enum TerminalAction {
    /// Bytes that should be written to the PTY master (for example CPR or DA
    /// replies).
    WritePty(Vec<u8>),
}

/// What DECSC remembers and DECRC brings back.
#[derive(Debug, Clone, Copy, PartialEq, Eq, Structural)]
pub struct SavedCursor {
    /// Where the cursor was.
    pub cursor: Position,
    /// The drawing style.
    pub pen: Style,
    /// Whether the next glyph was due to wrap.
    pub wrap_pending: bool,
    /// Whether origin mode was on.
    pub origin: bool,
}

impl SavedCursor {
    /// What is remembered before anything was saved.
    pub open spec fn initial() -> SavedCursor {
        SavedCursor {
            cursor: Position::spec_origin(),
            pen: Style::spec_plain(),
            wrap_pending: false,
            origin: false,
        }
    }
}

impl Default for SavedCursor {
    fn default() -> (saved: SavedCursor)
        ensures
            saved == SavedCursor::initial(),
    {
        SavedCursor {
            cursor: Position::origin(),
            pen: Style::plain(),
            wrap_pending: false,
            origin: false,
        }
    }
}

} // verus!
