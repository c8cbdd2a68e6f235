//! What the terminal emulator does, as a mathematical state machine.
//!
//! A [`TerminalModel`] holds everything that decides how the emulator goes on.
//! Each operation of the emulator is a function from one model to the next.

use vstd::prelude::*;

use crate::decimal::decimal;
use crate::size::Size;
use crate::snapshot::SnapshotContent;
use crate::terminal_buffer::{
    blank_rows, delete_cells, draw_glyph, erase_in_row, erase_row_span, fills, insert_blanks,
    resized, scroll_region_down, scroll_region_up, shift_down, shift_up,
};
use crate::terminal_types::{
    Cell, Color, MouseReporting, Position, SavedCursor, Style, TerminalAction, TerminalModes,
};
use crate::tokenizer::{lossy_text, shown_columns, tokens_after, unicode_columns, TokenView};

verus! {

/// The state of a terminal emulator.
pub struct TerminalModel {
    /// The bytes that the tokenizer was given so far.
    pub fed: Seq<u8>,
    /// The screen size.
    pub size: Size,
    /// The rows of the primary screen.
    pub primary: Seq<Seq<Cell>>,
    /// The rows of the alternate screen.
    pub alternate: Seq<Seq<Cell>>,
    /// Whether the alternate screen is the active one.
    pub on_alternate: bool,
    /// Where the next glyph goes.
    pub cursor: Position,
    /// What DECSC saved.
    pub saved: SavedCursor,
    /// Whether the next glyph wraps to the next line first.
    pub wrap_pending: bool,
    /// The drawing style.
    pub pen: Style,
    /// The modes.
    pub modes: TerminalModes,
    /// The window title.
    pub title: Seq<char>,
    /// The first row of the scroll region.
    pub scroll_top: u16,
    /// The last row of the scroll region.
    pub scroll_bottom: u16,
    /// The reply bytes that nobody has taken yet.
    pub replies: Seq<u8>,
    /// The rows that left the top of the primary screen, oldest first.
    pub scrollback: Seq<Seq<Cell>>,
    /// Whether a screen or the title was written to.
    pub touched: bool,
}

/// The smaller of two numbers.
pub open spec fn least(a: int, b: int) -> int {
    if a < b {
        a
    } else {
        b
    }
}

/// The larger of two numbers.
pub open spec fn greatest(a: int, b: int) -> int {
    if a > b {
        a
    } else {
        b
    }
}

/// The nearest number to `n` from `low` to `high`.
pub open spec fn clamped(n: int, low: int, high: int) -> int {
    least(greatest(n, low), high)
}

/// The parameter at `index`, or `default` where it is absent or zero.
pub open spec fn param(params: Seq<Seq<u16>>, index: int, default: u16) -> u16 {
    if index < params.len() && params[index].len() > 0 && params[index][0] != 0 {
        params[index][0]
    } else {
        default
    }
}

/// All parameters and subparameters in one list; an absent one counts as zero.
pub open spec fn flat_params(params: Seq<Seq<u16>>) -> Seq<u16>
    decreases params.len(),
{
    if params.len() == 0 {
        Seq::empty()
    } else {
        flat_params(params.drop_last()) + if params.last().len() == 0 {
            seq![0u16]
        } else {
            params.last()
        }
    }
}

/// The color that follows an SGR 38 or 48, and how many values it takes up.
pub open spec fn extended_color(values: Seq<u16>) -> Option<(Color, int)> {
    if values.len() >= 2 && values[0] == 5 && values[1] < 256 {
        Some((Color::Indexed(values[1] as u8), 2))
    } else if values.len() >= 4 && values[0] == 2 && values[1] < 256 && values[2] < 256 && values[3]
        < 256 {
        Some((Color::Rgb(values[1] as u8, values[2] as u8, values[3] as u8), 4))
    } else {
        None
    }
}

/// The style after one SGR value that stands alone.
pub open spec fn sgr_value(pen: Style, value: u16) -> Style {
    if value == 0 {
        Style::spec_plain()
    } else if value == 1 {
        Style { bold: true, ..pen }
    } else if value == 3 {
        Style { italic: true, ..pen }
    } else if value == 4 {
        Style { underline: true, ..pen }
    } else if value == 7 {
        Style { reverse: true, ..pen }
    } else if value == 22 {
        Style { bold: false, ..pen }
    } else if value == 23 {
        Style { italic: false, ..pen }
    } else if value == 24 {
        Style { underline: false, ..pen }
    } else if value == 27 {
        Style { reverse: false, ..pen }
    } else if 30 <= value <= 37 {
        Style { foreground: Color::Indexed((value - 30) as u8), ..pen }
    } else if value == 39 {
        Style { foreground: Color::Default, ..pen }
    } else if 40 <= value <= 47 {
        Style { background: Color::Indexed((value - 40) as u8), ..pen }
    } else if value == 49 {
        Style { background: Color::Default, ..pen }
    } else if 90 <= value <= 97 {
        Style { foreground: Color::Indexed((value - 82) as u8), ..pen }
    } else if 100 <= value <= 107 {
        Style { background: Color::Indexed((value - 92) as u8), ..pen }
    } else {
        pen
    }
}

/// The style after a list of SGR values.
pub open spec fn sgr(pen: Style, values: Seq<u16>) -> Style
    decreases values.len(),
{
    if values.len() == 0 {
        pen
    } else {
        let rest = values.skip(1);
        match extended_color(rest) {
            Some((color, taken)) if values[0] == 38 => sgr(
                Style { foreground: color, ..pen },
                rest.skip(taken),
            ),
            Some((color, taken)) if values[0] == 48 => sgr(
                Style { background: color, ..pen },
                rest.skip(taken),
            ),
            _ => sgr(sgr_value(pen, values[0]), rest),
        }
    }
}

/// The reply to a request for the cursor position.
pub open spec fn cursor_report(cursor: Position) -> Seq<u8> {
    seq![0x1bu8, 0x5bu8] + decimal((cursor.row + 1) as nat) + seq![0x3bu8] + decimal(
        (cursor.col + 1) as nat,
    ) + seq![0x52u8]
}

/// The reply to a request for the device status.
pub open spec fn status_report() -> Seq<u8> {
    seq![0x1bu8, 0x5bu8, 0x30u8, 0x6eu8]
}

/// The reply to a request for the primary device attributes.
pub open spec fn attributes_report() -> Seq<u8> {
    seq![0x1bu8, 0x5bu8, 0x3fu8, 0x36u8, 0x63u8]
}

/// Pending reply bytes, cut into replies: an escape begins a new one.
pub open spec fn pieces(bytes: Seq<u8>) -> Seq<Seq<u8>>
    decreases bytes.len(),
{
    if bytes.len() == 0 {
        Seq::empty()
    } else {
        let front = pieces(bytes.drop_last());
        if front.len() == 0 || bytes.last() == 0x1b {
            front.push(seq![bytes.last()])
        } else {
            front.drop_last().push(front.last().push(bytes.last()))
        }
    }
}

/// The bytes of actions, one action after the other.
pub open spec fn action_bytes(actions: Seq<TerminalAction>) -> Seq<Seq<u8>> {
    Seq::new(
        actions.len(),
        |i: int|
            match actions[i] {
                TerminalAction::WritePty(bytes) => bytes@,
            },
    )
}

/// No line is wider than a screen can be.
#[verifier::opaque]
pub open spec fn narrow(lines: Seq<Seq<Cell>>) -> bool {
    forall|i: int| 0 <= i < lines.len() ==> (#[trigger] lines[i]).len() <= u16::MAX
}

impl TerminalModel {
    /// The state of a new terminal.
    pub open spec fn initial(size: Size) -> TerminalModel {
        let blank = blank_rows(
            size.row_count() as nat,
            size.col_count() as nat,
            Style::spec_plain(),
        );
        TerminalModel {
            fed: Seq::empty(),
            size,
            primary: blank,
            alternate: blank,
            on_alternate: false,
            cursor: Position::spec_origin(),
            saved: SavedCursor::initial(),
            wrap_pending: false,
            pen: Style::spec_plain(),
            modes: TerminalModes::initial(),
            title: Seq::empty(),
            scroll_top: 0,
            scroll_bottom: (size.row_count() - 1) as u16,
            replies: Seq::empty(),
            scrollback: Seq::empty(),
            touched: false,
        }
    }

    /// The number of rows.
    pub open spec fn rows(self) -> int {
        self.size.row_count() as int
    }

    /// The number of columns.
    pub open spec fn cols(self) -> int {
        self.size.col_count() as int
    }

    /// Both screens fill the size, and the cursor and the scroll region lie
    /// inside it. No row of the history is wider than a screen can be.
    pub open spec fn wf(self) -> bool {
        &&& self.size.addressable()
        &&& fills(self.primary, self.size)
        &&& fills(self.alternate, self.size)
        &&& self.cursor.row < self.rows()
        &&& self.cursor.col < self.cols()
        &&& self.scroll_top <= self.scroll_bottom
        &&& self.scroll_bottom < self.rows()
        &&& narrow(self.scrollback)
    }

    /// The rows of the active screen.
    pub open spec fn active(self) -> Seq<Seq<Cell>> {
        if self.on_alternate {
            self.alternate
        } else {
            self.primary
        }
    }

    /// With the active screen replaced by `grid`.
    pub open spec fn draw(self, grid: Seq<Seq<Cell>>) -> TerminalModel {
        if self.on_alternate {
            TerminalModel { alternate: grid, touched: true, ..self }
        } else {
            TerminalModel { primary: grid, touched: true, ..self }
        }
    }

    /// With the cursor at `row` and `col`, and no wrap pending.
    pub open spec fn move_to(self, row: int, col: int) -> TerminalModel {
        TerminalModel {
            cursor: Position { row: row as u16, col: col as u16 },
            wrap_pending: false,
            ..self
        }
    }

    /// Without a pending wrap.
    pub open spec fn drop_wrap(self) -> TerminalModel {
        TerminalModel { wrap_pending: false, ..self }
    }

    /// BS.
    #[verifier::opaque]
    pub open spec fn backspace(self) -> TerminalModel {
        self.move_to(self.cursor.row as int, greatest(self.cursor.col - 1, 0))
    }

    /// HT: to the next multiple of eight columns.
    #[verifier::opaque]
    pub open spec fn horizontal_tab(self) -> TerminalModel {
        self.move_to(
            self.cursor.row as int,
            least(self.cursor.col / 8 * 8 + 8, self.cols() - 1),
        )
    }

    /// CR.
    #[verifier::opaque]
    pub open spec fn carriage_return(self) -> TerminalModel {
        self.move_to(self.cursor.row as int, 0)
    }

    /// SU: the scroll region moves up. What leaves the top of the whole
    /// primary screen becomes history.
    #[verifier::opaque]
    pub open spec fn scroll_up(self, count: int) -> TerminalModel {
        let top = self.scroll_top as int;
        let bottom = self.scroll_bottom as int;
        let scrolled = self.draw(
            scroll_region_up(self.active(), top, bottom, count, self.cols() as nat, self.pen),
        );
        if top == 0 && bottom + 1 == self.rows() && !self.on_alternate {
            TerminalModel {
                scrollback: self.scrollback + self.primary.subrange(0, least(count, self.rows())),
                ..scrolled
            }
        } else {
            scrolled
        }
    }

    /// SD: the scroll region moves down.
    #[verifier::opaque]
    pub open spec fn scroll_down(self, count: int) -> TerminalModel {
        self.draw(
            scroll_region_down(
                self.active(),
                self.scroll_top as int,
                self.scroll_bottom as int,
                count,
                self.cols() as nat,
                self.pen,
            ),
        )
    }

    /// LF and IND: down one row; at the bottom of the region it scrolls.
    #[verifier::opaque]
    pub open spec fn line_feed(self) -> TerminalModel {
        if self.cursor.row == self.scroll_bottom {
            self.drop_wrap().scroll_up(1)
        } else {
            self.move_to(least(self.cursor.row + 1, self.rows() - 1), self.cursor.col as int)
        }
    }

    /// RI: up one row; at the top of the region it scrolls.
    #[verifier::opaque]
    pub open spec fn reverse_index(self) -> TerminalModel {
        if self.cursor.row == self.scroll_top {
            self.drop_wrap().scroll_down(1)
        } else {
            self.move_to(greatest(self.cursor.row - 1, 0), self.cursor.col as int)
        }
    }

    /// A glyph of `width` columns at the cursor, which moves past it.
    #[verifier::opaque]
    pub open spec fn place(self, ch: char, width: int) -> TerminalModel {
        let ready = if self.modes.insert {
            self.insert_chars(width)
        } else {
            self
        };
        let row = self.cursor.row as int;
        let col = self.cursor.col as int;
        let drawn = ready.draw(
            ready.active().update(
                row,
                draw_glyph(ready.active()[row], col, ch, width as u8, self.pen),
            ),
        );
        if col + width >= self.cols() {
            TerminalModel {
                wrap_pending: self.modes.autowrap,
                ..drawn.move_to(row, self.cols() - 1)
            }
        } else {
            drawn.move_to(row, col + width)
        }
    }

    /// The wrap that a glyph completes if one is pending.
    #[verifier::opaque]
    pub open spec fn finish_wrap(self) -> TerminalModel {
        if self.wrap_pending && self.modes.autowrap {
            self.carriage_return().line_feed()
        } else {
            self.drop_wrap()
        }
    }

    /// Room for a glyph of `width` columns: on the next row where the current
    /// one is full, or in the last column where nothing wraps.
    #[verifier::opaque]
    pub open spec fn make_room(self, width: int) -> TerminalModel {
        if self.cursor.col + width <= self.cols() {
            self
        } else if self.modes.autowrap {
            self.carriage_return().line_feed()
        } else {
            self.move_to(self.cursor.row as int, self.cols() - 1)
        }
    }

    /// A glyph arrives. One without a width, or of zero columns, is ignored.
    /// One that fits nowhere is dropped.
    #[verifier::opaque]
    pub open spec fn print(self, ch: char, width: Option<usize>) -> TerminalModel {
        match width {
            Some(n) if n > 0 => {
                let ready = self.finish_wrap().make_room(n as int);
                if ready.cursor.col + n > ready.cols() {
                    ready
                } else {
                    ready.place(ch, n as int)
                }
            },
            _ => self,
        }
    }

    /// DECSC.
    #[verifier::opaque]
    pub open spec fn save_cursor(self) -> TerminalModel {
        TerminalModel {
            saved: SavedCursor {
                cursor: self.cursor,
                pen: self.pen,
                wrap_pending: self.wrap_pending,
                origin: self.modes.origin,
            },
            ..self
        }
    }

    /// The first row that the cursor may move to.
    pub open spec fn min_row(self) -> int {
        if self.modes.origin {
            self.scroll_top as int
        } else {
            0
        }
    }

    /// The last row that the cursor may move to.
    pub open spec fn max_row(self) -> int {
        if self.modes.origin {
            self.scroll_bottom as int
        } else {
            self.rows() - 1
        }
    }

    /// With the cursor on the leading half of the glyph that it is on.
    #[verifier::opaque]
    pub open spec fn repair_cursor(self) -> TerminalModel {
        let at = self.cursor;
        if self.active()[at.row as int][at.col as int].width == 0 && at.col > 0 {
            TerminalModel { cursor: Position { col: (at.col - 1) as u16, ..at }, ..self }
        } else {
            self
        }
    }

    /// With what DECSC saved. The cursor may have been saved on a larger
    /// screen, or with another scroll region.
    #[verifier::opaque]
    pub open spec fn recall(self) -> TerminalModel {
        let restored = TerminalModel {
            pen: self.saved.pen,
            wrap_pending: self.saved.wrap_pending,
            modes: TerminalModes { origin: self.saved.origin, ..self.modes },
            ..self
        };
        TerminalModel {
            cursor: Position {
                row: clamped(
                    self.saved.cursor.row as int,
                    restored.min_row(),
                    restored.max_row(),
                ) as u16,
                col: least(self.saved.cursor.col as int, self.cols() - 1) as u16,
            },
            ..restored
        }
    }

    /// DECRC.
    pub open spec fn restore_cursor(self) -> TerminalModel {
        self.recall().repair_cursor()
    }

    /// RIS: as new, but for the replies that are still pending.
    #[verifier::opaque]
    pub open spec fn reset(self) -> TerminalModel {
        TerminalModel {
            fed: self.fed,
            replies: self.replies,
            touched: true,
            ..TerminalModel::initial(self.size)
        }
    }

    /// CUU.
    #[verifier::opaque]
    pub open spec fn cursor_up(self, count: int) -> TerminalModel {
        self.move_to(greatest(self.cursor.row - count, self.min_row()), self.cursor.col as int)
    }

    /// CUD.
    #[verifier::opaque]
    pub open spec fn cursor_down(self, count: int) -> TerminalModel {
        self.move_to(least(self.cursor.row + count, self.max_row()), self.cursor.col as int)
    }

    /// CUF.
    #[verifier::opaque]
    pub open spec fn cursor_forward(self, count: int) -> TerminalModel {
        self.move_to(self.cursor.row as int, least(self.cursor.col + count, self.cols() - 1))
    }

    /// CUB.
    #[verifier::opaque]
    pub open spec fn cursor_backward(self, count: int) -> TerminalModel {
        self.move_to(self.cursor.row as int, greatest(self.cursor.col - count, 0))
    }

    /// The row that the one-based row number of a request stands for.
    pub open spec fn addressed_row(self, row: int) -> int {
        clamped(self.min_row() + greatest(row - 1, 0), self.min_row(), self.max_row())
    }

    /// The column that the one-based column number of a request stands for.
    pub open spec fn addressed_col(self, col: int) -> int {
        least(greatest(col - 1, 0), self.cols() - 1)
    }

    /// CHA and HPA.
    #[verifier::opaque]
    pub open spec fn set_col(self, col: int) -> TerminalModel {
        self.move_to(self.cursor.row as int, self.addressed_col(col))
    }

    /// VPA.
    #[verifier::opaque]
    pub open spec fn set_row(self, row: int) -> TerminalModel {
        self.move_to(self.addressed_row(row), self.cursor.col as int)
    }

    /// CUP and HVP.
    #[verifier::opaque]
    pub open spec fn set_position(self, row: int, col: int) -> TerminalModel {
        self.move_to(self.addressed_row(row), self.addressed_col(col))
    }

    /// A span of the cursor's row is erased.
    #[verifier::opaque]
    pub open spec fn erase_here(self, start: int, end: int) -> TerminalModel {
        self.draw(erase_in_row(self.active(), self.cursor.row as int, start, end, self.pen))
    }

    /// A span of rows is erased.
    #[verifier::opaque]
    pub open spec fn erase_rows(self, start: int, end: int) -> TerminalModel {
        self.draw(erase_row_span(self.active(), start, end, self.pen))
    }

    /// Without a history.
    pub open spec fn forget(self) -> TerminalModel {
        TerminalModel { scrollback: Seq::empty(), ..self }
    }

    /// ED.
    #[verifier::opaque]
    pub open spec fn erase_display(self, mode: u16) -> TerminalModel {
        let row = self.cursor.row as int;
        let col = self.cursor.col as int;
        if mode == 0 {
            self.erase_here(col, self.cols()).erase_rows(row + 1, self.rows())
        } else if mode == 1 {
            self.erase_rows(0, row).erase_here(0, col + 1)
        } else if mode == 2 {
            self.erase_rows(0, self.rows())
        } else if mode == 3 {
            self.forget()
        } else {
            self
        }
    }

    /// EL.
    #[verifier::opaque]
    pub open spec fn erase_line(self, mode: u16) -> TerminalModel {
        let col = self.cursor.col as int;
        if mode == 0 {
            self.erase_here(col, self.cols())
        } else if mode == 1 {
            self.erase_here(0, col + 1)
        } else if mode == 2 {
            self.erase_here(0, self.cols())
        } else {
            self
        }
    }

    /// Whether the cursor is on a row of the scroll region.
    pub open spec fn in_region(self) -> bool {
        self.scroll_top <= self.cursor.row <= self.scroll_bottom
    }

    /// IL.
    #[verifier::opaque]
    pub open spec fn insert_lines(self, count: int) -> TerminalModel {
        let row = self.cursor.row as int;
        let bottom = self.scroll_bottom as int;
        if self.in_region() {
            self.draw(
                shift_down(
                    self.active(),
                    row,
                    bottom,
                    least(count, bottom - row + 1),
                    self.cols() as nat,
                    self.pen,
                ),
            )
        } else {
            self
        }
    }

    /// DL.
    #[verifier::opaque]
    pub open spec fn delete_lines(self, count: int) -> TerminalModel {
        let row = self.cursor.row as int;
        let bottom = self.scroll_bottom as int;
        if self.in_region() {
            self.draw(
                shift_up(
                    self.active(),
                    row,
                    bottom,
                    least(count, bottom - row + 1),
                    self.cols() as nat,
                    self.pen,
                ),
            )
        } else {
            self
        }
    }

    /// ICH.
    #[verifier::opaque]
    pub open spec fn insert_chars(self, count: int) -> TerminalModel {
        let row = self.cursor.row as int;
        self.draw(
            self.active().update(
                row,
                insert_blanks(self.active()[row], self.cursor.col as int, count, self.pen),
            ),
        )
    }

    /// DCH.
    #[verifier::opaque]
    pub open spec fn delete_chars(self, count: int) -> TerminalModel {
        let row = self.cursor.row as int;
        self.draw(
            self.active().update(
                row,
                delete_cells(self.active()[row], self.cursor.col as int, count, self.pen),
            ),
        )
    }

    /// With the scroll region from `top` to `bottom`.
    pub open spec fn with_region(self, top: int, bottom: int) -> TerminalModel {
        TerminalModel { scroll_top: top as u16, scroll_bottom: bottom as u16, ..self }
    }

    /// DECSTBM. A region that is empty or not on the screen is not taken. The
    /// cursor goes home in any case.
    #[verifier::opaque]
    pub open spec fn set_scroll_region(self, params: Seq<Seq<u16>>) -> TerminalModel {
        let top = param(params, 0, 1) - 1;
        let bottom = if params.len() >= 2 {
            param(params, 1, self.rows() as u16) - 1
        } else {
            self.rows() - 1
        };
        let set = if top < bottom < self.rows() {
            self.with_region(top, bottom)
        } else if params.len() == 0 {
            self.with_region(0, self.rows() - 1)
        } else {
            self
        };
        set.move_to(set.min_row(), 0)
    }

    /// With the alternate screen active, or the primary one.
    pub open spec fn show_alternate(self, on_alternate: bool) -> TerminalModel {
        TerminalModel { on_alternate, ..self }
    }

    /// With an empty alternate screen.
    #[verifier::opaque]
    pub open spec fn clear_alternate(self) -> TerminalModel {
        TerminalModel {
            alternate: blank_rows(self.rows() as nat, self.cols() as nat, Style::spec_plain()),
            touched: true,
            ..self
        }
    }

    /// The alternate screen comes or goes.
    #[verifier::opaque]
    pub open spec fn set_alternate(self, enable: bool, clear: bool) -> TerminalModel {
        if enable {
            let entered = if self.on_alternate {
                self
            } else {
                self.save_cursor().show_alternate(true)
            };
            if clear {
                entered.clear_alternate().with_region(0, self.rows() - 1).move_to(0, 0)
            } else {
                entered
            }
        } else if self.on_alternate {
            self.show_alternate(false).restore_cursor()
        } else {
            self
        }
    }

    /// With other modes.
    #[verifier::opaque]
    pub open spec fn with_modes(self, modes: TerminalModes) -> TerminalModel {
        TerminalModel { modes, ..self }
    }

    /// Mouse reporting switched to `style`, or off.
    #[verifier::opaque]
    pub open spec fn set_mouse(self, style: MouseReporting, enable: bool) -> TerminalModel {
        let mouse = if enable {
            style
        } else {
            MouseReporting::Off
        };
        self.with_modes(TerminalModes { mouse, ..self.modes })
    }

    /// One DEC private mode is set or reset.
    #[verifier::opaque]
    pub open spec fn set_private_mode(self, mode: u16, enable: bool) -> TerminalModel {
        if mode == 1 {
            self.with_modes(TerminalModes { application_cursor: enable, ..self.modes })
        } else if mode == 6 {
            self.with_modes(TerminalModes { origin: enable, ..self.modes }).set_position(1, 1)
        } else if mode == 7 {
            self.with_modes(TerminalModes { autowrap: enable, ..self.modes })
        } else if mode == 9 {
            self.set_mouse(MouseReporting::X10, enable)
        } else if mode == 25 {
            self.with_modes(TerminalModes { cursor_visible: enable, ..self.modes })
        } else if mode == 47 || mode == 1047 {
            self.set_alternate(enable, false)
        } else if mode == 66 {
            self.with_modes(TerminalModes { application_keypad: enable, ..self.modes })
        } else if mode == 1000 {
            self.set_mouse(MouseReporting::Normal, enable)
        } else if mode == 1002 {
            self.set_mouse(MouseReporting::ButtonEvent, enable)
        } else if mode == 1003 {
            self.set_mouse(MouseReporting::AnyEvent, enable)
        } else if mode == 1006 {
            self.with_modes(TerminalModes { mouse_sgr: enable, ..self.modes })
        } else if mode == 1049 {
            self.set_alternate(enable, true)
        } else if mode == 2004 {
            self.with_modes(TerminalModes { bracketed_paste: enable, ..self.modes })
        } else {
            self
        }
    }

    /// One mode is set or reset.
    pub open spec fn set_one_mode(self, mode: u16, private: bool, enable: bool) -> TerminalModel {
        if private {
            self.set_private_mode(mode, enable)
        } else if mode == 4 {
            self.with_modes(TerminalModes { insert: enable, ..self.modes })
        } else {
            self
        }
    }

    /// SM and RM: modes are set or reset one after the other.
    pub open spec fn set_modes(
        self,
        modes: Seq<u16>,
        private: bool,
        enable: bool,
    ) -> TerminalModel
        decreases modes.len(),
    {
        if modes.len() == 0 {
            self
        } else {
            self.set_modes(modes.drop_last(), private, enable).set_one_mode(
                modes.last(),
                private,
                enable,
            )
        }
    }

    /// With another drawing style.
    pub open spec fn with_pen(self, pen: Style) -> TerminalModel {
        TerminalModel { pen, ..self }
    }

    /// SGR. No parameters at all mean a reset.
    #[verifier::opaque]
    pub open spec fn set_rendition(self, params: Seq<Seq<u16>>) -> TerminalModel {
        let values = flat_params(params);
        self.with_pen(
            if values.len() == 0 {
                Style::spec_plain()
            } else {
                sgr(self.pen, values)
            },
        )
    }

    /// With one more reply pending.
    pub open spec fn reply(self, bytes: Seq<u8>) -> TerminalModel {
        TerminalModel { replies: self.replies + bytes, ..self }
    }

    /// DSR and CPR.
    #[verifier::opaque]
    pub open spec fn report_status(self, request: u16) -> TerminalModel {
        if request == 5 {
            self.reply(status_report())
        } else if request == 6 {
            self.reply(cursor_report(self.cursor))
        } else {
            self
        }
    }

    /// A control sequence.
    #[verifier::opaque]
    pub open spec fn csi(
        self,
        params: Seq<Seq<u16>>,
        intermediates: Seq<u8>,
        action: char,
    ) -> TerminalModel {
        let private = intermediates.len() > 0 && intermediates[0] == 0x3f;
        let n = param(params, 0, 1) as int;
        if action == 'A' {
            self.cursor_up(n)
        } else if action == 'B' {
            self.cursor_down(n)
        } else if action == 'C' {
            self.cursor_forward(n)
        } else if action == 'D' {
            self.cursor_backward(n)
        } else if action == 'E' {
            self.cursor_down(n).carriage_return()
        } else if action == 'F' {
            self.cursor_up(n).carriage_return()
        } else if action == 'G' || action == '`' {
            self.set_col(n)
        } else if action == 'H' || action == 'f' {
            self.set_position(n, param(params, 1, 1) as int)
        } else if action == 'd' {
            self.set_row(n)
        } else if action == 'J' {
            self.erase_display(param(params, 0, 0))
        } else if action == 'K' {
            self.erase_line(param(params, 0, 0))
        } else if action == 'L' {
            self.insert_lines(n)
        } else if action == 'M' {
            self.delete_lines(n)
        } else if action == '@' {
            self.insert_chars(n)
        } else if action == 'P' {
            self.delete_chars(n)
        } else if action == 'X' {
            self.erase_here(self.cursor.col as int, self.cursor.col + n)
        } else if action == 'S' {
            self.scroll_up(n)
        } else if action == 'T' {
            self.scroll_down(n)
        } else if action == 'r' && !private {
            self.set_scroll_region(params)
        } else if action == 'm' && !private {
            self.set_rendition(params)
        } else if action == 'h' {
            self.set_modes(flat_params(params), private, true)
        } else if action == 'l' {
            self.set_modes(flat_params(params), private, false)
        } else if action == 'n' && !private {
            self.report_status(param(params, 0, 0))
        } else if action == 'c' && !private {
            self.reply(attributes_report())
        } else if action == 's' && !private {
            self.save_cursor()
        } else if action == 'u' && !private {
            self.restore_cursor()
        } else {
            self
        }
    }

    /// A control character.
    #[verifier::opaque]
    pub open spec fn execute(self, byte: u8) -> TerminalModel {
        if byte == 0x08 {
            self.backspace()
        } else if byte == 0x09 {
            self.horizontal_tab()
        } else if 0x0a <= byte <= 0x0c {
            self.line_feed()
        } else if byte == 0x0d {
            self.carriage_return()
        } else {
            self
        }
    }

    /// An escape sequence without intermediate bytes.
    #[verifier::opaque]
    pub open spec fn escape(self, byte: u8) -> TerminalModel {
        if byte == 0x37 {
            self.save_cursor()
        } else if byte == 0x38 {
            self.restore_cursor()
        } else if byte == 0x44 {
            self.line_feed()
        } else if byte == 0x45 {
            self.carriage_return().line_feed()
        } else if byte == 0x4d {
            self.reverse_index()
        } else if byte == 0x63 {
            self.reset()
        } else {
            self
        }
    }

    /// With another window title.
    pub open spec fn set_title(self, title: Seq<char>) -> TerminalModel {
        TerminalModel { title, touched: true, ..self }
    }

    /// An operating system command. The numbers 0 and 2 set the window title.
    #[verifier::opaque]
    pub open spec fn command(self, params: Seq<Seq<u8>>) -> TerminalModel {
        if params.len() > 0 && (params[0] == seq![0x30u8] || params[0] == seq![0x32u8]) {
            self.set_title(
                if params.len() > 1 {
                    lossy_text(params[1])
                } else {
                    Seq::empty()
                },
            )
        } else {
            self
        }
    }

    /// One token of the byte stream.
    pub open spec fn perform(self, token: TokenView) -> TerminalModel {
        match token {
            TokenView::Print(ch) => self.print(ch, shown_columns(unicode_columns(ch))),
            TokenView::Execute(byte) => self.execute(byte),
            TokenView::Osc(params) => self.command(params),
            TokenView::Csi { params, intermediates, ignore, action } => if ignore {
                self
            } else {
                self.csi(params, intermediates, action)
            },
            TokenView::Esc { intermediates, ignore, byte } => if ignore || intermediates.len()
                > 0 {
                self
            } else {
                self.escape(byte)
            },
        }
    }

    /// Tokens one after the other.
    pub open spec fn perform_all(self, tokens: Seq<TokenView>) -> TerminalModel
        decreases tokens.len(),
    {
        if tokens.len() == 0 {
            self
        } else {
            self.perform_all(tokens.drop_last()).perform(tokens.last())
        }
    }

    /// One byte of PTY output.
    pub open spec fn read(self, byte: u8) -> TerminalModel {
        TerminalModel { fed: self.fed.push(byte), ..self }.perform_all(
            tokens_after(self.fed, byte),
        )
    }

    /// PTY output, byte by byte.
    pub open spec fn read_all(self, bytes: Seq<u8>) -> TerminalModel
        decreases bytes.len(),
    {
        if bytes.len() == 0 {
            self
        } else {
            self.read_all(bytes.drop_last()).read(bytes.last())
        }
    }

    /// As if nothing had been written to yet.
    pub open spec fn untouched(self) -> TerminalModel {
        TerminalModel { touched: false, ..self }
    }

    /// What a call that feeds `bytes` leaves behind.
    pub open spec fn feed(self, bytes: Seq<u8>) -> TerminalModel {
        self.untouched().read_all(bytes).untouched()
    }

    /// Whether what can be seen differs, as far as it is no cell or title.
    pub open spec fn same_scalars(self, other: TerminalModel) -> bool {
        &&& self.size == other.size
        &&& self.on_alternate == other.on_alternate
        &&& self.cursor == other.cursor
        &&& self.wrap_pending == other.wrap_pending
        &&& self.pen == other.pen
        &&& self.modes == other.modes
    }

    /// The same can be seen on both terminals.
    pub open spec fn looks_like(self, other: TerminalModel) -> bool {
        &&& self.same_scalars(other)
        &&& self.active() == other.active()
        &&& self.title == other.title
    }

    /// Whether a call that feeds `bytes` counts as a visible change: one of
    /// the scalars differs, or a screen or the title was written to.
    pub open spec fn feed_shows(self, bytes: Seq<u8>) -> bool {
        let after = self.untouched().read_all(bytes);
        after.touched || !after.same_scalars(self)
    }

    /// Whether tokens count as a visible change, as a feed does.
    pub open spec fn tokens_show(self, tokens: Seq<TokenView>) -> bool {
        let after = self.untouched().perform_all(tokens);
        after.touched || !after.same_scalars(self)
    }

    /// Whether a glyph counts as a visible change, as a feed does.
    pub open spec fn print_shows(self, ch: char, width: Option<usize>) -> bool {
        let after = self.untouched().print(ch, width);
        after.touched || !after.same_scalars(self)
    }

    /// What a snapshot shows of this state.
    pub open spec fn content(self) -> SnapshotContent {
        SnapshotContent {
            size: self.size,
            rows: self.active(),
            cursor: self.cursor,
            modes: self.modes,
            style: self.pen,
            title: self.title,
            on_alternate: self.on_alternate,
            scrollback: self.scrollback,
        }
    }

    /// Whether the scroll region is the whole screen.
    pub open spec fn scrolls_whole_screen(self) -> bool {
        self.scroll_top == 0 && self.scroll_bottom + 1 == self.rows()
    }

    /// The first and the last row of the scroll region on a screen of another
    /// number of rows. A region that is the whole screen stays the whole
    /// screen. Another one is clamped into the screen, and becomes the whole
    /// screen where fewer than two rows of it are left.
    pub open spec fn clamped_region(self, rows: int) -> (u16, u16) {
        let top = least(self.scroll_top as int, rows - 1);
        let bottom = least(self.scroll_bottom as int, rows - 1);
        if self.scrolls_whole_screen() || top >= bottom {
            (0, (rows - 1) as u16)
        } else {
            (top as u16, bottom as u16)
        }
    }

    /// With screens of another size, and the cursor and the scroll region
    /// clamped into it.
    #[verifier::opaque]
    pub open spec fn fit(self, size: Size) -> TerminalModel {
        let rows = size.row_count() as nat;
        let cols = size.col_count() as nat;
        let region = self.clamped_region(rows as int);
        TerminalModel {
            size,
            primary: resized(self.primary, self.cols(), rows, cols),
            alternate: resized(self.alternate, self.cols(), rows, cols),
            scroll_top: region.0,
            scroll_bottom: region.1,
            cursor: Position {
                row: least(self.cursor.row as int, rows - 1) as u16,
                col: least(self.cursor.col as int, cols - 1) as u16,
            },
            wrap_pending: false,
            ..self
        }
    }

    /// With another screen size.
    pub open spec fn resize(self, size: Size) -> TerminalModel {
        if size == self.size {
            self
        } else {
            self.fit(size).repair_cursor()
        }
    }
}

} // verus!
