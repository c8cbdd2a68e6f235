//! What is seen on the screen after each control character and each control
//! sequence: where the cursor is, and which cell holds what.

use vstd::prelude::*;

use crate::glyph_laws::{is_whole, row_is_whole, rows_are_whole};
use crate::terminal_buffer::{
    blank_cells, blank_rows, clear_glyph, draw_glyph, erase_row_span, erase_span, fills,
    lemma_erase_span_len, shift_down, shift_up,
};
use crate::terminal_laws::{erasing_whole_glyphs, glyphs_are_whole};
use crate::terminal_model::TerminalModel;
use crate::terminal_types::{Cell, Color, Style, TerminalModes};
use crate::tokenizer::{unicode_columns, TokenView};

verus! {

/// The rows that can be seen.
pub open spec fn screen(m: TerminalModel) -> Seq<Seq<Cell>> {
    if m.on_alternate {
        m.alternate
    } else {
        m.primary
    }
}

/// A space of one column.
pub open spec fn space(style: Style) -> Cell {
    Cell { ch: ' ', width: 1, style }
}

/// A style without colors or attributes.
pub open spec fn no_style() -> Style {
    Style {
        foreground: Color::Default,
        background: Color::Default,
        bold: false,
        italic: false,
        underline: false,
        reverse: false,
    }
}

/// A control sequence that was kept whole.
pub open spec fn csi(params: Seq<Seq<u16>>, intermediates: Seq<u8>, action: char) -> TokenView {
    TokenView::Csi { params, intermediates, ignore: false, action }
}

/// An escape sequence without intermediate bytes.
pub open spec fn esc(byte: u8) -> TokenView {
    TokenView::Esc { intermediates: Seq::empty(), ignore: false, byte }
}

/// A parameter. One that is not there counts as zero.
pub open spec fn nth(params: Seq<Seq<u16>>, index: int) -> int {
    if index < params.len() && params[index].len() > 0 {
        params[index][0] as int
    } else {
        0
    }
}

/// A parameter that counts something, or is a position. Zero stands for one.
pub open spec fn count_of(params: Seq<Seq<u16>>, index: int) -> int {
    if nth(params, index) == 0 {
        1
    } else {
        nth(params, index)
    }
}

/// The first row that the cursor can be sent to.
pub open spec fn first_row(m: TerminalModel) -> int {
    if m.modes.origin {
        m.scroll_top as int
    } else {
        0
    }
}

/// The last row that the cursor can be sent to.
pub open spec fn last_row(m: TerminalModel) -> int {
    if m.modes.origin {
        m.scroll_bottom as int
    } else {
        m.size.row_count() - 1
    }
}

/// The cursor went somewhere, and nothing else changed.
pub open spec fn only_moves(m: TerminalModel, after: TerminalModel, row: int, col: int) -> bool {
    &&& after == (TerminalModel { cursor: after.cursor, wrap_pending: false, ..m })
    &&& after.cursor.row == row
    &&& after.cursor.col == col
}

/// The screen that can be seen was drawn on, and nothing else changed.
pub open spec fn only_draws(m: TerminalModel, after: TerminalModel) -> bool {
    &&& after == (TerminalModel {
        primary: after.primary,
        alternate: after.alternate,
        touched: true,
        ..m
    })
    &&& m.on_alternate ==> after.primary == m.primary
    &&& !m.on_alternate ==> after.alternate == m.alternate
}

/// Whether a number is the nearest one to `n` from `low` to `high`.
pub open spec fn is_nearest(found: int, n: int, low: int, high: int) -> bool {
    &&& low <= n <= high ==> found == n
    &&& n < low ==> found == low
    &&& n > high ==> found == high
}

/// CUU, CUD, CPL and CNL move the cursor by as many rows as they say, as far as
/// there are rows; CPL and CNL go to the first column.
pub proof fn moving_by_rows(m: TerminalModel, params: Seq<Seq<u16>>, intermediates: Seq<u8>)
    requires
        m.wf(),
    ensures
        ({
            let n = count_of(params, 0);
            let row = m.cursor.row as int;
            let col = m.cursor.col as int;
            let up = m.perform(csi(params, intermediates, 'A'));
            let down = m.perform(csi(params, intermediates, 'B'));
            let next = m.perform(csi(params, intermediates, 'E'));
            let previous = m.perform(csi(params, intermediates, 'F'));
            &&& only_moves(m, up, up.cursor.row as int, col)
            &&& row - n >= first_row(m) ==> up.cursor.row == row - n
            &&& row - n < first_row(m) ==> up.cursor.row == first_row(m)
            &&& only_moves(m, down, down.cursor.row as int, col)
            &&& row + n <= last_row(m) ==> down.cursor.row == row + n
            &&& row + n > last_row(m) ==> down.cursor.row == last_row(m)
            &&& only_moves(m, next, down.cursor.row as int, 0)
            &&& only_moves(m, previous, up.cursor.row as int, 0)
        }),
{
    reveal(TerminalModel::csi);
    reveal(TerminalModel::cursor_up);
    reveal(TerminalModel::cursor_down);
    reveal(TerminalModel::carriage_return);
}

/// CUF and CUB move the cursor by as many columns as they say, as far as there
/// are columns.
pub proof fn moving_by_columns(m: TerminalModel, params: Seq<Seq<u16>>, intermediates: Seq<u8>)
    requires
        m.wf(),
    ensures
        ({
            let n = count_of(params, 0);
            let row = m.cursor.row as int;
            let col = m.cursor.col as int;
            let last = m.size.col_count() - 1;
            let right = m.perform(csi(params, intermediates, 'C'));
            let left = m.perform(csi(params, intermediates, 'D'));
            &&& only_moves(m, right, row, right.cursor.col as int)
            &&& is_nearest(right.cursor.col as int, col + n, 0, last)
            &&& only_moves(m, left, row, left.cursor.col as int)
            &&& is_nearest(left.cursor.col as int, col - n, 0, last)
        }),
{
    reveal(TerminalModel::csi);
    reveal(TerminalModel::cursor_forward);
    reveal(TerminalModel::cursor_backward);
}

/// CUP, HVP, VPA, CHA and HPA send the cursor to a place that is counted from
/// one, in origin mode from the top of the scroll region.
pub proof fn moving_to_a_place(m: TerminalModel, params: Seq<Seq<u16>>, intermediates: Seq<u8>)
    requires
        m.wf(),
    ensures
        ({
            let row = m.cursor.row as int;
            let col = m.cursor.col as int;
            let last = m.size.col_count() - 1;
            let there = m.perform(csi(params, intermediates, 'H'));
            let line = m.perform(csi(params, intermediates, 'd'));
            let column = m.perform(csi(params, intermediates, 'G'));
            let from_top = first_row(m) + count_of(params, 0) - 1;
            &&& only_moves(m, there, there.cursor.row as int, there.cursor.col as int)
            &&& is_nearest(there.cursor.row as int, from_top, first_row(m), last_row(m))
            &&& is_nearest(there.cursor.col as int, count_of(params, 1) - 1, 0, last)
            &&& m.perform(csi(params, intermediates, 'f')) == there
            &&& only_moves(m, line, there.cursor.row as int, col)
            &&& only_moves(m, column, row, column.cursor.col as int)
            &&& is_nearest(column.cursor.col as int, count_of(params, 0) - 1, 0, last)
            &&& m.perform(csi(params, intermediates, '`')) == column
        }),
{
    reveal(TerminalModel::csi);
    reveal(TerminalModel::set_position);
    reveal(TerminalModel::set_row);
    reveal(TerminalModel::set_col);
}

/// A place that the cursor was sent to is where it is reported to be: CUP with
/// the row and the column that CPR gives leaves the cursor where it is.
pub proof fn going_where_the_cursor_is(m: TerminalModel)
    requires
        m.wf(),
        !m.modes.origin,
        m.cursor.row < u16::MAX,
        m.cursor.col < u16::MAX,
    ensures
        ({
            let row = (m.cursor.row + 1) as u16;
            let col = (m.cursor.col + 1) as u16;
            m.perform(csi(seq![seq![row], seq![col]], Seq::empty(), 'H')).cursor == m.cursor
        }),
{
    let params = seq![seq![(m.cursor.row + 1) as u16], seq![(m.cursor.col + 1) as u16]];
    moving_to_a_place(m, params, Seq::empty());
    assert(nth(params, 0) == m.cursor.row + 1);
    assert(nth(params, 1) == m.cursor.col + 1);
}

/// BS goes one column back, CR to the first column, and HT to the next column
/// that is a multiple of eight, as far as there are columns. No other control
/// character but the line feeds does anything.
pub proof fn control_characters(m: TerminalModel, byte: u8)
    requires
        m.wf(),
    ensures
        ({
            let row = m.cursor.row as int;
            let col = m.cursor.col as int;
            let last = m.size.col_count() - 1;
            let after = m.perform(TokenView::Execute(byte));
            let at = after.cursor.col as int;
            &&& byte == 0x08 ==> only_moves(m, after, row, at) && is_nearest(at, col - 1, 0, last)
            &&& byte == 0x0d ==> only_moves(m, after, row, 0)
            &&& byte == 0x09 ==> {
                &&& only_moves(m, after, row, at)
                &&& at <= last
                &&& at % 8 == 0 || at == last
                &&& at > col || at == last
                &&& forall|c: int| #![trigger c % 8] col < c < at ==> c % 8 != 0
            }
            &&& !(0x08 <= byte <= 0x0d) ==> after == m
        }),
{
    reveal(TerminalModel::execute);
    reveal(TerminalModel::backspace);
    reveal(TerminalModel::carriage_return);
    reveal(TerminalModel::horizontal_tab);
}

/// Columns of one row were erased: they are spaces in the style of the pen. The
/// half of a wide glyph that is left beside them is emptied. No other cell of
/// any row changed.
pub open spec fn is_erased(
    before: Seq<Seq<Cell>>,
    after: Seq<Seq<Cell>>,
    row: int,
    start: int,
    end: int,
    pen: Style,
) -> bool {
    &&& after.len() == before.len()
    &&& forall|r: int|
        0 <= r < before.len() ==> (#[trigger] after[r]).len() == before[r].len() && (r != row
            ==> after[r] == before[r])
    &&& forall|c: int|
        0 <= c < before[row].len() ==> #[trigger] after[row][c] == (if start <= c < end {
            space(pen)
        } else if c == start - 1 && before[row][start].width == 0 {
            space(no_style())
        } else if c == end && before[row][end - 1].width == 2 {
            space(no_style())
        } else {
            before[row][c]
        })
}

/// Rows were erased: every cell of them is a space in the style of the pen.
pub open spec fn are_erased(
    before: Seq<Seq<Cell>>,
    after: Seq<Seq<Cell>>,
    start: int,
    end: int,
    pen: Style,
) -> bool {
    &&& after.len() == before.len()
    &&& forall|r: int|
        0 <= r < before.len() ==> (#[trigger] after[r]).len() == before[r].len() && (!(start <= r
            < end) ==> after[r] == before[r])
    &&& forall|r: int, c: int|
        start <= r < end && 0 <= r < before.len() && 0 <= c < before[r].len()
            ==> #[trigger] after[r][c] == space(pen)
}

proof fn lemma_whole(m: TerminalModel)
    requires
        is_whole(m),
    ensures
        m.wf(),
        screen(m).len() == m.size.row_count(),
        forall|r: int|
            0 <= r < screen(m).len() ==> row_is_whole(#[trigger] screen(m)[r]) && screen(m)[r].len()
                == m.size.col_count(),
{
    reveal(is_whole);
    reveal(fills);
    reveal(rows_are_whole);
}

proof fn lemma_filled(m: TerminalModel)
    requires
        m.wf(),
    ensures
        screen(m).len() == m.size.row_count(),
        forall|r: int|
            0 <= r < screen(m).len() ==> (#[trigger] screen(m)[r]).len() == m.size.col_count(),
{
    reveal(fills);
}

proof fn lemma_erase_here(m: TerminalModel, start: int, end: int)
    requires
        is_whole(m),
        0 <= start < m.size.col_count(),
        start < end,
    ensures
        ({
            let after = m.erase_here(start, end);
            let to = if end < m.size.col_count() {
                end
            } else {
                m.size.col_count() as int
            };
            &&& only_draws(m, after)
            &&& is_erased(screen(m), screen(after), m.cursor.row as int, start, to, m.pen)
        }),
{
    reveal(TerminalModel::erase_here);
    lemma_whole(m);
    let row = m.cursor.row as int;
    let cells = screen(m)[row];
    let to = if end < m.size.col_count() {
        end
    } else {
        m.size.col_count() as int
    };
    erasing_whole_glyphs(cells, start, to, m.pen);
    let after = m.erase_here(start, end);
    assert(screen(after)[row] == erase_span(cells, start, to, m.pen));
}

proof fn lemma_erased_row(cells: Seq<Cell>, pen: Style)
    requires
        row_is_whole(cells),
    ensures
        erase_span(cells, 0, cells.len() as int, pen).len() == cells.len(),
        forall|c: int|
            0 <= c < cells.len() ==> #[trigger] erase_span(cells, 0, cells.len() as int, pen)[c]
                == space(pen),
{
    if cells.len() > 0 {
        erasing_whole_glyphs(cells, 0, cells.len() as int, pen);
    }
}

proof fn lemma_erase_rows(m: TerminalModel, start: int, end: int)
    requires
        is_whole(m),
        0 <= start,
    ensures
        only_draws(m, m.erase_rows(start, end)),
        are_erased(screen(m), screen(m.erase_rows(start, end)), start, end, m.pen),
{
    reveal(TerminalModel::erase_rows);
    lemma_whole(m);
    let after = m.erase_rows(start, end);
    assert(screen(after) == erase_row_span(screen(m), start, end, m.pen));
    assert forall|r: int| 0 <= r < screen(m).len() implies (#[trigger] screen(after)[r]).len()
        == screen(m)[r].len() && (!(start <= r < end) ==> screen(after)[r] == screen(m)[r]) by {
        lemma_erased_row(screen(m)[r], m.pen);
    }
    assert forall|r: int, c: int|
        start <= r < end && 0 <= r < screen(m).len() && 0 <= c
            < screen(m)[r].len() implies #[trigger] screen(after)[r][c] == space(m.pen) by {
        lemma_erased_row(screen(m)[r], m.pen);
        assert(row_is_whole(screen(m)[r]));
    }
}

/// EL erases the cursor's row: from the cursor on, up to and with the cursor,
/// or as a whole. ECH erases as many columns as it says from the cursor on.
/// No other row changes, and the cursor stays.
pub proof fn erasing_in_a_line(m: TerminalModel, params: Seq<Seq<u16>>, intermediates: Seq<u8>)
    requires
        is_whole(m),
    ensures
        ({
            let row = m.cursor.row as int;
            let col = m.cursor.col as int;
            let cols = m.size.col_count() as int;
            let line = m.perform(csi(params, intermediates, 'K'));
            let some = m.perform(csi(params, intermediates, 'X'));
            let n = count_of(params, 0);
            let end = if col + n < cols {
                col + n
            } else {
                cols
            };
            &&& nth(params, 0) <= 2 ==> only_draws(m, line)
            &&& nth(params, 0) == 0 ==> is_erased(screen(m), screen(line), row, col, cols, m.pen)
            &&& nth(params, 0) == 1 ==> is_erased(screen(m), screen(line), row, 0, col + 1, m.pen)
            &&& nth(params, 0) == 2 ==> is_erased(screen(m), screen(line), row, 0, cols, m.pen)
            &&& nth(params, 0) > 2 ==> line == m
            &&& only_draws(m, some)
            &&& is_erased(screen(m), screen(some), row, col, end, m.pen)
        }),
{
    reveal(TerminalModel::csi);
    reveal(TerminalModel::erase_line);
    lemma_whole(m);
    let col = m.cursor.col as int;
    let cols = m.size.col_count() as int;
    lemma_erase_here(m, col, cols);
    lemma_erase_here(m, 0, col + 1);
    lemma_erase_here(m, 0, cols);
    lemma_erase_here(m, col, col + count_of(params, 0));
}

/// ED erases the screen: from the cursor to the end, from the beginning to the
/// cursor, or as a whole. The cursor stays. With 3 it erases the history, and
/// nothing else.
pub proof fn erasing_the_display(m: TerminalModel, params: Seq<Seq<u16>>, intermediates: Seq<u8>)
    requires
        is_whole(m),
    ensures
        ({
            let row = m.cursor.row as int;
            let col = m.cursor.col as int;
            let rows = m.size.row_count() as int;
            let cols = m.size.col_count() as int;
            let after = m.perform(csi(params, intermediates, 'J'));
            let before = screen(m);
            let now = screen(after);
            &&& nth(params, 0) <= 2 ==> only_draws(m, after)
            &&& nth(params, 0) <= 2 ==> now.len() == rows && forall|r: int|
                0 <= r < rows ==> (#[trigger] now[r]).len() == cols
            &&& nth(params, 0) == 0 ==> forall|r: int, c: int|
                0 <= r < rows && 0 <= c < cols ==> {
                    &&& r < row ==> #[trigger] now[r][c] == before[r][c]
                    &&& r > row || (r == row && c >= col) ==> now[r][c] == space(m.pen)
                    &&& r == row && c < col - 1 ==> now[r][c] == before[r][c]
                    &&& r == row && c == col - 1 ==> now[r][c] == (if before[row][col].width == 0 {
                        space(no_style())
                    } else {
                        before[r][c]
                    })
                }
            &&& nth(params, 0) == 1 ==> forall|r: int, c: int|
                0 <= r < rows && 0 <= c < cols ==> {
                    &&& r > row ==> #[trigger] now[r][c] == before[r][c]
                    &&& r < row || (r == row && c <= col) ==> now[r][c] == space(m.pen)
                    &&& r == row && c > col + 1 ==> now[r][c] == before[r][c]
                    &&& r == row && c == col + 1 ==> now[r][c] == (if before[row][col].width == 2 {
                        space(no_style())
                    } else {
                        before[r][c]
                    })
                }
            &&& nth(params, 0) == 2 ==> forall|r: int, c: int|
                0 <= r < rows && 0 <= c < cols ==> #[trigger] now[r][c] == space(m.pen)
            &&& nth(params, 0) == 3 ==> after == (TerminalModel { scrollback: Seq::empty(), ..m })
            &&& nth(params, 0) > 3 ==> after == m
        }),
{
    reveal(TerminalModel::csi);
    reveal(TerminalModel::erase_display);
    lemma_whole(m);
    let row = m.cursor.row as int;
    let col = m.cursor.col as int;
    let rows = m.size.row_count() as int;
    let cols = m.size.col_count() as int;
    let after = m.perform(csi(params, intermediates, 'J'));
    let before = screen(m);
    let now = screen(after);
    if nth(params, 0) == 0 {
        let part = m.erase_here(col, cols);
        lemma_erase_here(m, col, cols);
        crate::glyph_laws::glyphs_stay_whole(m, csi(Seq::empty(), Seq::empty(), 'K'));
        assert(part == m.perform(csi(Seq::empty(), Seq::empty(), 'K'))) by {
            reveal(TerminalModel::erase_line);
        }
        lemma_erase_rows(part, row + 1, rows);
        let mid = screen(part);
        assert(after == part.erase_rows(row + 1, rows));
        assert forall|r: int, c: int| 0 <= r < rows && 0 <= c < cols implies {
            &&& r < row ==> #[trigger] now[r][c] == before[r][c]
            &&& r > row || (r == row && c >= col) ==> now[r][c] == space(m.pen)
            &&& r == row && c < col - 1 ==> now[r][c] == before[r][c]
            &&& r == row && c == col - 1 ==> now[r][c] == (if before[row][col].width == 0 {
                space(no_style())
            } else {
                before[r][c]
            })
        } by {
            if r <= row {
                assert(now[r] == mid[r]);
            }
        }
    } else if nth(params, 0) == 1 {
        let part = m.erase_rows(0, row);
        lemma_erase_rows(m, 0, row);
        lemma_part_is_whole(m, row);
        lemma_erase_here(part, 0, col + 1);
        let mid = screen(part);
        assert(mid[row] == before[row]);
        assert forall|r: int, c: int| 0 <= r < rows && 0 <= c < cols implies {
            &&& r > row ==> #[trigger] now[r][c] == before[r][c]
            &&& r < row || (r == row && c <= col) ==> now[r][c] == space(m.pen)
            &&& r == row && c > col + 1 ==> now[r][c] == before[r][c]
            &&& r == row && c == col + 1 ==> now[r][c] == (if before[row][col].width == 2 {
                space(no_style())
            } else {
                before[r][c]
            })
        } by {
            if r != row {
                assert(now[r] == mid[r]);
            }
        }
    } else if nth(params, 0) == 2 {
        lemma_erase_rows(m, 0, rows);
    }
}

proof fn lemma_part_is_whole(m: TerminalModel, end: int)
    requires
        is_whole(m),
    ensures
        is_whole(m.erase_rows(0, end)),
{
    reveal(TerminalModel::erase_rows);
    reveal(is_whole);
    reveal(fills);
    reveal(rows_are_whole);
    let after = m.erase_rows(0, end);
    assert forall|i: int| 0 <= i < screen(after).len() implies row_is_whole(
        #[trigger] screen(after)[i],
    ) && screen(after)[i].len() == m.size.col_count() by {
        assert(row_is_whole(screen(m)[i]));
        lemma_erased_row(screen(m)[i], m.pen);
    }
}

/// Rows from `top` to `bottom` moved up by `n`: each of them holds what was `n`
/// rows below, and the last ones are made of spaces. The other rows stay.
pub open spec fn moved_up(
    before: Seq<Seq<Cell>>,
    after: Seq<Seq<Cell>>,
    top: int,
    bottom: int,
    n: int,
    pen: Style,
) -> bool {
    &&& after.len() == before.len()
    &&& forall|r: int|
        0 <= r < before.len() ==> {
            &&& (#[trigger] after[r]).len() == before[r].len()
            &&& !(top <= r <= bottom) ==> after[r] == before[r]
            &&& top <= r && r + n <= bottom ==> after[r] == before[r + n]
            &&& top <= r <= bottom < r + n ==> forall|c: int|
                0 <= c < before[r].len() ==> #[trigger] after[r][c] == space(pen)
        }
}

/// Rows from `top` to `bottom` moved down by `n`: each of them holds what was
/// `n` rows above, and the first ones are made of spaces. The other rows stay.
pub open spec fn moved_down(
    before: Seq<Seq<Cell>>,
    after: Seq<Seq<Cell>>,
    top: int,
    bottom: int,
    n: int,
    pen: Style,
) -> bool {
    &&& after.len() == before.len()
    &&& forall|r: int|
        0 <= r < before.len() ==> {
            &&& (#[trigger] after[r]).len() == before[r].len()
            &&& !(top <= r <= bottom) ==> after[r] == before[r]
            &&& top <= r - n && r <= bottom ==> after[r] == before[r - n]
            &&& r - n < top <= r <= bottom ==> forall|c: int|
                0 <= c < before[r].len() ==> #[trigger] after[r][c] == space(pen)
        }
}

proof fn lemma_shifts(m: TerminalModel, top: int, bottom: int, n: int)
    requires
        m.wf(),
        0 <= top <= bottom < m.size.row_count(),
        0 <= n <= bottom - top + 1,
    ensures
        moved_up(
            screen(m),
            shift_up(screen(m), top, bottom, n, m.size.col_count() as nat, m.pen),
            top,
            bottom,
            n,
            m.pen,
        ),
        moved_down(
            screen(m),
            shift_down(screen(m), top, bottom, n, m.size.col_count() as nat, m.pen),
            top,
            bottom,
            n,
            m.pen,
        ),
{
    lemma_filled(m);
    let before = screen(m);
    let cols = m.size.col_count() as nat;
    let blank = blank_rows(n as nat, cols, m.pen);
    let up = shift_up(before, top, bottom, n, cols, m.pen);
    let down = shift_down(before, top, bottom, n, cols, m.pen);
    assert forall|r: int| 0 <= r < before.len() implies {
        &&& (#[trigger] up[r]).len() == before[r].len()
        &&& !(top <= r <= bottom) ==> up[r] == before[r]
        &&& top <= r && r + n <= bottom ==> up[r] == before[r + n]
        &&& top <= r <= bottom < r + n ==> forall|c: int|
            0 <= c < before[r].len() ==> #[trigger] up[r][c] == space(m.pen)
    } by {
        if top <= r && r + n <= bottom {
            assert(up[r] == before[r + n]);
        } else if top <= r <= bottom {
            assert(up[r] == blank[r - (bottom + 1 - n)]);
            assert(up[r] == blank_cells(cols, m.pen));
        } else {
            assert(up[r] == before[r]);
        }
    }
    assert forall|r: int| 0 <= r < before.len() implies {
        &&& (#[trigger] down[r]).len() == before[r].len()
        &&& !(top <= r <= bottom) ==> down[r] == before[r]
        &&& top <= r - n && r <= bottom ==> down[r] == before[r - n]
        &&& r - n < top <= r <= bottom ==> forall|c: int|
            0 <= c < before[r].len() ==> #[trigger] down[r][c] == space(m.pen)
    } by {
        if top <= r - n && r <= bottom {
            assert(down[r] == before[r - n]);
        } else if top <= r <= bottom {
            assert(down[r] == blank[r - top]);
            assert(down[r] == blank_cells(cols, m.pen));
        } else {
            assert(down[r] == before[r]);
        }
    }
}

/// What a scroll leaves of the rest of the state: what left the top of the
/// whole primary screen is at the end of the history, row by row.
pub open spec fn scrolls_into_history(m: TerminalModel, after: TerminalModel, n: int) -> bool {
    let rows = m.size.row_count() as int;
    let gone = if n < rows {
        n
    } else {
        rows
    };
    &&& only_draws(m, TerminalModel { scrollback: m.scrollback, ..after })
    &&& if !m.on_alternate && m.scroll_top == 0 && m.scroll_bottom == rows - 1 {
        &&& after.scrollback.len() == m.scrollback.len() + gone
        &&& forall|i: int|
            0 <= i < m.scrollback.len() ==> #[trigger] after.scrollback[i] == m.scrollback[i]
        &&& forall|i: int|
            0 <= i < gone ==> #[trigger] m.primary[i] == after.scrollback[m.scrollback.len() + i]
    } else {
        after.scrollback == m.scrollback
    }
}

proof fn lemma_scrolls(m: TerminalModel, n: int)
    requires
        is_whole(m),
        n > 0,
    ensures
        scrolls_into_history(m, m.scroll_up(n), n),
        moved_up(
            screen(m),
            screen(m.scroll_up(n)),
            m.scroll_top as int,
            m.scroll_bottom as int,
            n,
            m.pen,
        ),
        only_draws(m, m.scroll_down(n)),
        moved_down(
            screen(m),
            screen(m.scroll_down(n)),
            m.scroll_top as int,
            m.scroll_bottom as int,
            n,
            m.pen,
        ),
{
    reveal(TerminalModel::scroll_up);
    reveal(TerminalModel::scroll_down);
    lemma_whole(m);
    let top = m.scroll_top as int;
    let bottom = m.scroll_bottom as int;
    if n > bottom - top {
        let erased = erase_row_span(screen(m), top, bottom + 1, m.pen);
        assert(screen(m.scroll_up(n)) == erased);
        assert(screen(m.scroll_down(n)) == erased);
        assert forall|r: int| 0 <= r < screen(m).len() implies {
            &&& (#[trigger] erased[r]).len() == screen(m)[r].len()
            &&& !(top <= r <= bottom) ==> erased[r] == screen(m)[r]
            &&& top <= r <= bottom ==> forall|c: int|
                0 <= c < screen(m)[r].len() ==> #[trigger] erased[r][c] == space(m.pen)
        } by {
            assert(row_is_whole(screen(m)[r]));
            lemma_erased_row(screen(m)[r], m.pen);
        }
    } else {
        lemma_shifts(m, top, bottom, n);
    }
}

/// SU moves the rows of the scroll region up by as many rows as it says, and
/// SD moves them down. Spaces in the style of the pen come in. The cursor
/// stays. What leaves the top of the whole primary screen becomes history.
pub proof fn scrolling(m: TerminalModel, params: Seq<Seq<u16>>, intermediates: Seq<u8>)
    requires
        is_whole(m),
    ensures
        ({
            let n = count_of(params, 0);
            let top = m.scroll_top as int;
            let bottom = m.scroll_bottom as int;
            let up = m.perform(csi(params, intermediates, 'S'));
            let down = m.perform(csi(params, intermediates, 'T'));
            &&& scrolls_into_history(m, up, n)
            &&& moved_up(screen(m), screen(up), top, bottom, n, m.pen)
            &&& only_draws(m, down)
            &&& moved_down(screen(m), screen(down), top, bottom, n, m.pen)
        }),
{
    reveal(TerminalModel::csi);
    lemma_scrolls(m, count_of(params, 0));
}

/// A line feed goes one row down. At the bottom of the scroll region it scrolls
/// the region up by one row instead; on the last row below the region it does
/// nothing. LF, VT, FF and IND are all the same, and NEL goes to the first
/// column as well.
pub proof fn feeding_lines(m: TerminalModel, byte: u8)
    requires
        is_whole(m),
        0x0a <= byte <= 0x0c,
    ensures
        ({
            let after = m.perform(TokenView::Execute(byte));
            let row = m.cursor.row as int;
            let col = m.cursor.col as int;
            let still = TerminalModel { wrap_pending: false, ..m };
            &&& m.perform(esc(0x44)) == after
            &&& m.perform(esc(0x45)) == m.perform(TokenView::Execute(0x0d)).perform(
                TokenView::Execute(byte),
            )
            &&& row == m.scroll_bottom ==> {
                &&& scrolls_into_history(still, after, 1)
                &&& moved_up(
                    screen(m),
                    screen(after),
                    m.scroll_top as int,
                    m.scroll_bottom as int,
                    1,
                    m.pen,
                )
            }
            &&& row != m.scroll_bottom && row < m.size.row_count() - 1 ==> only_moves(
                m,
                after,
                row + 1,
                col,
            )
            &&& row != m.scroll_bottom && row == m.size.row_count() - 1 ==> only_moves(
                m,
                after,
                row,
                col,
            )
        }),
{
    reveal(TerminalModel::execute);
    reveal(TerminalModel::escape);
    reveal(TerminalModel::line_feed);
    lemma_whole(m);
    let still = m.drop_wrap();
    assert(is_whole(still)) by {
        reveal(is_whole);
    }
    lemma_scrolls(still, 1);
}

/// RI goes one row up. At the top of the scroll region it scrolls the region
/// down by one row instead; on the first row above the region it does nothing.
pub proof fn reversing_lines(m: TerminalModel)
    requires
        is_whole(m),
    ensures
        ({
            let after = m.perform(esc(0x4d));
            let row = m.cursor.row as int;
            let col = m.cursor.col as int;
            let still = TerminalModel { wrap_pending: false, ..m };
            &&& row == m.scroll_top ==> {
                &&& only_draws(still, after)
                &&& moved_down(
                    screen(m),
                    screen(after),
                    m.scroll_top as int,
                    m.scroll_bottom as int,
                    1,
                    m.pen,
                )
            }
            &&& row != m.scroll_top && row > 0 ==> only_moves(m, after, row - 1, col)
            &&& row != m.scroll_top && row == 0 ==> only_moves(m, after, 0, col)
        }),
{
    reveal(TerminalModel::escape);
    reveal(TerminalModel::reverse_index);
    lemma_whole(m);
    let still = m.drop_wrap();
    assert(is_whole(still)) by {
        reveal(is_whole);
    }
    lemma_scrolls(still, 1);
}

/// IL puts as many rows of spaces in at the cursor's row as it says, and DL
/// takes as many rows out there. What is below moves, as far as the bottom of
/// the scroll region. Outside of the region they do nothing.
pub proof fn inserting_and_deleting_lines(
    m: TerminalModel,
    params: Seq<Seq<u16>>,
    intermediates: Seq<u8>,
)
    requires
        m.wf(),
    ensures
        ({
            let n = count_of(params, 0);
            let row = m.cursor.row as int;
            let bottom = m.scroll_bottom as int;
            let inserted = m.perform(csi(params, intermediates, 'L'));
            let deleted = m.perform(csi(params, intermediates, 'M'));
            if m.scroll_top <= row <= bottom {
                &&& only_draws(m, inserted)
                &&& moved_down(screen(m), screen(inserted), row, bottom, n, m.pen)
                &&& only_draws(m, deleted)
                &&& moved_up(screen(m), screen(deleted), row, bottom, n, m.pen)
            } else {
                inserted == m && deleted == m
            }
        }),
{
    reveal(TerminalModel::csi);
    reveal(TerminalModel::insert_lines);
    reveal(TerminalModel::delete_lines);
    let n = count_of(params, 0);
    let row = m.cursor.row as int;
    let bottom = m.scroll_bottom as int;
    if m.scroll_top <= row <= bottom {
        let count = if n < bottom - row + 1 {
            n
        } else {
            bottom - row + 1
        };
        lemma_shifts(m, row, bottom, count);
    }
}

/// A cell that ends up in the last column: the leading half of a wide glyph
/// does not stay there alone.
pub open spec fn at_edge(cell: Cell, last: bool) -> Cell {
    if last && cell.width == 2 {
        space(no_style())
    } else {
        cell
    }
}

/// Spaces came in at a column of the cursor's row, and what was there moved to
/// the right.
pub open spec fn moved_right(m: TerminalModel, after: TerminalModel, n: int) -> bool {
    let row = m.cursor.row as int;
    let col = m.cursor.col as int;
    let cells = screen(m)[row];
    let now = screen(after)[row];
    &&& screen(after).len() == screen(m).len()
    &&& forall|r: int|
        0 <= r < screen(m).len() && r != row ==> #[trigger] screen(after)[r] == screen(m)[r]
    &&& now.len() == cells.len()
    &&& forall|c: int|
        0 <= c < cells.len() ==> #[trigger] now[c] == at_edge(
            if c < col {
                cells[c]
            } else if c < col + n {
                space(m.pen)
            } else {
                cells[c - n]
            },
            c == cells.len() - 1,
        )
}

/// Cells went out at a column of the cursor's row, and what was on the right of
/// them moved there.
pub open spec fn moved_left(m: TerminalModel, after: TerminalModel, n: int) -> bool {
    let row = m.cursor.row as int;
    let col = m.cursor.col as int;
    let cells = screen(m)[row];
    let now = screen(after)[row];
    &&& screen(after).len() == screen(m).len()
    &&& forall|r: int|
        0 <= r < screen(m).len() && r != row ==> #[trigger] screen(after)[r] == screen(m)[r]
    &&& now.len() == cells.len()
    &&& forall|c: int|
        0 <= c < cells.len() ==> #[trigger] now[c] == at_edge(
            if c < col {
                cells[c]
            } else if c + n < cells.len() {
                cells[c + n]
            } else {
                space(m.pen)
            },
            c == cells.len() - 1,
        )
}

/// ICH puts as many spaces in at the cursor as it says, and DCH takes as many
/// cells out there. No other row changes, and the cursor stays.
pub proof fn inserting_and_deleting_characters(
    m: TerminalModel,
    params: Seq<Seq<u16>>,
    intermediates: Seq<u8>,
)
    requires
        m.wf(),
    ensures
        ({
            let n = count_of(params, 0);
            let inserted = m.perform(csi(params, intermediates, '@'));
            let deleted = m.perform(csi(params, intermediates, 'P'));
            &&& only_draws(m, inserted)
            &&& moved_right(m, inserted, n)
            &&& only_draws(m, deleted)
            &&& moved_left(m, deleted, n)
        }),
{
    reveal(TerminalModel::csi);
    reveal(TerminalModel::insert_chars);
    reveal(TerminalModel::delete_chars);
    lemma_filled(m);
}

/// What erasing leaves of a row, whatever it holds: spaces where it erased, in
/// the style of the pen or in none, and beside them at most one cell on each
/// side that was emptied.
pub open spec fn is_erased_somehow(
    before: Seq<Cell>,
    after: Seq<Cell>,
    start: int,
    end: int,
    pen: Style,
) -> bool {
    &&& after.len() == before.len()
    &&& forall|c: int|
        0 <= c < before.len() ==> {
            &&& start <= c < end ==> #[trigger] after[c] == space(pen) || after[c] == space(
                no_style(),
            )
            &&& c == end - 1 ==> after[c] == space(pen)
            &&& c == start - 1 || c == end ==> after[c] == before[c] || after[c] == space(
                no_style(),
            )
            &&& c < start - 1 || c > end ==> after[c] == before[c]
        }
}

proof fn lemma_erased_somehow(row: Seq<Cell>, start: int, end: int, pen: Style)
    requires
        0 <= start < end <= row.len(),
    ensures
        is_erased_somehow(row, erase_span(row, start, end, pen), start, end, pen),
    decreases end - start,
{
    lemma_erase_span_len(row, start, end, pen);
    lemma_erase_span_len(row, start, end - 1, pen);
    if start < end - 1 {
        lemma_erased_somehow(row, start, end - 1, pen);
    } else {
        assert(erase_span(row, start, end - 1, pen) == row);
    }
    let before = erase_span(row, start, end - 1, pen);
    let after = erase_span(row, start, end, pen);
    assert(after == clear_glyph(before, end - 1).update(end - 1, space(pen)));
    assert forall|c: int| 0 <= c < row.len() implies {
        &&& start <= c < end ==> #[trigger] after[c] == space(pen) || after[c] == space(no_style())
        &&& c == end - 1 ==> after[c] == space(pen)
        &&& c == start - 1 || c == end ==> after[c] == row[c] || after[c] == space(no_style())
        &&& c < start - 1 || c > end ==> after[c] == row[c]
    } by {
        assert(start < end - 1 && start <= c < end - 1 ==> before[c] == space(pen) || before[c]
            == space(no_style()));
    }
}

/// EL and ECH erase as they say also where the row holds halves of glyphs that
/// are on their own.
pub proof fn erasing_in_any_line(m: TerminalModel, params: Seq<Seq<u16>>, intermediates: Seq<u8>)
    requires
        m.wf(),
    ensures
        ({
            let row = m.cursor.row as int;
            let col = m.cursor.col as int;
            let cols = m.size.col_count() as int;
            let line = m.perform(csi(params, intermediates, 'K'));
            let some = m.perform(csi(params, intermediates, 'X'));
            let n = count_of(params, 0);
            let end = if col + n < cols {
                col + n
            } else {
                cols
            };
            let cells = screen(m)[row];
            &&& nth(params, 0) <= 2 ==> only_draws(m, line) && screen(line)
                == screen(m).update(row, screen(line)[row])
            &&& nth(params, 0) == 0 ==> is_erased_somehow(
                cells,
                screen(line)[row],
                col,
                cols,
                m.pen,
            )
            &&& nth(params, 0) == 1 ==> is_erased_somehow(
                cells,
                screen(line)[row],
                0,
                col + 1,
                m.pen,
            )
            &&& nth(params, 0) == 2 ==> is_erased_somehow(cells, screen(line)[row], 0, cols, m.pen)
            &&& only_draws(m, some) && screen(some) == screen(m).update(row, screen(some)[row])
            &&& is_erased_somehow(cells, screen(some)[row], col, end, m.pen)
        }),
{
    reveal(TerminalModel::csi);
    reveal(TerminalModel::erase_line);
    reveal(TerminalModel::erase_here);
    lemma_filled(m);
    let row = m.cursor.row as int;
    let col = m.cursor.col as int;
    let cols = m.size.col_count() as int;
    let n = count_of(params, 0);
    let end = if col + n < cols {
        col + n
    } else {
        cols
    };
    let cells = screen(m)[row];
    lemma_erased_somehow(cells, col, cols, m.pen);
    lemma_erased_somehow(cells, 0, col + 1, m.pen);
    lemma_erased_somehow(cells, 0, cols, m.pen);
    lemma_erased_somehow(cells, col, end, m.pen);
    let line = m.perform(csi(params, intermediates, 'K'));
    let some = m.perform(csi(params, intermediates, 'X'));
    assert(screen(some) == screen(m).update(row, erase_span(cells, col, end, m.pen)));
    assert(screen(some) =~= screen(m).update(row, screen(some)[row]));
    if nth(params, 0) <= 2 {
        assert(screen(line) =~= screen(m).update(row, screen(line)[row]));
    }
}

/// The columns that a character takes up: none for a control character or one
/// of zero width, two for a wide one, and one for all others.
pub open spec fn columns_of(ch: char) -> int {
    match unicode_columns(ch) {
        None => 0,
        Some(n) => if n == 0 {
            0
        } else if n == 2 {
            2
        } else {
            1
        },
    }
}

/// A character is drawn at the cursor in the style of the pen, a wide one over
/// two cells. The other half of a wide glyph that it covers in part is emptied,
/// and no other cell changes. The cursor goes on behind it; in the last column
/// it stays, and the next character wraps where it may.
pub proof fn drawing_a_character(m: TerminalModel, ch: char)
    requires
        m.wf(),
        glyphs_are_whole(screen(m)[m.cursor.row as int]),
        !m.modes.insert,
        !(m.wrap_pending && m.modes.autowrap),
        columns_of(ch) > 0,
        m.cursor.col + columns_of(ch) <= m.size.col_count(),
    ensures
        ({
            let w = columns_of(ch);
            let row = m.cursor.row as int;
            let col = m.cursor.col as int;
            let cols = m.size.col_count() as int;
            let after = m.perform(TokenView::Print(ch));
            let cells = screen(m)[row];
            let now = screen(after)[row];
            &&& only_draws(
                m,
                TerminalModel { cursor: m.cursor, wrap_pending: m.wrap_pending, ..after },
            )
            &&& screen(after).len() == screen(m).len()
            &&& forall|r: int|
                0 <= r < screen(m).len() && r != row ==> #[trigger] screen(after)[r]
                    == screen(m)[r]
            &&& now.len() == cols
            &&& forall|c: int|
                0 <= c < cols ==> #[trigger] now[c] == (if c == col {
                    Cell { ch, width: w as u8, style: m.pen }
                } else if w == 2 && c == col + 1 {
                    Cell { ch: ' ', width: 0, style: m.pen }
                } else if c == col - 1 && cells[col].width == 0 {
                    space(no_style())
                } else if c == col + w && cells[col + w - 1].width == 2 {
                    space(no_style())
                } else {
                    cells[c]
                })
            &&& after.cursor.row == row
            &&& col + w < cols ==> after.cursor.col == col + w && !after.wrap_pending
            &&& col + w == cols ==> after.cursor.col == cols - 1 && after.wrap_pending
                == m.modes.autowrap
        }),
{
    lemma_filled(m);
    let w = columns_of(ch);
    let row = m.cursor.row as int;
    let col = m.cursor.col as int;
    let cells = screen(m)[row];
    lemma_drawn_row(cells, col, ch, w as u8, m.pen);
    let after = m.perform(TokenView::Print(ch));
    let ready = m.drop_wrap();
    assert(after == ready.place(ch, w)) by {
        reveal(TerminalModel::print);
        reveal(TerminalModel::finish_wrap);
        reveal(TerminalModel::make_room);
    }
    reveal(TerminalModel::place);
    assert(screen(after) == screen(m).update(row, draw_glyph(cells, col, ch, w as u8, m.pen)));
}

/// What a row is once a glyph was drawn on it.
spec fn drawn_cell(cells: Seq<Cell>, col: int, ch: char, w: u8, pen: Style, c: int) -> Cell {
    if c == col {
        Cell { ch, width: w, style: pen }
    } else if w == 2 && c == col + 1 {
        Cell { ch: ' ', width: 0, style: pen }
    } else if c == col - 1 && cells[col].width == 0 {
        space(no_style())
    } else if c == col + w && cells[col + w - 1].width == 2 {
        space(no_style())
    } else {
        cells[c]
    }
}

proof fn lemma_drawn_row(cells: Seq<Cell>, col: int, ch: char, w: u8, pen: Style)
    requires
        glyphs_are_whole(cells),
        1 <= w <= 2,
        0 <= col,
        col + w <= cells.len(),
    ensures
        draw_glyph(cells, col, ch, w, pen).len() == cells.len(),
        forall|c: int|
            0 <= c < cells.len() ==> #[trigger] draw_glyph(cells, col, ch, w, pen)[c] == drawn_cell(
                cells,
                col,
                ch,
                w,
                pen,
                c,
            ),
{
    assert(cells[col].width == 0 ==> col > 0 && cells[col - 1].width == 2);
    assert(cells[col].width == 2 ==> col + 1 < cells.len() && cells[col + 1].width == 0);
    let one = clear_glyph(cells, col);
    assert(one.len() == cells.len());
    if w == 2 {
        assert(cells[col + 1].width == 2 ==> col + 2 < cells.len() && cells[col + 2].width == 0);
        assert(cells[col + 1].width == 0 ==> cells[col].width == 2);
        assert(one[col + 1] == if cells[col].width == 2 {
            space(no_style())
        } else {
            cells[col + 1]
        });
        assert(col + 2 < cells.len() ==> one[col + 2] == cells[col + 2]);
        assert(clear_glyph(one, col + 1).len() == cells.len());
    }
}

/// A character without columns leaves everything as it is.
pub proof fn drawing_nothing(m: TerminalModel, ch: char)
    requires
        columns_of(ch) == 0,
    ensures
        m.perform(TokenView::Print(ch)) == m,
{
    reveal(TerminalModel::print);
}

/// A character that is due to wrap, or that the rest of the row has no room
/// for, is drawn as if a carriage return and a line feed came before it. Where
/// nothing wraps, a wide character is not drawn in the last column.
pub proof fn wrapping(m: TerminalModel, ch: char)
    requires
        m.wf(),
        columns_of(ch) > 0,
    ensures
        ({
            let w = columns_of(ch);
            let cols = m.size.col_count() as int;
            let after = m.perform(TokenView::Print(ch));
            let next = m.perform(TokenView::Execute(0x0d)).perform(TokenView::Execute(0x0a));
            &&& m.modes.autowrap && m.wrap_pending ==> after == next.perform(TokenView::Print(ch))
            &&& m.modes.autowrap && w <= cols < m.cursor.col + w ==> after == next.perform(
                TokenView::Print(ch),
            )
            &&& !m.modes.autowrap && cols < m.cursor.col + w ==> only_moves(
                m,
                after,
                m.cursor.row as int,
                cols - 1,
            )
        }),
{
    reveal(TerminalModel::print);
    reveal(TerminalModel::finish_wrap);
    reveal(TerminalModel::make_room);
    reveal(TerminalModel::execute);
    let next = m.carriage_return().line_feed();
    assert(!next.wrap_pending && next.modes == m.modes && next.size == m.size && (next.cursor.col
        == 0)) by {
        reveal(TerminalModel::carriage_return);
        reveal(TerminalModel::line_feed);
        reveal(TerminalModel::scroll_up);
    }
    assert(next.drop_wrap() == next);
    let dropped = m.drop_wrap();
    assert(dropped.carriage_return() == m.carriage_return()) by {
        reveal(TerminalModel::carriage_return);
    }
}

/// In insert mode a character is drawn as it is in replace mode, once as many
/// spaces as it has columns were put in at the cursor.
pub proof fn drawing_in_insert_mode(m: TerminalModel, ch: char)
    requires
        m.wf(),
        m.modes.insert,
        !(m.wrap_pending && m.modes.autowrap),
        columns_of(ch) > 0,
        m.cursor.col + columns_of(ch) <= m.size.col_count(),
    ensures
        ({
            let made = m.perform(csi(seq![seq![columns_of(ch) as u16]], Seq::empty(), '@'));
            let replacing = TerminalModel {
                modes: TerminalModes { insert: false, ..m.modes },
                ..made
            };
            m.perform(TokenView::Print(ch)) == (TerminalModel {
                modes: m.modes,
                ..replacing.perform(TokenView::Print(ch))
            })
        }),
{
    let w = columns_of(ch);
    let params = seq![seq![w as u16]];
    let made = m.perform(csi(params, Seq::empty(), '@'));
    assert(made == m.insert_chars(w)) by {
        reveal(TerminalModel::csi);
        assert(params[0][0] == w);
    }
    let replacing = TerminalModel { modes: TerminalModes { insert: false, ..m.modes }, ..made };
    assert(m.perform(TokenView::Print(ch)) == m.drop_wrap().place(ch, w)) by {
        reveal(TerminalModel::print);
        reveal(TerminalModel::finish_wrap);
        reveal(TerminalModel::make_room);
    }
    assert(only_draws(m, made)) by {
        reveal(TerminalModel::insert_chars);
    }
    assert(replacing.perform(TokenView::Print(ch)) == replacing.drop_wrap().place(ch, w)) by {
        reveal(TerminalModel::print);
        reveal(TerminalModel::finish_wrap);
        reveal(TerminalModel::make_room);
    }
    assert(m.drop_wrap().insert_chars(w) == made.drop_wrap()) by {
        reveal(TerminalModel::insert_chars);
    }
    let ready = made.drop_wrap();
    assert(ready.active() == replacing.drop_wrap().active());
    reveal(TerminalModel::place);
    assert(m.drop_wrap().place(ch, w) == (TerminalModel {
        modes: m.modes,
        ..replacing.drop_wrap().place(ch, w)
    }));
}

} // verus!
