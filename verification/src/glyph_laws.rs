//! What every operation of the emulator keeps: a state that is well-formed and
//! shows whole glyphs only.

use vstd::prelude::*;

use crate::size::Size;
use crate::terminal_buffer::{
    blank_cells, blank_rows, clear_glyph, draw_glyph, erase_in_row, erase_row_span, erase_span,
    fills, resized, resized_cell, scroll_region_down, scroll_region_up,
    shift_down, shift_up,
};
use crate::terminal_laws::{erasing_whole_glyphs, glyphs_are_whole};
use crate::terminal_model::{flat_params, least, narrow, param, TerminalModel};
use crate::terminal_types::{Cell, MouseReporting, Style, TerminalModes};
use crate::tokenizer::{shown_columns, unicode_columns, TokenView};

verus! {

/// A row of whole glyphs, none of them wider than two columns.
pub open spec fn row_is_whole(row: Seq<Cell>) -> bool {
    &&& glyphs_are_whole(row)
    &&& forall|i: int| 0 <= i < row.len() ==> (#[trigger] row[i]).width <= 2
}

/// Every row of a list of rows is made of whole glyphs.
#[verifier::opaque]
pub open spec fn rows_are_whole(rows: Seq<Seq<Cell>>) -> bool {
    forall|i: int| 0 <= i < rows.len() ==> row_is_whole(#[trigger] rows[i])
}

/// A well-formed state whose screens and history show whole glyphs only.
#[verifier::opaque]
pub open spec fn is_whole(m: TerminalModel) -> bool {
    &&& m.wf()
    &&& rows_are_whole(m.primary)
    &&& rows_are_whole(m.alternate)
    &&& rows_are_whole(m.scrollback)
}

proof fn lemma_blank_rows(count: nat, cols: nat, style: Style)
    ensures
        rows_are_whole(blank_rows(count, cols, style)),
{
    reveal(rows_are_whole);
    assert forall|i: int| 0 <= i < count implies row_is_whole(
        #[trigger] blank_rows(count, cols, style)[i],
    ) by {
        let row = blank_cells(cols, style);
        assert(forall|k: int| 0 <= k < cols ==> (#[trigger] row[k]).width == 1);
    }
}

/// Emptying a glyph leaves whole glyphs, and a narrow one where it was.
proof fn lemma_clear_glyph(row: Seq<Cell>, col: int)
    requires
        row_is_whole(row),
        0 <= col < row.len(),
    ensures
        row_is_whole(clear_glyph(row, col)),
        clear_glyph(row, col).len() == row.len(),
        clear_glyph(row, col)[col].width == 1,
        col > 0 && row[col - 1].width == 1 ==> clear_glyph(row, col)[col - 1].width == 1,
{
    let after = clear_glyph(row, col);
    assert(row[col].width == 0 ==> row[col - 1].width == 2);
    assert(row[col].width == 2 ==> row[col + 1].width == 0);
    assert forall|i: int| 0 <= i < after.len() implies {
        &&& (#[trigger] after[i]).width == 0 ==> i > 0 && after[i - 1].width == 2
        &&& after[i].width == 2 ==> i + 1 < after.len() && after[i + 1].width == 0
        &&& after[i].width <= 2
    } by {
        assert(row[i].width <= 2);
        if i > 0 {
            assert(row[i - 1].width <= 2);
        }
        if i + 1 < row.len() {
            assert(row[i + 1].width <= 2);
        }
    }
}

proof fn lemma_draw_glyph(row: Seq<Cell>, col: int, ch: char, width: u8, style: Style)
    requires
        row_is_whole(row),
        0 <= col,
        1 <= width <= 2,
        col + width <= row.len(),
    ensures
        row_is_whole(draw_glyph(row, col, ch, width, style)),
        draw_glyph(row, col, ch, width, style).len() == row.len(),
{
    let after = draw_glyph(row, col, ch, width, style);
    lemma_clear_glyph(row, col);
    let one = clear_glyph(row, col);
    let ready = if width == 2 {
        lemma_clear_glyph(one, col + 1);
        clear_glyph(one, col + 1)
    } else {
        one
    };
    assert forall|i: int| 0 <= i < after.len() implies {
        &&& (#[trigger] after[i]).width == 0 ==> i > 0 && after[i - 1].width == 2
        &&& after[i].width == 2 ==> i + 1 < after.len() && after[i + 1].width == 0
        &&& after[i].width <= 2
    } by {
        assert(ready[i].width <= 2);
        if i > 0 {
            assert(ready[i - 1].width <= 2);
        }
        if i + 1 < row.len() {
            assert(ready[i + 1].width <= 2);
        }
    }
}

proof fn lemma_erase_span(row: Seq<Cell>, start: int, end: int, style: Style)
    requires
        row_is_whole(row),
        0 <= start,
        end <= row.len(),
    ensures
        row_is_whole(erase_span(row, start, end, style)),
        erase_span(row, start, end, style).len() == row.len(),
{
    if start < end {
        erasing_whole_glyphs(row, start, end, style);
        let after = erase_span(row, start, end, style);
        assert forall|i: int| 0 <= i < after.len() implies {
            &&& (#[trigger] after[i]).width == 0 ==> i > 0 && after[i - 1].width == 2
            &&& after[i].width == 2 ==> i + 1 < after.len() && after[i + 1].width == 0
            &&& after[i].width <= 2
        } by {
            assert(row[i].width <= 2);
            if i > 0 {
                assert(row[i - 1].width <= 2);
            }
            if i + 1 < row.len() {
                assert(row[i + 1].width <= 2);
            }
        }
    }
}

/// A grid of whole glyphs that fills a size.
spec fn grid_is_whole(grid: Seq<Seq<Cell>>, size: Size) -> bool {
    fills(grid, size) && rows_are_whole(grid)
}

proof fn lemma_erase_rows(grid: Seq<Seq<Cell>>, size: Size, start: int, end: int, style: Style)
    requires
        grid_is_whole(grid, size),
    ensures
        grid_is_whole(erase_row_span(grid, start, end, style), size),
{
    reveal(fills);
    reveal(rows_are_whole);
    let after = erase_row_span(grid, start, end, style);
    assert forall|i: int| 0 <= i < after.len() implies (#[trigger] after[i]).len()
        == size.col_count() && row_is_whole(after[i]) by {
        assert(row_is_whole(grid[i]));
        lemma_erase_span(grid[i], 0, grid[i].len() as int, style);
    }
}

proof fn lemma_update_row(grid: Seq<Seq<Cell>>, size: Size, row: int, cells: Seq<Cell>)
    requires
        grid_is_whole(grid, size),
        0 <= row < size.row_count(),
        row_is_whole(cells),
        cells.len() == size.col_count(),
    ensures
        grid_is_whole(grid.update(row, cells), size),
{
    reveal(fills);
    reveal(rows_are_whole);
}

proof fn lemma_erase_in_row(
    grid: Seq<Seq<Cell>>,
    size: Size,
    row: int,
    start: int,
    end: int,
    style: Style,
)
    requires
        grid_is_whole(grid, size),
        0 <= row < size.row_count(),
        0 <= start,
    ensures
        grid_is_whole(erase_in_row(grid, row, start, end, style), size),
{
    reveal(fills);
    reveal(rows_are_whole);
    let cols = grid[row].len() as int;
    assert(row_is_whole(grid[row]));
    lemma_erase_span(grid[row], least(start, cols), least(end, cols), style);
    lemma_update_row(
        grid,
        size,
        row,
        erase_span(grid[row], least(start, cols), least(end, cols), style),
    );
}

proof fn lemma_shift(
    grid: Seq<Seq<Cell>>,
    size: Size,
    top: int,
    bottom: int,
    count: int,
    style: Style,
)
    requires
        grid_is_whole(grid, size),
        0 <= top <= bottom < size.row_count(),
        0 <= count <= bottom - top + 1,
    ensures
        grid_is_whole(shift_up(grid, top, bottom, count, size.col_count() as nat, style), size),
        grid_is_whole(shift_down(grid, top, bottom, count, size.col_count() as nat, style), size),
{
    reveal(fills);
    reveal(rows_are_whole);
    let cols = size.col_count() as nat;
    let blank = blank_rows(count as nat, cols, style);
    lemma_blank_rows(count as nat, cols, style);
    let up = shift_up(grid, top, bottom, count, cols, style);
    assert forall|i: int| 0 <= i < up.len() implies (#[trigger] up[i]).len() == cols
        && row_is_whole(up[i]) by {
        if i < top {
            assert(up[i] == grid[i]);
        } else if i < bottom + 1 - count {
            assert(up[i] == grid[i + count]);
        } else if i < bottom + 1 {
            assert(up[i] == blank[i - (bottom + 1 - count)]);
        } else {
            assert(up[i] == grid[i]);
        }
    }
    let down = shift_down(grid, top, bottom, count, cols, style);
    assert forall|i: int| 0 <= i < down.len() implies (#[trigger] down[i]).len() == cols
        && row_is_whole(down[i]) by {
        if i < top {
            assert(down[i] == grid[i]);
        } else if i < top + count {
            assert(down[i] == blank[i - top]);
        } else if i < bottom + 1 {
            assert(down[i] == grid[i - count]);
        } else {
            assert(down[i] == grid[i]);
        }
    }
}

proof fn lemma_scroll(
    grid: Seq<Seq<Cell>>,
    size: Size,
    top: int,
    bottom: int,
    count: int,
    style: Style,
)
    requires
        grid_is_whole(grid, size),
        0 <= top <= bottom < size.row_count(),
        0 <= count,
    ensures
        grid_is_whole(
            scroll_region_up(grid, top, bottom, count, size.col_count() as nat, style),
            size,
        ),
        grid_is_whole(
            scroll_region_down(grid, top, bottom, count, size.col_count() as nat, style),
            size,
        ),
{
    if count > bottom - top {
        lemma_erase_rows(grid, size, top, bottom + 1, style);
    } else {
        lemma_shift(grid, size, top, bottom, count, style);
    }
}

proof fn lemma_resized(grid: Seq<Seq<Cell>>, from: Size, to: Size)
    requires
        grid_is_whole(grid, from),
        to.addressable(),
    ensures
        grid_is_whole(
            resized(
                grid,
                from.col_count() as int,
                to.row_count() as nat,
                to.col_count() as nat,
            ),
            to,
        ),
{
    reveal(fills);
    reveal(rows_are_whole);
    let old_cols = from.col_count() as int;
    let cols = to.col_count() as int;
    let after = resized(grid, old_cols, to.row_count() as nat, cols as nat);
    assert forall|r: int| 0 <= r < after.len() implies row_is_whole(#[trigger] after[r]) by {
        let row = after[r];
        assert(forall|c: int|
            0 <= c < cols ==> #[trigger] row[c] == resized_cell(grid, old_cols, cols, r, c));
        if r < grid.len() {
            assert(row_is_whole(grid[r]));
        }
        assert forall|i: int| 0 <= i < row.len() implies {
            &&& (#[trigger] row[i]).width == 0 ==> i > 0 && row[i - 1].width == 2
            &&& row[i].width == 2 ==> i + 1 < row.len() && row[i + 1].width == 0
            &&& row[i].width <= 2
        } by {
            if r < grid.len() && i < old_cols {
                assert(grid[r][i].width <= 2);
                if i > 0 {
                    assert(grid[r][i - 1].width <= 2);
                }
                if i + 1 < old_cols {
                    assert(grid[r][i + 1].width <= 2);
                }
            }
        }
    }
}

/// Drawing a grid of whole glyphs on the active screen.
proof fn lemma_draw(m: TerminalModel, grid: Seq<Seq<Cell>>)
    requires
        is_whole(m),
        grid_is_whole(grid, m.size),
    ensures
        is_whole(m.draw(grid)),
{
    reveal(is_whole);
}

proof fn lemma_active(m: TerminalModel)
    requires
        is_whole(m),
    ensures
        m.wf(),
        grid_is_whole(m.active(), m.size),
        0 <= m.min_row() <= m.max_row() < m.rows(),
{
    reveal(is_whole);
}

proof fn lemma_moves(m: TerminalModel, n: int, k: int)
    requires
        is_whole(m),
        0 <= n,
        0 <= k,
    ensures
        is_whole(m.drop_wrap()),
        is_whole(m.cursor_up(n)),
        is_whole(m.cursor_down(n)),
        is_whole(m.cursor_forward(n)),
        is_whole(m.cursor_backward(n)),
        is_whole(m.set_col(n)),
        is_whole(m.set_row(n)),
        is_whole(m.set_position(n, k)),
        is_whole(m.carriage_return()),
        is_whole(m.backspace()),
        is_whole(m.horizontal_tab()),
        is_whole(m.save_cursor()),
        is_whole(m.move_to(m.cursor.row as int, m.cols() - 1)),
{
    reveal(is_whole);
    lemma_active(m);
    reveal(TerminalModel::cursor_up);
    reveal(TerminalModel::cursor_down);
    reveal(TerminalModel::cursor_forward);
    reveal(TerminalModel::cursor_backward);
    reveal(TerminalModel::set_col);
    reveal(TerminalModel::set_row);
    reveal(TerminalModel::set_position);
    reveal(TerminalModel::carriage_return);
    reveal(TerminalModel::backspace);
    reveal(TerminalModel::horizontal_tab);
    reveal(TerminalModel::save_cursor);
}

proof fn lemma_settings(m: TerminalModel, params: Seq<Seq<u16>>)
    requires
        is_whole(m),
    ensures
        is_whole(m.set_rendition(params)),
        is_whole(m.set_scroll_region(params)),
{
    reveal(is_whole);
    reveal(TerminalModel::set_rendition);
    reveal(TerminalModel::set_scroll_region);
}

proof fn lemma_restore(m: TerminalModel)
    requires
        is_whole(m),
    ensures
        is_whole(m.restore_cursor()),
{
    reveal(is_whole);
    reveal(TerminalModel::recall);
    reveal(TerminalModel::repair_cursor);
    lemma_active(m);
}

proof fn lemma_scrolls(m: TerminalModel, n: int)
    requires
        is_whole(m),
        0 <= n,
    ensures
        is_whole(m.scroll_up(n)),
        is_whole(m.scroll_down(n)),
{
    reveal(TerminalModel::scroll_up);
    reveal(TerminalModel::scroll_down);
    lemma_active(m);
    let top = m.scroll_top as int;
    let bottom = m.scroll_bottom as int;
    lemma_scroll(m.active(), m.size, top, bottom, n, m.pen);
    let cols = m.cols() as nat;
    lemma_draw(m, scroll_region_up(m.active(), top, bottom, n, cols, m.pen));
    lemma_draw(m, scroll_region_down(m.active(), top, bottom, n, cols, m.pen));
    let gone = m.primary.subrange(0, least(n, m.rows()));
    assert(narrow(m.scrollback + gone) && rows_are_whole(m.scrollback + gone)) by {
        reveal(is_whole);
        reveal(fills);
        reveal(narrow);
        reveal(rows_are_whole);
        let all = m.scrollback + gone;
        assert forall|i: int| 0 <= i < all.len() implies (#[trigger] all[i]).len() <= u16::MAX
            && row_is_whole(all[i]) by {
            if i < m.scrollback.len() {
                assert(all[i] == m.scrollback[i]);
            } else {
                assert(all[i] == m.primary[i - m.scrollback.len()]);
            }
        }
    }
    reveal(is_whole);
}

proof fn lemma_lines(m: TerminalModel)
    requires
        is_whole(m),
    ensures
        is_whole(m.line_feed()),
        is_whole(m.reverse_index()),
{
    reveal(TerminalModel::line_feed);
    reveal(TerminalModel::reverse_index);
    lemma_moves(m, 0, 0);
    lemma_scrolls(m.drop_wrap(), 1);
    lemma_active(m);
    assert(is_whole(m.move_to(least(m.cursor.row + 1, m.rows() - 1), m.cursor.col as int))) by {
        reveal(is_whole);
    }
    assert(is_whole(
        m.move_to(crate::terminal_model::greatest(m.cursor.row - 1, 0), m.cursor.col as int),
    )) by {
        reveal(is_whole);
    }
}

proof fn lemma_next_line(m: TerminalModel)
    requires
        is_whole(m),
    ensures
        is_whole(m.carriage_return().line_feed()),
{
    lemma_moves(m, 0, 0);
    lemma_lines(m.carriage_return());
}

proof fn lemma_erase_here(m: TerminalModel, start: int, end: int)
    requires
        is_whole(m),
        0 <= start,
    ensures
        is_whole(m.erase_here(start, end)),
        m.erase_here(start, end).cursor == m.cursor,
{
    reveal(TerminalModel::erase_here);
    lemma_active(m);
    lemma_erase_in_row(m.active(), m.size, m.cursor.row as int, start, end, m.pen);
    lemma_draw(m, erase_in_row(m.active(), m.cursor.row as int, start, end, m.pen));
}

proof fn lemma_erase_many(m: TerminalModel, start: int, end: int)
    requires
        is_whole(m),
    ensures
        is_whole(m.erase_rows(start, end)),
        m.erase_rows(start, end).cursor == m.cursor,
{
    reveal(TerminalModel::erase_rows);
    lemma_active(m);
    lemma_erase_rows(m.active(), m.size, start, end, m.pen);
    lemma_draw(m, erase_row_span(m.active(), start, end, m.pen));
}

proof fn lemma_erasures(m: TerminalModel, mode: u16)
    requires
        is_whole(m),
    ensures
        is_whole(m.erase_line(mode)),
        is_whole(m.erase_display(mode)),
{
    reveal(TerminalModel::erase_line);
    reveal(TerminalModel::erase_display);
    let row = m.cursor.row as int;
    let col = m.cursor.col as int;
    lemma_erase_here(m, col, m.cols());
    lemma_erase_here(m, 0, col + 1);
    lemma_erase_here(m, 0, m.cols());
    lemma_erase_many(m, 0, m.rows());
    lemma_erase_many(m, 0, row);
    lemma_erase_many(m.erase_here(col, m.cols()), row + 1, m.rows());
    lemma_erase_here(m.erase_rows(0, row), 0, col + 1);
    assert(is_whole(m.forget())) by {
        reveal(is_whole);
        reveal(narrow);
        reveal(rows_are_whole);
    }
}

proof fn lemma_line_edits(m: TerminalModel, n: int)
    requires
        is_whole(m),
        0 <= n,
    ensures
        is_whole(m.insert_lines(n)),
        is_whole(m.delete_lines(n)),
{
    reveal(TerminalModel::insert_lines);
    reveal(TerminalModel::delete_lines);
    lemma_active(m);
    if m.in_region() {
        let row = m.cursor.row as int;
        let bottom = m.scroll_bottom as int;
        let count = least(n, bottom - row + 1);
        let cols = m.cols() as nat;
        lemma_shift(m.active(), m.size, row, bottom, count, m.pen);
        lemma_draw(m, shift_up(m.active(), row, bottom, count, cols, m.pen));
        lemma_draw(m, shift_down(m.active(), row, bottom, count, cols, m.pen));
    }
}

proof fn lemma_place(m: TerminalModel, ch: char, width: int)
    requires
        is_whole(m),
        !m.modes.insert,
        1 <= width <= 2,
        m.cursor.col + width <= m.cols(),
    ensures
        is_whole(m.place(ch, width)),
{
    reveal(TerminalModel::place);
    lemma_active(m);
    let row = m.cursor.row as int;
    let col = m.cursor.col as int;
    assert(row_is_whole(m.active()[row]) && m.active()[row].len() == m.cols()) by {
        reveal(fills);
        reveal(rows_are_whole);
    }
    lemma_draw_glyph(m.active()[row], col, ch, width as u8, m.pen);
    let cells = draw_glyph(m.active()[row], col, ch, width as u8, m.pen);
    lemma_update_row(m.active(), m.size, row, cells);
    lemma_draw(m, m.active().update(row, cells));
    reveal(is_whole);
}

proof fn lemma_print(m: TerminalModel, ch: char, width: Option<usize>)
    requires
        is_whole(m),
        !m.modes.insert,
        width matches Some(n) ==> n <= 2,
    ensures
        is_whole(m.print(ch, width)),
{
    reveal(TerminalModel::print);
    reveal(TerminalModel::finish_wrap);
    reveal(TerminalModel::make_room);
    if let Some(n) = width {
        let wrapped = m.finish_wrap();
        lemma_moves(m, 0, 0);
        lemma_next_line(m);
        lemma_moves(wrapped, 0, 0);
        lemma_next_line(wrapped);
        let ready = wrapped.make_room(n as int);
        assert(ready.modes == m.modes) by {
            reveal(TerminalModel::carriage_return);
            reveal(TerminalModel::line_feed);
            reveal(TerminalModel::scroll_up);
        }
        if n > 0 && ready.cursor.col + n <= ready.cols() {
            lemma_place(ready, ch, n as int);
        }
    }
}

proof fn lemma_alternate(m: TerminalModel, enable: bool, clear: bool)
    requires
        is_whole(m),
    ensures
        is_whole(m.set_alternate(enable, clear)),
{
    reveal(TerminalModel::set_alternate);
    assert(is_whole(m.show_alternate(false))) by {
        reveal(is_whole);
    }
    lemma_restore(m.show_alternate(false));
    lemma_blank_rows(m.rows() as nat, m.cols() as nat, Style::spec_plain());
    if enable {
        reveal(is_whole);
        reveal(fills);
        reveal(TerminalModel::clear_alternate);
        reveal(TerminalModel::save_cursor);
    }
}

proof fn lemma_with_modes(
    m: TerminalModel,
    modes: TerminalModes,
    style: MouseReporting,
    enable: bool,
)
    requires
        is_whole(m),
    ensures
        is_whole(m.with_modes(modes)),
        is_whole(m.set_mouse(style, enable)),
        is_whole(m.with_modes(modes).set_position(1, 1)),
{
    assert(is_whole(m.with_modes(modes)) && is_whole(m.set_mouse(style, enable))) by {
        reveal(is_whole);
        reveal(TerminalModel::with_modes);
        reveal(TerminalModel::set_mouse);
    }
    lemma_moves(m.with_modes(modes), 1, 1);
}

proof fn lemma_one_mode(m: TerminalModel, mode: u16, private: bool, enable: bool)
    requires
        is_whole(m),
    ensures
        is_whole(m.set_one_mode(mode, private, enable)),
{
    reveal(TerminalModel::set_private_mode);
    let off = MouseReporting::Off;
    let modes = m.modes;
    if !private {
        lemma_with_modes(m, TerminalModes { insert: enable, ..modes }, off, enable);
    } else if mode == 1 {
        lemma_with_modes(m, TerminalModes { application_cursor: enable, ..modes }, off, enable);
    } else if mode == 6 {
        lemma_with_modes(m, TerminalModes { origin: enable, ..modes }, off, enable);
    } else if mode == 7 {
        lemma_with_modes(m, TerminalModes { autowrap: enable, ..modes }, off, enable);
    } else if mode == 9 {
        lemma_with_modes(m, modes, MouseReporting::X10, enable);
    } else if mode == 25 {
        lemma_with_modes(m, TerminalModes { cursor_visible: enable, ..modes }, off, enable);
    } else if mode == 47 || mode == 1047 {
        lemma_alternate(m, enable, false);
    } else if mode == 66 {
        lemma_with_modes(m, TerminalModes { application_keypad: enable, ..modes }, off, enable);
    } else if mode == 1000 {
        lemma_with_modes(m, modes, MouseReporting::Normal, enable);
    } else if mode == 1002 {
        lemma_with_modes(m, modes, MouseReporting::ButtonEvent, enable);
    } else if mode == 1003 {
        lemma_with_modes(m, modes, MouseReporting::AnyEvent, enable);
    } else if mode == 1006 {
        lemma_with_modes(m, TerminalModes { mouse_sgr: enable, ..modes }, off, enable);
    } else if mode == 1049 {
        lemma_alternate(m, enable, true);
    } else if mode == 2004 {
        lemma_with_modes(m, TerminalModes { bracketed_paste: enable, ..modes }, off, enable);
    }
}

proof fn lemma_modes(m: TerminalModel, modes: Seq<u16>, private: bool, enable: bool)
    requires
        is_whole(m),
    ensures
        is_whole(m.set_modes(modes, private, enable)),
    decreases modes.len(),
{
    if modes.len() > 0 {
        lemma_modes(m, modes.drop_last(), private, enable);
        lemma_one_mode(
            m.set_modes(modes.drop_last(), private, enable),
            modes.last(),
            private,
            enable,
        );
    }
}

proof fn lemma_replies(m: TerminalModel, request: u16, bytes: Seq<u8>)
    requires
        is_whole(m),
    ensures
        is_whole(m.report_status(request)),
        is_whole(m.reply(bytes)),
{
    reveal(is_whole);
    reveal(TerminalModel::report_status);
}

proof fn lemma_reset(m: TerminalModel)
    requires
        is_whole(m),
    ensures
        is_whole(m.reset()),
{
    reveal(TerminalModel::reset);
    assert(m.size.addressable()) by {
        reveal(is_whole);
    }
    new_terminals_are_whole(m.size);
    reveal(is_whole);
}

proof fn lemma_csi(
    m: TerminalModel,
    params: Seq<Seq<u16>>,
    intermediates: Seq<u8>,
    action: char,
)
    requires
        is_whole(m),
        action != '@',
        action != 'P',
    ensures
        is_whole(m.csi(params, intermediates, action)),
{
    reveal(TerminalModel::csi);
    let private = intermediates.len() > 0 && intermediates[0] == 0x3f;
    let n = param(params, 0, 1) as int;
    let mode = param(params, 0, 0);
    lemma_moves(m, n, param(params, 1, 1) as int);
    lemma_moves(m.cursor_up(n), 0, 0);
    lemma_moves(m.cursor_down(n), 0, 0);
    lemma_erasures(m, mode);
    lemma_erase_here(m, m.cursor.col as int, m.cursor.col + n);
    lemma_line_edits(m, n);
    lemma_scrolls(m, n);
    lemma_settings(m, params);
    lemma_modes(m, flat_params(params), private, true);
    lemma_modes(m, flat_params(params), private, false);
    lemma_replies(m, mode, crate::terminal_model::attributes_report());
    lemma_restore(m);
}

/// A new terminal is well-formed and shows whole glyphs only.
pub proof fn new_terminals_are_whole(size: Size)
    requires
        size.addressable(),
    ensures
        is_whole(TerminalModel::initial(size)),
{
    reveal(is_whole);
    reveal(fills);
    reveal(narrow);
    reveal(rows_are_whole);
    lemma_blank_rows(size.row_count() as nat, size.col_count() as nat, Style::spec_plain());
}

/// Whether a token moves cells along a row, whatever glyphs they belong to:
/// characters are inserted or deleted, or a glyph is printed in insert mode.
pub open spec fn moves_cells(m: TerminalModel, token: TokenView) -> bool {
    match token {
        TokenView::Print(ch) => m.modes.insert,
        TokenView::Csi { params, intermediates, ignore, action } => !ignore && (action == '@'
            || action == 'P'),
        _ => false,
    }
}

/// A token that does not move cells along a row keeps every glyph whole: on
/// both screens and in the history, a wide glyph has both its halves, side by
/// side. The cursor and the scroll region stay on the screen.
pub proof fn glyphs_stay_whole(m: TerminalModel, token: TokenView)
    requires
        is_whole(m),
        !moves_cells(m, token),
    ensures
        is_whole(m.perform(token)),
{
    match token {
        TokenView::Print(ch) => {
            lemma_print(m, ch, shown_columns(unicode_columns(ch)));
        },
        TokenView::Execute(byte) => {
            reveal(TerminalModel::execute);
            lemma_moves(m, 0, 0);
            lemma_lines(m);
        },
        TokenView::Osc(params) => {
            reveal(TerminalModel::command);
            reveal(is_whole);
        },
        TokenView::Csi { params, intermediates, ignore, action } => {
            if !ignore {
                lemma_csi(m, params, intermediates, action);
            }
        },
        TokenView::Esc { intermediates, ignore, byte } => {
            reveal(TerminalModel::escape);
            lemma_moves(m, 0, 0);
            lemma_lines(m);
            lemma_next_line(m);
            lemma_restore(m);
            lemma_reset(m);
        },
    }
}

/// A resize keeps every glyph whole: one that does not fit any more goes as a
/// whole.
pub proof fn resizing_keeps_glyphs_whole(m: TerminalModel, size: Size)
    requires
        is_whole(m),
        size.addressable(),
    ensures
        is_whole(m.resize(size)),
{
    reveal(is_whole);
    reveal(TerminalModel::fit);
    reveal(TerminalModel::repair_cursor);
    lemma_resized(m.primary, m.size, size);
    lemma_resized(m.alternate, m.size, size);
}

} // verus!
