//! Screen cell buffer and scrolling helpers.

use vstd::prelude::*;

use crate::size::Size;
use crate::snapshot::{rows_view, same_rows};
use crate::terminal_types::{Cell, Position, Style};

verus! {

/// `count` blank cells drawn with `style`.
pub open spec fn blank_cells(count: nat, style: Style) -> Seq<Cell> {
    Seq::new(count, |i: int| Cell::spec_blank(style))
}

/// `count` rows of `cols` blank cells each, drawn with `style`.
pub open spec fn blank_rows(count: nat, cols: nat, style: Style) -> Seq<Seq<Cell>> {
    Seq::new(count, |i: int| blank_cells(cols, style))
}

/// Every row of `grid` holds `cols` cells.
pub open spec fn has_width(grid: Seq<Seq<Cell>>, cols: nat) -> bool {
    forall|i: int| 0 <= i < grid.len() ==> (#[trigger] grid[i]).len() == cols
}

/// A grid has as many rows, and each row as many cells, as `size` says.
#[verifier::opaque]
pub open spec fn fills(grid: Seq<Seq<Cell>>, size: Size) -> bool {
    grid.len() == size.row_count() && has_width(grid, size.col_count() as nat)
}

/// A row after the glyph under `col` has been emptied. The other half of a
/// wide glyph goes with it.
pub open spec fn clear_glyph(row: Seq<Cell>, col: int) -> Seq<Cell> {
    let cleared = row.update(col, Cell::spec_empty());
    if row[col].width == 0 && col > 0 {
        cleared.update(col - 1, Cell::spec_empty())
    } else if row[col].width == 2 && col + 1 < row.len() {
        cleared.update(col + 1, Cell::spec_empty())
    } else {
        cleared
    }
}

/// A row after a glyph of `width` columns has been drawn at `col`.
pub open spec fn draw_glyph(
    row: Seq<Cell>,
    col: int,
    ch: char,
    width: u8,
    style: Style,
) -> Seq<Cell> {
    let lead = Cell { ch, width, style };
    if width == 2 {
        clear_glyph(clear_glyph(row, col), col + 1).update(col, lead).update(
            col + 1,
            Cell::trailing(style),
        )
    } else {
        clear_glyph(row, col).update(col, lead)
    }
}

/// A row after the columns from `start` up to but not including `end` have
/// been erased, one after the other from the left.
pub open spec fn erase_span(row: Seq<Cell>, start: int, end: int, style: Style) -> Seq<Cell>
    decreases end - start,
{
    if end <= start {
        row
    } else {
        clear_glyph(erase_span(row, start, end - 1, style), end - 1).update(
            end - 1,
            Cell::spec_blank(style),
        )
    }
}

/// A row without the leading half of a wide glyph whose trailing half is
/// beyond the right edge.
pub open spec fn trim_edge(row: Seq<Cell>) -> Seq<Cell> {
    if row.len() > 0 && row.last().width == 2 {
        row.update(row.len() - 1, Cell::spec_empty())
    } else {
        row
    }
}

/// A row after `count` blanks were inserted at `col`; what they push over the
/// right edge is lost.
pub open spec fn insert_blanks(row: Seq<Cell>, col: int, count: int, style: Style) -> Seq<Cell> {
    let n = if count < row.len() - col { count } else { row.len() - col };
    trim_edge(
        row.subrange(0, col) + blank_cells(n as nat, style) + row.subrange(col, row.len() - n),
    )
}

/// A row after `count` cells were taken out at `col`; blanks come in from the
/// right.
pub open spec fn delete_cells(row: Seq<Cell>, col: int, count: int, style: Style) -> Seq<Cell> {
    let n = if count < row.len() - col { count } else { row.len() - col };
    trim_edge(
        row.subrange(0, col) + row.subrange(col + n, row.len() as int) + blank_cells(
            n as nat,
            style,
        ),
    )
}

/// A grid after the columns from `start` up to `end` of one row were erased.
pub open spec fn erase_in_row(
    grid: Seq<Seq<Cell>>,
    row: int,
    start: int,
    end: int,
    style: Style,
) -> Seq<Seq<Cell>> {
    let cols = grid[row].len() as int;
    let start = if start < cols { start } else { cols };
    let end = if end < cols { end } else { cols };
    grid.update(row, erase_span(grid[row], start, end, style))
}

/// A grid after the rows from `start` up to `end` were erased.
pub open spec fn erase_row_span(
    grid: Seq<Seq<Cell>>,
    start: int,
    end: int,
    style: Style,
) -> Seq<Seq<Cell>> {
    Seq::new(
        grid.len(),
        |i: int|
            if start <= i < end {
                erase_span(grid[i], 0, grid[i].len() as int, style)
            } else {
                grid[i]
            },
    )
}

/// A grid after `count` rows from `top` on were taken out and as many blank
/// rows were put in above the row after `bottom`.
pub open spec fn shift_up(
    grid: Seq<Seq<Cell>>,
    top: int,
    bottom: int,
    count: int,
    cols: nat,
    style: Style,
) -> Seq<Seq<Cell>> {
    grid.subrange(0, top) + grid.subrange(top + count, bottom + 1) + blank_rows(
        count as nat,
        cols,
        style,
    ) + grid.subrange(bottom + 1, grid.len() as int)
}

/// A grid after `count` blank rows were put in at `top` and as many rows were
/// taken out above the row after `bottom`.
pub open spec fn shift_down(
    grid: Seq<Seq<Cell>>,
    top: int,
    bottom: int,
    count: int,
    cols: nat,
    style: Style,
) -> Seq<Seq<Cell>> {
    grid.subrange(0, top) + blank_rows(count as nat, cols, style) + grid.subrange(
        top,
        bottom + 1 - count,
    ) + grid.subrange(bottom + 1, grid.len() as int)
}

/// A grid after its rows from `top` to `bottom` scrolled up by `count`.
pub open spec fn scroll_region_up(
    grid: Seq<Seq<Cell>>,
    top: int,
    bottom: int,
    count: int,
    cols: nat,
    style: Style,
) -> Seq<Seq<Cell>> {
    if count > bottom - top {
        erase_row_span(grid, top, bottom + 1, style)
    } else {
        shift_up(grid, top, bottom, count, cols, style)
    }
}

/// A grid after its rows from `top` to `bottom` scrolled down by `count`.
pub open spec fn scroll_region_down(
    grid: Seq<Seq<Cell>>,
    top: int,
    bottom: int,
    count: int,
    cols: nat,
    style: Style,
) -> Seq<Seq<Cell>> {
    if count > bottom - top {
        erase_row_span(grid, top, bottom + 1, style)
    } else {
        shift_down(grid, top, bottom, count, cols, style)
    }
}

/// The cell at `row` and `col` after a grid became `rows` by `cols` cells.
/// What was in both grids stays, but for the leading half of a wide glyph in
/// the last column that was copied.
pub open spec fn resized_cell(
    grid: Seq<Seq<Cell>>,
    old_cols: int,
    cols: int,
    row: int,
    col: int,
) -> Cell {
    let copied = if old_cols < cols { old_cols } else { cols };
    if row < grid.len() && col < copied && !(col == copied - 1 && grid[row][col].width == 2) {
        grid[row][col]
    } else {
        Cell::spec_empty()
    }
}

/// A grid of `old_cols` columns after it became `rows` by `cols` cells.
pub open spec fn resized(
    grid: Seq<Seq<Cell>>,
    old_cols: int,
    rows: nat,
    cols: nat,
) -> Seq<Seq<Cell>> {
    Seq::new(
        rows,
        |r: int| Seq::new(cols, |c: int| resized_cell(grid, old_cols, cols as int, r, c)),
    )
}

/// Erasing keeps the number of cells.
pub proof fn lemma_erase_span_len(row: Seq<Cell>, start: int, end: int, style: Style)
    requires
        0 <= start,
        end <= row.len(),
    ensures
        erase_span(row, start, end, style).len() == row.len(),
    decreases end - start,
{
    if start < end {
        lemma_erase_span_len(row, start, end - 1, style);
    }
}

/// Empties the glyph under `col`.
fn clear_cell(row: &mut Vec<Cell>, col: usize)
    requires
        col < old(row)@.len(),
    ensures
        final(row)@ == clear_glyph(old(row)@, col as int),
{
    let width: u8 = row[col].width;
    row.set(col, Cell::empty());
    if width == 0 && col > 0 {
        row.set(col - 1, Cell::empty());
    } else if width == 2 && col < row.len() - 1 {
        row.set(col + 1, Cell::empty());
    }
}

/// Empties the leading half of a wide glyph in the last column.
fn fix_row_edge(row: &mut Vec<Cell>)
    ensures
        final(row)@ == trim_edge(old(row)@),
{
    let len: usize = row.len();
    if len > 0 && row[len - 1].width == 2 {
        row.set(len - 1, Cell::empty());
    }
}

/// Erases the columns from `start` up to `end`.
fn erase_row_cells(row: &mut Vec<Cell>, start: usize, end: usize, style: Style)
    requires
        start <= old(row)@.len(),
        end <= old(row)@.len(),
    ensures
        final(row)@ == erase_span(old(row)@, start as int, end as int, style),
        final(row)@.len() == old(row)@.len(),
{
    let mut col: usize = start;
    while col < end
        invariant
            start <= col,
            start < end ==> col <= end,
            end <= start ==> col == start,
            end <= old(row)@.len(),
            row@ == erase_span(old(row)@, start as int, col as int, style),
            row@.len() == old(row)@.len(),
        decreases end - col,
    {
        clear_cell(row, col);
        row.set(col, Cell::blank(style));
        col += 1;
    }
}

/// Returns `count` blank cells.
fn blank_row(count: usize, style: Style) -> (row: Vec<Cell>)
    ensures
        row@ == blank_cells(count as nat, style),
{
    let mut row: Vec<Cell> = Vec::with_capacity(count);
    let mut i: usize = 0;
    while i < count
        invariant
            i <= count,
            row@ == blank_cells(i as nat, style),
        decreases count - i,
    {
        row.push(Cell::blank(style));
        i += 1;
        proof {
            assert(row@ =~= blank_cells(i as nat, style));
        }
    }
    row
}

/// One buffer of cells, held row by row.
pub(crate) struct Screen {
    size: Size,
    rows: Vec<Vec<Cell>>,
}

impl Screen {
    /// The cells, as rows from top to bottom.
    pub(crate) closed spec fn view(&self) -> Seq<Seq<Cell>> {
        Seq::new(self.rows@.len(), |i: int| self.rows@[i]@)
    }

    /// The size that the buffer was made for.
    pub(crate) closed spec fn spec_size(&self) -> Size {
        self.size
    }

    /// The buffer has as many rows, and each row as many cells, as its size
    /// says.
    pub(crate) open spec fn wf(&self) -> bool {
        &&& self.spec_size().addressable()
        &&& fills(self@, self.spec_size())
    }

    /// Returns a buffer of empty cells.
    pub(crate) fn blank(size: Size) -> (screen: Screen)
        ensures
            screen.wf(),
            screen.spec_size() == size,
            screen@ == blank_rows(
                size.row_count() as nat,
                size.col_count() as nat,
                Style::spec_plain(),
            ),
    {
        proof {
            reveal(fills);
        }
        let rows: usize = size.rows() as usize;
        let cols: usize = size.cols() as usize;
        let mut out: Vec<Vec<Cell>> = Vec::with_capacity(rows);
        let mut i: usize = 0;
        while i < rows
            invariant
                i <= rows,
                out@.len() == i,
                forall|k: int|
                    0 <= k < i ==> (#[trigger] out@[k])@ == blank_cells(
                        cols as nat,
                        Style::spec_plain(),
                    ),
            decreases rows - i,
        {
            out.push(blank_row(cols, Style::plain()));
            i += 1;
        }
        let screen = Screen { size, rows: out };
        proof {
            assert(screen@ =~= blank_rows(rows as nat, cols as nat, Style::spec_plain()));
        }
        screen
    }

    /// Returns the cell at `at`, if in range.
    pub(crate) fn get(&self, at: Position) -> (cell: Option<Cell>)
        requires
            self.wf(),
        ensures
            cell == if at.row < self.spec_size().row_count() && at.col
                < self.spec_size().col_count() {
                Some(self@[at.row as int][at.col as int])
            } else {
                None
            },
    {
        proof {
            reveal(fills);
        }
        proof {
            assert(at.row < self@.len() ==> self@[at.row as int] == self.rows@[at.row as int]@);
        }
        if at.row >= self.size.rows() || at.col >= self.size.cols() {
            None
        } else {
            Some(self.rows[at.row as usize][at.col as usize])
        }
    }

    /// Returns the rows from top to bottom.
    pub(crate) fn rows(&self) -> (rows: &Vec<Vec<Cell>>)
        requires
            self.wf(),
        ensures
            rows@.len() == self@.len(),
            forall|i: int| 0 <= i < rows@.len() ==> (#[trigger] rows@[i])@ == self@[i],
    {
        proof {
            reveal(fills);
        }
        &self.rows
    }

    /// Returns whether two buffers have the same size and hold the same cells.
    pub(crate) fn same(&self, other: &Screen) -> (same: bool)
        ensures
            same == (self.spec_size() == other.spec_size() && self@ == other@),
    {
        proof {
            assert(self@ =~= rows_view(self.rows@));
            assert(other@ =~= rows_view(other.rows@));
        }
        self.size == other.size && same_rows(&self.rows, &other.rows)
    }

    /// Fills the buffer with blanks drawn with `style`.
    pub(crate) fn clear_all(&mut self, style: Style)
        requires
            old(self).wf(),
        ensures
            final(self).wf(),
            final(self).spec_size() == old(self).spec_size(),
            final(self)@ == blank_rows(
                old(self).spec_size().row_count() as nat,
                old(self).spec_size().col_count() as nat,
                style,
            ),
    {
        proof {
            reveal(fills);
        }
        let rows: usize = self.rows.len();
        let cols: usize = self.size.cols() as usize;
        let mut i: usize = 0;
        while i < rows
            invariant
                i <= rows,
                rows == self.rows@.len(),
                self.size == old(self).size,
                forall|k: int|
                    0 <= k < i ==> (#[trigger] self.rows@[k])@ == blank_cells(cols as nat, style),
            decreases rows - i,
        {
            self.rows.set(i, blank_row(cols, style));
            i += 1;
        }
        proof {
            assert(self@ =~= blank_rows(rows as nat, cols as nat, style));
        }
    }

    /// Gives the buffer a new size. Cells in the overlap stay where they are.
    pub(crate) fn resize(&mut self, size: Size)
        requires
            old(self).wf(),
        ensures
            final(self).wf(),
            final(self).spec_size() == size,
            final(self)@ == if size == old(self).spec_size() {
                old(self)@
            } else {
                resized(
                    old(self)@,
                    old(self).spec_size().col_count() as int,
                    size.row_count() as nat,
                    size.col_count() as nat,
                )
            },
    {
        proof {
            reveal(fills);
        }
        if size == self.size {
            return ;
        }
        let rows: usize = size.rows() as usize;
        let cols: usize = size.cols() as usize;
        let old_rows: usize = self.size.rows() as usize;
        let old_cols: usize = self.size.cols() as usize;
        let copied: usize = if old_cols < cols {
            old_cols
        } else {
            cols
        };
        let ghost before = self@;
        let mut out: Vec<Vec<Cell>> = Vec::with_capacity(rows);
        let mut r: usize = 0;
        while r < rows
            invariant
                r <= rows,
                rows == size.row_count(),
                cols == size.col_count(),
                cols > 0,
                old_cols > 0,
                self.wf(),
                self@ == before,
                old_rows == before.len(),
                has_width(before, old_cols as nat),
                copied == (if old_cols < cols {
                    old_cols
                } else {
                    cols
                }),
                out@.len() == r,
                forall|k: int|
                    0 <= k < r ==> (#[trigger] out@[k])@ == Seq::new(
                        cols as nat,
                        |c: int| resized_cell(before, old_cols as int, cols as int, k, c),
                    ),
            decreases rows - r,
        {
            let mut row: Vec<Cell> = Vec::with_capacity(cols);
            let mut c: usize = 0;
            while c < cols
                invariant
                    r < rows,
                    c <= cols,
                    cols > 0,
                    old_cols > 0,
                    self.wf(),
                    self@ == before,
                    old_rows == before.len(),
                    has_width(before, old_cols as nat),
                    copied == (if old_cols < cols {
                        old_cols
                    } else {
                        cols
                    }),
                    row@.len() == c,
                    forall|k: int|
                        0 <= k < c ==> #[trigger] row@[k] == resized_cell(
                            before,
                            old_cols as int,
                            cols as int,
                            r as int,
                            k,
                        ),
                decreases cols - c,
            {
                if r < old_rows && c < copied {
                    proof {
                        assert(before[r as int] == self.rows@[r as int]@);
                    }
                    let cell: Cell = self.rows[r][c];
                    if c == copied - 1 && cell.width == 2 {
                        row.push(Cell::empty());
                    } else {
                        row.push(cell);
                    }
                } else {
                    row.push(Cell::empty());
                }
                c += 1;
            }
            proof {
                assert(row@ =~= Seq::new(
                    cols as nat,
                    |c: int| resized_cell(before, old_cols as int, cols as int, r as int, c),
                ));
            }
            out.push(row);
            r += 1;
        }
        self.size = size;
        self.rows = out;
        proof {
            assert(self@ =~= resized(before, old_cols as int, rows as nat, cols as nat));
        }
    }

    /// Draws a glyph of `width` columns at `row` and `col`.
    pub(crate) fn put_glyph(&mut self, row: u16, col: u16, ch: char, width: u8, style: Style)
        requires
            old(self).wf(),
            row < old(self).spec_size().row_count(),
            1 <= width <= 2,
            col + width <= old(self).spec_size().col_count(),
        ensures
            final(self).wf(),
            final(self).spec_size() == old(self).spec_size(),
            final(self)@ == old(self)@.update(
                row as int,
                draw_glyph(old(self)@[row as int], col as int, ch, width, style),
            ),
    {
        proof {
            reveal(fills);
        }
        let ghost before = self@;
        proof {
            assert(before[row as int] == self.rows@[row as int]@);
        }
        let cells: &mut Vec<Cell> = &mut self.rows[row as usize];
        let col: usize = col as usize;
        clear_cell(cells, col);
        if width == 2 {
            clear_cell(cells, col + 1);
        }
        cells.set(col, Cell { ch, width, style });
        if width == 2 {
            cells.set(col + 1, Cell { ch: ' ', width: 0, style });
        }
        proof {
            assert(self@ =~= before.update(
                row as int,
                draw_glyph(before[row as int], col as int, ch, width, style),
            ));
        }
    }

    /// Erases the columns from `col_start` up to `col_end` of `row`.
    pub(crate) fn erase_cells(&mut self, row: u16, col_start: u16, col_end: u16, style: Style)
        requires
            old(self).wf(),
            row < old(self).spec_size().row_count(),
        ensures
            final(self).wf(),
            final(self).spec_size() == old(self).spec_size(),
            final(self)@ == erase_in_row(
                old(self)@,
                row as int,
                col_start as int,
                col_end as int,
                style,
            ),
    {
        proof {
            reveal(fills);
        }
        let ghost before = self@;
        proof {
            assert(before[row as int] == self.rows@[row as int]@);
        }
        let cols: u16 = self.size.cols();
        let start: u16 = if col_start < cols {
            col_start
        } else {
            cols
        };
        let end: u16 = if col_end < cols {
            col_end
        } else {
            cols
        };
        erase_row_cells(&mut self.rows[row as usize], start as usize, end as usize, style);
        proof {
            assert(self@ =~= erase_in_row(
                before,
                row as int,
                col_start as int,
                col_end as int,
                style,
            ));
        }
    }

    /// Erases the rows from `row_start` up to `row_end`.
    pub(crate) fn erase_rows(&mut self, row_start: u16, row_end: u16, style: Style)
        requires
            old(self).wf(),
        ensures
            final(self).wf(),
            final(self).spec_size() == old(self).spec_size(),
            final(self)@ == erase_row_span(
                old(self)@,
                row_start as int,
                row_end as int,
                style,
            ),
    {
        proof {
            reveal(fills);
        }
        let ghost before = self@;
        let rows: u16 = self.size.rows();
        let cols: usize = self.size.cols() as usize;
        let end: u16 = if row_end < rows {
            row_end
        } else {
            rows
        };
        let mut row: u16 = row_start;
        while row < end
            invariant
                self.wf(),
                self.size == old(self).size,
                before == old(self)@,
                before.len() == self@.len(),
                has_width(before, cols as nat),
                cols == self.size.col_count(),
                end <= before.len(),
                end <= row_end,
                row_start <= row,
                row_start <= end ==> row <= end,
                row_start > end ==> row == row_start,
                forall|i: int|
                    0 <= i < before.len() ==> #[trigger] self@[i] == (if row_start <= i < row {
                        erase_span(before[i], 0, before[i].len() as int, style)
                    } else {
                        before[i]
                    }),
            decreases end - row,
        {
            proof {
                assert(self@[row as int] == self.rows@[row as int]@);
            }
            let ghost mid = self@;
            erase_row_cells(&mut self.rows[row as usize], 0, cols, style);
            proof {
                reveal(fills);
                assert(self@ =~= mid.update(
                    row as int,
                    erase_span(mid[row as int], 0, cols as int, style),
                ));
            }
            row += 1;
        }
        proof {
            assert(self@ =~= erase_row_span(before, row_start as int, row_end as int, style));
        }
    }

    /// Inserts `count` blanks at `row` and `col`.
    pub(crate) fn insert_columns(&mut self, row: u16, col: u16, count: u16, style: Style)
        requires
            old(self).wf(),
            row < old(self).spec_size().row_count(),
            col < old(self).spec_size().col_count(),
        ensures
            final(self).wf(),
            final(self).spec_size() == old(self).spec_size(),
            final(self)@ == if count == 0 {
                old(self)@
            } else {
                old(self)@.update(
                    row as int,
                    insert_blanks(old(self)@[row as int], col as int, count as int, style),
                )
            },
    {
        proof {
            reveal(fills);
        }
        if count == 0 {
            return ;
        }
        let ghost before = self@;
        let ghost line = before[row as int];
        proof {
            assert(line == self.rows@[row as int]@);
        }
        let cols: u16 = self.size.cols();
        let n: u16 = if count < cols - col {
            count
        } else {
            cols - col
        };
        let cells: &mut Vec<Cell> = &mut self.rows[row as usize];
        let mut i: u16 = 0;
        while i < n
            invariant
                i <= n,
                n <= cols - col,
                line.len() == cols,
                cells@ == line.subrange(0, col as int) + blank_cells(i as nat, style)
                    + line.subrange(col as int, line.len() as int),
            decreases n - i,
        {
            cells.insert(col as usize, Cell::blank(style));
            i += 1;
            proof {
                assert(cells@ =~= line.subrange(0, col as int) + blank_cells(i as nat, style)
                    + line.subrange(col as int, line.len() as int));
            }
        }
        cells.truncate(cols as usize);
        proof {
            assert(cells@ =~= line.subrange(0, col as int) + blank_cells(n as nat, style)
                + line.subrange(col as int, line.len() - n));
        }
        fix_row_edge(cells);
        proof {
            assert(self@ =~= before.update(
                row as int,
                insert_blanks(line, col as int, count as int, style),
            ));
        }
    }

    /// Takes out `count` cells at `row` and `col`.
    pub(crate) fn delete_columns(&mut self, row: u16, col: u16, count: u16, style: Style)
        requires
            old(self).wf(),
            row < old(self).spec_size().row_count(),
            col < old(self).spec_size().col_count(),
        ensures
            final(self).wf(),
            final(self).spec_size() == old(self).spec_size(),
            final(self)@ == if count == 0 {
                old(self)@
            } else {
                old(self)@.update(
                    row as int,
                    delete_cells(old(self)@[row as int], col as int, count as int, style),
                )
            },
    {
        proof {
            reveal(fills);
        }
        if count == 0 {
            return ;
        }
        let ghost before = self@;
        let ghost line = before[row as int];
        proof {
            assert(line == self.rows@[row as int]@);
        }
        let cols: u16 = self.size.cols();
        let n: u16 = if count < cols - col {
            count
        } else {
            cols - col
        };
        let cells: &mut Vec<Cell> = &mut self.rows[row as usize];
        let mut i: u16 = 0;
        while i < n
            invariant
                i <= n,
                n <= cols - col,
                line.len() == cols,
                cells@ == line.subrange(0, col as int) + line.subrange(
                    col + i,
                    line.len() as int,
                ) + blank_cells(i as nat, style),
            decreases n - i,
        {
            let _ = cells.remove(col as usize);
            cells.push(Cell::blank(style));
            i += 1;
            proof {
                assert(cells@ =~= line.subrange(0, col as int) + line.subrange(
                    col + i,
                    line.len() as int,
                ) + blank_cells(i as nat, style));
            }
        }
        fix_row_edge(cells);
        proof {
            assert(self@ =~= before.update(
                row as int,
                delete_cells(line, col as int, count as int, style),
            ));
        }
    }

    /// Takes out `count` rows at `top`, puts as many blank rows in above the
    /// row after `bottom`, and returns the rows that left.
    fn rotate_up(&mut self, count: u16, top: u16, bottom: u16, style: Style) -> (displaced: Vec<
        Vec<Cell>,
    >)
        requires
            old(self).wf(),
            top <= bottom < old(self).spec_size().row_count(),
            count <= bottom - top + 1,
        ensures
            final(self).wf(),
            final(self).spec_size() == old(self).spec_size(),
            final(self)@ == shift_up(
                old(self)@,
                top as int,
                bottom as int,
                count as int,
                old(self).spec_size().col_count() as nat,
                style,
            ),
            displaced@.len() == count,
            forall|k: int|
                0 <= k < count ==> (#[trigger] displaced@[k])@ == old(self)@[top + k],
    {
        proof {
            reveal(fills);
        }
        let ghost before = self@;
        let cols: usize = self.size.cols() as usize;
        let mut displaced: Vec<Vec<Cell>> = Vec::with_capacity(count as usize);
        let mut i: u16 = 0;
        proof {
            assert(self@ =~= shift_up(before, top as int, bottom as int, 0, cols as nat, style));
        }
        while i < count
            invariant
                i <= count,
                top <= bottom < before.len(),
                count <= bottom - top + 1,
                before == old(self)@,
                has_width(before, cols as nat),
                self.size == old(self).size,
                self@ == shift_up(before, top as int, bottom as int, i as int, cols as nat, style),
                displaced@.len() == i,
                forall|k: int| 0 <= k < i ==> (#[trigger] displaced@[k])@ == before[top + k],
            decreases count - i,
        {
            let ghost mid = self@;
            proof {
                assert(mid.len() == before.len());
                assert(self.rows@[top as int]@ == mid[top as int]);
                assert(mid[top as int] == before[top + i]);
            }
            let row: Vec<Cell> = self.rows.remove(top as usize);
            let fresh: Vec<Cell> = blank_row(cols, style);
            self.rows.insert(bottom as usize, fresh);
            displaced.push(row);
            proof {
                assert forall|k: int| 0 <= k < before.len() implies #[trigger] self@[k] == (if k
                    < top || k > bottom {
                    mid[k]
                } else if k < bottom {
                    mid[k + 1]
                } else {
                    blank_cells(cols as nat, style)
                }) by {}
                assert(self@ =~= shift_up(
                    before,
                    top as int,
                    bottom as int,
                    i + 1,
                    cols as nat,
                    style,
                ));
            }
            i += 1;
        }
        displaced
    }

    /// Puts `count` blank rows in at `top` and takes as many rows out above
    /// the row after `bottom`.
    fn rotate_down(&mut self, count: u16, top: u16, bottom: u16, style: Style)
        requires
            old(self).wf(),
            top <= bottom < old(self).spec_size().row_count(),
            count <= bottom - top + 1,
        ensures
            final(self).wf(),
            final(self).spec_size() == old(self).spec_size(),
            final(self)@ == shift_down(
                old(self)@,
                top as int,
                bottom as int,
                count as int,
                old(self).spec_size().col_count() as nat,
                style,
            ),
    {
        proof {
            reveal(fills);
        }
        let ghost before = self@;
        let cols: usize = self.size.cols() as usize;
        let mut i: u16 = 0;
        proof {
            assert(self@ =~= shift_down(before, top as int, bottom as int, 0, cols as nat, style));
        }
        while i < count
            invariant
                i <= count,
                top <= bottom < before.len(),
                count <= bottom - top + 1,
                before == old(self)@,
                has_width(before, cols as nat),
                self.size == old(self).size,
                self@ == shift_down(
                    before,
                    top as int,
                    bottom as int,
                    i as int,
                    cols as nat,
                    style,
                ),
            decreases count - i,
        {
            let ghost mid = self@;
            proof {
                assert(mid.len() == before.len());
            }
            let _ = self.rows.remove(bottom as usize);
            let fresh: Vec<Cell> = blank_row(cols, style);
            self.rows.insert(top as usize, fresh);
            proof {
                assert forall|k: int| 0 <= k < before.len() implies #[trigger] self@[k] == (if k
                    < top || k > bottom {
                    mid[k]
                } else if k > top {
                    mid[k - 1]
                } else {
                    blank_cells(cols as nat, style)
                }) by {}
                assert(self@ =~= shift_down(
                    before,
                    top as int,
                    bottom as int,
                    i + 1,
                    cols as nat,
                    style,
                ));
            }
            i += 1;
        }
    }

    /// Inserts `count` blank rows at `row` inside the scroll region.
    pub(crate) fn insert_lines(
        &mut self,
        row: u16,
        count: u16,
        scroll_top: u16,
        scroll_bottom: u16,
        style: Style,
    )
        requires
            old(self).wf(),
            scroll_bottom < old(self).spec_size().row_count(),
        ensures
            final(self).wf(),
            final(self).spec_size() == old(self).spec_size(),
            final(self)@ == if count == 0 || row < scroll_top || row > scroll_bottom {
                old(self)@
            } else {
                shift_down(
                    old(self)@,
                    row as int,
                    scroll_bottom as int,
                    if count < scroll_bottom - row + 1 {
                        count as int
                    } else {
                        scroll_bottom - row + 1
                    },
                    old(self).spec_size().col_count() as nat,
                    style,
                )
            },
    {
        proof {
            reveal(fills);
        }
        if count == 0 || row < scroll_top || row > scroll_bottom {
            return ;
        }
        let n: u16 = if count <= scroll_bottom - row {
            count
        } else {
            scroll_bottom - row + 1
        };
        self.rotate_down(n, row, scroll_bottom, style);
    }

    /// Takes out `count` rows at `row` inside the scroll region.
    pub(crate) fn delete_lines(
        &mut self,
        row: u16,
        count: u16,
        scroll_top: u16,
        scroll_bottom: u16,
        style: Style,
    )
        requires
            old(self).wf(),
            scroll_bottom < old(self).spec_size().row_count(),
        ensures
            final(self).wf(),
            final(self).spec_size() == old(self).spec_size(),
            final(self)@ == if count == 0 || row < scroll_top || row > scroll_bottom {
                old(self)@
            } else {
                shift_up(
                    old(self)@,
                    row as int,
                    scroll_bottom as int,
                    if count < scroll_bottom - row + 1 {
                        count as int
                    } else {
                        scroll_bottom - row + 1
                    },
                    old(self).spec_size().col_count() as nat,
                    style,
                )
            },
    {
        proof {
            reveal(fills);
        }
        if count == 0 || row < scroll_top || row > scroll_bottom {
            return ;
        }
        let n: u16 = if count <= scroll_bottom - row {
            count
        } else {
            scroll_bottom - row + 1
        };
        let _ = self.rotate_up(n, row, scroll_bottom, style);
    }

    /// Scrolls the region up by `count` rows and returns the displaced rows
    /// (the rows that left the region) in top-to-bottom order.
    ///
    /// The caller decides whether the displaced rows become scrollback; a
    /// partial region scroll must discard them.
    pub(crate) fn scroll_up(
        &mut self,
        count: u16,
        scroll_top: u16,
        scroll_bottom: u16,
        style: Style,
    ) -> (displaced: Vec<Vec<Cell>>)
        requires
            old(self).wf(),
            scroll_top <= scroll_bottom < old(self).spec_size().row_count(),
        ensures
            final(self).wf(),
            final(self).spec_size() == old(self).spec_size(),
            final(self)@ == scroll_region_up(
                old(self)@,
                scroll_top as int,
                scroll_bottom as int,
                count as int,
                old(self).spec_size().col_count() as nat,
                style,
            ),
            displaced@.len() == if count <= scroll_bottom - scroll_top {
                count as int
            } else {
                scroll_bottom - scroll_top + 1
            },
            forall|k: int|
                0 <= k < displaced@.len() ==> (#[trigger] displaced@[k])@ == old(self)@[scroll_top
                    + k],
    {
        proof {
            reveal(fills);
        }
        if count <= scroll_bottom - scroll_top {
            return self.rotate_up(count, scroll_top, scroll_bottom, style);
        }
        let region: u16 = scroll_bottom - scroll_top + 1;
        let mut displaced: Vec<Vec<Cell>> = Vec::with_capacity(region as usize);
        let mut i: u16 = 0;
        while i < region
            invariant
                i <= region,
                region == scroll_bottom - scroll_top + 1,
                self.wf(),
                self@ == old(self)@,
                scroll_bottom < self@.len(),
                displaced@.len() == i,
                forall|k: int|
                    0 <= k < i ==> (#[trigger] displaced@[k])@ == old(self)@[scroll_top + k],
            decreases region - i,
        {
            let row: &Vec<Cell> = &self.rows[scroll_top as usize + i as usize];
            displaced.push(vstd::slice::slice_to_vec(row.as_slice()));
            i += 1;
        }
        self.erase_rows(scroll_top, scroll_bottom + 1, style);
        displaced
    }

    /// Scrolls the region down by `count` rows.
    pub(crate) fn scroll_down(
        &mut self,
        count: u16,
        scroll_top: u16,
        scroll_bottom: u16,
        style: Style,
    )
        requires
            old(self).wf(),
            scroll_top <= scroll_bottom < old(self).spec_size().row_count(),
        ensures
            final(self).wf(),
            final(self).spec_size() == old(self).spec_size(),
            final(self)@ == scroll_region_down(
                old(self)@,
                scroll_top as int,
                scroll_bottom as int,
                count as int,
                old(self).spec_size().col_count() as nat,
                style,
            ),
    {
        proof {
            reveal(fills);
        }
        if count <= scroll_bottom - scroll_top {
            self.rotate_down(count, scroll_top, scroll_bottom, style);
        } else {
            self.erase_rows(scroll_top, scroll_bottom + 1, style);
        }
    }
}

} // verus!
