//! Owned, I/O-free snapshots of the terminal state.
//!
//! A [`TerminalSnapshot`] copies the visible screen, cursor, modes, current
//! style, title, whether the alternate screen is active, and primary-derived
//! scrollback out of a terminal so the caller can keep the data while the
//! session keeps running. It never borrows from the emulator.

use vstd::prelude::*;

use crate::size::Size;
use crate::terminal_buffer::has_width;
use crate::terminal_types::{Cell, Position, Style, TerminalModes};

verus! {

/// One physical row saved into scrollback, oldest-first.
///
/// Cells are owned in left-to-right order and are never reflowed by later
/// resizes.
#[derive(Debug, Clone, PartialEq, Eq)]
pub struct TerminalLine {
    cells: Vec<Cell>,
}

/// The name under which scrollback goes by its lines.
pub type ScrollbackLine = TerminalLine;

impl View for TerminalLine {
    type V = Seq<Cell>;

    closed spec fn view(&self) -> Seq<Cell> {
        self.cells@
    }
}

impl TerminalLine {
    /// Makes a line of a row of cells.
    pub fn new(cells: Vec<Cell>) -> (line: TerminalLine)
        ensures
            line@ == cells@,
    {
        TerminalLine { cells }
    }

    /// Returns the row's cells in left-to-right order.
    pub fn cells(&self) -> (cells: &[Cell])
        ensures
            cells@ == self@,
    {
        self.cells.as_slice()
    }

    /// Returns the number of cells in the line (the row width at save time).
    pub fn len(&self) -> (len: usize)
        ensures
            len == self@.len(),
    {
        self.cells.len()
    }

    /// Returns whether the line has no cells.
    pub fn is_empty(&self) -> (empty: bool)
        ensures
            empty == (self@.len() == 0),
    {
        self.cells.len() == 0
    }

    /// Returns an owned copy of the line.
    pub fn copy(&self) -> (line: TerminalLine)
        ensures
            line@ == self@,
    {
        TerminalLine { cells: vstd::slice::slice_to_vec(self.cells.as_slice()) }
    }
}

/// Lines by their cells.
pub open spec fn lines_view(lines: Seq<TerminalLine>) -> Seq<Seq<Cell>> {
    Seq::new(lines.len(), |i: int| lines[i]@)
}

/// Rows by their cells.
pub open spec fn rows_view(rows: Seq<Vec<Cell>>) -> Seq<Seq<Cell>> {
    Seq::new(rows.len(), |i: int| rows[i]@)
}

/// Returns whether two rows hold the same cells.
pub(crate) fn same_cells(a: &[Cell], b: &[Cell]) -> (same: bool)
    ensures
        same == (a@ == b@),
{
    if a.len() != b.len() {
        return false;
    }
    let mut i: usize = 0;
    while i < a.len()
        invariant
            i <= a@.len(),
            a@.len() == b@.len(),
            a@.subrange(0, i as int) == b@.subrange(0, i as int),
        decreases a@.len() - i,
    {
        if a[i] != b[i] {
            proof {
                assert(a@[i as int] != b@[i as int]);
            }
            return false;
        }
        i += 1;
        proof {
            assert(a@.subrange(0, i as int) =~= a@.subrange(0, i - 1).push(a@[i - 1]));
            assert(b@.subrange(0, i as int) =~= b@.subrange(0, i - 1).push(b@[i - 1]));
        }
    }
    proof {
        assert(a@.subrange(0, i as int) =~= a@);
        assert(b@.subrange(0, i as int) =~= b@);
    }
    true
}

/// Returns whether two grids hold the same cells.
pub(crate) fn same_rows(a: &Vec<Vec<Cell>>, b: &Vec<Vec<Cell>>) -> (same: bool)
    ensures
        same == (rows_view(a@) == rows_view(b@)),
{
    if a.len() != b.len() {
        proof {
            assert(rows_view(a@).len() != rows_view(b@).len());
        }
        return false;
    }
    let mut i: usize = 0;
    while i < a.len()
        invariant
            i <= a@.len(),
            a@.len() == b@.len(),
            forall|k: int| 0 <= k < i ==> #[trigger] rows_view(a@)[k] == rows_view(b@)[k],
        decreases a@.len() - i,
    {
        if !same_cells(a[i].as_slice(), b[i].as_slice()) {
            proof {
                assert(rows_view(a@)[i as int] != rows_view(b@)[i as int]);
            }
            return false;
        }
        i += 1;
    }
    proof {
        assert(rows_view(a@) =~= rows_view(b@));
    }
    true
}

/// What a snapshot shows. Two snapshots that show the same are equal.
pub struct SnapshotContent {
    /// The screen size.
    pub size: Size,
    /// The rows of the active screen.
    pub rows: Seq<Seq<Cell>>,
    /// The cursor position.
    pub cursor: Position,
    /// The terminal modes.
    pub modes: TerminalModes,
    /// The drawing style.
    pub style: Style,
    /// The window title.
    pub title: Seq<char>,
    /// Whether the alternate screen was active.
    pub on_alternate: bool,
    /// The scrollback, oldest line first.
    pub scrollback: Seq<Seq<Cell>>,
}

/// Owned copy of the terminal state at snapshot time.
///
/// Construction copies the visible screen, cursor, modes, current style,
/// title, whether the alternate screen was active, primary-derived
/// scrollback, and the source revision. Snapshot payloads never include
/// session or pane identity, child process status, file descriptors, parser
/// state, or undrained replies.
///
/// The revision depends on how the input was partitioned across `feed` calls,
/// so it is excluded from equality: two snapshots with identical content
/// compare equal even when captured at different revisions.
#[derive(Debug, Clone)]
pub struct TerminalSnapshot {
    size: Size,
    rows: Vec<Vec<Cell>>,
    cursor: Position,
    modes: TerminalModes,
    style: Style,
    title: String,
    on_alternate: bool,
    scrollback: Vec<TerminalLine>,
    revision: u64,
}

impl View for TerminalSnapshot {
    type V = SnapshotContent;

    closed spec fn view(&self) -> SnapshotContent {
        SnapshotContent {
            size: self.size,
            rows: rows_view(self.rows@),
            cursor: self.cursor,
            modes: self.modes,
            style: self.style,
            title: self.title@,
            on_alternate: self.on_alternate,
            scrollback: lines_view(self.scrollback@),
        }
    }
}

impl PartialEq for TerminalSnapshot {
    fn eq(&self, other: &TerminalSnapshot) -> (same: bool) {
        let same_screen = self.size == other.size && self.cursor == other.cursor && self.modes
            == other.modes && self.style == other.style && self.on_alternate == other.on_alternate
            && same_rows(&self.rows, &other.rows);
        same_screen && self.title == other.title && same_lines(
            &self.scrollback,
            &other.scrollback,
        )
    }
}

impl vstd::std_specs::cmp::PartialEqSpecImpl for TerminalSnapshot {
    open spec fn obeys_eq_spec() -> bool {
        true
    }

    open spec fn eq_spec(&self, other: &TerminalSnapshot) -> bool {
        self@ == other@
    }
}

impl Eq for TerminalSnapshot {

}

/// Returns whether two lists of lines hold the same cells.
fn same_lines(a: &Vec<TerminalLine>, b: &Vec<TerminalLine>) -> (same: bool)
    ensures
        same == (lines_view(a@) == lines_view(b@)),
{
    if a.len() != b.len() {
        proof {
            assert(lines_view(a@).len() != lines_view(b@).len());
        }
        return false;
    }
    let mut i: usize = 0;
    while i < a.len()
        invariant
            i <= a@.len(),
            a@.len() == b@.len(),
            forall|k: int| 0 <= k < i ==> #[trigger] lines_view(a@)[k] == lines_view(b@)[k],
        decreases a@.len() - i,
    {
        if !same_cells(a[i].cells(), b[i].cells()) {
            proof {
                assert(lines_view(a@)[i as int] != lines_view(b@)[i as int]);
            }
            return false;
        }
        i += 1;
    }
    proof {
        assert(lines_view(a@) =~= lines_view(b@));
    }
    true
}

impl TerminalSnapshot {
    /// The captured revision.
    pub closed spec fn spec_revision(&self) -> u64 {
        self.revision
    }

    /// The rows fill the size.
    pub open spec fn wf(&self) -> bool {
        &&& self@.size.addressable()
        &&& self@.rows.len() == self@.size.row_count()
        &&& has_width(self@.rows, self@.size.col_count() as nat)
    }

    /// Collects the parts of a snapshot.
    pub(crate) fn new(
        size: Size,
        rows: Vec<Vec<Cell>>,
        cursor: Position,
        modes: TerminalModes,
        style: Style,
        title: String,
        on_alternate: bool,
        scrollback: Vec<TerminalLine>,
        revision: u64,
    ) -> (snapshot: TerminalSnapshot)
        ensures
            snapshot@ == (SnapshotContent {
                size,
                rows: rows_view(rows@),
                cursor,
                modes,
                style,
                title: title@,
                on_alternate,
                scrollback: lines_view(scrollback@),
            }),
            snapshot.spec_revision() == revision,
    {
        TerminalSnapshot {
            size,
            rows,
            cursor,
            modes,
            style,
            title,
            on_alternate,
            scrollback,
            revision,
        }
    }

    /// Returns the captured screen size.
    pub fn size(&self) -> (size: Size)
        ensures
            size == self@.size,
    {
        self.size
    }

    /// Returns the source terminal's visible-state revision at capture time.
    pub fn revision(&self) -> (revision: u64)
        ensures
            revision == self.spec_revision(),
    {
        self.revision
    }

    /// Returns the cell at `at` on the captured active screen, if in range.
    pub fn cell(&self, at: Position) -> (cell: Option<Cell>)
        requires
            self.wf(),
        ensures
            cell == if at.row < self@.size.row_count() && at.col < self@.size.col_count() {
                Some(self@.rows[at.row as int][at.col as int])
            } else {
                None
            },
    {
        if at.row >= self.size.rows() || at.col >= self.size.cols() {
            return None;
        }
        proof {
            assert(self@.rows[at.row as int] == self.rows@[at.row as int]@);
        }
        Some(self.rows[at.row as usize][at.col as usize])
    }

    /// Returns each visible row as a left-to-right cell slice, top to bottom.
    ///
    /// A row slice keeps the width it had at snapshot time and is never
    /// reflowed by later resizes.
    pub fn rows(&self) -> (rows: Vec<&[Cell]>)
        ensures
            rows@.len() == self@.rows.len(),
            forall|i: int| 0 <= i < rows@.len() ==> (#[trigger] rows@[i])@ == self@.rows[i],
    {
        row_slices(&self.rows)
    }

    /// Returns the visible row at `row` as a cell slice, if in range.
    pub fn row(&self, row: u16) -> (cells: Option<&[Cell]>)
        requires
            self.wf(),
        ensures
            cells is Some <==> row < self@.size.row_count(),
            cells matches Some(cells) ==> cells@ == self@.rows[row as int],
    {
        if row >= self.size.rows() {
            return None;
        }
        Some(self.rows[row as usize].as_slice())
    }

    /// Returns the captured cursor position.
    pub fn cursor(&self) -> (cursor: Position)
        ensures
            cursor == self@.cursor,
    {
        self.cursor
    }

    /// Returns the captured terminal modes.
    pub fn modes(&self) -> (modes: TerminalModes)
        ensures
            modes == self@.modes,
    {
        self.modes
    }

    /// Returns the captured drawing style (SGR pen).
    pub fn style(&self) -> (style: Style)
        ensures
            style == self@.style,
    {
        self.style
    }

    /// Returns the captured OSC window title.
    pub fn title(&self) -> (title: &str)
        ensures
            title@ == self@.title,
    {
        self.title.as_str()
    }

    /// Returns whether the alternate screen buffer was active at capture time.
    pub fn is_on_alternate_screen(&self) -> (on_alternate: bool)
        ensures
            on_alternate == self@.on_alternate,
    {
        self.on_alternate
    }

    /// Returns the captured primary-derived scrollback, oldest-first.
    pub fn scrollback(&self) -> (lines: &[TerminalLine])
        ensures
            lines_view(lines@) == self@.scrollback,
    {
        self.scrollback.as_slice()
    }
}

/// Returns the rows of a grid as slices.
pub(crate) fn row_slices(rows: &Vec<Vec<Cell>>) -> (slices: Vec<&[Cell]>)
    ensures
        slices@.len() == rows@.len(),
        forall|i: int| 0 <= i < slices@.len() ==> (#[trigger] slices@[i])@ == rows@[i]@,
{
    let mut slices: Vec<&[Cell]> = Vec::with_capacity(rows.len());
    let mut i: usize = 0;
    while i < rows.len()
        invariant
            i <= rows@.len(),
            slices@.len() == i,
            forall|k: int| 0 <= k < i ==> (#[trigger] slices@[k])@ == rows@[k]@,
        decreases rows@.len() - i,
    {
        slices.push(rows[i].as_slice());
        i += 1;
    }
    slices
}

/// Returns an owned copy of a grid.
pub(crate) fn copy_rows(rows: &Vec<Vec<Cell>>) -> (copy: Vec<Vec<Cell>>)
    ensures
        rows_view(copy@) == rows_view(rows@),
{
    let mut copy: Vec<Vec<Cell>> = Vec::with_capacity(rows.len());
    let mut i: usize = 0;
    while i < rows.len()
        invariant
            i <= rows@.len(),
            copy@.len() == i,
            forall|k: int| 0 <= k < i ==> (#[trigger] copy@[k])@ == rows@[k]@,
        decreases rows@.len() - i,
    {
        copy.push(vstd::slice::slice_to_vec(rows[i].as_slice()));
        i += 1;
    }
    proof {
        assert(rows_view(copy@) =~= rows_view(rows@));
    }
    copy
}

} // verus!
