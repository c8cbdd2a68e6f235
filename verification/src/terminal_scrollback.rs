//! Scrollback storage and trimming for the terminal emulator.

use std::collections::VecDeque;

use vstd::prelude::*;

use crate::snapshot::{lines_view, TerminalLine};
use crate::terminal_types::Cell;

verus! {

/// Bounds on the history of a session.
#[derive(Debug, Clone, Copy, PartialEq, Eq, Structural)]
pub struct ScrollbackLimits {
    /// Maximum number of lines.
    pub max_lines: usize,
    /// Maximum number of cells, over all lines.
    pub max_cells: usize,
}

impl ScrollbackLimits {
    /// Whether nothing is kept at all.
    pub open spec fn spec_is_disabled(self) -> bool {
        self.max_lines == 0 || self.max_cells == 0
    }

    /// Returns limits under which no history is kept.
    pub fn disabled() -> (limits: ScrollbackLimits)
        ensures
            limits == (ScrollbackLimits { max_lines: 0, max_cells: 0 }),
            limits.spec_is_disabled(),
    {
        ScrollbackLimits { max_lines: 0, max_cells: 0 }
    }

    /// Returns whether no history is kept.
    pub fn is_disabled(&self) -> (disabled: bool)
        ensures
            disabled == self.spec_is_disabled(),
    {
        self.max_lines == 0 || self.max_cells == 0
    }
}

/// The number of cells in a list of lines.
pub open spec fn cell_total(lines: Seq<Seq<Cell>>) -> nat
    decreases lines.len(),
{
    if lines.len() == 0 {
        0
    } else {
        cell_total(lines.drop_last()) + lines.last().len()
    }
}

/// Whether a list of lines keeps to both limits.
pub open spec fn fits(lines: Seq<Seq<Cell>>, max_lines: nat, max_cells: nat) -> bool {
    lines.len() <= max_lines && cell_total(lines) <= max_cells
}

/// What is left of a list of lines once the oldest have gone, one by one,
/// until both limits hold. A limit of zero leaves nothing.
pub open spec fn trimmed(lines: Seq<Seq<Cell>>, max_lines: nat, max_cells: nat) -> Seq<Seq<Cell>>
    decreases lines.len(),
{
    if max_lines == 0 || max_cells == 0 {
        Seq::empty()
    } else if lines.len() == 0 || fits(lines, max_lines, max_cells) {
        lines
    } else {
        trimmed(lines.skip(1), max_lines, max_cells)
    }
}

/// The cells of two lists add up.
pub proof fn lemma_cell_total_concat(a: Seq<Seq<Cell>>, b: Seq<Seq<Cell>>)
    ensures
        cell_total(a + b) == cell_total(a) + cell_total(b),
    decreases b.len(),
{
    if b.len() == 0 {
        assert(a + b =~= a);
    } else {
        lemma_cell_total_concat(a, b.drop_last());
        assert((a + b).drop_last() =~= a + b.drop_last());
    }
}

/// Without its first line, a list has that line's cells less.
pub proof fn lemma_cell_total_skip(lines: Seq<Seq<Cell>>)
    requires
        lines.len() > 0,
    ensures
        cell_total(lines) == lines[0].len() + cell_total(lines.skip(1)),
{
    lemma_cell_total_concat(lines.take(1), lines.skip(1));
    assert(lines.take(1) + lines.skip(1) =~= lines);
    assert(lines.take(1).drop_last() =~= Seq::empty());
    assert(cell_total(lines.take(1).drop_last()) == 0);
}

/// Lines of at most `width` cells hold at most `width` cells each in all.
pub proof fn lemma_cell_total_bound(lines: Seq<Seq<Cell>>, width: nat)
    requires
        forall|i: int| 0 <= i < lines.len() ==> (#[trigger] lines[i]).len() <= width,
    ensures
        cell_total(lines) <= lines.len() * width,
    decreases lines.len(),
{
    if lines.len() > 0 {
        lemma_cell_total_bound(lines.drop_last(), width);
        assert(lines.len() * width == (lines.len() - 1) * width + width) by (nonlinear_arith);
    }
}

/// Trimming keeps the newest lines: it takes lines away from the front only,
/// and no more of them than the limits ask for. What it leaves is empty or
/// keeps to both limits.
pub proof fn trimming_keeps_the_newest(lines: Seq<Seq<Cell>>, max_lines: nat, max_cells: nat)
    ensures
        ({
            let left = trimmed(lines, max_lines, max_cells);
            let gone = lines.len() - left.len();
            &&& 0 <= gone
            &&& left == lines.skip(gone)
            &&& cell_total(left) <= cell_total(lines)
            &&& fits(left, max_lines, max_cells)
            &&& max_lines > 0 && max_cells > 0 ==> forall|k: int|
                0 <= k < gone ==> !fits(#[trigger] lines.skip(k), max_lines, max_cells)
        }),
    decreases lines.len(),
{
    let left = trimmed(lines, max_lines, max_cells);
    if max_lines == 0 || max_cells == 0 {
        assert(lines.skip(lines.len() as int) =~= Seq::empty());
    } else if lines.len() == 0 || fits(lines, max_lines, max_cells) {
        assert(lines.skip(0) =~= lines);
    } else {
        trimming_keeps_the_newest(lines.skip(1), max_lines, max_cells);
        lemma_cell_total_skip(lines);
        let gone = lines.len() - left.len();
        assert(lines.skip(1).skip(gone - 1) =~= lines.skip(gone));
        assert forall|k: int| 0 <= k < gone implies !fits(
            #[trigger] lines.skip(k),
            max_lines,
            max_cells,
        ) by {
            if k == 0 {
                assert(lines.skip(0) =~= lines);
            } else {
                assert(lines.skip(1).skip(k - 1) =~= lines.skip(k));
            }
        }
    }
}

/// Trimming twice to the same limits is trimming once.
pub proof fn trimming_is_idempotent(lines: Seq<Seq<Cell>>, max_lines: nat, max_cells: nat)
    ensures
        trimmed(trimmed(lines, max_lines, max_cells), max_lines, max_cells) == trimmed(
            lines,
            max_lines,
            max_cells,
        ),
{
    trimming_keeps_the_newest(lines, max_lines, max_cells);
}

/// A history that is trimmed while it grows ends as one that is trimmed once
/// it has grown.
pub proof fn trimming_while_growing(
    lines: Seq<Seq<Cell>>,
    more: Seq<Seq<Cell>>,
    max_lines: nat,
    max_cells: nat,
)
    ensures
        trimmed(trimmed(lines, max_lines, max_cells) + more, max_lines, max_cells) == trimmed(
            lines + more,
            max_lines,
            max_cells,
        ),
    decreases lines.len(),
{
    if max_lines > 0 && max_cells > 0 && lines.len() > 0 && !fits(lines, max_lines, max_cells) {
        trimming_while_growing(lines.skip(1), more, max_lines, max_cells);
        lemma_cell_total_concat(lines, more);
        assert((lines + more).skip(1) =~= lines.skip(1) + more);
    }
}

/// Removes the oldest complete lines until both limits hold.
///
/// Lines are always removed whole, oldest first, so the newest content is
/// kept. If either limit is zero the entire history is cleared. The retained
/// cell total is kept in `cells` and updated as lines are removed. When a
/// single newest line alone exceeds `max_cells`, nothing can be retained and
/// the history ends empty.
pub fn trim_scrollback(
    scrollback: &mut VecDeque<TerminalLine>,
    cells: &mut u128,
    max_lines: usize,
    max_cells: usize,
)
    requires
        *old(cells) == cell_total(lines_view(old(scrollback)@)),
    ensures
        lines_view(final(scrollback)@) == trimmed(
            lines_view(old(scrollback)@),
            max_lines as nat,
            max_cells as nat,
        ),
        *final(cells) == cell_total(lines_view(final(scrollback)@)),
{
    if max_lines == 0 || max_cells == 0 {
        *cells = 0;
        scrollback.clear();
        proof {
            assert(lines_view(scrollback@) =~= Seq::empty());
        }
        return ;
    }
    while scrollback.len() > 0 && (scrollback.len() > max_lines || *cells > max_cells as u128)
        invariant
            max_lines > 0,
            max_cells > 0,
            *cells == cell_total(lines_view(scrollback@)),
            trimmed(lines_view(scrollback@), max_lines as nat, max_cells as nat) == trimmed(
                lines_view(old(scrollback)@),
                max_lines as nat,
                max_cells as nat,
            ),
        decreases scrollback@.len(),
    {
        let ghost before = lines_view(scrollback@);
        match scrollback.pop_front() {
            Some(line) => {
                proof {
                    lemma_cell_total_skip(before);
                    assert(lines_view(scrollback@) =~= before.skip(1));
                }
                *cells = *cells - line.len() as u128;
            },
            None => {},
        }
    }
}

} // verus!
