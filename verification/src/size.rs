//! Shared geometry value for PTY and terminal grid sizing.

use vstd::prelude::*;

verus! {

/// Grid size in character cells.
///
/// Used both for the PTY window size and for the emulator's screen. Rows and
/// columns are never zero, so an unaddressable grid cannot be constructed.
#[derive(Debug, Clone, Copy, PartialEq, Eq, Structural, Hash)]
pub struct Size {
    rows: u16,
    cols: u16,
}

impl Size {
    #[verifier::type_invariant]
    spec fn non_zero(self) -> bool {
        self.rows > 0 && self.cols > 0
    }

    /// The number of rows.
    pub closed spec fn row_count(self) -> u16 {
        self.rows
    }

    /// The number of columns.
    pub closed spec fn col_count(self) -> u16 {
        self.cols
    }

    /// A size addresses at least one cell.
    pub open spec fn addressable(self) -> bool {
        self.row_count() > 0 && self.col_count() > 0
    }

    /// Builds a size, or returns `None` if either dimension is zero.
    pub fn new(rows: u16, cols: u16) -> (size: Option<Size>)
        ensures
            size is Some <==> rows > 0 && cols > 0,
            size matches Some(size) ==> size.row_count() == rows && size.col_count() == cols,
    {
        if rows == 0 || cols == 0 {
            None
        } else {
            Some(Size { rows, cols })
        }
    }

    /// Returns the number of rows.
    pub fn rows(&self) -> (rows: u16)
        ensures
            rows == self.row_count(),
            self.addressable(),
    {
        proof {
            use_type_invariant(self);
        }
        self.rows
    }

    /// Returns the number of columns.
    pub fn cols(&self) -> (cols: u16)
        ensures
            cols == self.col_count(),
            self.addressable(),
    {
        proof {
            use_type_invariant(self);
        }
        self.cols
    }
}

/// Two sizes with the same dimensions are the same size.
pub proof fn size_is_its_dimensions(a: Size, b: Size)
    requires
        a.row_count() == b.row_count(),
        a.col_count() == b.col_count(),
    ensures
        a == b,
{
}

} // verus!
