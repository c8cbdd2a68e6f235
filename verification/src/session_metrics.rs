//! What a session holds, has held at most, and has done.

use vstd::prelude::*;

use crate::session::{tally, SessionModel};
use crate::terminal_scrollback::cell_total;

verus! {

/// The most that a session has held at one time.
#[derive(Debug, Clone, Copy, PartialEq, Eq, Structural)]
pub struct SessionPeaks {
    /// Bytes read and not yet decoded.
    pub read_buffer_bytes: usize,
    /// Bytes that waited to be written.
    pub write_bytes: usize,
    /// Lines of the history.
    pub scrollback_lines: usize,
    /// Cells of the history.
    pub scrollback_cells: usize,
}

/// A quantity as a `usize`, or the largest one there is.
pub open spec fn as_count(n: nat) -> usize {
    if n <= usize::MAX {
        n as usize
    } else {
        usize::MAX
    }
}

/// The larger of two counts.
pub open spec fn larger(a: usize, b: usize) -> usize {
    if a < b {
        b
    } else {
        a
    }
}

impl SessionPeaks {
    /// Nothing was held yet.
    pub open spec fn zero() -> SessionPeaks {
        SessionPeaks {
            read_buffer_bytes: 0,
            write_bytes: 0,
            scrollback_lines: 0,
            scrollback_cells: 0,
        }
    }

    /// The peaks once these quantities were seen too.
    pub open spec fn seen(
        self,
        read_buffer_bytes: usize,
        write_bytes: usize,
        scrollback_lines: usize,
        scrollback_cells: usize,
    ) -> SessionPeaks {
        SessionPeaks {
            read_buffer_bytes: larger(self.read_buffer_bytes, read_buffer_bytes),
            write_bytes: larger(self.write_bytes, write_bytes),
            scrollback_lines: larger(self.scrollback_lines, scrollback_lines),
            scrollback_cells: larger(self.scrollback_cells, scrollback_cells),
        }
    }

    /// Takes quantities into account.
    pub fn observe(
        &mut self,
        read_buffer_bytes: usize,
        write_bytes: usize,
        scrollback_lines: usize,
        scrollback_cells: usize,
    )
        ensures
            *final(self) == old(self).seen(
                read_buffer_bytes,
                write_bytes,
                scrollback_lines,
                scrollback_cells,
            ),
    {
        if self.read_buffer_bytes < read_buffer_bytes {
            self.read_buffer_bytes = read_buffer_bytes;
        }
        if self.write_bytes < write_bytes {
            self.write_bytes = write_bytes;
        }
        if self.scrollback_lines < scrollback_lines {
            self.scrollback_lines = scrollback_lines;
        }
        if self.scrollback_cells < scrollback_cells {
            self.scrollback_cells = scrollback_cells;
        }
    }
}

impl Default for SessionPeaks {
    fn default() -> (peaks: SessionPeaks)
        ensures
            peaks == SessionPeaks::zero(),
    {
        SessionPeaks {
            read_buffer_bytes: 0,
            write_bytes: 0,
            scrollback_lines: 0,
            scrollback_cells: 0,
        }
    }
}

/// What a session holds now, has held at most, and has done so far, returned
/// by [`Session::metrics()`](crate::session::Session::metrics()).
#[derive(Debug, Clone, Copy, PartialEq, Eq, Structural)]
pub struct SessionMetrics {
    /// Pumps begun.
    pub pump_calls: u64,
    /// Pumps that had nothing to spend, or ended with their budget exhausted
    /// and work still pending.
    pub pump_budget_exhaustions: u64,
    /// Bytes read from the PTY.
    pub pty_bytes_read: u64,
    /// Bytes written to the PTY.
    pub pty_bytes_written: u64,
    /// Bytes fed to the terminal emulator.
    pub terminal_bytes_processed: u64,
    /// Reply bytes generated by the terminal emulator.
    pub terminal_reply_bytes_generated: u64,
    /// Input bytes accepted.
    pub input_bytes_enqueued: u64,
    /// `read` syscalls attempted.
    pub read_syscalls: u64,
    /// `write` syscalls attempted.
    pub write_syscalls: u64,
    /// `read` syscalls that would have blocked.
    pub read_would_block: u64,
    /// `write` syscalls that would have blocked.
    pub write_would_block: u64,
    /// Bytes read and not yet decoded.
    pub read_buffer_bytes: usize,
    /// The most bytes that were read and not yet decoded.
    pub max_read_buffer_bytes: usize,
    /// Bytes that wait to be written.
    pub pending_write_bytes: usize,
    /// Those of them that are application input.
    pub pending_input_bytes: usize,
    /// Those of them that are a terminal reply.
    pub pending_reply_bytes: usize,
    /// The most bytes that waited to be written.
    pub max_pending_write_bytes: usize,
    /// Lines of the history.
    pub scrollback_lines: usize,
    /// The most lines of the history.
    pub max_scrollback_lines: usize,
    /// Cells of the history.
    pub scrollback_cells: usize,
    /// The most cells of the history.
    pub max_scrollback_cells: usize,
}

impl SessionModel {
    /// With what is held now taken into account.
    pub open spec fn peaked(self) -> SessionModel {
        SessionModel {
            peaks: self.peaks.seen(
                as_count(self.unread.len()),
                as_count(self.unsent.len()),
                as_count(self.term.scrollback.len()),
                as_count(cell_total(self.term.scrollback)),
            ),
            ..self
        }
    }

    /// How many bytes of the pending reply wait to be written.
    pub open spec fn reply_len(self) -> int {
        match self.reply {
            Some((start, end)) => end - start,
            None => 0,
        }
    }

    /// What the session holds, has held at most, and has done.
    pub open spec fn metrics(self) -> SessionMetrics {
        SessionMetrics {
            pump_calls: self.counters.pump_calls,
            pump_budget_exhaustions: self.counters.pump_budget_exhaustions,
            pty_bytes_read: self.counters.pty_bytes_read,
            pty_bytes_written: tally(
                self.counters.input_bytes_written,
                self.counters.reply_bytes_written as int,
            ),
            terminal_bytes_processed: self.counters.terminal_bytes_processed,
            terminal_reply_bytes_generated: self.counters.terminal_reply_bytes_generated,
            input_bytes_enqueued: self.counters.input_bytes_enqueued,
            read_syscalls: self.counters.read_syscalls,
            write_syscalls: self.counters.write_syscalls,
            read_would_block: self.counters.read_would_block,
            write_would_block: self.counters.write_would_block,
            read_buffer_bytes: as_count(self.unread.len()),
            max_read_buffer_bytes: self.peaks.read_buffer_bytes,
            pending_write_bytes: as_count(self.unsent.len()),
            pending_input_bytes: as_count((self.unsent.len() - self.reply_len()) as nat),
            pending_reply_bytes: as_count(self.reply_len() as nat),
            max_pending_write_bytes: self.peaks.write_bytes,
            scrollback_lines: as_count(self.term.scrollback.len()),
            max_scrollback_lines: self.peaks.scrollback_lines,
            scrollback_cells: as_count(cell_total(self.term.scrollback)),
            max_scrollback_cells: self.peaks.scrollback_cells,
        }
    }
}

} // verus!
