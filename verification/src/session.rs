//! Single terminal session with runtime-free I/O.
//!
//! A [`Session`] owns the emulator, a bounded read buffer, an unbounded write
//! queue and the lifecycle of one child process. It performs no I/O: a pump
//! tells its caller which bytes to write or how many to read, and the caller
//! reports how that went.
//!
//! One pump is the scheduling quantum; a multi-session loop should rotate
//! among runnable sessions rather than draining one session to idle. How much
//! work a single pump may do is bounded by the [`PumpBudget`] passed to it, so
//! a session with a large backlog cannot monopolise the loop.
//!
//! Application input and terminal replies share one FIFO write queue. A reply
//! is appended in chronological order and decoding pauses until that reply is
//! fully written, so at most one reply (bounded by a fixed size) is ever
//! pending and replies never overtake previously accepted input. The write
//! queue itself is unbounded; callers apply backpressure by comparing
//! [`Session::write_queue_len()`] against a limit of their own.
//!
//! Child exit and PTY EOF are tracked separately: reaping the child does not
//! disable I/O, so any remaining output can still be drained until EOF.

use std::ops::Range;

use vstd::prelude::*;

use crate::input::Input;
use crate::pty::ObservedExit;
use crate::session_metrics::{SessionMetrics, SessionPeaks};
use crate::size::Size;
use crate::terminal::TerminalState;
use crate::terminal_model::TerminalModel;
use crate::terminal_scrollback::{trimmed, trimming_keeps_the_newest};
use crate::terminal_types::TerminalModes;

verus! {

/// Maximum size of a single pending terminal reply.
///
/// The emulator answers a cursor position request with
/// `ESC [ <row> ; <col> R`. Both numbers have at most five digits because the
/// grid is `u16` sized, so the longest reply is 14 bytes.
pub const MAX_PENDING_REPLY_BYTES: usize = 14;

/// Maximum raw bytes held between reading from the PTY and decoding.
pub const READ_BUFFER_LIMIT: usize = 65536;

/// Drop an already-used prefix of a buffer once it reaches this size.
const COMPACT_THRESHOLD: usize = 4096;

/// Whether the first `used` of `len` bytes of a buffer are to be dropped: there
/// are many of them, or nothing comes after them.
spec fn is_droppable(used: usize, len: nat) -> bool {
    used > 0 && (used >= COMPACT_THRESHOLD || used == len)
}

/// Ceiling on the work a single pump performs.
///
/// The ceiling counts both bytes moved (read + decoded + written) and syscalls
/// attempted. A pump stops at whichever is reached first. Every value is
/// valid, including zero: a zero in either field makes a pump stop
/// immediately, which reports an exhausted budget without doing work.
#[derive(Debug, Clone, Copy, PartialEq, Eq, Structural)]
pub struct PumpBudget {
    /// Maximum bytes the pump may move, counting reads, decoded output, and
    /// writes together.
    pub bytes: usize,
    /// Maximum read and write syscalls the pump may ask for.
    pub syscalls: usize,
}

/// `a` less `b`, or zero.
pub open spec fn less(a: usize, b: int) -> usize {
    if a >= b {
        (a - b) as usize
    } else {
        0
    }
}

/// `a` and `b` together, or the largest count there is.
pub open spec fn tally(a: u64, b: int) -> u64 {
    if a + b <= u64::MAX {
        (a + b) as u64
    } else {
        u64::MAX
    }
}

impl PumpBudget {
    /// What is left after `bytes` and `syscalls`.
    pub open spec fn after(self, bytes: int, syscalls: int) -> PumpBudget {
        PumpBudget { bytes: less(self.bytes, bytes), syscalls: less(self.syscalls, syscalls) }
    }

    /// Whether either ceiling has been reached.
    pub open spec fn is_spent(self) -> bool {
        self.bytes == 0 || self.syscalls == 0
    }

    /// Charges `bytes` and `syscalls` against the ceiling.
    pub fn consume(&mut self, bytes: usize, syscalls: usize)
        ensures
            *final(self) == old(self).after(bytes as int, syscalls as int),
    {
        self.bytes = self.bytes.saturating_sub(bytes);
        self.syscalls = self.syscalls.saturating_sub(syscalls);
    }

    /// Bytes still allowed in this pump.
    pub fn bytes_left(&self) -> (bytes: usize)
        ensures
            bytes == self.bytes,
    {
        self.bytes
    }

    /// Whether either ceiling has been reached.
    pub fn exhausted(&self) -> (spent: bool)
        ensures
            spent == self.is_spent(),
    {
        self.bytes == 0 || self.syscalls == 0
    }
}

impl Default for PumpBudget {
    /// The recommended ceiling: 64 KiB of traffic or 64 syscalls, whichever
    /// comes first.
    fn default() -> (budget: PumpBudget)
        ensures
            budget == (PumpBudget { bytes: 65536, syscalls: 64 }),
    {
        PumpBudget { bytes: 65536, syscalls: 64 }
    }
}

/// Read/write interests an event loop should register for the session's fd.
#[derive(Debug, Clone, Copy, PartialEq, Eq, Structural, Hash)]
pub struct Interests {
    /// Whether readable events should be polled.
    pub readable: bool,
    /// Whether writable events should be polled.
    pub writable: bool,
}

impl Default for Interests {
    fn default() -> (interests: Interests)
        ensures
            interests == (Interests { readable: false, writable: false }),
    {
        Interests { readable: false, writable: false }
    }
}

/// Cumulative counters tracked by a session, returned by
/// [`Session::counters()`].
///
/// Every field is a running total, which is never reset for the lifetime of
/// the session. A total that reaches the largest count stays there.
#[derive(Debug, Clone, Copy, PartialEq, Eq, Structural)]
pub struct SessionCounters {
    /// Pumps begun.
    pub pump_calls: u64,
    /// Pumps that had nothing to spend, or ended with their [`PumpBudget`]
    /// exhausted and work still pending.
    ///
    /// A pump that exhausts its budget stopped with work still pending, so
    /// [`Session::needs_pump()`] stays true. Callers can use a delta of this
    /// counter as an oracle that a single pump did not finish the backlog,
    /// without knowing the budget's numeric value.
    pub pump_budget_exhaustions: u64,
    /// Bytes read from the PTY.
    pub pty_bytes_read: u64,
    /// Bytes fed to the terminal emulator.
    pub terminal_bytes_processed: u64,
    /// Reply bytes generated by the terminal emulator.
    pub terminal_reply_bytes_generated: u64,
    /// Bytes accepted through [`Session::enqueue_input()`].
    pub input_bytes_enqueued: u64,
    /// Application input bytes written to the PTY.
    ///
    /// Together with [`Self::reply_bytes_written`], this accounts for every
    /// byte written to the PTY.
    pub input_bytes_written: u64,
    /// Reply bytes written to the PTY.
    ///
    /// Together with [`Self::input_bytes_written`], this accounts for every
    /// byte written to the PTY.
    pub reply_bytes_written: u64,
    /// `read` syscalls attempted.
    pub read_syscalls: u64,
    /// `write` syscalls attempted.
    pub write_syscalls: u64,
    /// `read` syscalls that would have blocked.
    pub read_would_block: u64,
    /// `write` syscalls that would have blocked.
    pub write_would_block: u64,
}

impl SessionCounters {
    /// The counters of a session that did nothing yet.
    pub open spec fn zero() -> SessionCounters {
        SessionCounters {
            pump_calls: 0,
            pump_budget_exhaustions: 0,
            pty_bytes_read: 0,
            terminal_bytes_processed: 0,
            terminal_reply_bytes_generated: 0,
            input_bytes_enqueued: 0,
            input_bytes_written: 0,
            reply_bytes_written: 0,
            read_syscalls: 0,
            write_syscalls: 0,
            read_would_block: 0,
            write_would_block: 0,
        }
    }
}

impl Default for SessionCounters {
    fn default() -> (counters: SessionCounters)
        ensures
            counters == SessionCounters::zero(),
    {
        SessionCounters {
            pump_calls: 0,
            pump_budget_exhaustions: 0,
            pty_bytes_read: 0,
            terminal_bytes_processed: 0,
            terminal_reply_bytes_generated: 0,
            input_bytes_enqueued: 0,
            input_bytes_written: 0,
            reply_bytes_written: 0,
            read_syscalls: 0,
            write_syscalls: 0,
            read_would_block: 0,
            write_would_block: 0,
        }
    }
}

/// Observable lifecycle phase of a session.
#[derive(Debug, Clone, Copy, PartialEq, Eq, Structural)]
pub enum SessionStatus {
    /// PTY master open, I/O active.
    Live,
    /// PTY EOF observed; remaining output drained.
    Eof,
    /// Logically closed; master closed, awaiting reap.
    Closing,
    /// Direct child reaped and I/O finished; the session is spent.
    ///
    /// This is the *session* being over, not the *child* having exited: it
    /// requires both that the child was reaped and that I/O finished (PTY EOF
    /// or a logical close). A child that has exited while output is still
    /// being drained is not here; ask [`Session::exit_status()`] for that
    /// question instead.
    Reaped,
}

/// Direction cursor used for read/write fairness within one pump.
#[derive(Debug, Clone, Copy, PartialEq, Eq, Structural)]
pub enum Direction {
    /// PTY to terminal.
    Read,
    /// Write queue to PTY.
    Write,
}

impl Direction {
    /// The other direction.
    pub open spec fn other(self) -> Direction {
        match self {
            Direction::Read => Direction::Write,
            Direction::Write => Direction::Read,
        }
    }

    /// Returns the other direction.
    pub fn opposite(self) -> (other: Direction)
        ensures
            other == self.other(),
    {
        match self {
            Direction::Read => Direction::Write,
            Direction::Write => Direction::Read,
        }
    }
}

/// Why a request was refused.
#[derive(Debug, Clone, Copy, PartialEq, Eq, Structural)]
pub enum SessionError {
    /// The session is closed.
    Closed,
}

/// Returns the length of the intersection between unsent outbound bytes and a
/// reply range.
pub fn pending_reply_unsent_len(write_offset: usize, range: Option<&Range<usize>>) -> (len: usize)
    ensures
        len == match range {
            None => 0int,
            Some(range) => {
                let start = if write_offset > range.start {
                    write_offset
                } else {
                    range.start
                };
                if range.end > start {
                    range.end - start
                } else {
                    0
                }
            },
        },
{
    match range {
        Some(range) => {
            let start: usize = if write_offset > range.start {
                write_offset
            } else {
                range.start
            };
            range.end.saturating_sub(start)
        },
        None => 0,
    }
}

/// The state of a session.
pub struct SessionModel {
    /// The terminal.
    pub term: TerminalModel,
    /// The revision of the terminal.
    pub revision: u64,
    /// The lifecycle phase.
    pub phase: SessionStatus,
    /// How the child ended, once it was reaped.
    pub exit: Option<ObservedExit>,
    /// Bytes that were read and not yet decoded.
    pub unread: Seq<u8>,
    /// Bytes that wait to be written, in chronological order.
    pub unsent: Seq<u8>,
    /// Where in `unsent` the pending reply begins and ends.
    pub reply: Option<(int, int)>,
    /// The direction that the next pump starts with.
    pub direction: Direction,
    /// Whether the most recent pump stopped reading because it would block.
    pub read_would_block: bool,
    /// Whether the most recent pump stopped writing because it would block.
    pub write_would_block: bool,
    /// The counters.
    pub counters: SessionCounters,
    /// The most that was held at one time.
    pub peaks: SessionPeaks,
}

/// What a pump asks of its caller.
#[derive(Debug, Clone, Copy, PartialEq, Eq, Structural)]
pub enum PumpAction {
    /// Write this many of the first unsent bytes, in one call.
    Write(usize),
    /// Read at most this many bytes, in one call.
    Read(usize),
    /// Nothing: the pump is over.
    Done,
}

/// How a write went.
#[derive(Debug, Clone, Copy, PartialEq, Eq, Structural)]
pub enum WriteOutcome {
    /// This many bytes were written.
    Wrote(usize),
    /// It would have blocked.
    WouldBlock,
    /// A signal interrupted it.
    Interrupted,
    /// The other end of the PTY is gone.
    Gone,
    /// It failed.
    Failed,
}

/// How a read went.
#[derive(Debug, Clone, Copy, PartialEq, Eq)]
pub enum ReadOutcome<'a> {
    /// These bytes were read; none at the end of the stream.
    Bytes(&'a [u8]),
    /// It would have blocked.
    WouldBlock,
    /// A signal interrupted it.
    Interrupted,
    /// The other end of the PTY is gone.
    Gone,
    /// It failed.
    Failed,
}

/// Where a pump stands.
#[derive(Debug, Clone, Copy, PartialEq, Eq, Structural)]
pub struct Pump {
    /// What is left of the budget.
    pub budget: PumpBudget,
    /// The direction that is being served.
    pub direction: Direction,
    /// How many phases may still begin.
    pub rounds: u8,
    /// Whether the current phase moved anything.
    pub progressed: bool,
}

impl SessionModel {
    /// A session that has just begun.
    pub open spec fn initial(size: Size) -> SessionModel {
        SessionModel {
            term: TerminalModel::initial(size),
            revision: 0,
            phase: SessionStatus::Live,
            exit: None,
            unread: Seq::empty(),
            unsent: Seq::empty(),
            reply: None,
            direction: Direction::Write,
            read_would_block: false,
            write_would_block: false,
            counters: SessionCounters::zero(),
            peaks: SessionPeaks::zero(),
        }
    }

    /// The session is consistent, and its peaks cover what it holds.
    pub open spec fn wf(self) -> bool {
        self.is_consistent() && self.peaked() == self
    }

    /// The emulator owes no reply of its own, the one reply that may be
    /// pending is part of the write queue and of bounded size, the read buffer
    /// keeps to its limit, and a session whose I/O is over is spent if and
    /// only if its child was reaped. A closed session holds no bytes.
    pub open spec fn is_consistent(self) -> bool {
        &&& self.term.replies.len() == 0
        &&& self.unread.len() <= READ_BUFFER_LIMIT
        &&& self.reply matches Some((start, end)) ==> {
            &&& 0 <= start < end <= self.unsent.len()
            &&& end - start <= MAX_PENDING_REPLY_BYTES
        }
        &&& self.phase == SessionStatus::Reaped ==> self.exit is Some
        &&& self.phase == SessionStatus::Eof || self.phase == SessionStatus::Closing
            ==> self.exit is None
        &&& self.phase == SessionStatus::Closing ==> self.unread.len() == 0 && self.unsent.len()
            == 0 && self.reply is None
    }

    /// Whether I/O is over for good.
    pub open spec fn is_closed(self) -> bool {
        self.phase == SessionStatus::Closing || self.phase == SessionStatus::Reaped
    }

    /// Whether reading and decoding wait for a reply to be written.
    pub open spec fn is_paused(self) -> bool {
        self.reply is Some
    }

    /// The interests that the fd should be registered with.
    pub open spec fn wanted(self) -> Interests {
        Interests {
            readable: self.phase == SessionStatus::Live && !self.is_paused(),
            writable: !self.is_closed() && self.unsent.len() > 0,
        }
    }

    /// Whether there is work that does not need a new readiness edge.
    pub open spec fn is_runnable(self) -> bool {
        &&& !self.is_closed()
        &&& {
            ||| self.unsent.len() > 0 && !self.write_would_block
            ||| !self.is_paused() && self.phase == SessionStatus::Live && !self.read_would_block
            ||| !self.is_paused() && self.unread.len() > 0
        }
    }

    /// Whether a direction has work.
    pub open spec fn has_work(self, direction: Direction) -> bool {
        match direction {
            Direction::Write => self.unsent.len() > 0,
            Direction::Read => !self.is_paused() && (self.unread.len() > 0 || self.phase
                == SessionStatus::Live),
        }
    }

    /// The end of the stream was seen.
    #[verifier::opaque]
    pub open spec fn ended(self) -> SessionModel {
        SessionModel {
            phase: if self.exit is Some {
                SessionStatus::Reaped
            } else {
                SessionStatus::Eof
            },
            ..self
        }
    }

    /// With the first `n` unsent bytes written.
    #[verifier::opaque]
    pub open spec fn wrote(self, n: int) -> SessionModel {
        let reply_bytes = match self.reply {
            Some((start, end)) => clip(end, n) - clip(start, n),
            None => 0,
        };
        SessionModel {
            unsent: self.unsent.skip(n),
            reply: match self.reply {
                Some((start, end)) if n < end => Some((start - clip(start, n), end - n)),
                _ => None,
            },
            counters: SessionCounters {
                reply_bytes_written: tally(self.counters.reply_bytes_written, reply_bytes),
                input_bytes_written: tally(self.counters.input_bytes_written, n - reply_bytes),
                ..self.counters
            },
            ..self
        }
    }

    /// With application input at the end of the write queue.
    #[verifier::opaque]
    pub open spec fn enqueue(self, bytes: Seq<u8>) -> SessionModel {
        SessionModel {
            unsent: self.unsent + bytes,
            write_would_block: false,
            counters: SessionCounters {
                input_bytes_enqueued: tally(
                    self.counters.input_bytes_enqueued,
                    bytes.len() as int,
                ),
                ..self.counters
            },
            ..self
        }.peaked()
    }

    /// After a logical close. What was buffered is discarded. The session is
    /// spent if its child was reaped before.
    #[verifier::opaque]
    pub open spec fn close(self) -> SessionModel {
        if self.is_closed() {
            self
        } else {
            SessionModel {
                phase: if self.exit is Some {
                    SessionStatus::Reaped
                } else {
                    SessionStatus::Closing
                },
                unread: Seq::empty(),
                unsent: Seq::empty(),
                reply: None,
                ..self
            }
        }
    }

    /// After the child was reaped. The session is spent unless its stream is
    /// still open.
    #[verifier::opaque]
    pub open spec fn reap(self, exit: ObservedExit) -> SessionModel {
        SessionModel {
            exit: Some(exit),
            phase: if self.phase == SessionStatus::Live {
                SessionStatus::Live
            } else {
                SessionStatus::Reaped
            },
            ..self
        }
    }

    /// With one more write attempted.
    #[verifier::opaque]
    pub open spec fn tried_write(self) -> SessionModel {
        SessionModel {
            counters: SessionCounters {
                write_syscalls: tally(self.counters.write_syscalls, 1),
                ..self.counters
            },
            ..self
        }
    }

    /// With one more read attempted.
    #[verifier::opaque]
    pub open spec fn tried_read(self) -> SessionModel {
        SessionModel {
            counters: SessionCounters {
                read_syscalls: tally(self.counters.read_syscalls, 1),
                ..self.counters
            },
            ..self
        }
    }

    /// After a write that would have blocked.
    #[verifier::opaque]
    pub open spec fn blocked_write(self) -> SessionModel {
        SessionModel {
            write_would_block: true,
            counters: SessionCounters {
                write_would_block: tally(self.counters.write_would_block, 1),
                ..self.counters
            },
            ..self
        }
    }

    /// After a read that would have blocked.
    #[verifier::opaque]
    pub open spec fn blocked_read(self) -> SessionModel {
        SessionModel {
            read_would_block: true,
            counters: SessionCounters {
                read_would_block: tally(self.counters.read_would_block, 1),
                ..self.counters
            },
            ..self
        }
    }

    /// With more bytes to decode.
    #[verifier::opaque]
    pub open spec fn received(self, bytes: Seq<u8>) -> SessionModel {
        SessionModel {
            unread: self.unread + bytes,
            counters: SessionCounters {
                pty_bytes_read: tally(self.counters.pty_bytes_read, bytes.len() as int),
                ..self.counters
            },
            ..self
        }.peaked()
    }

    /// With an empty write queue.
    #[verifier::opaque]
    pub open spec fn without_output(self) -> SessionModel {
        SessionModel { unsent: Seq::empty(), reply: None, ..self }
    }

    /// What the terminal replies to the next unread byte.
    pub open spec fn next_reply(self) -> Seq<u8> {
        self.term.feed(seq![self.unread[0]]).replies
    }

    /// With one unread byte fed to the terminal, and its reply taken.
    #[verifier::opaque]
    pub open spec fn feed_next(self) -> SessionModel {
        let bytes = seq![self.unread[0]];
        SessionModel {
            term: TerminalModel { replies: Seq::empty(), ..self.term.feed(bytes) },
            revision: if self.term.feed_shows(bytes) {
                self.revision.wrapping_add(1)
            } else {
                self.revision
            },
            unread: self.unread.skip(1),
            counters: SessionCounters {
                terminal_bytes_processed: tally(self.counters.terminal_bytes_processed, 1),
                ..self.counters
            },
            ..self
        }
    }

    /// With a reply at the end of the write queue.
    #[verifier::opaque]
    pub open spec fn queue_reply(self, reply: Seq<u8>) -> SessionModel {
        SessionModel {
            unsent: self.unsent + reply,
            reply: Some((self.unsent.len() as int, (self.unsent.len() + reply.len()) as int)),
            counters: SessionCounters {
                terminal_reply_bytes_generated: tally(
                    self.counters.terminal_reply_bytes_generated,
                    reply.len() as int,
                ),
                ..self.counters
            },
            ..self
        }
    }

    /// With one unread byte decoded. A reply goes to the end of the write
    /// queue.
    #[verifier::opaque]
    pub open spec fn decode_one(self) -> SessionModel {
        if self.next_reply().len() == 0 {
            self.feed_next().peaked()
        } else {
            self.feed_next().queue_reply(self.next_reply()).peaked()
        }
    }

    /// With unread bytes decoded one by one, until there are none, a reply is
    /// pending, or `bytes` of them were decoded.
    pub open spec fn decode(self, bytes: int) -> SessionModel
        decreases bytes,
    {
        if bytes <= 0 || self.is_paused() || self.unread.len() == 0 {
            self
        } else {
            self.decode_one().decode(bytes - 1)
        }
    }

    /// How many bytes `decode` takes up.
    pub open spec fn decoded(self, bytes: int) -> int {
        self.unread.len() - self.decode(bytes).unread.len()
    }
}

/// The part of a span of `n` bytes that lies below `bound`.
pub open spec fn clip(bound: int, n: int) -> int {
    if bound < n {
        bound
    } else {
        n
    }
}

/// A pump after one of its steps: the session, where the pump stands, and
/// what it asks for next.
pub struct PumpStep {
    /// The session.
    pub session: SessionModel,
    /// Where the pump stands.
    pub pump: Pump,
    /// What it asks for.
    pub action: PumpAction,
}

/// The pump is over. The next one starts where it stood. It may count as
/// exhausted.
#[verifier::opaque]
pub open spec fn stop(s: SessionModel, p: Pump, exhausted: bool) -> PumpStep {
    PumpStep {
        session: SessionModel {
            direction: p.direction,
            counters: SessionCounters {
                pump_budget_exhaustions: tally(
                    s.counters.pump_budget_exhaustions,
                    if exhausted {
                        1
                    } else {
                        0
                    },
                ),
                ..s.counters
            },
            ..s
        },
        pump: p,
        action: PumpAction::Done,
    }
}

/// The pump has done what it could. It counts as exhausted if its budget is
/// spent and there is work left that does not need a new readiness edge.
pub open spec fn finish(s: SessionModel, p: Pump) -> PumpStep {
    stop(s, p, p.budget.is_spent() && s.is_runnable())
}

/// A phase begins, in the direction of the pump or, where that has no work,
/// in the other one.
pub open spec fn next_round(s: SessionModel, p: Pump) -> PumpStep
    decreases p.rounds, 0int,
{
    let direction = if s.has_work(p.direction) {
        p.direction
    } else {
        p.direction.other()
    };
    let begun = Pump {
        direction,
        rounds: (p.rounds - 1) as u8,
        progressed: false,
        ..p
    };
    if p.rounds == 0 || p.budget.is_spent() {
        finish(s, p)
    } else if !s.has_work(direction) {
        finish(s, begun)
    } else if direction == Direction::Write {
        keep_writing(s, begun)
    } else {
        start_reading(s, begun)
    }
}

/// A phase is over: the other direction is next, if it has work.
pub open spec fn end_phase(s: SessionModel, p: Pump) -> PumpStep
    decreases p.rounds, 1int,
{
    let turned = Pump { direction: p.direction.other(), ..p };
    if s.has_work(turned.direction) {
        next_round(s, turned)
    } else if p.progressed {
        finish(s, turned)
    } else {
        finish(s, p)
    }
}

/// The write phase goes on as long as there is something to write.
pub open spec fn keep_writing(s: SessionModel, p: Pump) -> PumpStep
    decreases p.rounds, 2int,
{
    if p.budget.is_spent() || s.is_closed() || s.unsent.len() == 0 {
        end_phase(s, p)
    } else {
        PumpStep {
            session: s,
            pump: p,
            action: PumpAction::Write(clip(p.budget.bytes as int, s.unsent.len() as int) as usize),
        }
    }
}

/// The read phase goes on as long as the stream is open, no reply is pending
/// and there is room in the buffer.
pub open spec fn keep_reading(s: SessionModel, p: Pump) -> PumpStep
    decreases p.rounds, 2int,
{
    let room = READ_BUFFER_LIMIT - s.unread.len();
    if p.budget.is_spent() || s.is_paused() || s.phase != SessionStatus::Live || room <= 0 {
        end_phase(s, p)
    } else {
        PumpStep {
            session: s,
            pump: p,
            action: PumpAction::Read(clip(p.budget.bytes as int, room) as usize),
        }
    }
}

/// The read phase begins with what is in the buffer.
pub open spec fn start_reading(s: SessionModel, p: Pump) -> PumpStep
    decreases p.rounds, 3int,
{
    let n = s.decoded(p.budget.bytes as int);
    keep_reading(
        s.decode(p.budget.bytes as int),
        Pump { budget: p.budget.after(n, 0), progressed: p.progressed || n > 0, ..p },
    )
}

/// A session as a pump begins with it.
pub open spec fn roused(s: SessionModel) -> SessionModel {
    SessionModel {
        read_would_block: false,
        write_would_block: false,
        counters: SessionCounters { pump_calls: tally(s.counters.pump_calls, 1), ..s.counters },
        ..s
    }
}

/// A pump begins. A closed session is not pumped. A pump with nothing to spend
/// stops at once, and counts as exhausted.
pub open spec fn begin_pump(s: SessionModel, budget: PumpBudget) -> PumpStep {
    let p = Pump { budget, direction: s.direction, rounds: 2, progressed: false };
    if s.is_closed() {
        PumpStep { session: s, pump: p, action: PumpAction::Done }
    } else if budget.is_spent() {
        stop(roused(s), p, true)
    } else {
        next_round(roused(s), p)
    }
}

/// A write that the pump asked for was attempted.
pub open spec fn after_write(s: SessionModel, p: Pump, outcome: WriteOutcome) -> PumpStep {
    let tried = s.tried_write();
    let charged = Pump { budget: p.budget.after(0, 1), ..p };
    match outcome {
        WriteOutcome::Wrote(n) => if n == 0 {
            end_phase(tried, charged)
        } else {
            keep_writing(
                tried.wrote(n as int),
                Pump { budget: p.budget.after(n as int, 1), progressed: true, ..p },
            )
        },
        WriteOutcome::WouldBlock => end_phase(tried.blocked_write(), charged),
        WriteOutcome::Interrupted => end_phase(tried, charged),
        WriteOutcome::Gone => end_phase(tried.without_output().ended(), charged),
        WriteOutcome::Failed => PumpStep {
            session: tried,
            pump: charged,
            action: PumpAction::Done,
        },
    }
}

/// A read that the pump asked for was attempted.
pub open spec fn after_read(s: SessionModel, p: Pump, outcome: ReadOutcome) -> PumpStep {
    let tried = s.tried_read();
    let charged = Pump { budget: p.budget.after(0, 1), ..p };
    match outcome {
        ReadOutcome::Bytes(bytes) => if bytes@.len() == 0 {
            end_phase(tried.ended(), charged)
        } else {
            start_reading(
                tried.received(bytes@),
                Pump { budget: p.budget.after(bytes@.len() as int, 1), progressed: true, ..p },
            )
        },
        ReadOutcome::WouldBlock => end_phase(tried.blocked_read(), charged),
        ReadOutcome::Interrupted => end_phase(tried, charged),
        ReadOutcome::Gone => end_phase(tried.ended(), charged),
        ReadOutcome::Failed => PumpStep {
            session: tried,
            pump: charged,
            action: PumpAction::Done,
        },
    }
}

/// A single terminal session, without the PTY that it talks to.
///
/// The session owns the emulator state, a bounded read buffer, an unbounded
/// write queue, and the child-process lifecycle, but never a poll loop or a
/// file descriptor. Begin a pump with [`Session::pump_io()`] when the PTY is
/// ready (or after any state change), do what it asks for, and report back
/// with [`Session::note_write()`] and [`Session::note_read()`] until it is
/// done. Drain [`Session::needs_pump()`] before blocking in the poll loop.
pub struct Session {
    term: TerminalState,
    phase: SessionStatus,
    /// How the direct child ended, once it has been reaped.
    ///
    /// Independent of the phase: I/O may continue until PTY EOF after the
    /// child exits.
    exit_status: Option<ObservedExit>,
    /// Raw bytes read from the PTY, decoded ones first.
    read_buffer: Vec<u8>,
    /// Number of leading `read_buffer` bytes already decoded.
    read_offset: usize,
    /// Bytes to be written, written ones first, in chronological order.
    outbound: Vec<u8>,
    /// Number of leading `outbound` bytes already written.
    write_offset: usize,
    /// Range of the one unsent terminal reply inside `outbound`.
    ///
    /// While set, reading and decoding are paused until the reply is fully
    /// written, so at most one reply is ever pending.
    pending_reply_range: Option<Range<usize>>,
    /// Direction the next pump should start with.
    direction: Direction,
    /// Whether the most recent pump stopped reading on a full PTY.
    read_would_block: bool,
    /// Whether the most recent pump stopped writing on a full PTY.
    write_would_block: bool,
    counters: SessionCounters,
    /// The most that was held at one time.
    peaks: SessionPeaks,
}

impl Session {
    /// The state of the session.
    pub closed spec fn view(&self) -> SessionModel {
        SessionModel {
            term: self.term@,
            revision: self.term.spec_revision(),
            phase: self.phase,
            exit: self.exit_status,
            unread: self.read_buffer@.skip(self.read_offset as int),
            unsent: self.outbound@.skip(self.write_offset as int),
            reply: match self.pending_reply_range {
                Some(range) => {
                    let start = if range.start < self.write_offset {
                        0
                    } else {
                        range.start - self.write_offset
                    };
                    Some((start, range.end - self.write_offset))
                },
                None => None,
            },
            direction: self.direction,
            read_would_block: self.read_would_block,
            write_would_block: self.write_would_block,
            counters: self.counters,
            peaks: self.peaks,
        }
    }

    /// The used prefixes are parts of the buffers, and the model is
    /// well-formed.
    pub closed spec fn wf(&self) -> bool {
        &&& self.is_consistent()
        &&& self@.peaked() == self@
    }

    /// What of [`Self::wf()`] does not speak of the peaks.
    spec fn is_consistent(&self) -> bool {
        &&& self@.is_consistent()
        &&& self.term.wf()
        &&& self.read_offset <= self.read_buffer@.len()
        &&& self.write_offset <= self.outbound@.len()
    }

    /// What holds of every well-formed session.
    pub proof fn lemma_wf(&self)
        requires
            self.wf(),
        ensures
            self@.wf(),
            self@.unsent.len() <= usize::MAX,
    {
        assert(self.outbound@.len() == self.outbound.len());
    }

    /// Starts a session whose terminal has `size`.
    pub fn new(size: Size) -> (session: Session)
        ensures
            session.wf(),
            session@ == SessionModel::initial(size),
    {
        let session = Session {
            term: TerminalState::new(size),
            phase: SessionStatus::Live,
            exit_status: None,
            read_buffer: Vec::new(),
            read_offset: 0,
            outbound: Vec::new(),
            write_offset: 0,
            pending_reply_range: None,
            direction: Direction::Write,
            read_would_block: false,
            write_would_block: false,
            counters: SessionCounters::default(),
            peaks: SessionPeaks::default(),
        };
        proof {
            assert(session@.unread =~= Seq::<u8>::empty());
            assert(session@.unsent =~= Seq::<u8>::empty());
        }
        session
    }

    /// Returns whether the session still has a PTY to register with an event
    /// loop. It has none after a logical close or once it is spent. Reaping
    /// the child while the master is still open does not change this.
    pub fn has_fd(&self) -> (open: bool)
        ensures
            open == !self@.is_closed(),
    {
        self.phase != SessionStatus::Closing && self.phase != SessionStatus::Reaped
    }

    /// Returns the poll interests the fd should currently be registered with.
    ///
    /// Re-read after any state change (notably after `enqueue_input`, which
    /// may turn on the writable interest) and after every pump.
    pub fn interests(&self) -> (interests: Interests)
        requires
            self.wf(),
        ensures
            interests == self@.wanted(),
    {
        if !self.has_fd() {
            return Interests::default();
        }
        Interests {
            readable: self.phase != SessionStatus::Eof && !self.read_paused(),
            writable: !self.outbound_empty(),
        }
    }

    /// Whether a pump has more work that does not need a new readiness edge.
    ///
    /// Returns `false` when the last pump stopped because a `read` or `write`
    /// would have blocked; the caller should then wait for the interest
    /// reported by [`Session::interests()`]. Returns `true` when internal work
    /// (buffered decoding, a pending reply, or a pump interrupted by its
    /// [`PumpBudget`]) is still executable immediately, which an
    /// edge-triggered loop must drain before blocking.
    pub fn needs_pump(&self) -> (needed: bool)
        requires
            self.wf(),
        ensures
            needed == self@.is_runnable(),
    {
        if !self.has_fd() {
            return false;
        }
        if !self.outbound_empty() && !self.write_would_block {
            return true;
        }
        if self.phase == SessionStatus::Live && !self.read_paused() && !self.read_would_block {
            return true;
        }
        self.buffered_read_len() > 0 && !self.read_paused()
    }

    /// Begins a pump: writes queued bytes, reads and decodes PTY output, and
    /// detects EOF, bounded by `budget`.
    ///
    /// The PTY is non-blocking, so no readiness flags are taken; the outcomes
    /// that the caller reports decide how far a single pump goes. After a
    /// logical close this does nothing.
    pub fn pump_io(&mut self, budget: PumpBudget) -> (step: (Pump, PumpAction))
        requires
            old(self).wf(),
        ensures
            final(self).wf(),
            final(self)@ == begin_pump(old(self)@, budget).session,
            step.0 == begin_pump(old(self)@, budget).pump,
            step.1 == begin_pump(old(self)@, budget).action,
            final(self).allows(step.1),
    {
        let mut pump = Pump { budget, direction: self.direction, rounds: 2, progressed: false };
        if !self.has_fd() {
            return (pump, PumpAction::Done);
        }
        self.counters.pump_calls = self.counters.pump_calls.saturating_add(1);
        self.read_would_block = false;
        self.write_would_block = false;
        if budget.exhausted() {
            self.stop_pump(&pump, true);
            return (pump, PumpAction::Done);
        }
        let action = self.start_phase(&mut pump);
        (pump, action)
    }

    /// What a pump asks for can be done: there are as many bytes to write, or
    /// there is as much room to read into.
    pub open spec fn allows(&self, action: PumpAction) -> bool {
        match action {
            PumpAction::Write(n) => 0 < n <= self@.unsent.len(),
            PumpAction::Read(n) => 0 < n && self@.unread.len() + n <= READ_BUFFER_LIMIT,
            PumpAction::Done => true,
        }
    }

    /// Reports how a write went that the pump asked for, and goes on.
    pub fn note_write(&mut self, pump: &mut Pump, outcome: WriteOutcome) -> (action: PumpAction)
        requires
            old(self).wf(),
            !old(self)@.is_closed(),
            outcome matches WriteOutcome::Wrote(n) ==> n <= old(self)@.unsent.len(),
        ensures
            final(self).wf(),
            final(self)@ == after_write(old(self)@, *old(pump), outcome).session,
            *final(pump) == after_write(old(self)@, *old(pump), outcome).pump,
            action == after_write(old(self)@, *old(pump), outcome).action,
            final(self).allows(action),
    {
        pump.budget.consume(0, 1);
        self.count_write();
        match outcome {
            WriteOutcome::Wrote(n) => {
                if n == 0 {
                    return self.end_phase(pump);
                }
                pump.budget.consume(n, 0);
                pump.progressed = true;
                self.note_written(n);
                self.write_phase(pump)
            },
            WriteOutcome::WouldBlock => {
                self.block_write();
                self.end_phase(pump)
            },
            WriteOutcome::Interrupted => self.end_phase(pump),
            WriteOutcome::Gone => {
                // The slave end is fully closed, so no future write can
                // succeed. Retire the queue and report EOF, the same way a
                // read does. The queue is discarded without touching the byte
                // counters, as when the session is closed.
                self.discard_output();
                self.note_eof();
                self.end_phase(pump)
            },
            WriteOutcome::Failed => PumpAction::Done,
        }
    }

    /// Reports how a read went that the pump asked for, and goes on.
    pub fn note_read(&mut self, pump: &mut Pump, outcome: ReadOutcome<'_>) -> (action: PumpAction)
        requires
            old(self).wf(),
            !old(self)@.is_closed(),
            outcome matches ReadOutcome::Bytes(bytes) ==> old(self)@.unread.len() + bytes@.len()
                <= READ_BUFFER_LIMIT,
        ensures
            final(self).wf(),
            final(self)@ == after_read(old(self)@, *old(pump), outcome).session,
            *final(pump) == after_read(old(self)@, *old(pump), outcome).pump,
            action == after_read(old(self)@, *old(pump), outcome).action,
            final(self).allows(action),
    {
        pump.budget.consume(0, 1);
        self.count_read();
        match outcome {
            ReadOutcome::Bytes(bytes) => {
                if bytes.len() == 0 {
                    self.note_eof();
                    return self.end_phase(pump);
                }
                pump.budget.consume(bytes.len(), 0);
                pump.progressed = true;
                self.receive(bytes);
                self.read_phase(pump)
            },
            ReadOutcome::WouldBlock => {
                self.block_read();
                self.end_phase(pump)
            },
            ReadOutcome::Interrupted => self.end_phase(pump),
            ReadOutcome::Gone => {
                // PTY slave close is reported as an error on some platforms;
                // it is the end of the stream.
                self.note_eof();
                self.end_phase(pump)
            },
            ReadOutcome::Failed => PumpAction::Done,
        }
    }

    /// Counts a write that was attempted.
    fn count_write(&mut self)
        requires
            old(self).wf(),
        ensures
            final(self).wf(),
            final(self)@ == old(self)@.tried_write(),
            final(self)@.unsent == old(self)@.unsent,
            final(self)@.phase == old(self)@.phase,
    {
        proof {
            reveal(SessionModel::tried_write);
        }
        self.counters.write_syscalls = self.counters.write_syscalls.saturating_add(1);
    }

    /// Counts a read that was attempted.
    fn count_read(&mut self)
        requires
            old(self).wf(),
        ensures
            final(self).wf(),
            final(self)@ == old(self)@.tried_read(),
            final(self)@.unread == old(self)@.unread,
            final(self)@.phase == old(self)@.phase,
    {
        proof {
            reveal(SessionModel::tried_read);
        }
        self.counters.read_syscalls = self.counters.read_syscalls.saturating_add(1);
    }

    /// Records that a write would have blocked.
    fn block_write(&mut self)
        requires
            old(self).wf(),
        ensures
            final(self).wf(),
            final(self)@ == old(self)@.blocked_write(),
    {
        proof {
            reveal(SessionModel::blocked_write);
        }
        self.counters.write_would_block = self.counters.write_would_block.saturating_add(1);
        self.write_would_block = true;
    }

    /// Records that a read would have blocked.
    fn block_read(&mut self)
        requires
            old(self).wf(),
        ensures
            final(self).wf(),
            final(self)@ == old(self)@.blocked_read(),
    {
        proof {
            reveal(SessionModel::blocked_read);
        }
        self.counters.read_would_block = self.counters.read_would_block.saturating_add(1);
        self.read_would_block = true;
    }

    /// Takes bytes that were read into the buffer.
    fn receive(&mut self, bytes: &[u8])
        requires
            old(self).wf(),
            !old(self)@.is_closed(),
            old(self)@.unread.len() + bytes@.len() <= READ_BUFFER_LIMIT,
        ensures
            final(self).wf(),
            final(self)@ == old(self)@.received(bytes@),
    {
        proof {
            reveal(SessionModel::received);
        }
        let ghost before = self@;
        self.read_buffer.extend_from_slice(bytes);
        self.counters.pty_bytes_read = self.counters.pty_bytes_read.saturating_add(
            bytes.len() as u64,
        );
        proof {
            assert(self@.unread =~= before.unread + bytes@);
        }
        self.note_peaks();
    }

    /// Takes what is held now into account.
    fn note_peaks(&mut self)
        requires
            old(self).is_consistent(),
        ensures
            final(self).wf(),
            final(self)@ == old(self)@.peaked(),
    {
        let unread: usize = self.read_buffer.len() - self.read_offset;
        let unsent: usize = self.outbound.len() - self.write_offset;
        let lines: usize = self.term.scrollback_len();
        let cells: usize = self.term.scrollback_cells();
        self.peaks.observe(unread, unsent, lines, cells);
    }

    /// Begins the next phase of a pump.
    fn start_phase(&mut self, pump: &mut Pump) -> (action: PumpAction)
        requires
            old(self).wf(),
        ensures
            final(self).wf(),
            final(self)@ == next_round(old(self)@, *old(pump)).session,
            *final(pump) == next_round(old(self)@, *old(pump)).pump,
            action == next_round(old(self)@, *old(pump)).action,
            final(self).allows(action),
        decreases old(pump).rounds, 0int,
    {
        if pump.rounds == 0 || pump.budget.exhausted() {
            return self.finish_pump(pump);
        }
        pump.rounds = pump.rounds - 1;
        pump.progressed = false;
        // Start with the direction that actually has work, so a session with
        // nothing to write is not blocked behind the write phase.
        if !self.has_direction_work(pump.direction) {
            pump.direction = pump.direction.opposite();
            if !self.has_direction_work(pump.direction) {
                return self.finish_pump(pump);
            }
        }
        match pump.direction {
            Direction::Write => self.write_phase(pump),
            Direction::Read => self.read_phase(pump),
        }
    }

    /// Ends a phase of a pump. Stopping on one direction must not skip the
    /// other.
    fn end_phase(&mut self, pump: &mut Pump) -> (action: PumpAction)
        requires
            old(self).wf(),
        ensures
            final(self).wf(),
            final(self)@ == end_phase(old(self)@, *old(pump)).session,
            *final(pump) == end_phase(old(self)@, *old(pump)).pump,
            action == end_phase(old(self)@, *old(pump)).action,
            final(self).allows(action),
        decreases old(pump).rounds, 1int,
    {
        let other = pump.direction.opposite();
        if self.has_direction_work(other) {
            pump.direction = other;
            return self.start_phase(pump);
        }
        if pump.progressed {
            pump.direction = other;
        }
        self.finish_pump(pump)
    }

    /// Ends a pump that has done what it could.
    fn finish_pump(&mut self, pump: &mut Pump) -> (action: PumpAction)
        requires
            old(self).wf(),
        ensures
            final(self).wf(),
            final(self)@ == finish(old(self)@, *old(pump)).session,
            *final(pump) == finish(old(self)@, *old(pump)).pump,
            action == finish(old(self)@, *old(pump)).action,
            action == PumpAction::Done,
    {
        proof {
            reveal(stop);
        }
        let exhausted = pump.budget.exhausted() && self.needs_pump();
        self.stop_pump(pump, exhausted);
        PumpAction::Done
    }

    /// Ends a pump, which may count as exhausted.
    fn stop_pump(&mut self, pump: &Pump, exhausted: bool)
        requires
            old(self).wf(),
        ensures
            final(self).wf(),
            final(self)@ == stop(old(self)@, *pump, exhausted).session,
            stop(old(self)@, *pump, exhausted).pump == *pump,
            stop(old(self)@, *pump, exhausted).action == PumpAction::Done,
    {
        proof {
            reveal(stop);
        }
        self.direction = pump.direction;
        if exhausted {
            self.counters.pump_budget_exhaustions =
            self.counters.pump_budget_exhaustions.saturating_add(1);
        }
    }

    /// Goes on writing pending bytes, bounded by the pump budget.
    fn write_phase(&mut self, pump: &mut Pump) -> (action: PumpAction)
        requires
            old(self).wf(),
        ensures
            final(self).wf(),
            final(self)@ == keep_writing(old(self)@, *old(pump)).session,
            *final(pump) == keep_writing(old(self)@, *old(pump)).pump,
            action == keep_writing(old(self)@, *old(pump)).action,
            final(self).allows(action),
        decreases old(pump).rounds, 2int,
    {
        if pump.budget.exhausted() || !self.has_fd() || self.unsent() == 0 {
            return self.end_phase(pump);
        }
        let unsent: usize = self.unsent();
        let bytes: usize = pump.budget.bytes_left();
        PumpAction::Write(
            if bytes < unsent {
                bytes
            } else {
                unsent
            },
        )
    }

    /// Decodes what is in the buffer, then goes on reading, bounded by the
    /// pump budget.
    fn read_phase(&mut self, pump: &mut Pump) -> (action: PumpAction)
        requires
            old(self).wf(),
        ensures
            final(self).wf(),
            final(self)@ == start_reading(old(self)@, *old(pump)).session,
            *final(pump) == start_reading(old(self)@, *old(pump)).pump,
            action == start_reading(old(self)@, *old(pump)).action,
            final(self).allows(action),
        decreases old(pump).rounds, 3int,
    {
        let decoded: usize = self.decode_buffered(pump.budget.bytes_left());
        pump.budget.consume(decoded, 0);
        if decoded > 0 {
            pump.progressed = true;
        }
        let room: usize = READ_BUFFER_LIMIT - self.buffered_read_len();
        if pump.budget.exhausted() || self.read_paused() || self.phase != SessionStatus::Live
            || room == 0 {
            return self.end_phase(pump);
        }
        self.compact_read_buffer_if_needed();
        let bytes: usize = pump.budget.bytes_left();
        PumpAction::Read(
            if bytes < room {
                bytes
            } else {
                room
            },
        )
    }

    /// Decodes already-buffered raw bytes, one at a time, until paused, empty,
    /// or `bytes` of them are decoded. Returns the number of bytes decoded.
    fn decode_buffered(&mut self, bytes: usize) -> (decoded: usize)
        requires
            old(self).wf(),
        ensures
            final(self).wf(),
            final(self)@ == old(self)@.decode(bytes as int),
            decoded == old(self)@.decoded(bytes as int),
    {
        let mut decoded: usize = 0;
        while decoded < bytes && !self.read_paused() && self.buffered_read_len() > 0
            invariant
                self.wf(),
                decoded <= bytes,
                decoded == old(self)@.unread.len() - self@.unread.len(),
                self@.decode(bytes - decoded) == old(self)@.decode(bytes as int),
            decreases bytes - decoded,
        {
            self.decode_byte();
            decoded += 1;
        }
        self.compact_read_buffer_if_needed();
        decoded
    }

    /// Feeds one byte into the emulator and appends any produced reply.
    ///
    /// A reply is appended to the write queue unconditionally, preserving
    /// chronological order behind previously accepted input, and decoding
    /// pauses until that reply is fully written. At most one reply is pending
    /// at a time because no further bytes are decoded while paused.
    fn decode_byte(&mut self)
        requires
            old(self).wf(),
            old(self)@.unread.len() > 0,
            !old(self)@.is_paused(),
        ensures
            final(self).wf(),
            final(self)@ == old(self)@.decode_one(),
            final(self)@.unread.len() == old(self)@.unread.len() - 1,
    {
        proof {
            reveal(SessionModel::decode_one);
            reveal(SessionModel::feed_next);
            reveal(SessionModel::queue_reply);
        }
        let reply: Vec<u8> = self.feed_next();
        if reply.len() > 0 {
            self.queue_reply(reply.as_slice());
        }
        self.note_peaks();
    }

    /// Feeds one byte into the emulator and takes any produced reply.
    fn feed_next(&mut self) -> (reply: Vec<u8>)
        requires
            old(self).wf(),
            old(self)@.unread.len() > 0,
            !old(self)@.is_paused(),
        ensures
            final(self).is_consistent(),
            final(self)@ == old(self)@.feed_next(),
            reply@ == old(self)@.next_reply(),
            reply@.len() <= MAX_PENDING_REPLY_BYTES,
    {
        proof {
            reveal(SessionModel::feed_next);
        }
        let ghost before = self@;
        let len: usize = self.read_buffer.len();
        let byte: u8 = self.read_buffer[self.read_offset];
        self.read_offset = self.read_offset + 1;
        self.counters.terminal_bytes_processed =
        self.counters.terminal_bytes_processed.saturating_add(1);
        let one: [u8; 1] = [byte];
        proof {
            assert(one@ =~= seq![before.unread[0]]);
            assert(self@.unread =~= before.unread.skip(1));
        }
        self.term.feed(one.as_slice());
        let reply: Vec<u8> = vstd::slice::slice_to_vec(self.term.pending_reply_bytes());
        self.term.advance_reply_bytes(reply.len());
        proof {
            assert(self@.term.replies =~= Seq::<u8>::empty());
        }
        reply
    }

    /// Appends a reply to the write queue.
    fn queue_reply(&mut self, reply: &[u8])
        requires
            old(self).is_consistent(),
            old(self)@.phase != SessionStatus::Closing,
            0 < reply@.len() <= MAX_PENDING_REPLY_BYTES,
        ensures
            final(self).is_consistent(),
            final(self)@ == old(self)@.queue_reply(reply@),
    {
        proof {
            reveal(SessionModel::queue_reply);
        }
        let start: usize = self.outbound.len();
        let ghost queue = self@.unsent;
        self.outbound.extend_from_slice(reply);
        self.counters.terminal_reply_bytes_generated =
        self.counters.terminal_reply_bytes_generated.saturating_add(reply.len() as u64);
        let end: usize = self.outbound.len();
        self.pending_reply_range = Some(Range { start, end });
        proof {
            assert(self@.unsent =~= queue + reply@);
        }
    }

    /// Records that the first `n` unsent bytes were written.
    fn note_written(&mut self, n: usize)
        requires
            old(self).wf(),
            n <= old(self)@.unsent.len(),
        ensures
            final(self).wf(),
            final(self)@ == old(self)@.wrote(n as int),
    {
        proof {
            reveal(SessionModel::wrote);
        }
        let ghost before = self@;
        let len: usize = self.outbound.len();
        let start: usize = self.write_offset;
        // Split the written span into reply bytes and input bytes by its
        // overlap with the pending reply range, so the two consumption totals
        // stay separable.
        let reply_written: usize = match &self.pending_reply_range {
            Some(range) => pending_reply_unsent_len(start, Some(range)) - pending_reply_unsent_len(
                start + n,
                Some(range),
            ),
            None => 0,
        };
        self.write_offset = start + n;
        self.counters.reply_bytes_written = self.counters.reply_bytes_written.saturating_add(
            reply_written as u64,
        );
        self.counters.input_bytes_written = self.counters.input_bytes_written.saturating_add(
            (n - reply_written) as u64,
        );
        let finished = match &self.pending_reply_range {
            Some(range) => self.write_offset >= range.end,
            None => false,
        };
        if finished {
            self.pending_reply_range = None;
        }
        proof {
            assert(self@.unsent =~= before.unsent.skip(n as int));
        }
        self.compact_outbound_if_needed();
    }

    /// Drops the already-written prefix of `outbound` when it grows large.
    fn compact_outbound_if_needed(&mut self)
        requires
            old(self).wf(),
        ensures
            final(self).wf(),
            final(self)@ == old(self)@,
            is_droppable(old(self).write_offset, old(self).outbound@.len()) ==> {
                &&& final(self).write_offset == 0
                &&& final(self).outbound@ == old(self)@.unsent
            },
            !is_droppable(old(self).write_offset, old(self).outbound@.len()) ==> {
                &&& final(self).write_offset == old(self).write_offset
                &&& final(self).outbound@ == old(self).outbound@
            },
    {
        if self.write_offset == 0 {
            return ;
        }
        if self.write_offset < COMPACT_THRESHOLD && !self.outbound_empty() {
            return ;
        }
        let ghost before = self@;
        let drained: usize = self.write_offset;
        self.outbound = self.outbound.split_off(drained);
        let range: Option<Range<usize>> = match &self.pending_reply_range {
            // The offset may sit inside the reply after a partial write.
            Some(range) => Some(
                Range { start: range.start.saturating_sub(drained), end: range.end - drained },
            ),
            None => None,
        };
        self.pending_reply_range = range;
        self.write_offset = 0;
        proof {
            assert(self@.unsent =~= before.unsent);
        }
    }

    /// Drops the already-decoded prefix of `read_buffer` when it grows large.
    fn compact_read_buffer_if_needed(&mut self)
        requires
            old(self).wf(),
        ensures
            final(self).wf(),
            final(self)@ == old(self)@,
            is_droppable(old(self).read_offset, old(self).read_buffer@.len()) ==> {
                &&& final(self).read_offset == 0
                &&& final(self).read_buffer@ == old(self)@.unread
            },
            !is_droppable(old(self).read_offset, old(self).read_buffer@.len()) ==> {
                &&& final(self).read_offset == old(self).read_offset
                &&& final(self).read_buffer@ == old(self).read_buffer@
            },
    {
        if self.read_offset == 0 {
            return ;
        }
        if self.read_offset < COMPACT_THRESHOLD && self.buffered_read_len() > 0 {
            return ;
        }
        let ghost before = self@;
        self.read_buffer = self.read_buffer.split_off(self.read_offset);
        self.read_offset = 0;
        proof {
            assert(self@.unread =~= before.unread);
        }
    }

    /// Empties the write queue.
    fn discard_output(&mut self)
        requires
            old(self).wf(),
        ensures
            final(self).wf(),
            final(self)@ == old(self)@.without_output(),
            final(self)@.phase == old(self)@.phase,
    {
        proof {
            reveal(SessionModel::without_output);
        }
        self.outbound.clear();
        self.write_offset = 0;
        self.pending_reply_range = None;
        proof {
            assert(self@.unsent =~= Seq::<u8>::empty());
        }
    }

    /// Marks PTY EOF, and the session spent when the child was already reaped.
    fn note_eof(&mut self)
        requires
            old(self).wf(),
            !old(self)@.is_closed(),
        ensures
            final(self).wf(),
            final(self)@ == old(self)@.ended(),
    {
        proof {
            reveal(SessionModel::ended);
        }
        self.phase = SessionStatus::Eof;
        if self.exit_status.is_some() {
            self.phase = SessionStatus::Reaped;
        }
    }

    /// Whether decoding and reading are paused on a pending terminal reply.
    fn read_paused(&self) -> (paused: bool)
        ensures
            paused == self@.is_paused(),
    {
        self.pending_reply_range.is_some()
    }

    /// Returns whether `outbound` holds no unsent bytes.
    fn outbound_empty(&self) -> (empty: bool)
        requires
            self.wf(),
        ensures
            empty == (self@.unsent.len() == 0),
    {
        self.outbound.len() == self.write_offset
    }

    /// Returns the number of unsent bytes currently held.
    fn unsent(&self) -> (len: usize)
        requires
            self.wf(),
        ensures
            len == self@.unsent.len(),
    {
        self.outbound.len() - self.write_offset
    }

    /// Returns the number of buffered but not yet decoded read bytes.
    fn buffered_read_len(&self) -> (len: usize)
        requires
            self.wf(),
        ensures
            len == self@.unread.len(),
            len <= READ_BUFFER_LIMIT,
    {
        self.read_buffer.len() - self.read_offset
    }

    /// Whether the given direction currently has work.
    fn has_direction_work(&self, direction: Direction) -> (work: bool)
        requires
            self.wf(),
        ensures
            work == self@.has_work(direction),
    {
        match direction {
            Direction::Write => !self.outbound_empty(),
            Direction::Read => !self.read_paused() && (self.buffered_read_len() > 0 || self.phase
                == SessionStatus::Live),
        }
    }

    /// Returns how many bytes are queued for writing to the PTY and have not
    /// been written yet, counting application input and terminal replies
    /// together.
    ///
    /// The queue is unbounded, and the session applies no backpressure policy
    /// of its own: compare this against a limit of your own to decide whether
    /// to enqueue, hold, or drop an input. Add [`Session::input_byte_len()`]
    /// for the size the input would contribute.
    pub fn write_queue_len(&self) -> (len: usize)
        requires
            self.wf(),
        ensures
            len == self@.unsent.len(),
    {
        self.unsent()
    }

    /// Returns the bytes that wait to be written, the next one first.
    pub fn unsent_bytes(&self) -> (bytes: &[u8])
        requires
            self.wf(),
        ensures
            bytes@ == self@.unsent,
    {
        vstd::slice::slice_subrange(self.outbound.as_slice(), self.write_offset, self.outbound.len())
    }

    /// Returns how many bytes `input` would add to the write queue with the
    /// session's current terminal modes.
    pub fn input_byte_len(&self, input: Input<'_>) -> (len: usize)
        ensures
            len == input.bytes(self@.term.modes).len(),
    {
        input.byte_len(self.term.modes())
    }

    /// Enqueues application [`Input`] to be written to the PTY.
    ///
    /// `Key`, `Paste` and `Mouse` are turned into bytes with the session's
    /// current terminal modes; `Raw` is appended unchanged. All accepted bytes
    /// join the write queue in chronological order. A closed session refuses
    /// them.
    pub fn enqueue_input(&mut self, input: Input<'_>) -> (result: Result<(), SessionError>)
        requires
            old(self).wf(),
        ensures
            final(self).wf(),
            old(self)@.is_closed() ==> result == Err::<(), SessionError>(SessionError::Closed)
                && final(self)@ == old(self)@,
            !old(self)@.is_closed() ==> result is Ok && final(self)@ == old(self)@.enqueue(
                input.bytes(old(self)@.term.modes),
            ),
    {
        if !self.has_fd() {
            return Err(SessionError::Closed);
        }
        proof {
            reveal(SessionModel::enqueue);
        }
        let modes: TerminalModes = self.term.modes();
        let ghost before = self@;
        let len: usize = self.outbound.len();
        input.write_to(modes, &mut self.outbound);
        let n: usize = self.outbound.len() - len;
        self.counters.input_bytes_enqueued = self.counters.input_bytes_enqueued.saturating_add(
            n as u64,
        );
        self.write_would_block = false;
        proof {
            assert(self@.unsent =~= before.unsent + input.bytes(modes));
        }
        self.note_peaks();
        Ok(())
    }

    /// Returns whether a resize to `size` changes anything, so that the PTY
    /// has to be told first. A closed session refuses it.
    pub fn resize_needed(&self, size: Size) -> (needed: Result<bool, SessionError>)
        ensures
            self@.is_closed() ==> needed == Err::<bool, SessionError>(SessionError::Closed),
            !self@.is_closed() ==> needed == Ok::<bool, SessionError>(size != self@.term.size),
    {
        if !self.has_fd() {
            return Err(SessionError::Closed);
        }
        Ok(self.term.size() != size)
    }

    /// Resizes the emulator, once the PTY has taken the new size. A closed
    /// session refuses it.
    pub fn resize(&mut self, size: Size) -> (result: Result<(), SessionError>)
        requires
            old(self).wf(),
        ensures
            final(self).wf(),
            old(self)@.is_closed() ==> result == Err::<(), SessionError>(SessionError::Closed)
                && final(self)@ == old(self)@,
            !old(self)@.is_closed() ==> result is Ok && final(self)@ == (SessionModel {
                term: old(self)@.term.resize(size),
                revision: if size == old(self)@.term.size {
                    old(self)@.revision
                } else {
                    old(self)@.revision.wrapping_add(1)
                },
                ..old(self)@
            }),
    {
        if !self.has_fd() {
            return Err(SessionError::Closed);
        }
        proof {
            crate::terminal_laws::resizing_keeps_the_history(self@.term, size);
        }
        self.term.resize(size);
        Ok(())
    }

    /// Logically closes the session.
    ///
    /// This discards the write queue, the pending reply and unread bytes; the
    /// caller closes the PTY master. After closing, a pump does nothing,
    /// `enqueue_input` and `resize` are refused, while the final terminal
    /// state and the counters remain available. Idempotent.
    pub fn close(&mut self)
        requires
            old(self).wf(),
        ensures
            final(self).wf(),
            final(self)@ == old(self)@.close(),
    {
        proof {
            reveal(SessionModel::close);
        }
        if !self.has_fd() {
            return ;
        }
        self.outbound.clear();
        self.write_offset = 0;
        self.pending_reply_range = None;
        self.read_buffer.clear();
        self.read_offset = 0;
        self.phase = if self.exit_status.is_some() {
            SessionStatus::Reaped
        } else {
            SessionStatus::Closing
        };
        proof {
            assert(self@.unread =~= Seq::<u8>::empty());
            assert(self@.unsent =~= Seq::<u8>::empty());
        }
    }

    /// Returns how the child ended, without touching the child.
    ///
    /// `None` until the child has been reaped. This is the exit of the direct
    /// child only. It says nothing about PTY I/O, which continues until EOF
    /// independently of the child's state.
    pub fn exit_status(&self) -> (exit: Option<ObservedExit>)
        ensures
            exit == self@.exit,
    {
        self.exit_status
    }

    /// Records that the child was reaped. The first report stays.
    ///
    /// Reaping does not stop PTY I/O: while the master is still open the
    /// session stays readable until EOF. The session is spent only after the
    /// child is reaped and I/O is finished (EOF or a logical close).
    pub fn note_exit(&mut self, exit: ObservedExit)
        requires
            old(self).wf(),
        ensures
            final(self).wf(),
            final(self)@ == if old(self)@.exit is Some {
                old(self)@
            } else {
                old(self)@.reap(exit)
            },
    {
        proof {
            reveal(SessionModel::reap);
        }
        if self.exit_status.is_some() {
            return ;
        }
        self.exit_status = Some(exit);
        if self.phase != SessionStatus::Live {
            self.phase = SessionStatus::Reaped;
        }
    }

    /// Returns read-only access to the session's terminal state.
    ///
    /// Available in every phase, including after the child has been reaped.
    pub fn terminal_state(&self) -> (term: &TerminalState)
        requires
            self.wf(),
        ensures
            term.wf(),
            term@ == self@.term,
            term.spec_revision() == self@.revision,
    {
        &self.term
    }

    /// Returns the session's cumulative activity counters.
    pub fn counters(&self) -> (counters: &SessionCounters)
        ensures
            *counters == self@.counters,
    {
        &self.counters
    }

    /// Returns what the session holds now, has held at most, and has done so
    /// far. Compare `pending_write_bytes` and [`Input::byte_len()`] against a
    /// limit to decide whether to enqueue, hold, or drop an input.
    pub fn metrics(&self) -> (metrics: SessionMetrics)
        requires
            self.wf(),
        ensures
            metrics == self@.metrics(),
    {
        let pending: usize = self.unsent();
        let reply: usize = match &self.pending_reply_range {
            Some(range) => pending_reply_unsent_len(self.write_offset, Some(range)),
            None => 0,
        };
        SessionMetrics {
            pump_calls: self.counters.pump_calls,
            pump_budget_exhaustions: self.counters.pump_budget_exhaustions,
            pty_bytes_read: self.counters.pty_bytes_read,
            pty_bytes_written: self.counters.input_bytes_written.saturating_add(
                self.counters.reply_bytes_written,
            ),
            terminal_bytes_processed: self.counters.terminal_bytes_processed,
            terminal_reply_bytes_generated: self.counters.terminal_reply_bytes_generated,
            input_bytes_enqueued: self.counters.input_bytes_enqueued,
            read_syscalls: self.counters.read_syscalls,
            write_syscalls: self.counters.write_syscalls,
            read_would_block: self.counters.read_would_block,
            write_would_block: self.counters.write_would_block,
            read_buffer_bytes: self.buffered_read_len(),
            max_read_buffer_bytes: self.peaks.read_buffer_bytes,
            pending_write_bytes: pending,
            pending_input_bytes: pending - reply,
            pending_reply_bytes: reply,
            max_pending_write_bytes: self.peaks.write_bytes,
            scrollback_lines: self.term.scrollback_len(),
            max_scrollback_lines: self.peaks.scrollback_lines,
            scrollback_cells: self.term.scrollback_cells(),
            max_scrollback_cells: self.peaks.scrollback_cells,
        }
    }

    /// Removes the oldest scrollback lines until both limits hold.
    ///
    /// Lines are removed whole, oldest first, and either limit at zero clears
    /// the history.
    pub fn trim_scrollback(&mut self, max_lines: usize, max_cells: usize)
        requires
            old(self).wf(),
        ensures
            final(self).wf(),
            final(self)@ == (SessionModel {
                term: TerminalModel {
                    scrollback: trimmed(
                        old(self)@.term.scrollback,
                        max_lines as nat,
                        max_cells as nat,
                    ),
                    ..old(self)@.term
                },
                ..old(self)@
            }),
    {
        proof {
            trimming_keeps_the_newest(
                self@.term.scrollback,
                max_lines as nat,
                max_cells as nat,
            );
        }
        self.term.trim_scrollback(max_lines, max_cells);
    }

    /// Returns the observable lifecycle phase of the session.
    pub fn status(&self) -> (status: SessionStatus)
        ensures
            status == self@.phase,
    {
        self.phase
    }
}

} // verus!
