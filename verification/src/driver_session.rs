//! One session of a driver, and its turn within a drive.

use vstd::prelude::*;

use crate::driver_config::{
    DriverConfig, DriverError, Readiness, SessionConfig, SessionId, SessionStatus, MAX_REPLY_BYTES,
};
use crate::input::append;
use crate::session::{less, Direction, Interests, PumpBudget, ReadOutcome, WriteOutcome};
use crate::session_metrics::as_count;
use crate::terminal::TerminalState;
use crate::terminal_model::{least, TerminalModel};
use crate::terminal_scrollback::{trimmed, ScrollbackLimits};

verus! {

/// One terminal session owned by the driver.
pub struct DriverSession {
    /// The session's identifier.
    pub id: SessionId,
    /// The session's current registration.
    pub generation: u64,
    /// The file descriptor of the PTY master.
    pub fd: i32,
    /// The terminal.
    pub term: TerminalState,
    /// The lifecycle phase.
    pub phase: SessionStatus,
    /// Raw bytes read from the PTY but not yet decoded.
    pub read_buffer: Vec<u8>,
    /// Bytes to be written, written ones first.
    pub outbound: Vec<u8>,
    /// Number of leading `outbound` bytes already written.
    pub write_offset: usize,
    /// Reply bytes held while `outbound` is full.
    pub pending_reply: Vec<u8>,
    /// Observed readiness not yet consumed.
    pub ready: Readiness,
    /// Direction the next drive phase should start with.
    pub direction: Direction,
    /// Whether decoding is paused because a reply could not be admitted.
    pub read_paused: bool,
    /// Whether the exit event for this session has been emitted.
    pub exit_event_sent: bool,
    /// Bounds on the history of the terminal.
    pub scrollback_limits: ScrollbackLimits,
    /// Maximum bytes held in `outbound`.
    pub write_queue_limit: usize,
    /// Maximum bytes held in `pending_reply`.
    pub pending_reply_limit: usize,
    /// Maximum bytes held in `read_buffer`.
    pub read_buffer_limit: usize,
    /// Maximum bytes of one read phase.
    pub read_byte_quantum: usize,
    /// Maximum reads of one phase.
    pub read_syscall_quantum: usize,
    /// Maximum bytes of one write phase.
    pub write_byte_quantum: usize,
    /// Maximum writes of one phase.
    pub write_syscall_quantum: usize,
}

/// The limits of a session.
#[derive(Debug, Clone, Copy, PartialEq, Eq, Structural)]
pub struct SessionLimits {
    /// Bounds on the history of the terminal.
    pub scrollback: ScrollbackLimits,
    /// Maximum bytes in the write queue.
    pub write_queue: usize,
    /// Maximum bytes of pending replies.
    pub pending_reply: usize,
    /// Maximum bytes in the read buffer.
    pub read_buffer: usize,
    /// Maximum bytes of one read phase.
    pub read_bytes: usize,
    /// Maximum reads of one phase.
    pub read_syscalls: usize,
    /// Maximum bytes of one write phase.
    pub write_bytes: usize,
    /// Maximum writes of one phase.
    pub write_syscalls: usize,
}

/// The state of a session of the driver.
pub struct DriverSessionModel {
    /// The identifier.
    pub id: SessionId,
    /// The current registration.
    pub generation: u64,
    /// The file descriptor.
    pub fd: i32,
    /// The terminal.
    pub term: TerminalModel,
    /// The revision of the terminal.
    pub revision: u64,
    /// The lifecycle phase.
    pub phase: SessionStatus,
    /// Bytes that were read and not yet decoded.
    pub unread: Seq<u8>,
    /// Bytes that wait to be written.
    pub unsent: Seq<u8>,
    /// Reply bytes that the write queue had no room for, and what was accepted
    /// after them.
    pub pending: Seq<u8>,
    /// Readiness not yet consumed.
    pub ready: Readiness,
    /// The direction that the next turn starts with.
    pub direction: Direction,
    /// Whether decoding waits for a pending reply.
    pub paused: bool,
    /// Whether the exit of the child has been reported.
    pub exit_event_sent: bool,
    /// The limits.
    pub limits: SessionLimits,
}

/// Where the turn of a session stands.
#[derive(Debug, Clone, Copy, PartialEq, Eq, Structural)]
pub struct Turn {
    /// What is left of the budget of the drive.
    pub budget: PumpBudget,
    /// The direction that is being served.
    pub direction: Direction,
    /// How many phases may still begin.
    pub rounds: u8,
    /// Whether the current phase moved anything.
    pub progressed: bool,
    /// How many calls the current phase made.
    pub attempts: usize,
    /// How many bytes those calls moved.
    pub moved: usize,
    /// Whether the poll source may have changed.
    pub dirty: bool,
}

/// What the turn of a session asks for.
#[derive(Debug, Clone, Copy, PartialEq, Eq, Structural)]
pub enum TurnAction {
    /// Write this many of the first unsent bytes, in one call.
    Write(usize),
    /// Read at most this many bytes, in one call.
    Read(usize),
    /// Nothing: the turn is over.
    Idle,
}

/// Whether `len` more bytes are accepted: into the write queue or, while a
/// reply is pending, behind that reply.
pub open spec fn has_capacity(
    unsent: int,
    pending: int,
    write_queue_limit: usize,
    pending_reply_limit: usize,
    len: int,
) -> bool {
    if pending == 0 {
        len <= less(write_queue_limit, unsent)
    } else {
        len <= less(pending_reply_limit, pending)
    }
}

impl DriverSessionModel {
    /// Decoding is paused if and only if a reply is pending, and the emulator
    /// owes no reply of its own. The buffers keep to their limits. Closing is
    /// what ends a registration.
    pub open spec fn wf(self) -> bool {
        &&& self.term.replies.len() == 0
        &&& self.unread.len() <= self.limits.read_buffer
        &&& self.unsent.len() <= self.limits.write_queue
        &&& self.pending.len() <= self.limits.pending_reply
        &&& self.paused == (self.pending.len() > 0)
        &&& self.phase != SessionStatus::Closing ==> self.generation == 0
        &&& self.limits.pending_reply >= MAX_REPLY_BYTES
        &&& self.limits.write_queue >= MAX_REPLY_BYTES
    }

    /// The same session: its identity, its registration and its limits are
    /// those of `other`.
    pub open spec fn keeps(self, other: DriverSessionModel) -> bool {
        &&& self.id == other.id
        &&& self.generation == other.generation
        &&& self.fd == other.fd
        &&& self.exit_event_sent == other.exit_event_sent
        &&& self.limits == other.limits
        &&& (self.phase == SessionStatus::Closing) == (other.phase == SessionStatus::Closing)
    }

    /// How many more bytes the write queue can take.
    pub open spec fn room(self) -> int {
        less(self.limits.write_queue, self.unsent.len() as int) as int
    }

    /// Whether a session has work that needs no new readiness.
    pub open spec fn has_work(self) -> bool {
        if self.phase == SessionStatus::Closing {
            false
        } else if self.pending.len() > 0 && self.pending.len() <= self.room() {
            true
        } else if self.unsent.len() > 0 {
            self.ready.writable
        } else if self.paused {
            false
        } else if self.unread.len() > 0 {
            true
        } else {
            self.ready.readable && self.phase != SessionStatus::Eof
        }
    }

    /// The interests that the fd should be registered with.
    pub open spec fn wanted(self) -> Interests {
        Interests {
            readable: self.phase == SessionStatus::Live && !self.paused,
            writable: self.phase != SessionStatus::Closing && (self.unsent.len() > 0
                || self.pending.len() > 0),
        }
    }

    /// Whether a direction has work.
    pub open spec fn works_on(self, direction: Direction) -> bool {
        match direction {
            Direction::Write => self.unsent.len() > 0 || self.pending.len() > 0,
            Direction::Read => !self.paused && self.phase == SessionStatus::Live
                && (self.unread.len() > 0 || self.ready.readable),
        }
    }

    /// How many bytes of the pending reply fit into the write queue.
    pub open spec fn admissible(self) -> int {
        least(self.room(), self.pending.len() as int)
    }

    /// With as much of the pending reply at the front of the write queue as
    /// fits. Decoding resumes once nothing is pending.
    #[verifier::opaque]
    pub open spec fn readmit(self) -> DriverSessionModel {
        let n = self.admissible();
        if n == 0 {
            self
        } else {
            DriverSessionModel {
                unsent: self.pending.take(n) + self.unsent,
                pending: self.pending.skip(n),
                paused: self.paused && n < self.pending.len(),
                ..self
            }
        }
    }

    /// What the terminal replies to one byte.
    pub open spec fn reply_to(self, byte: u8) -> Seq<u8> {
        self.term.feed(seq![byte]).replies
    }

    /// Whether a reply of `len` bytes can be kept.
    pub open spec fn admits(self, len: int) -> bool {
        len <= self.room() || self.pending.len() + len <= self.limits.pending_reply
    }

    /// Whether what the terminal replies to one byte can be kept.
    pub open spec fn can_decode(self, byte: u8) -> bool {
        self.admits(self.reply_to(byte).len() as int)
    }

    /// With one byte fed to the terminal, and its reply taken.
    #[verifier::opaque]
    pub open spec fn feed_byte(self, byte: u8) -> DriverSessionModel {
        let fed = self.term.feed(seq![byte]);
        DriverSessionModel {
            term: TerminalModel {
                replies: Seq::empty(),
                scrollback: trimmed(
                    fed.scrollback,
                    self.limits.scrollback.max_lines as nat,
                    self.limits.scrollback.max_cells as nat,
                ),
                ..fed
            },
            revision: if self.term.feed_shows(seq![byte]) {
                self.revision.wrapping_add(1)
            } else {
                self.revision
            },
            ..self
        }
    }

    /// With a reply at the end of the write queue if it fits there, else held
    /// back, so that decoding pauses. One that cannot be kept is not.
    #[verifier::opaque]
    pub open spec fn keep_reply(self, reply: Seq<u8>) -> DriverSessionModel {
        if reply.len() == 0 {
            self
        } else if reply.len() <= self.room() {
            DriverSessionModel { unsent: self.unsent + reply, ..self }
        } else if self.admits(reply.len() as int) {
            DriverSessionModel { pending: self.pending + reply, paused: true, ..self }
        } else {
            self
        }
    }

    /// With one byte fed to the terminal, and its reply kept.
    #[verifier::opaque]
    pub open spec fn decode_byte(self, byte: u8) -> DriverSessionModel {
        self.feed_byte(byte).keep_reply(self.reply_to(byte))
    }

    /// With unread bytes decoded one by one, until there are none, decoding
    /// pauses, or `bytes` of them were decoded.
    pub open spec fn decode(self, bytes: int) -> DriverSessionModel
        decreases bytes,
    {
        if bytes <= 0 || self.paused || self.unread.len() == 0 {
            self
        } else {
            DriverSessionModel { unread: self.unread.skip(1), ..self }.decode_byte(
                self.unread[0],
            ).decode(bytes - 1)
        }
    }

    /// How many bytes `decode` takes up.
    pub open spec fn decoded(self, bytes: int) -> int {
        self.unread.len() - self.decode(bytes).unread.len()
    }

    /// With the first `n` unsent bytes written.
    #[verifier::opaque]
    pub open spec fn wrote(self, n: int) -> DriverSessionModel {
        DriverSessionModel { unsent: self.unsent.skip(n), ..self }
    }

    /// With more bytes to decode.
    #[verifier::opaque]
    pub open spec fn received(self, bytes: Seq<u8>) -> DriverSessionModel {
        DriverSessionModel { unread: self.unread + bytes, ..self }
    }

    /// Not ready for writing any more.
    #[verifier::opaque]
    pub open spec fn not_writable(self) -> DriverSessionModel {
        DriverSessionModel { ready: Readiness { writable: false, ..self.ready }, ..self }
    }

    /// Not ready for reading any more.
    #[verifier::opaque]
    pub open spec fn not_readable(self) -> DriverSessionModel {
        DriverSessionModel { ready: Readiness { readable: false, ..self.ready }, ..self }
    }

    /// The end of the stream was seen.
    #[verifier::opaque]
    pub open spec fn ended(self) -> DriverSessionModel {
        DriverSessionModel {
            phase: SessionStatus::Eof,
            ready: Readiness { readable: false, ..self.ready },
            ..self
        }
    }

    /// With readiness that was observed added. A hangup or an error is learned
    /// about by reading.
    #[verifier::opaque]
    pub open spec fn readied(self, readiness: Readiness) -> DriverSessionModel {
        DriverSessionModel {
            ready: Readiness {
                readable: self.ready.readable || readiness.readable || readiness.hangup
                    || readiness.error,
                writable: self.ready.writable || readiness.writable,
                ..self.ready
            },
            ..self
        }
    }

    /// After a logical close: everything that was buffered is discarded, and
    /// the registration is over.
    #[verifier::opaque]
    pub open spec fn close(self) -> DriverSessionModel {
        if self.phase == SessionStatus::Closing {
            self
        } else {
            DriverSessionModel {
                generation: (self.generation + 1) as u64,
                unsent: Seq::empty(),
                pending: Seq::empty(),
                unread: Seq::empty(),
                ready: Readiness::none(),
                paused: false,
                phase: SessionStatus::Closing,
                ..self
            }
        }
    }

    /// Whether `len` more bytes of input are accepted.
    pub open spec fn accepts(self, len: int) -> bool {
        has_capacity(
            self.unsent.len() as int,
            self.pending.len() as int,
            self.limits.write_queue,
            self.limits.pending_reply,
            len,
        )
    }

    /// With input behind everything that was accepted before.
    #[verifier::opaque]
    pub open spec fn append(self, bytes: Seq<u8>) -> DriverSessionModel {
        if self.pending.len() == 0 {
            DriverSessionModel { unsent: self.unsent + bytes, ..self }
        } else {
            DriverSessionModel { pending: self.pending + bytes, ..self }
        }
    }
}

/// A turn after one of its steps.
pub struct TurnStep {
    /// The session.
    pub session: DriverSessionModel,
    /// Where the turn stands.
    pub turn: Turn,
    /// What it asks for.
    pub action: TurnAction,
}

/// The turn is over.
pub open spec fn turn_over(s: DriverSessionModel, t: Turn) -> TurnStep {
    TurnStep { session: s, turn: t, action: TurnAction::Idle }
}

/// A phase begins, in the direction of the turn or, where that has no work, in
/// the other one.
pub open spec fn turn_round(s: DriverSessionModel, t: Turn) -> TurnStep
    decreases t.rounds, 0int,
{
    let direction = if s.works_on(t.direction) {
        t.direction
    } else {
        t.direction.other()
    };
    let begun = Turn {
        direction,
        rounds: (t.rounds - 1) as u8,
        progressed: false,
        attempts: 0,
        moved: 0,
        ..t
    };
    if t.rounds == 0 || t.budget.is_spent() {
        turn_over(s, t)
    } else if !s.works_on(direction) {
        turn_over(s, begun)
    } else if direction == Direction::Write {
        turn_write(s, begun)
    } else {
        turn_read(s, begun)
    }
}

/// A phase is over: the other direction is next, if this one got anywhere and
/// that one has work.
pub open spec fn turn_end(s: DriverSessionModel, t: Turn) -> TurnStep
    decreases t.rounds, 1int,
{
    let turned = Turn { direction: t.direction.other(), ..t };
    if !t.progressed {
        turn_over(s, t)
    } else if s.works_on(turned.direction) {
        turn_round(s, turned)
    } else {
        turn_over(s, turned)
    }
}

/// The write phase goes on as long as there is something to write.
pub open spec fn turn_keep_writing(s: DriverSessionModel, t: Turn) -> TurnStep
    decreases t.rounds, 2int,
{
    let n = least(
        least(less(s.limits.write_bytes, t.moved as int) as int, t.budget.bytes as int),
        s.unsent.len() as int,
    );
    if t.budget.is_spent() || t.attempts >= s.limits.write_syscalls || s.phase
        == SessionStatus::Closing || n == 0 {
        turn_end(s, t)
    } else {
        TurnStep { session: s, turn: t, action: TurnAction::Write(n as usize) }
    }
}

/// The write phase begins with the pending reply.
pub open spec fn turn_write(s: DriverSessionModel, t: Turn) -> TurnStep
    decreases t.rounds, 3int,
{
    if s.admissible() > 0 {
        turn_keep_writing(s.readmit(), Turn { progressed: true, dirty: true, ..t })
    } else {
        turn_keep_writing(s, t)
    }
}

/// The read phase goes on as long as the stream is open, decoding is not
/// paused and there is room in the buffer.
pub open spec fn turn_keep_reading(s: DriverSessionModel, t: Turn) -> TurnStep
    decreases t.rounds, 2int,
{
    let n = least(
        least(less(s.limits.read_bytes, t.moved as int) as int, t.budget.bytes as int),
        less(s.limits.read_buffer, s.unread.len() as int) as int,
    );
    if t.budget.is_spent() || t.attempts >= s.limits.read_syscalls || s.paused || s.phase
        != SessionStatus::Live || n == 0 {
        turn_end(s, t)
    } else {
        TurnStep { session: s, turn: t, action: TurnAction::Read(n as usize) }
    }
}

/// With as much decoded as the budget allows.
pub open spec fn turn_decoded(s: DriverSessionModel, t: Turn) -> Turn {
    let n = s.decoded(t.budget.bytes as int);
    Turn {
        budget: t.budget.after(n, 0),
        progressed: t.progressed || n > 0,
        dirty: t.dirty || n > 0,
        ..t
    }
}

/// The read phase begins with what is in the buffer. Nothing is read unless
/// the session is known to be readable.
pub open spec fn turn_read(s: DriverSessionModel, t: Turn) -> TurnStep
    decreases t.rounds, 3int,
{
    let decoded = s.decode(t.budget.bytes as int);
    if decoded.ready.readable {
        turn_keep_reading(decoded, turn_decoded(s, t))
    } else {
        turn_end(decoded, turn_decoded(s, t))
    }
}

/// The turn that a session begins with.
pub open spec fn first_turn(budget: PumpBudget, direction: Direction) -> Turn {
    Turn { budget, direction, rounds: 2, progressed: false, attempts: 0, moved: 0, dirty: false }
}

/// The turn of a session begins, with at most one phase in each direction.
#[verifier::opaque]
pub open spec fn begin_turn(s: DriverSessionModel, budget: PumpBudget) -> TurnStep {
    turn_round(s, first_turn(budget, s.direction))
}

/// A write that the turn asked for was attempted.
#[verifier::opaque]
pub open spec fn turn_after_write(
    s: DriverSessionModel,
    t: Turn,
    outcome: WriteOutcome,
) -> TurnStep {
    let tried = Turn {
        budget: t.budget.after(0, 1),
        attempts: (t.attempts + 1) as usize,
        ..t
    };
    match outcome {
        WriteOutcome::Wrote(n) => if n == 0 {
            turn_end(s, tried)
        } else {
            turn_keep_writing(
                s.wrote(n as int),
                Turn {
                    budget: t.budget.after(n as int, 1),
                    progressed: true,
                    moved: as_count((t.moved + n) as nat),
                    dirty: t.dirty || n == s.unsent.len(),
                    ..tried
                },
            )
        },
        WriteOutcome::WouldBlock => turn_end(s.not_writable(), tried),
        WriteOutcome::Interrupted => turn_end(s, tried),
        _ => turn_over(s.not_writable(), tried),
    }
}

/// A read that the turn asked for was attempted.
#[verifier::opaque]
pub open spec fn turn_after_read(
    s: DriverSessionModel,
    t: Turn,
    outcome: ReadOutcome,
) -> TurnStep {
    let tried = Turn {
        budget: t.budget.after(0, 1),
        attempts: (t.attempts + 1) as usize,
        ..t
    };
    match outcome {
        ReadOutcome::Bytes(bytes) => if bytes@.len() == 0 {
            turn_end(s.ended(), Turn { dirty: true, ..tried })
        } else {
            let full = s.received(bytes@);
            let moved = Turn {
                budget: t.budget.after(bytes@.len() as int, 1),
                progressed: true,
                moved: as_count((t.moved + bytes@.len()) as nat),
                ..tried
            };
            turn_keep_reading(
                full.decode(moved.budget.bytes as int),
                turn_decoded(full, moved),
            )
        },
        ReadOutcome::WouldBlock => turn_end(s.not_readable(), tried),
        ReadOutcome::Interrupted => turn_end(s, tried),
        ReadOutcome::Gone => turn_end(s.ended(), Turn { dirty: true, ..tried }),
        ReadOutcome::Failed => turn_over(s.not_readable(), tried),
    }
}

/// Returns whether `len` more bytes are accepted. An enqueue is accepted as a
/// whole or not at all.
pub fn capacity_ok(
    unsent: usize,
    pending_len: usize,
    write_queue_limit: usize,
    pending_reply_limit: usize,
    len: usize,
) -> (ok: bool)
    ensures
        ok == has_capacity(
            unsent as int,
            pending_len as int,
            write_queue_limit,
            pending_reply_limit,
            len as int,
        ),
{
    if pending_len == 0 {
        len <= write_queue_limit.saturating_sub(unsent)
    } else {
        len <= pending_reply_limit.saturating_sub(pending_len)
    }
}

impl DriverSession {
    /// The state of the session.
    pub open spec fn view(&self) -> DriverSessionModel {
        DriverSessionModel {
            id: self.id,
            generation: self.generation,
            fd: self.fd,
            term: self.term@,
            revision: self.term.spec_revision(),
            phase: self.phase,
            unread: self.read_buffer@,
            unsent: self.outbound@.skip(self.write_offset as int),
            pending: self.pending_reply@,
            ready: self.ready,
            direction: self.direction,
            paused: self.read_paused,
            exit_event_sent: self.exit_event_sent,
            limits: SessionLimits {
                scrollback: self.scrollback_limits,
                write_queue: self.write_queue_limit,
                pending_reply: self.pending_reply_limit,
                read_buffer: self.read_buffer_limit,
                read_bytes: self.read_byte_quantum,
                read_syscalls: self.read_syscall_quantum,
                write_bytes: self.write_byte_quantum,
                write_syscalls: self.write_syscall_quantum,
            },
        }
    }

    /// What was written is part of the queue, and the terminal is well-formed.
    pub open spec fn is_sound(&self) -> bool {
        &&& self.write_offset <= self.outbound@.len()
        &&& self.term.wf()
        &&& self@.term.replies.len() == 0
    }

    /// The session is sound and its model is well-formed.
    pub open spec fn wf(&self) -> bool {
        self.is_sound() && self@.wf()
    }

    /// Makes a session that has just begun.
    pub fn new(id: SessionId, fd: i32, session: SessionConfig, config: DriverConfig) -> (made:
        DriverSession)
        ensures
            made.is_sound(),
            config.is_valid() ==> made.wf(),
            made@ == new_session(id, fd, session, config),
    {
        let made = DriverSession {
            id,
            generation: 0,
            fd,
            term: TerminalState::new(session.size),
            phase: SessionStatus::Live,
            read_buffer: Vec::new(),
            outbound: Vec::new(),
            write_offset: 0,
            pending_reply: Vec::new(),
            ready: Readiness::default(),
            direction: Direction::Write,
            read_paused: false,
            exit_event_sent: false,
            scrollback_limits: session.scrollback_limits,
            write_queue_limit: config.write_queue_limit,
            pending_reply_limit: config.pending_reply_limit,
            read_buffer_limit: config.read_buffer_limit,
            read_byte_quantum: config.read_byte_quantum,
            read_syscall_quantum: config.read_syscall_quantum,
            write_byte_quantum: config.write_byte_quantum,
            write_syscall_quantum: config.write_syscall_quantum,
        };
        proof {
            assert(made@.unsent =~= Seq::<u8>::empty());
            assert(made@.unread =~= Seq::<u8>::empty());
            assert(made@.pending =~= Seq::<u8>::empty());
        }
        made
    }

    /// Returns whether `outbound` holds no unsent bytes.
    pub fn outbound_empty(&self) -> (empty: bool)
        requires
            self.write_offset <= self.outbound@.len(),
        ensures
            empty == (self@.unsent.len() == 0),
    {
        self.outbound.len() == self.write_offset
    }

    /// Returns the number of unsent bytes currently held.
    pub fn unsent(&self) -> (len: usize)
        requires
            self.write_offset <= self.outbound@.len(),
        ensures
            len == self@.unsent.len(),
    {
        self.outbound.len() - self.write_offset
    }

    /// Returns the bytes that wait to be written, the next one first.
    pub fn unsent_bytes(&self) -> (bytes: &[u8])
        requires
            self.write_offset <= self.outbound@.len(),
        ensures
            bytes@ == self@.unsent,
    {
        vstd::slice::slice_subrange(self.outbound.as_slice(), self.write_offset, self.outbound.len())
    }

    /// Returns how many more bytes `outbound` can accept.
    pub fn free_outbound(&self) -> (room: usize)
        requires
            self.write_offset <= self.outbound@.len(),
        ensures
            room == self@.room(),
    {
        self.write_queue_limit.saturating_sub(self.unsent())
    }

    /// Whether the given direction currently has work.
    fn has_direction_work(&self, direction: Direction) -> (work: bool)
        requires
            self.is_sound(),
        ensures
            work == self@.works_on(direction),
    {
        match direction {
            Direction::Write => !self.outbound_empty() || self.pending_reply.len() > 0,
            Direction::Read => !self.read_paused && self.phase == SessionStatus::Live && (
            self.read_buffer.len() > 0 || self.ready.readable),
        }
    }

    /// Adds readiness that was observed.
    pub(crate) fn note_ready(&mut self, readiness: Readiness)
        requires
            old(self).wf(),
        ensures
            final(self)@.keeps(old(self)@),
            final(self).wf(),
            final(self)@ == old(self)@.readied(readiness),
    {
        proof {
            reveal(DriverSessionModel::readied);
        }
        if readiness.readable || readiness.hangup || readiness.error {
            self.ready.readable = true;
        }
        if readiness.writable {
            self.ready.writable = true;
        }
    }

    /// Closes the session logically.
    pub(crate) fn close(&mut self)
        requires
            old(self).wf(),
        ensures
            final(self).wf(),
            final(self)@ == old(self)@.close(),
    {
        proof {
            reveal(DriverSessionModel::close);
        }
        if self.phase != SessionStatus::Closing {
            self.generation = self.generation + 1;
            self.outbound.clear();
            self.write_offset = 0;
            self.pending_reply.clear();
            self.read_buffer.clear();
            self.ready = Readiness::default();
            self.read_paused = false;
            self.phase = SessionStatus::Closing;
            proof {
                assert(self@.unsent =~= Seq::<u8>::empty());
            }
        }
    }

    /// Takes input behind everything that was accepted before.
    pub(crate) fn append(&mut self, bytes: &[u8])
        requires
            old(self).wf(),
            old(self)@.accepts(bytes@.len() as int),
        ensures
            final(self).wf(),
            final(self)@ == old(self)@.append(bytes@),
    {
        proof {
            reveal(DriverSessionModel::append);
        }
        let ghost before = self@;
        if self.pending_reply.len() == 0 {
            append(&mut self.outbound, bytes);
            proof {
                assert(self@.unsent =~= before.unsent + bytes@);
            }
        } else {
            append(&mut self.pending_reply, bytes);
        }
    }

    /// Returns whether `len` more bytes of input are accepted.
    pub(crate) fn accepts(&self, len: usize) -> (ok: bool)
        requires
            self.is_sound(),
        ensures
            ok == self@.accepts(len as int),
    {
        capacity_ok(
            self.unsent(),
            self.pending_reply.len(),
            self.write_queue_limit,
            self.pending_reply_limit,
            len,
        )
    }

    /// Records that the first `n` unsent bytes were written.
    fn note_written(&mut self, n: usize)
        requires
            old(self).wf(),
            n <= old(self)@.unsent.len(),
        ensures
            final(self)@.keeps(old(self)@),
            final(self).wf(),
            final(self)@ == old(self)@.wrote(n as int),
    {
        proof {
            reveal(DriverSessionModel::wrote);
        }
        let ghost before = self@;
        let len: usize = self.outbound.len();
        self.write_offset = self.write_offset + n;
        if self.write_offset == len {
            self.outbound.clear();
            self.write_offset = 0;
        }
        proof {
            assert(self@.unsent =~= before.unsent.skip(n as int));
        }
    }

    /// Takes bytes that were read into the buffer.
    fn receive(&mut self, bytes: &[u8])
        requires
            old(self).wf(),
            old(self)@.unread.len() + bytes@.len() <= old(self)@.limits.read_buffer,
        ensures
            final(self)@.keeps(old(self)@),
            final(self).wf(),
            final(self)@ == old(self)@.received(bytes@),
    {
        proof {
            reveal(DriverSessionModel::received);
        }
        append(&mut self.read_buffer, bytes);
    }

    fn clear_writable(&mut self)
        requires
            old(self).wf(),
        ensures
            final(self)@.keeps(old(self)@),
            final(self).wf(),
            final(self)@ == old(self)@.not_writable(),
    {
        proof {
            reveal(DriverSessionModel::not_writable);
        }
        self.ready.writable = false;
    }

    fn clear_readable(&mut self)
        requires
            old(self).wf(),
        ensures
            final(self)@.keeps(old(self)@),
            final(self).wf(),
            final(self)@ == old(self)@.not_readable(),
    {
        proof {
            reveal(DriverSessionModel::not_readable);
        }
        self.ready.readable = false;
    }

    /// Records the end of the stream.
    fn note_eof(&mut self)
        requires
            old(self).wf(),
            old(self)@.phase != SessionStatus::Closing,
        ensures
            final(self)@.keeps(old(self)@),
            final(self).wf(),
            final(self)@ == old(self)@.ended(),
    {
        proof {
            reveal(DriverSessionModel::ended);
        }
        self.phase = SessionStatus::Eof;
        self.ready.readable = false;
    }

    /// What the turn of a session asks for can be done.
    pub open spec fn allows(&self, action: TurnAction) -> bool {
        match action {
            TurnAction::Write(n) => 0 < n <= self@.unsent.len() && self@.phase
                != SessionStatus::Closing,
            TurnAction::Read(n) => 0 < n && self@.phase == SessionStatus::Live
                && self@.unread.len() + n <= self@.limits.read_buffer,
            TurnAction::Idle => true,
        }
    }

    /// Begins the turn of the session.
    pub(crate) fn begin_turn(&mut self, budget: PumpBudget) -> (step: (Turn, TurnAction))
        requires
            old(self).wf(),
        ensures
            final(self)@.keeps(old(self)@),
            final(self).wf(),
            final(self)@ == begin_turn(old(self)@, budget).session,
            step.0 == begin_turn(old(self)@, budget).turn,
            step.1 == begin_turn(old(self)@, budget).action,
            final(self).allows(step.1),
            !(step.1 is Idle) ==> step.0.attempts < usize::MAX,
    {
        proof {
            reveal(begin_turn);
        }
        let mut turn = Turn {
            budget,
            direction: self.direction,
            rounds: 2,
            progressed: false,
            attempts: 0,
            moved: 0,
            dirty: false,
        };
        let action = self.start_phase(&mut turn);
        (turn, action)
    }

    /// Begins the next phase of a turn.
    fn start_phase(&mut self, turn: &mut Turn) -> (action: TurnAction)
        requires
            old(self).wf(),
        ensures
            final(self)@.keeps(old(self)@),
            final(self).wf(),
            final(self)@ == turn_round(old(self)@, *old(turn)).session,
            *final(turn) == turn_round(old(self)@, *old(turn)).turn,
            action == turn_round(old(self)@, *old(turn)).action,
            final(self).allows(action),
            !(action is Idle) ==> final(turn).attempts < usize::MAX,
        decreases old(turn).rounds, 0int,
    {
        if turn.rounds == 0 || turn.budget.exhausted() {
            return TurnAction::Idle;
        }
        turn.rounds = turn.rounds - 1;
        turn.progressed = false;
        turn.attempts = 0;
        turn.moved = 0;
        // Start with the direction that actually has work, so a session with
        // nothing to write is not blocked behind the write phase.
        if !self.has_direction_work(turn.direction) {
            turn.direction = turn.direction.opposite();
            if !self.has_direction_work(turn.direction) {
                return TurnAction::Idle;
            }
        }
        match turn.direction {
            Direction::Write => self.write_phase(turn),
            Direction::Read => self.read_phase(turn),
        }
    }

    /// Ends a phase of a turn.
    fn end_phase(&mut self, turn: &mut Turn) -> (action: TurnAction)
        requires
            old(self).wf(),
        ensures
            final(self)@.keeps(old(self)@),
            final(self).wf(),
            final(self)@ == turn_end(old(self)@, *old(turn)).session,
            *final(turn) == turn_end(old(self)@, *old(turn)).turn,
            action == turn_end(old(self)@, *old(turn)).action,
            final(self).allows(action),
            !(action is Idle) ==> final(turn).attempts < usize::MAX,
        decreases old(turn).rounds, 1int,
    {
        if !turn.progressed {
            return TurnAction::Idle;
        }
        turn.direction = turn.direction.opposite();
        if !self.has_direction_work(turn.direction) {
            return TurnAction::Idle;
        }
        self.start_phase(turn)
    }

    /// Begins writing pending bytes, bounded by the per-session write quanta
    /// and the drive budgets.
    fn write_phase(&mut self, turn: &mut Turn) -> (action: TurnAction)
        requires
            old(self).wf(),
        ensures
            final(self)@.keeps(old(self)@),
            final(self).wf(),
            final(self)@ == turn_write(old(self)@, *old(turn)).session,
            *final(turn) == turn_write(old(self)@, *old(turn)).turn,
            action == turn_write(old(self)@, *old(turn)).action,
            final(self).allows(action),
            !(action is Idle) ==> final(turn).attempts < usize::MAX,
        decreases old(turn).rounds, 3int,
    {
        if readmit_pending(self) {
            turn.dirty = true;
            turn.progressed = true;
        }
        self.keep_writing(turn)
    }

    /// Goes on writing.
    fn keep_writing(&mut self, turn: &mut Turn) -> (action: TurnAction)
        requires
            old(self).wf(),
        ensures
            final(self)@.keeps(old(self)@),
            final(self).wf(),
            final(self)@ == turn_keep_writing(old(self)@, *old(turn)).session,
            *final(turn) == turn_keep_writing(old(self)@, *old(turn)).turn,
            action == turn_keep_writing(old(self)@, *old(turn)).action,
            final(self).allows(action),
            !(action is Idle) ==> final(turn).attempts < usize::MAX,
        decreases old(turn).rounds, 2int,
    {
        let n: usize = smaller(
            smaller(
                self.write_byte_quantum.saturating_sub(turn.moved),
                turn.budget.bytes_left(),
            ),
            self.unsent(),
        );
        if turn.budget.exhausted() || turn.attempts >= self.write_syscall_quantum || self.phase
            == SessionStatus::Closing || n == 0 {
            return self.end_phase(turn);
        }
        TurnAction::Write(n)
    }

    /// Begins decoding and reading bytes, bounded by the per-session read
    /// quanta and the drive budgets.
    fn read_phase(&mut self, turn: &mut Turn) -> (action: TurnAction)
        requires
            old(self).wf(),
        ensures
            final(self)@.keeps(old(self)@),
            final(self).wf(),
            final(self)@ == turn_read(old(self)@, *old(turn)).session,
            *final(turn) == turn_read(old(self)@, *old(turn)).turn,
            action == turn_read(old(self)@, *old(turn)).action,
            final(self).allows(action),
            !(action is Idle) ==> final(turn).attempts < usize::MAX,
        decreases old(turn).rounds, 3int,
    {
        self.decode_buffered(turn);
        if !self.ready.readable {
            return self.end_phase(turn);
        }
        self.keep_reading(turn)
    }

    /// Goes on reading.
    fn keep_reading(&mut self, turn: &mut Turn) -> (action: TurnAction)
        requires
            old(self).wf(),
        ensures
            final(self)@.keeps(old(self)@),
            final(self).wf(),
            final(self)@ == turn_keep_reading(old(self)@, *old(turn)).session,
            *final(turn) == turn_keep_reading(old(self)@, *old(turn)).turn,
            action == turn_keep_reading(old(self)@, *old(turn)).action,
            final(self).allows(action),
            !(action is Idle) ==> final(turn).attempts < usize::MAX,
        decreases old(turn).rounds, 2int,
    {
        let n: usize = smaller(
            smaller(
                self.read_byte_quantum.saturating_sub(turn.moved),
                turn.budget.bytes_left(),
            ),
            self.read_buffer_limit.saturating_sub(self.read_buffer.len()),
        );
        if turn.budget.exhausted() || turn.attempts >= self.read_syscall_quantum || self.read_paused
            || self.phase != SessionStatus::Live || n == 0 {
            return self.end_phase(turn);
        }
        TurnAction::Read(n)
    }

    /// Decodes already-buffered raw bytes, one byte at a time, until paused,
    /// empty, or the byte budget is exhausted.
    fn decode_buffered(&mut self, turn: &mut Turn)
        requires
            old(self).wf(),
        ensures
            final(self)@.keeps(old(self)@),
            final(self).wf(),
            final(self)@ == old(self)@.decode(old(turn).budget.bytes as int),
            *final(turn) == turn_decoded(old(self)@, *old(turn)),
    {
        let mut decoded: usize = 0;
        let bytes: usize = turn.budget.bytes_left();
        let ghost before = self@;
        while decoded < bytes && !self.read_paused && self.read_buffer.len() > 0
            invariant
                self.wf(),
                before == old(self)@,
                bytes == old(turn).budget.bytes,
                decoded <= bytes,
                decoded == before.unread.len() - self@.unread.len(),
                self@.keeps(before),
                self@.decode(bytes - decoded) == before.decode(bytes as int),
            decreases bytes - decoded,
        {
            let ghost here = self@;
            let byte: u8 = self.read_buffer.remove(0);
            proof {
                assert(self@.unread =~= here.unread.skip(1));
            }
            let result = decode_byte(self, byte);
            proof {
                assert(result is Ok);
            }
            decoded += 1;
        }
        turn.budget.consume(decoded, 0);
        if decoded > 0 {
            turn.dirty = true;
            turn.progressed = true;
        }
    }

    /// Goes on once `n` bytes were written.
    fn go_on_writing(&mut self, turn: &mut Turn, n: usize) -> (action: TurnAction)
        requires
            old(self).wf(),
            n <= old(self)@.unsent.len(),
        ensures
            final(self)@.keeps(old(self)@),
            final(self).wf(),
            ({
                let step = turn_keep_writing(
                    old(self)@.wrote(n as int),
                    Turn {
                        budget: old(turn).budget.after(n as int, 0),
                        progressed: true,
                        moved: as_count((old(turn).moved + n) as nat),
                        dirty: old(turn).dirty || n == old(self)@.unsent.len(),
                        ..*old(turn)
                    },
                );
                final(self)@ == step.session && *final(turn) == step.turn && action == step.action
            }),
            final(self).allows(action),
            !(action is Idle) ==> final(turn).attempts < usize::MAX,
    {
        turn.budget.consume(n, 0);
        turn.moved = turn.moved.saturating_add(n);
        turn.progressed = true;
        if n == self.unsent() {
            turn.dirty = true;
        }
        self.note_written(n);
        self.keep_writing(turn)
    }

    /// Goes on once bytes were read.
    fn go_on_reading(&mut self, turn: &mut Turn, bytes: &[u8]) -> (action: TurnAction)
        requires
            old(self).wf(),
            old(self)@.phase != SessionStatus::Closing,
            old(self)@.unread.len() + bytes@.len() <= old(self)@.limits.read_buffer,
        ensures
            final(self)@.keeps(old(self)@),
            final(self).wf(),
            ({
                let full = old(self)@.received(bytes@);
                let moved = Turn {
                    budget: old(turn).budget.after(bytes@.len() as int, 0),
                    progressed: true,
                    moved: as_count((old(turn).moved + bytes@.len()) as nat),
                    ..*old(turn)
                };
                let step = turn_keep_reading(
                    full.decode(moved.budget.bytes as int),
                    turn_decoded(full, moved),
                );
                final(self)@ == step.session && *final(turn) == step.turn && action == step.action
            }),
            final(self).allows(action),
            !(action is Idle) ==> final(turn).attempts < usize::MAX,
    {
        turn.budget.consume(bytes.len(), 0);
        turn.moved = turn.moved.saturating_add(bytes.len());
        turn.progressed = true;
        self.receive(bytes);
        self.decode_buffered(turn);
        self.keep_reading(turn)
    }

    /// Reports how a write went that the turn asked for, and goes on.
    pub(crate) fn note_write(&mut self, turn: &mut Turn, outcome: WriteOutcome) -> (action:
        TurnAction)
        requires
            old(self).wf(),
            outcome matches WriteOutcome::Wrote(n) ==> n <= old(self)@.unsent.len(),
            old(turn).attempts < usize::MAX,
        ensures
            final(self)@.keeps(old(self)@),
            final(self).wf(),
            final(self)@ == turn_after_write(old(self)@, *old(turn), outcome).session,
            *final(turn) == turn_after_write(old(self)@, *old(turn), outcome).turn,
            action == turn_after_write(old(self)@, *old(turn), outcome).action,
            final(self).allows(action),
            !(action is Idle) ==> final(turn).attempts < usize::MAX,
    {
        proof {
            reveal(turn_after_write);
        }
        turn.attempts = turn.attempts + 1;
        turn.budget.consume(0, 1);
        match outcome {
            WriteOutcome::Wrote(n) => {
                if n == 0 {
                    return self.end_phase(turn);
                }
                self.go_on_writing(turn, n)
            },
            WriteOutcome::WouldBlock => {
                self.clear_writable();
                self.end_phase(turn)
            },
            WriteOutcome::Interrupted => self.end_phase(turn),
            _ => {
                self.clear_writable();
                TurnAction::Idle
            },
        }
    }

    /// Reports how a read went that the turn asked for, and goes on.
    pub(crate) fn note_read(&mut self, turn: &mut Turn, outcome: ReadOutcome<'_>) -> (action:
        TurnAction)
        requires
            old(self).wf(),
            old(self)@.phase != SessionStatus::Closing,
            old(turn).attempts < usize::MAX,
            outcome matches ReadOutcome::Bytes(bytes) ==> old(self)@.unread.len() + bytes@.len()
                <= old(self)@.limits.read_buffer,
        ensures
            final(self)@.keeps(old(self)@),
            final(self).wf(),
            final(self)@ == turn_after_read(old(self)@, *old(turn), outcome).session,
            *final(turn) == turn_after_read(old(self)@, *old(turn), outcome).turn,
            action == turn_after_read(old(self)@, *old(turn), outcome).action,
            final(self).allows(action),
            !(action is Idle) ==> final(turn).attempts < usize::MAX,
    {
        proof {
            reveal(turn_after_read);
        }
        turn.attempts = turn.attempts + 1;
        turn.budget.consume(0, 1);
        match outcome {
            ReadOutcome::Bytes(bytes) => {
                if bytes.len() == 0 {
                    self.note_eof();
                    turn.dirty = true;
                    return self.end_phase(turn);
                }
                self.go_on_reading(turn, bytes)
            },
            ReadOutcome::WouldBlock => {
                self.clear_readable();
                self.end_phase(turn)
            },
            ReadOutcome::Interrupted => self.end_phase(turn),
            ReadOutcome::Gone => {
                // PTY slave close is reported as an error on some platforms;
                // it is the end of the stream.
                self.note_eof();
                turn.dirty = true;
                self.end_phase(turn)
            },
            ReadOutcome::Failed => {
                self.clear_readable();
                TurnAction::Idle
            },
        }
    }
}

/// A session that has just begun.
pub open spec fn new_session(
    id: SessionId,
    fd: i32,
    session: SessionConfig,
    config: DriverConfig,
) -> DriverSessionModel {
    DriverSessionModel {
        id,
        generation: 0,
        fd,
        term: TerminalModel::initial(session.size),
        revision: 0,
        phase: SessionStatus::Live,
        unread: Seq::empty(),
        unsent: Seq::empty(),
        pending: Seq::empty(),
        ready: Readiness::none(),
        direction: Direction::Write,
        paused: false,
        exit_event_sent: false,
        limits: SessionLimits {
            scrollback: session.scrollback_limits,
            write_queue: config.write_queue_limit,
            pending_reply: config.pending_reply_limit,
            read_buffer: config.read_buffer_limit,
            read_bytes: config.read_byte_quantum,
            read_syscalls: config.read_syscall_quantum,
            write_bytes: config.write_byte_quantum,
            write_syscalls: config.write_syscall_quantum,
        },
    }
}

/// Returns the smaller of two numbers.
fn smaller(a: usize, b: usize) -> (n: usize)
    ensures
        n == least(a as int, b as int),
{
    if a < b {
        a
    } else {
        b
    }
}

/// Whether a session still has work a following drive should process.
///
/// Write work is reported only while writable readiness has been observed (or
/// the pending reply can be re-admitted without any fd), and read work only
/// while the session is not paused and not at EOF.
pub fn session_has_work(sess: &DriverSession) -> (work: bool)
    requires
        sess.is_sound(),
    ensures
        work == sess@.has_work(),
{
    if sess.phase == SessionStatus::Closing {
        return false;
    }
    if sess.pending_reply.len() > 0 && sess.pending_reply.len() <= sess.free_outbound() {
        return true;
    }
    if !sess.outbound_empty() {
        return sess.ready.writable;
    }
    if sess.read_paused {
        return false;
    }
    if sess.read_buffer.len() > 0 {
        return true;
    }
    sess.ready.readable && sess.phase != SessionStatus::Eof
}

/// Interests a session's fd should currently be registered with.
pub fn session_interests(sess: &DriverSession) -> (interests: Interests)
    requires
        sess.is_sound(),
    ensures
        interests == sess@.wanted(),
{
    if sess.phase == SessionStatus::Closing {
        return Interests::default();
    }
    Interests {
        readable: sess.phase != SessionStatus::Eof && !sess.read_paused,
        writable: !sess.outbound_empty() || sess.pending_reply.len() > 0,
    }
}

/// Moves as much of the pending reply into `outbound` as fits.
///
/// Returns whether anything was moved. When the whole pending reply is
/// admitted, decoding resumes. The moved bytes go to the front of the queue.
pub fn readmit_pending(sess: &mut DriverSession) -> (moved: bool)
    requires
        old(sess).is_sound(),
    ensures
        final(sess)@.keeps(old(sess)@),
        final(sess).is_sound(),
        old(sess).wf() ==> final(sess).wf(),
        final(sess)@ == old(sess)@.readmit(),
        moved == (old(sess)@.admissible() > 0),
        moved ==> final(sess).write_offset == 0 && final(sess).outbound@ == final(sess)@.unsent,
        !moved ==> *final(sess) == *old(sess),
{
    proof {
        reveal(DriverSessionModel::readmit);
    }
    let can: usize = smaller(sess.free_outbound(), sess.pending_reply.len());
    if can == 0 {
        return false;
    }
    let ghost before = sess@;
    let rest: Vec<u8> = sess.pending_reply.split_off(can);
    let unsent: Vec<u8> = sess.outbound.split_off(sess.write_offset);
    let mut queue: Vec<u8> = Vec::new();
    append(&mut queue, sess.pending_reply.as_slice());
    append(&mut queue, unsent.as_slice());
    sess.outbound = queue;
    sess.write_offset = 0;
    sess.pending_reply = rest;
    if sess.pending_reply.len() == 0 {
        sess.read_paused = false;
    }
    proof {
        assert(sess@.unsent =~= before.pending.take(can as int) + before.unsent);
        assert(sess@.pending =~= before.pending.skip(can as int));
    }
    true
}

/// Feeds one byte into the emulator and admits any produced reply.
///
/// A reply is appended to `outbound` when it fits; otherwise it is held in
/// `pending_reply` and decoding pauses so that no reply is ever dropped. It is
/// an error if it fits in neither.
pub fn decode_byte(sess: &mut DriverSession, byte: u8) -> (result: Result<(), DriverError>)
    requires
        old(sess).is_sound(),
    ensures
        final(sess)@.keeps(old(sess)@),
        final(sess).is_sound(),
        old(sess).wf() && !old(sess)@.paused ==> final(sess).wf() && result is Ok,
        final(sess)@ == old(sess)@.decode_byte(byte),
        result == if old(sess)@.can_decode(byte) {
            Ok::<(), DriverError>(())
        } else {
            Err(DriverError::ReplyOverflow)
        },
        final(sess)@.unread == old(sess)@.unread,
{
    proof {
        reveal(DriverSessionModel::decode_byte);
        reveal(DriverSessionModel::feed_byte);
        reveal(DriverSessionModel::keep_reply);
    }
    let reply: Vec<u8> = feed_byte(sess, byte);
    keep_reply(sess, reply.as_slice())
}

/// Feeds one byte into the emulator and takes any produced reply.
fn feed_byte(sess: &mut DriverSession, byte: u8) -> (reply: Vec<u8>)
    requires
        old(sess).is_sound(),
    ensures
        final(sess).is_sound(),
        final(sess)@ == old(sess)@.feed_byte(byte),
        reply@ == old(sess)@.reply_to(byte),
        reply@.len() <= MAX_REPLY_BYTES,
{
    proof {
        reveal(DriverSessionModel::feed_byte);
    }
    let one: [u8; 1] = [byte];
    proof {
        assert(one@ =~= seq![byte]);
    }
    sess.term.feed(one.as_slice());
    let limits: ScrollbackLimits = sess.scrollback_limits;
    sess.term.trim_scrollback(limits.max_lines, limits.max_cells);
    let reply: Vec<u8> = vstd::slice::slice_to_vec(sess.term.pending_reply_bytes());
    sess.term.advance_reply_bytes(reply.len());
    proof {
        assert(sess@.term.replies =~= Seq::<u8>::empty());
    }
    reply
}

/// Keeps a reply, in `outbound` or in `pending_reply`.
fn keep_reply(sess: &mut DriverSession, reply: &[u8]) -> (result: Result<(), DriverError>)
    requires
        old(sess).is_sound(),
    ensures
        final(sess).is_sound(),
        final(sess)@ == old(sess)@.keep_reply(reply@),
        result == if old(sess)@.admits(reply@.len() as int) {
            Ok::<(), DriverError>(())
        } else {
            Err(DriverError::ReplyOverflow)
        },
{
    proof {
        reveal(DriverSessionModel::keep_reply);
    }
    let ghost queue = sess@.unsent;
    let len: usize = reply.len();
    if len == 0 {
        return Ok(());
    }
    if len <= sess.free_outbound() {
        append(&mut sess.outbound, reply);
        proof {
            assert(sess@.unsent =~= queue + reply@);
        }
        return Ok(());
    }
    if sess.pending_reply_limit >= len && sess.pending_reply.len() <= sess.pending_reply_limit
        - len {
        append(&mut sess.pending_reply, reply);
        sess.read_paused = true;
        return Ok(());
    }
    Err(DriverError::ReplyOverflow)
}

} // verus!
