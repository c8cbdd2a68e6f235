//! Multi-session terminal driver with runtime-free I/O.
//!
//! [`SessionDriver`] owns several terminal sessions and lets an external event
//! loop drive them: the caller registers file descriptors with their own poll
//! loop, feeds readiness notifications back to the driver, does the reads and
//! writes that a drive asks for, and reads the resulting lifecycle events and
//! poll source changes.
//!
//! The driver never owns a poll loop. It exposes an opaque
//! [`RegistrationToken`] per registration so that a stale readiness
//! notification from a removed session can never be misapplied to a new
//! session, even when the OS reuses the same fd number.

use vstd::prelude::*;
use vstd::utf8::encode_utf8;

use crate::driver_config::{
    DriveResult, DriverConfig, DriverError, DriverEvent, PollSource, PollSourceEntry, Readiness,
    RegistrationToken, SessionConfig, SessionId, SessionStatus,
};
use crate::driver_session::{
    begin_turn, first_turn, new_session, session_has_work, session_interests, turn_after_read,
    turn_after_write, DriverSession, DriverSessionModel, Turn, TurnAction, TurnStep,
};
use crate::input::{
    encode_key, encode_paste, key_bytes, lemma_key_len, lemma_paste_len, paste_bytes, KeyEvent,
};
use crate::pty::ObservedExit;
use crate::session::{Direction, PumpBudget, ReadOutcome, WriteOutcome};
use crate::size::Size;
use crate::snapshot::TerminalSnapshot;
use crate::terminal::TerminalState;
use crate::terminal_model::least;
use crate::terminal_types::TerminalModes;

verus! {

/// A runtime-free driver for multiple terminal sessions.
///
/// The driver owns the emulator state, the bounded read/write buffers, and the
/// lifecycle of each session, but never a poll loop or a PTY. Call
/// [`SessionDriver::poll_sources`] to learn what to register, report readiness
/// back with [`SessionDriver::drive`], and do what the drive asks for until it
/// is done.
pub struct SessionDriver {
    config: DriverConfig,
    /// The sessions, in the order of their identifiers.
    sessions: Vec<DriverSession>,
    next_id: u64,
    /// Session to start the next round-robin pass from.
    cursor: Option<SessionId>,
    /// Whether the poll source changed since the last snapshot was taken.
    poll_dirty: bool,
}

/// The state of a driver.
pub struct DriverModel {
    /// The configuration.
    pub config: DriverConfig,
    /// The sessions, in the order of their identifiers.
    pub sessions: Seq<DriverSessionModel>,
    /// The number of the next identifier.
    pub next_id: u64,
    /// The session that the next drive starts with.
    pub cursor: Option<SessionId>,
    /// Whether the poll source changed.
    pub poll_dirty: bool,
}

/// Where a drive stands.
#[derive(Debug)]
pub struct Drive {
    /// What is left of the budget, up to the current turn.
    pub budget: PumpBudget,
    /// The session whose turn it is.
    pub index: usize,
    /// How many sessions have not had their turn.
    pub left: usize,
    /// The current turn.
    pub turn: Turn,
    /// Sessions whose turn is over.
    pub processed: Vec<SessionId>,
    /// Tokens that matched no session.
    pub stale_tokens: Vec<RegistrationToken>,
}

/// Where a drive stands, with its lists as sequences.
pub struct DriveModel {
    /// What is left of the budget, up to the current turn.
    pub budget: PumpBudget,
    /// The session whose turn it is.
    pub index: int,
    /// How many sessions have not had their turn.
    pub left: int,
    /// The current turn.
    pub turn: Turn,
    /// Sessions whose turn is over.
    pub processed: Seq<SessionId>,
    /// Tokens that matched no session.
    pub stale_tokens: Seq<RegistrationToken>,
}

/// What a drive asks of its caller.
#[derive(Debug, Clone, Copy, PartialEq, Eq, Structural)]
pub enum DriveAction {
    /// Write this many of the session's first unsent bytes, in one call.
    Write {
        /// The session.
        id: SessionId,
        /// How many bytes.
        len: usize,
    },
    /// Read at most this many bytes for the session, in one call.
    Read {
        /// The session.
        id: SessionId,
        /// How many bytes.
        len: usize,
    },
    /// Nothing: the drive is over.
    Done,
}

/// A drive after one of its steps.
pub struct DriveStep {
    /// The driver.
    pub driver: DriverModel,
    /// Where the drive stands.
    pub drive: DriveModel,
    /// What it asks for.
    pub action: DriveAction,
}

impl View for Drive {
    type V = DriveModel;

    open spec fn view(&self) -> DriveModel {
        DriveModel {
            budget: self.budget,
            index: self.index as int,
            left: self.left as int,
            turn: self.turn,
            processed: self.processed@,
            stale_tokens: self.stale_tokens@,
        }
    }
}

/// Whether a token stands for the current registration of a session.
pub open spec fn matches_token(s: DriverSessionModel, token: RegistrationToken) -> bool {
    s.id == token.spec_session_id() && s.generation == token.spec_generation() && s.phase
        != SessionStatus::Closing
}

/// Whether a token stands for the current registration of any session.
pub open spec fn is_current(
    sessions: Seq<DriverSessionModel>,
    token: RegistrationToken,
) -> bool {
    exists|i: int| 0 <= i < sessions.len() && matches_token(#[trigger] sessions[i], token)
}

/// The sessions with readiness added where a token matches.
pub open spec fn mark_one(
    sessions: Seq<DriverSessionModel>,
    token: RegistrationToken,
    readiness: Readiness,
) -> Seq<DriverSessionModel> {
    Seq::new(
        sessions.len(),
        |i: int|
            if matches_token(sessions[i], token) {
                sessions[i].readied(readiness)
            } else {
                sessions[i]
            },
    )
}

/// The sessions with readiness added for a list of tokens.
pub open spec fn mark_all(
    sessions: Seq<DriverSessionModel>,
    ready: Seq<(RegistrationToken, Readiness)>,
) -> Seq<DriverSessionModel>
    decreases ready.len(),
{
    if ready.len() == 0 {
        sessions
    } else {
        mark_one(mark_all(sessions, ready.drop_last()), ready.last().0, ready.last().1)
    }
}

/// The tokens of a list that match no session.
pub open spec fn stale_tokens(
    sessions: Seq<DriverSessionModel>,
    ready: Seq<(RegistrationToken, Readiness)>,
) -> Seq<RegistrationToken>
    decreases ready.len(),
{
    if ready.len() == 0 {
        Seq::empty()
    } else {
        let before = stale_tokens(sessions, ready.drop_last());
        if is_current(mark_all(sessions, ready.drop_last()), ready.last().0) {
            before
        } else {
            before.push(ready.last().0)
        }
    }
}

/// What is registered for a session, where it has a registration.
pub open spec fn is_registration(entry: PollSourceEntry, s: DriverSessionModel) -> bool {
    &&& entry.fd == s.fd
    &&& entry.token.spec_session_id() == s.id
    &&& entry.token.spec_generation() == s.generation
    &&& entry.interests == s.wanted()
}

/// The sessions that are registered with the event loop.
pub open spec fn registered(sessions: Seq<DriverSessionModel>) -> Seq<DriverSessionModel>
    decreases sessions.len(),
{
    if sessions.len() == 0 {
        Seq::empty()
    } else if sessions.last().phase == SessionStatus::Closing {
        registered(sessions.drop_last())
    } else {
        registered(sessions.drop_last()).push(sessions.last())
    }
}

/// Whether any session has work that needs no new readiness.
pub open spec fn any_work(sessions: Seq<DriverSessionModel>) -> bool {
    exists|i: int| 0 <= i < sessions.len() && (#[trigger] sessions[i]).has_work()
}

impl DriverModel {
    /// The configuration is valid, the sessions are well-formed, and they are
    /// in the order of their identifiers, all of which have been given out.
    pub open spec fn wf(self) -> bool {
        &&& self.config.is_valid()
        &&& forall|i: int| 0 <= i < self.sessions.len() ==> (#[trigger] self.sessions[i]).wf()
        &&& forall|i: int, j: int|
            0 <= i < j < self.sessions.len() ==> (#[trigger] self.sessions[i]).id.number() < (
            #[trigger] self.sessions[j]).id.number()
        &&& forall|i: int|
            0 <= i < self.sessions.len() ==> (#[trigger] self.sessions[i]).id.number()
                < self.next_id
    }

    /// Whether there is a session with this identifier.
    pub open spec fn has(self, id: SessionId) -> bool {
        exists|i: int| 0 <= i < self.sessions.len() && (#[trigger] self.sessions[i]).id == id
    }

    /// Where the session with an identifier is.
    pub open spec fn position(self, id: SessionId) -> int {
        choose|i: int| 0 <= i < self.sessions.len() && (#[trigger] self.sessions[i]).id == id
    }

    /// The session with an identifier.
    pub open spec fn session(self, id: SessionId) -> DriverSessionModel {
        self.sessions[self.position(id)]
    }

    /// With one session replaced.
    pub open spec fn with_session(self, index: int, s: DriverSessionModel) -> DriverModel {
        DriverModel { sessions: self.sessions.update(index, s), ..self }
    }

    /// Whether a session takes `len` more bytes of input, and why not.
    pub open spec fn refusal(self, id: SessionId, len: int) -> Result<(), DriverError> {
        if !self.has(id) {
            Err(DriverError::StaleId(id))
        } else if self.session(id).phase == SessionStatus::Closing {
            Err(DriverError::SessionClosed(id))
        } else if !self.session(id).accepts(len) {
            Err(DriverError::Backpressure)
        } else {
            Ok(())
        }
    }

    /// With input taken for a session.
    pub open spec fn appended(self, id: SessionId, bytes: Seq<u8>) -> DriverModel {
        self.with_session(self.position(id), self.session(id).append(bytes)).dirtied(true)
    }

    /// With a session closed.
    pub open spec fn closed(self, id: SessionId) -> DriverModel {
        if !self.has(id) || self.session(id).phase == SessionStatus::Closing {
            self
        } else {
            self.with_session(self.position(id), self.session(id).close()).dirtied(true)
        }
    }

    /// With a session's terminal resized.
    pub open spec fn resized(self, id: SessionId, size: Size) -> DriverModel {
        let s = self.session(id);
        self.with_session(
            self.position(id),
            DriverSessionModel {
                term: s.term.resize(size),
                revision: if size == s.term.size {
                    s.revision
                } else {
                    s.revision.wrapping_add(1)
                },
                ..s
            },
        )
    }

    /// With a session's exit reported.
    pub open spec fn reported(self, id: SessionId) -> DriverModel {
        self.with_session(
            self.position(id),
            DriverSessionModel { exit_event_sent: true, ..self.session(id) },
        )
    }

    /// Without a session.
    pub open spec fn without(self, id: SessionId) -> DriverModel {
        DriverModel { sessions: self.sessions.remove(self.position(id)), ..self }.dirtied(true)
    }

    /// With the poll source changed.
    pub open spec fn dirtied(self, dirty: bool) -> DriverModel {
        DriverModel { poll_dirty: self.poll_dirty || dirty, ..self }
    }
}

impl DriveModel {
    /// With the next session up.
    pub open spec fn onward(self, count: int) -> DriveModel {
        DriveModel {
            index: if self.index + 1 < count {
                self.index + 1
            } else {
                0
            },
            left: self.left - 1,
            ..self
        }
    }
}

/// Sessions are visited one after the other. One with work gets a turn, as
/// long as the budget lasts.
pub open spec fn visit(d: DriverModel, c: DriveModel) -> DriveStep
    decreases c.left, 2int,
{
    let s = d.sessions[c.index];
    if c.left <= 0 {
        DriveStep { driver: d, drive: c, action: DriveAction::Done }
    } else if s.has_work() && !c.budget.is_spent() {
        take_step(d, c, begin_turn(s, c.budget))
    } else {
        visit(d, c.onward(d.sessions.len() as int))
    }
}

/// The turn of a session has made a step.
pub open spec fn take_step(d: DriverModel, c: DriveModel, step: TurnStep) -> DriveStep
    decreases c.left, 1int,
{
    let d1 = d.with_session(c.index, step.session).dirtied(step.turn.dirty);
    let c1 = DriveModel { turn: step.turn, ..c };
    let id = step.session.id;
    match step.action {
        TurnAction::Write(len) => DriveStep {
            driver: d1,
            drive: c1,
            action: DriveAction::Write { id, len },
        },
        TurnAction::Read(len) => DriveStep {
            driver: d1,
            drive: c1,
            action: DriveAction::Read { id, len },
        },
        TurnAction::Idle => end_turn(d1, c1),
    }
}

/// The turn of a session is over. The next drive starts with the session
/// after it. Nobody else gets a turn once the budget is spent.
pub open spec fn end_turn(d: DriverModel, c: DriveModel) -> DriveStep
    decreases c.left, 0int,
{
    let count = d.sessions.len() as int;
    let s = d.sessions[c.index];
    let next = c.onward(count);
    let d1 = DriverModel {
        cursor: Some(d.sessions[next.index].id),
        ..d.with_session(c.index, DriverSessionModel { direction: c.turn.direction, ..s })
    };
    let c1 = DriveModel {
        budget: c.turn.budget,
        processed: c.processed.push(s.id),
        ..next
    };
    if c.left <= 0 {
        DriveStep { driver: d, drive: c, action: DriveAction::Done }
    } else if c.turn.budget.is_spent() {
        DriveStep {
            driver: d1,
            drive: DriveModel { left: 0, ..c1 },
            action: DriveAction::Done,
        }
    } else {
        visit(d1, c1)
    }
}

/// Where a drive starts: with the session of the cursor, if there is one.
pub open spec fn first_index(d: DriverModel) -> int {
    match d.cursor {
        Some(id) if d.has(id) => d.position(id),
        _ => 0,
    }
}

/// A drive begins: readiness is recorded, then sessions are visited.
pub open spec fn begin_drive(
    d: DriverModel,
    ready: Seq<(RegistrationToken, Readiness)>,
) -> DriveStep {
    let marked = DriverModel { sessions: mark_all(d.sessions, ready), ..d };
    let budget = PumpBudget {
        bytes: d.config.drive_byte_budget,
        syscalls: d.config.drive_syscall_budget,
    };
    visit(
        marked,
        DriveModel {
            budget,
            index: first_index(marked),
            left: d.sessions.len() as int,
            turn: first_turn(budget, Direction::Write),
            processed: Seq::empty(),
            stale_tokens: stale_tokens(d.sessions, ready),
        },
    )
}

/// A step of a turn that failed: the drive is given up.
pub open spec fn give_up(d: DriverModel, c: DriveModel, step: TurnStep) -> DriveStep {
    DriveStep {
        driver: d.with_session(c.index, step.session).dirtied(step.turn.dirty),
        drive: DriveModel { turn: step.turn, ..c },
        action: DriveAction::Done,
    }
}

/// A write that the drive asked for was attempted.
pub open spec fn drive_after_write(
    d: DriverModel,
    c: DriveModel,
    outcome: WriteOutcome,
) -> DriveStep {
    let step = turn_after_write(d.sessions[c.index], c.turn, outcome);
    if outcome is Gone || outcome is Failed {
        give_up(d, c, step)
    } else {
        take_step(d, c, step)
    }
}

/// A read that the drive asked for was attempted.
pub open spec fn drive_after_read(
    d: DriverModel,
    c: DriveModel,
    outcome: ReadOutcome,
) -> DriveStep {
    let step = turn_after_read(d.sessions[c.index], c.turn, outcome);
    if outcome is Failed {
        give_up(d, c, step)
    } else {
        take_step(d, c, step)
    }
}

impl SessionDriver {
    /// The state of the driver.
    pub closed spec fn view(&self) -> DriverModel {
        DriverModel {
            config: self.config,
            sessions: Seq::new(self.sessions@.len(), |i: int| self.sessions@[i]@),
            next_id: self.next_id,
            cursor: self.cursor,
            poll_dirty: self.poll_dirty,
        }
    }

    /// The model and the sessions are well-formed.
    pub closed spec fn wf(&self) -> bool {
        &&& self@.wf()
        &&& forall|i: int| 0 <= i < self.sessions@.len() ==> (#[trigger] self.sessions@[i]).wf()
    }

    /// What holds of every well-formed driver.
    pub proof fn lemma_wf(&self)
        requires
            self.wf(),
        ensures
            self@.wf(),
    {
    }

    /// Creates a driver, validating `config`.
    pub fn new(config: DriverConfig) -> (driver: Result<SessionDriver, DriverError>)
        ensures
            driver == match config.first_error() {
                Some(error) => Err::<SessionDriver, DriverError>(DriverError::InvalidConfig(error)),
                None => driver,
            },
            driver is Ok <==> config.is_valid(),
            driver matches Ok(driver) ==> driver.wf() && driver@ == empty_driver(config, 0),
    {
        SessionDriver::starting_at(config, 0)
    }

    /// Creates a driver whose identifiers start at a number, validating
    /// `config`.
    pub fn starting_at(config: DriverConfig, next_id: u64) -> (driver: Result<
        SessionDriver,
        DriverError,
    >)
        ensures
            driver == match config.first_error() {
                Some(error) => Err::<SessionDriver, DriverError>(DriverError::InvalidConfig(error)),
                None => driver,
            },
            driver is Ok <==> config.is_valid(),
            driver matches Ok(driver) ==> driver.wf() && driver@ == empty_driver(config, next_id),
    {
        if let Err(error) = config.validate() {
            return Err(DriverError::InvalidConfig(error));
        }
        let driver = SessionDriver {
            config,
            sessions: Vec::new(),
            next_id,
            cursor: None,
            poll_dirty: true,
        };
        proof {
            assert(driver@.sessions =~= Seq::<DriverSessionModel>::empty());
        }
        Ok(driver)
    }

    /// Creates a driver with the default configuration.
    pub fn with_default_config() -> (driver: SessionDriver)
        ensures
            driver.wf(),
            driver@ == empty_driver(DriverConfig::standard(), 0),
    {
        let config = DriverConfig::default();
        let driver = SessionDriver {
            config,
            sessions: Vec::new(),
            next_id: 0,
            cursor: None,
            poll_dirty: true,
        };
        proof {
            assert(driver@.sessions =~= Seq::<DriverSessionModel>::empty());
        }
        driver
    }

    /// Gives out the next identifier, as long as there is one.
    pub fn allocate_id(&mut self) -> (id: Option<SessionId>)
        requires
            old(self).wf(),
        ensures
            final(self).wf(),
            id is None <==> old(self)@.next_id == u64::MAX,
            id is None ==> final(self)@ == old(self)@,
            id matches Some(id) ==> id.number() == old(self)@.next_id && final(self)@ == (
            DriverModel { next_id: (old(self)@.next_id + 1) as u64, ..old(self)@ }),
    {
        if self.next_id == u64::MAX {
            return None;
        }
        let id = SessionId::from_raw(self.next_id);
        self.next_id = self.next_id + 1;
        proof {
            assert(self@.sessions =~= old(self)@.sessions);
        }
        Some(id)
    }

    /// Adds a session whose PTY master is `fd`.
    ///
    /// On failure no session id or poll source entry is exposed.
    pub fn create_session(&mut self, fd: i32, config: SessionConfig) -> (id: Result<
        SessionId,
        DriverError,
    >)
        requires
            old(self).wf(),
        ensures
            final(self).wf(),
            old(self)@.next_id == u64::MAX ==> id == Err::<SessionId, DriverError>(
                DriverError::IdExhausted,
            ) && final(self)@ == old(self)@,
            old(self)@.next_id < u64::MAX ==> id is Ok,
            id matches Ok(id) ==> id.number() == old(self)@.next_id && final(self)@ == (
            DriverModel {
                sessions: old(self)@.sessions.push(new_session(id, fd, config, old(self)@.config)),
                next_id: (old(self)@.next_id + 1) as u64,
                poll_dirty: true,
                ..old(self)@
            }),
    {
        let id: SessionId = match self.allocate_id() {
            Some(id) => id,
            None => return Err(DriverError::IdExhausted),
        };
        let ghost before = self@;
        self.sessions.push(DriverSession::new(id, fd, config, self.config));
        self.poll_dirty = true;
        proof {
            assert(self@.sessions =~= before.sessions.push(
                new_session(id, fd, config, before.config),
            ));
        }
        Ok(id)
    }

    /// Finds a session.
    fn find(&self, id: SessionId) -> (index: Option<usize>)
        requires
            self.wf(),
        ensures
            index is Some <==> self@.has(id),
            index matches Some(i) ==> i < self.sessions@.len() && i == self@.position(id)
                && self@.sessions[i as int] == self.sessions@[i as int]@
                && self.sessions@[i as int]@.id == id,
    {
        let mut i: usize = 0;
        while i < self.sessions.len()
            invariant
                self.wf(),
                i <= self.sessions@.len(),
                forall|k: int| 0 <= k < i ==> (#[trigger] self@.sessions[k]).id != id,
            decreases self.sessions@.len() - i,
        {
            proof {
                assert(self@.sessions[i as int] == self.sessions@[i as int]@);
            }
            if self.sessions[i].id == id {
                proof {
                    let p = self@.position(id);
                    assert(self@.sessions[i as int].id == id);
                    if p < i {
                        assert(self@.sessions[p].id.number() < self@.sessions[i as int].id.number());
                    } else if p > i {
                        assert(self@.sessions[i as int].id.number() < self@.sessions[p].id.number());
                    }
                }
                return Some(i);
            }
            i += 1;
        }
        None
    }

    /// Returns a snapshot of everything currently registered with the event
    /// loop. Callers replace their whole registration set with this snapshot
    /// on every poll iteration.
    pub fn poll_sources(&mut self) -> (source: PollSource)
        requires
            old(self).wf(),
        ensures
            final(self).wf(),
            final(self)@ == (DriverModel { poll_dirty: false, ..old(self)@ }),
            source@.len() == registered(old(self)@.sessions).len(),
            forall|i: int|
                0 <= i < source@.len() ==> is_registration(
                    #[trigger] source@[i],
                    registered(old(self)@.sessions)[i],
                ),
    {
        let ghost all = self@.sessions;
        let mut entries: Vec<PollSourceEntry> = Vec::new();
        let mut i: usize = 0;
        proof {
            assert(all.take(0) =~= Seq::<DriverSessionModel>::empty());
        }
        while i < self.sessions.len()
            invariant
                self.wf(),
                self@ == old(self)@,
                all == self@.sessions,
                i <= self.sessions@.len(),
                entries@.len() == registered(all.take(i as int)).len(),
                forall|k: int|
                    0 <= k < entries@.len() ==> is_registration(
                        #[trigger] entries@[k],
                        registered(all.take(i as int))[k],
                    ),
            decreases self.sessions@.len() - i,
        {
            let sess: &DriverSession = &self.sessions[i];
            proof {
                assert(all[i as int] == self.sessions@[i as int]@);
                assert(all.take(i + 1).drop_last() =~= all.take(i as int));
                assert(all.take(i + 1).last() == all[i as int]);
            }
            if sess.phase != SessionStatus::Closing {
                entries.push(
                    PollSourceEntry {
                        fd: sess.fd,
                        token: RegistrationToken::new(sess.id, sess.generation),
                        interests: session_interests(sess),
                    },
                );
            }
            i += 1;
        }
        self.poll_dirty = false;
        proof {
            assert(all.take(i as int) =~= all);
            assert(self@.sessions =~= old(self)@.sessions);
        }
        PollSource::new(entries)
    }

    /// Records readiness for one token. Returns whether the token matches a
    /// session.
    fn mark(&mut self, token: RegistrationToken, readiness: Readiness) -> (known: bool)
        requires
            old(self).wf(),
        ensures
            final(self).wf(),
            final(self)@ == (DriverModel {
                sessions: mark_one(old(self)@.sessions, token, readiness),
                ..old(self)@
            }),
            known == is_current(old(self)@.sessions, token),
            final(self).sessions@.len() == old(self).sessions@.len(),
    {
        let ghost before = self@;
        let id: SessionId = token.session_id();
        let found: Option<usize> = self.find(id);
        if let Some(i) = found {
            let current = self.sessions[i].generation == token.generation()
                && self.sessions[i].phase != SessionStatus::Closing;
            if current {
                proof {
                    assert(matches_token(before.sessions[i as int], token));
                    assert forall|k: int| 0 <= k < before.sessions.len() && k != i implies !(
                    matches_token(#[trigger] before.sessions[k], token)) by {
                        if k < i {
                            assert(before.sessions[k].id.number() < before.sessions[i as int].id.number());
                        } else {
                            assert(before.sessions[i as int].id.number() < before.sessions[k].id.number());
                        }
                    }
                }
                self.sessions[i].note_ready(readiness);
                proof {
                    assert forall|k: int| 0 <= k < before.sessions.len() implies
                        #[trigger] self@.sessions[k] == mark_one(
                        before.sessions,
                        token,
                        readiness,
                    )[k] && self@.sessions[k].keeps(before.sessions[k]) by {}
                    assert(self@.sessions =~= mark_one(before.sessions, token, readiness));
                    assert(self@.wf()) by {
                        assert forall|a: int, b: int|
                            0 <= a < b < self@.sessions.len() implies (
                        #[trigger] self@.sessions[a]).id.number() < (
                        #[trigger] self@.sessions[b]).id.number() by {
                            assert(before.sessions[a].id.number() < before.sessions[b].id.number());
                        }
                    }
                }
                return true;
            }
        }
        proof {
            assert forall|k: int| 0 <= k < before.sessions.len() implies !matches_token(
                #[trigger] before.sessions[k],
                token,
            ) by {
                if before.sessions[k].id == id {
                    let p = before.position(id);
                    if p < k {
                        assert(before.sessions[p].id.number() < before.sessions[k].id.number());
                    } else if p > k {
                        assert(before.sessions[k].id.number() < before.sessions[p].id.number());
                    }
                }
            }
            assert(mark_one(before.sessions, token, readiness) =~= before.sessions);
        }
        false
    }

    /// Records readiness and drives ready sessions with bounded work.
    ///
    /// `readiness` maps observed poll events to registration tokens. Tokens
    /// that do not match a live session's current generation are rejected and
    /// returned in [`DriveResult::stale_tokens`] without touching any session.
    ///
    /// Ready sessions are processed round-robin, resuming from where the
    /// previous drive stopped, and each session alternates between its read
    /// and write direction within the global budget. When a direction would
    /// block only that direction's readiness is cleared; a budget limit
    /// instead keeps the ready state for the next drive.
    ///
    /// The caller does what is asked for, and reports back with
    /// [`SessionDriver::note_write`] and [`SessionDriver::note_read`] until
    /// the drive is done. [`SessionDriver::finish_drive`] then has the result.
    pub fn drive(&mut self, readiness: &[(RegistrationToken, Readiness)]) -> (step: (
        Drive,
        DriveAction,
    ))
        requires
            old(self).wf(),
        ensures
            final(self).wf(),
            final(self)@ == begin_drive(old(self)@, readiness@).driver,
            step.0@ == begin_drive(old(self)@, readiness@).drive,
            step.1 == begin_drive(old(self)@, readiness@).action,
            final(self).allows(step.0, step.1),
    {
        let mut stale: Vec<RegistrationToken> = Vec::new();
        let ghost before = self@;
        let mut i: usize = 0;
        proof {
            assert(readiness@.take(0) =~= Seq::<(RegistrationToken, Readiness)>::empty());
        }
        while i < readiness.len()
            invariant
                self.wf(),
                i <= readiness@.len(),
                before == old(self)@,
                self@ == (DriverModel {
                    sessions: mark_all(before.sessions, readiness@.take(i as int)),
                    ..before
                }),
                self@.sessions.len() == before.sessions.len(),
                stale@ == stale_tokens(before.sessions, readiness@.take(i as int)),
            decreases readiness@.len() - i,
        {
            let token: RegistrationToken = readiness[i].0;
            let ready: Readiness = readiness[i].1;
            proof {
                assert(readiness@.take(i + 1).drop_last() =~= readiness@.take(i as int));
                assert(readiness@.take(i + 1).last() == readiness@[i as int]);
            }
            if !self.mark(token, ready) {
                stale.push(token);
            }
            i += 1;
        }
        proof {
            assert(readiness@.take(i as int) =~= readiness@);
        }
        let budget = PumpBudget {
            bytes: self.config.drive_byte_budget,
            syscalls: self.config.drive_syscall_budget,
        };
        let index: usize = match self.cursor {
            Some(id) => match self.find(id) {
                Some(index) => index,
                None => 0,
            },
            None => 0,
        };
        let mut drive = Drive {
            budget,
            index,
            left: self.sessions.len(),
            turn: Turn {
                budget,
                direction: Direction::Write,
                rounds: 2,
                progressed: false,
                attempts: 0,
                moved: 0,
                dirty: false,
            },
            processed: Vec::new(),
            stale_tokens: stale,
        };
        proof {
            assert(drive@.processed =~= Seq::<SessionId>::empty());
        }
        let action = self.visit(&mut drive);
        (drive, action)
    }

    /// A drive visits sessions that are there.
    pub open spec fn hosts(&self, drive: Drive) -> bool {
        drive.left > 0 ==> drive.index < self@.sessions.len()
    }

    /// What a drive asks for can be done: it is a turn of the session whose
    /// turn it is, which has as many bytes to write or is there to be read.
    pub open spec fn allows(&self, drive: Drive, action: DriveAction) -> bool {
        &&& self.hosts(drive)
        &&& !(action is Done) ==> drive.left > 0 && drive.turn.attempts < usize::MAX
        &&& action matches DriveAction::Write { id, len } ==> {
            &&& self@.sessions[drive.index as int].id == id
            &&& 0 < len <= self@.sessions[drive.index as int].unsent.len()
        }
        &&& action matches DriveAction::Read { id, len } ==> {
            &&& self@.sessions[drive.index as int].id == id
            &&& self@.sessions[drive.index as int].phase == SessionStatus::Live
            &&& 0 < len
            &&& self@.sessions[drive.index as int].unread.len() + len
                <= self@.sessions[drive.index as int].limits.read_buffer
        }
    }

    /// Visits sessions until one of them asks for something.
    fn visit(&mut self, drive: &mut Drive) -> (action: DriveAction)
        requires
            old(self).wf(),
            old(self).hosts(*old(drive)),
        ensures
            final(self).wf(),
            final(self)@ == visit(old(self)@, old(drive)@).driver,
            final(drive)@ == visit(old(self)@, old(drive)@).drive,
            action == visit(old(self)@, old(drive)@).action,
            final(self).allows(*final(drive), action),
    {
        while drive.left > 0
            invariant
                self.wf(),
                self.hosts(*drive),
                visit(self@, drive@) == visit(old(self)@, old(drive)@),
            decreases drive.left,
        {
            let ghost here = self@;
            let ghost place = drive@;
            proof {
                assert(self@.sessions[drive.index as int] == self.sessions@[drive.index as int]@);
            }
            if session_has_work(&self.sessions[drive.index]) && !drive.budget.exhausted() {
                let ghost step = begin_turn(here.sessions[place.index], place.budget);
                let index: usize = drive.index;
                let (turn, action) = self.sessions[index].begin_turn(drive.budget);
                drive.turn = turn;
                let ghost taken = take_step(here, place, step);
                proof {
                    self.lemma_replaced(here, place.index, step.session);
                    assert(visit(here, place) == taken);
                }
                match self.settle(drive, action) {
                    Some(asked) => {
                        proof {
                            assert(self@ == taken.driver);
                            assert(drive@ == taken.drive);
                            assert(asked == taken.action);
                        }
                        return asked;
                    },
                    None => {},
                }
            } else {
                self.skip(drive);
            }
        }
        DriveAction::Done
    }

    /// Replacing one session by what became of it keeps the driver
    /// well-formed.
    proof fn lemma_replaced(&self, before: DriverModel, index: int, s: DriverSessionModel)
        requires
            before.wf(),
            0 <= index < before.sessions.len(),
            s.wf(),
            s.keeps(before.sessions[index]),
            self.sessions@.len() == before.sessions.len(),
            forall|i: int|
                0 <= i < self.sessions@.len() ==> (#[trigger] self.sessions@[i]).wf(),
            forall|i: int|
                0 <= i < self.sessions@.len() && i != index ==> (#[trigger] self.sessions@[i])@
                    == before.sessions[i],
            self.sessions@[index]@ == s,
            self.config == before.config,
            self.next_id == before.next_id,
            self.cursor == before.cursor,
            self.poll_dirty == before.poll_dirty,
        ensures
            self.wf(),
            self@ == before.with_session(index, s),
    {
        assert(self@.sessions =~= before.sessions.update(index, s));
        assert forall|i: int| 0 <= i < self@.sessions.len() implies (
        #[trigger] self@.sessions[i]).id == before.sessions[i].id by {}
        assert forall|a: int, b: int| 0 <= a < b < self@.sessions.len() implies (
        #[trigger] self@.sessions[a]).id.number() < (#[trigger] self@.sessions[b]).id.number() by {
            assert(before.sessions[a].id.number() < before.sessions[b].id.number());
        }
    }

    /// Moves on to the next session.
    fn skip(&self, drive: &mut Drive)
        requires
            old(drive).left > 0,
            old(drive).index < self.sessions@.len(),
        ensures
            final(drive)@ == old(drive)@.onward(self@.sessions.len() as int),
            self.hosts(*final(drive)),
            final(drive).left == old(drive).left - 1,
            final(drive).index < self.sessions@.len(),
    {
        let count: usize = self.sessions.len();
        drive.index = if drive.index < count - 1 {
            drive.index + 1
        } else {
            0
        };
        drive.left = drive.left - 1;
    }

    /// Passes on what the turn of a session asks for, or ends the turn.
    fn settle(&mut self, drive: &mut Drive, action: TurnAction) -> (asked: Option<DriveAction>)
        requires
            old(self).wf(),
            old(drive).left > 0,
            old(drive).index < old(self)@.sessions.len(),
            action matches TurnAction::Write(len) ==> 0 < len
                <= old(self)@.sessions[old(drive).index as int].unsent.len(),
            action matches TurnAction::Read(len) ==> 0 < len
                && old(self)@.sessions[old(drive).index as int].phase == SessionStatus::Live
                && old(self)@.sessions[old(drive).index as int].unread.len() + len
                <= old(self)@.sessions[old(drive).index as int].limits.read_buffer,
            !(action is Idle) ==> old(drive).turn.attempts < usize::MAX,
        ensures
            final(self).wf(),
            asked is None <==> action is Idle,
            ({
                let id = old(self)@.sessions[old(drive).index as int].id;
                let dirtied = old(self)@.dirtied(old(drive).turn.dirty);
                match action {
                    TurnAction::Write(len) => asked == Some(DriveAction::Write { id, len })
                        && final(self)@ == dirtied && final(drive)@ == old(drive)@
                        && final(self).allows(*final(drive), asked.unwrap()),
                    TurnAction::Read(len) => asked == Some(DriveAction::Read { id, len })
                        && final(self)@ == dirtied && final(drive)@ == old(drive)@
                        && final(self).allows(*final(drive), asked.unwrap()),
                    TurnAction::Idle => visit(final(self)@, final(drive)@) == end_turn(
                        dirtied,
                        old(drive)@,
                    ) && final(self).hosts(*final(drive)) && final(drive).left < old(drive).left,
                }
            }),
    {
        let ghost before = self@;
        if drive.turn.dirty {
            self.poll_dirty = true;
        }
        proof {
            assert(self@.sessions =~= before.sessions);
            assert(self@ == before.dirtied(drive.turn.dirty));
            assert(self@.sessions[drive.index as int] == self.sessions@[drive.index as int]@);
        }
        let id: SessionId = self.sessions[drive.index].id;
        match action {
            TurnAction::Write(len) => Some(DriveAction::Write { id, len }),
            TurnAction::Read(len) => Some(DriveAction::Read { id, len }),
            TurnAction::Idle => {
                self.end_turn(drive);
                None
            },
        }
    }

    /// Ends the turn of a session.
    fn end_turn(&mut self, drive: &mut Drive)
        requires
            old(self).wf(),
            old(drive).left > 0,
            old(drive).index < old(self)@.sessions.len(),
        ensures
            final(self).wf(),
            visit(final(self)@, final(drive)@) == end_turn(old(self)@, old(drive)@),
            final(self).hosts(*final(drive)),
            final(drive).left < old(drive).left,
    {
        let ghost before = self@;
        let ghost place = drive@;
        proof {
            assert(self@.sessions[drive.index as int] == self.sessions@[drive.index as int]@);
        }
        let index: usize = drive.index;
        let direction = drive.turn.direction;
        let id: SessionId = self.sessions[index].id;
        self.sessions[index].direction = direction;
        let ghost turned = DriverSessionModel { direction, ..before.sessions[index as int] };
        proof {
            assert(self.sessions@[index as int]@ == turned);
            self.lemma_replaced(before, index as int, turned);
        }
        drive.budget = drive.turn.budget;
        drive.processed.push(id);
        self.skip(drive);
        let next: SessionId = self.sessions[drive.index].id;
        proof {
            assert(self@.sessions[drive.index as int] == self.sessions@[drive.index as int]@);
            assert(self@.sessions[drive.index as int].id == before.sessions[drive.index as int].id);
        }
        self.cursor = Some(next);
        proof {
            assert(self@.sessions =~= before.with_session(index as int, turned).sessions);
        }
        if drive.budget.exhausted() {
            drive.left = 0;
        }
    }

    /// Reports how a write went that the drive asked for, and goes on.
    ///
    /// A write that failed ends the drive.
    pub fn note_write(&mut self, drive: &mut Drive, outcome: WriteOutcome) -> (action: DriveAction)
        requires
            old(self).wf(),
            old(drive).left > 0,
            old(drive).index < old(self)@.sessions.len(),
            old(drive).turn.attempts < usize::MAX,
            outcome matches WriteOutcome::Wrote(n) ==> n
                <= old(self)@.sessions[old(drive).index as int].unsent.len(),
        ensures
            final(self).wf(),
            final(self)@ == drive_after_write(old(self)@, old(drive)@, outcome).driver,
            final(drive)@ == drive_after_write(old(self)@, old(drive)@, outcome).drive,
            action == drive_after_write(old(self)@, old(drive)@, outcome).action,
            final(self).allows(*final(drive), action),
    {
        let ghost before = self@;
        let ghost place = drive@;
        let ghost step = turn_after_write(before.sessions[place.index], place.turn, outcome);
        let index: usize = drive.index;
        proof {
            assert(self@.sessions[index as int] == self.sessions@[index as int]@);
        }
        let sess: &mut DriverSession = &mut self.sessions[index];
        let action = sess.note_write(&mut drive.turn, outcome);
        proof {
            self.lemma_replaced(before, place.index, step.session);
        }
        let failed = matches!(outcome, WriteOutcome::Gone | WriteOutcome::Failed);
        if failed {
            self.note_dirty(drive);
            return DriveAction::Done;
        }
        match self.settle(drive, action) {
            Some(action) => action,
            None => self.visit(drive),
        }
    }

    /// Reports how a read went that the drive asked for, and goes on.
    ///
    /// A read that failed ends the drive.
    pub fn note_read(&mut self, drive: &mut Drive, outcome: ReadOutcome<'_>) -> (action:
        DriveAction)
        requires
            old(self).wf(),
            old(drive).left > 0,
            old(drive).index < old(self)@.sessions.len(),
            old(drive).turn.attempts < usize::MAX,
            old(self)@.sessions[old(drive).index as int].phase != SessionStatus::Closing,
            outcome matches ReadOutcome::Bytes(bytes)
                ==> old(self)@.sessions[old(drive).index as int].unread.len() + bytes@.len()
                <= old(self)@.sessions[old(drive).index as int].limits.read_buffer,
        ensures
            final(self).wf(),
            final(self)@ == drive_after_read(old(self)@, old(drive)@, outcome).driver,
            final(drive)@ == drive_after_read(old(self)@, old(drive)@, outcome).drive,
            action == drive_after_read(old(self)@, old(drive)@, outcome).action,
            final(self).allows(*final(drive), action),
    {
        let ghost before = self@;
        let ghost place = drive@;
        let ghost step = turn_after_read(before.sessions[place.index], place.turn, outcome);
        let index: usize = drive.index;
        proof {
            assert(self@.sessions[index as int] == self.sessions@[index as int]@);
        }
        let sess: &mut DriverSession = &mut self.sessions[index];
        let action = sess.note_read(&mut drive.turn, outcome);
        proof {
            self.lemma_replaced(before, place.index, step.session);
        }
        let failed = matches!(outcome, ReadOutcome::Failed);
        if failed {
            self.note_dirty(drive);
            return DriveAction::Done;
        }
        match self.settle(drive, action) {
            Some(action) => action,
            None => self.visit(drive),
        }
    }

    /// Remembers that a turn may have changed the poll source.
    fn note_dirty(&mut self, drive: &Drive)
        requires
            old(self).wf(),
        ensures
            final(self).wf(),
            final(self)@ == old(self)@.dirtied(drive.turn.dirty),
    {
        let ghost before = self@;
        if drive.turn.dirty {
            self.poll_dirty = true;
        }
        proof {
            assert(self@.sessions =~= before.sessions);
        }
    }

    /// Returns the result of a drive that is done.
    pub fn finish_drive(&mut self, drive: Drive) -> (result: DriveResult)
        requires
            old(self).wf(),
        ensures
            final(self).wf(),
            final(self)@ == (DriverModel { poll_dirty: false, ..old(self)@ }),
            result.has_pending_work == any_work(old(self)@.sessions),
            result.poll_source_changed == old(self)@.poll_dirty,
            result.processed@ == drive.processed@,
            result.events@.len() == 0,
            result.stale_tokens@ == drive.stale_tokens@,
    {
        let mut has_pending_work = false;
        let mut i: usize = 0;
        while i < self.sessions.len()
            invariant
                self.wf(),
                self@ == old(self)@,
                i <= self.sessions@.len(),
                has_pending_work ==> any_work(self@.sessions),
                !has_pending_work ==> forall|k: int|
                    0 <= k < i ==> !(#[trigger] self@.sessions[k]).has_work(),
            decreases self.sessions@.len() - i,
        {
            proof {
                assert(self@.sessions[i as int] == self.sessions@[i as int]@);
            }
            if session_has_work(&self.sessions[i]) {
                has_pending_work = true;
            }
            i += 1;
        }
        let poll_source_changed = self.poll_dirty;
        self.poll_dirty = false;
        proof {
            assert(self@.sessions =~= old(self)@.sessions);
        }
        DriveResult {
            has_pending_work,
            poll_source_changed,
            processed: drive.processed,
            events: Vec::new(),
            stale_tokens: drive.stale_tokens,
        }
    }

    /// Returns a session.
    pub fn session(&self, id: SessionId) -> (session: Result<&DriverSession, DriverError>)
        requires
            self.wf(),
        ensures
            session is Ok <==> self@.has(id),
            session matches Ok(session) ==> session@ == self@.session(id) && session.wf(),
            session matches Err(error) ==> error == DriverError::StaleId(id),
    {
        match self.find(id) {
            Some(i) => Ok(&self.sessions[i]),
            None => Err(DriverError::StaleId(id)),
        }
    }

    /// Returns an owned snapshot of the session's terminal state.
    ///
    /// Available while the session is live, at EOF, logically closed, or after
    /// exit detection, until the child is reaped. After reap the id is stale.
    pub fn snapshot(&self, id: SessionId) -> (snapshot: Result<TerminalSnapshot, DriverError>)
        requires
            self.wf(),
        ensures
            snapshot is Ok <==> self@.has(id),
            snapshot matches Ok(snapshot) ==> snapshot.wf() && snapshot@ == self@.session(
                id,
            ).term.content() && snapshot.spec_revision() == self@.session(id).revision,
            snapshot matches Err(error) ==> error == DriverError::StaleId(id),
    {
        match self.session(id) {
            Ok(session) => Ok(session.term.snapshot()),
            Err(error) => Err(error),
        }
    }

    /// Returns read-only access to the session's terminal state.
    pub fn terminal_state(&self, id: SessionId) -> (term: Result<&TerminalState, DriverError>)
        requires
            self.wf(),
        ensures
            term is Ok <==> self@.has(id),
            term matches Ok(term) ==> term.wf() && term@ == self@.session(id).term
                && term.spec_revision() == self@.session(id).revision,
            term matches Err(error) ==> error == DriverError::StaleId(id),
    {
        match self.session(id) {
            Ok(session) => Ok(&session.term),
            Err(error) => Err(error),
        }
    }

    /// Returns the observable lifecycle phase of a session.
    pub fn session_status(&self, id: SessionId) -> (status: Result<SessionStatus, DriverError>)
        requires
            self.wf(),
        ensures
            status == if self@.has(id) {
                Ok::<SessionStatus, DriverError>(self@.session(id).phase)
            } else {
                Err(DriverError::StaleId(id))
            },
    {
        match self.session(id) {
            Ok(session) => Ok(session.phase),
            Err(error) => Err(error),
        }
    }

    fn terminal_modes(&self, id: SessionId) -> (modes: Result<TerminalModes, DriverError>)
        requires
            self.wf(),
        ensures
            modes == if self@.has(id) {
                Ok::<TerminalModes, DriverError>(self@.session(id).term.modes)
            } else {
                Err(DriverError::StaleId(id))
            },
    {
        match self.session(id) {
            Ok(session) => Ok(session.term.modes()),
            Err(error) => Err(error),
        }
    }

    /// Checks that a session takes `len` more bytes.
    fn ensure_capacity(&self, id: SessionId, len: usize) -> (result: Result<(), DriverError>)
        requires
            self.wf(),
        ensures
            result == self@.refusal(id, len as int),
    {
        match self.session(id) {
            Ok(session) => {
                if session.phase == SessionStatus::Closing {
                    Err(DriverError::SessionClosed(id))
                } else if !session.accepts(len) {
                    Err(DriverError::Backpressure)
                } else {
                    Ok(())
                }
            },
            Err(error) => Err(error),
        }
    }

    /// Takes input for a session, as a whole or not at all.
    fn append_bytes(&mut self, id: SessionId, bytes: &[u8]) -> (result: Result<(), DriverError>)
        requires
            old(self).wf(),
        ensures
            final(self).wf(),
            result == old(self)@.refusal(id, bytes@.len() as int),
            final(self)@ == if result is Ok {
                old(self)@.appended(id, bytes@)
            } else {
                old(self)@
            },
    {
        if let Err(error) = self.ensure_capacity(id, bytes.len()) {
            return Err(error);
        }
        let ghost before = self@;
        match self.find(id) {
            Some(i) => {
                self.sessions[i].append(bytes);
                proof {
                    reveal(DriverSessionModel::append);
                    self.lemma_replaced(before, i as int, before.sessions[i as int].append(bytes@));
                }
                self.poll_dirty = true;
                proof {
                    assert(self@.sessions =~= before.appended(id, bytes@).sessions);
                }
                Ok(())
            },
            None => Err(DriverError::StaleId(id)),
        }
    }

    /// Enqueues a logical key for the session, encoded for its current modes.
    ///
    /// There has to be room for eight bytes, whatever the key.
    pub fn enqueue_key(&mut self, id: SessionId, event: KeyEvent) -> (result: Result<
        (),
        DriverError,
    >)
        requires
            old(self).wf(),
        ensures
            final(self).wf(),
            result == old(self)@.refusal(id, 8),
            final(self)@ == if result is Ok {
                old(self)@.appended(id, key_bytes(event, old(self)@.session(id).term.modes))
            } else {
                old(self)@
            },
    {
        if let Err(error) = self.ensure_capacity(id, 8) {
            return Err(error);
        }
        match self.terminal_modes(id) {
            Ok(modes) => {
                let bytes: Vec<u8> = encode_key(event, modes);
                proof {
                    lemma_key_len(event, modes);
                }
                self.append_bytes(id, bytes.as_slice())
            },
            Err(error) => Err(error),
        }
    }

    /// Enqueues UTF-8 text verbatim for the session.
    pub fn enqueue_text(&mut self, id: SessionId, text: &str) -> (result: Result<(), DriverError>)
        requires
            old(self).wf(),
        ensures
            final(self).wf(),
            result == old(self)@.refusal(id, encode_utf8(text@).len() as int),
            final(self)@ == if result is Ok {
                old(self)@.appended(id, encode_utf8(text@))
            } else {
                old(self)@
            },
    {
        self.append_bytes(id, text.as_bytes())
    }

    /// Enqueues a paste for the session, wrapped in bracketed-paste markers
    /// when the terminal mode is active.
    ///
    /// There has to be room for the markers, whether they are added or not.
    pub fn enqueue_paste(&mut self, id: SessionId, text: &str) -> (result: Result<
        (),
        DriverError,
    >)
        requires
            old(self).wf(),
        ensures
            final(self).wf(),
            result == old(self)@.refusal(
                id,
                least((encode_utf8(text@).len() + 12) as int, usize::MAX as int),
            ),
            final(self)@ == if result is Ok {
                old(self)@.appended(id, paste_bytes(encode_utf8(text@), old(self)@.session(id).term.modes))
            } else {
                old(self)@
            },
    {
        let upper: usize = text.as_bytes().len().saturating_add(12);
        if let Err(error) = self.ensure_capacity(id, upper) {
            return Err(error);
        }
        match self.terminal_modes(id) {
            Ok(modes) => {
                let bytes: Vec<u8> = encode_paste(text, modes);
                let len: usize = bytes.len();
                proof {
                    lemma_paste_len(encode_utf8(text@), modes);
                    assert(len <= upper);
                }
                self.append_bytes(id, bytes.as_slice())
            },
            Err(error) => Err(error),
        }
    }

    /// Enqueues raw bytes without validation or mode interpretation.
    pub fn enqueue_raw(&mut self, id: SessionId, bytes: &[u8]) -> (result: Result<
        (),
        DriverError,
    >)
        requires
            old(self).wf(),
        ensures
            final(self).wf(),
            result == old(self)@.refusal(id, bytes@.len() as int),
            final(self)@ == if result is Ok {
                old(self)@.appended(id, bytes@)
            } else {
                old(self)@
            },
    {
        self.append_bytes(id, bytes)
    }

    /// Logically closes a session.
    ///
    /// This invalidates the registration token, requests unregistration by
    /// removing the poll source entry, and discards the write queue, pending
    /// reply and unread bytes; the caller closes the PTY master. After
    /// closing, new input, resize and read/decode are rejected, while the
    /// final terminal state, snapshots and process polling remain available
    /// until the child is reaped.
    pub fn close_session(&mut self, id: SessionId) -> (result: Result<(), DriverError>)
        requires
            old(self).wf(),
        ensures
            final(self).wf(),
            result == if old(self)@.has(id) {
                Ok::<(), DriverError>(())
            } else {
                Err(DriverError::StaleId(id))
            },
            final(self)@ == old(self)@.closed(id),
    {
        let ghost before = self@;
        match self.find(id) {
            Some(i) => {
                if self.sessions[i].phase != SessionStatus::Closing {
                    self.sessions[i].close();
                    self.poll_dirty = true;
                    proof {
                        reveal(DriverSessionModel::close);
                        assert(self@.sessions =~= before.closed(id).sessions);
                        assert forall|k: int| 0 <= k < self@.sessions.len() implies (
                        #[trigger] self@.sessions[k]).id == before.sessions[k].id by {}
                        assert forall|a: int, b: int|
                            0 <= a < b < self@.sessions.len() implies (
                        #[trigger] self@.sessions[a]).id.number() < (
                        #[trigger] self@.sessions[b]).id.number() by {
                            assert(before.sessions[a].id.number() < before.sessions[b].id.number());
                        }
                    }
                }
                Ok(())
            },
            None => Err(DriverError::StaleId(id)),
        }
    }

    /// Returns whether a resize of a session changes anything, so that the PTY
    /// has to be told first. A stale id or a closed session is an error.
    pub fn resize_needed(&self, id: SessionId, size: Size) -> (needed: Result<bool, DriverError>)
        requires
            self.wf(),
        ensures
            needed == if !self@.has(id) {
                Err::<bool, DriverError>(DriverError::StaleId(id))
            } else if self@.session(id).phase == SessionStatus::Closing {
                Err(DriverError::SessionClosed(id))
            } else {
                Ok(self@.session(id).term.size != size)
            },
    {
        match self.session(id) {
            Ok(session) => {
                if session.phase == SessionStatus::Closing {
                    Err(DriverError::SessionClosed(id))
                } else {
                    Ok(session.term.size() != size)
                }
            },
            Err(error) => Err(error),
        }
    }

    /// Resizes the emulator of a session, once the PTY has taken the new size.
    ///
    /// A stale id or a closed session returns an error without side effects.
    pub fn resize(&mut self, id: SessionId, size: Size) -> (result: Result<(), DriverError>)
        requires
            old(self).wf(),
        ensures
            final(self).wf(),
            result == if !old(self)@.has(id) {
                Err::<(), DriverError>(DriverError::StaleId(id))
            } else if old(self)@.session(id).phase == SessionStatus::Closing {
                Err(DriverError::SessionClosed(id))
            } else {
                Ok(())
            },
            final(self)@ == if result is Ok {
                old(self)@.resized(id, size)
            } else {
                old(self)@
            },
    {
        let ghost before = self@;
        match self.find(id) {
            Some(i) => {
                if self.sessions[i].phase == SessionStatus::Closing {
                    return Err(DriverError::SessionClosed(id));
                }
                proof {
                    crate::terminal_laws::resizing_keeps_the_history(
                        before.sessions[i as int].term,
                        size,
                    );
                }
                self.sessions[i].term.resize(size);
                proof {
                    self.lemma_replaced(
                        before,
                        i as int,
                        before.resized(id, size).sessions[i as int],
                    );
                }
                Ok(())
            },
            None => Err(DriverError::StaleId(id)),
        }
    }

    /// Returns the sessions whose child may have exited without that having
    /// been reported, in creation order.
    pub fn unreported(&self) -> (ids: Vec<SessionId>)
        requires
            self.wf(),
        ensures
            ids@ == unreported_ids(self@.sessions),
    {
        let ghost all = self@.sessions;
        let mut ids: Vec<SessionId> = Vec::new();
        let mut i: usize = 0;
        proof {
            assert(all.take(0) =~= Seq::<DriverSessionModel>::empty());
            assert(ids@ =~= unreported_ids(all.take(0)));
        }
        while i < self.sessions.len()
            invariant
                self.wf(),
                all == self@.sessions,
                i <= self.sessions@.len(),
                ids@ == unreported_ids(all.take(i as int)),
            decreases self.sessions@.len() - i,
        {
            proof {
                assert(all[i as int] == self.sessions@[i as int]@);
                assert(all.take(i + 1).drop_last() =~= all.take(i as int));
                assert(all.take(i + 1).last() == all[i as int]);
            }
            if !self.sessions[i].exit_event_sent {
                ids.push(self.sessions[i].id);
            }
            i += 1;
        }
        proof {
            assert(all.take(i as int) =~= all);
        }
        ids
    }

    /// Reports that the exit of a session's child was observed.
    ///
    /// Each session's exit event is returned at most once.
    pub fn report_exit(&mut self, id: SessionId, exit: ObservedExit) -> (event: Option<DriverEvent>)
        requires
            old(self).wf(),
        ensures
            final(self).wf(),
            event == if old(self)@.has(id) && !old(self)@.session(id).exit_event_sent {
                Some(DriverEvent::SessionExited { id, exit })
            } else {
                None
            },
            final(self)@ == if event is Some {
                old(self)@.reported(id)
            } else {
                old(self)@
            },
    {
        let ghost before = self@;
        match self.find(id) {
            Some(i) => {
                if self.sessions[i].exit_event_sent {
                    return None;
                }
                self.sessions[i].exit_event_sent = true;
                proof {
                    let ghost_session = DriverSessionModel {
                        exit_event_sent: true,
                        ..before.sessions[i as int]
                    };
                    assert(self.sessions@[i as int]@ == ghost_session);
                    assert(self@.sessions =~= before.reported(id).sessions);
                    assert forall|k: int| 0 <= k < self@.sessions.len() implies (
                    #[trigger] self@.sessions[k]).id == before.sessions[k].id by {}
                    assert forall|a: int, b: int| 0 <= a < b < self@.sessions.len() implies (
                    #[trigger] self@.sessions[a]).id.number() < (
                    #[trigger] self@.sessions[b]).id.number() by {
                        assert(before.sessions[a].id.number() < before.sessions[b].id.number());
                    }
                }
                Some(DriverEvent::SessionExited { id, exit })
            },
            None => None,
        }
    }

    /// Removes a session whose direct child was reaped.
    ///
    /// `exit` is how the child ended, or `None` if it has not; the session is
    /// then left intact. After a removal the session id becomes stale and its
    /// registration token is no longer valid.
    pub fn reap_session(&mut self, id: SessionId, exit: Option<ObservedExit>) -> (result: Result<
        ObservedExit,
        DriverError,
    >)
        requires
            old(self).wf(),
        ensures
            final(self).wf(),
            result == if !old(self)@.has(id) {
                Err::<ObservedExit, DriverError>(DriverError::StaleId(id))
            } else {
                match exit {
                    Some(exit) => Ok(exit),
                    None => Err(DriverError::NotExited(id)),
                }
            },
            final(self)@ == if result is Ok {
                old(self)@.without(id)
            } else {
                old(self)@
            },
    {
        let ghost before = self@;
        match self.find(id) {
            Some(i) => match exit {
                Some(exit) => {
                    let _ = self.sessions.remove(i);
                    self.poll_dirty = true;
                    proof {
                        assert(self@.sessions =~= before.without(id).sessions);
                        assert forall|k: int| 0 <= k < self@.sessions.len() implies
                            #[trigger] self@.sessions[k] == before.sessions[if k < i {
                            k
                        } else {
                            k + 1
                        }] by {}
                        assert forall|a: int, b: int|
                            0 <= a < b < self@.sessions.len() implies (
                        #[trigger] self@.sessions[a]).id.number() < (
                        #[trigger] self@.sessions[b]).id.number() by {
                            let a0 = if a < i {
                                a
                            } else {
                                a + 1
                            };
                            let b0 = if b < i {
                                b
                            } else {
                                b + 1
                            };
                            assert(before.sessions[a0].id.number() < before.sessions[b0].id.number());
                        }
                    }
                    Ok(exit)
                },
                None => Err(DriverError::NotExited(id)),
            },
            None => Err(DriverError::StaleId(id)),
        }
    }
}

/// The identifiers of the sessions whose exit has not been reported.
pub open spec fn unreported_ids(sessions: Seq<DriverSessionModel>) -> Seq<SessionId>
    decreases sessions.len(),
{
    if sessions.len() == 0 {
        Seq::empty()
    } else if sessions.last().exit_event_sent {
        unreported_ids(sessions.drop_last())
    } else {
        unreported_ids(sessions.drop_last()).push(sessions.last().id)
    }
}

/// A driver without sessions.
pub open spec fn empty_driver(config: DriverConfig, next_id: u64) -> DriverModel {
    DriverModel { config, sessions: Seq::empty(), next_id, cursor: None, poll_dirty: true }
}

} // verus!
