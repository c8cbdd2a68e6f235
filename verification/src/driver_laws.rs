//! What holds of a session driver as a whole.

use vstd::prelude::*;

use crate::driver::{
    begin_drive, drive_after_read, drive_after_write, end_turn, first_index, give_up, is_current,
    mark_all, mark_one, registered, stale_tokens, take_step, visit, DriveAction, DriveModel,
    DriveStep, DriverModel, SessionDriver,
};
use crate::driver_config::{
    Readiness, RegistrationToken, SessionConfig, SessionId, SessionStatus, MAX_REPLY_BYTES,
};
use crate::driver_session::{
    begin_turn, first_turn, new_session, turn_after_read, turn_after_write, turn_decoded, turn_end,
    turn_keep_reading, turn_keep_writing, turn_read, turn_round, turn_write, DriverSessionModel,
    Turn, TurnAction, TurnStep,
};
use crate::session::{Direction, PumpBudget, ReadOutcome, WriteOutcome};
use crate::session_metrics::as_count;
use crate::terminal_laws::one_sequence_one_reply;
use crate::terminal_model::TerminalModel;
use crate::tokenizer::{at_most_one_sequence, tokens_after};

verus! {

/// In every state of a driver its configuration is valid, and its sessions are
/// in the order of their identifiers, all of which have been given out. What a
/// session holds, read and not decoded, queued or held back, keeps to its
/// limits.
pub proof fn drivers_are_well_formed(driver: &SessionDriver)
    requires
        driver.wf(),
    ensures
        driver@.wf(),
{
    driver.lemma_wf();
}

/// A new session has an identifier that no session has had before: it is the
/// number that comes next, and the one after it is larger.
pub proof fn identifiers_are_not_reused(
    d: DriverModel,
    id: SessionId,
    fd: i32,
    session: SessionConfig,
)
    requires
        d.wf(),
        d.next_id < u64::MAX,
        id.number() == d.next_id,
    ensures
        !d.has(id),
        ({
            let after = DriverModel {
                sessions: d.sessions.push(new_session(id, fd, session, d.config)),
                next_id: (d.next_id + 1) as u64,
                poll_dirty: true,
                ..d
            };
            after.wf() && after.has(id) && after.next_id > id.number()
        }),
{
    let after = DriverModel {
        sessions: d.sessions.push(new_session(id, fd, session, d.config)),
        next_id: (d.next_id + 1) as u64,
        poll_dirty: true,
        ..d
    };
    assert(after.sessions[d.sessions.len() as int].id == id);
    assert(d.config.value(crate::driver_config::ConfigField::WriteQueueLimit) > 0);
    assert forall|i: int| 0 <= i < after.sessions.len() implies (#[trigger] after.sessions[i]).wf()
        && after.sessions[i].id.number() < after.next_id by {
        if i < d.sessions.len() {
            assert(d.sessions[i].wf());
            assert(d.sessions[i].id.number() < d.next_id);
        }
    }
    assert forall|i: int, j: int| 0 <= i < j < after.sessions.len() implies (
    #[trigger] after.sessions[i]).id.number() < (#[trigger] after.sessions[j]).id.number() by {
        assert(d.sessions[i].id.number() < d.next_id);
        if j < d.sessions.len() {
            assert(d.sessions[i].id.number() < d.sessions[j].id.number());
        }
    }
}

/// A session that was reaped is gone for good: its identifier is stale, and as
/// identifiers only grow, it stays so.
pub proof fn reaped_sessions_are_stale(d: DriverModel, id: SessionId)
    requires
        d.wf(),
        d.has(id),
    ensures
        !d.without(id).has(id),
        id.number() < d.without(id).next_id,
        d.without(id).sessions.len() == d.sessions.len() - 1,
        forall|other: SessionId| other != id ==> (d.has(other) <==> d.without(id).has(other)),
{
    let p = d.position(id);
    let after = d.without(id);
    assert(d.sessions[p].id.number() < d.next_id);
    assert forall|i: int| 0 <= i < after.sessions.len() implies (#[trigger] after.sessions[i]).id
        != id by {
        if i < p {
            assert(after.sessions[i] == d.sessions[i]);
            assert(d.sessions[i].id.number() < d.sessions[p].id.number());
        } else {
            assert(after.sessions[i] == d.sessions[i + 1]);
            assert(d.sessions[p].id.number() < d.sessions[i + 1].id.number());
        }
    }
    assert forall|other: SessionId| other != id implies (d.has(other) <==> after.has(other)) by {
        if d.has(other) {
            let q = d.position(other);
            if q < p {
                assert(after.sessions[q].id == other);
            } else {
                assert(q != p);
                assert(after.sessions[q - 1].id == other);
            }
        }
        if after.has(other) {
            let q = after.position(other);
            if q < p {
                assert(d.sessions[q].id == other);
            } else {
                assert(d.sessions[q + 1].id == other);
            }
        }
    }
}

/// Readiness reported with a stale token touches no session.
pub proof fn stale_tokens_touch_nothing(
    sessions: Seq<DriverSessionModel>,
    token: RegistrationToken,
    readiness: Readiness,
)
    requires
        !is_current(sessions, token),
    ensures
        mark_one(sessions, token, readiness) == sessions,
        stale_tokens(sessions, seq![(token, readiness)]) == seq![token],
{
    assert(mark_one(sessions, token, readiness) =~= sessions);
    let list = seq![(token, readiness)];
    assert(list.drop_last() =~= Seq::<(RegistrationToken, Readiness)>::empty());
    assert(mark_all(sessions, list.drop_last()) == sessions);
    assert(stale_tokens(sessions, list.drop_last()) =~= Seq::<RegistrationToken>::empty());
    assert(stale_tokens(sessions, list) =~= seq![token]);
}

/// Closing a session ends its registration: the token that it had is stale,
/// and nothing of it is registered any more.
pub proof fn closing_ends_the_registration(
    d: DriverModel,
    id: SessionId,
    token: RegistrationToken,
)
    requires
        d.wf(),
        d.has(id),
        token.spec_session_id() == id,
    ensures
        d.closed(id).session(id).phase == SessionStatus::Closing,
        !is_current(d.closed(id).sessions, token),
        d.closed(id).closed(id) == d.closed(id),
        d.closed(id).session(id).term == d.session(id).term,
{
    reveal(DriverSessionModel::close);
    let after = d.closed(id);
    let p = d.position(id);
    assert(after.sessions[p].id == id);
    assert forall|i: int| 0 <= i < after.sessions.len() && i != p implies (
    #[trigger] after.sessions[i]).id != id by {
        assert(after.sessions[i] == d.sessions[i]);
        if i < p {
            assert(d.sessions[i].id.number() < d.sessions[p].id.number());
        } else {
            assert(d.sessions[p].id.number() < d.sessions[i].id.number());
        }
    }
    assert(after.has(id));
    assert(after.position(id) == p);
}

/// Input is accepted as a whole or not at all: what is refused changes
/// nothing, and what is accepted keeps to the limit of the queue it joins.
pub proof fn input_is_all_or_nothing(d: DriverModel, id: SessionId, bytes: Seq<u8>)
    requires
        d.wf(),
        d.refusal(id, bytes.len() as int) is Ok,
    ensures
        ({
            let before = d.session(id);
            let after = before.append(bytes);
            &&& before.pending.len() == 0 ==> after.unsent == before.unsent + bytes && (
            bytes.len() > 0 ==> after.unsent.len() <= before.limits.write_queue)
            &&& before.pending.len() > 0 ==> after.pending == before.pending + bytes && (
            bytes.len() > 0 ==> after.pending.len() <= before.limits.pending_reply)
        }),
{
    reveal(DriverSessionModel::append);
}

/// A reply is never dropped: while decoding is not paused, whatever the
/// terminal replies to a byte is taken into the write queue or held back. A
/// byte ends one control sequence at most, so there is one reply at most.
pub proof fn replies_are_not_dropped(s: DriverSessionModel, byte: u8)
    requires
        s.wf(),
        !s.paused,
        at_most_one_sequence(tokens_after(s.term.fed, byte)),
    ensures
        s.reply_to(byte).len() <= MAX_REPLY_BYTES,
        s.can_decode(byte),
        s.decode_byte(byte).unsent == s.unsent + s.reply_to(byte) || (s.decode_byte(byte).pending
            == s.reply_to(byte) && s.decode_byte(byte).paused),
{
    reveal(DriverSessionModel::decode_byte);
    reveal(DriverSessionModel::feed_byte);
    reveal(DriverSessionModel::keep_reply);
    let start = s.term.untouched();
    let one = seq![byte];
    assert(one.drop_last() =~= Seq::<u8>::empty());
    assert(start.read_all(one.drop_last()) == start);
    assert(start.read_all(one) == start.read(byte));
    one_sequence_one_reply(
        TerminalModel { fed: start.fed.push(byte), ..start },
        tokens_after(start.fed, byte),
    );
    assert(s.unsent + Seq::<u8>::empty() =~= s.unsent);
    assert(s.reply_to(byte).len() == 0 ==> s.reply_to(byte) =~= Seq::<u8>::empty());
    assert(Seq::<u8>::empty() + s.reply_to(byte) =~= s.reply_to(byte));
    assert(s.pending =~= Seq::<u8>::empty());
}

/// Only sessions that are not closed are registered, in creation order.
pub proof fn closed_sessions_are_not_registered(sessions: Seq<DriverSessionModel>)
    ensures
        forall|i: int|
            0 <= i < registered(sessions).len() ==> (#[trigger] registered(sessions)[i]).phase
                != SessionStatus::Closing,
        forall|i: int|
            0 <= i < sessions.len() && (#[trigger] sessions[i]).phase != SessionStatus::Closing
                ==> registered(sessions).contains(sessions[i]),
    decreases sessions.len(),
{
    if sessions.len() > 0 {
        let front = sessions.drop_last();
        closed_sessions_are_not_registered(front);
        assert forall|i: int|
            0 <= i < sessions.len() && (#[trigger] sessions[i]).phase
                != SessionStatus::Closing implies registered(sessions).contains(sessions[i]) by {
            if i < front.len() {
                assert(front[i] == sessions[i]);
                let k = choose|k: int|
                    0 <= k < registered(front).len() && registered(front)[k] == front[i];
                assert(registered(sessions)[k] == sessions[i]);
            } else {
                assert(registered(sessions)[registered(front).len() as int] == sessions[i]);
            }
        }
    }
}

/// A session that the driver leaves alone until it hears of readiness is
/// registered for it: what waits to be written is registered as writable, and
/// a stream that is open, where nothing holds decoding back, as readable.
pub proof fn idle_sessions_are_registered(s: DriverSessionModel)
    requires
        s.wf(),
        s.phase != SessionStatus::Closing,
        !s.has_work(),
    ensures
        s.unsent.len() > 0 || s.paused ==> s.wanted().writable,
        s.phase == SessionStatus::Live && !s.paused ==> s.wanted().readable,
        s.phase == SessionStatus::Live ==> s.wanted().readable || s.wanted().writable,
        s.unread.len() > 0 ==> s.wanted().writable,
{
}

/// Where a turn stands after a step keeps to what it had to spend before.
spec fn turn_within(before: PumpBudget, step: TurnStep) -> bool {
    let after = step.turn.budget;
    &&& after.bytes <= before.bytes
    &&& after.syscalls <= before.syscalls
    &&& match step.action {
        TurnAction::Write(n) => n <= after.bytes && after.syscalls > 0,
        TurnAction::Read(n) => n <= after.bytes && after.syscalls > 0,
        TurnAction::Idle => true,
    }
}

proof fn lemma_turn_round_within(s: DriverSessionModel, t: Turn)
    ensures
        turn_within(t.budget, turn_round(s, t)),
    decreases t.rounds, 0int,
{
    let direction = if s.works_on(t.direction) {
        t.direction
    } else {
        t.direction.other()
    };
    if t.rounds > 0 && !t.budget.is_spent() && s.works_on(direction) {
        let begun = Turn {
            direction,
            rounds: (t.rounds - 1) as u8,
            progressed: false,
            attempts: 0,
            moved: 0,
            ..t
        };
        if direction == Direction::Write {
            lemma_turn_write_within(s, begun);
        } else {
            lemma_turn_read_within(s, begun);
        }
    }
}

proof fn lemma_turn_end_within(s: DriverSessionModel, t: Turn)
    ensures
        turn_within(t.budget, turn_end(s, t)),
    decreases t.rounds, 1int,
{
    lemma_turn_round_within(s, Turn { direction: t.direction.other(), ..t });
}

proof fn lemma_turn_writing_within(s: DriverSessionModel, t: Turn)
    ensures
        turn_within(t.budget, turn_keep_writing(s, t)),
    decreases t.rounds, 2int,
{
    lemma_turn_end_within(s, t);
}

proof fn lemma_turn_write_within(s: DriverSessionModel, t: Turn)
    ensures
        turn_within(t.budget, turn_write(s, t)),
    decreases t.rounds, 3int,
{
    lemma_turn_writing_within(s.readmit(), Turn { progressed: true, dirty: true, ..t });
    lemma_turn_writing_within(s, t);
}

proof fn lemma_turn_reading_within(s: DriverSessionModel, t: Turn)
    ensures
        turn_within(t.budget, turn_keep_reading(s, t)),
    decreases t.rounds, 2int,
{
    lemma_turn_end_within(s, t);
}

/// Decoding takes up no more bytes than it may and than there are.
proof fn lemma_turn_decoded(s: DriverSessionModel, bytes: int)
    ensures
        0 <= s.decoded(bytes) <= s.unread.len(),
        bytes >= 0 ==> s.decoded(bytes) <= bytes,
    decreases bytes,
{
    if bytes > 0 && !s.paused && s.unread.len() > 0 {
        reveal(DriverSessionModel::decode_byte);
        reveal(DriverSessionModel::feed_byte);
        reveal(DriverSessionModel::keep_reply);
        let taken = DriverSessionModel { unread: s.unread.skip(1), ..s };
        lemma_turn_decoded(taken.decode_byte(s.unread[0]), bytes - 1);
    }
}

proof fn lemma_turn_read_within(s: DriverSessionModel, t: Turn)
    ensures
        turn_within(t.budget, turn_read(s, t)),
    decreases t.rounds, 3int,
{
    let decoded = s.decode(t.budget.bytes as int);
    lemma_turn_decoded(s, t.budget.bytes as int);
    lemma_turn_reading_within(decoded, turn_decoded(s, t));
    lemma_turn_end_within(decoded, turn_decoded(s, t));
}

/// A write that a turn asked for is charged.
proof fn lemma_turn_write_charged(s: DriverSessionModel, t: Turn, outcome: WriteOutcome)
    ensures
        turn_within(t.budget.after(0, 1), turn_after_write(s, t, outcome)),
{
    reveal(turn_after_write);
    let tried = Turn { budget: t.budget.after(0, 1), attempts: (t.attempts + 1) as usize, ..t };
    match outcome {
        WriteOutcome::Wrote(n) => if n == 0 {
            lemma_turn_end_within(s, tried);
        } else {
            lemma_turn_writing_within(
                s.wrote(n as int),
                Turn {
                    budget: t.budget.after(n as int, 1),
                    progressed: true,
                    moved: as_count((t.moved + n) as nat),
                    dirty: t.dirty || n == s.unsent.len(),
                    ..tried
                },
            );
        },
        WriteOutcome::WouldBlock => lemma_turn_end_within(s.not_writable(), tried),
        WriteOutcome::Interrupted => lemma_turn_end_within(s, tried),
        _ => {},
    }
}

/// A read that a turn asked for is charged.
#[verifier::spinoff_prover]
#[verifier::rlimit(30)]
proof fn lemma_turn_read_charged(s: DriverSessionModel, t: Turn, outcome: ReadOutcome)
    ensures
        turn_within(t.budget.after(0, 1), turn_after_read(s, t, outcome)),
{
    reveal(turn_after_read);
    let tried = Turn { budget: t.budget.after(0, 1), attempts: (t.attempts + 1) as usize, ..t };
    match outcome {
        ReadOutcome::Bytes(bytes) => if bytes@.len() == 0 {
            lemma_turn_end_within(s.ended(), Turn { dirty: true, ..tried });
        } else {
            let full = s.received(bytes@);
            let moved = Turn {
                budget: t.budget.after(bytes@.len() as int, 1),
                progressed: true,
                moved: as_count((t.moved + bytes@.len()) as nat),
                ..tried
            };
            lemma_turn_decoded(full, moved.budget.bytes as int);
            lemma_turn_reading_within(
                full.decode(moved.budget.bytes as int),
                turn_decoded(full, moved),
            );
        },
        ReadOutcome::WouldBlock => lemma_turn_end_within(s.not_readable(), tried),
        ReadOutcome::Interrupted => lemma_turn_end_within(s, tried),
        ReadOutcome::Gone => lemma_turn_end_within(s.ended(), Turn { dirty: true, ..tried }),
        ReadOutcome::Failed => {},
    }
}

/// What a turn asks for keeps to what is left to its phase: together with what
/// the phase has moved, no more bytes than the quantum, and no more calls than
/// the phase may make. What is read fits into the buffer.
pub open spec fn keeps_quanta(step: TurnStep) -> bool {
    let limits = step.session.limits;
    let turn = step.turn;
    match step.action {
        TurnAction::Write(n) => {
            &&& turn.direction == Direction::Write
            &&& turn.moved + n <= limits.write_bytes
            &&& turn.attempts < limits.write_syscalls
        },
        TurnAction::Read(n) => {
            &&& turn.direction == Direction::Read
            &&& turn.moved + n <= limits.read_bytes
            &&& turn.attempts < limits.read_syscalls
            &&& step.session.unread.len() + n <= limits.read_buffer
        },
        TurnAction::Idle => true,
    }
}

/// Whether a step stays in a phase that has moved bytes in a number of calls,
/// or begins one that has moved nothing yet, with fewer phases to come.
pub open spec fn counts_phase(before: Turn, attempts: int, moved: int, step: TurnStep) -> bool {
    let turn = step.turn;
    ||| step.action is Idle
    ||| turn.rounds == before.rounds && turn.direction == before.direction && turn.attempts
        == attempts && turn.moved == moved
    ||| turn.rounds < before.rounds && turn.attempts == 0 && turn.moved == 0
}

/// Whether a step is over, or begins a phase with fewer to come.
spec fn turns_over(before: Turn, s: DriverSessionModel, step: TurnStep) -> bool {
    &&& keeps_quanta(step)
    &&& step.session.limits == s.limits
    &&& step.session.id == s.id
    &&& step.action is Idle || (step.turn.rounds < before.rounds && step.turn.attempts == 0
        && step.turn.moved == 0)
}

/// Whether a step goes on with a phase, or is over, or begins another one.
spec fn goes_on(before: Turn, s: DriverSessionModel, step: TurnStep) -> bool {
    &&& keeps_quanta(step)
    &&& step.session.limits == s.limits
    &&& step.session.id == s.id
    &&& counts_phase(before, before.attempts as int, before.moved as int, step)
}

proof fn lemma_turn_round_quanta(s: DriverSessionModel, t: Turn)
    ensures
        turns_over(t, s, turn_round(s, t)),
    decreases t.rounds, 0int,
{
    let direction = if s.works_on(t.direction) {
        t.direction
    } else {
        t.direction.other()
    };
    if t.rounds > 0 && !t.budget.is_spent() && s.works_on(direction) {
        let begun = Turn {
            direction,
            rounds: (t.rounds - 1) as u8,
            progressed: false,
            attempts: 0,
            moved: 0,
            ..t
        };
        if direction == Direction::Write {
            lemma_turn_write_quanta(s, begun);
        } else {
            lemma_turn_read_quanta(s, begun);
        }
    }
}

proof fn lemma_turn_end_quanta(s: DriverSessionModel, t: Turn)
    ensures
        turns_over(t, s, turn_end(s, t)),
    decreases t.rounds, 1int,
{
    lemma_turn_round_quanta(s, Turn { direction: t.direction.other(), ..t });
}

proof fn lemma_turn_writing_quanta(s: DriverSessionModel, t: Turn)
    requires
        t.direction == Direction::Write,
    ensures
        goes_on(t, s, turn_keep_writing(s, t)),
    decreases t.rounds, 2int,
{
    lemma_turn_end_quanta(s, t);
}

proof fn lemma_turn_write_quanta(s: DriverSessionModel, t: Turn)
    requires
        t.direction == Direction::Write,
    ensures
        goes_on(t, s, turn_write(s, t)),
    decreases t.rounds, 3int,
{
    reveal(DriverSessionModel::readmit);
    lemma_turn_writing_quanta(s.readmit(), Turn { progressed: true, dirty: true, ..t });
    lemma_turn_writing_quanta(s, t);
}

proof fn lemma_turn_reading_quanta(s: DriverSessionModel, t: Turn)
    requires
        t.direction == Direction::Read,
    ensures
        goes_on(t, s, turn_keep_reading(s, t)),
    decreases t.rounds, 2int,
{
    lemma_turn_end_quanta(s, t);
}

proof fn lemma_decoding_keeps_identity(s: DriverSessionModel, bytes: int)
    ensures
        s.decode(bytes).limits == s.limits,
        s.decode(bytes).id == s.id,
    decreases bytes,
{
    if bytes > 0 && !s.paused && s.unread.len() > 0 {
        reveal(DriverSessionModel::decode_byte);
        reveal(DriverSessionModel::feed_byte);
        reveal(DriverSessionModel::keep_reply);
        let taken = DriverSessionModel { unread: s.unread.skip(1), ..s };
        lemma_decoding_keeps_identity(taken.decode_byte(s.unread[0]), bytes - 1);
    }
}

proof fn lemma_turn_read_quanta(s: DriverSessionModel, t: Turn)
    requires
        t.direction == Direction::Read,
    ensures
        goes_on(t, s, turn_read(s, t)),
    decreases t.rounds, 3int,
{
    let decoded = s.decode(t.budget.bytes as int);
    lemma_decoding_keeps_identity(s, t.budget.bytes as int);
    lemma_turn_reading_quanta(decoded, turn_decoded(s, t));
    lemma_turn_end_quanta(decoded, turn_decoded(s, t));
}

/// A turn begins with a phase that has moved nothing and made no call, and
/// asks for no more than the quanta of the session allow.
pub proof fn turns_begin_within_quanta(s: DriverSessionModel, budget: PumpBudget)
    ensures
        keeps_quanta(begin_turn(s, budget)),
        begin_turn(s, budget).session.limits == s.limits,
        begin_turn(s, budget).session.id == s.id,
        !(begin_turn(s, budget).action is Idle) ==> begin_turn(s, budget).turn.moved == 0
            && begin_turn(s, budget).turn.attempts == 0,
{
    reveal(begin_turn);
    lemma_turn_round_quanta(s, first_turn(budget, s.direction));
}

/// A write phase keeps to its quanta: what it has moved after a write that it
/// asked for is no more than the byte quantum, and the next call, of this phase
/// or of one that begins anew, is within the quanta too.
pub proof fn write_phases_keep_to_their_quanta(
    s: DriverSessionModel,
    t: Turn,
    asked: usize,
    outcome: WriteOutcome,
)
    requires
        keeps_quanta(TurnStep { session: s, turn: t, action: TurnAction::Write(asked) }),
        outcome matches WriteOutcome::Wrote(n) ==> n <= asked,
    ensures
        ({
            let n: int = match outcome {
                WriteOutcome::Wrote(n) => n as int,
                _ => 0,
            };
            let step = turn_after_write(s, t, outcome);
            &&& t.moved + n <= s.limits.write_bytes
            &&& t.attempts + 1 <= s.limits.write_syscalls
            &&& step.session.limits == s.limits
            &&& step.session.id == s.id
            &&& keeps_quanta(step)
            &&& counts_phase(t, t.attempts + 1, t.moved + n, step)
        }),
{
    reveal(turn_after_write);
    reveal(DriverSessionModel::wrote);
    reveal(DriverSessionModel::not_writable);
    let tried = Turn { budget: t.budget.after(0, 1), attempts: (t.attempts + 1) as usize, ..t };
    match outcome {
        WriteOutcome::Wrote(n) => if n == 0 {
            lemma_turn_end_quanta(s, tried);
        } else {
            lemma_turn_writing_quanta(
                s.wrote(n as int),
                Turn {
                    budget: t.budget.after(n as int, 1),
                    progressed: true,
                    moved: as_count((t.moved + n) as nat),
                    dirty: t.dirty || n == s.unsent.len(),
                    ..tried
                },
            );
        },
        WriteOutcome::WouldBlock => lemma_turn_end_quanta(s.not_writable(), tried),
        WriteOutcome::Interrupted => lemma_turn_end_quanta(s, tried),
        _ => {},
    }
}

/// A read phase keeps to its quanta: what it has moved after a read that it
/// asked for is no more than the byte quantum, the bytes that came fit into the
/// buffer, and the next call, of this phase or of one that begins anew, is
/// within the quanta too.
pub proof fn read_phases_keep_to_their_quanta(
    s: DriverSessionModel,
    t: Turn,
    asked: usize,
    outcome: ReadOutcome,
)
    requires
        keeps_quanta(TurnStep { session: s, turn: t, action: TurnAction::Read(asked) }),
        outcome matches ReadOutcome::Bytes(bytes) ==> bytes@.len() <= asked,
    ensures
        ({
            let n: int = match outcome {
                ReadOutcome::Bytes(bytes) => bytes@.len() as int,
                _ => 0,
            };
            let step = turn_after_read(s, t, outcome);
            &&& t.moved + n <= s.limits.read_bytes
            &&& t.attempts + 1 <= s.limits.read_syscalls
            &&& s.unread.len() + n <= s.limits.read_buffer
            &&& step.session.limits == s.limits
            &&& step.session.id == s.id
            &&& keeps_quanta(step)
            &&& counts_phase(t, t.attempts + 1, t.moved + n, step)
        }),
{
    reveal(turn_after_read);
    reveal(DriverSessionModel::ended);
    reveal(DriverSessionModel::received);
    reveal(DriverSessionModel::not_readable);
    let tried = Turn { budget: t.budget.after(0, 1), attempts: (t.attempts + 1) as usize, ..t };
    match outcome {
        ReadOutcome::Bytes(bytes) => if bytes@.len() == 0 {
            lemma_turn_end_quanta(s.ended(), Turn { dirty: true, ..tried });
        } else {
            let full = s.received(bytes@);
            let moved = Turn {
                budget: t.budget.after(bytes@.len() as int, 1),
                progressed: true,
                moved: as_count((t.moved + bytes@.len()) as nat),
                ..tried
            };
            lemma_decoding_keeps_identity(full, moved.budget.bytes as int);
            lemma_turn_reading_quanta(
                full.decode(moved.budget.bytes as int),
                turn_decoded(full, moved),
            );
        },
        ReadOutcome::WouldBlock => lemma_turn_end_quanta(s.not_readable(), tried),
        ReadOutcome::Interrupted => lemma_turn_end_quanta(s, tried),
        ReadOutcome::Gone => lemma_turn_end_quanta(s.ended(), Turn { dirty: true, ..tried }),
        ReadOutcome::Failed => {},
    }
}

/// What a drive asks for keeps to what it had to spend before.
pub open spec fn drive_within(before: PumpBudget, step: DriveStep) -> bool {
    let after = step.drive.turn.budget;
    match step.action {
        DriveAction::Write { id, len } => len <= after.bytes <= before.bytes && 0 < after.syscalls
            <= before.syscalls,
        DriveAction::Read { id, len } => len <= after.bytes <= before.bytes && 0 < after.syscalls
            <= before.syscalls,
        DriveAction::Done => true,
    }
}

proof fn lemma_visit_within(d: DriverModel, c: DriveModel)
    ensures
        drive_within(c.budget, visit(d, c)),
    decreases c.left, 2int,
{
    let s = d.sessions[c.index];
    if c.left > 0 {
        if s.has_work() && !c.budget.is_spent() {
            reveal(begin_turn);
            lemma_turn_round_within(s, first_turn(c.budget, s.direction));
            lemma_step_within(d, c, begin_turn(s, c.budget), c.budget);
        } else {
            lemma_visit_within(d, c.onward(d.sessions.len() as int));
        }
    }
}

proof fn lemma_step_within(d: DriverModel, c: DriveModel, step: TurnStep, budget: PumpBudget)
    requires
        turn_within(budget, step),
    ensures
        drive_within(budget, take_step(d, c, step)),
    decreases c.left, 1int,
{
    if step.action is Idle {
        let d1 = d.with_session(c.index, step.session).dirtied(step.turn.dirty);
        lemma_end_turn_within(d1, DriveModel { turn: step.turn, ..c });
    }
}

proof fn lemma_end_turn_within(d: DriverModel, c: DriveModel)
    ensures
        drive_within(c.turn.budget, end_turn(d, c)),
    decreases c.left, 0int,
{
    let next = c.onward(d.sessions.len() as int);
    let s = d.sessions[c.index];
    let d1 = DriverModel {
        cursor: Some(d.sessions[next.index].id),
        ..d.with_session(c.index, DriverSessionModel { direction: c.turn.direction, ..s })
    };
    let c1 = DriveModel { budget: c.turn.budget, processed: c.processed.push(s.id), ..next };
    if c.left > 0 {
        lemma_visit_within(d1, c1);
    }
}

/// A drive keeps to the budget of its driver, whatever the sessions hold.
pub proof fn drives_begin_within_budget(
    d: DriverModel,
    ready: Seq<(RegistrationToken, Readiness)>,
)
    ensures
        drive_within(
            PumpBudget {
                bytes: d.config.drive_byte_budget,
                syscalls: d.config.drive_syscall_budget,
            },
            begin_drive(d, ready),
        ),
{
    let marked = DriverModel { sessions: mark_all(d.sessions, ready), ..d };
    let budget = PumpBudget {
        bytes: d.config.drive_byte_budget,
        syscalls: d.config.drive_syscall_budget,
    };
    lemma_visit_within(
        marked,
        DriveModel {
            budget,
            index: first_index(marked),
            left: d.sessions.len() as int,
            turn: first_turn(budget, Direction::Write),
            processed: Seq::empty(),
            stale_tokens: stale_tokens(d.sessions, ready),
        },
    );
}

/// Every call that a drive asked for is charged, whichever session is next. So
/// a drive ends, after at most as many calls as its driver allows.
pub proof fn drives_go_on_within_budget(
    d: DriverModel,
    c: DriveModel,
    write: WriteOutcome,
    read: ReadOutcome,
)
    requires
        c.turn.budget.syscalls > 0,
    ensures
        drive_within(c.turn.budget.after(0, 1), drive_after_write(d, c, write)),
        drive_within(c.turn.budget.after(0, 1), drive_after_read(d, c, read)),
        c.turn.budget.after(0, 1).syscalls < c.turn.budget.syscalls,
{
    let s = d.sessions[c.index];
    lemma_turn_write_charged(s, c.turn, write);
    lemma_turn_read_charged(s, c.turn, read);
    lemma_step_within(d, c, turn_after_write(s, c.turn, write), c.turn.budget.after(0, 1));
    lemma_step_within(d, c, turn_after_read(s, c.turn, read), c.turn.budget.after(0, 1));
}

/// How many sessions come before one at `index` in a rotation of `count`
/// sessions that starts with the one at `start`.
pub open spec fn distance(count: int, start: int, index: int) -> int {
    if start <= index {
        index - start
    } else {
        index - start + count
    }
}

/// The session that comes after one in the rotation.
pub open spec fn following(count: int, index: int) -> int {
    if index + 1 < count {
        index + 1
    } else {
        0
    }
}

/// How a call went that a drive asked for.
pub enum Answer<'a> {
    /// A write was attempted.
    Write(WriteOutcome),
    /// A read was attempted.
    Read(ReadOutcome<'a>),
}

/// A drive goes on with the answer to what it asked for.
pub open spec fn answered(step: DriveStep, answer: Answer) -> DriveStep {
    match (step.action, answer) {
        (DriveAction::Write { .. }, Answer::Write(outcome)) => drive_after_write(
            step.driver,
            step.drive,
            outcome,
        ),
        (DriveAction::Read { .. }, Answer::Read(outcome)) => drive_after_read(
            step.driver,
            step.drive,
            outcome,
        ),
        _ => step,
    }
}

/// A drive from its beginning, with the answers to all that it asked for.
pub open spec fn driven(
    d: DriverModel,
    ready: Seq<(RegistrationToken, Readiness)>,
    answers: Seq<Answer>,
) -> DriveStep
    decreases answers.len(),
{
    if answers.len() == 0 {
        begin_drive(d, ready)
    } else {
        answered(driven(d, ready, answers.drop_last()), answers.last())
    }
}

/// Sessions that are there, each further on in the rotation than the one
/// before it.
pub open spec fn in_rotation(d: DriverModel, start: int, processed: Seq<SessionId>) -> bool {
    let count = d.sessions.len() as int;
    &&& forall|k: int| 0 <= k < processed.len() ==> d.has(#[trigger] processed[k])
    &&& forall|a: int, b: int|
        0 <= a < b < processed.len() ==> distance(
            count,
            start,
            d.position(#[trigger] processed[a]),
        ) < distance(count, start, d.position(#[trigger] processed[b]))
}

/// What holds of a drive between its steps. It began with the sessions of `d`,
/// at `start`.
spec fn rotates(d: DriverModel, start: int, now: DriverModel, c: DriveModel) -> bool {
    let count = d.sessions.len() as int;
    &&& now.sessions.len() == count
    &&& forall|i: int| 0 <= i < count ==> (#[trigger] now.sessions[i]).id == d.sessions[i].id
    &&& count > 0 ==> 0 <= start < count
    &&& 0 <= c.left <= count
    &&& c.left > 0 ==> {
        &&& 0 <= c.index < count
        &&& distance(count, start, c.index) == count - c.left
        &&& !c.budget.is_spent()
        &&& c.processed.len() > 0 ==> distance(count, start, d.position(c.processed.last()))
            < count - c.left
    }
    &&& in_rotation(d, start, c.processed)
    &&& now.cursor == if c.processed.len() == 0 {
        d.cursor
    } else {
        Some(d.sessions[following(count, d.position(c.processed.last()))].id)
    }
    &&& forall|i: int|
        0 <= i < count && is_passed(d, start, c, i) && !c.processed.contains(d.sessions[i].id)
            ==> !(#[trigger] now.sessions[i]).has_work()
}

/// Whether a drive has come past a session: it comes before the last one that
/// got a turn, or the drive has been there and has a budget left.
spec fn is_passed(d: DriverModel, start: int, c: DriveModel, index: int) -> bool {
    let count = d.sessions.len() as int;
    let at = distance(count, start, index);
    ||| c.processed.len() > 0 && at < distance(count, start, d.position(c.processed.last()))
    ||| !c.budget.is_spent() && at < count - c.left
}

/// A drive that asks for something is in the turn of a session.
spec fn rotates_on(d: DriverModel, start: int, step: DriveStep) -> bool {
    &&& rotates(d, start, step.driver, step.drive)
    &&& !(step.action is Done) ==> step.drive.left > 0
}

proof fn lemma_position(d: DriverModel, index: int)
    requires
        d.wf(),
        0 <= index < d.sessions.len(),
    ensures
        d.has(d.sessions[index].id),
        d.position(d.sessions[index].id) == index,
{
    let id = d.sessions[index].id;
    let p = d.position(id);
    assert(d.sessions[p].id == id);
    if p < index {
        assert(d.sessions[p].id.number() < d.sessions[index].id.number());
    } else if index < p {
        assert(d.sessions[index].id.number() < d.sessions[p].id.number());
    }
}

proof fn lemma_visit_rotates(d: DriverModel, start: int, now: DriverModel, c: DriveModel)
    requires
        d.wf(),
        rotates(d, start, now, c),
    ensures
        rotates_on(d, start, visit(now, c)),
    decreases c.left, 2int,
{
    let s = now.sessions[c.index];
    let count = d.sessions.len() as int;
    if c.left > 0 {
        if s.has_work() && !c.budget.is_spent() {
            turns_begin_within_quanta(s, c.budget);
            lemma_step_rotates(d, start, now, c, begin_turn(s, c.budget));
        } else {
            let next = c.onward(count);
            assert forall|i: int|
                0 <= i < count && is_passed(d, start, next, i) && !next.processed.contains(
                    d.sessions[i].id,
                ) implies !(#[trigger] now.sessions[i]).has_work() by {
                if i != c.index {
                    assert(is_passed(d, start, c, i));
                }
            }
            lemma_visit_rotates(d, start, now, next);
        }
    }
}

proof fn lemma_step_rotates(
    d: DriverModel,
    start: int,
    now: DriverModel,
    c: DriveModel,
    step: TurnStep,
)
    requires
        d.wf(),
        rotates(d, start, now, c),
        c.left > 0,
        step.session.id == now.sessions[c.index].id,
    ensures
        rotates_on(d, start, take_step(now, c, step)),
        rotates_on(d, start, give_up(now, c, step)),
    decreases c.left, 1int,
{
    let count = d.sessions.len() as int;
    let after = now.with_session(c.index, step.session).dirtied(step.turn.dirty);
    let turned = DriveModel { turn: step.turn, ..c };
    assert forall|i: int|
        0 <= i < count && is_passed(d, start, turned, i) && !turned.processed.contains(
            d.sessions[i].id,
        ) implies !(#[trigger] after.sessions[i]).has_work() by {
        assert(is_passed(d, start, c, i));
        assert(i != c.index);
        assert(after.sessions[i] == now.sessions[i]);
    }
    assert(rotates(d, start, after, turned));
    if step.action is Idle {
        lemma_end_turn_rotates(d, start, after, turned);
    }
}

proof fn lemma_end_turn_rotates(d: DriverModel, start: int, now: DriverModel, c: DriveModel)
    requires
        d.wf(),
        rotates(d, start, now, c),
        c.left > 0,
    ensures
        rotates_on(d, start, end_turn(now, c)),
    decreases c.left, 0int,
{
    let count = d.sessions.len() as int;
    let s = now.sessions[c.index];
    let next = c.onward(count);
    let after = DriverModel {
        cursor: Some(now.sessions[next.index].id),
        ..now.with_session(c.index, DriverSessionModel { direction: c.turn.direction, ..s })
    };
    let moved = DriveModel { budget: c.turn.budget, processed: c.processed.push(s.id), ..next };
    let stopped = DriveModel { left: 0, ..moved };
    lemma_position(d, c.index);
    assert(moved.processed.last() == s.id);
    assert(moved.processed[c.processed.len() as int] == s.id);
    assert forall|id: SessionId| c.processed.contains(id) implies #[trigger]
        moved.processed.contains(id) by {
        let k = choose|k: int| 0 <= k < c.processed.len() && c.processed[k] == id;
        assert(moved.processed[k] == id);
    }
    assert(moved.processed.contains(s.id));
    assert forall|a: int, b: int| 0 <= a < b < moved.processed.len() implies distance(
        count,
        start,
        d.position(#[trigger] moved.processed[a]),
    ) < distance(count, start, d.position(#[trigger] moved.processed[b])) by {
        assert(moved.processed[a] == c.processed[a]);
        if b < c.processed.len() {
            assert(moved.processed[b] == c.processed[b]);
        } else if a < c.processed.len() - 1 {
            assert(distance(count, start, d.position(c.processed[a])) < distance(
                count,
                start,
                d.position(c.processed[c.processed.len() - 1]),
            ));
        }
    }
    assert forall|k: int| 0 <= k < moved.processed.len() implies d.has(
        #[trigger] moved.processed[k],
    ) by {
        if k < c.processed.len() {
            assert(moved.processed[k] == c.processed[k]);
        }
    }
    assert forall|i: int|
        0 <= i < count && distance(count, start, i) <= count - c.left
            && !moved.processed.contains(d.sessions[i].id) implies !(
    #[trigger] after.sessions[i]).has_work() by {
        assert(i != c.index);
        assert(!c.processed.contains(d.sessions[i].id));
        assert(is_passed(d, start, c, i));
        assert(after.sessions[i] == now.sessions[i]);
    }
    if c.turn.budget.is_spent() {
        assert(rotates(d, start, after, stopped));
    } else {
        assert(rotates(d, start, after, moved));
        lemma_visit_rotates(d, start, after, moved);
    }
}

proof fn lemma_going_on_keeps_id(s: DriverSessionModel, t: Turn)
    ensures
        turn_end(s, t).session.id == s.id,
        turn_keep_writing(s, t).session.id == s.id,
        turn_keep_reading(s, t).session.id == s.id,
{
    lemma_turn_end_quanta(s, t);
}

proof fn lemma_write_keeps_id(s: DriverSessionModel, t: Turn, outcome: WriteOutcome)
    ensures
        turn_after_write(s, t, outcome).session.id == s.id,
{
    reveal(turn_after_write);
    reveal(DriverSessionModel::wrote);
    reveal(DriverSessionModel::not_writable);
    let tried = Turn { budget: t.budget.after(0, 1), attempts: (t.attempts + 1) as usize, ..t };
    match outcome {
        WriteOutcome::Wrote(n) => if n == 0 {
            lemma_going_on_keeps_id(s, tried);
        } else {
            lemma_going_on_keeps_id(
                s.wrote(n as int),
                Turn {
                    budget: t.budget.after(n as int, 1),
                    progressed: true,
                    moved: as_count((t.moved + n) as nat),
                    dirty: t.dirty || n == s.unsent.len(),
                    ..tried
                },
            );
        },
        WriteOutcome::WouldBlock => lemma_going_on_keeps_id(s.not_writable(), tried),
        WriteOutcome::Interrupted => lemma_going_on_keeps_id(s, tried),
        _ => {},
    }
}

proof fn lemma_read_keeps_id(s: DriverSessionModel, t: Turn, outcome: ReadOutcome)
    ensures
        turn_after_read(s, t, outcome).session.id == s.id,
{
    reveal(turn_after_read);
    reveal(DriverSessionModel::not_readable);
    reveal(DriverSessionModel::ended);
    reveal(DriverSessionModel::received);
    let tried = Turn { budget: t.budget.after(0, 1), attempts: (t.attempts + 1) as usize, ..t };
    match outcome {
        ReadOutcome::Bytes(bytes) => if bytes@.len() == 0 {
            lemma_going_on_keeps_id(s.ended(), Turn { dirty: true, ..tried });
        } else {
            let full = s.received(bytes@);
            let moved = Turn {
                budget: t.budget.after(bytes@.len() as int, 1),
                progressed: true,
                moved: as_count((t.moved + bytes@.len()) as nat),
                ..tried
            };
            lemma_decoding_keeps_identity(full, moved.budget.bytes as int);
            lemma_going_on_keeps_id(
                full.decode(moved.budget.bytes as int),
                turn_decoded(full, moved),
            );
        },
        ReadOutcome::WouldBlock => lemma_going_on_keeps_id(s.not_readable(), tried),
        ReadOutcome::Interrupted => lemma_going_on_keeps_id(s, tried),
        ReadOutcome::Gone => lemma_going_on_keeps_id(s.ended(), Turn { dirty: true, ..tried }),
        ReadOutcome::Failed => {},
    }
}

proof fn lemma_marked(
    sessions: Seq<DriverSessionModel>,
    ready: Seq<(RegistrationToken, Readiness)>,
)
    ensures
        mark_all(sessions, ready).len() == sessions.len(),
        forall|i: int|
            0 <= i < sessions.len() ==> (#[trigger] mark_all(sessions, ready)[i]).id
                == sessions[i].id,
    decreases ready.len(),
{
    if ready.len() > 0 {
        reveal(DriverSessionModel::readied);
        lemma_marked(sessions, ready.drop_last());
    }
}

proof fn lemma_driven_rotates(
    d: DriverModel,
    ready: Seq<(RegistrationToken, Readiness)>,
    answers: Seq<Answer>,
)
    requires
        d.wf(),
    ensures
        rotates_on(d, first_index(d), driven(d, ready, answers)),
    decreases answers.len(),
{
    let start = first_index(d);
    if answers.len() == 0 {
        lemma_begin_rotates(d, ready);
    } else {
        lemma_driven_rotates(d, ready, answers.drop_last());
        let step = driven(d, ready, answers.drop_last());
        let s = step.driver.sessions[step.drive.index];
        match (step.action, answers.last()) {
            (DriveAction::Write { .. }, Answer::Write(outcome)) => {
                lemma_write_keeps_id(s, step.drive.turn, outcome);
                lemma_step_rotates(
                    d,
                    start,
                    step.driver,
                    step.drive,
                    turn_after_write(s, step.drive.turn, outcome),
                );
            },
            (DriveAction::Read { .. }, Answer::Read(outcome)) => {
                lemma_read_keeps_id(s, step.drive.turn, outcome);
                lemma_step_rotates(
                    d,
                    start,
                    step.driver,
                    step.drive,
                    turn_after_read(s, step.drive.turn, outcome),
                );
            },
            _ => {},
        }
    }
}

proof fn lemma_begin_rotates(d: DriverModel, ready: Seq<(RegistrationToken, Readiness)>)
    requires
        d.wf(),
    ensures
        rotates_on(d, first_index(d), begin_drive(d, ready)),
{
    let marked = DriverModel { sessions: mark_all(d.sessions, ready), ..d };
    let budget = PumpBudget {
        bytes: d.config.drive_byte_budget,
        syscalls: d.config.drive_syscall_budget,
    };
    let start = first_index(marked);
    let c = DriveModel {
        budget,
        index: start,
        left: d.sessions.len() as int,
        turn: first_turn(budget, Direction::Write),
        processed: Seq::empty(),
        stale_tokens: stale_tokens(d.sessions, ready),
    };
    lemma_marked(d.sessions, ready);
    lemma_same_start(d, marked);
    assert(d.config.value(crate::driver_config::ConfigField::DriveByteBudget) > 0);
    assert(d.config.value(crate::driver_config::ConfigField::DriveSyscallBudget) > 0);
    assert(rotates(d, start, marked, c));
    lemma_visit_rotates(d, start, marked, c);
}

/// Where a drive starts is a matter of the cursor and the identifiers.
proof fn lemma_same_start(d: DriverModel, other: DriverModel)
    requires
        d.wf(),
        other.sessions.len() == d.sessions.len(),
        forall|i: int|
            0 <= i < d.sessions.len() ==> (#[trigger] other.sessions[i]).id == d.sessions[i].id,
    ensures
        forall|id: SessionId| other.has(id) == #[trigger] d.has(id),
        forall|id: SessionId| #[trigger]
            d.has(id) ==> other.position(id) == d.position(id),
        other.cursor == d.cursor ==> first_index(other) == first_index(d),
        d.sessions.len() > 0 ==> 0 <= first_index(d) < d.sessions.len(),
{
    assert forall|id: SessionId| other.has(id) == #[trigger] d.has(id) by {
        if d.has(id) {
            assert(other.sessions[d.position(id)].id == id);
        }
        if other.has(id) {
            assert(d.sessions[other.position(id)].id == id);
        }
    }
    assert forall|id: SessionId| #[trigger] d.has(id) implies other.position(id) == d.position(
        id,
    ) by {
        assert(other.has(id));
        lemma_position(d, other.position(id));
    }
}

/// Sessions are driven round-robin: a drive begins with the session that the
/// cursor is on, and gives the sessions their turns in the order of the
/// rotation, each of them one turn at most. None that has work is passed over.
/// The next drive begins with the session after the last one that had a turn,
/// whether or not the budget was spent; where nobody had one the cursor stays.
/// A drive that has been to all sessions with some of its budget left leaves no
/// session with work that had no turn.
pub proof fn drives_go_round(
    d: DriverModel,
    ready: Seq<(RegistrationToken, Readiness)>,
    answers: Seq<Answer>,
)
    requires
        d.wf(),
    ensures
        ({
            let step = driven(d, ready, answers);
            let processed = step.drive.processed;
            let start = first_index(d);
            let count = d.sessions.len() as int;
            &&& in_rotation(d, start, processed)
            &&& processed.no_duplicates()
            &&& step.driver.sessions.len() == count
            &&& forall|i: int|
                0 <= i < count ==> (#[trigger] step.driver.sessions[i]).id == d.sessions[i].id
            &&& processed.len() > 0 ==> {
                let next = following(count, d.position(processed.last()));
                &&& step.driver.cursor == Some(d.sessions[next].id)
                &&& first_index(step.driver) == next
                &&& forall|i: int|
                    0 <= i < count && distance(count, start, i) < distance(
                        count,
                        start,
                        d.position(processed.last()),
                    ) && !processed.contains(d.sessions[i].id) ==> !(
                    #[trigger] step.driver.sessions[i]).has_work()
            }
            &&& processed.len() == 0 ==> step.driver.cursor == d.cursor && first_index(step.driver)
                == start
            &&& step.drive.left == 0 && !step.drive.budget.is_spent() ==> forall|i: int|
                0 <= i < count && !processed.contains(d.sessions[i].id) ==> !(
                #[trigger] step.driver.sessions[i]).has_work()
        }),
{
    lemma_driven_rotates(d, ready, answers);
    let step = driven(d, ready, answers);
    let processed = step.drive.processed;
    let start = first_index(d);
    let count = d.sessions.len() as int;
    lemma_same_start(d, step.driver);
    assert(processed.no_duplicates()) by {
        assert forall|a: int, b: int|
            0 <= a < processed.len() && 0 <= b < processed.len() && a != b implies processed[a]
            != processed[b] by {
            if a < b {
                assert(distance(count, start, d.position(processed[a])) < distance(
                    count,
                    start,
                    d.position(processed[b]),
                ));
            } else {
                assert(distance(count, start, d.position(processed[b])) < distance(
                    count,
                    start,
                    d.position(processed[a]),
                ));
            }
        }
    }
    if processed.len() > 0 {
        assert(d.has(processed[processed.len() - 1]));
        let next = following(count, d.position(processed.last()));
        lemma_position(d, next);
        assert(step.driver.has(d.sessions[next].id));
    }
    assert forall|i: int| 0 <= i < count && is_passed(d, start, step.drive, i)
        && !processed.contains(d.sessions[i].id) implies !(
    #[trigger] step.driver.sessions[i]).has_work() by {}
    assert forall|i: int|
        0 <= i < count && processed.len() > 0 && distance(count, start, i) < distance(
            count,
            start,
            d.position(processed.last()),
        ) && !processed.contains(d.sessions[i].id) implies !(
    #[trigger] step.driver.sessions[i]).has_work() by {
        assert(is_passed(d, start, step.drive, i));
    }
    if step.drive.left == 0 && !step.drive.budget.is_spent() {
        assert forall|i: int|
            0 <= i < count && !processed.contains(d.sessions[i].id) implies !(
        #[trigger] step.driver.sessions[i]).has_work() by {
            assert(is_passed(d, start, step.drive, i));
        }
    }
}

} // verus!
