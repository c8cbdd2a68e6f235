//! Where the bytes of a driven session go: what is queued reaches the child in
//! order, and what the child puts out reaches the terminal in order.

use vstd::prelude::*;

use crate::driver::{
    begin_drive, drive_after_read, drive_after_write, end_turn, first_index, is_current, mark_all,
    mark_one, matches_token, registered, stale_tokens, take_step, unreported_ids, visit,
    DriveModel, DriverModel,
};
use crate::driver_config::{
    ConfigError, ConfigField, DriverConfig, DriverError, Readiness, RegistrationToken,
    SessionConfig, SessionId, SessionStatus,
};
use crate::driver_session::{
    begin_turn, first_turn, new_session, turn_after_read, turn_after_write, turn_decoded, turn_end,
    turn_keep_reading, turn_keep_writing, turn_over, turn_read, turn_round, turn_write,
    DriverSessionModel, SessionLimits, Turn, TurnAction, TurnStep,
};
use crate::sequence_laws::is_new;
use crate::session::{Direction, PumpBudget, ReadOutcome, WriteOutcome};
use crate::session_metrics::as_count;
use crate::size::Size;
use crate::terminal_laws::feeding_keeps_the_size;
use crate::terminal_model::{least, TerminalModel};
use crate::terminal_scrollback::{fits, trimming_keeps_the_newest};

verus! {

/// The same session, with the same registration, limits and readiness.
pub open spec fn is_same(a: DriverSessionModel, b: DriverSessionModel) -> bool {
    &&& b.id == a.id
    &&& b.generation == a.generation
    &&& b.fd == a.fd
    &&& b.phase == a.phase
    &&& b.ready == a.ready
    &&& b.exit_event_sent == a.exit_event_sent
    &&& b.limits == a.limits
}

/// Bytes that were read went to the terminal in order, if anything: what the
/// terminal was fed, and behind it what is still unread, are the same.
pub open spec fn keeps_output(a: DriverSessionModel, b: DriverSessionModel) -> bool {
    &&& b.term.fed + b.unread == a.term.fed + a.unread
    &&& b.unread.len() <= a.unread.len()
}

/// What waits to be written is still there, in front.
pub open spec fn keeps_queue(a: DriverSessionModel, b: DriverSessionModel) -> bool {
    a.unsent.is_prefix_of(b.unsent)
}

/// A write of `n` bytes takes the first `n` bytes off the queue, and nothing
/// else changes.
pub proof fn a_write_takes_the_front(s: DriverSessionModel, n: int)
    requires
        0 <= n <= s.unsent.len(),
    ensures
        s.unsent.take(n) + s.wrote(n).unsent == s.unsent,
        s.wrote(n).unsent.len() == s.unsent.len() - n,
        s.wrote(n) == (DriverSessionModel { unsent: s.wrote(n).unsent, ..s }),
{
    reveal(DriverSessionModel::wrote);
    assert(s.unsent.take(n) + s.unsent.skip(n) =~= s.unsent);
}

/// A session after several writes, of which each took some bytes.
pub open spec fn after_writes(s: DriverSessionModel, counts: Seq<nat>) -> DriverSessionModel
    decreases counts.len(),
{
    if counts.len() == 0 {
        s
    } else {
        after_writes(s, counts.drop_last()).wrote(counts.last() as int)
    }
}

/// What the child has received by then.
pub open spec fn received_by_child(s: DriverSessionModel, counts: Seq<nat>) -> Seq<u8>
    decreases counts.len(),
{
    if counts.len() == 0 {
        Seq::empty()
    } else {
        received_by_child(s, counts.drop_last()) + after_writes(
            s,
            counts.drop_last(),
        ).unsent.take(counts.last() as int)
    }
}

/// The bytes that were written together.
pub open spec fn total(counts: Seq<nat>) -> nat
    decreases counts.len(),
{
    if counts.len() == 0 {
        0
    } else {
        total(counts.drop_last()) + counts.last()
    }
}

/// Over any run of partial writes the child receives the queued bytes in
/// order: what it has and what still waits are together what was queued.
pub proof fn the_child_receives_what_was_queued(s: DriverSessionModel, counts: Seq<nat>)
    requires
        total(counts) <= s.unsent.len(),
    ensures
        received_by_child(s, counts) + after_writes(s, counts).unsent == s.unsent,
        received_by_child(s, counts).len() == total(counts),
    decreases counts.len(),
{
    if counts.len() == 0 {
        assert(Seq::<u8>::empty() + s.unsent =~= s.unsent);
    } else {
        let front = counts.drop_last();
        let n = counts.last() as int;
        the_child_receives_what_was_queued(s, front);
        let before = after_writes(s, front);
        a_write_takes_the_front(before, n);
        assert(received_by_child(s, counts) + after_writes(s, counts).unsent =~= received_by_child(
            s,
            front,
        ) + (before.unsent.take(n) + before.wrote(n).unsent));
    }
}

/// What is read goes behind what was read before, and nothing else changes.
pub proof fn a_read_goes_behind(s: DriverSessionModel, bytes: Seq<u8>)
    ensures
        s.received(bytes) == (DriverSessionModel { unread: s.unread + bytes, ..s }),
{
    reveal(DriverSessionModel::received);
}

proof fn lemma_decode_byte(s: DriverSessionModel, byte: u8)
    ensures
        s.decode_byte(byte).term.fed == s.term.fed.push(byte),
        s.decode_byte(byte).unread == s.unread,
        keeps_queue(s, s.decode_byte(byte)),
        is_same(s, s.decode_byte(byte)),
        s.decode_byte(byte).direction == s.direction,
{
    reveal(DriverSessionModel::decode_byte);
    reveal(DriverSessionModel::feed_byte);
    reveal(DriverSessionModel::keep_reply);
    feeding_keeps_the_size(s.term, seq![byte]);
    assert(s.term.fed + seq![byte] =~= s.term.fed.push(byte));
    let after = s.decode_byte(byte);
    assert(after.unsent.subrange(0, s.unsent.len() as int) =~= s.unsent);
}

/// Decoding takes the unread bytes in order, as many as it may, and stops early
/// only where a reply has to wait or nothing is left.
pub proof fn decoding_goes_in_order(s: DriverSessionModel, bytes: int)
    ensures
        ({
            let after = s.decode(bytes);
            &&& keeps_output(s, after)
            &&& keeps_queue(s, after)
            &&& is_same(s, after)
            &&& bytes >= 0 ==> s.unread.len() - after.unread.len() <= bytes
            &&& bytes > 0 ==> after.paused || after.unread.len() == 0 || s.unread.len()
                - after.unread.len() == bytes
            &&& bytes <= 0 || s.paused ==> after == s
        }),
    decreases bytes,
{
    if bytes > 0 && !s.paused && s.unread.len() > 0 {
        let byte = s.unread[0];
        let taken = DriverSessionModel { unread: s.unread.skip(1), ..s };
        let next = taken.decode_byte(byte);
        lemma_decode_byte(taken, byte);
        decoding_goes_in_order(next, bytes - 1);
        assert(s.term.fed.push(byte) + s.unread.skip(1) =~= s.term.fed + s.unread);
        let after = s.decode(bytes);
        assert(after == next.decode(bytes - 1));
        assert(after.unsent.subrange(0, s.unsent.len() as int) =~= s.unsent);
    } else {
        assert(s.unsent.subrange(0, s.unsent.len() as int) =~= s.unsent);
    }
}

/// What holds of a turn that went on without a call: the session is the same,
/// its output went to the terminal in order, and the budget was charged for
/// the bytes that were decoded.
pub open spec fn goes_on_in_order(s: DriverSessionModel, t: Turn, step: TurnStep) -> bool {
    &&& is_same(s, step.session)
    &&& keeps_output(s, step.session)
    &&& step.turn.budget.bytes == t.budget.bytes - (s.unread.len() - step.session.unread.len())
    &&& step.turn.budget.syscalls == t.budget.syscalls
}

proof fn lemma_decoded_turn(s: DriverSessionModel, t: Turn)
    ensures
        ({
            let decoded = s.decode(t.budget.bytes as int);
            let turn = turn_decoded(s, t);
            &&& keeps_output(s, decoded)
            &&& keeps_queue(s, decoded)
            &&& is_same(s, decoded)
            &&& turn.budget.bytes == t.budget.bytes - (s.unread.len() - decoded.unread.len())
            &&& turn.budget.syscalls == t.budget.syscalls
        }),
{
    decoding_goes_in_order(s, t.budget.bytes as int);
}

proof fn lemma_round_in_order(s: DriverSessionModel, t: Turn)
    ensures
        goes_on_in_order(s, t, turn_round(s, t)),
    decreases t.rounds, 0int,
{
    let direction = if s.works_on(t.direction) {
        t.direction
    } else {
        t.direction.other()
    };
    if t.rounds > 0 && !t.budget.is_spent() && s.works_on(direction) {
        let begun = Turn {
            direction,
            rounds: (t.rounds - 1) as u8,
            progressed: false,
            attempts: 0,
            moved: 0,
            ..t
        };
        if direction == Direction::Write {
            lemma_write_in_order(s, begun);
        } else {
            lemma_read_in_order(s, begun);
        }
    }
}

proof fn lemma_end_in_order(s: DriverSessionModel, t: Turn)
    ensures
        goes_on_in_order(s, t, turn_end(s, t)),
    decreases t.rounds, 1int,
{
    lemma_round_in_order(s, Turn { direction: t.direction.other(), ..t });
}

proof fn lemma_write_in_order(s: DriverSessionModel, t: Turn)
    ensures
        goes_on_in_order(s, t, turn_write(s, t)),
    decreases t.rounds, 3int,
{
    reveal(DriverSessionModel::readmit);
    lemma_end_in_order(s.readmit(), Turn { progressed: true, dirty: true, ..t });
    lemma_end_in_order(s, t);
}

proof fn lemma_read_in_order(s: DriverSessionModel, t: Turn)
    ensures
        goes_on_in_order(s, t, turn_read(s, t)),
    decreases t.rounds, 3int,
{
    lemma_decoded_turn(s, t);
    lemma_end_in_order(s.decode(t.budget.bytes as int), turn_decoded(s, t));
}

proof fn lemma_keep_in_order(s: DriverSessionModel, t: Turn)
    ensures
        goes_on_in_order(s, t, turn_keep_writing(s, t)),
        goes_on_in_order(s, t, turn_keep_reading(s, t)),
{
    lemma_end_in_order(s, t);
}

proof fn lemma_last_phase(s: DriverSessionModel, t: Turn)
    requires
        t.rounds == 0,
    ensures
        turn_end(s, t).session == s,
        turn_keep_reading(s, t).session == s,
        turn_keep_writing(s, t).session == s,
{
    assert(turn_round(s, Turn { direction: t.direction.other(), ..t }).session == s);
}

/// A write phase that is over keeps what waits in front: what comes after it is
/// at most one read phase, which can add replies.
proof fn lemma_after_writing(s: DriverSessionModel, t: Turn)
    requires
        t.direction == Direction::Write,
        t.rounds <= 1,
    ensures
        keeps_queue(s, turn_end(s, t).session),
        keeps_queue(s, turn_keep_writing(s, t).session),
{
    assert(s.unsent.subrange(0, s.unsent.len() as int) =~= s.unsent);
    let turned = Turn { direction: Direction::Read, ..t };
    if t.progressed && s.works_on(Direction::Read) && t.rounds > 0 && !t.budget.is_spent() {
        let begun = Turn {
            direction: Direction::Read,
            rounds: 0,
            progressed: false,
            attempts: 0,
            moved: 0,
            ..turned
        };
        lemma_decoded_turn(s, begun);
        let decoded = s.decode(begun.budget.bytes as int);
        lemma_last_phase(decoded, turn_decoded(s, begun));
        assert(turn_read(s, begun).session == decoded);
        assert(turn_round(s, turned) == turn_read(s, begun));
        assert(turn_end(s, t) == turn_round(s, turned));
    }
}

proof fn lemma_round_left(s: DriverSessionModel, t: Turn)
    ensures
        turn_round(s, t).action is Idle || turn_round(s, t).turn.rounds < t.rounds,
    decreases t.rounds, 0int,
{
    let direction = if s.works_on(t.direction) {
        t.direction
    } else {
        t.direction.other()
    };
    if t.rounds > 0 && !t.budget.is_spent() && s.works_on(direction) {
        let begun = Turn {
            direction,
            rounds: (t.rounds - 1) as u8,
            progressed: false,
            attempts: 0,
            moved: 0,
            ..t
        };
        if direction == Direction::Write {
            let sent = Turn { progressed: true, dirty: true, ..begun };
            lemma_phase_left(s, begun);
            lemma_phase_left(s.readmit(), sent);
            assert(turn_round(s, t) == turn_write(s, begun));
        } else {
            let decoded = s.decode(begun.budget.bytes as int);
            lemma_phase_left(decoded, turn_decoded(s, begun));
            assert(turn_round(s, t) == turn_read(s, begun));
        }
    }
}

/// Once a phase is over, what a turn asks for belongs to another one.
proof fn lemma_phase_left(s: DriverSessionModel, t: Turn)
    ensures
        turn_end(s, t).action is Idle || turn_end(s, t).turn.rounds < t.rounds,
        turn_keep_writing(s, t).action is Idle || turn_keep_writing(s, t).turn.rounds < t.rounds
            || (turn_keep_writing(s, t).turn == t && turn_keep_writing(s, t).session == s),
        turn_keep_reading(s, t).action is Idle || turn_keep_reading(s, t).turn.rounds < t.rounds
            || (turn_keep_reading(s, t).turn == t && turn_keep_reading(s, t).session == s),
    decreases t.rounds, 1int,
{
    lemma_round_left(s, Turn { direction: t.direction.other(), ..t });
}

/// What holds once a write has left `s` and `t`.
spec fn goes_on_writing(s: DriverSessionModel, t: Turn, step: TurnStep) -> bool {
    &&& goes_on_in_order(s, t, step)
    &&& keeps_queue(s, step.session)
    &&& step.action is Write && step.turn.rounds == t.rounds ==> step.session.unsent == s.unsent
}

proof fn lemma_goes_on_writing(s: DriverSessionModel, t: Turn)
    requires
        t.direction == Direction::Write,
        t.rounds <= 1,
    ensures
        goes_on_writing(s, t, turn_end(s, t)),
        goes_on_writing(s, t, turn_keep_writing(s, t)),
        goes_on_writing(s, t, turn_over(s, t)),
{
    lemma_keep_in_order(s, t);
    lemma_end_in_order(s, t);
    lemma_after_writing(s, t);
    lemma_phase_left(s, t);
    assert(s.unsent.subrange(0, s.unsent.len() as int) =~= s.unsent);
}

/// A write that a turn asked for takes the bytes that were written off the
/// front of the queue. What is left stays in front; what is read in the same
/// turn can only add to it. Nothing but the queue and the output of the session
/// changes, and the budget is charged for what was written and decoded.
pub proof fn turns_write_in_order(s: DriverSessionModel, t: Turn, n: usize)
    requires
        n <= s.unsent.len(),
        n <= t.budget.bytes,
        t.direction == Direction::Write,
        t.rounds <= 1,
        t.budget.syscalls > 0,
    ensures
        ({
            let step = turn_after_write(s, t, WriteOutcome::Wrote(n));
            let after = step.session;
            &&& s.unsent.skip(n as int).is_prefix_of(after.unsent)
            &&& step.action is Write && step.turn.rounds == t.rounds ==> s.unsent.take(n as int)
                + after.unsent == s.unsent
            &&& keeps_output(s, after)
            &&& is_same(s, after)
            &&& step.turn.budget.syscalls == t.budget.syscalls - 1
            &&& step.turn.budget.bytes == t.budget.bytes - n - (s.unread.len()
                - after.unread.len())
        }),
{
    let step = turn_after_write(s, t, WriteOutcome::Wrote(n));
    let left = s.wrote(n as int);
    assert(left == (DriverSessionModel { unsent: s.unsent.skip(n as int), ..s })) by {
        reveal(DriverSessionModel::wrote);
    }
    assert(s.unsent.skip(0) =~= s.unsent);
    assert(s.unsent.take(n as int) + s.unsent.skip(n as int) =~= s.unsent);
    let tried = Turn { budget: t.budget.after(0, 1), attempts: (t.attempts + 1) as usize, ..t };
    let moved = Turn {
        budget: t.budget.after(n as int, 1),
        progressed: true,
        moved: as_count((t.moved + n) as nat),
        dirty: t.dirty || n == s.unsent.len(),
        ..tried
    };
    assert(step == if n == 0 {
        turn_end(s, tried)
    } else {
        turn_keep_writing(left, moved)
    }) by {
        reveal(turn_after_write);
    }
    if n == 0 {
        lemma_goes_on_writing(s, tried);
        assert(goes_on_writing(s, tried, step));
    } else {
        lemma_goes_on_writing(left, moved);
        assert(goes_on_writing(left, moved, step));
    }
}

/// A write that moved nothing leaves the queue as it was. One that would have
/// blocked, or failed, leaves the session not ready for writing.
pub proof fn turns_that_write_nothing(s: DriverSessionModel, t: Turn, outcome: WriteOutcome)
    requires
        outcome !is Wrote,
        t.direction == Direction::Write,
        t.rounds <= 1,
        t.budget.syscalls > 0,
    ensures
        ({
            let step = turn_after_write(s, t, outcome);
            let after = step.session;
            &&& s.unsent.is_prefix_of(after.unsent)
            &&& keeps_output(s, after)
            &&& is_same(DriverSessionModel { ready: after.ready, ..s }, after)
            &&& after.ready.readable == s.ready.readable
            &&& after.ready.writable == (s.ready.writable && outcome is Interrupted)
            &&& step.turn.budget.syscalls == t.budget.syscalls - 1
            &&& step.turn.budget.bytes == t.budget.bytes - (s.unread.len() - after.unread.len())
            &&& outcome is Gone || outcome is Failed ==> step.action is Idle && after.unsent
                == s.unsent && after.unread == s.unread
        }),
{
    let step = turn_after_write(s, t, outcome);
    let tried = Turn { budget: t.budget.after(0, 1), attempts: (t.attempts + 1) as usize, ..t };
    let blocked = s.not_writable();
    assert(blocked == (DriverSessionModel {
        ready: Readiness { writable: false, ..s.ready },
        ..s
    })) by {
        reveal(DriverSessionModel::not_writable);
    }
    assert(step == match outcome {
        WriteOutcome::WouldBlock => turn_end(blocked, tried),
        WriteOutcome::Interrupted => turn_end(s, tried),
        _ => turn_over(blocked, tried),
    }) by {
        reveal(turn_after_write);
    }
    lemma_goes_on_writing(s, tried);
    lemma_goes_on_writing(blocked, tried);
    if outcome is Interrupted {
        assert(goes_on_writing(s, tried, step));
    } else {
        assert(goes_on_writing(blocked, tried, step));
    }
}

/// Bytes that a turn asked for go behind those that are unread, and the
/// terminal takes them in that order. The budget is charged for what was read
/// and for what was decoded.
pub proof fn turns_read_in_order(s: DriverSessionModel, t: Turn, bytes: &[u8])
    requires
        0 < bytes@.len() <= t.budget.bytes,
        t.budget.syscalls > 0,
    ensures
        ({
            let step = turn_after_read(s, t, ReadOutcome::Bytes(bytes));
            let after = step.session;
            &&& after.term.fed + after.unread == s.term.fed + s.unread + bytes@
            &&& after.unread.len() <= s.unread.len() + bytes@.len()
            &&& is_same(s, after)
            &&& step.turn.budget.syscalls == t.budget.syscalls - 1
            &&& step.turn.budget.bytes == t.budget.bytes - bytes@.len() - (s.unread.len()
                + bytes@.len() - after.unread.len())
        }),
{
    let step = turn_after_read(s, t, ReadOutcome::Bytes(bytes));
    let full = s.received(bytes@);
    assert(full == (DriverSessionModel { unread: s.unread + bytes@, ..s })) by {
        reveal(DriverSessionModel::received);
    }
    let tried = Turn { budget: t.budget.after(0, 1), attempts: (t.attempts + 1) as usize, ..t };
    let moved = Turn {
        budget: t.budget.after(bytes@.len() as int, 1),
        progressed: true,
        moved: as_count((t.moved + bytes@.len()) as nat),
        ..tried
    };
    let decoded = full.decode(moved.budget.bytes as int);
    assert(step == turn_keep_reading(decoded, turn_decoded(full, moved))) by {
        reveal(turn_after_read);
    }
    lemma_decoded_turn(full, moved);
    lemma_keep_in_order(decoded, turn_decoded(full, moved));
    assert(goes_on_in_order(decoded, turn_decoded(full, moved), step));
    assert(s.term.fed + (s.unread + bytes@) =~= s.term.fed + s.unread + bytes@);
}

/// A read that brought no bytes changes nothing of what was read before. No
/// bytes at all, or a peer that is gone, are the end of the stream. A read that
/// would have blocked, or failed, leaves the session not ready for reading.
pub proof fn turns_that_read_nothing(s: DriverSessionModel, t: Turn, outcome: ReadOutcome)
    requires
        outcome matches ReadOutcome::Bytes(bytes) ==> bytes@.len() == 0,
        t.budget.syscalls > 0,
    ensures
        ({
            let step = turn_after_read(s, t, outcome);
            let after = step.session;
            &&& keeps_output(s, after)
            &&& is_same(DriverSessionModel { ready: after.ready, phase: after.phase, ..s }, after)
            &&& after.phase == (if outcome is Bytes || outcome is Gone {
                SessionStatus::Eof
            } else {
                s.phase
            })
            &&& after.ready.writable == s.ready.writable
            &&& after.ready.readable == (s.ready.readable && outcome is Interrupted)
            &&& step.turn.budget.syscalls == t.budget.syscalls - 1
            &&& step.turn.budget.bytes == t.budget.bytes - (s.unread.len() - after.unread.len())
            &&& outcome is Failed ==> step.action is Idle && after.unread == s.unread
        }),
{
    let step = turn_after_read(s, t, outcome);
    let tried = Turn { budget: t.budget.after(0, 1), attempts: (t.attempts + 1) as usize, ..t };
    let seen = Turn { dirty: true, ..tried };
    let blocked = s.not_readable();
    let over = s.ended();
    assert(blocked == (DriverSessionModel {
        ready: Readiness { readable: false, ..s.ready },
        ..s
    })) by {
        reveal(DriverSessionModel::not_readable);
    }
    assert(over == (DriverSessionModel {
        phase: SessionStatus::Eof,
        ready: Readiness { readable: false, ..s.ready },
        ..s
    })) by {
        reveal(DriverSessionModel::ended);
    }
    assert(step == match outcome {
        ReadOutcome::WouldBlock => turn_end(blocked, tried),
        ReadOutcome::Interrupted => turn_end(s, tried),
        ReadOutcome::Failed => turn_over(blocked, tried),
        _ => turn_end(over, seen),
    }) by {
        reveal(turn_after_read);
    }
    if outcome is Failed {
        assert(goes_on_in_order(blocked, tried, step));
    } else if outcome is WouldBlock {
        lemma_end_in_order(blocked, tried);
        assert(goes_on_in_order(blocked, tried, step));
    } else if outcome is Interrupted {
        lemma_end_in_order(s, tried);
        assert(goes_on_in_order(s, tried, step));
    } else {
        lemma_end_in_order(over, seen);
        assert(goes_on_in_order(over, seen, step));
    }
}

/// A turn begins without losing a byte, and with the direction that the
/// session has where that has work. It asks for as many bytes as it may.
pub proof fn turns_begin_in_order(s: DriverSessionModel, budget: PumpBudget)
    requires
        budget.bytes > 0,
        budget.syscalls > 0,
        s.phase != SessionStatus::Closing,
        s.limits.write_bytes > 0,
        s.limits.write_syscalls > 0,
        s.limits.read_bytes > 0,
        s.limits.read_syscalls > 0,
        s.limits.read_buffer > 0,
    ensures
        ({
            let step = begin_turn(s, budget);
            &&& goes_on_in_order(s, first_turn(budget, s.direction), step)
            &&& s.direction == Direction::Write && s.unsent.len() > 0 ==> step.action is Write
            &&& s.direction == Direction::Read && !s.paused && s.phase == SessionStatus::Live
                && s.ready.readable && s.unread.len() == 0 ==> step.action is Read
            &&& s.direction == Direction::Read && (s.paused || s.phase != SessionStatus::Live)
                && s.unsent.len() > 0 ==> step.action is Write
            &&& s.direction == Direction::Write && s.unsent.len() == 0 && s.pending.len() == 0
                && !s.paused && s.phase == SessionStatus::Live && s.ready.readable
                && s.unread.len() == 0 ==> step.action is Read
            &&& step.action matches TurnAction::Write(n) ==> n > 0 && (n
                == step.session.unsent.len() || n == step.turn.budget.bytes || n
                == s.limits.write_bytes)
            &&& step.action matches TurnAction::Read(n) ==> n > 0 && (n == step.turn.budget.bytes
                || n == s.limits.read_bytes || n == s.limits.read_buffer
                - step.session.unread.len())
        }),
{
    reveal(begin_turn);
    let t = first_turn(budget, s.direction);
    lemma_round_in_order(s, t);
    lemma_asks(s, t);
    let begun = Turn { rounds: 1, direction: Direction::Write, ..t };
    let reading = Turn { rounds: 1, direction: Direction::Read, ..t };
    reveal(DriverSessionModel::readmit);
    assert(s.unread.len() == 0 ==> s.decode(budget.bytes as int) == s);
    if s.unread.len() == 0 {
        assert(turn_decoded(s, reading) == reading);
    }
}

/// What a turn asks for at the beginning of a phase is as much as it may.
spec fn asks_fully(limits: SessionLimits, step: TurnStep) -> bool {
    &&& step.action matches TurnAction::Write(n) ==> n > 0 && (n == step.session.unsent.len() || n
        == step.turn.budget.bytes || n == limits.write_bytes)
    &&& step.action matches TurnAction::Read(n) ==> n > 0 && (n == step.turn.budget.bytes || n
        == limits.read_bytes || n == limits.read_buffer - step.session.unread.len())
}

#[verifier::spinoff_prover]
proof fn lemma_asks(s: DriverSessionModel, t: Turn)
    requires
        t.moved == 0,
    ensures
        asks_fully(s.limits, turn_round(s, t)),
    decreases t.rounds, 0int,
{
    let direction = if s.works_on(t.direction) {
        t.direction
    } else {
        t.direction.other()
    };
    let begun = Turn {
        direction,
        rounds: (t.rounds - 1) as u8,
        progressed: false,
        attempts: 0,
        moved: 0,
        ..t
    };
    if t.rounds > 0 && !t.budget.is_spent() && s.works_on(direction) {
        if direction == Direction::Write {
            lemma_asks_write(s, begun);
            assert(turn_round(s, t) == turn_write(s, begun));
        } else {
            lemma_asks_read(s, begun);
            assert(turn_round(s, t) == turn_read(s, begun));
        }
    }
}

#[verifier::spinoff_prover]
proof fn lemma_asks_write(s: DriverSessionModel, t: Turn)
    requires
        t.moved == 0,
    ensures
        asks_fully(s.limits, turn_write(s, t)),
    decreases t.rounds, 2int,
{
    let sent = Turn { progressed: true, dirty: true, ..t };
    assert(s.readmit().limits == s.limits) by {
        reveal(DriverSessionModel::readmit);
    }
    lemma_asks_end(s.readmit(), sent);
    lemma_asks_end(s, t);
}

#[verifier::spinoff_prover]
proof fn lemma_asks_read(s: DriverSessionModel, t: Turn)
    requires
        t.moved == 0,
    ensures
        asks_fully(s.limits, turn_read(s, t)),
    decreases t.rounds, 2int,
{
    let decoded = s.decode(t.budget.bytes as int);
    decoding_goes_in_order(s, t.budget.bytes as int);
    lemma_asks_end(decoded, turn_decoded(s, t));
}

#[verifier::spinoff_prover]
proof fn lemma_asks_end(s: DriverSessionModel, t: Turn)
    requires
        t.moved == 0,
    ensures
        asks_fully(s.limits, turn_end(s, t)),
        asks_fully(s.limits, turn_keep_writing(s, t)),
        asks_fully(s.limits, turn_keep_reading(s, t)),
    decreases t.rounds, 1int,
{
    lemma_asks(s, Turn { direction: t.direction.other(), ..t });
}

/// What was held back of a reply goes to the front of the queue, as much of it
/// as the queue has room for, and the rest keeps waiting. Decoding resumes once
/// nothing waits.
pub proof fn readmitting_a_reply(s: DriverSessionModel)
    requires
        s.wf(),
    ensures
        ({
            let after = s.readmit();
            let moved = s.pending.len() - after.pending.len();
            &&& 0 <= moved
            &&& after.unsent == s.pending.take(moved) + s.unsent
            &&& s.pending.take(moved) + after.pending == s.pending
            &&& after.pending.len() == 0 || after.unsent.len() == s.limits.write_queue
            &&& after.unsent.len() <= s.limits.write_queue
            &&& after.paused == (after.pending.len() > 0)
            &&& after == (DriverSessionModel {
                unsent: after.unsent,
                pending: after.pending,
                paused: after.paused,
                ..s
            })
        }),
{
    reveal(DriverSessionModel::readmit);
    let after = s.readmit();
    let moved = s.pending.len() - after.pending.len();
    assert(s.pending.take(0) + s.unsent =~= s.unsent);
    assert(s.pending.take(moved) + after.pending =~= s.pending);
}

/// A byte is fed to the terminal with nothing else, the history is cut down to
/// its limits, and a reply goes to the end of the queue, or is held back where
/// the queue has no room for it.
pub proof fn decoding_a_byte(s: DriverSessionModel, byte: u8)
    requires
        s.wf(),
    ensures
        ({
            let fed = s.term.feed(seq![byte]);
            let reply = fed.replies;
            let after = s.decode_byte(byte);
            let lines = after.term.scrollback;
            &&& after.term == (TerminalModel {
                replies: Seq::empty(),
                scrollback: lines,
                ..fed
            })
            &&& lines == fed.scrollback.skip(fed.scrollback.len() - lines.len())
            &&& fits(
                lines,
                s.limits.scrollback.max_lines as nat,
                s.limits.scrollback.max_cells as nat,
            )
            &&& after == (DriverSessionModel {
                term: after.term,
                revision: after.revision,
                unsent: after.unsent,
                pending: after.pending,
                paused: after.paused,
                ..s
            })
            &&& after.revision == if s.term.feed_shows(seq![byte]) {
                s.revision.wrapping_add(1)
            } else {
                s.revision
            }
            &&& s.unsent.len() + reply.len() <= s.limits.write_queue ==> after.unsent == s.unsent
                + reply && after.pending == s.pending && after.paused == s.paused
            &&& s.unsent.len() + reply.len() > s.limits.write_queue && s.pending.len() + reply.len()
                <= s.limits.pending_reply ==> after.unsent == s.unsent && after.pending == s.pending
                + reply && after.paused
        }),
{
    reveal(DriverSessionModel::decode_byte);
    reveal(DriverSessionModel::feed_byte);
    reveal(DriverSessionModel::keep_reply);
    let fed = s.term.feed(seq![byte]);
    trimming_keeps_the_newest(
        fed.scrollback,
        s.limits.scrollback.max_lines as nat,
        s.limits.scrollback.max_cells as nat,
    );
    if fed.replies.len() == 0 {
        assert(s.unsent + fed.replies =~= s.unsent);
    }
}

/// Input goes behind everything that waits, and changes nothing else. It is
/// accepted where the queue has room for all of it or, while a reply waits, the
/// room behind that reply has.
pub proof fn accepting_input(d: DriverModel, id: SessionId, bytes: Seq<u8>)
    requires
        d.wf(),
    ensures
        ({
            let s = d.session(id);
            let waits = s.pending.len() > 0;
            let room = if waits {
                s.limits.pending_reply - s.pending.len()
            } else {
                s.limits.write_queue - s.unsent.len()
            };
            &&& !d.has(id) <==> d.refusal(id, bytes.len() as int) == Err::<(), DriverError>(
                DriverError::StaleId(id),
            )
            &&& d.has(id) && s.phase == SessionStatus::Closing <==> d.refusal(
                id,
                bytes.len() as int,
            ) == Err::<(), DriverError>(DriverError::SessionClosed(id))
            &&& d.has(id) && s.phase != SessionStatus::Closing ==> (d.refusal(
                id,
                bytes.len() as int,
            ) is Ok <==> bytes.len() <= room)
            &&& d.refusal(id, bytes.len() as int) == Err::<(), DriverError>(
                DriverError::Backpressure,
            ) ==> bytes.len() > room
            &&& d.has(id) ==> s.append(bytes) == (if waits {
                DriverSessionModel { pending: s.pending + bytes, ..s }
            } else {
                DriverSessionModel { unsent: s.unsent + bytes, ..s }
            })
        }),
{
    reveal(DriverSessionModel::append);
    if d.has(id) {
        assert(d.sessions[d.position(id)].wf());
    }
}

/// Readiness that is reported adds up: a session is readable once it is told
/// to be, or of a hangup or an error, and writable once it is told to be. Other
/// sessions, and the rest of the session, stay as they are.
pub proof fn readiness_adds_up(
    sessions: Seq<DriverSessionModel>,
    token: RegistrationToken,
    readiness: Readiness,
    i: int,
)
    requires
        0 <= i < sessions.len(),
    ensures
        ({
            let s = sessions[i];
            let after = mark_one(sessions, token, readiness)[i];
            let meant = s.id == token.spec_session_id() && s.generation == token.spec_generation()
                && s.phase != SessionStatus::Closing;
            &&& mark_one(sessions, token, readiness).len() == sessions.len()
            &&& !meant ==> after == s
            &&& meant ==> after == (DriverSessionModel { ready: after.ready, ..s })
            &&& meant ==> after.ready.readable == (s.ready.readable || readiness.readable
                || readiness.hangup || readiness.error)
            &&& meant ==> after.ready.writable == (s.ready.writable || readiness.writable)
        }),
{
    reveal(DriverSessionModel::readied);
}

proof fn lemma_marked_tokens(
    sessions: Seq<DriverSessionModel>,
    ready: Seq<(RegistrationToken, Readiness)>,
)
    ensures
        mark_all(sessions, ready).len() == sessions.len(),
        forall|i: int, token: RegistrationToken|
            0 <= i < sessions.len() ==> #[trigger] matches_token(
                mark_all(sessions, ready)[i],
                token,
            ) == matches_token(sessions[i], token),
    decreases ready.len(),
{
    if ready.len() > 0 {
        reveal(DriverSessionModel::readied);
        lemma_marked_tokens(sessions, ready.drop_last());
        let before = mark_all(sessions, ready.drop_last());
        let after = mark_all(sessions, ready);
        assert forall|i: int, token: RegistrationToken|
            0 <= i < sessions.len() implies #[trigger] matches_token(after[i], token)
            == matches_token(sessions[i], token) by {
            assert(matches_token(before[i], token) == matches_token(sessions[i], token));
        }
    }
}

/// The tokens that are rejected are those of a list that stand for no session,
/// all of them, in order.
pub proof fn stale_tokens_are_told(
    sessions: Seq<DriverSessionModel>,
    ready: Seq<(RegistrationToken, Readiness)>,
)
    ensures
        forall|token: RegistrationToken|
            stale_tokens(sessions, ready).contains(token) <==> (exists|k: int|
                0 <= k < ready.len() && (#[trigger] ready[k]).0 == token) && !(exists|i: int|
                0 <= i < sessions.len() && #[trigger] matches_token(sessions[i], token)),
        stale_tokens(sessions, ready).len() <= ready.len(),
    decreases ready.len(),
{
    let stale = stale_tokens(sessions, ready);
    if ready.len() > 0 {
        let front = ready.drop_last();
        let before = stale_tokens(sessions, front);
        let last = ready.last().0;
        stale_tokens_are_told(sessions, front);
        lemma_marked_tokens(sessions, front);
        let marked = mark_all(sessions, front);
        let current = exists|i: int|
            0 <= i < sessions.len() && #[trigger] matches_token(sessions[i], last);
        assert(is_current(marked, last) == current) by {
            if current {
                let i = choose|i: int|
                    0 <= i < sessions.len() && #[trigger] matches_token(sessions[i], last);
                assert(matches_token(marked[i], last));
            }
            if is_current(marked, last) {
                let i = choose|i: int|
                    0 <= i < marked.len() && #[trigger] matches_token(marked[i], last);
                assert(matches_token(sessions[i], last));
            }
        }
        assert forall|token: RegistrationToken|
            stale.contains(token) <==> (exists|k: int|
                0 <= k < ready.len() && (#[trigger] ready[k]).0 == token) && !(exists|i: int|
                0 <= i < sessions.len() && #[trigger] matches_token(sessions[i], token)) by {
            if stale.contains(token) {
                let k = choose|k: int| 0 <= k < stale.len() && stale[k] == token;
                if k < before.len() {
                    assert(before[k] == token);
                    assert(before.contains(token));
                    let j = choose|j: int| 0 <= j < front.len() && (#[trigger] front[j]).0 == token;
                    assert(ready[j].0 == token);
                } else {
                    assert(ready[ready.len() - 1].0 == token);
                }
            }
            if (exists|k: int| 0 <= k < ready.len() && (#[trigger] ready[k]).0 == token) && !(
            exists|i: int| 0 <= i < sessions.len() && #[trigger] matches_token(sessions[i], token)) {
                let k = choose|k: int| 0 <= k < ready.len() && (#[trigger] ready[k]).0 == token;
                if k < front.len() {
                    assert(front[k].0 == token);
                    assert(before.contains(token));
                    let j = choose|j: int| 0 <= j < before.len() && before[j] == token;
                    assert(stale[j] == token);
                } else {
                    assert(stale[before.len() as int] == token);
                }
            }
        }
    }
}

/// Sessions are registered in the order in which they were created.
pub proof fn registrations_are_in_order(sessions: Seq<DriverSessionModel>)
    requires
        forall|i: int, j: int|
            0 <= i < j < sessions.len() ==> (#[trigger] sessions[i]).id.number() < (
            #[trigger] sessions[j]).id.number(),
    ensures
        forall|i: int, j: int|
            0 <= i < j < registered(sessions).len() ==> (
            #[trigger] registered(sessions)[i]).id.number() < (
            #[trigger] registered(sessions)[j]).id.number(),
        forall|i: int|
            0 <= i < registered(sessions).len() ==> sessions.contains(
                #[trigger] registered(sessions)[i],
            ),
    decreases sessions.len(),
{
    if sessions.len() > 0 {
        let front = sessions.drop_last();
        let before = registered(front);
        let all = registered(sessions);
        assert forall|i: int, j: int| 0 <= i < j < front.len() implies (
        #[trigger] front[i]).id.number() < (#[trigger] front[j]).id.number() by {
            assert(sessions[i].id.number() < sessions[j].id.number());
        }
        registrations_are_in_order(front);
        assert forall|i: int| 0 <= i < before.len() implies sessions.contains(#[trigger] before[i])
            && before[i].id.number() < sessions.last().id.number() by {
            assert(front.contains(before[i]));
            let k = choose|k: int| 0 <= k < front.len() && front[k] == before[i];
            assert(sessions[k] == before[i]);
            assert(sessions[k].id.number() < sessions[sessions.len() - 1].id.number());
        }
        assert forall|i: int| 0 <= i < all.len() implies sessions.contains(#[trigger] all[i]) by {
            if i < before.len() {
                assert(all[i] == before[i]);
            } else {
                assert(all[i] == sessions[sessions.len() - 1]);
            }
        }
    }
}

/// When a session has work, and what it should be registered for: to be read
/// while its stream is open and no reply waits, and to be written while
/// anything waits.
pub proof fn work_and_interests(s: DriverSessionModel)
    requires
        s.wf(),
    ensures
        s.wanted().readable <==> s.phase == SessionStatus::Live && s.pending.len() == 0,
        s.wanted().writable <==> s.phase != SessionStatus::Closing && (s.unsent.len() > 0
            || s.pending.len() > 0),
        s.phase == SessionStatus::Closing ==> !s.has_work(),
        s.phase != SessionStatus::Closing && s.pending.len() == 0 && s.unsent.len() > 0
            ==> s.has_work() == s.ready.writable,
        s.phase != SessionStatus::Closing && s.pending.len() == 0 && s.unsent.len() == 0 ==> (
        s.has_work() <==> s.unread.len() > 0 || (s.ready.readable && s.phase
            != SessionStatus::Eof)),
        s.phase != SessionStatus::Closing && s.pending.len() > 0 && s.unsent.len()
            + s.pending.len() <= s.limits.write_queue ==> s.has_work(),
        s.phase != SessionStatus::Closing && s.pending.len() > 0 && s.unsent.len()
            + s.pending.len() > s.limits.write_queue && s.unsent.len() > 0 ==> s.has_work()
            == s.ready.writable,
{
}

/// A closed session holds no bytes and is registered for nothing; what the
/// terminal shows stays. Its old tokens are worth nothing any more.
pub proof fn closing_discards(s: DriverSessionModel)
    requires
        s.phase != SessionStatus::Closing,
        s.generation < u64::MAX,
    ensures
        ({
            let after = s.close();
            &&& after.phase == SessionStatus::Closing
            &&& after.generation != s.generation
            &&& after.unsent.len() == 0 && after.unread.len() == 0 && after.pending.len() == 0
            &&& !after.ready.readable && !after.ready.writable
            &&& !after.paused
            &&& after == (DriverSessionModel {
                phase: after.phase,
                generation: after.generation,
                unsent: after.unsent,
                unread: after.unread,
                pending: after.pending,
                ready: after.ready,
                paused: after.paused,
                ..s
            })
        }),
{
    reveal(DriverSessionModel::close);
}

/// A new session is live and empty, with the limits of its driver and the
/// history bounds of its own, and begins with writing.
pub proof fn sessions_begin_empty(
    id: SessionId,
    fd: i32,
    session: SessionConfig,
    config: DriverConfig,
)
    requires
        session.size.addressable(),
    ensures
        ({
            let s = new_session(id, fd, session, config);
            &&& s.id == id && s.fd == fd && s.generation == 0
            &&& s.phase == SessionStatus::Live
            &&& s.unread.len() == 0 && s.unsent.len() == 0 && s.pending.len() == 0
            &&& !s.ready.readable && !s.ready.writable && !s.paused && !s.exit_event_sent
            &&& s.direction == Direction::Write
            &&& s.revision == 0
            &&& is_new(s.term, session.size)
            &&& s.limits.scrollback == session.scrollback_limits
            &&& s.limits.write_queue == config.write_queue_limit
            &&& s.limits.pending_reply == config.pending_reply_limit
            &&& s.limits.read_buffer == config.read_buffer_limit
            &&& s.limits.read_bytes == config.read_byte_quantum
            &&& s.limits.read_syscalls == config.read_syscall_quantum
            &&& s.limits.write_bytes == config.write_byte_quantum
            &&& s.limits.write_syscalls == config.write_syscall_quantum
        }),
{
}

/// Resizing the terminal of a session, or reporting its exit, changes nothing
/// else of it and nothing of the others.
pub proof fn one_session_changes(d: DriverModel, id: SessionId, size: Size, i: int)
    requires
        d.has(id),
        0 <= i < d.sessions.len(),
    ensures
        ({
            let s = d.sessions[i];
            let meant = i == d.position(id);
            let resized = d.resized(id, size);
            let told = d.reported(id);
            let closed = d.closed(id);
            &&& resized.sessions.len() == d.sessions.len() && told.sessions.len()
                == d.sessions.len() && closed.sessions.len() == d.sessions.len()
            &&& !meant ==> resized.sessions[i] == s && told.sessions[i] == s && closed.sessions[i]
                == s
            &&& meant ==> resized.sessions[i] == (DriverSessionModel {
                term: s.term.resize(size),
                revision: if size == s.term.size {
                    s.revision
                } else {
                    s.revision.wrapping_add(1)
                },
                ..s
            })
            &&& meant ==> told.sessions[i] == (DriverSessionModel { exit_event_sent: true, ..s })
            &&& resized.cursor == d.cursor && told.cursor == d.cursor && closed.cursor == d.cursor
            &&& resized.next_id == d.next_id && told.next_id == d.next_id && closed.next_id
                == d.next_id
        }),
{
}

/// What a drive keeps of every session: whose it is, and the order of its
/// output.
pub open spec fn keeps_sessions(a: DriverModel, b: DriverModel) -> bool {
    &&& b.sessions.len() == a.sessions.len()
    &&& b.config == a.config
    &&& b.next_id == a.next_id
    &&& forall|i: int|
        0 <= i < a.sessions.len() ==> is_same(a.sessions[i], #[trigger] b.sessions[i])
            && keeps_output(a.sessions[i], b.sessions[i])
}

proof fn lemma_visit_keeps(d: DriverModel, c: DriveModel)
    requires
        c.left > 0 ==> 0 <= c.index < d.sessions.len(),
    ensures
        keeps_sessions(d, visit(d, c).driver),
    decreases c.left, 2int,
{
    let s = d.sessions[c.index];
    if c.left > 0 {
        if s.has_work() && !c.budget.is_spent() {
            let step = begin_turn(s, c.budget);
            assert(goes_on_in_order(s, first_turn(c.budget, s.direction), step)) by {
                reveal(begin_turn);
                lemma_round_in_order(s, first_turn(c.budget, s.direction));
            }
            lemma_step_keeps(d, c, step);
            let after = visit(d, c).driver;
            assert(after == take_step(d, c, step).driver);
            let mid = d.with_session(c.index, step.session);
            assert forall|i: int| 0 <= i < d.sessions.len() implies is_same(
                d.sessions[i],
                #[trigger] after.sessions[i],
            ) && keeps_output(d.sessions[i], after.sessions[i]) by {
                assert(is_same(mid.sessions[i], after.sessions[i]));
            }
        } else {
            lemma_visit_keeps(d, c.onward(d.sessions.len() as int));
        }
    }
}

proof fn lemma_step_keeps(d: DriverModel, c: DriveModel, step: TurnStep)
    requires
        0 <= c.index < d.sessions.len(),
    ensures
        keeps_sessions(d.with_session(c.index, step.session), take_step(d, c, step).driver),
    decreases c.left, 1int,
{
    let d1 = d.with_session(c.index, step.session).dirtied(step.turn.dirty);
    let c1 = DriveModel { turn: step.turn, ..c };
    if step.action is Idle {
        lemma_end_keeps(d1, c1);
    }
}

proof fn lemma_end_keeps(d: DriverModel, c: DriveModel)
    requires
        0 <= c.index < d.sessions.len(),
    ensures
        keeps_sessions(d, end_turn(d, c).driver),
    decreases c.left, 0int,
{
    let count = d.sessions.len() as int;
    let s = d.sessions[c.index];
    let next = c.onward(count);
    let d1 = DriverModel {
        cursor: Some(d.sessions[next.index].id),
        ..d.with_session(c.index, DriverSessionModel { direction: c.turn.direction, ..s })
    };
    let c1 = DriveModel { budget: c.turn.budget, processed: c.processed.push(s.id), ..next };
    if c.left > 0 && !c.turn.budget.is_spent() {
        lemma_visit_keeps(d1, c1);
        let after = visit(d1, c1).driver;
        assert forall|i: int| 0 <= i < d.sessions.len() implies is_same(
            d.sessions[i],
            #[trigger] after.sessions[i],
        ) && keeps_output(d.sessions[i], after.sessions[i]) by {
            assert(is_same(d1.sessions[i], after.sessions[i]));
        }
    }
}

/// What a drive writes for a session comes off the queue of that session, and
/// what it reads for one reaches the terminal of that one, behind all that was
/// read before. No other session gains or loses a byte of output.
pub proof fn drives_keep_streams_apart(
    d: DriverModel,
    c: DriveModel,
    bytes: &[u8],
    n: usize,
    i: int,
)
    requires
        0 <= c.index < d.sessions.len(),
        0 <= i < d.sessions.len(),
        0 < bytes@.len() <= c.turn.budget.bytes,
        n <= c.turn.budget.bytes,
        n <= d.sessions[c.index].unsent.len(),
        c.turn.budget.syscalls > 0,
        c.turn.direction == Direction::Write,
        c.turn.rounds <= 1,
    ensures
        ({
            let s = d.sessions[i];
            let read = drive_after_read(d, c, ReadOutcome::Bytes(bytes)).driver.sessions[i];
            let written = drive_after_write(d, c, WriteOutcome::Wrote(n)).driver.sessions[i];
            &&& is_same(s, read) && is_same(s, written)
            &&& read.term.fed + read.unread == (if i == c.index {
                s.term.fed + s.unread + bytes@
            } else {
                s.term.fed + s.unread
            })
            &&& written.term.fed + written.unread == s.term.fed + s.unread
        }),
{
    let s = d.sessions[c.index];
    turns_read_in_order(s, c.turn, bytes);
    turns_write_in_order(s, c.turn, n);
    let read = turn_after_read(s, c.turn, ReadOutcome::Bytes(bytes));
    let written = turn_after_write(s, c.turn, WriteOutcome::Wrote(n));
    lemma_step_keeps(d, c, read);
    lemma_step_keeps(d, c, written);
    let mid_read = d.with_session(c.index, read.session);
    let mid_written = d.with_session(c.index, written.session);
    let after_read = drive_after_read(d, c, ReadOutcome::Bytes(bytes)).driver;
    let after_written = drive_after_write(d, c, WriteOutcome::Wrote(n)).driver;
    assert(is_same(mid_read.sessions[i], after_read.sessions[i]));
    assert(is_same(mid_written.sessions[i], after_written.sessions[i]));
}

/// A drive that begins changes no session but for its readiness, whose
/// registration it is in any case, and for what it decodes in order.
pub proof fn drives_begin_in_order(
    d: DriverModel,
    ready: Seq<(RegistrationToken, Readiness)>,
    i: int,
)
    requires
        d.wf(),
        0 <= i < d.sessions.len(),
    ensures
        ({
            let s = d.sessions[i];
            let after = begin_drive(d, ready).driver.sessions[i];
            &&& keeps_output(s, after)
            &&& is_same(DriverSessionModel { ready: after.ready, ..s }, after)
            &&& s.ready.readable ==> after.ready.readable
            &&& s.ready.writable ==> after.ready.writable
            &&& forall|k: int|
                #![trigger ready[k]]
                0 <= k < ready.len() && matches_token(s, ready[k].0) ==> (ready[k].1.writable
                    ==> after.ready.writable) && (ready[k].1.readable || ready[k].1.hangup
                    || ready[k].1.error ==> after.ready.readable)
            &&& after.ready.writable ==> s.ready.writable || exists|k: int|
                0 <= k < ready.len() && matches_token(s, (#[trigger] ready[k]).0)
                    && ready[k].1.writable
            &&& after.ready.readable ==> s.ready.readable || exists|k: int|
                0 <= k < ready.len() && matches_token(s, (#[trigger] ready[k]).0) && (
                ready[k].1.readable || ready[k].1.hangup || ready[k].1.error)
        }),
{
    let marked = DriverModel { sessions: mark_all(d.sessions, ready), ..d };
    let budget = PumpBudget {
        bytes: d.config.drive_byte_budget,
        syscalls: d.config.drive_syscall_budget,
    };
    let c = DriveModel {
        budget,
        index: first_index(marked),
        left: d.sessions.len() as int,
        turn: first_turn(budget, Direction::Write),
        processed: Seq::empty(),
        stale_tokens: stale_tokens(d.sessions, ready),
    };
    lemma_marked_tokens(d.sessions, ready);
    lemma_marked_readiness(d.sessions, ready, i);
    lemma_visit_keeps(marked, c);
    let after = begin_drive(d, ready).driver;
    assert(is_same(marked.sessions[i], after.sessions[i]));
}

proof fn lemma_marked_readiness(
    sessions: Seq<DriverSessionModel>,
    ready: Seq<(RegistrationToken, Readiness)>,
    i: int,
)
    requires
        0 <= i < sessions.len(),
    ensures
        ({
            let s = sessions[i];
            let after = mark_all(sessions, ready)[i];
            &&& after == (DriverSessionModel { ready: after.ready, ..s })
            &&& s.ready.readable ==> after.ready.readable
            &&& s.ready.writable ==> after.ready.writable
            &&& forall|k: int|
                #![trigger ready[k]]
                0 <= k < ready.len() && matches_token(s, ready[k].0) ==> (ready[k].1.writable
                    ==> after.ready.writable) && (ready[k].1.readable || ready[k].1.hangup
                    || ready[k].1.error ==> after.ready.readable)
            &&& after.ready.writable ==> s.ready.writable || exists|k: int|
                0 <= k < ready.len() && matches_token(s, (#[trigger] ready[k]).0)
                    && ready[k].1.writable
            &&& after.ready.readable ==> s.ready.readable || exists|k: int|
                0 <= k < ready.len() && matches_token(s, (#[trigger] ready[k]).0) && (
                ready[k].1.readable || ready[k].1.hangup || ready[k].1.error)
        }),
    decreases ready.len(),
{
    if ready.len() > 0 {
        let front = ready.drop_last();
        let (token, readiness) = ready.last();
        let before = mark_all(sessions, front);
        lemma_marked_tokens(sessions, front);
        lemma_marked_readiness(sessions, front, i);
        readiness_adds_up(before, token, readiness, i);
        let s = sessions[i];
        let mid = before[i];
        let after = mark_all(sessions, ready)[i];
        assert(ready[ready.len() - 1] == ready.last());
        assert(matches_token(mid, token) == matches_token(s, token));
        assert forall|k: int|
            #![trigger ready[k]]
            0 <= k < ready.len() && matches_token(s, ready[k].0) implies (ready[k].1.writable
            ==> after.ready.writable) && (ready[k].1.readable || ready[k].1.hangup
            || ready[k].1.error ==> after.ready.readable) by {
            if k < front.len() {
                assert(front[k] == ready[k]);
            }
        }
        if after.ready.writable && !s.ready.writable && mid.ready.writable {
            let k = choose|k: int|
                0 <= k < front.len() && matches_token(s, (#[trigger] front[k]).0)
                    && front[k].1.writable;
            assert(front[k] == ready[k]);
        }
        if after.ready.readable && !s.ready.readable && mid.ready.readable {
            let k = choose|k: int|
                0 <= k < front.len() && matches_token(s, (#[trigger] front[k]).0) && (
                front[k].1.readable || front[k].1.hangup || front[k].1.error);
            assert(front[k] == ready[k]);
        }
    }
}

/// Directions take turns: a phase that got anywhere leaves the other direction
/// for the next turn, and one that got nowhere leaves its own.
pub proof fn directions_take_turns(s: DriverSessionModel, t: Turn, bytes: &[u8], n: usize)
    requires
        t.rounds == 0,
        n > 0,
        bytes@.len() > 0,
    ensures
        ({
            let written = turn_after_write(s, t, WriteOutcome::Wrote(n));
            let read = turn_after_read(s, t, ReadOutcome::Bytes(bytes));
            let blocked = turn_after_write(s, t, WriteOutcome::WouldBlock);
            let dry = turn_after_read(s, t, ReadOutcome::WouldBlock);
            &&& t.direction == Direction::Write && written.action is Idle
                ==> written.turn.direction == Direction::Read
            &&& t.direction == Direction::Read && read.action is Idle ==> read.turn.direction
                == Direction::Write
            &&& !t.progressed ==> blocked.action is Idle && blocked.turn.direction == t.direction
            &&& !t.progressed ==> dry.action is Idle && dry.turn.direction == t.direction
        }),
{
    lemma_direction_after_write(s, t, n);
    lemma_direction_after_read(s, t, bytes);
    if !t.progressed {
        lemma_direction_when_blocked(s, t);
    }
}

proof fn lemma_direction_when_blocked(s: DriverSessionModel, t: Turn)
    requires
        !t.progressed,
    ensures
        turn_after_write(s, t, WriteOutcome::WouldBlock).action is Idle,
        turn_after_write(s, t, WriteOutcome::WouldBlock).turn.direction == t.direction,
        turn_after_read(s, t, ReadOutcome::WouldBlock).action is Idle,
        turn_after_read(s, t, ReadOutcome::WouldBlock).turn.direction == t.direction,
{
    reveal(turn_after_write);
    reveal(turn_after_read);
}

proof fn lemma_direction_after_write(s: DriverSessionModel, t: Turn, n: usize)
    requires
        t.rounds == 0,
        n > 0,
    ensures
        ({
            let step = turn_after_write(s, t, WriteOutcome::Wrote(n));
            step.action is Idle ==> step.turn.direction == t.direction.other()
        }),
{
    let moved = Turn {
        budget: t.budget.after(n as int, 1),
        attempts: (t.attempts + 1) as usize,
        progressed: true,
        moved: as_count((t.moved + n) as nat),
        dirty: t.dirty || n == s.unsent.len(),
        ..t
    };
    assert(turn_after_write(s, t, WriteOutcome::Wrote(n)) == turn_keep_writing(
        s.wrote(n as int),
        moved,
    )) by {
        reveal(turn_after_write);
    }
    lemma_last_direction(s.wrote(n as int), moved);
}

proof fn lemma_direction_after_read(s: DriverSessionModel, t: Turn, bytes: &[u8])
    requires
        t.rounds == 0,
        bytes@.len() > 0,
    ensures
        ({
            let step = turn_after_read(s, t, ReadOutcome::Bytes(bytes));
            step.action is Idle ==> step.turn.direction == t.direction.other()
        }),
{
    let full = s.received(bytes@);
    let taken = Turn {
        budget: t.budget.after(bytes@.len() as int, 1),
        attempts: (t.attempts + 1) as usize,
        progressed: true,
        moved: as_count((t.moved + bytes@.len()) as nat),
        ..t
    };
    let decoded = full.decode(taken.budget.bytes as int);
    assert(turn_after_read(s, t, ReadOutcome::Bytes(bytes)) == turn_keep_reading(
        decoded,
        turn_decoded(full, taken),
    )) by {
        reveal(turn_after_read);
    }
    lemma_last_direction(decoded, turn_decoded(full, taken));
}

proof fn lemma_last_direction(s: DriverSessionModel, t: Turn)
    requires
        t.rounds == 0,
        t.progressed,
    ensures
        turn_end(s, t).turn.direction == t.direction.other(),
        turn_keep_writing(s, t).action is Idle ==> turn_keep_writing(s, t).turn.direction
            == t.direction.other(),
        turn_keep_reading(s, t).action is Idle ==> turn_keep_reading(s, t).turn.direction
            == t.direction.other(),
{
    let turned = Turn { direction: t.direction.other(), ..t };
    assert(turn_round(s, turned).turn == turned);
}

/// A turn serves both directions: once all that waited is written it goes on
/// to read, and once nothing is left to read it goes on to write, as long as
/// the budget lasts and the phase before got anywhere.
#[verifier::spinoff_prover]
pub proof fn turns_serve_both_directions(s: DriverSessionModel, budget: PumpBudget, t: Turn)
    requires
        s.phase == SessionStatus::Live,
        s.ready.readable,
        s.unsent.len() > 0,
        s.pending.len() == 0,
        s.unread.len() == 0,
        !s.paused,
        s.unsent.len() <= s.limits.write_bytes,
        s.unsent.len() < budget.bytes,
        budget.syscalls > 1,
        s.limits.write_syscalls > 0,
        s.limits.read_bytes > 0,
        s.limits.read_syscalls > 0,
        s.limits.read_buffer > 0,
        t.direction == Direction::Read,
        t.rounds == begin_turn(
            DriverSessionModel { direction: Direction::Read, ..s },
            budget,
        ).turn.rounds,
        t.progressed,
        t.budget.bytes > 0,
        t.budget.syscalls > 1,
    ensures
        ({
            let writing = DriverSessionModel { direction: Direction::Write, ..s };
            let n = s.unsent.len() as usize;
            let first = begin_turn(writing, budget);
            let second = turn_after_write(first.session, first.turn, WriteOutcome::Wrote(n));
            let dry = turn_after_read(s, t, ReadOutcome::WouldBlock);
            &&& first.action == TurnAction::Write(n)
            &&& first.session == writing
            &&& second.action is Read
            &&& second.session.unsent.len() == 0
            &&& dry.action is Write
        }),
{
    let writing = DriverSessionModel { direction: Direction::Write, ..s };
    let reading = DriverSessionModel { direction: Direction::Read, ..s };
    let n = s.unsent.len() as usize;
    let first = begin_turn(writing, budget);
    lemma_first_phase(writing, budget);
    lemma_first_phase(reading, budget);
    let left = first.session.wrote(n as int);
    assert(left == (DriverSessionModel { unsent: Seq::empty(), ..writing })) by {
        reveal(DriverSessionModel::wrote);
        assert(s.unsent.skip(n as int) =~= Seq::empty());
    }
    let moved = Turn {
        budget: first.turn.budget.after(n as int, 1),
        attempts: (first.turn.attempts + 1) as usize,
        progressed: true,
        moved: as_count((first.turn.moved + n) as nat),
        dirty: first.turn.dirty || n == first.session.unsent.len(),
        ..first.turn
    };
    assert(turn_after_write(first.session, first.turn, WriteOutcome::Wrote(n))
        == turn_keep_writing(left, moved)) by {
        reveal(turn_after_write);
    }
    lemma_goes_on_to_read(left, moved);
    let blocked = s.not_readable();
    assert(blocked == (DriverSessionModel {
        ready: Readiness { readable: false, ..s.ready },
        ..s
    })) by {
        reveal(DriverSessionModel::not_readable);
    }
    let tried = Turn { budget: t.budget.after(0, 1), attempts: (t.attempts + 1) as usize, ..t };
    assert(turn_after_read(s, t, ReadOutcome::WouldBlock) == turn_end(blocked, tried)) by {
        reveal(turn_after_read);
    }
    lemma_goes_on_to_write(blocked, tried);
}

#[verifier::spinoff_prover]
proof fn lemma_goes_on_to_read(s: DriverSessionModel, t: Turn)
    requires
        s.phase == SessionStatus::Live,
        s.ready.readable,
        !s.paused,
        s.unsent.len() == 0,
        s.unread.len() == 0,
        s.limits.read_bytes > 0,
        s.limits.read_syscalls > 0,
        s.limits.read_buffer > 0,
        t.direction == Direction::Write,
        t.rounds == 1,
        t.progressed,
        t.budget.bytes > 0,
        t.budget.syscalls > 0,
    ensures
        turn_keep_writing(s, t).action is Read,
        turn_keep_writing(s, t).session == s,
{
    let turned = Turn { direction: Direction::Read, ..t };
    let begun = Turn { rounds: 0, progressed: false, attempts: 0, moved: 0, ..turned };
    assert(turn_keep_writing(s, t) == turn_end(s, t));
    assert(turn_end(s, t) == turn_round(s, turned));
    assert(s.decode(begun.budget.bytes as int) == s);
    assert(turn_decoded(s, begun) == begun);
    assert(turn_round(s, turned) == turn_read(s, begun));
    assert(turn_read(s, begun) == turn_keep_reading(s, begun));
}

#[verifier::spinoff_prover]
proof fn lemma_goes_on_to_write(s: DriverSessionModel, t: Turn)
    requires
        s.phase == SessionStatus::Live,
        s.unsent.len() > 0,
        s.pending.len() == 0,
        s.limits.write_bytes > 0,
        s.limits.write_syscalls > 0,
        t.direction == Direction::Read,
        t.rounds == 1,
        t.progressed,
        t.budget.bytes > 0,
        t.budget.syscalls > 0,
    ensures
        turn_end(s, t).action is Write,
{
    let turned = Turn { direction: Direction::Write, ..t };
    let begun = Turn { rounds: 0, progressed: false, attempts: 0, moved: 0, ..turned };
    assert(turn_end(s, t) == turn_round(s, turned));
    assert(turn_round(s, turned) == turn_write(s, begun));
    assert(turn_write(s, begun) == turn_keep_writing(s, begun));
}

#[verifier::spinoff_prover]
proof fn lemma_first_phase(s: DriverSessionModel, budget: PumpBudget)
    requires
        budget.bytes > 0,
        budget.syscalls > 0,
        s.works_on(s.direction),
        s.phase == SessionStatus::Live,
        s.ready.readable,
        s.unsent.len() > 0,
        s.pending.len() == 0,
        s.unread.len() == 0,
        !s.paused,
        s.limits.write_bytes > 0,
        s.limits.write_syscalls > 0,
        s.limits.read_bytes > 0,
        s.limits.read_syscalls > 0,
        s.limits.read_buffer > 0,
    ensures
        ({
            let step = begin_turn(s, budget);
            &&& step.session == s
            &&& step.turn.rounds == 1
            &&& step.turn.direction == s.direction
            &&& step.turn.budget == budget
            &&& step.turn.moved == 0
            &&& s.direction == Direction::Write ==> step.action == TurnAction::Write(
                least(
                    least(s.limits.write_bytes as int, budget.bytes as int),
                    s.unsent.len() as int,
                ) as usize,
            )
        }),
{
    let t = first_turn(budget, s.direction);
    let begun = Turn { rounds: 1, ..t };
    assert(begin_turn(s, budget) == turn_round(s, t)) by {
        reveal(begin_turn);
    }
    if s.direction == Direction::Write {
        assert(turn_round(s, t) == turn_write(s, begun));
        assert(turn_write(s, begun) == turn_keep_writing(s, begun));
    } else {
        assert(s.decode(begun.budget.bytes as int) == s);
        assert(turn_decoded(s, begun) == begun);
        assert(turn_round(s, t) == turn_read(s, begun));
        assert(turn_read(s, begun) == turn_keep_reading(s, begun));
    }
}

/// A session that has nothing to do in either direction gets a turn that is over
/// at once: nothing moves, nothing is charged, and its next turn begins with
/// the other direction.
pub proof fn turns_without_work(s: DriverSessionModel, budget: PumpBudget)
    requires
        budget.bytes > 0,
        budget.syscalls > 0,
        s.unsent.len() == 0,
        s.pending.len() == 0,
        s.paused || s.phase != SessionStatus::Live || (s.unread.len() == 0 && !s.ready.readable),
    ensures
        ({
            let step = begin_turn(s, budget);
            &&& step.action is Idle
            &&& step.session == s
            &&& step.turn.budget == budget
            &&& !step.turn.dirty
            &&& s.direction == Direction::Write ==> step.turn.direction == Direction::Read
            &&& s.direction == Direction::Read ==> step.turn.direction == Direction::Write
        }),
{
    reveal(begin_turn);
}

/// A step that changed what a session should be registered for says so, and
/// what was said stays said.
pub open spec fn tells_changes(s: DriverSessionModel, t: Turn, step: TurnStep) -> bool {
    &&& t.dirty ==> step.turn.dirty
    &&& step.session.wanted() != s.wanted() ==> step.turn.dirty
}

proof fn lemma_decoding_tells(s: DriverSessionModel, t: Turn)
    ensures
        t.dirty ==> turn_decoded(s, t).dirty,
        s.decode(t.budget.bytes as int) != s ==> turn_decoded(s, t).dirty,
{
    let bytes = t.budget.bytes as int;
    if bytes > 0 && !s.paused && s.unread.len() > 0 {
        let taken = DriverSessionModel { unread: s.unread.skip(1), ..s };
        let next = taken.decode_byte(s.unread[0]);
        lemma_decode_byte(taken, s.unread[0]);
        decoding_goes_in_order(next, bytes - 1);
        assert(s.decode(bytes) == next.decode(bytes - 1));
    }
}

#[verifier::spinoff_prover]
proof fn lemma_round_tells(s: DriverSessionModel, t: Turn)
    ensures
        tells_changes(s, t, turn_round(s, t)),
    decreases t.rounds, 0int,
{
    let direction = if s.works_on(t.direction) {
        t.direction
    } else {
        t.direction.other()
    };
    let begun = Turn {
        direction,
        rounds: (t.rounds - 1) as u8,
        progressed: false,
        attempts: 0,
        moved: 0,
        ..t
    };
    if t.rounds > 0 && !t.budget.is_spent() && s.works_on(direction) {
        if direction == Direction::Write {
            let sent = Turn { progressed: true, dirty: true, ..begun };
            lemma_phase_tells(s, begun);
            lemma_phase_tells(s.readmit(), sent);
            assert(turn_round(s, t) == turn_write(s, begun));
        } else {
            let decoded = s.decode(begun.budget.bytes as int);
            lemma_decoding_tells(s, begun);
            lemma_phase_tells(decoded, turn_decoded(s, begun));
            assert(turn_round(s, t) == turn_read(s, begun));
        }
    }
}

#[verifier::spinoff_prover]
proof fn lemma_phase_tells(s: DriverSessionModel, t: Turn)
    ensures
        tells_changes(s, t, turn_end(s, t)),
        tells_changes(s, t, turn_keep_writing(s, t)),
        tells_changes(s, t, turn_keep_reading(s, t)),
    decreases t.rounds, 1int,
{
    lemma_round_tells(s, Turn { direction: t.direction.other(), ..t });
}

/// A turn tells when what a session should be registered for has changed, and
/// so does every step of it: when the queue runs empty or a reply joins it,
/// when a reply has to wait, when the stream has ended.
pub proof fn changed_interests_are_told(
    s: DriverSessionModel,
    t: Turn,
    budget: PumpBudget,
    wrote: WriteOutcome,
    read: ReadOutcome,
)
    requires
        wrote matches WriteOutcome::Wrote(n) ==> n <= s.unsent.len(),
    ensures
        begin_turn(s, budget).session.wanted() != s.wanted() ==> begin_turn(s, budget).turn.dirty,
        tells_changes(s, t, turn_after_write(s, t, wrote)),
        tells_changes(s, t, turn_after_read(s, t, read)),
{
    assert(tells_changes(s, first_turn(budget, s.direction), begin_turn(s, budget))) by {
        reveal(begin_turn);
        lemma_round_tells(s, first_turn(budget, s.direction));
    }
    lemma_write_tells(s, t, wrote);
    lemma_read_tells(s, t, read);
}

#[verifier::spinoff_prover]
proof fn lemma_write_tells(s: DriverSessionModel, t: Turn, outcome: WriteOutcome)
    requires
        outcome matches WriteOutcome::Wrote(n) ==> n <= s.unsent.len(),
    ensures
        tells_changes(s, t, turn_after_write(s, t, outcome)),
{
    reveal(turn_after_write);
    reveal(DriverSessionModel::wrote);
    reveal(DriverSessionModel::not_writable);
    let tried = Turn { budget: t.budget.after(0, 1), attempts: (t.attempts + 1) as usize, ..t };
    match outcome {
        WriteOutcome::Wrote(n) => {
            let moved = Turn {
                budget: t.budget.after(n as int, 1),
                progressed: true,
                moved: as_count((t.moved + n) as nat),
                dirty: t.dirty || n == s.unsent.len(),
                ..tried
            };
            lemma_phase_tells(s, tried);
            lemma_phase_tells(s.wrote(n as int), moved);
        },
        WriteOutcome::WouldBlock => lemma_phase_tells(s.not_writable(), tried),
        WriteOutcome::Interrupted => lemma_phase_tells(s, tried),
        _ => {},
    }
}

#[verifier::spinoff_prover]
proof fn lemma_read_tells(s: DriverSessionModel, t: Turn, outcome: ReadOutcome)
    ensures
        tells_changes(s, t, turn_after_read(s, t, outcome)),
{
    let step = turn_after_read(s, t, outcome);
    let tried = Turn { budget: t.budget.after(0, 1), attempts: (t.attempts + 1) as usize, ..t };
    let seen = Turn { dirty: true, ..tried };
    let blocked = s.not_readable();
    assert(blocked.wanted() == s.wanted()) by {
        reveal(DriverSessionModel::not_readable);
    }
    if let ReadOutcome::Bytes(bytes) = outcome {
        if bytes@.len() > 0 {
            let full = s.received(bytes@);
            assert(full.wanted() == s.wanted()) by {
                reveal(DriverSessionModel::received);
            }
            let moved = Turn {
                budget: t.budget.after(bytes@.len() as int, 1),
                progressed: true,
                moved: as_count((t.moved + bytes@.len()) as nat),
                ..tried
            };
            let decoded = full.decode(moved.budget.bytes as int);
            assert(step == turn_keep_reading(decoded, turn_decoded(full, moved))) by {
                reveal(turn_after_read);
            }
            lemma_decoding_tells(full, moved);
            lemma_phase_tells(decoded, turn_decoded(full, moved));
            assert(tells_changes(decoded, turn_decoded(full, moved), step));
        } else {
            assert(step == turn_end(s.ended(), seen)) by {
                reveal(turn_after_read);
            }
            lemma_phase_tells(s.ended(), seen);
        }
    } else {
        assert(step == match outcome {
            ReadOutcome::WouldBlock => turn_end(blocked, tried),
            ReadOutcome::Interrupted => turn_end(s, tried),
            ReadOutcome::Failed => turn_over(blocked, tried),
            _ => turn_end(s.ended(), seen),
        }) by {
            reveal(turn_after_read);
        }
        lemma_phase_tells(blocked, tried);
        lemma_phase_tells(s, tried);
        lemma_phase_tells(s.ended(), seen);
    }
}

/// A turn that is over leaves the session as it is, with the direction for its
/// next turn, on the list of those that had one, and the drive with what is
/// left of the turn's budget.
pub proof fn turns_end_with_their_session(d: DriverModel, c: DriveModel, step: TurnStep)
    requires
        0 <= c.index < d.sessions.len(),
        c.left == 1,
        step.action is Idle,
    ensures
        ({
            let after = take_step(d, c, step);
            &&& after.action is Done
            &&& after.driver.sessions == d.sessions.update(
                c.index,
                DriverSessionModel { direction: step.turn.direction, ..step.session },
            )
            &&& after.drive.processed == c.processed.push(step.session.id)
            &&& after.drive.budget == step.turn.budget
            &&& after.drive.stale_tokens == c.stale_tokens
            &&& after.driver.poll_dirty == (d.poll_dirty || step.turn.dirty)
        }),
{
    let d1 = d.with_session(c.index, step.session).dirtied(step.turn.dirty);
    let c1 = DriveModel { turn: step.turn, ..c };
    assert(take_step(d, c, step) == end_turn(d1, c1));
    let after = take_step(d, c, step);
    assert(after.driver.sessions =~= d.sessions.update(
        c.index,
        DriverSessionModel { direction: step.turn.direction, ..step.session },
    ));
}

/// The exits that are to be reported are those of the sessions whose exit has
/// not been reported, each once, in order.
pub proof fn exits_are_reported_once(sessions: Seq<DriverSessionModel>)
    requires
        forall|i: int, j: int|
            0 <= i < j < sessions.len() ==> (#[trigger] sessions[i]).id.number() < (
            #[trigger] sessions[j]).id.number(),
    ensures
        forall|id: SessionId|
            unreported_ids(sessions).contains(id) <==> exists|i: int|
                0 <= i < sessions.len() && (#[trigger] sessions[i]).id == id
                    && !sessions[i].exit_event_sent,
        forall|i: int, j: int|
            0 <= i < j < unreported_ids(sessions).len() ==> (
            #[trigger] unreported_ids(sessions)[i]).number() < (
            #[trigger] unreported_ids(sessions)[j]).number(),
    decreases sessions.len(),
{
    let ids = unreported_ids(sessions);
    if sessions.len() > 0 {
        let front = sessions.drop_last();
        let before = unreported_ids(front);
        let last = sessions.last();
        assert(sessions[sessions.len() - 1] == last);
        assert forall|i: int, j: int| 0 <= i < j < front.len() implies (
        #[trigger] front[i]).id.number() < (#[trigger] front[j]).id.number() by {
            assert(sessions[i].id.number() < sessions[j].id.number());
        }
        exits_are_reported_once(front);
        assert forall|id: SessionId| ids.contains(id) <==> exists|i: int|
            0 <= i < sessions.len() && (#[trigger] sessions[i]).id == id
                && !sessions[i].exit_event_sent by {
            if ids.contains(id) {
                let k = choose|k: int| 0 <= k < ids.len() && ids[k] == id;
                if k < before.len() {
                    assert(before[k] == id);
                    assert(before.contains(id));
                    let i = choose|i: int|
                        0 <= i < front.len() && (#[trigger] front[i]).id == id
                            && !front[i].exit_event_sent;
                    assert(sessions[i] == front[i]);
                }
            }
            if exists|i: int|
                0 <= i < sessions.len() && (#[trigger] sessions[i]).id == id
                    && !sessions[i].exit_event_sent {
                let i = choose|i: int|
                    0 <= i < sessions.len() && (#[trigger] sessions[i]).id == id
                        && !sessions[i].exit_event_sent;
                if i < front.len() {
                    assert(front[i].id == id);
                    assert(before.contains(id));
                    let k = choose|k: int| 0 <= k < before.len() && before[k] == id;
                    assert(ids[k] == id);
                } else {
                    assert(ids[before.len() as int] == id);
                }
            }
        }
        assert forall|k: int| 0 <= k < before.len() implies (#[trigger] before[k]).number()
            < last.id.number() by {
            assert(before.contains(before[k]));
            let i = choose|i: int|
                0 <= i < front.len() && (#[trigger] front[i]).id == before[k]
                    && !front[i].exit_event_sent;
            assert(sessions[i].id.number() < sessions[sessions.len() - 1].id.number());
        }
    }
}

/// A configuration is rejected for its first limit that is zero, else for the
/// first queue that cannot hold fourteen bytes, and for nothing else.
pub proof fn configurations_are_rejected_for_a_reason(c: DriverConfig)
    ensures
        c.first_error() is None <==> c.read_byte_quantum > 0 && c.read_syscall_quantum > 0
            && c.write_byte_quantum > 0 && c.write_syscall_quantum > 0 && c.drive_byte_budget > 0
            && c.drive_syscall_budget > 0 && c.read_buffer_limit > 0 && c.write_queue_limit >= 14
            && c.pending_reply_limit >= 14,
        c.first_error() is None <==> c.is_valid(),
        c.first_error() matches Some(ConfigError::HoldsNoReply(field)) ==> {
            &&& field == ConfigField::WriteQueueLimit ==> 0 < c.write_queue_limit < 14
            &&& field == ConfigField::PendingReplyLimit ==> 0 < c.pending_reply_limit < 14
            &&& field == ConfigField::WriteQueueLimit || field == ConfigField::PendingReplyLimit
        },
        c.first_error() == Some(ConfigError::Zero(ConfigField::ReadByteQuantum))
            <==> c.read_byte_quantum == 0,
        c.first_error() == Some(ConfigError::Zero(ConfigField::ReadSyscallQuantum))
            ==> c.read_syscall_quantum == 0,
        c.first_error() == Some(ConfigError::Zero(ConfigField::WriteByteQuantum))
            ==> c.write_byte_quantum == 0,
        c.first_error() == Some(ConfigError::Zero(ConfigField::WriteSyscallQuantum))
            ==> c.write_syscall_quantum == 0,
        c.first_error() == Some(ConfigError::Zero(ConfigField::DriveByteBudget))
            ==> c.drive_byte_budget == 0,
        c.first_error() == Some(ConfigError::Zero(ConfigField::DriveSyscallBudget))
            ==> c.drive_syscall_budget == 0,
        c.first_error() == Some(ConfigError::Zero(ConfigField::WriteQueueLimit))
            ==> c.write_queue_limit == 0,
        c.first_error() == Some(ConfigError::Zero(ConfigField::ReadBufferLimit))
            ==> c.read_buffer_limit == 0,
        c.first_error() == Some(ConfigError::Zero(ConfigField::PendingReplyLimit))
            ==> c.pending_reply_limit == 0,
{
    assert(c.value(ConfigField::ReadByteQuantum) == c.read_byte_quantum);
    assert(c.value(ConfigField::ReadSyscallQuantum) == c.read_syscall_quantum);
    assert(c.value(ConfigField::WriteByteQuantum) == c.write_byte_quantum);
    assert(c.value(ConfigField::WriteSyscallQuantum) == c.write_syscall_quantum);
    assert(c.value(ConfigField::DriveByteBudget) == c.drive_byte_budget);
    assert(c.value(ConfigField::DriveSyscallBudget) == c.drive_syscall_budget);
    assert(c.value(ConfigField::WriteQueueLimit) == c.write_queue_limit);
    assert(c.value(ConfigField::ReadBufferLimit) == c.read_buffer_limit);
    assert(c.value(ConfigField::PendingReplyLimit) == c.pending_reply_limit);
}

} // verus!
