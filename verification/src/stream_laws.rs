//! Where the bytes of a session go: what is queued reaches the child in order,
//! what the child puts out reaches the terminal in order, and all of it is
//! counted.

use vstd::prelude::*;

use crate::pty::ObservedExit;
use crate::sequence_laws::is_new;
use crate::session::{
    after_read, after_write, begin_pump, end_phase, keep_reading, keep_writing, next_round, roused,
    start_reading, stop, Direction, Pump, PumpAction, PumpBudget, PumpStep, ReadOutcome,
    SessionCounters, SessionModel, SessionStatus, WriteOutcome,
};
use crate::session_metrics::SessionPeaks;
use crate::size::Size;
use crate::terminal_laws::feeding_keeps_the_size;
use crate::terminal_model::TerminalModel;
use crate::terminal_scrollback::cell_total;

verus! {

/// A count that grew, and that stays at the largest one there is.
pub open spec fn plus(count: u64, more: int) -> int {
    if count + more <= 0xffff_ffff_ffff_ffff {
        count + more
    } else {
        0xffff_ffff_ffff_ffff
    }
}

/// The lifecycle of the session, and what it knows of blocking, are the same.
pub open spec fn keeps_state(a: SessionModel, b: SessionModel) -> bool {
    &&& b.phase == a.phase
    &&& b.exit == a.exit
    &&& b.read_would_block == a.read_would_block
    &&& b.write_would_block == a.write_would_block
}

/// Bytes that were read went to the terminal in order, if anything: what the
/// terminal was fed, and behind it what is still unread, are the same.
pub open spec fn keeps_output(a: SessionModel, b: SessionModel) -> bool {
    &&& b.term.fed + b.unread == a.term.fed + a.unread
    &&& b.unread.len() <= a.unread.len()
}

/// What waits to be written is still there, in front.
pub open spec fn keeps_queue(a: SessionModel, b: SessionModel) -> bool {
    a.unsent.is_prefix_of(b.unsent)
}

/// What was decoded is counted, and what it was replied to.
pub open spec fn counts_decoding(a: SessionModel, b: SessionModel) -> bool {
    &&& b.counters.terminal_bytes_processed == plus(
        a.counters.terminal_bytes_processed,
        a.unread.len() - b.unread.len(),
    )
    &&& b.counters.terminal_reply_bytes_generated == plus(
        a.counters.terminal_reply_bytes_generated,
        b.unsent.len() - a.unsent.len(),
    )
    &&& b.counters == (SessionCounters {
        terminal_bytes_processed: b.counters.terminal_bytes_processed,
        terminal_reply_bytes_generated: b.counters.terminal_reply_bytes_generated,
        pump_budget_exhaustions: b.counters.pump_budget_exhaustions,
        ..a.counters
    })
}

/// A byte is fed to the terminal with nothing else. A reply goes to the end of
/// the write queue, as the reply that is pending. Both are counted.
pub proof fn decoding_a_byte(m: SessionModel)
    requires
        m.unread.len() > 0,
    ensures
        ({
            let fed = m.term.feed(seq![m.unread[0]]);
            let after = m.decode_one();
            &&& after.term == (TerminalModel { replies: Seq::empty(), ..fed })
            &&& after.unread == m.unread.skip(1)
            &&& after.unsent == m.unsent + fed.replies
            &&& after.reply == if fed.replies.len() > 0 {
                Some((m.unsent.len() as int, (m.unsent.len() + fed.replies.len()) as int))
            } else {
                m.reply
            }
            &&& after.revision == if m.term.feed_shows(seq![m.unread[0]]) {
                m.revision.wrapping_add(1)
            } else {
                m.revision
            }
            &&& keeps_state(m, after)
            &&& after.direction == m.direction
            &&& counts_decoding(m, after)
            &&& after.counters.pump_budget_exhaustions == m.counters.pump_budget_exhaustions
        }),
{
    reveal(SessionModel::decode_one);
    reveal(SessionModel::feed_next);
    reveal(SessionModel::queue_reply);
    let fed = m.term.feed(seq![m.unread[0]]);
    if fed.replies.len() == 0 {
        assert(m.unsent + fed.replies =~= m.unsent);
    }
}

/// Decoding takes the unread bytes in order, as many as it may, and stops early
/// only where a reply is pending or nothing is left.
pub proof fn decoding_goes_in_order(m: SessionModel, bytes: int)
    ensures
        ({
            let after = m.decode(bytes);
            &&& keeps_output(m, after)
            &&& keeps_queue(m, after)
            &&& keeps_state(m, after)
            &&& counts_decoding(m, after)
            &&& bytes >= 0 ==> m.unread.len() - after.unread.len() <= bytes
            &&& bytes > 0 ==> after.reply is Some || after.unread.len() == 0 || m.unread.len()
                - after.unread.len() == bytes
            &&& bytes <= 0 || m.reply is Some ==> after == m
        }),
    decreases bytes,
{
    assert(m.unsent.subrange(0, m.unsent.len() as int) =~= m.unsent);
    if bytes > 0 && !m.is_paused() && m.unread.len() > 0 {
        let next = m.decode_one();
        let byte = m.unread[0];
        decoding_a_byte(m);
        feeding_keeps_the_size(m.term, seq![byte]);
        decoding_goes_in_order(next, bytes - 1);
        assert(m.term.fed + seq![byte] + m.unread.skip(1) =~= m.term.fed + m.unread);
        let after = m.decode(bytes);
        assert(after == next.decode(bytes - 1));
        assert(after.unsent.subrange(0, m.unsent.len() as int) =~= m.unsent);
    }
}

/// What holds of a pump that went on without a call: nothing happened but that
/// output went to the terminal in order, was counted, and was charged to the
/// budget.
pub open spec fn goes_on_in_order(s: SessionModel, p: Pump, step: PumpStep) -> bool {
    &&& keeps_output(s, step.session)
    &&& keeps_queue(s, step.session)
    &&& keeps_state(s, step.session)
    &&& counts_decoding(s, step.session)
    &&& step.pump.budget.bytes == p.budget.bytes - (s.unread.len() - step.session.unread.len())
    &&& step.pump.budget.syscalls == p.budget.syscalls
    &&& step.action is Done || step.pump.rounds < p.rounds || (step.pump.rounds == p.rounds
        && step.session.unsent == s.unsent)
}

proof fn lemma_stop_in_order(s: SessionModel, p: Pump, exhausted: bool)
    ensures
        goes_on_in_order(s, p, stop(s, p, exhausted)),
        stop(s, p, exhausted).session.direction == p.direction,
        stop(s, p, exhausted).pump == p,
        stop(s, p, exhausted).action is Done,
{
    reveal(stop);
    assert(s.unsent.subrange(0, s.unsent.len() as int) =~= s.unsent);
}

proof fn lemma_round_in_order(s: SessionModel, p: Pump)
    ensures
        goes_on_in_order(s, p, next_round(s, p)),
        next_round(s, p).action is Done || next_round(s, p).pump.rounds < p.rounds,
    decreases p.rounds, 0int,
{
    let direction = if s.has_work(p.direction) {
        p.direction
    } else {
        p.direction.other()
    };
    let begun = Pump { direction, rounds: (p.rounds - 1) as u8, progressed: false, ..p };
    lemma_stop_in_order(s, p, p.budget.is_spent() && s.is_runnable());
    lemma_stop_in_order(s, begun, begun.budget.is_spent() && s.is_runnable());
    if p.rounds > 0 && !p.budget.is_spent() && s.has_work(direction) {
        if direction == Direction::Write {
            lemma_keep_in_order(s, begun);
            assert(next_round(s, p) == keep_writing(s, begun));
        } else {
            lemma_start_in_order(s, begun);
            assert(next_round(s, p) == start_reading(s, begun));
        }
    }
}

proof fn lemma_end_in_order(s: SessionModel, p: Pump)
    ensures
        goes_on_in_order(s, p, end_phase(s, p)),
    decreases p.rounds, 1int,
{
    let turned = Pump { direction: p.direction.other(), ..p };
    lemma_round_in_order(s, turned);
    lemma_stop_in_order(s, turned, turned.budget.is_spent() && s.is_runnable());
    lemma_stop_in_order(s, p, p.budget.is_spent() && s.is_runnable());
}

proof fn lemma_keep_in_order(s: SessionModel, p: Pump)
    ensures
        goes_on_in_order(s, p, keep_writing(s, p)),
        goes_on_in_order(s, p, keep_reading(s, p)),
    decreases p.rounds, 2int,
{
    lemma_end_in_order(s, p);
    assert(s.unsent.subrange(0, s.unsent.len() as int) =~= s.unsent);
}

proof fn lemma_start_in_order(s: SessionModel, p: Pump)
    ensures
        ({
            let step = start_reading(s, p);
            &&& keeps_output(s, step.session)
            &&& keeps_queue(s, step.session)
            &&& keeps_state(s, step.session)
            &&& counts_decoding(s, step.session)
            &&& step.pump.budget.bytes == p.budget.bytes - (s.unread.len()
                - step.session.unread.len())
            &&& step.pump.budget.syscalls == p.budget.syscalls
            &&& step.action is Done || step.pump.rounds <= p.rounds
        }),
    decreases p.rounds, 3int,
{
    let decoded = s.decode(p.budget.bytes as int);
    let n = s.decoded(p.budget.bytes as int);
    let charged = Pump { budget: p.budget.after(n, 0), progressed: p.progressed || n > 0, ..p };
    decoding_goes_in_order(s, p.budget.bytes as int);
    lemma_keep_in_order(decoded, charged);
    let step = keep_reading(decoded, charged);
    assert(start_reading(s, p) == step);
    assert(step.session.unsent.subrange(0, s.unsent.len() as int) =~= s.unsent) by {
        assert(decoded.unsent =~= step.session.unsent.subrange(0, decoded.unsent.len() as int));
    }
}

/// A write that a pump asked for takes the bytes that were written off the
/// front of the queue. What is left stays in front. The bytes are charged to
/// the budget with one call.
pub proof fn pumps_write_in_order(s: SessionModel, p: Pump, n: usize)
    requires
        n <= s.unsent.len(),
        n <= p.budget.bytes,
        p.budget.syscalls > 0,
    ensures
        ({
            let step = after_write(s, p, WriteOutcome::Wrote(n));
            let after = step.session;
            &&& s.unsent.skip(n as int).is_prefix_of(after.unsent)
            &&& step.action is Write && step.pump.rounds == p.rounds ==> s.unsent.take(n as int)
                + after.unsent == s.unsent
            &&& keeps_output(s, after)
            &&& keeps_state(s, after)
            &&& after.counters.write_syscalls == plus(s.counters.write_syscalls, 1)
            &&& after.counters.read_syscalls == s.counters.read_syscalls
            &&& after.counters.pty_bytes_read == s.counters.pty_bytes_read
            &&& after.counters.input_bytes_enqueued == s.counters.input_bytes_enqueued
            &&& after.counters.write_would_block == s.counters.write_would_block
            &&& after.counters.read_would_block == s.counters.read_would_block
            &&& after.counters.pump_calls == s.counters.pump_calls
            &&& step.pump.budget.syscalls == p.budget.syscalls - 1
            &&& step.pump.budget.bytes == p.budget.bytes - n - (s.unread.len()
                - after.unread.len())
        }),
{
    let tried = s.tried_write();
    assert(tried.unsent == s.unsent && tried.counters == (SessionCounters {
        write_syscalls: tried.counters.write_syscalls,
        ..s.counters
    }) && tried == (SessionModel { counters: tried.counters, ..s })
        && tried.counters.write_syscalls == plus(s.counters.write_syscalls, 1)) by {
        reveal(SessionModel::tried_write);
    }
    let left = tried.wrote(n as int);
    writing_takes_the_front(tried, n as int);
    assert(s.unsent.take(n as int) + s.unsent.skip(n as int) =~= s.unsent);
    assert(s.unsent.skip(0) =~= s.unsent);
    let charged = Pump { budget: p.budget.after(0, 1), ..p };
    let moved = Pump { budget: p.budget.after(n as int, 1), progressed: true, ..p };
    let step = after_write(s, p, WriteOutcome::Wrote(n));
    if n == 0 {
        lemma_end_in_order(tried, charged);
        assert(step == end_phase(tried, charged));
        assert(goes_on_in_order(tried, charged, step));
        assert(s.unsent.take(0) + s.unsent =~= s.unsent);
    } else {
        lemma_keep_in_order(left, moved);
        assert(step == keep_writing(left, moved));
        assert(goes_on_in_order(left, moved, step));
    }
}

/// Writing takes bytes off the front of the queue, and nothing else goes. What
/// is left of the pending reply stays pending, and each byte is counted as part
/// of the reply or as input.
pub proof fn writing_takes_the_front(m: SessionModel, n: int)
    requires
        0 <= n <= m.unsent.len(),
    ensures
        ({
            let after = m.wrote(n);
            &&& m.unsent.take(n) + after.unsent == m.unsent
            &&& after.unsent == m.unsent.skip(n)
            &&& after == (SessionModel {
                unsent: after.unsent,
                reply: after.reply,
                counters: after.counters,
                ..m
            })
            &&& after.counters == (SessionCounters {
                reply_bytes_written: after.counters.reply_bytes_written,
                input_bytes_written: after.counters.input_bytes_written,
                ..m.counters
            })
            &&& m.reply is None ==> after.reply is None && after.counters.reply_bytes_written
                == m.counters.reply_bytes_written && after.counters.input_bytes_written == plus(
                m.counters.input_bytes_written,
                n,
            )
            &&& m.reply matches Some((a, b)) ==> 0 <= a < b <= m.unsent.len() ==> {
                &&& n <= a ==> after.reply == Some((a - n, b - n))
                    && after.counters.reply_bytes_written == m.counters.reply_bytes_written
                    && after.counters.input_bytes_written == plus(
                    m.counters.input_bytes_written,
                    n,
                )
                &&& a < n < b ==> after.reply == Some((0int, b - n))
                    && after.counters.reply_bytes_written == plus(
                    m.counters.reply_bytes_written,
                    n - a,
                ) && after.counters.input_bytes_written == plus(m.counters.input_bytes_written, a)
                &&& b <= n ==> after.reply is None && after.counters.reply_bytes_written == plus(
                    m.counters.reply_bytes_written,
                    b - a,
                ) && after.counters.input_bytes_written == plus(
                    m.counters.input_bytes_written,
                    n - (b - a),
                )
            }
        }),
{
    reveal(SessionModel::wrote);
    assert(m.unsent.take(n) + m.unsent.skip(n) =~= m.unsent);
}

/// A write that moved nothing keeps the queue in front, unless the peer is
/// gone: that drops the queue, and ends the stream. One that would have
/// blocked is remembered and counted.
pub proof fn pumps_that_write_nothing(s: SessionModel, p: Pump, outcome: WriteOutcome)
    requires
        outcome !is Wrote,
        p.budget.syscalls > 0,
    ensures
        ({
            let step = after_write(s, p, outcome);
            let after = step.session;
            &&& outcome !is Gone ==> s.unsent.is_prefix_of(after.unsent)
            &&& outcome is Gone && s.unread.len() == 0 ==> after.unsent.len() == 0
                && after.reply is None
            &&& keeps_output(s, after)
            &&& after.phase == if outcome is Gone {
                if s.exit is Some {
                    SessionStatus::Reaped
                } else {
                    SessionStatus::Eof
                }
            } else {
                s.phase
            }
            &&& after.exit == s.exit
            &&& after.read_would_block == s.read_would_block
            &&& after.write_would_block == (s.write_would_block || outcome is WouldBlock)
            &&& after.counters.write_syscalls == plus(s.counters.write_syscalls, 1)
            &&& after.counters.write_would_block == plus(
                s.counters.write_would_block,
                if outcome is WouldBlock {
                    1
                } else {
                    0
                },
            )
            &&& after.counters.read_would_block == s.counters.read_would_block
            &&& after.counters.read_syscalls == s.counters.read_syscalls
            &&& after.counters.input_bytes_written == s.counters.input_bytes_written
            &&& after.counters.reply_bytes_written == s.counters.reply_bytes_written
            &&& step.pump.budget.syscalls == p.budget.syscalls - 1
            &&& step.pump.budget.bytes == p.budget.bytes - (s.unread.len() - after.unread.len())
            &&& outcome is Failed ==> step.action is Done && after.unsent == s.unsent
                && after.unread == s.unread
        }),
{
    let tried = s.tried_write();
    let charged = Pump { budget: p.budget.after(0, 1), ..p };
    let step = after_write(s, p, outcome);
    reveal(SessionModel::tried_write);
    assert(s.unsent.subrange(0, s.unsent.len() as int) =~= s.unsent);
    match outcome {
        WriteOutcome::WouldBlock => {
            reveal(SessionModel::blocked_write);
            lemma_end_in_order(tried.blocked_write(), charged);
            assert(goes_on_in_order(tried.blocked_write(), charged, step));
        },
        WriteOutcome::Interrupted => {
            lemma_end_in_order(tried, charged);
            assert(goes_on_in_order(tried, charged, step));
        },
        WriteOutcome::Gone => {
            reveal(SessionModel::without_output);
            reveal(SessionModel::ended);
            let over = tried.without_output().ended();
            lemma_end_in_order(over, charged);
            assert(goes_on_in_order(over, charged, step));
            if s.unread.len() == 0 {
                assert(!over.has_work(Direction::Read) && !over.has_work(Direction::Write));
                lemma_idle(over, charged);
            }
        },
        _ => {},
    }
}

proof fn lemma_idle(s: SessionModel, p: Pump)
    requires
        !s.has_work(Direction::Read),
        !s.has_work(Direction::Write),
    ensures
        end_phase(s, p).action is Done,
        end_phase(s, p).session.unsent == s.unsent,
        end_phase(s, p).session.reply == s.reply,
{
    reveal(stop);
}

/// Bytes that a pump asked for go behind those that are unread, and the
/// terminal takes them in that order. They are counted, and charged to the
/// budget with one call and with what was decoded.
pub proof fn pumps_read_in_order(s: SessionModel, p: Pump, bytes: &[u8])
    requires
        0 < bytes@.len() <= p.budget.bytes,
        p.budget.syscalls > 0,
    ensures
        ({
            let step = after_read(s, p, ReadOutcome::Bytes(bytes));
            let after = step.session;
            &&& after.term.fed + after.unread == s.term.fed + s.unread + bytes@
            &&& after.unread.len() <= s.unread.len() + bytes@.len()
            &&& s.unsent.is_prefix_of(after.unsent)
            &&& keeps_state(s, after)
            &&& after.counters.read_syscalls == plus(s.counters.read_syscalls, 1)
            &&& after.counters.write_syscalls == s.counters.write_syscalls
            &&& after.counters.pty_bytes_read == plus(
                s.counters.pty_bytes_read,
                bytes@.len() as int,
            )
            &&& after.counters.terminal_bytes_processed == plus(
                s.counters.terminal_bytes_processed,
                s.unread.len() + bytes@.len() - after.unread.len(),
            )
            &&& after.counters.terminal_reply_bytes_generated == plus(
                s.counters.terminal_reply_bytes_generated,
                after.unsent.len() - s.unsent.len(),
            )
            &&& step.pump.budget.syscalls == p.budget.syscalls - 1
            &&& step.pump.budget.bytes == p.budget.bytes - bytes@.len() - (s.unread.len()
                + bytes@.len() - after.unread.len())
        }),
{
    reveal(SessionModel::tried_read);
    reveal(SessionModel::received);
    let full = s.tried_read().received(bytes@);
    let moved = Pump { budget: p.budget.after(bytes@.len() as int, 1), progressed: true, ..p };
    let step = after_read(s, p, ReadOutcome::Bytes(bytes));
    lemma_start_in_order(full, moved);
    assert(step == start_reading(full, moved));
    assert(s.term.fed + (s.unread + bytes@) =~= s.term.fed + s.unread + bytes@);
}

/// A read that brought no bytes changes nothing of what was read before. No
/// bytes at all, or a peer that is gone, are the end of the stream. One that
/// would have blocked is remembered and counted.
pub proof fn pumps_that_read_nothing(s: SessionModel, p: Pump, outcome: ReadOutcome)
    requires
        outcome matches ReadOutcome::Bytes(bytes) ==> bytes@.len() == 0,
        p.budget.syscalls > 0,
    ensures
        ({
            let step = after_read(s, p, outcome);
            let after = step.session;
            &&& keeps_output(s, after)
            &&& s.unsent.is_prefix_of(after.unsent)
            &&& after.phase == if outcome is Bytes || outcome is Gone {
                if s.exit is Some {
                    SessionStatus::Reaped
                } else {
                    SessionStatus::Eof
                }
            } else {
                s.phase
            }
            &&& after.exit == s.exit
            &&& after.write_would_block == s.write_would_block
            &&& after.read_would_block == (s.read_would_block || outcome is WouldBlock)
            &&& after.counters.read_syscalls == plus(s.counters.read_syscalls, 1)
            &&& after.counters.read_would_block == plus(
                s.counters.read_would_block,
                if outcome is WouldBlock {
                    1
                } else {
                    0
                },
            )
            &&& after.counters.write_would_block == s.counters.write_would_block
            &&& after.counters.write_syscalls == s.counters.write_syscalls
            &&& after.counters.pty_bytes_read == s.counters.pty_bytes_read
            &&& step.pump.budget.syscalls == p.budget.syscalls - 1
            &&& step.pump.budget.bytes == p.budget.bytes - (s.unread.len() - after.unread.len())
            &&& outcome is Failed ==> step.action is Done && after.unsent == s.unsent
                && after.unread == s.unread
        }),
{
    let tried = s.tried_read();
    let charged = Pump { budget: p.budget.after(0, 1), ..p };
    let step = after_read(s, p, outcome);
    reveal(SessionModel::tried_read);
    assert(s.unsent.subrange(0, s.unsent.len() as int) =~= s.unsent);
    match outcome {
        ReadOutcome::WouldBlock => {
            reveal(SessionModel::blocked_read);
            lemma_end_in_order(tried.blocked_read(), charged);
            assert(goes_on_in_order(tried.blocked_read(), charged, step));
        },
        ReadOutcome::Interrupted => {
            lemma_end_in_order(tried, charged);
            assert(goes_on_in_order(tried, charged, step));
        },
        ReadOutcome::Failed => {},
        _ => {
            reveal(SessionModel::ended);
            lemma_end_in_order(tried.ended(), charged);
            assert(goes_on_in_order(tried.ended(), charged, step));
        },
    }
}

/// A pump of an open session is counted and forgets what blocked before. With
/// something to spend it begins with the direction that the session has where
/// that has work, else with the other one, and asks for as many bytes as there
/// are, as the buffer has room for, and as the budget allows.
pub proof fn pumps_begin_in_order(m: SessionModel, budget: PumpBudget)
    requires
        m.phase == SessionStatus::Live || m.phase == SessionStatus::Eof,
    ensures
        ({
            let step = begin_pump(m, budget);
            let after = step.session;
            let spends = budget.bytes > 0 && budget.syscalls > 0;
            let reads = m.phase == SessionStatus::Live && m.reply is None && m.unread.len() == 0;
            &&& keeps_output(m, after)
            &&& m.unsent.is_prefix_of(after.unsent)
            &&& after.phase == m.phase && after.exit == m.exit
            &&& !after.read_would_block && !after.write_would_block
            &&& after.counters.pump_calls == plus(m.counters.pump_calls, 1)
            &&& after.counters.read_syscalls == m.counters.read_syscalls
            &&& after.counters.write_syscalls == m.counters.write_syscalls
            &&& !spends ==> step.action is Done && after.unread == m.unread
                && after.counters.pump_budget_exhaustions == plus(
                m.counters.pump_budget_exhaustions,
                1,
            )
            &&& spends && m.unsent.len() > 0 && (m.direction == Direction::Write || m.reply is Some
                || (m.phase == SessionStatus::Eof && m.unread.len() == 0)) ==> (
            step.action matches PumpAction::Write(n) && n == (if m.unsent.len() <= budget.bytes {
                m.unsent.len() as int
            } else {
                budget.bytes as int
            }))
            &&& spends && reads && (m.direction == Direction::Read || m.unsent.len() == 0) ==> (
            step.action matches PumpAction::Read(n) && n == (if budget.bytes <= 65536 {
                budget.bytes as int
            } else {
                65536
            }))
        }),
{
    let p = Pump { budget, direction: m.direction, rounds: 2, progressed: false };
    lemma_round_in_order(roused(m), p);
    lemma_stop_in_order(roused(m), p, true);
    assert(m.unsent.subrange(0, m.unsent.len() as int) =~= m.unsent);
    let begun = Pump { rounds: 1, ..p };
    reveal(stop);
    if !budget.is_spent() {
        let direction = if roused(m).has_work(m.direction) {
            m.direction
        } else {
            m.direction.other()
        };
        let begun = Pump { direction, rounds: 1, ..p };
        if direction == Direction::Read && m.unread.len() == 0 {
            assert(roused(m).decode(budget.bytes as int) == roused(m));
            assert(start_reading(roused(m), begun) == keep_reading(roused(m), begun));
        }
    }
}

/// A read goes on while there is room: it asks for what the buffer still has
/// room for, as far as the budget allows, and a write asks for what waits.
pub proof fn pumps_ask_for_all_they_may(s: SessionModel, p: Pump)
    requires
        p.budget.bytes > 0,
        p.budget.syscalls > 0,
    ensures
        s.phase == SessionStatus::Live && s.reply is None && s.unread.len() < 65536 ==> (
        keep_reading(s, p).action matches PumpAction::Read(n) && 0 < n && n <= 65536
            - s.unread.len() && n <= p.budget.bytes && (n == p.budget.bytes || n == 65536
            - s.unread.len())),
        (s.phase == SessionStatus::Live || s.phase == SessionStatus::Eof) && s.unsent.len() > 0 ==> (
        keep_writing(s, p).action matches PumpAction::Write(n) && 0 < n && n <= s.unsent.len() && n
            <= p.budget.bytes && (n == p.budget.bytes || n == s.unsent.len())),
{
}

/// Directions take turns: a pump that ends leaves the other direction for the
/// next one where its last phase got anywhere or the other direction has work.
/// Else it leaves its own.
pub proof fn directions_take_turns(s: SessionModel, p: Pump)
    requires
        p.rounds == 0,
    ensures
        ({
            let after = end_phase(s, p);
            let other = if p.direction == Direction::Read {
                Direction::Write
            } else {
                Direction::Read
            };
            let waits = if other == Direction::Write {
                s.unsent.len() > 0
            } else {
                s.reply is None && (s.unread.len() > 0 || s.phase == SessionStatus::Live)
            };
            &&& after.action is Done
            &&& after.session.direction == if p.progressed || waits {
                other
            } else {
                p.direction
            }
        }),
{
    reveal(stop);
    let turned = Pump { direction: p.direction.other(), ..p };
    assert(next_round(s, turned).session.direction == turned.direction);
}

/// A pump serves both directions: once all that waited is written it goes on
/// to read, and once nothing is left to read it goes on to write, as long as
/// the budget lasts.
#[verifier::spinoff_prover]
pub proof fn pumps_serve_both_directions(m: SessionModel, budget: PumpBudget)
    requires
        m.phase == SessionStatus::Live,
        m.reply is None,
        m.unread.len() == 0,
        m.unsent.len() > 0,
        m.unsent.len() < budget.bytes,
        budget.syscalls > 1,
    ensures
        ({
            let n = m.unsent.len() as usize;
            let writing = begin_pump(SessionModel { direction: Direction::Write, ..m }, budget);
            let reading = begin_pump(SessionModel { direction: Direction::Read, ..m }, budget);
            let read = after_write(writing.session, writing.pump, WriteOutcome::Wrote(n));
            let write = after_read(reading.session, reading.pump, ReadOutcome::WouldBlock);
            &&& writing.action == PumpAction::Write(n)
            &&& reading.action is Read
            &&& read.action is Read
            &&& write.action == PumpAction::Write(n)
        }),
{
    let n = m.unsent.len() as usize;
    let first = SessionModel { direction: Direction::Write, ..m };
    let other = SessionModel { direction: Direction::Read, ..m };
    let writing = begin_pump(first, budget);
    let reading = begin_pump(other, budget);
    lemma_first_phase(first, budget);
    lemma_first_phase(other, budget);
    let left = writing.session.tried_write().wrote(n as int);
    assert(left.phase == m.phase && left.unread == m.unread && left.unsent.len() == 0
        && left.reply is None) by {
        reveal(SessionModel::tried_write);
        writing_takes_the_front(writing.session.tried_write(), n as int);
    }
    let moved = Pump { budget: budget.after(n as int, 1), progressed: true, ..writing.pump };
    assert(after_write(writing.session, writing.pump, WriteOutcome::Wrote(n)) == keep_writing(
        left,
        moved,
    ));
    lemma_goes_on_to_read(left, moved);
    let dry = reading.session.tried_read().blocked_read();
    assert(dry.phase == m.phase && dry.unread == m.unread && dry.unsent == m.unsent && dry.reply
        is None) by {
        reveal(SessionModel::tried_read);
        reveal(SessionModel::blocked_read);
    }
    let charged = Pump { budget: budget.after(0, 1), ..reading.pump };
    assert(after_read(reading.session, reading.pump, ReadOutcome::WouldBlock) == end_phase(
        dry,
        charged,
    ));
    lemma_goes_on_to_write(dry, charged);
}

#[verifier::spinoff_prover]
proof fn lemma_first_phase(m: SessionModel, budget: PumpBudget)
    requires
        m.phase == SessionStatus::Live,
        m.reply is None,
        m.unread.len() == 0,
        0 < m.unsent.len() < budget.bytes,
        budget.syscalls > 1,
    ensures
        ({
            let step = begin_pump(m, budget);
            &&& step.session.phase == m.phase && step.session.reply is None
            &&& step.session.unread == m.unread && step.session.unsent == m.unsent
            &&& step.pump == (Pump {
                budget,
                direction: m.direction,
                rounds: 1,
                progressed: false,
            })
            &&& m.direction == Direction::Write ==> step.action == PumpAction::Write(
                m.unsent.len() as usize,
            )
            &&& m.direction == Direction::Read ==> step.action is Read
        }),
{
    let p = Pump { budget, direction: m.direction, rounds: 2, progressed: false };
    let begun = Pump { rounds: 1, ..p };
    if m.direction == Direction::Write {
        assert(next_round(roused(m), p) == keep_writing(roused(m), begun));
    } else {
        assert(roused(m).decode(budget.bytes as int) == roused(m));
        assert(next_round(roused(m), p) == start_reading(roused(m), begun));
        assert(start_reading(roused(m), begun) == keep_reading(roused(m), begun));
    }
}

#[verifier::spinoff_prover]
proof fn lemma_goes_on_to_read(s: SessionModel, p: Pump)
    requires
        s.phase == SessionStatus::Live,
        s.reply is None,
        s.unread.len() == 0,
        s.unsent.len() == 0,
        p.direction == Direction::Write,
        p.rounds == 1,
        p.budget.bytes > 0,
        p.budget.syscalls > 0,
    ensures
        keep_writing(s, p).action is Read,
{
    let turned = Pump { direction: Direction::Read, ..p };
    let last = Pump { rounds: 0, progressed: false, ..turned };
    assert(keep_writing(s, p) == end_phase(s, p));
    assert(end_phase(s, p) == next_round(s, turned));
    assert(next_round(s, turned) == start_reading(s, last));
    assert(s.decode(last.budget.bytes as int) == s);
    assert(start_reading(s, last) == keep_reading(s, last));
}

#[verifier::spinoff_prover]
proof fn lemma_goes_on_to_write(s: SessionModel, p: Pump)
    requires
        s.phase == SessionStatus::Live,
        0 < s.unsent.len() <= p.budget.bytes,
        p.direction == Direction::Read,
        p.rounds == 1,
        p.budget.syscalls > 0,
    ensures
        end_phase(s, p).action == PumpAction::Write(s.unsent.len() as usize),
{
    let turned = Pump { direction: Direction::Write, ..p };
    let last = Pump { rounds: 0, progressed: false, ..turned };
    assert(end_phase(s, p) == next_round(s, turned));
    assert(next_round(s, turned) == keep_writing(s, last));
}

/// A pump that finds nothing to do in either direction is over at once: nothing
/// moves, nothing is charged, and the next one begins with the other direction.
pub proof fn pumps_without_work(m: SessionModel, budget: PumpBudget)
    requires
        budget.bytes > 0,
        budget.syscalls > 0,
        m.phase == SessionStatus::Live || m.phase == SessionStatus::Eof,
        m.unsent.len() == 0,
        m.reply is Some || (m.phase == SessionStatus::Eof && m.unread.len() == 0),
    ensures
        ({
            let step = begin_pump(m, budget);
            &&& step.action is Done
            &&& step.session.term == m.term
            &&& step.session.unread == m.unread && step.session.unsent == m.unsent
            &&& step.pump.budget == budget
            &&& m.direction == Direction::Write ==> step.session.direction == Direction::Read
            &&& m.direction == Direction::Read ==> step.session.direction == Direction::Write
        }),
{
    reveal(stop);
}

/// What a session should be registered for, and whether it has work at once.
pub proof fn work_and_interests(m: SessionModel)
    ensures
        m.wanted().readable <==> m.phase == SessionStatus::Live && m.reply is None,
        m.wanted().writable <==> (m.phase == SessionStatus::Live || m.phase == SessionStatus::Eof)
            && m.unsent.len() > 0,
        m.is_runnable() <==> (m.phase == SessionStatus::Live || m.phase == SessionStatus::Eof) && ((
        m.unsent.len() > 0 && !m.write_would_block) || (m.reply is None && ((m.phase
            == SessionStatus::Live && !m.read_would_block) || m.unread.len() > 0))),
        m.is_closed() <==> m.phase == SessionStatus::Closing || m.phase == SessionStatus::Reaped,
{
}

/// Input goes behind all that waits, is counted, and makes a write worth
/// trying again. Nothing else changes but what was held at most.
pub proof fn enqueueing_input(m: SessionModel, bytes: Seq<u8>)
    ensures
        ({
            let after = m.enqueue(bytes);
            &&& after.unsent == m.unsent + bytes
            &&& !after.write_would_block
            &&& after.counters.input_bytes_enqueued == plus(
                m.counters.input_bytes_enqueued,
                bytes.len() as int,
            )
            &&& after == (SessionModel {
                unsent: after.unsent,
                write_would_block: false,
                counters: SessionCounters {
                    input_bytes_enqueued: after.counters.input_bytes_enqueued,
                    ..m.counters
                },
                peaks: after.peaks,
                ..m
            })
        }),
{
    reveal(SessionModel::enqueue);
}

/// Closing an open session drops what it holds, and ends it: for good if its
/// child was reaped. The terminal, the counters and the exit stay.
pub proof fn closing_discards(m: SessionModel)
    requires
        m.phase == SessionStatus::Live || m.phase == SessionStatus::Eof,
    ensures
        ({
            let after = m.close();
            &&& after.unsent.len() == 0 && after.unread.len() == 0 && after.reply is None
            &&& after.phase == if m.exit is Some {
                SessionStatus::Reaped
            } else {
                SessionStatus::Closing
            }
            &&& after == (SessionModel {
                unsent: after.unsent,
                unread: after.unread,
                reply: None,
                phase: after.phase,
                ..m
            })
        }),
{
    reveal(SessionModel::close);
}

/// Reaping the child keeps how it ended. The session goes on while its stream
/// is open, and is spent otherwise.
pub proof fn reaping_keeps_the_exit(m: SessionModel, exit: ObservedExit)
    ensures
        m.reap(exit).exit == Some(exit),
        m.phase == SessionStatus::Live ==> m.reap(exit).phase == SessionStatus::Live,
        m.phase != SessionStatus::Live ==> m.reap(exit).phase == SessionStatus::Reaped,
        m.reap(exit) == (SessionModel { exit: Some(exit), phase: m.reap(exit).phase, ..m }),
{
    reveal(SessionModel::reap);
}

/// A new session is live, empty, and begins with writing. It has done nothing.
pub proof fn sessions_begin_empty(size: Size)
    requires
        size.addressable(),
    ensures
        ({
            let m = SessionModel::initial(size);
            &&& m.phase == SessionStatus::Live && m.exit is None
            &&& m.unread.len() == 0 && m.unsent.len() == 0 && m.reply is None
            &&& !m.read_would_block && !m.write_would_block
            &&& m.direction == Direction::Write
            &&& m.revision == 0
            &&& is_new(m.term, size)
            &&& m.counters.pump_calls == 0 && m.counters.pump_budget_exhaustions == 0
            &&& m.counters.pty_bytes_read == 0 && m.counters.terminal_bytes_processed == 0
            &&& m.counters.terminal_reply_bytes_generated == 0
            &&& m.counters.input_bytes_enqueued == 0 && m.counters.input_bytes_written == 0
            &&& m.counters.reply_bytes_written == 0
            &&& m.counters.read_syscalls == 0 && m.counters.write_syscalls == 0
            &&& m.counters.read_would_block == 0 && m.counters.write_would_block == 0
        }),
{
}

/// The larger of what was held at most and what is held now.
pub open spec fn is_peak(before: usize, held: nat, after: usize) -> bool {
    held <= usize::MAX ==> {
        &&& after >= before
        &&& after >= held
        &&& after == before || after == held
    }
}

/// What a session has held at most covers what it holds after each operation
/// that can add to it, and nothing more.
pub open spec fn has_peaked(before: SessionPeaks, after: SessionModel) -> bool {
    &&& is_peak(before.read_buffer_bytes, after.unread.len(), after.peaks.read_buffer_bytes)
    &&& is_peak(before.write_bytes, after.unsent.len(), after.peaks.write_bytes)
    &&& is_peak(
        before.scrollback_lines,
        after.term.scrollback.len(),
        after.peaks.scrollback_lines,
    )
    &&& is_peak(
        before.scrollback_cells,
        cell_total(after.term.scrollback),
        after.peaks.scrollback_cells,
    )
}

/// Decoding a byte, reading and enqueueing keep the largest quantities.
pub proof fn peaks_are_kept(m: SessionModel, bytes: Seq<u8>)
    ensures
        m.unread.len() > 0 ==> has_peaked(m.peaks, m.decode_one()),
        has_peaked(m.peaks, m.received(bytes)),
        has_peaked(m.peaks, m.enqueue(bytes)),
{
    reveal(SessionModel::decode_one);
    reveal(SessionModel::feed_next);
    reveal(SessionModel::queue_reply);
    reveal(SessionModel::received);
    reveal(SessionModel::enqueue);
}

/// The metrics are the counters, what is held now, and what was held at most.
/// What waits is the reply and the input, and what was written is both.
pub proof fn metrics_tell_all(m: SessionModel)
    requires
        m.unread.len() <= usize::MAX,
        m.unsent.len() <= usize::MAX,
        m.term.scrollback.len() <= usize::MAX,
        cell_total(m.term.scrollback) <= usize::MAX,
        m.reply matches Some((a, b)) ==> 0 <= a < b <= m.unsent.len(),
    ensures
        ({
            let told = m.metrics();
            let c = m.counters;
            &&& told.pump_calls == c.pump_calls
            &&& told.pump_budget_exhaustions == c.pump_budget_exhaustions
            &&& told.pty_bytes_read == c.pty_bytes_read
            &&& told.pty_bytes_written == plus(
                c.input_bytes_written,
                c.reply_bytes_written as int,
            )
            &&& told.terminal_bytes_processed == c.terminal_bytes_processed
            &&& told.terminal_reply_bytes_generated == c.terminal_reply_bytes_generated
            &&& told.input_bytes_enqueued == c.input_bytes_enqueued
            &&& told.read_syscalls == c.read_syscalls
            &&& told.write_syscalls == c.write_syscalls
            &&& told.read_would_block == c.read_would_block
            &&& told.write_would_block == c.write_would_block
            &&& told.read_buffer_bytes == m.unread.len()
            &&& told.max_read_buffer_bytes == m.peaks.read_buffer_bytes
            &&& told.pending_write_bytes == m.unsent.len()
            &&& told.pending_input_bytes + told.pending_reply_bytes == m.unsent.len()
            &&& m.reply is None ==> told.pending_reply_bytes == 0
            &&& m.reply matches Some((a, b)) ==> told.pending_reply_bytes == b - a
            &&& told.max_pending_write_bytes == m.peaks.write_bytes
            &&& told.scrollback_lines == m.term.scrollback.len()
            &&& told.max_scrollback_lines == m.peaks.scrollback_lines
            &&& told.scrollback_cells == cell_total(m.term.scrollback)
            &&& told.max_scrollback_cells == m.peaks.scrollback_cells
        }),
{
}

} // verus!
