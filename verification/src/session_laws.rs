//! What holds of a session as a whole.

use vstd::prelude::*;

use crate::pty::ObservedExit;
use crate::session::{
    after_read, after_write, begin_pump, end_phase, keep_reading, keep_writing, next_round, roused,
    start_reading, stop, tally, Direction, Pump, PumpAction, PumpBudget, PumpStep, ReadOutcome,
    Session, SessionModel, SessionStatus, WriteOutcome, MAX_PENDING_REPLY_BYTES, READ_BUFFER_LIMIT,
};

verus! {

/// In every state of a session at most one reply is pending, of bounded size
/// and as part of the write queue, the read buffer keeps to its limit, and a
/// session whose I/O is over is spent if and only if its child was reaped.
pub proof fn sessions_are_well_formed(session: &Session)
    requires
        session.wf(),
    ensures
        session@.wf(),
{
    session.lemma_wf();
}

/// In every state of a session the pending bytes are either input or the one
/// reply, which is short, and nothing exceeds its maximum.
pub proof fn metrics_are_consistent(session: &Session)
    requires
        session.wf(),
    ensures
        ({
            let held = session@.metrics();
            &&& held.pending_input_bytes + held.pending_reply_bytes == held.pending_write_bytes
            &&& held.pending_reply_bytes <= MAX_PENDING_REPLY_BYTES
            &&& held.pending_write_bytes <= held.max_pending_write_bytes
            &&& held.read_buffer_bytes <= held.max_read_buffer_bytes
            &&& held.read_buffer_bytes <= READ_BUFFER_LIMIT
            &&& held.scrollback_lines <= held.max_scrollback_lines
            &&& held.scrollback_cells <= held.max_scrollback_cells
        }),
{
    session.lemma_wf();
}

/// Writing takes bytes off the front of the queue; nothing is lost or
/// reordered. What is enqueued goes behind everything that waits.
pub proof fn the_queue_is_first_in_first_out(m: SessionModel, n: int, bytes: Seq<u8>)
    requires
        0 <= n <= m.unsent.len(),
    ensures
        m.unsent == m.unsent.take(n) + m.wrote(n).unsent,
        m.enqueue(bytes).unsent == m.unsent + bytes,
        m.enqueue(bytes).wrote(n).unsent == m.wrote(n).enqueue(bytes).unsent,
{
    reveal(SessionModel::wrote);
    reveal(SessionModel::enqueue);
    assert(m.unsent =~= m.unsent.take(n) + m.unsent.skip(n));
    assert((m.unsent + bytes).skip(n) =~= m.unsent.skip(n) + bytes);
}

/// Decoding a byte leaves what waits to be written in front, so that a reply
/// never overtakes input that was accepted before.
pub proof fn replies_queue_up_behind(m: SessionModel)
    requires
        m.unread.len() > 0,
    ensures
        m.unsent.is_prefix_of(m.decode_one().unsent),
        m.decode_one().unsent.len() > m.unsent.len() ==> m.decode_one().reply == Some(
            (m.unsent.len() as int, m.decode_one().unsent.len() as int),
        ),
        m.decode_one().unsent.len() == m.unsent.len() ==> m.decode_one().reply == m.reply,
        m.decode_one().unread == m.unread.skip(1),
{
    reveal(SessionModel::decode_one);
    reveal(SessionModel::feed_next);
    reveal(SessionModel::queue_reply);
    assert(m.decode_one().unsent.subrange(0, m.unsent.len() as int) =~= m.unsent);
}

/// What has gone into the write queue so far, less what was written and what
/// still waits. It is zero as long as nothing was discarded.
pub open spec fn imbalance(m: SessionModel) -> int {
    m.counters.input_bytes_enqueued + m.counters.terminal_reply_bytes_generated
        - m.counters.input_bytes_written - m.counters.reply_bytes_written - m.unsent.len()
}

/// The counters account for every byte of the write queue, as long as none of
/// them has reached its end: enqueueing, decoding and writing keep the
/// balance, and every byte that was written counts as input or as reply.
pub proof fn every_byte_is_accounted_for(m: SessionModel, n: int, bytes: Seq<u8>)
    requires
        m.wf(),
        0 <= n <= m.unsent.len(),
        m.counters.input_bytes_enqueued + bytes.len() <= u64::MAX,
        m.counters.terminal_reply_bytes_generated + m.decode_one().unsent.len() <= u64::MAX,
        m.counters.input_bytes_written + n <= u64::MAX,
        m.counters.reply_bytes_written + n <= u64::MAX,
    ensures
        imbalance(m.enqueue(bytes)) == imbalance(m),
        m.unread.len() > 0 ==> imbalance(m.decode_one()) == imbalance(m),
        imbalance(m.wrote(n)) == imbalance(m),
        m.wrote(n).counters.input_bytes_written + m.wrote(n).counters.reply_bytes_written
            == m.counters.input_bytes_written + m.counters.reply_bytes_written + n,
{
    reveal(SessionModel::wrote);
    reveal(SessionModel::enqueue);
    reveal(SessionModel::decode_one);
    reveal(SessionModel::feed_next);
    reveal(SessionModel::queue_reply);
}

/// A new session is balanced.
pub proof fn sessions_start_balanced(size: crate::size::Size)
    ensures
        imbalance(SessionModel::initial(size)) == 0,
{
}

/// While a reply is pending, nothing is decoded and nothing is read.
pub proof fn a_pending_reply_stops_reading(m: SessionModel, budget: PumpBudget, bytes: int)
    requires
        m.is_paused(),
    ensures
        m.decode(bytes) == m,
        !(begin_pump(m, budget).action is Read),
        begin_pump(m, budget).session.term == m.term,
        begin_pump(m, budget).session.unread == m.unread,
        begin_pump(m, budget).session.unsent == m.unsent,
{
    reveal(stop);
}

/// A session that need not be pumped is waiting for readiness that it is
/// registered for: whatever is left to do was stopped by a call that would
/// have blocked, so a loop that hears of edges only loses nothing.
pub proof fn idle_sessions_are_registered(m: SessionModel)
    requires
        m.wf(),
        !m.is_closed(),
        !m.is_runnable(),
    ensures
        m.unsent.len() > 0 ==> m.write_would_block && m.wanted().writable,
        m.phase == SessionStatus::Live && !m.is_paused() ==> m.read_would_block
            && m.wanted().readable,
        m.unread.len() > 0 ==> m.is_paused(),
        m.is_paused() ==> m.wanted().writable,
        m.phase == SessionStatus::Live ==> m.wanted().readable || m.wanted().writable,
{
}

/// A closed session is not pumped, refuses input, and stays as it is.
pub proof fn closing_is_final(m: SessionModel, budget: PumpBudget)
    ensures
        m.close().is_closed(),
        m.close().close() == m.close(),
        m.close().term == m.term,
        m.close().counters == m.counters,
        !m.is_closed() ==> m.close().unsent.len() == 0 && m.close().unread.len() == 0,
        begin_pump(m.close(), budget).session == m.close(),
        begin_pump(m.close(), budget).action is Done,
{
    reveal(SessionModel::close);
}

/// A session is spent once its child was reaped and its I/O is over,
/// whichever comes first.
pub proof fn spent_after_reap_and_end(m: SessionModel, exit: ObservedExit)
    requires
        m.wf(),
        m.exit is None,
    ensures
        m.reap(exit).wf(),
        m.phase != SessionStatus::Live ==> m.reap(exit).phase == SessionStatus::Reaped,
        m.phase == SessionStatus::Live ==> m.reap(exit).phase == SessionStatus::Live,
        m.reap(exit).close().phase == SessionStatus::Reaped,
        m.reap(exit).ended().phase == SessionStatus::Reaped,
        m.close().reap(exit).phase == SessionStatus::Reaped,
        m.ended().reap(exit).phase == SessionStatus::Reaped,
{
    reveal(SessionModel::reap);
    reveal(SessionModel::close);
    reveal(SessionModel::ended);
}

/// A pump with nothing to spend moves nothing. It counts as exhausted.
pub proof fn an_empty_budget_moves_nothing(m: SessionModel, budget: PumpBudget)
    requires
        budget.is_spent(),
        !m.is_closed(),
    ensures
        begin_pump(m, budget).action is Done,
        begin_pump(m, budget).session.term == m.term,
        begin_pump(m, budget).session.unread == m.unread,
        begin_pump(m, budget).session.unsent == m.unsent,
        begin_pump(m, budget).session.counters.pump_budget_exhaustions == tally(
            m.counters.pump_budget_exhaustions,
            1,
        ),
{
    reveal(stop);
}

/// Where a pump stands after a step keeps to what it had to spend before.
spec fn within(before: PumpBudget, after: PumpBudget, action: PumpAction) -> bool {
    &&& after.bytes <= before.bytes
    &&& after.syscalls <= before.syscalls
    &&& match action {
        PumpAction::Write(n) => n <= after.bytes && after.syscalls > 0,
        PumpAction::Read(n) => n <= after.bytes && after.syscalls > 0,
        PumpAction::Done => true,
    }
}

proof fn lemma_round_within(s: SessionModel, p: Pump)
    ensures
        within(p.budget, next_round(s, p).pump.budget, next_round(s, p).action),
    decreases p.rounds, 0int,
{
    reveal(stop);
    let direction = if s.has_work(p.direction) {
        p.direction
    } else {
        p.direction.other()
    };
    if p.rounds > 0 && !p.budget.is_spent() && s.has_work(direction) {
        let begun = Pump { direction, rounds: (p.rounds - 1) as u8, progressed: false, ..p };
        if direction == Direction::Write {
            lemma_writing_within(s, begun);
        } else {
            lemma_start_within(s, begun);
        }
    }
}

proof fn lemma_end_within(s: SessionModel, p: Pump)
    ensures
        within(p.budget, end_phase(s, p).pump.budget, end_phase(s, p).action),
    decreases p.rounds, 1int,
{
    reveal(stop);
    lemma_round_within(s, Pump { direction: p.direction.other(), ..p });
}

proof fn lemma_writing_within(s: SessionModel, p: Pump)
    ensures
        within(p.budget, keep_writing(s, p).pump.budget, keep_writing(s, p).action),
    decreases p.rounds, 2int,
{
    lemma_end_within(s, p);
}

proof fn lemma_reading_within(s: SessionModel, p: Pump)
    ensures
        within(p.budget, keep_reading(s, p).pump.budget, keep_reading(s, p).action),
    decreases p.rounds, 2int,
{
    lemma_end_within(s, p);
}

proof fn lemma_start_within(s: SessionModel, p: Pump)
    ensures
        within(p.budget, start_reading(s, p).pump.budget, start_reading(s, p).action),
    decreases p.rounds, 3int,
{
    let n = s.decoded(p.budget.bytes as int);
    lemma_decoded(s, p.budget.bytes as int);
    lemma_reading_within(
        s.decode(p.budget.bytes as int),
        Pump { budget: p.budget.after(n, 0), progressed: p.progressed || n > 0, ..p },
    );
}

/// Decoding takes up no more bytes than it may and than there are.
pub proof fn lemma_decoded(s: SessionModel, bytes: int)
    ensures
        0 <= s.decoded(bytes) <= s.unread.len(),
        bytes >= 0 ==> s.decoded(bytes) <= bytes,
    decreases bytes,
{
    if bytes > 0 && !s.is_paused() && s.unread.len() > 0 {
        reveal(SessionModel::decode_one);
        reveal(SessionModel::feed_next);
        reveal(SessionModel::queue_reply);
        lemma_decoded(s.decode_one(), bytes - 1);
    }
}

/// A pump keeps to its budget: it asks for no call once the syscalls or the
/// bytes are used up, and for no more bytes than are left.
pub proof fn pumps_begin_within_budget(m: SessionModel, budget: PumpBudget)
    ensures
        ({
            let step = begin_pump(m, budget);
            &&& step.pump.budget.bytes <= budget.bytes
            &&& step.pump.budget.syscalls <= budget.syscalls
            &&& step.action matches PumpAction::Write(n) ==> n <= step.pump.budget.bytes
                && step.pump.budget.syscalls > 0
            &&& step.action matches PumpAction::Read(n) ==> n <= step.pump.budget.bytes
                && step.pump.budget.syscalls > 0
        }),
{
    reveal(stop);
    let p = Pump { budget, direction: m.direction, rounds: 2, progressed: false };
    lemma_round_within(roused(m), p);
}

proof fn lemma_write_within(m: SessionModel, pump: Pump, outcome: WriteOutcome)
    ensures
        ({
            let step = after_write(m, pump, outcome);
            within(pump.budget.after(0, 1), step.pump.budget, step.action)
        }),
{
    let charged = Pump { budget: pump.budget.after(0, 1), ..pump };
    let tried = m.tried_write();
    match outcome {
        WriteOutcome::Wrote(n) => if n == 0 {
            lemma_end_within(tried, charged);
        } else {
            lemma_writing_within(
                tried.wrote(n as int),
                Pump { budget: pump.budget.after(n as int, 1), progressed: true, ..pump },
            );
        },
        WriteOutcome::WouldBlock => lemma_end_within(tried.blocked_write(), charged),
        WriteOutcome::Interrupted => lemma_end_within(tried, charged),
        WriteOutcome::Gone => lemma_end_within(tried.without_output().ended(), charged),
        WriteOutcome::Failed => {},
    }
}

proof fn lemma_read_within(m: SessionModel, pump: Pump, outcome: ReadOutcome)
    ensures
        ({
            let step = after_read(m, pump, outcome);
            within(pump.budget.after(0, 1), step.pump.budget, step.action)
        }),
{
    let charged = Pump { budget: pump.budget.after(0, 1), ..pump };
    let tried = m.tried_read();
    match outcome {
        ReadOutcome::Bytes(bytes) => if bytes@.len() == 0 {
            lemma_end_within(tried.ended(), charged);
        } else {
            let budget = pump.budget.after(bytes@.len() as int, 1);
            lemma_start_within(
                tried.received(bytes@),
                Pump { budget, progressed: true, ..pump },
            );
        },
        ReadOutcome::WouldBlock => lemma_end_within(tried.blocked_read(), charged),
        ReadOutcome::Interrupted => lemma_end_within(tried, charged),
        ReadOutcome::Gone => lemma_end_within(tried.ended(), charged),
        ReadOutcome::Failed => {},
    }
}

/// Every call that a pump asked for is charged: there are fewer syscalls left
/// after it. So a pump ends, after at most as many calls as it may make.
pub proof fn pumps_go_on_within_budget(
    m: SessionModel,
    pump: Pump,
    write: WriteOutcome,
    read: ReadOutcome,
)
    requires
        pump.budget.syscalls > 0,
    ensures
        ({
            let step = after_write(m, pump, write);
            &&& step.pump.budget.bytes <= pump.budget.bytes
            &&& step.pump.budget.syscalls < pump.budget.syscalls
            &&& !(step.action is Done) ==> step.pump.budget.syscalls > 0
        }),
        ({
            let step = after_read(m, pump, read);
            &&& step.pump.budget.bytes <= pump.budget.bytes
            &&& step.pump.budget.syscalls < pump.budget.syscalls
            &&& !(step.action is Done) ==> step.pump.budget.syscalls > 0
        }),
{
    lemma_write_within(m, pump, write);
    lemma_read_within(m, pump, read);
}

/// Whether a step counts as exhausted, on top of a number of such pumps, if
/// and only if it ends a pump that has spent its budget and left work to do.
pub open spec fn counts_exhaustion(before: u64, step: PumpStep) -> bool {
    step.session.counters.pump_budget_exhaustions == tally(
        before,
        if step.action is Done && step.pump.budget.is_spent() && step.session.is_runnable() {
            1
        } else {
            0
        },
    )
}

proof fn lemma_round_counts(s: SessionModel, p: Pump)
    ensures
        counts_exhaustion(s.counters.pump_budget_exhaustions, next_round(s, p)),
    decreases p.rounds, 0int,
{
    reveal(stop);
    let direction = if s.has_work(p.direction) {
        p.direction
    } else {
        p.direction.other()
    };
    if p.rounds > 0 && !p.budget.is_spent() && s.has_work(direction) {
        let begun = Pump { direction, rounds: (p.rounds - 1) as u8, progressed: false, ..p };
        if direction == Direction::Write {
            lemma_writing_counts(s, begun);
        } else {
            lemma_start_counts(s, begun);
        }
    }
}

proof fn lemma_end_counts(s: SessionModel, p: Pump)
    ensures
        counts_exhaustion(s.counters.pump_budget_exhaustions, end_phase(s, p)),
    decreases p.rounds, 1int,
{
    reveal(stop);
    lemma_round_counts(s, Pump { direction: p.direction.other(), ..p });
}

proof fn lemma_writing_counts(s: SessionModel, p: Pump)
    ensures
        counts_exhaustion(s.counters.pump_budget_exhaustions, keep_writing(s, p)),
    decreases p.rounds, 2int,
{
    lemma_end_counts(s, p);
}

proof fn lemma_reading_counts(s: SessionModel, p: Pump)
    ensures
        counts_exhaustion(s.counters.pump_budget_exhaustions, keep_reading(s, p)),
    decreases p.rounds, 2int,
{
    lemma_end_counts(s, p);
}

proof fn lemma_start_counts(s: SessionModel, p: Pump)
    ensures
        counts_exhaustion(s.counters.pump_budget_exhaustions, start_reading(s, p)),
    decreases p.rounds, 3int,
{
    let n = s.decoded(p.budget.bytes as int);
    lemma_decoding_counts(s, p.budget.bytes as int);
    lemma_reading_counts(
        s.decode(p.budget.bytes as int),
        Pump { budget: p.budget.after(n, 0), progressed: p.progressed || n > 0, ..p },
    );
}

proof fn lemma_decoding_counts(s: SessionModel, bytes: int)
    ensures
        s.decode(bytes).counters.pump_budget_exhaustions == s.counters.pump_budget_exhaustions,
    decreases bytes,
{
    if bytes > 0 && !s.is_paused() && s.unread.len() > 0 {
        reveal(SessionModel::decode_one);
        reveal(SessionModel::feed_next);
        reveal(SessionModel::queue_reply);
        lemma_decoding_counts(s.decode_one(), bytes - 1);
    }
}

/// A pump that began with something to spend counts as exhausted, at its
/// first step, if and only if it is over, its budget is spent, and the session
/// still needs to be pumped.
pub proof fn exhausted_pumps_leave_work_at_once(m: SessionModel, budget: PumpBudget)
    requires
        !budget.is_spent(),
    ensures
        counts_exhaustion(m.counters.pump_budget_exhaustions, begin_pump(m, budget)),
{
    let p = Pump { budget, direction: m.direction, rounds: 2, progressed: false };
    lemma_round_counts(roused(m), p);
}

proof fn lemma_write_counts(m: SessionModel, pump: Pump, outcome: WriteOutcome)
    ensures
        !(outcome is Failed) ==> counts_exhaustion(
            m.counters.pump_budget_exhaustions,
            after_write(m, pump, outcome),
        ),
{
    reveal(SessionModel::tried_write);
    let charged = Pump { budget: pump.budget.after(0, 1), ..pump };
    let tried = m.tried_write();
    match outcome {
        WriteOutcome::Wrote(n) => if n == 0 {
            lemma_end_counts(tried, charged);
        } else {
            reveal(SessionModel::wrote);
            lemma_writing_counts(
                tried.wrote(n as int),
                Pump { budget: pump.budget.after(n as int, 1), progressed: true, ..pump },
            );
        },
        WriteOutcome::WouldBlock => {
            reveal(SessionModel::blocked_write);
            lemma_end_counts(tried.blocked_write(), charged);
        },
        WriteOutcome::Interrupted => lemma_end_counts(tried, charged),
        WriteOutcome::Gone => {
            reveal(SessionModel::without_output);
            reveal(SessionModel::ended);
            lemma_end_counts(tried.without_output().ended(), charged);
        },
        WriteOutcome::Failed => {},
    }
}

proof fn lemma_read_counts(m: SessionModel, pump: Pump, outcome: ReadOutcome)
    ensures
        !(outcome is Failed) ==> counts_exhaustion(
            m.counters.pump_budget_exhaustions,
            after_read(m, pump, outcome),
        ),
{
    reveal(SessionModel::tried_read);
    let charged = Pump { budget: pump.budget.after(0, 1), ..pump };
    let tried = m.tried_read();
    match outcome {
        ReadOutcome::Bytes(bytes) => if bytes@.len() == 0 {
            reveal(SessionModel::ended);
            lemma_end_counts(tried.ended(), charged);
        } else {
            reveal(SessionModel::received);
            let budget = pump.budget.after(bytes@.len() as int, 1);
            lemma_start_counts(
                tried.received(bytes@),
                Pump { budget, progressed: true, ..pump },
            );
        },
        ReadOutcome::WouldBlock => {
            reveal(SessionModel::blocked_read);
            lemma_end_counts(tried.blocked_read(), charged);
        },
        ReadOutcome::Interrupted => lemma_end_counts(tried, charged),
        ReadOutcome::Gone => {
            reveal(SessionModel::ended);
            lemma_end_counts(tried.ended(), charged);
        },
        ReadOutcome::Failed => {},
    }
}

/// A pump counts as exhausted, after a call that did not fail, if and only if
/// it is over, its budget is spent, and the session still needs to be pumped.
/// A call that failed ends a pump without counting it.
pub proof fn exhausted_pumps_leave_work(
    m: SessionModel,
    pump: Pump,
    write: WriteOutcome,
    read: ReadOutcome,
)
    ensures
        !(write is Failed) ==> counts_exhaustion(
            m.counters.pump_budget_exhaustions,
            after_write(m, pump, write),
        ),
        !(read is Failed) ==> counts_exhaustion(
            m.counters.pump_budget_exhaustions,
            after_read(m, pump, read),
        ),
        after_write(m, pump, WriteOutcome::Failed).session.counters.pump_budget_exhaustions
            == m.counters.pump_budget_exhaustions,
        after_read(m, pump, ReadOutcome::Failed).session.counters.pump_budget_exhaustions
            == m.counters.pump_budget_exhaustions,
{
    lemma_write_counts(m, pump, write);
    lemma_read_counts(m, pump, read);
    reveal(SessionModel::tried_write);
    reveal(SessionModel::tried_read);
}

} // verus!
