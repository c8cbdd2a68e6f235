//! What the calls of the library leave and answer, whatever they are called
//! on: which requests are granted, which are refused with what, and that a
//! refused one changes nothing.

use std::ops::Range;

use vstd::prelude::*;
use vstd::std_specs::cmp::PartialEqSpec;
use vstd::utf8::encode_utf8;

use crate::driver::{registered, Drive, DriverModel, SessionDriver};
use crate::driver_config::{
    DriveResult, DriverConfig, DriverError, DriverEvent, PollSource, SessionConfig, SessionId,
    SessionStatus,
};
use crate::driver_session::DriverSessionModel;
use crate::input::{key_bytes, paste_bytes, Input, KeyEvent, Modifiers};
use crate::multiplexer::{LifecycleEvent, Multiplexer, MultiplexerError, PaneId, WindowId};
use crate::multiplexer_model::MultiplexerModel;
use crate::pty::ObservedExit;
use crate::session::{pending_reply_unsent_len, Session, SessionError, SessionModel};
use crate::size::Size;
use crate::snapshot::TerminalSnapshot;
use crate::terminal::TerminalState;
use crate::terminal_model::{action_bytes, pieces, TerminalModel};
use crate::terminal_scrollback::cell_total;
use crate::terminal_types::{Cell, Position, TerminalAction};

verus! {

/// Whether a driver has a session.
pub open spec fn knows(d: DriverModel, id: SessionId) -> bool {
    exists|i: int| 0 <= i < d.sessions.len() && (#[trigger] d.sessions[i]).id == id
}

/// Where a driver has a session.
pub open spec fn is_at(d: DriverModel, id: SessionId, i: int) -> bool {
    0 <= i < d.sessions.len() && d.sessions[i].id == id
}

proof fn lemma_is_at(d: DriverModel, id: SessionId, i: int)
    requires
        d.wf(),
        is_at(d, id, i),
    ensures
        d.has(id),
        d.position(id) == i,
        d.session(id) == d.sessions[i],
{
    let p = d.position(id);
    assert(d.sessions[p].id == id);
    if p < i {
        assert(d.sessions[p].id.number() < d.sessions[i].id.number());
    } else if i < p {
        assert(d.sessions[i].id.number() < d.sessions[p].id.number());
    }
}

/// How many more bytes a session takes: what its queue has room for or, while
/// a reply waits, what there is room for behind that reply.
pub open spec fn room_for_input(s: DriverSessionModel) -> int {
    if s.pending.len() == 0 {
        s.limits.write_queue - s.unsent.len()
    } else {
        s.limits.pending_reply - s.pending.len()
    }
}

/// A session with input behind all that waits.
pub open spec fn with_input(s: DriverSessionModel, bytes: Seq<u8>) -> DriverSessionModel {
    if s.pending.len() == 0 {
        DriverSessionModel { unsent: s.unsent + bytes, ..s }
    } else {
        DriverSessionModel { pending: s.pending + bytes, ..s }
    }
}

/// What becomes of a request to queue `bytes` for the session at `i`, for which
/// `asked` bytes of room are asked. It is granted as a whole or not at all.
pub open spec fn takes_input(
    d: DriverModel,
    after: DriverModel,
    i: int,
    bytes: Seq<u8>,
    asked: int,
    result: Result<(), DriverError>,
) -> bool {
    let s = d.sessions[i];
    let open = s.phase != SessionStatus::Closing;
    &&& result is Ok <==> open && asked <= room_for_input(s)
    &&& !open ==> result == Err::<(), DriverError>(DriverError::SessionClosed(s.id))
    &&& open && asked > room_for_input(s) ==> result == Err::<(), DriverError>(
        DriverError::Backpressure,
    )
    &&& result is Err ==> after == d
    &&& result is Ok ==> after == (DriverModel {
        sessions: d.sessions.update(i, with_input(s, bytes)),
        poll_dirty: true,
        ..d
    })
}

proof fn lemma_takes_input(d: DriverModel, id: SessionId, i: int, bytes: Seq<u8>, asked: int)
    requires
        d.wf(),
        is_at(d, id, i),
        asked >= 0,
    ensures
        takes_input(
            d,
            if d.refusal(id, asked) is Ok {
                d.appended(id, bytes)
            } else {
                d
            },
            i,
            bytes,
            asked,
            d.refusal(id, asked),
        ),
{
    lemma_is_at(d, id, i);
    assert(d.sessions[i].wf());
    reveal(DriverSessionModel::append);
}

/// Raw bytes are queued as they are, if there is room for all of them.
pub proof fn queueing_raw_bytes(
    driver: &mut SessionDriver,
    id: SessionId,
    bytes: &[u8],
    result: Result<(), DriverError>,
    i: int,
)
    requires
        old(driver)@.wf(),
        is_at(old(driver)@, id, i),
        call_ensures(SessionDriver::enqueue_raw, (driver, id, bytes), result),
    ensures
        takes_input(
            old(driver)@,
            final(driver)@,
            i,
            bytes@,
            bytes@.len() as int,
            result,
        ),
{
    lemma_takes_input(old(driver)@, id, i, bytes@, bytes@.len() as int);
}

/// Text is queued in UTF-8, if there is room for all of it.
pub proof fn queueing_text(
    driver: &mut SessionDriver,
    id: SessionId,
    text: &str,
    result: Result<(), DriverError>,
    i: int,
)
    requires
        old(driver)@.wf(),
        is_at(old(driver)@, id, i),
        call_ensures(SessionDriver::enqueue_text, (driver, id, text), result),
    ensures
        takes_input(
            old(driver)@,
            final(driver)@,
            i,
            encode_utf8(text@),
            encode_utf8(text@).len() as int,
            result,
        ),
{
    lemma_takes_input(
        old(driver)@,
        id,
        i,
        encode_utf8(text@),
        encode_utf8(text@).len() as int,
    );
}

/// A paste is queued in UTF-8, between its markers where the child asked for
/// them. Room is asked for with both markers in any case.
pub proof fn queueing_a_paste(
    driver: &mut SessionDriver,
    id: SessionId,
    text: &str,
    result: Result<(), DriverError>,
    i: int,
)
    requires
        old(driver)@.wf(),
        is_at(old(driver)@, id, i),
        encode_utf8(text@).len() + 12 <= usize::MAX,
        call_ensures(SessionDriver::enqueue_paste, (driver, id, text), result),
    ensures
        takes_input(
            old(driver)@,
            final(driver)@,
            i,
            paste_bytes(
                encode_utf8(text@),
                old(driver)@.sessions[i].term.modes,
            ),
            (encode_utf8(text@).len() + 12) as int,
            result,
        ),
{
    lemma_is_at(old(driver)@, id, i);
    lemma_takes_input(
        old(driver)@,
        id,
        i,
        paste_bytes(encode_utf8(text@), old(driver)@.sessions[i].term.modes),
        (encode_utf8(text@).len() + 12) as int,
    );
}

/// A key is queued as the modes of the session's terminal have it. Room is
/// asked for the longest key there is.
pub proof fn queueing_a_key(
    driver: &mut SessionDriver,
    id: SessionId,
    event: KeyEvent,
    result: Result<(), DriverError>,
    i: int,
)
    requires
        old(driver)@.wf(),
        is_at(old(driver)@, id, i),
        call_ensures(SessionDriver::enqueue_key, (driver, id, event), result),
    ensures
        takes_input(
            old(driver)@,
            final(driver)@,
            i,
            key_bytes(event, old(driver)@.sessions[i].term.modes),
            8,
            result,
        ),
{
    lemma_is_at(old(driver)@, id, i);
    lemma_takes_input(
        old(driver)@,
        id,
        i,
        key_bytes(event, old(driver)@.sessions[i].term.modes),
        8,
    );
}

/// What is asked of a session that the driver does not have is refused, and
/// changes nothing.
pub proof fn strangers_are_refused(
    raw: &mut SessionDriver,
    closing: &mut SessionDriver,
    sized: &mut SessionDriver,
    reaping: &mut SessionDriver,
    id: SessionId,
    bytes: &[u8],
    size: Size,
    exit: Option<ObservedExit>,
    queued: Result<(), DriverError>,
    closed: Result<(), DriverError>,
    resized: Result<(), DriverError>,
    reaped: Result<ObservedExit, DriverError>,
)
    requires
        !knows(old(raw)@, id),
        !knows(old(closing)@, id),
        !knows(old(sized)@, id),
        !knows(old(reaping)@, id),
        call_ensures(SessionDriver::enqueue_raw, (raw, id, bytes), queued),
        call_ensures(SessionDriver::close_session, (closing, id), closed),
        call_ensures(SessionDriver::resize, (sized, id, size), resized),
        call_ensures(SessionDriver::reap_session, (reaping, id, exit), reaped),
    ensures
        queued == Err::<(), DriverError>(DriverError::StaleId(id)) && final(raw)@ == old(raw)@,
        closed == Err::<(), DriverError>(DriverError::StaleId(id)) && final(closing)@
            == old(closing)@,
        resized == Err::<(), DriverError>(DriverError::StaleId(id)) && final(sized)@
            == old(sized)@,
        reaped == Err::<ObservedExit, DriverError>(DriverError::StaleId(id)) && final(reaping)@
            == old(reaping)@,
{
}

/// A session is created at the end of the list, under the next number, as long
/// as there is one. Nothing but the poll source changes beside it.
pub proof fn creating_a_session(
    driver: &mut SessionDriver,
    fd: i32,
    config: SessionConfig,
    id: Result<SessionId, DriverError>,
)
    requires
        call_ensures(SessionDriver::create_session, (driver, fd, config), id),
    ensures
        ({
            let d = old(driver)@;
            let after = final(driver)@;
            let count = d.sessions.len() as int;
            &&& id is Ok <==> d.next_id < 0xffff_ffff_ffff_ffff
            &&& id matches Err(error) ==> error == DriverError::IdExhausted && after == d
            &&& id matches Ok(id) ==> {
                &&& id.number() == d.next_id
                &&& after.sessions.len() == count + 1
                &&& after.sessions.take(count) == d.sessions
                &&& after.sessions[count].id == id
                &&& after.sessions[count].fd == fd
                &&& after == (DriverModel {
                    sessions: after.sessions,
                    next_id: (d.next_id + 1) as u64,
                    poll_dirty: true,
                    ..d
                })
            }
        }),
{
    let d = old(driver)@;
    let after = final(driver)@;
    if id is Ok {
        assert(after.sessions.take(d.sessions.len() as int) =~= d.sessions);
    }
}

/// The poll source has one entry for each session that is not closed: its
/// descriptor, its current token, to be read while its stream is open and no
/// reply waits, to be written while anything waits. It is up to date then.
pub proof fn reading_the_poll_source(driver: &mut SessionDriver, source: PollSource, k: int)
    requires
        old(driver)@.wf(),
        call_ensures(SessionDriver::poll_sources, (driver,), source),
        0 <= k < source@.len(),
    ensures
        ({
            let all = registered(old(driver)@.sessions);
            let s = all[k];
            let entry = source@[k];
            &&& source@.len() == all.len()
            &&& entry.fd == s.fd
            &&& entry.token.spec_session_id() == s.id
            &&& entry.token.spec_generation() == s.generation
            &&& s.phase != SessionStatus::Closing
            &&& entry.interests.readable <==> s.phase == SessionStatus::Live && s.pending.len() == 0
            &&& entry.interests.writable <==> s.unsent.len() > 0 || s.pending.len() > 0
            &&& final(driver)@ == (DriverModel { poll_dirty: false, ..old(driver)@ })
        }),
{
    let d = old(driver)@;
    let s = registered(d.sessions)[k];
    crate::driver_laws::closed_sessions_are_not_registered(d.sessions);
    crate::driver_session_laws::registrations_are_in_order(d.sessions);
    assert(d.sessions.contains(s));
    let i = choose|i: int| 0 <= i < d.sessions.len() && d.sessions[i] == s;
    assert(d.sessions[i].wf());
}

/// What is told of a drive that is over: who had a turn, which tokens were
/// rejected, whether any session still has work, and whether the poll source
/// is to be read again, which it counts as once it was told.
pub proof fn finishing_a_drive(driver: &mut SessionDriver, drive: Drive, told: DriveResult)
    requires
        call_ensures(SessionDriver::finish_drive, (driver, drive), told),
    ensures
        ({
            let d = old(driver)@;
            &&& told.has_pending_work <==> exists|i: int|
                0 <= i < d.sessions.len() && (#[trigger] d.sessions[i]).has_work()
            &&& told.poll_source_changed == d.poll_dirty
            &&& told.processed@ == drive.processed@
            &&& told.stale_tokens@ == drive.stale_tokens@
            &&& told.events@.len() == 0
            &&& final(driver)@ == (DriverModel { poll_dirty: false, ..d })
        }),
{
}

/// A session is closed once. Another call leaves it closed, and both succeed.
pub proof fn closing_a_session(
    driver: &mut SessionDriver,
    id: SessionId,
    result: Result<(), DriverError>,
    i: int,
)
    requires
        old(driver)@.wf(),
        is_at(old(driver)@, id, i),
        call_ensures(SessionDriver::close_session, (driver, id), result),
    ensures
        ({
            let d = old(driver)@;
            let after = final(driver)@;
            &&& result is Ok
            &&& d.sessions[i].phase == SessionStatus::Closing ==> after == d
            &&& d.sessions[i].phase != SessionStatus::Closing ==> after == (DriverModel {
                sessions: d.sessions.update(i, after.sessions[i]),
                poll_dirty: true,
                ..d
            })
            &&& after.sessions[i].phase == SessionStatus::Closing
        }),
{
    lemma_is_at(old(driver)@, id, i);
    reveal(DriverSessionModel::close);
}

/// A session is resized unless it is closed. Only its terminal changes, and its
/// revision where the size does.
pub proof fn resizing_a_session(
    driver: &mut SessionDriver,
    asked: &SessionDriver,
    id: SessionId,
    size: Size,
    result: Result<(), DriverError>,
    needed: Result<bool, DriverError>,
    i: int,
)
    requires
        old(driver)@.wf(),
        asked@ == old(driver)@,
        is_at(old(driver)@, id, i),
        call_ensures(SessionDriver::resize, (driver, id, size), result),
        call_ensures(SessionDriver::resize_needed, (asked, id, size), needed),
    ensures
        ({
            let d = old(driver)@;
            let s = d.sessions[i];
            let after = final(driver)@;
            let open = s.phase != SessionStatus::Closing;
            &&& result is Ok <==> open
            &&& needed is Ok <==> open
            &&& !open ==> result == Err::<(), DriverError>(DriverError::SessionClosed(id)) && after
                == d && needed == Err::<bool, DriverError>(DriverError::SessionClosed(id))
            &&& open ==> needed == Ok::<bool, DriverError>(s.term.size != size)
            &&& open ==> after == (DriverModel {
                sessions: d.sessions.update(
                    i,
                    DriverSessionModel {
                        term: s.term.resize(size),
                        revision: after.sessions[i].revision,
                        ..s
                    },
                ),
                ..d
            })
            &&& open && size == s.term.size ==> after.sessions[i].revision == s.revision
            &&& open && size != s.term.size ==> after.sessions[i].revision
                == s.revision.wrapping_add(1)
        }),
{
    lemma_is_at(old(driver)@, id, i);
}

/// The exit of a session is reported once. The session is gone once it was
/// reaped, which takes an exit; the others stay in order.
pub proof fn exits_of_a_session(
    reporting: &mut SessionDriver,
    reaping: &mut SessionDriver,
    id: SessionId,
    exit: ObservedExit,
    seen: Option<ObservedExit>,
    event: Option<DriverEvent>,
    reaped: Result<ObservedExit, DriverError>,
    i: int,
)
    requires
        old(reporting)@.wf(),
        is_at(old(reporting)@, id, i),
        old(reaping)@ == old(reporting)@,
        call_ensures(SessionDriver::report_exit, (reporting, id, exit), event),
        call_ensures(SessionDriver::reap_session, (reaping, id, seen), reaped),
    ensures
        ({
            let d = old(reporting)@;
            let s = d.sessions[i];
            &&& event is Some <==> !s.exit_event_sent
            &&& event matches Some(event) ==> event == (DriverEvent::SessionExited { id, exit })
            &&& final(reporting)@ == (DriverModel {
                sessions: d.sessions.update(i, DriverSessionModel { exit_event_sent: true, ..s }),
                ..d
            })
            &&& reaped is Ok <==> seen is Some
            &&& seen matches Some(exit) ==> reaped == Ok::<ObservedExit, DriverError>(exit)
                && final(reaping)@ == (DriverModel {
                sessions: d.sessions.take(i) + d.sessions.skip(i + 1),
                poll_dirty: true,
                ..d
            })
            &&& seen is None ==> reaped == Err::<ObservedExit, DriverError>(
                DriverError::NotExited(id),
            ) && final(reaping)@ == d
        }),
{
    lemma_is_at(old(reporting)@, id, i);
    let d = old(reporting)@;
    let s = d.sessions[i];
    assert(d.sessions.remove(i) =~= d.sessions.take(i) + d.sessions.skip(i + 1));
    if s.exit_event_sent {
        assert(d.sessions.update(i, DriverSessionModel { exit_event_sent: true, ..s })
            =~= d.sessions);
    }
}

/// Whether a multiplexer has a window.
pub open spec fn has_window(m: MultiplexerModel, window: WindowId) -> bool {
    exists|i: int| 0 <= i < m.windows.len() && (#[trigger] m.windows[i]).id == window
}

/// Whether a multiplexer has a pane.
pub open spec fn has_pane(m: MultiplexerModel, pane: PaneId) -> bool {
    exists|i: int| 0 <= i < m.panes.len() && (#[trigger] m.panes[i]).id == pane
}

/// A window is selected or removed if there is one; else nothing changes.
pub proof fn windows_have_to_exist(
    selecting: &mut Multiplexer,
    removing: &mut Multiplexer,
    window: WindowId,
    selected: Result<(), MultiplexerError>,
    removed: Result<(), MultiplexerError>,
)
    requires
        call_ensures(Multiplexer::select_window, (selecting, window), selected),
        call_ensures(Multiplexer::remove_window, (removing, window), removed),
    ensures
        selected is Ok <==> has_window(old(selecting)@, window),
        removed is Ok <==> has_window(old(removing)@, window),
        selected matches Err(error) ==> error == MultiplexerError::UnknownWindow(window),
        selected is Err ==> final(selecting)@ == old(selecting)@,
        removed matches Err(error) ==> error == MultiplexerError::UnknownWindow(window),
        removed is Err ==> final(removing)@ == old(removing)@,
        selected is Ok ==> final(selecting)@.active == Some(window) && final(selecting)@.windows
            == old(selecting)@.windows && final(selecting)@.panes == old(selecting)@.panes,
        removed is Ok ==> final(removing)@ == old(removing)@.remove_window(window),
{
}

/// A pane is focused if it is one of the window, and removed if there is one;
/// else nothing changes.
pub proof fn panes_have_to_exist(
    focusing: &mut Multiplexer,
    removing: &mut Multiplexer,
    window: WindowId,
    pane: PaneId,
    focused: Result<(), MultiplexerError>,
    removed: Result<(), MultiplexerError>,
)
    requires
        call_ensures(Multiplexer::set_focus, (focusing, window, pane), focused),
        call_ensures(Multiplexer::remove_pane, (removing, pane), removed),
    ensures
        !has_pane(old(focusing)@, pane) ==> focused == Err::<(), MultiplexerError>(
            MultiplexerError::UnknownPane(pane),
        ),
        has_pane(old(focusing)@, pane) && old(focusing)@.pane(pane).window != window ==> focused
            == Err::<(), MultiplexerError>(MultiplexerError::PaneNotInWindow { pane, window }),
        focused is Ok <==> has_pane(old(focusing)@, pane) && old(focusing)@.pane(pane).window
            == window,
        focused is Err ==> final(focusing)@ == old(focusing)@,
        focused is Ok ==> final(focusing)@ == old(focusing)@.set_focus(window, pane),
        removed is Ok <==> has_pane(old(removing)@, pane),
        removed matches Err(error) ==> error == MultiplexerError::UnknownPane(pane),
        removed is Err ==> final(removing)@ == old(removing)@,
        removed is Ok ==> final(removing)@ == old(removing)@.remove_pane(pane),
{
}

/// Windows and panes are created under the next numbers, as long as there are
/// any. A pane needs a window. What cannot be created changes nothing.
pub proof fn creating_needs_numbers(
    first: &mut Multiplexer,
    second: &mut Multiplexer,
    window: WindowId,
    size: Size,
    opened: Result<(WindowId, PaneId), MultiplexerError>,
    split: Result<PaneId, MultiplexerError>,
)
    requires
        call_ensures(Multiplexer::create_window, (first, size), opened),
        call_ensures(Multiplexer::create_pane, (second, window, size), split),
    ensures
        opened is Ok <==> old(first)@.next_window < 0xffff_ffff_ffff_ffff && old(first)@.next_pane
            < 0xffff_ffff_ffff_ffff,
        opened matches Ok((w, p)) ==> {
            &&& w.number() == old(first)@.next_window
            &&& p.number() == old(first)@.next_pane
            &&& final(first)@ == old(first)@.create_window(w, p, size)
        },
        opened matches Err(error) ==> error == MultiplexerError::IdExhausted && final(first)@
            == old(first)@,
        split is Ok <==> has_window(old(second)@, window) && old(second)@.next_pane
            < 0xffff_ffff_ffff_ffff,
        split matches Ok(p) ==> {
            &&& p.number() == old(second)@.next_pane
            &&& final(second)@ == old(second)@.create_pane(window, p, size)
        },
        split matches Err(error) ==> final(second)@ == old(second)@ && error == (if has_window(
            old(second)@,
            window,
        ) {
            MultiplexerError::IdExhausted
        } else {
            MultiplexerError::UnknownWindow(window)
        }),
{
}

/// An open session takes input and sizes; a closed one refuses them and stays
/// as it is.
pub proof fn closed_sessions_refuse(
    typing: &mut Session,
    sizing: &mut Session,
    input: Input<'_>,
    size: Size,
    typed: Result<(), SessionError>,
    sized: Result<(), SessionError>,
)
    requires
        call_ensures(Session::enqueue_input, (typing, input), typed),
        call_ensures(Session::resize, (sizing, size), sized),
    ensures
        ({
            let a = old(typing)@;
            let b = old(sizing)@;
            let a_open = a.phase == crate::session::SessionStatus::Live || a.phase
                == crate::session::SessionStatus::Eof;
            let b_open = b.phase == crate::session::SessionStatus::Live || b.phase
                == crate::session::SessionStatus::Eof;
            &&& typed is Ok <==> a_open
            &&& sized is Ok <==> b_open
            &&& !a_open ==> typed == Err::<(), SessionError>(SessionError::Closed)
            &&& !a_open ==> final(typing)@ == a
            &&& !b_open ==> sized == Err::<(), SessionError>(SessionError::Closed)
            &&& !b_open ==> final(sizing)@ == b
            &&& a_open ==> final(typing)@.unsent == a.unsent + input.bytes(a.term.modes)
            &&& b_open ==> final(sizing)@ == (SessionModel {
                term: b.term.resize(size),
                revision: final(sizing)@.revision,
                ..b
            })
            &&& b_open && size == b.term.size ==> final(sizing)@.revision == b.revision
            &&& b_open && size != b.term.size ==> final(sizing)@.revision
                == b.revision.wrapping_add(1)
        }),
{
    reveal(SessionModel::enqueue);
}

/// The first exit of a child is the one that is kept.
pub proof fn the_first_exit_counts(session: &mut Session, exit: ObservedExit, done: ())
    requires
        call_ensures(Session::note_exit, (session, exit), done),
    ensures
        old(session)@.exit is Some ==> final(session)@ == old(session)@,
        old(session)@.exit is None ==> final(session)@.exit == Some(exit),
{
    reveal(SessionModel::reap);
}

/// Replies that were written leave from the front. Nothing else of the emulator
/// changes.
pub proof fn replies_leave_in_order(
    term: &mut TerminalState,
    n: usize,
    done: (),
)
    requires
        n <= old(term)@.replies.len(),
        call_ensures(TerminalState::advance_reply_bytes, (term, n), done),
    ensures
        old(term)@.replies.take(n as int) + final(term)@.replies == old(term)@.replies,
        final(term)@ == (TerminalModel { replies: final(term)@.replies, ..old(term)@ }),
        final(term).spec_revision() == old(term).spec_revision(),
{
    let before = old(term)@.replies;
    assert(before.take(n as int) + before.skip(n as int) =~= before);
}

/// A driver begins without sessions, with the configuration that it was given,
/// unless that is not valid. What it should register is to be read.
pub proof fn drivers_begin_empty(
    config: DriverConfig,
    next_id: u64,
    made: Result<SessionDriver, DriverError>,
)
    requires
        call_ensures(SessionDriver::starting_at, (config, next_id), made),
    ensures
        made is Ok <==> config.read_byte_quantum > 0 && config.read_syscall_quantum > 0
            && config.write_byte_quantum > 0 && config.write_syscall_quantum > 0
            && config.drive_byte_budget > 0 && config.drive_syscall_budget > 0
            && config.read_buffer_limit > 0 && config.write_queue_limit >= 14
            && config.pending_reply_limit >= 14,
        made matches Ok(driver) ==> driver@.sessions.len() == 0 && driver@.config == config
            && driver@.next_id == next_id && driver@.cursor is None && driver@.poll_dirty,
        made matches Err(error) ==> error is InvalidConfig && Some(error->InvalidConfig_0)
            == config.first_error(),
{
    crate::driver_session_laws::configurations_are_rejected_for_a_reason(config);
}

/// What can be asked of a session goes by its identifier: how it stands, and
/// what its terminal shows.
pub proof fn asking_about_a_session(
    driver: &SessionDriver,
    id: SessionId,
    status: Result<SessionStatus, DriverError>,
    shown: Result<TerminalSnapshot, DriverError>,
    i: int,
)
    requires
        driver@.wf(),
        is_at(driver@, id, i),
        call_ensures(SessionDriver::session_status, (driver, id), status),
        call_ensures(SessionDriver::snapshot, (driver, id), shown),
    ensures
        status == Ok::<SessionStatus, DriverError>(driver@.sessions[i].phase),
        shown is Ok,
        shown matches Ok(shown) ==> shown@ == driver@.sessions[i].term.content()
            && shown.spec_revision() == driver@.sessions[i].revision,
{
    lemma_is_at(driver@, id, i);
}

/// An exit is recorded for a pane that has none yet. Events are handed out
/// once, in the order in which they were told.
pub proof fn exits_and_events_are_told_once(
    exiting: &mut Multiplexer,
    draining: &mut Multiplexer,
    pane: PaneId,
    status: ObservedExit,
    recorded: bool,
    events: Vec<LifecycleEvent>,
)
    requires
        call_ensures(Multiplexer::note_exit, (exiting, pane, status), recorded),
        call_ensures(Multiplexer::drain_events, (draining,), events),
    ensures
        recorded <==> has_pane(old(exiting)@, pane) && old(exiting)@.pane(pane).exit is None,
        !recorded ==> final(exiting)@ == old(exiting)@,
        recorded ==> final(exiting)@ == old(exiting)@.note_exit(pane, status),
        events@ == old(draining)@.events,
        final(draining)@.events.len() == 0,
        final(draining)@ == (MultiplexerModel { events: Seq::empty(), ..old(draining)@ }),
{
}

/// How much of a pending reply waits: what lies behind the bytes that were
/// written.
pub proof fn unsent_replies(written: usize, range: Option<&Range<usize>>, len: usize)
    requires
        call_ensures(pending_reply_unsent_len, (written, range), len),
    ensures
        range is None ==> len == 0,
        range matches Some(range) ==> range.start <= range.end ==> {
            &&& written <= range.start ==> len == range.end - range.start
            &&& range.start <= written <= range.end ==> len == range.end - written
            &&& written >= range.end ==> len == 0
        },
{
}

/// Cutting down the history of an emulator, or of a session, leaves its newest
/// lines and changes nothing else.
pub proof fn cutting_down_the_history(
    term: &mut TerminalState,
    session: &mut Session,
    max_lines: usize,
    max_cells: usize,
    cut: (),
    done: (),
)
    requires
        call_ensures(TerminalState::trim_scrollback, (term, max_lines, max_cells), cut),
        call_ensures(Session::trim_scrollback, (session, max_lines, max_cells), done),
    ensures
        ({
            let left = final(term)@.scrollback;
            let kept = final(session)@.term.scrollback;
            &&& left.is_suffix_of(old(term)@.scrollback)
            &&& left.len() <= max_lines && cell_total(left) <= max_cells
            &&& final(term)@ == (TerminalModel { scrollback: left, ..old(term)@ })
            &&& final(term).spec_revision() == old(term).spec_revision()
            &&& kept.is_suffix_of(old(session)@.term.scrollback)
            &&& kept.len() <= max_lines && cell_total(kept) <= max_cells
            &&& final(session)@ == (SessionModel {
                term: TerminalModel { scrollback: kept, ..old(session)@.term },
                ..old(session)@
            })
        }),
{
    crate::value_laws::histories_keep_to_their_limits(
        old(term)@.scrollback,
        max_lines as nat,
        max_cells as nat,
    );
    crate::value_laws::histories_keep_to_their_limits(
        old(session)@.term.scrollback,
        max_lines as nat,
        max_cells as nat,
    );
}

/// An emulator takes output as its model does. Its revision goes on by one
/// where that counts as a visible change, and then only: while it stays, what
/// can be seen does.
pub proof fn feeding_an_emulator(term: &mut TerminalState, bytes: &[u8], done: ())
    requires
        call_ensures(TerminalState::feed, (term, bytes), done),
    ensures
        ({
            let m = old(term)@;
            let after = final(term)@;
            let r = old(term).spec_revision();
            &&& after == m.feed(bytes@)
            &&& m.replies.is_prefix_of(after.replies)
            &&& final(term).spec_revision() == r || final(term).spec_revision()
                == r.wrapping_add(1)
            &&& final(term).spec_revision() == r.wrapping_add(1) <==> m.feed_shows(bytes@)
            &&& final(term).spec_revision() == r ==> after.cursor == m.cursor && after.pen == m.pen
                && after.modes == m.modes && after.title == m.title && after.size == m.size
                && after.on_alternate == m.on_alternate && (if m.on_alternate {
                after.alternate == m.alternate
            } else {
                after.primary == m.primary
            })
        }),
{
    if !old(term)@.feed_shows(bytes@) {
        crate::terminal_laws::quiet_feeds_show_nothing(old(term)@, bytes@);
    }
}

/// Replies that are taken as actions leave all at once, and nothing else of
/// the emulator changes.
pub proof fn replies_become_actions(term: &mut TerminalState, actions: Vec<TerminalAction>)
    requires
        call_ensures(TerminalState::drain_actions, (term,), actions),
    ensures
        action_bytes(actions@).flatten() == old(term)@.replies,
        is_cut_at_escapes(action_bytes(actions@)),
        final(term)@.replies.len() == 0,
        final(term)@ == (TerminalModel { replies: Seq::empty(), ..old(term)@ }),
        final(term).spec_revision() == old(term).spec_revision(),
{
    lemma_pieces(old(term)@.replies);
}

/// Every part is begun by an escape, except for what comes before the first
/// one, and none holds another.
pub open spec fn is_cut_at_escapes(parts: Seq<Seq<u8>>) -> bool {
    &&& forall|k: int| 0 <= k < parts.len() ==> (#[trigger] parts[k]).len() > 0
    &&& forall|k: int| 0 < k < parts.len() ==> (#[trigger] parts[k])[0] == 0x1b
    &&& forall|k: int, j: int|
        0 <= k < parts.len() && 0 < j < parts[k].len() ==> #[trigger] parts[k][j] != 0x1b
}

proof fn lemma_pieces(bytes: Seq<u8>)
    ensures
        pieces(bytes).flatten() == bytes,
        is_cut_at_escapes(pieces(bytes)),
    decreases bytes.len(),
{
    if bytes.len() == 0 {
        assert(pieces(bytes).flatten() =~= bytes);
    } else {
        let front = pieces(bytes.drop_last());
        let last = bytes.last();
        lemma_pieces(bytes.drop_last());
        assert(bytes.drop_last().push(last) =~= bytes);
        if front.len() == 0 || last == 0x1b {
            front.lemma_flatten_push(seq![last]);
            assert(pieces(bytes).flatten() =~= bytes);
        } else {
            let rest = front.drop_last();
            rest.lemma_flatten_push(front.last());
            rest.lemma_flatten_push(front.last().push(last));
            assert(rest.push(front.last()) =~= front);
            assert(pieces(bytes).flatten() =~= bytes);
        }
    }
}

/// A cell of a snapshot can be read where it has one.
pub proof fn reading_a_snapshot(shown: &TerminalSnapshot, at: Position, cell: Option<Cell>)
    requires
        call_ensures(TerminalSnapshot::cell, (shown, at), cell),
    ensures
        cell is Some <==> at.row < shown@.size.row_count() && at.col < shown@.size.col_count(),
        cell matches Some(cell) ==> cell == shown@.rows[at.row as int][at.col as int],
{
}

/// A cell can be read where the screen has one, and is what that screen shows.
pub proof fn reading_a_cell(term: &TerminalState, at: Position, cell: Option<Cell>)
    requires
        call_ensures(TerminalState::cell, (term, at), cell),
    ensures
        cell is Some <==> at.row < term@.size.row_count() && at.col < term@.size.col_count(),
        cell matches Some(cell) ==> cell == (if term@.on_alternate {
            term@.alternate[at.row as int][at.col as int]
        } else {
            term@.primary[at.row as int][at.col as int]
        }),
{
}

/// Snapshots are equal where they show the same and hold the same history. The
/// revision is no part of it.
pub proof fn snapshots_that_are_equal(a: &TerminalSnapshot, b: &TerminalSnapshot)
    ensures
        a.eq_spec(b) <==> a@.size == b@.size && a@.rows == b@.rows && a@.cursor == b@.cursor
            && a@.modes == b@.modes && a@.style == b@.style && a@.title == b@.title
            && a@.on_alternate == b@.on_alternate && a@.scrollback == b@.scrollback,
{
}

/// Emulators are in the same state where they would show the same from then on:
/// both screens, what is saved, what is pending, the history and all settings.
pub proof fn emulators_in_the_same_state(a: &TerminalState, b: &TerminalState, same: bool)
    requires
        call_ensures(TerminalState::same_state, (a, b), same),
    ensures
        same <==> a@.size == b@.size && a@.primary == b@.primary && a@.alternate == b@.alternate
            && a@.on_alternate == b@.on_alternate && a@.cursor == b@.cursor && a@.saved == b@.saved
            && a@.wrap_pending == b@.wrap_pending && a@.pen == b@.pen && a@.modes == b@.modes
            && a@.title == b@.title && a@.scroll_top == b@.scroll_top && a@.scroll_bottom
            == b@.scroll_bottom && a@.replies == b@.replies && a@.scrollback == b@.scrollback,
{
}

/// Modifiers add up: each is held once it was added, and stays.
pub proof fn modifiers_add_up(
    none: Modifiers,
    m: Modifiers,
    ctrl: Modifiers,
    alt: Modifiers,
    shift: Modifiers,
)
    requires
        call_ensures(Modifiers::new, (), none),
        call_ensures(Modifiers::ctrl, (m,), ctrl),
        call_ensures(Modifiers::alt, (m,), alt),
        call_ensures(Modifiers::shift, (m,), shift),
    ensures
        !none.ctrl && !none.alt && !none.shift,
        ctrl.ctrl && ctrl.alt == m.alt && ctrl.shift == m.shift,
        alt.alt && alt.ctrl == m.ctrl && alt.shift == m.shift,
        shift.shift && shift.ctrl == m.ctrl && shift.alt == m.alt,
{
}

/// A size has at least one row and one column, and keeps both.
pub proof fn sizes_have_cells(rows: u16, cols: u16, size: Option<Size>)
    requires
        call_ensures(Size::new, (rows, cols), size),
    ensures
        size is Some <==> rows > 0 && cols > 0,
        size matches Some(size) ==> size.row_count() == rows && size.col_count() == cols,
{
}

/// The cells of the history are counted, as far as a count goes.
pub proof fn counting_the_history(term: &TerminalState, cells: usize, lines: usize)
    requires
        call_ensures(TerminalState::scrollback_cells, (term,), cells),
        call_ensures(TerminalState::scrollback_len, (term,), lines),
    ensures
        cell_total(term@.scrollback) <= usize::MAX ==> cells == cell_total(term@.scrollback),
        cell_total(term@.scrollback) > usize::MAX ==> cells == usize::MAX,
        lines == term@.scrollback.len(),
{
}

} // verus!
