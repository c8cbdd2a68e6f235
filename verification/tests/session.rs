//! Tests for `termnix::Session`, driven against a child that lives in the
//! test: bytes that the session writes arrive at once, and what the child
//! answers can be read at once.

use std::collections::VecDeque;

use termnix::pty::is_pty_gone;
use termnix::session::pending_reply_unsent_len;
use termnix::{
    encode_key, encode_paste, Input, Interests, KeyCode, KeyEvent, ObservedExit, Position,
    PumpAction, PumpBudget, ReadOutcome, Session, SessionError, SessionStatus, Size, WriteOutcome,
};

fn size(rows: u16, cols: u16) -> Size {
    Size::new(rows, cols).expect("rows and cols are non-zero")
}

/// The far end of a PTY.
#[derive(Default)]
struct Child {
    /// What can still be read from the child.
    output: VecDeque<u8>,
    /// Everything the child has received.
    received: Vec<u8>,
    /// The part of the current line that the child has received.
    line: Vec<u8>,
    /// What the child puts in front of each line that it answers.
    prefix: Option<&'static str>,
    /// Whether the child has closed its end.
    closed: bool,
    /// How many bytes the child takes before it would block.
    capacity: Option<usize>,
}

impl Child {
    fn printing(text: &str) -> Child {
        Child {
            output: text.bytes().collect(),
            ..Child::default()
        }
    }

    fn answering(prefix: &'static str) -> Child {
        Child {
            prefix: Some(prefix),
            ..Child::default()
        }
    }

    fn print(&mut self, text: &str) {
        self.output.extend(text.bytes());
    }

    fn write(&mut self, bytes: &[u8]) -> WriteOutcome {
        let mut taken = bytes.len();
        if let Some(left) = self.capacity {
            if left == 0 {
                return WriteOutcome::WouldBlock;
            }
            taken = taken.min(left);
            self.capacity = Some(left - taken);
        }
        for &byte in &bytes[..taken] {
            self.received.push(byte);
            if byte == b'\n' || byte == b'\r' {
                if let Some(prefix) = self.prefix {
                    let line = String::from_utf8_lossy(&self.line).into_owned();
                    self.print(&format!("{prefix}{line}\r\n"));
                }
                self.line.clear();
            } else {
                self.line.push(byte);
            }
        }
        WriteOutcome::Wrote(taken)
    }
}

/// Runs one pump to its end. Returns how many calls it made.
fn pump(session: &mut Session, child: &mut Child, budget: PumpBudget) -> usize {
    let (mut pump, mut action) = session.pump_io(budget);
    let mut calls = 0;
    loop {
        action = match action {
            PumpAction::Write(len) => {
                let bytes = session.unsent_bytes()[..len].to_vec();
                let outcome = child.write(&bytes);
                session.note_write(&mut pump, outcome)
            }
            PumpAction::Read(len) => {
                let len = len.min(child.output.len());
                let bytes: Vec<u8> = child.output.drain(..len).collect();
                if bytes.is_empty() && !child.closed {
                    session.note_read(&mut pump, ReadOutcome::WouldBlock)
                } else {
                    session.note_read(&mut pump, ReadOutcome::Bytes(&bytes))
                }
            }
            PumpAction::Done => return calls,
        };
        calls += 1;
    }
}

/// Pumps until the session has nothing to do without new readiness.
fn pump_all(session: &mut Session, child: &mut Child) {
    pump(session, child, PumpBudget::default());
    while session.needs_pump() {
        pump(session, child, PumpBudget::default());
    }
}

fn visible_text(session: &Session) -> String {
    let snapshot = session.terminal_state().snapshot();
    let mut out = String::new();
    for line in snapshot.scrollback() {
        let row: String = line.cells().iter().filter(|c| c.width != 0).map(|c| c.ch).collect();
        out.push_str(row.trim_end());
        out.push('\n');
    }
    for row in snapshot.rows() {
        let row: String = row.iter().filter(|c| c.width != 0).map(|c| c.ch).collect();
        out.push_str(row.trim_end());
        out.push('\n');
    }
    out
}

#[test]
fn pending_reply_counts_only_intersection_with_unsent() {
    let range: std::ops::Range<usize> = 100..105;
    assert_eq!(pending_reply_unsent_len(0, Some(&range)), 5);
    assert_eq!(pending_reply_unsent_len(100, Some(&range)), 5);
    assert_eq!(pending_reply_unsent_len(102, Some(&range)), 3);
    assert_eq!(pending_reply_unsent_len(105, Some(&range)), 0);
    assert_eq!(pending_reply_unsent_len(0, None), 0);
}

#[test]
fn pty_gone_only_matches_eio() {
    // Classification keys on the number of the system error, not on the kind
    // of error: an error that is made of a kind has no number.
    let number = |err: std::io::Error| err.raw_os_error();
    assert!(is_pty_gone(number(std::io::Error::from_raw_os_error(libc::EIO))));

    assert!(!is_pty_gone(number(std::io::ErrorKind::WouldBlock.into())));
    assert!(!is_pty_gone(number(std::io::ErrorKind::Interrupted.into())));
    assert!(!is_pty_gone(number(std::io::ErrorKind::BrokenPipe.into())));
    assert!(!is_pty_gone(number(std::io::ErrorKind::ReadOnlyFilesystem.into())));
    assert!(!is_pty_gone(Some(libc::EAGAIN)));
}

#[test]
fn test_session_decodes_child_output_into_terminal_state() {
    let mut session = Session::new(size(24, 80));
    let mut child = Child::printing("hello-session\r\n");
    child.closed = true;
    pump_all(&mut session, &mut child);
    assert!(visible_text(&session).contains("hello-session"));
    assert_eq!(session.status(), SessionStatus::Eof);
}

#[test]
fn test_session_input_routes_to_the_target_session_only() {
    let mut a = Session::new(size(24, 80));
    let mut b = Session::new(size(24, 80));
    let mut child_a = Child::answering("A:");
    let mut child_b = Child::answering("B:");
    a.enqueue_input(Input::Raw(b"hello-a\n")).expect("enqueue a");
    b.enqueue_input(Input::Raw(b"hello-b\n")).expect("enqueue b");
    pump_all(&mut a, &mut child_a);
    pump_all(&mut b, &mut child_b);
    let text_a = visible_text(&a);
    let text_b = visible_text(&b);
    assert!(text_a.contains("A:hello-a"));
    assert!(text_b.contains("B:hello-b"));
    assert!(!text_a.contains("B:hello-b"));
    assert!(!text_b.contains("A:hello-a"));
}

#[test]
fn key_text_paste_and_raw_reach_the_child() {
    let mut session = Session::new(size(24, 80));
    let mut child = Child::default();
    let modes = session.terminal_state().modes();
    session.enqueue_input(Input::Raw(b"AB")).expect("text");
    session
        .enqueue_input(Input::Raw(&encode_key(KeyEvent::new(KeyCode::Enter), modes)))
        .expect("enter");
    session
        .enqueue_input(Input::Raw(&encode_paste("CD", modes)))
        .expect("paste");
    session.enqueue_input(Input::Raw(b"EFGH")).expect("raw");
    pump_all(&mut session, &mut child);
    // A B \r C D E F G H
    assert_eq!(child.received, vec![65, 66, 13, 67, 68, 69, 70, 71, 72]);
}

#[test]
fn inputs_are_encoded_with_the_modes_of_the_session() {
    let mut session = Session::new(size(24, 80));
    let mut child = Child::printing("\x1b[?1h\x1b[?2004h");
    pump_all(&mut session, &mut child);
    let up = Input::Key(KeyEvent::new(KeyCode::Up));
    assert_eq!(session.input_byte_len(up), 3);
    assert_eq!(session.input_byte_len(Input::Paste(b"x")), 13);
    session.enqueue_input(up).expect("up");
    session.enqueue_input(Input::Paste(b"x")).expect("paste");
    assert_eq!(session.write_queue_len(), 16);
    pump_all(&mut session, &mut child);
    assert_eq!(child.received, b"\x1bOA\x1b[200~x\x1b[201~".to_vec());
}

#[test]
fn test_session_query_reply_returns_to_the_querying_session() {
    let mut session = Session::new(size(24, 80));
    let mut child = Child::printing("\x1b[c");
    pump_all(&mut session, &mut child);
    // ESC [ ? 6 c
    assert_eq!(child.received, vec![27, 91, 63, 54, 99]);
}

#[test]
fn input_and_reply_keep_fifo_order() {
    // The child reads "A" and then asks, so "BT" was accepted before the reply
    // and "CD" is accepted after it.
    let mut session = Session::new(size(24, 80));
    let mut child = Child {
        capacity: Some(1),
        ..Child::default()
    };
    session.enqueue_input(Input::Raw(b"ABT")).expect("accept before reply");
    pump_all(&mut session, &mut child);
    assert_eq!(child.received, b"A".to_vec());
    child.print("\x1b[cQ_SENT");
    pump_all(&mut session, &mut child);
    assert!(
        !visible_text(&session).contains("Q_SENT"),
        "decoding goes on only once the reply is written"
    );
    session.enqueue_input(Input::Raw(b"CD")).expect("accept after reply");
    child.capacity = None;
    pump_all(&mut session, &mut child);
    assert_eq!(
        child.received[1..],
        [66, 84, 27, 91, 63, 54, 99, 67, 68]
    );
    assert!(visible_text(&session).contains("Q_SENT"));
}

#[test]
fn reply_flood_is_bounded_and_nothing_is_dropped() {
    // 50 DA queries produce 50 replies (250 bytes). Decoding pauses after
    // each reply until it is written, so no more than one reply is pending
    // even while the child never drains.
    let mut session = Session::new(size(24, 80));
    let mut child = Child::printing(&"\x1b[c".repeat(50));
    child.capacity = Some(0);
    pump_all(&mut session, &mut child);
    let metrics = session.metrics();
    assert!(
        metrics.pending_reply_bytes <= 14,
        "pending reply exceeded the internal bound: {}",
        metrics.pending_reply_bytes
    );
    assert_eq!(metrics.pending_reply_bytes, 5);
    assert_eq!(
        metrics.pending_input_bytes + metrics.pending_reply_bytes,
        metrics.pending_write_bytes,
        "reply/input split must partition the write queue"
    );
    assert_eq!(session.write_queue_len(), 5);
    assert_eq!(metrics.terminal_reply_bytes_generated, 5);
    // 49 queries are still in the read buffer.
    assert_eq!(metrics.read_buffer_bytes, 147);
    assert_eq!(metrics.max_read_buffer_bytes, 150);
    assert_eq!(
        session.interests(),
        Interests {
            readable: false,
            writable: true
        }
    );
    child.capacity = None;
    pump_all(&mut session, &mut child);
    assert_eq!(
        session.metrics().terminal_reply_bytes_generated,
        250,
        "a reply was dropped"
    );
    assert_eq!(session.metrics().max_pending_write_bytes, 5);
    assert_eq!(session.counters().reply_bytes_written, 250);
    assert_eq!(session.counters().input_bytes_written, 0);
    assert_eq!(child.received, b"\x1b[?6c".repeat(50));
}

#[test]
fn metrics_reflect_pending_and_cumulative_state() {
    let mut session = Session::new(size(24, 80));
    let mut child = Child::answering("X:");
    session.enqueue_input(Input::Raw(b"hello\n")).expect("enqueue");

    let before = session.metrics();
    assert_eq!(before.input_bytes_enqueued, 6);
    assert_eq!(before.pending_write_bytes, 6);
    assert_eq!(before.pending_input_bytes, 6);
    assert_eq!(before.pending_reply_bytes, 0);
    assert_eq!(session.counters().input_bytes_enqueued, 6);
    assert_eq!(session.write_queue_len(), 6);
    assert!(session.interests().writable, "writable interest missing");
    assert!(session.needs_pump(), "queued input should need a pump");

    pump_all(&mut session, &mut child);
    assert!(visible_text(&session).contains("X:hello"));
    let metrics = session.metrics();
    assert!(metrics.pty_bytes_written >= 6, "bytes not written");
    assert_eq!(metrics.pty_bytes_written, 6);
    assert_eq!(metrics.pending_write_bytes, 0);
    assert_eq!(metrics.max_pending_write_bytes, 6);
    let after = session.counters();
    assert_eq!(after.input_bytes_written, 6);
    assert_eq!(after.reply_bytes_written, 0);
    assert_eq!(after.pty_bytes_read, 9);
    assert_eq!(after.terminal_bytes_processed, 9);
    assert_eq!(session.write_queue_len(), 0);
    assert!(!session.interests().writable, "stale writable interest");
    // With nothing queued and the fd drained, no immediate re-pump is
    // requested.
    assert!(!session.needs_pump(), "no work should remain after a full drain");
}

#[test]
fn test_session_resize_updates_child_and_terminal_state() {
    let mut session = Session::new(size(24, 80));
    assert_eq!(session.resize_needed(size(24, 80)), Ok(false));
    assert_eq!(session.resize_needed(size(33, 121)), Ok(true));
    session.resize(size(33, 121)).expect("resize");
    assert_eq!(session.terminal_state().size(), size(33, 121));
    assert_eq!(session.resize_needed(size(33, 121)), Ok(false));
}

#[test]
fn try_wait_reaps_and_keeps_state_readable() {
    let mut session = Session::new(size(24, 80));
    let mut child = Child::printing("bye\r\n");
    child.closed = true;
    pump_all(&mut session, &mut child);
    assert_eq!(session.status(), SessionStatus::Eof);
    assert!(session.has_fd());
    assert!(visible_text(&session).contains("bye"));

    assert_eq!(session.exit_status(), None);
    session.note_exit(ObservedExit::Exited { code: 7 });
    assert_eq!(session.exit_status(), Some(ObservedExit::Exited { code: 7 }));
    assert_eq!(session.status(), SessionStatus::Reaped);

    // After the reap the state and the counters remain accessible.
    assert!(visible_text(&session).contains("bye"));
    assert!(session.metrics().pty_bytes_read > 0);
    assert!(session.terminal_state().size().rows() > 0);
    assert!(!session.has_fd(), "fd should be gone after reap");

    // The first report stays.
    session.note_exit(ObservedExit::Exited { code: 8 });
    assert_eq!(session.exit_status(), Some(ObservedExit::Exited { code: 7 }));
}

#[test]
fn try_wait_before_eof_still_drains_output() {
    // The child is reaped as soon as it exits; what it wrote before must still
    // be readable until EOF.
    let mut session = Session::new(size(24, 80));
    let text: String = (1..=200).map(|n| format!("{n}\r\n")).collect();
    let mut child = Child::printing(&text);
    child.closed = true;
    session.note_exit(ObservedExit::Exited { code: 3 });
    assert_eq!(session.status(), SessionStatus::Live);
    assert!(session.has_fd());
    pump_all(&mut session, &mut child);
    assert!(visible_text(&session).contains("200"), "final output lost");
    assert_eq!(session.status(), SessionStatus::Reaped);
    assert_eq!(session.exit_status(), Some(ObservedExit::Exited { code: 3 }));
}

#[test]
fn closed_session_rejects_input_and_resize() {
    let mut session = Session::new(size(24, 80));
    // Open session accepts all bytes.
    session.enqueue_input(Input::Raw(b"hello")).expect("accept while open");
    session.close();
    assert_eq!(session.status(), SessionStatus::Closing);
    assert_eq!(session.write_queue_len(), 0);
    assert!(!session.has_fd());
    assert!(!session.needs_pump());
    // A pump after close does nothing.
    let mut child = Child::printing("late");
    assert_eq!(pump(&mut session, &mut child, PumpBudget::default()), 0);
    assert_eq!(session.counters().pump_calls, 0);

    assert_eq!(session.enqueue_input(Input::Raw(b"x")), Err(SessionError::Closed));
    assert_eq!(session.resize_needed(size(40, 40)), Err(SessionError::Closed));
    assert_eq!(session.resize(size(40, 40)), Err(SessionError::Closed));
    assert_eq!(session.terminal_state().size(), size(24, 80));
    session.close();
    assert_eq!(session.status(), SessionStatus::Closing);
    session.note_exit(ObservedExit::Signaled { signal: 9, core_dumped: false });
    assert_eq!(session.status(), SessionStatus::Reaped);
}

#[test]
fn closing_after_the_child_was_reaped_spends_the_session() {
    let mut session = Session::new(size(2, 2));
    session.note_exit(ObservedExit::Exited { code: 0 });
    assert_eq!(session.status(), SessionStatus::Live);
    session.close();
    assert_eq!(session.status(), SessionStatus::Reaped);
}

#[test]
fn multiple_sessions_are_driven_independently() {
    let mut a = Session::new(size(24, 80));
    let mut b = Session::new(size(24, 80));
    pump_all(&mut a, &mut Child::printing("A_READY\r\n"));
    pump_all(&mut b, &mut Child::printing("B_READY\r\n"));
    let text_a = visible_text(&a);
    let text_b = visible_text(&b);
    assert!(text_a.contains("A_READY") && text_b.contains("B_READY"));
    assert!(!text_a.contains("B_READY"), "A mixed in B output: {text_a:?}");
    assert!(!text_b.contains("A_READY"), "B mixed in A output: {text_b:?}");
}

#[test]
fn trim_scrollback_via_session_matches_terminal_state() {
    let mut session = Session::new(size(24, 80));
    let text: String = (1..=40).map(|n| format!("line-{n:02}\r\n")).collect();
    pump_all(&mut session, &mut Child::printing(&text));
    let before = session.metrics();
    assert!(before.scrollback_lines >= 10);
    assert_eq!(before.scrollback_lines, before.max_scrollback_lines);
    assert!(before.scrollback_cells > 0);
    assert_eq!(session.terminal_state().scrollback_len(), 17);
    assert_eq!(session.terminal_state().scrollback_cells(), 17 * 80);

    session.trim_scrollback(5, usize::MAX);
    let after = session.metrics();
    assert_eq!(after.scrollback_lines, 5);
    assert_eq!(after.scrollback_cells, 5 * 80);
    assert_eq!(after.max_scrollback_lines, 17);
    assert_eq!(after.max_scrollback_cells, 17 * 80);
    assert_eq!(session.terminal_state().scrollback_len(), 5);
    // Each retained row keeps its full 80-cell width.
    assert_eq!(session.terminal_state().scrollback_cells(), 5 * 80);

    session.trim_scrollback(usize::MAX, 0);
    assert_eq!(session.metrics().scrollback_lines, 0);
    assert_eq!(session.metrics().scrollback_cells, 0);
    assert_eq!(session.terminal_state().scrollback_len(), 0);
    assert_eq!(session.terminal_state().scrollback_cells(), 0);
}

#[test]
fn an_empty_budget_does_no_work_and_is_counted() {
    let mut session = Session::new(size(2, 8));
    let mut child = Child::printing("hi");
    session.enqueue_input(Input::Raw(b"x")).expect("enqueue");
    for budget in [
        PumpBudget { bytes: 0, syscalls: 8 },
        PumpBudget { bytes: 8, syscalls: 0 },
    ] {
        assert_eq!(pump(&mut session, &mut child, budget), 0);
        assert!(session.needs_pump());
    }
    assert_eq!(session.counters().pump_calls, 2);
    assert_eq!(session.counters().pump_budget_exhaustions, 2);
    assert_eq!(session.counters().write_syscalls, 0);
    assert_eq!(session.write_queue_len(), 1);
}

#[test]
fn a_pump_keeps_to_its_budget() {
    let mut session = Session::new(size(4, 80));
    let mut child = Child::printing(&"x".repeat(500));
    let budget = PumpBudget { bytes: 48, syscalls: 4 };
    let calls = pump(&mut session, &mut child, budget);
    assert!(calls <= 4);
    assert!(session.counters().pty_bytes_read <= 48);
    assert_eq!(session.counters().pump_budget_exhaustions, 1);
    assert!(session.needs_pump());
    assert_eq!(PumpBudget::default(), PumpBudget { bytes: 65536, syscalls: 64 });
}

#[test]
fn a_pump_that_leaves_no_work_is_not_exhausted() {
    let mut session = Session::new(size(2, 8));
    let budget = PumpBudget { bytes: 65536, syscalls: 1 };
    let (mut pump, action) = session.pump_io(budget);
    assert_eq!(action, PumpAction::Read(65536));
    let action = session.note_read(&mut pump, ReadOutcome::WouldBlock);
    assert_eq!(action, PumpAction::Done);
    assert_eq!(session.counters().pump_budget_exhaustions, 0);
    assert!(!session.needs_pump());
    // The stream may have more to read: the same budget is exhausted.
    let (mut pump, _) = session.pump_io(budget);
    let action = session.note_read(&mut pump, ReadOutcome::Bytes(b"ab"));
    assert_eq!(action, PumpAction::Done);
    assert_eq!(session.counters().pump_budget_exhaustions, 1);
    assert!(session.needs_pump());
    // The end of the stream leaves nothing to do.
    let (mut pump, _) = session.pump_io(budget);
    let action = session.note_read(&mut pump, ReadOutcome::Bytes(b""));
    assert_eq!(action, PumpAction::Done);
    assert_eq!(session.counters().pump_budget_exhaustions, 1);
    assert!(!session.needs_pump());
}

#[test]
fn a_write_that_meets_a_gone_peer_ends_the_stream() {
    let mut session = Session::new(size(2, 8));
    session.enqueue_input(Input::Raw(b"abc")).expect("enqueue");
    let (mut pump, action) = session.pump_io(PumpBudget::default());
    assert_eq!(action, PumpAction::Write(3));
    let action = session.note_write(&mut pump, WriteOutcome::Gone);
    assert_eq!(action, PumpAction::Done);
    assert_eq!(session.status(), SessionStatus::Eof);
    assert_eq!(session.write_queue_len(), 0);
    assert_eq!(session.counters().input_bytes_written, 0);
    assert!(!session.needs_pump());
}

#[test]
fn a_blocked_write_does_not_keep_the_session_from_reading() {
    let mut session = Session::new(size(2, 8));
    session.enqueue_input(Input::Raw(b"abc")).expect("enqueue");
    let mut child = Child::printing("ok");
    child.capacity = Some(0);
    pump(&mut session, &mut child, PumpBudget::default());
    assert_eq!(session.terminal_state().cursor(), Position { row: 0, col: 2 });
    assert_eq!(session.counters().write_would_block, 1);
    assert_eq!(session.write_queue_len(), 3);
    assert!(!session.needs_pump(), "both directions wait for readiness");
    assert!(session.interests().readable && session.interests().writable);
}

#[test]
fn failed_calls_end_the_pump() {
    let mut session = Session::new(size(2, 8));
    let (mut pump, action) = session.pump_io(PumpBudget::default());
    assert_eq!(action, PumpAction::Read(65536));
    assert_eq!(session.note_read(&mut pump, ReadOutcome::Failed), PumpAction::Done);
    let (mut pump, _) = session.pump_io(PumpBudget::default());
    assert_eq!(session.note_read(&mut pump, ReadOutcome::Interrupted), PumpAction::Done);
    let (mut pump, _) = session.pump_io(PumpBudget::default());
    assert_eq!(session.note_read(&mut pump, ReadOutcome::Gone), PumpAction::Done);
    assert_eq!(session.status(), SessionStatus::Eof);
    assert_eq!(session.counters().read_syscalls, 3);
}
