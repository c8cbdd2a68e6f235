//! Tests for `termnix::SessionDriver`, driven against children that live in
//! the test.

use std::collections::HashMap;

use termnix::driver_config::{SessionStatus, MAX_REPLY_BYTES};
use termnix::driver_session::{
    capacity_ok, decode_byte, readmit_pending, session_has_work, session_interests, DriverSession,
};
use termnix::{
    DriveAction, DriveResult, DriverConfig, DriverError, DriverEvent, Interests, KeyCode, KeyEvent,
    ObservedExit, PollSource, ReadOutcome, Readiness, RegistrationToken, ScrollbackLimits,
    SessionConfig, SessionDriver, SessionId, Size, WriteOutcome,
};

fn size(rows: u16, cols: u16) -> Size {
    Size::new(rows, cols).expect("rows and cols are non-zero")
}

fn session_config(size: Size) -> SessionConfig {
    SessionConfig {
        size,
        scrollback_limits: ScrollbackLimits::disabled(),
    }
}

/// The far end of a PTY.
#[derive(Default)]
struct Child {
    output: Vec<u8>,
    received: Vec<u8>,
    line: Vec<u8>,
    prefix: Option<&'static str>,
    closed: bool,
}

impl Child {
    fn printing(text: &str) -> Child {
        Child {
            output: text.as_bytes().to_vec(),
            ..Child::default()
        }
    }

    fn answering(prefix: &'static str) -> Child {
        Child {
            prefix: Some(prefix),
            ..Child::default()
        }
    }

    fn write(&mut self, bytes: &[u8]) {
        for &byte in bytes {
            self.received.push(byte);
            if byte == b'\n' || byte == b'\r' {
                if let Some(prefix) = self.prefix {
                    let line = String::from_utf8_lossy(&self.line).into_owned();
                    self.output.extend_from_slice(format!("{prefix}{line}\r\n").as_bytes());
                }
                self.line.clear();
            } else {
                self.line.push(byte);
            }
        }
    }
}

type Children = HashMap<u64, Child>;

fn drive(
    driver: &mut SessionDriver,
    children: &mut Children,
    readiness: &[(RegistrationToken, Readiness)],
) -> DriveResult {
    let (mut drive, mut action) = driver.drive(readiness);
    loop {
        action = match action {
            DriveAction::Write { id, len } => {
                let bytes = driver.session(id).expect("session").unsent_bytes()[..len].to_vec();
                children.get_mut(&id.raw()).expect("child").write(&bytes);
                driver.note_write(&mut drive, WriteOutcome::Wrote(len))
            }
            DriveAction::Read { id, len } => {
                let child = children.get_mut(&id.raw()).expect("child");
                let len = len.min(child.output.len());
                let bytes: Vec<u8> = child.output.drain(..len).collect();
                if bytes.is_empty() && !child.closed {
                    driver.note_read(&mut drive, ReadOutcome::WouldBlock)
                } else {
                    driver.note_read(&mut drive, ReadOutcome::Bytes(&bytes))
                }
            }
            DriveAction::Done => return driver.finish_drive(drive),
        };
    }
}

/// Drives every registered session until nothing moves any more.
fn drive_all(driver: &mut SessionDriver, children: &mut Children) {
    for _ in 0..100 {
        let ready: Vec<(RegistrationToken, Readiness)> = driver
            .poll_sources()
            .entries()
            .iter()
            .map(|entry| {
                let readiness = Readiness {
                    readable: entry.interests.readable,
                    writable: entry.interests.writable,
                    ..Readiness::default()
                };
                (entry.token, readiness)
            })
            .collect();
        let result = drive(driver, children, &ready);
        let idle = children.values().all(|child| child.output.is_empty());
        if !result.has_pending_work && !result.poll_source_changed && idle {
            return;
        }
    }
    panic!("the sessions never came to rest");
}

fn add(driver: &mut SessionDriver, children: &mut Children, child: Child) -> SessionId {
    let fd = 10 + children.len() as i32;
    let id = driver
        .create_session(fd, session_config(size(24, 80)))
        .expect("create session");
    children.insert(id.raw(), child);
    id
}

fn visible_text(driver: &SessionDriver, id: SessionId) -> String {
    let snapshot = driver.snapshot(id).expect("snapshot");
    let mut out = String::new();
    for row in snapshot.rows() {
        let row: String = row.iter().filter(|c| c.width != 0).map(|c| c.ch).collect();
        out.push_str(row.trim_end());
        out.push('\n');
    }
    out
}

#[test]
fn id_allocation_is_monotonic_and_exhausts() {
    let mut driver =
        SessionDriver::starting_at(DriverConfig::default(), u64::MAX - 1).expect("driver");
    assert_eq!(driver.allocate_id().map(SessionId::raw), Some(u64::MAX - 1));
    assert_eq!(driver.allocate_id(), None);
    assert_eq!(
        driver.create_session(3, session_config(size(1, 1))),
        Err(DriverError::IdExhausted)
    );
}

#[test]
fn default_config_is_valid() {
    DriverConfig::default()
        .validate()
        .expect("default is valid");
}

#[test]
fn config_rejects_zero_limits() {
    let base = DriverConfig::default();
    for (name, value) in [
        ("read_byte_quantum", base.read_byte_quantum),
        ("read_syscall_quantum", base.read_syscall_quantum),
        ("write_byte_quantum", base.write_byte_quantum),
        ("write_syscall_quantum", base.write_syscall_quantum),
        ("drive_byte_budget", base.drive_byte_budget),
        ("drive_syscall_budget", base.drive_syscall_budget),
        ("write_queue_limit", base.write_queue_limit),
        ("read_buffer_limit", base.read_buffer_limit),
        ("pending_reply_limit", base.pending_reply_limit),
    ] {
        let mut config = base;
        match name {
            "read_byte_quantum" => config.read_byte_quantum = 0,
            "read_syscall_quantum" => config.read_syscall_quantum = 0,
            "write_byte_quantum" => config.write_byte_quantum = 0,
            "write_syscall_quantum" => config.write_syscall_quantum = 0,
            "drive_byte_budget" => config.drive_byte_budget = 0,
            "drive_syscall_budget" => config.drive_syscall_budget = 0,
            "write_queue_limit" => config.write_queue_limit = 0,
            "read_buffer_limit" => config.read_buffer_limit = 0,
            "pending_reply_limit" => config.pending_reply_limit = 0,
            _ => unreachable!(),
        }
        let err = config.validate().unwrap_err();
        assert!(
            err.message().contains(name),
            "expected {name} in error, got: {err:?}"
        );
        assert_eq!(err.message(), format!("{name} must be non-zero"));
        assert_eq!(
            SessionDriver::new(config).err(),
            Some(DriverError::InvalidConfig(err))
        );
        let _ = value;
    }
}

#[test]
fn config_rejects_queue_limits_smaller_than_one_reply() {
    let config = DriverConfig {
        write_queue_limit: MAX_REPLY_BYTES - 1,
        ..DriverConfig::default()
    };
    assert!(config.validate().is_err());
    let config = DriverConfig {
        pending_reply_limit: MAX_REPLY_BYTES - 1,
        ..DriverConfig::default()
    };
    assert!(config.validate().is_err());
    assert_eq!(
        config.validate().unwrap_err().message(),
        "pending_reply_limit must be able to hold one full terminal reply"
    );
    let config = DriverConfig {
        write_queue_limit: MAX_REPLY_BYTES,
        pending_reply_limit: MAX_REPLY_BYTES,
        ..DriverConfig::default()
    };
    config.validate().expect("exactly one reply is allowed");
}

#[test]
fn capacity_check_is_all_or_nothing() {
    // Pending reply absent: bounded by the write queue.
    assert!(capacity_ok(5, 0, 10, 10, 5));
    assert!(!capacity_ok(6, 0, 10, 10, 5));
    // Pending reply present: bounded by the pending reply buffer.
    assert!(capacity_ok(0, 5, 10, 10, 5));
    assert!(!capacity_ok(0, 6, 10, 10, 5));
    // Overflow-safe subtraction.
    assert!(!capacity_ok(usize::MAX, 0, 10, 10, 1));
}

fn test_session() -> DriverSession {
    let mut driver = SessionDriver::with_default_config();
    let id = driver.allocate_id().expect("id");
    let config = DriverConfig {
        write_queue_limit: 64,
        pending_reply_limit: 64,
        read_buffer_limit: 64,
        read_byte_quantum: 16,
        read_syscall_quantum: 2,
        write_byte_quantum: 16,
        write_syscall_quantum: 2,
        ..DriverConfig::default()
    };
    DriverSession::new(id, 3, session_config(size(1, 1)), config)
}

#[test]
fn readmit_pending_preserves_order() {
    let mut sess = test_session();
    sess.outbound = b"accepted-before".to_vec();
    sess.pending_reply = b"REPLY".to_vec();
    sess.read_paused = true;
    sess.write_queue_limit = 64;

    assert!(readmit_pending(&mut sess));
    assert!(sess.pending_reply.is_empty());
    assert!(!sess.read_paused);
    // The pending reply is moved to the front, before accepted bytes.
    assert_eq!(sess.outbound, b"REPLYaccepted-before");
    assert_eq!(sess.write_offset, 0);
}

#[test]
fn readmit_pending_waits_when_outbound_is_full() {
    let mut sess = test_session();
    sess.write_queue_limit = 4;
    sess.outbound = b"abcd".to_vec();
    sess.pending_reply = b"REPLY".to_vec();
    sess.read_paused = true;

    assert!(!readmit_pending(&mut sess));
    assert_eq!(sess.pending_reply, b"REPLY");
    assert!(sess.read_paused);
    assert!(!session_has_work(&sess));
}

#[test]
fn decode_byte_holds_reply_when_outbound_is_full_and_resumes() {
    let mut sess = test_session();
    sess.write_queue_limit = 8;
    sess.outbound = b"abcd".to_vec();
    sess.pending_reply_limit = 8;
    // Feed the full primary DA sequence `ESC [ c`.
    for byte in [0x1b, b'[', b'c'] {
        decode_byte(&mut sess, byte).expect("decode");
    }
    // The 5-byte reply does not fit in the 4 free bytes and is held.
    assert_eq!(sess.pending_reply, b"\x1b[?6c");
    assert!(sess.read_paused);
    // Once the outbound queue drains, the reply is re-admitted first and
    // decoding resumes.
    sess.outbound.clear();
    assert!(readmit_pending(&mut sess));
    assert!(sess.pending_reply.is_empty());
    assert!(!sess.read_paused);
    assert_eq!(sess.outbound, b"\x1b[?6c");
}

#[test]
fn decode_byte_reports_a_reply_that_fits_nowhere() {
    let mut sess = test_session();
    sess.write_queue_limit = 4;
    sess.pending_reply_limit = 4;
    decode_byte(&mut sess, 0x1b).expect("escape");
    decode_byte(&mut sess, b'[').expect("bracket");
    assert_eq!(decode_byte(&mut sess, b'c'), Err(DriverError::ReplyOverflow));
    assert!(sess.outbound.is_empty() && sess.pending_reply.is_empty());
}

#[test]
fn session_interests_reflect_pending_state() {
    let mut sess = test_session();
    let interests = session_interests(&sess);
    assert!(interests.readable);
    assert!(!interests.writable);

    sess.outbound = b"x".to_vec();
    assert!(session_interests(&sess).writable);

    sess.read_paused = true;
    let interests = session_interests(&sess);
    assert!(!interests.readable);
    assert!(interests.writable);

    sess.phase = SessionStatus::Eof;
    sess.read_paused = false;
    let interests = session_interests(&sess);
    assert!(!interests.readable);
    assert!(interests.writable);

    sess.phase = SessionStatus::Closing;
    assert_eq!(
        session_interests(&sess),
        Interests {
            readable: false,
            writable: false
        }
    );
}

#[test]
fn test_driver_decodes_child_output_into_terminal_state() {
    let mut driver = SessionDriver::with_default_config();
    let mut children = Children::new();
    let mut child = Child::printing("hello-driver\r\n");
    child.closed = true;
    let id = add(&mut driver, &mut children, child);
    drive_all(&mut driver, &mut children);
    assert!(visible_text(&driver, id).contains("hello-driver"));
    assert_eq!(driver.session_status(id), Ok(SessionStatus::Eof));
}

#[test]
fn test_driver_input_routes_to_the_target_session_only() {
    let mut driver = SessionDriver::with_default_config();
    let mut children = Children::new();
    let a = add(&mut driver, &mut children, Child::answering("A:"));
    let b = add(&mut driver, &mut children, Child::answering("B:"));

    driver.enqueue_text(a, "hello-a").expect("enqueue a");
    driver.enqueue_text(b, "hello-b").expect("enqueue b");
    driver
        .enqueue_key(a, KeyEvent::new(KeyCode::Enter))
        .expect("enter a");
    driver
        .enqueue_key(b, KeyEvent::new(KeyCode::Enter))
        .expect("enter b");

    drive_all(&mut driver, &mut children);
    let text_a = visible_text(&driver, a);
    let text_b = visible_text(&driver, b);
    assert!(text_a.contains("A:hello-a"));
    assert!(text_b.contains("B:hello-b"));
    assert!(!text_a.contains("B:hello-b"));
    assert!(!text_b.contains("A:hello-a"));
}

#[test]
fn test_driver_query_reply_returns_to_the_querying_session() {
    let mut driver = SessionDriver::with_default_config();
    let mut children = Children::new();
    let a = add(&mut driver, &mut children, Child::printing("\x1b[c"));
    let b = add(&mut driver, &mut children, Child::default());
    drive_all(&mut driver, &mut children);
    // ESC [ ? 6 c
    assert_eq!(children[&a.raw()].received, vec![27, 91, 63, 54, 99]);
    assert!(children[&b.raw()].received.is_empty());
}

#[test]
fn test_driver_resize_updates_child_and_terminal_state() {
    let mut driver = SessionDriver::with_default_config();
    let mut children = Children::new();
    let id = add(&mut driver, &mut children, Child::default());
    assert_eq!(driver.resize_needed(id, size(24, 80)), Ok(false));
    assert_eq!(driver.resize_needed(id, size(33, 121)), Ok(true));
    driver.resize(id, size(33, 121)).expect("resize");
    assert_eq!(
        driver.terminal_state(id).expect("terminal state").size(),
        size(33, 121)
    );
}

#[test]
fn observes_exit_and_reaps() {
    let mut driver = SessionDriver::with_default_config();
    let mut children = Children::new();
    let mut child = Child::printing("bye\r\n");
    child.closed = true;
    let id = add(&mut driver, &mut children, child);
    drive_all(&mut driver, &mut children);
    assert_eq!(driver.session_status(id), Ok(SessionStatus::Eof));

    // The exit event is emitted exactly once.
    let exit = ObservedExit::Exited { code: 0 };
    assert_eq!(driver.unreported(), vec![id]);
    assert_eq!(
        driver.report_exit(id, exit),
        Some(DriverEvent::SessionExited { id, exit })
    );
    assert_eq!(driver.report_exit(id, exit), None);
    assert!(driver.unreported().is_empty());

    // The final state and snapshot stay readable until the reap.
    driver.snapshot(id).expect("snapshot before reap");
    assert_eq!(driver.reap_session(id, None), Err(DriverError::NotExited(id)));
    assert_eq!(driver.reap_session(id, Some(exit)), Ok(exit));

    assert_eq!(driver.snapshot(id).err(), Some(DriverError::StaleId(id)));
    assert_eq!(driver.reap_session(id, Some(exit)), Err(DriverError::StaleId(id)));
    assert_eq!(driver.report_exit(id, exit), None);
    assert_eq!(driver.session_status(id), Err(DriverError::StaleId(id)));
    assert_eq!(driver.enqueue_raw(id, b"x"), Err(DriverError::StaleId(id)));
    assert_eq!(driver.close_session(id), Err(DriverError::StaleId(id)));
    assert_eq!(driver.resize(id, size(2, 2)), Err(DriverError::StaleId(id)));
}

#[test]
fn stale_token_does_not_drive_a_new_session() {
    let mut driver = SessionDriver::with_default_config();
    let mut children = Children::new();
    let a = add(&mut driver, &mut children, Child::answering("A:"));
    let token_a = driver
        .poll_sources()
        .entries()
        .iter()
        .find(|entry| entry.token.session_id() == a)
        .expect("a token")
        .token;
    driver.close_session(a).expect("close a");
    assert!(driver.poll_sources().is_empty());
    let ready = Readiness {
        readable: true,
        writable: false,
        hangup: false,
        error: false,
    };
    let result = drive(&mut driver, &mut children, &[(token_a, ready)]);
    assert_eq!(result.stale_tokens, vec![token_a]);
    driver
        .reap_session(a, Some(ObservedExit::Exited { code: 0 }))
        .expect("reap a");

    // B produces nothing until input arrives, so a stale readiness cannot
    // accidentally be attributed to it.
    let b = add(&mut driver, &mut children, Child::answering("B:"));
    assert_ne!(a, b);
    let result = drive(&mut driver, &mut children, &[(token_a, ready)]);
    assert!(
        result.stale_tokens.contains(&token_a),
        "stale token should be reported"
    );
    assert!(result.processed.is_empty());
    assert!(
        !visible_text(&driver, b).contains("B:"),
        "B must not change"
    );

    // A valid token for B still makes progress.
    driver.enqueue_text(b, "hi").expect("enqueue b");
    driver
        .enqueue_key(b, KeyEvent::new(KeyCode::Enter))
        .expect("enter b");
    drive_all(&mut driver, &mut children);
    assert!(visible_text(&driver, b).contains("B:hi"));
}

#[test]
fn enqueue_is_all_or_nothing_under_backpressure() {
    let config = DriverConfig {
        write_queue_limit: 64,
        ..DriverConfig::default()
    };
    let mut driver = SessionDriver::new(config).expect("driver");
    let mut children = Children::new();
    let id = add(&mut driver, &mut children, Child::answering("X:"));

    driver.enqueue_text(id, "hello\n").expect("fits");
    let oversized = "x".repeat(100);
    assert_eq!(
        driver.enqueue_text(id, &oversized),
        Err(DriverError::Backpressure)
    );
    // The oversized input was not partially admitted.
    drive_all(&mut driver, &mut children);
    let text = visible_text(&driver, id);
    assert!(text.contains("X:hello") && !text.contains("X:xxxxx"));
    assert_eq!(children[&id.raw()].received, b"hello\n".to_vec());
}

#[test]
fn keys_and_pastes_need_room_for_their_longest_form() {
    let config = DriverConfig {
        write_queue_limit: 20,
        ..DriverConfig::default()
    };
    let mut driver = SessionDriver::new(config).expect("driver");
    let mut children = Children::new();
    let id = add(&mut driver, &mut children, Child::default());
    assert_eq!(driver.enqueue_paste(id, "123456789"), Err(DriverError::Backpressure));
    driver.enqueue_paste(id, "12345678").expect("8 and 12 are 20");
    driver.enqueue_raw(id, b"12345").expect("13 of 20");
    let enter = KeyEvent::new(KeyCode::Enter);
    assert_eq!(driver.enqueue_key(id, enter), Err(DriverError::Backpressure));
    driver.close_session(id).expect("close");
    assert_eq!(driver.enqueue_key(id, enter), Err(DriverError::SessionClosed(id)));
    assert_eq!(driver.enqueue_paste(id, ""), Err(DriverError::SessionClosed(id)));
    assert_eq!(driver.resize(id, size(2, 2)), Err(DriverError::SessionClosed(id)));
    assert_eq!(driver.resize_needed(id, size(2, 2)), Err(DriverError::SessionClosed(id)));
}

#[test]
fn multiple_sessions_share_one_drive_without_mixing() {
    let mut driver = SessionDriver::with_default_config();
    let mut children = Children::new();
    let a = add(&mut driver, &mut children, Child::printing("A_READY\r\n"));
    let b = add(&mut driver, &mut children, Child::printing("B_READY\r\n"));
    drive_all(&mut driver, &mut children);
    let text_a = visible_text(&driver, a);
    let text_b = visible_text(&driver, b);
    assert!(text_a.contains("A_READY") && text_b.contains("B_READY"));
    assert!(
        !text_a.contains("B_READY"),
        "A mixed in B output: {text_a:?}"
    );
    assert!(
        !text_b.contains("A_READY"),
        "B mixed in A output: {text_b:?}"
    );
}

#[test]
fn a_spent_budget_hands_the_next_drive_to_the_next_session() {
    let config = DriverConfig {
        drive_syscall_budget: 1,
        ..DriverConfig::default()
    };
    let mut driver = SessionDriver::new(config).expect("driver");
    let mut children = Children::new();
    let a = add(&mut driver, &mut children, Child::printing("a"));
    let b = add(&mut driver, &mut children, Child::printing("b"));
    let ready: Vec<(RegistrationToken, Readiness)> = driver
        .poll_sources()
        .entries()
        .iter()
        .map(|entry| {
            (
                entry.token,
                Readiness {
                    hangup: true,
                    ..Readiness::default()
                },
            )
        })
        .collect();
    let first = drive(&mut driver, &mut children, &ready);
    assert_eq!(first.processed, vec![a]);
    assert!(first.has_pending_work);
    let second = drive(&mut driver, &mut children, &[]);
    assert_eq!(second.processed, vec![b]);
    assert!(second.events.is_empty());
}

#[test]
fn drives_go_round_the_sessions() {
    let config = DriverConfig {
        drive_syscall_budget: 3,
        ..DriverConfig::default()
    };
    let mut driver = SessionDriver::new(config).expect("driver");
    let mut children = Children::new();
    let a = add(&mut driver, &mut children, Child::printing("a"));
    let b = add(&mut driver, &mut children, Child::printing("b"));
    let c = add(&mut driver, &mut children, Child::printing("c"));
    let ready: Vec<(RegistrationToken, Readiness)> = driver
        .poll_sources()
        .entries()
        .iter()
        .map(|entry| {
            (
                entry.token,
                Readiness {
                    readable: true,
                    ..Readiness::default()
                },
            )
        })
        .collect();
    // Two calls for the first session, and one for the second.
    let first = drive(&mut driver, &mut children, &ready);
    assert_eq!(first.processed, vec![a, b]);
    assert!(first.has_pending_work);
    // The third one is next. The first one has nothing to do.
    let second = drive(&mut driver, &mut children, &[]);
    assert_eq!(second.processed, vec![c, b]);
    assert!(!second.has_pending_work);
    assert!(drive(&mut driver, &mut children, &[]).processed.is_empty());
    // The cursor has stayed behind the second session.
    let third = drive(&mut driver, &mut children, &ready);
    assert_eq!(third.processed, vec![c, a, b]);
}

#[test]
fn a_read_phase_keeps_to_its_quanta() {
    let config = DriverConfig {
        read_byte_quantum: 10,
        read_syscall_quantum: 3,
        ..DriverConfig::default()
    };
    let mut driver = SessionDriver::new(config).expect("driver");
    let mut children = Children::new();
    let id = add(&mut driver, &mut children, Child::default());
    let token = driver.poll_sources().entries()[0].token;
    let ready = Readiness {
        readable: true,
        ..Readiness::default()
    };
    // The phase as a whole reads ten bytes.
    let (mut drive, action) = driver.drive(&[(token, ready)]);
    assert_eq!(action, DriveAction::Read { id, len: 10 });
    let action = driver.note_read(&mut drive, ReadOutcome::Bytes(b"abcdef"));
    assert_eq!(action, DriveAction::Read { id, len: 4 });
    let action = driver.note_read(&mut drive, ReadOutcome::Bytes(b"ghij"));
    assert_eq!(action, DriveAction::Done);
    assert!(driver.finish_drive(drive).has_pending_work);
    // The next one begins anew, and makes three calls at most.
    let (mut drive, action) = driver.drive(&[]);
    assert_eq!(action, DriveAction::Read { id, len: 10 });
    let action = driver.note_read(&mut drive, ReadOutcome::Bytes(b"k"));
    assert_eq!(action, DriveAction::Read { id, len: 9 });
    let action = driver.note_read(&mut drive, ReadOutcome::Bytes(b"l"));
    assert_eq!(action, DriveAction::Read { id, len: 8 });
    let action = driver.note_read(&mut drive, ReadOutcome::Bytes(b"m"));
    assert_eq!(action, DriveAction::Done);
    driver.finish_drive(drive);
    assert!(visible_text(&driver, id).starts_with("abcdefghijklm\n"));
}

#[test]
fn a_write_phase_keeps_to_its_quantum() {
    let config = DriverConfig {
        write_byte_quantum: 10,
        ..DriverConfig::default()
    };
    let mut driver = SessionDriver::new(config).expect("driver");
    let mut children = Children::new();
    let id = add(&mut driver, &mut children, Child::default());
    driver.enqueue_raw(id, &[b'x'; 25]).expect("enqueue");
    let token = driver.poll_sources().entries()[0].token;
    let ready = Readiness {
        writable: true,
        ..Readiness::default()
    };
    let (mut drive, action) = driver.drive(&[(token, ready)]);
    assert_eq!(action, DriveAction::Write { id, len: 10 });
    let action = driver.note_write(&mut drive, WriteOutcome::Wrote(7));
    assert_eq!(action, DriveAction::Write { id, len: 3 });
    let action = driver.note_write(&mut drive, WriteOutcome::Wrote(3));
    assert_eq!(action, DriveAction::Done);
    assert!(driver.finish_drive(drive).has_pending_work);
    assert_eq!(driver.session(id).expect("session").unsent_bytes().len(), 15);
}

#[test]
fn a_driver_tells_nothing_by_default() {
    let source = PollSource::default();
    assert!(source.is_empty() && source.clone().entries().is_empty());
    let result = DriveResult::default();
    assert!(!result.has_pending_work && !result.poll_source_changed);
    let copy = result.clone();
    assert!(copy.processed.is_empty() && copy.events.is_empty() && copy.stale_tokens.is_empty());
}

#[test]
fn a_failed_call_ends_the_drive() {
    let mut driver = SessionDriver::with_default_config();
    let mut children = Children::new();
    let id = add(&mut driver, &mut children, Child::default());
    driver.enqueue_raw(id, b"abc").expect("enqueue");
    let token = driver.poll_sources().entries()[0].token;
    let ready = Readiness {
        writable: true,
        ..Readiness::default()
    };
    let (mut drive, action) = driver.drive(&[(token, ready)]);
    assert_eq!(action, DriveAction::Write { id, len: 3 });
    assert_eq!(
        driver.note_write(&mut drive, WriteOutcome::Failed),
        DriveAction::Done
    );
    assert!(!driver.session(id).expect("session").ready.writable);
    assert_eq!(driver.session(id).expect("session").unsent(), 3);
}

#[test]
fn history_keeps_to_the_limits_of_the_session() {
    let mut driver = SessionDriver::with_default_config();
    let mut children = Children::new();
    let config = SessionConfig {
        size: size(2, 4),
        scrollback_limits: ScrollbackLimits {
            max_lines: 2,
            max_cells: 100,
        },
    };
    assert!(!config.scrollback_limits.is_disabled());
    let id = driver.create_session(5, config).expect("create");
    children.insert(id.raw(), Child::printing("a\r\nb\r\nc\r\nd\r\ne"));
    drive_all(&mut driver, &mut children);
    let snapshot = driver.snapshot(id).expect("snapshot");
    let kept: Vec<char> = snapshot.scrollback().iter().map(|l| l.cells()[0].ch).collect();
    assert_eq!(kept, vec!['b', 'c']);
}
