//! Tests for what the results of system calls mean.

use termnix::pty::{
    classify_signal, classify_wait, classify_wait_failure, classify_waitid_event, is_gone,
    is_pty_gone, signal_result, wait_failure, ClosingState, ErrorCodes, PollStep, ReapStep, WaitCodes,
};
use termnix::{ClosingPtyProcess, ObservedExit, PtyError, SignalOutcome};

#[test]
fn classify_waitid_no_event_when_si_pid_zero() {
    assert_eq!(
        classify_waitid_event(0, libc::CLD_EXITED, 0).expect("no event"),
        None
    );
}

#[test]
fn classify_waitid_exited_killed_dumped() {
    assert_eq!(
        classify_waitid_event(7, libc::CLD_EXITED, 42).expect("exited"),
        Some(ObservedExit::Exited { code: 42 })
    );
    assert_eq!(
        classify_waitid_event(7, libc::CLD_KILLED, libc::SIGTERM).expect("killed"),
        Some(ObservedExit::Signaled {
            signal: libc::SIGTERM,
            core_dumped: false
        })
    );
    assert_eq!(
        classify_waitid_event(7, libc::CLD_DUMPED, libc::SIGABRT).expect("dumped"),
        Some(ObservedExit::Signaled {
            signal: libc::SIGABRT,
            core_dumped: true
        })
    );
}

#[test]
fn classify_waitid_unknown_code_is_invalid_data() {
    let err = classify_waitid_event(1, 999, 0).expect_err("unknown code");
    assert_eq!(err, PtyError::UnknownWaitCode(999));
}

#[test]
fn classification_goes_by_the_given_codes() {
    let codes = WaitCodes { exited: 10, killed: 20, dumped: 30 };
    assert_eq!(classify_wait(codes, 0, 10, 1), Ok(None));
    assert_eq!(classify_wait(codes, 5, 10, 1), Ok(Some(ObservedExit::Exited { code: 1 })));
    assert_eq!(
        classify_wait(codes, 5, 30, 6),
        Ok(Some(ObservedExit::Signaled { signal: 6, core_dumped: true }))
    );
    assert_eq!(classify_wait(codes, 5, 1, 6), Err(PtyError::UnknownWaitCode(1)));

    let codes = ErrorCodes { io: 1, no_process: 2, no_child: 3 };
    assert_eq!(classify_wait_failure(codes, 3), PtyError::OwnershipLost);
    assert_eq!(classify_wait_failure(codes, 2), PtyError::Os(2));
    assert_eq!(classify_signal(codes, None), Ok(SignalOutcome::Sent));
    assert_eq!(classify_signal(codes, Some(2)), Ok(SignalOutcome::GroupMissing));
    assert_eq!(classify_signal(codes, Some(3)), Err(PtyError::Os(3)));
    assert!(is_gone(codes, Some(1)));
    assert!(!is_gone(codes, Some(2)));
    assert!(!is_gone(codes, None));
}

#[test]
fn failures_are_told_apart_by_the_codes_of_the_platform() {
    assert_eq!(wait_failure(libc::ECHILD), PtyError::OwnershipLost);
    assert_eq!(wait_failure(libc::EINTR), PtyError::Os(libc::EINTR));
    assert_eq!(wait_failure(0), PtyError::Os(0));
    assert_eq!(signal_result(None), Ok(SignalOutcome::Sent));
    assert_eq!(signal_result(Some(libc::ESRCH)), Ok(SignalOutcome::GroupMissing));
    assert_eq!(signal_result(Some(libc::EPERM)), Err(PtyError::Os(libc::EPERM)));
    assert_eq!(signal_result(Some(0)), Err(PtyError::Os(0)));
    assert!(is_pty_gone(Some(libc::EIO)));
    assert!(!is_pty_gone(Some(0)));
    assert!(!is_pty_gone(None));
}

#[test]
fn exit_statuses_are_classified() {
    assert_eq!(
        ObservedExit::from_exit_status(Some(3), None, false),
        ObservedExit::Exited { code: 3 }
    );
    assert_eq!(
        ObservedExit::from_exit_status(None, Some(15), true),
        ObservedExit::Signaled { signal: 15, core_dumped: true }
    );
    assert_eq!(
        ObservedExit::from_exit_status(None, None, false),
        ObservedExit::Exited { code: 0 }
    );
}

#[test]
fn poll_exit_sees_natural_exit_without_reaping() {
    let mut closing = ClosingPtyProcess::new(None);
    assert_eq!(closing.poll_exit(), PollStep::Ask);
    assert_eq!(closing.note_poll(Ok(None)), Ok(None));
    assert_eq!(closing.poll_exit(), PollStep::Ask);

    let exit = ObservedExit::Exited { code: 17 };
    assert_eq!(closing.note_poll(Ok(Some(exit))), Ok(Some(exit)));
    // Repeated poll must not reap; reaping still works.
    assert_eq!(closing.poll_exit(), PollStep::Answer(Ok(Some(exit))));
    assert_eq!(closing.wait_and_reap(), ReapStep::Wait);
    assert_eq!(closing.signal_group(), None);
    assert_eq!(closing.note_wait(Ok(exit)), Ok(exit));
    assert_eq!(closing.poll_exit(), PollStep::Answer(Ok(Some(exit))));
    assert_eq!(closing.wait_and_reap(), ReapStep::Answer(Ok(exit)));
    assert_eq!(closing.signal_group(), Some(SignalOutcome::AlreadyReaped));
}

#[test]
fn try_wait_cache_moves_into_reaped_closing_state() {
    let exit = ObservedExit::Exited { code: 9 };
    let closing = ClosingPtyProcess::new(Some(exit));
    assert_eq!(closing.poll_exit(), PollStep::Answer(Ok(Some(exit))));
    assert_eq!(closing.signal_group(), Some(SignalOutcome::AlreadyReaped));
    assert_eq!(closing.wait_and_reap(), ReapStep::Answer(Ok(exit)));
}

#[test]
fn a_reap_that_contradicts_the_observation_is_reported_once() {
    let mut closing = ClosingPtyProcess::new(None);
    let seen = ObservedExit::Exited { code: 1 };
    let reaped = ObservedExit::Exited { code: 2 };
    closing.note_poll(Ok(Some(seen))).expect("observed");
    assert_eq!(closing.note_wait(Ok(reaped)), Err(PtyError::ExitMismatch));
    assert_eq!(closing.state, ClosingState::Reaped { status: reaped });
    assert_eq!(closing.wait_and_reap(), ReapStep::Answer(Ok(reaped)));
}

#[test]
fn a_lost_child_stays_lost() {
    let mut closing = ClosingPtyProcess::new(None);
    let lost = Err(PtyError::OwnershipLost);
    assert_eq!(closing.note_wait(lost), lost);
    assert_eq!(closing.poll_exit(), PollStep::Answer(Err(PtyError::OwnershipLost)));
    assert_eq!(closing.wait_and_reap(), ReapStep::Answer(lost));
    assert_eq!(closing.signal_group(), Some(SignalOutcome::OwnershipLost));

    let mut closing = ClosingPtyProcess::new(None);
    assert_eq!(
        closing.note_poll(Err(PtyError::OwnershipLost)),
        Err(PtyError::OwnershipLost)
    );
    assert_eq!(closing.state, ClosingState::OwnershipLost);
}

#[test]
fn an_unknown_wait_code_is_remembered_and_other_errors_can_be_retried() {
    let mut closing = ClosingPtyProcess::new(None);
    let retry = PtyError::Os(libc::EINTR);
    assert_eq!(closing.note_poll(Err(retry)), Err(retry));
    assert_eq!(closing.poll_exit(), PollStep::Ask);
    assert_eq!(closing.note_wait(Err(retry)), Err(retry));
    assert_eq!(closing.wait_and_reap(), ReapStep::Wait);

    let unknown = PtyError::UnknownWaitCode(77);
    assert_eq!(closing.note_poll(Err(unknown)), Err(unknown));
    assert_eq!(closing.poll_exit(), PollStep::Answer(Err(unknown)));
    assert_eq!(closing.wait_and_reap(), ReapStep::Answer(Err(unknown)));
    assert_eq!(closing.signal_group(), None);
}
