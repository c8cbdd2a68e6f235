//! What becomes of the child process behind a PTY.
//!
//! The system calls are made elsewhere. This module says what their results
//! mean, and keeps track of a child whose PTY master has been closed: its exit
//! can be observed without reaping it, its process group can be signaled, and
//! it is reaped once.

use vstd::prelude::*;

verus! {

/// Exit information of the direct child.
///
/// Values come from `waitid` (`si_code` / `si_status`) or from the exit status
/// of a successful reap. They are not raw status words.
#[derive(Debug, Clone, Copy, PartialEq, Eq, Structural, Hash)]
pub enum ObservedExit {
    /// The child exited with `code`.
    Exited {
        /// Process exit code.
        code: i32,
    },
    /// The child was terminated by `signal`.
    Signaled {
        /// Terminating signal number.
        signal: i32,
        /// Whether a core dump was produced.
        core_dumped: bool,
    },
}

impl ObservedExit {
    /// What an exit status with these parts stands for. One without a code
    /// and without a signal counts as exit 0.
    pub open spec fn of_status(
        code: Option<i32>,
        signal: Option<i32>,
        core_dumped: bool,
    ) -> ObservedExit {
        match (code, signal) {
            (Some(code), _) => ObservedExit::Exited { code },
            (None, Some(signal)) => ObservedExit::Signaled { signal, core_dumped },
            (None, None) => ObservedExit::Exited { code: 0 },
        }
    }

    /// Classifies an exit status by its code, its signal and whether it dumped
    /// core.
    pub fn from_exit_status(
        code: Option<i32>,
        signal: Option<i32>,
        core_dumped: bool,
    ) -> (exit: ObservedExit)
        ensures
            exit == ObservedExit::of_status(code, signal, core_dumped),
    {
        if let Some(code) = code {
            ObservedExit::Exited { code }
        } else if let Some(signal) = signal {
            ObservedExit::Signaled { signal, core_dumped }
        } else {
            ObservedExit::Exited { code: 0 }
        }
    }
}

/// Result of delivering a signal to the original process group.
#[derive(Debug, Clone, Copy, PartialEq, Eq, Structural, Hash)]
pub enum SignalOutcome {
    /// The signal was sent.
    Sent,
    /// There is no such process group.
    GroupMissing,
    /// The direct child was already reaped; no signal syscall was performed.
    AlreadyReaped,
    /// Direct-child ownership was lost; no signal syscall was performed.
    OwnershipLost,
}

/// Why the child could not be observed or reaped.
#[derive(Debug, Clone, Copy, PartialEq, Eq, Structural)]
pub enum PtyError {
    /// `waitid` reported a code that stands for no exit.
    UnknownWaitCode(i32),
    /// Somebody else has waited for the child.
    OwnershipLost,
    /// The child was reaped with another status than was observed before.
    ExitMismatch,
    /// The system call failed with this error number.
    Os(i32),
}

/// The codes by which `waitid` tells apart how a child ended.
#[derive(Debug, Clone, Copy, PartialEq, Eq, Structural)]
pub struct WaitCodes {
    /// It exited.
    pub exited: i32,
    /// A signal ended it.
    pub killed: i32,
    /// A signal ended it, and it dumped core.
    pub dumped: i32,
}

/// The error numbers that the library tells apart.
#[derive(Debug, Clone, Copy, PartialEq, Eq, Structural)]
pub struct ErrorCodes {
    /// Input/output error.
    pub io: i32,
    /// No such process.
    pub no_process: i32,
    /// No child process.
    pub no_child: i32,
}

/// Reads the constants `libc::CLD_EXITED`, `libc::CLD_KILLED` and
/// `libc::CLD_DUMPED`. Their values depend on the platform, and nothing is
/// claimed of them.
#[verifier::external_body]
fn wait_codes() -> (codes: WaitCodes) {
    WaitCodes { exited: libc::CLD_EXITED, killed: libc::CLD_KILLED, dumped: libc::CLD_DUMPED }
}

/// Reads the constants `libc::EIO`, `libc::ESRCH` and `libc::ECHILD`. Their
/// values depend on the platform. On every platform that has them none of them
/// is zero, which is all that is claimed.
#[verifier::external_body]
fn error_codes() -> (codes: ErrorCodes)
    ensures
        codes.io != 0,
        codes.no_process != 0,
        codes.no_child != 0,
{
    ErrorCodes { io: libc::EIO, no_process: libc::ESRCH, no_child: libc::ECHILD }
}

/// Classifies a `waitid` result by the codes of the platform.
///
/// There is no event when `si_pid` is zero. A code that stands for no exit is
/// an error.
pub fn classify_wait(
    codes: WaitCodes,
    si_pid: i32,
    si_code: i32,
    si_status: i32,
) -> (exit: Result<Option<ObservedExit>, PtyError>)
    ensures
        exit == if si_pid == 0 {
            Ok::<Option<ObservedExit>, PtyError>(None)
        } else if si_code == codes.exited {
            Ok(Some(ObservedExit::Exited { code: si_status }))
        } else if si_code == codes.killed {
            Ok(Some(ObservedExit::Signaled { signal: si_status, core_dumped: false }))
        } else if si_code == codes.dumped {
            Ok(Some(ObservedExit::Signaled { signal: si_status, core_dumped: true }))
        } else {
            Err(PtyError::UnknownWaitCode(si_code))
        },
{
    if si_pid == 0 {
        Ok(None)
    } else if si_code == codes.exited {
        Ok(Some(ObservedExit::Exited { code: si_status }))
    } else if si_code == codes.killed {
        Ok(Some(ObservedExit::Signaled { signal: si_status, core_dumped: false }))
    } else if si_code == codes.dumped {
        Ok(Some(ObservedExit::Signaled { signal: si_status, core_dumped: true }))
    } else {
        Err(PtyError::UnknownWaitCode(si_code))
    }
}

/// Classifies a `waitid` result without performing a syscall.
///
/// Which code stands for which kind of exit is up to the platform. Whatever
/// it says, the status is what the exit carries, and a code that it does not
/// know is handed back.
pub fn classify_waitid_event(
    si_pid: i32,
    si_code: i32,
    si_status: i32,
) -> (exit: Result<Option<ObservedExit>, PtyError>)
    ensures
        si_pid == 0 <==> exit == Ok::<Option<ObservedExit>, PtyError>(None),
        exit matches Ok(Some(ObservedExit::Exited { code })) ==> code == si_status,
        exit matches Ok(Some(ObservedExit::Signaled { signal, .. })) ==> signal == si_status,
        exit matches Err(error) ==> error == PtyError::UnknownWaitCode(si_code),
{
    classify_wait(wait_codes(), si_pid, si_code, si_status)
}

/// Classifies a failed wait by the error numbers of the platform.
pub fn classify_wait_failure(codes: ErrorCodes, errno: i32) -> (error: PtyError)
    ensures
        error == if errno == codes.no_child {
            PtyError::OwnershipLost
        } else {
            PtyError::Os(errno)
        },
{
    if errno == codes.no_child {
        PtyError::OwnershipLost
    } else {
        PtyError::Os(errno)
    }
}

/// Classifies a failed wait: the child is somebody else's, or the call failed.
///
/// Which number says that the child is somebody else's is up to the platform.
/// Any other number is handed back. So is zero, which is no error number and
/// stands for a failure without one.
pub fn wait_failure(errno: i32) -> (error: PtyError)
    ensures
        error == PtyError::OwnershipLost || error == PtyError::Os(errno),
        errno == 0 ==> error == PtyError::Os(0),
{
    classify_wait_failure(error_codes(), errno)
}

/// Classifies how signaling a process group went, by the error numbers of the
/// platform. `errno` is `None` where it succeeded.
pub fn classify_signal(codes: ErrorCodes, errno: Option<i32>) -> (outcome: Result<
    SignalOutcome,
    PtyError,
>)
    ensures
        outcome == match errno {
            None => Ok::<SignalOutcome, PtyError>(SignalOutcome::Sent),
            Some(errno) => if errno == codes.no_process {
                Ok(SignalOutcome::GroupMissing)
            } else {
                Err(PtyError::Os(errno))
            },
        },
{
    match errno {
        None => Ok(SignalOutcome::Sent),
        Some(errno) => if errno == codes.no_process {
            Ok(SignalOutcome::GroupMissing)
        } else {
            Err(PtyError::Os(errno))
        },
    }
}

/// Classifies how signaling a process group went.
///
/// Which number says that there is no such group is up to the platform. Any
/// other number is handed back. So is zero, which is no error number and
/// stands for a failure without one.
pub fn signal_result(errno: Option<i32>) -> (outcome: Result<SignalOutcome, PtyError>)
    ensures
        errno is None <==> outcome == Ok::<SignalOutcome, PtyError>(SignalOutcome::Sent),
        errno matches Some(errno) ==> outcome == Ok::<SignalOutcome, PtyError>(
            SignalOutcome::GroupMissing,
        ) || outcome == Err::<SignalOutcome, PtyError>(PtyError::Os(errno)),
        errno == Some(0i32) ==> outcome == Err::<SignalOutcome, PtyError>(PtyError::Os(0)),
{
    classify_signal(error_codes(), errno)
}

/// Whether an I/O error means the PTY slave end is gone, by the error numbers
/// of the platform.
pub fn is_gone(codes: ErrorCodes, errno: Option<i32>) -> (gone: bool)
    ensures
        gone == (errno == Some(codes.io)),
{
    match errno {
        Some(errno) => errno == codes.io,
        None => false,
    }
}

/// Whether an I/O error means the PTY slave end is gone.
///
/// Closing the last slave fd makes the kernel report an input/output error on
/// both directions of the master, which is end-of-stream rather than a
/// failure. Both directions classify through this one predicate so they cannot
/// drift. An error that does not come from the system has no number, and does
/// not mean it. Nor does zero, which is no error number.
pub fn is_pty_gone(errno: Option<i32>) -> (gone: bool)
    ensures
        errno is None ==> !gone,
        errno == Some(0i32) ==> !gone,
{
    is_gone(error_codes(), errno)
}

/// Child ownership after the PTY master has been closed.
#[derive(Debug, Clone, Copy, PartialEq, Eq, Structural)]
pub enum ClosingState {
    /// The child has not been reaped.
    Unreaped {
        /// The exit that was observed, if any.
        observed: Option<ObservedExit>,
        /// An error that observing the child will not recover from.
        lifecycle_error: Option<PtyError>,
    },
    /// The child has been reaped.
    Reaped {
        /// How it ended.
        status: ObservedExit,
    },
    /// Somebody else has waited for the child.
    OwnershipLost,
}

/// What has to be done to find out whether the child has exited.
#[derive(Debug, Clone, Copy, PartialEq, Eq)]
pub enum PollStep {
    /// Nothing: this is the answer.
    Answer(Result<Option<ObservedExit>, PtyError>),
    /// Ask with `waitid`, without reaping the child or blocking.
    Ask,
}

/// What has to be done to reap the child.
#[derive(Debug, Clone, Copy, PartialEq, Eq)]
pub enum ReapStep {
    /// Nothing: this is the answer.
    Answer(Result<ObservedExit, PtyError>),
    /// Wait for the child.
    Wait,
}

/// A child whose PTY master has been closed.
#[derive(Debug, Clone, Copy, PartialEq, Eq, Structural)]
pub struct ClosingPtyProcess {
    /// Where the child stands.
    pub state: ClosingState,
}

impl ClosingPtyProcess {
    /// Whether the child is there to be waited for.
    pub open spec fn is_waitable(self) -> bool {
        self.state matches ClosingState::Unreaped { lifecycle_error: None, .. }
    }

    /// The exit that was observed before the child was reaped.
    pub open spec fn observed(self) -> Option<ObservedExit> {
        match self.state {
            ClosingState::Unreaped { observed, .. } => observed,
            _ => None,
        }
    }

    /// What has to be done to find out whether the child has exited.
    pub open spec fn poll_step(self) -> PollStep {
        match self.state {
            ClosingState::Reaped { status } => PollStep::Answer(Ok(Some(status))),
            ClosingState::OwnershipLost => PollStep::Answer(Err(PtyError::OwnershipLost)),
            ClosingState::Unreaped { observed, lifecycle_error } => match (
                lifecycle_error,
                observed,
            ) {
                (Some(error), _) => PollStep::Answer(Err(error)),
                (None, Some(exit)) => PollStep::Answer(Ok(Some(exit))),
                (None, None) => PollStep::Ask,
            },
        }
    }

    /// What has to be done to reap the child.
    pub open spec fn reap_step(self) -> ReapStep {
        match self.state {
            ClosingState::Reaped { status } => ReapStep::Answer(Ok(status)),
            ClosingState::OwnershipLost => ReapStep::Answer(Err(PtyError::OwnershipLost)),
            ClosingState::Unreaped { lifecycle_error, .. } => match lifecycle_error {
                Some(error) => ReapStep::Answer(Err(error)),
                None => ReapStep::Wait,
            },
        }
    }

    /// What comes of a signal that must not be sent.
    pub open spec fn unsent_signal(self) -> Option<SignalOutcome> {
        match self.state {
            ClosingState::Reaped { .. } => Some(SignalOutcome::AlreadyReaped),
            ClosingState::OwnershipLost => Some(SignalOutcome::OwnershipLost),
            ClosingState::Unreaped { .. } => None,
        }
    }

    /// The child after `waitid` said `result`.
    pub open spec fn after_poll(
        self,
        result: Result<Option<ObservedExit>, PtyError>,
    ) -> ClosingPtyProcess {
        ClosingPtyProcess {
            state: match result {
                Ok(Some(exit)) => ClosingState::Unreaped {
                    observed: Some(exit),
                    lifecycle_error: None,
                },
                Err(PtyError::OwnershipLost) => ClosingState::OwnershipLost,
                Err(PtyError::UnknownWaitCode(code)) => ClosingState::Unreaped {
                    observed: self.observed(),
                    lifecycle_error: Some(PtyError::UnknownWaitCode(code)),
                },
                _ => self.state,
            },
        }
    }

    /// The child after waiting for it gave `result`.
    pub open spec fn after_wait(self, result: Result<ObservedExit, PtyError>) -> ClosingPtyProcess {
        ClosingPtyProcess {
            state: match result {
                Ok(status) => ClosingState::Reaped { status },
                Err(PtyError::OwnershipLost) => ClosingState::OwnershipLost,
                Err(_) => self.state,
            },
        }
    }

    /// Takes over a child. If it was already reaped, it starts in the reaped
    /// state.
    pub fn new(reaped_status: Option<ObservedExit>) -> (closing: ClosingPtyProcess)
        ensures
            closing.state == match reaped_status {
                Some(status) => ClosingState::Reaped { status },
                None => ClosingState::Unreaped { observed: None, lifecycle_error: None },
            },
    {
        match reaped_status {
            Some(status) => ClosingPtyProcess { state: ClosingState::Reaped { status } },
            None => ClosingPtyProcess {
                state: ClosingState::Unreaped { observed: None, lifecycle_error: None },
            },
        }
    }

    /// Says how to observe whether the direct child has exited without
    /// reaping it.
    ///
    /// Once an exit is observed it is the answer on later calls. After a
    /// successful reap, the answer is the status of that.
    pub fn poll_exit(&self) -> (step: PollStep)
        ensures
            step == self.poll_step(),
    {
        match self.state {
            ClosingState::Reaped { status } => PollStep::Answer(Ok(Some(status))),
            ClosingState::OwnershipLost => PollStep::Answer(Err(PtyError::OwnershipLost)),
            ClosingState::Unreaped { observed, lifecycle_error } => {
                if let Some(error) = lifecycle_error {
                    return PollStep::Answer(Err(error));
                }
                match observed {
                    Some(exit) => PollStep::Answer(Ok(Some(exit))),
                    None => PollStep::Ask,
                }
            },
        }
    }

    /// Records what `waitid` said, and returns the answer.
    ///
    /// A lost child and a code that stands for no exit are remembered. Any
    /// other error leaves everything as it was, so the caller can retry.
    pub fn note_poll(&mut self, result: Result<Option<ObservedExit>, PtyError>) -> (answer: Result<
        Option<ObservedExit>,
        PtyError,
    >)
        requires
            old(self).is_waitable(),
        ensures
            answer == result,
            *final(self) == old(self).after_poll(result),
    {
        match result {
            Ok(Some(exit)) => {
                self.state = ClosingState::Unreaped {
                    observed: Some(exit),
                    lifecycle_error: None,
                };
            },
            Ok(None) => {},
            Err(error) => match error {
                PtyError::OwnershipLost => {
                    self.state = ClosingState::OwnershipLost;
                },
                PtyError::UnknownWaitCode(_) => {
                    if let ClosingState::Unreaped { observed, .. } = self.state {
                        self.state = ClosingState::Unreaped {
                            observed,
                            lifecycle_error: Some(error),
                        };
                    }
                },
                _ => {},
            },
        }
        result
    }

    /// Says how to reap the direct child.
    ///
    /// After a success, later calls have the cached status for an answer.
    pub fn wait_and_reap(&self) -> (step: ReapStep)
        ensures
            step == self.reap_step(),
    {
        match self.state {
            ClosingState::Reaped { status } => ReapStep::Answer(Ok(status)),
            ClosingState::OwnershipLost => ReapStep::Answer(Err(PtyError::OwnershipLost)),
            ClosingState::Unreaped { lifecycle_error, .. } => match lifecycle_error {
                Some(error) => ReapStep::Answer(Err(error)),
                None => ReapStep::Wait,
            },
        }
    }

    /// Records how waiting went, and returns the answer.
    ///
    /// A child that ended otherwise than was observed is reaped all the same.
    /// On error (other than a lost child), unreaped ownership is kept so the
    /// caller can retry.
    pub fn note_wait(&mut self, result: Result<ObservedExit, PtyError>) -> (answer: Result<
        ObservedExit,
        PtyError,
    >)
        requires
            old(self).is_waitable(),
        ensures
            *final(self) == old(self).after_wait(result),
            answer == match (result, old(self).observed()) {
                (Ok(status), Some(exit)) => if exit == status {
                    result
                } else {
                    Err(PtyError::ExitMismatch)
                },
                _ => result,
            },
    {
        let observed = match self.state {
            ClosingState::Unreaped { observed, .. } => observed,
            _ => None,
        };
        match result {
            Ok(status) => {
                self.state = ClosingState::Reaped { status };
                if let Some(exit) = observed {
                    if exit != status {
                        return Err(PtyError::ExitMismatch);
                    }
                }
                Ok(status)
            },
            Err(error) => {
                if let PtyError::OwnershipLost = error {
                    self.state = ClosingState::OwnershipLost;
                }
                Err(error)
            },
        }
    }

    /// Returns what came of a signal without sending it, where it must not be
    /// sent: the process group is only known to be the child's as long as the
    /// child has not been reaped.
    pub fn signal_group(&self) -> (outcome: Option<SignalOutcome>)
        ensures
            outcome == self.unsent_signal(),
    {
        match self.state {
            ClosingState::Reaped { .. } => Some(SignalOutcome::AlreadyReaped),
            ClosingState::OwnershipLost => Some(SignalOutcome::OwnershipLost),
            ClosingState::Unreaped { .. } => None,
        }
    }
}

/// What was observed of a child stays what is said of it, and it can still be
/// reaped.
pub proof fn observed_exits_stay(closing: ClosingPtyProcess, exit: ObservedExit)
    requires
        closing.is_waitable(),
    ensures
        closing.after_poll(Ok(Some(exit))).poll_step() == PollStep::Answer(Ok(Some(exit))),
        closing.after_poll(Ok(Some(exit))).reap_step() == ReapStep::Wait,
{
}

/// A child is reaped once. From then on its status is what is said of it, and
/// no signal is sent.
pub proof fn children_are_reaped_once(closing: ClosingPtyProcess, status: ObservedExit)
    requires
        closing.is_waitable(),
    ensures
        ({
            let reaped = closing.after_wait(Ok(status));
            &&& !reaped.is_waitable()
            &&& reaped.poll_step() == PollStep::Answer(Ok(Some(status)))
            &&& reaped.reap_step() == ReapStep::Answer(Ok(status))
            &&& reaped.unsent_signal() == Some(SignalOutcome::AlreadyReaped)
        }),
{
}

/// A child that somebody else has waited for stays lost: it is neither waited
/// for nor signaled again.
pub proof fn lost_children_stay_lost(closing: ClosingPtyProcess)
    requires
        closing.is_waitable(),
    ensures
        closing.after_poll(Err(PtyError::OwnershipLost)) == closing.after_wait(
            Err(PtyError::OwnershipLost),
        ),
        ({
            let lost = closing.after_wait(Err(PtyError::OwnershipLost));
            &&& !lost.is_waitable()
            &&& lost.poll_step() == PollStep::Answer(Err(PtyError::OwnershipLost))
            &&& lost.reap_step() == ReapStep::Answer(Err(PtyError::OwnershipLost))
            &&& lost.unsent_signal() == Some(SignalOutcome::OwnershipLost)
        }),
{
}

/// A call that failed for another reason can be tried again.
pub proof fn failed_calls_can_be_retried(closing: ClosingPtyProcess, errno: i32)
    requires
        closing.is_waitable(),
    ensures
        closing.after_poll(Err(PtyError::Os(errno))) == closing,
        closing.after_wait(Err(PtyError::Os(errno))) == closing,
{
}

} // verus!
