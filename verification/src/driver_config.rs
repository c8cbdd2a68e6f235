//! What a session driver is told, and what it tells its caller.

use vstd::prelude::*;

use crate::pty::ObservedExit;
use crate::session::Interests;
use crate::size::Size;
use crate::terminal_scrollback::ScrollbackLimits;

verus! {

/// Maximum size of a single terminal reply the emulator can produce.
///
/// Every configured queue limit must be able to hold at least one full reply
/// so that a reply is never silently dropped.
pub const MAX_REPLY_BYTES: usize = 14;

/// Stable identifier for one terminal session within the driver.
///
/// Identifiers are allocated monotonically and are never reused after a
/// session is reaped, so a stored [`SessionId`] can be used to detect whether
/// a handle still refers to a live session.
#[derive(Debug, Clone, Copy, PartialEq, Eq, PartialOrd, Ord, Hash, Structural)]
pub struct SessionId(pub(crate) u64);

impl SessionId {
    /// The number behind the identifier.
    pub closed spec fn number(self) -> u64 {
        self.0
    }

    /// Returns the number behind the identifier.
    pub fn raw(self) -> (raw: u64)
        ensures
            raw == self.number(),
    {
        self.0
    }

    /// Makes an identifier of a number.
    pub(crate) fn from_raw(raw: u64) -> (id: SessionId)
        ensures
            id.number() == raw,
    {
        SessionId(raw)
    }
}

/// An identifier is its number.
pub broadcast proof fn lemma_session_id(a: SessionId, b: SessionId)
    ensures
        (#[trigger] a.number() == #[trigger] b.number()) == (a == b),
{
}

/// Opaque handle bound to one event-loop registration of a session.
///
/// A token pairs the [`SessionId`] with the session's current registration
/// generation. Readiness reported with a stale token is rejected instead of
/// being applied to a different session, and a reused fd number can never be
/// resolved to the wrong session.
#[derive(Debug, Clone, Copy, PartialEq, Eq, Hash, Structural)]
pub struct RegistrationToken {
    pub(crate) id: SessionId,
    pub(crate) generation: u64,
}

impl RegistrationToken {
    /// The session this token was issued for.
    pub closed spec fn spec_session_id(self) -> SessionId {
        self.id
    }

    /// The registration of the session that this token stands for.
    pub closed spec fn spec_generation(self) -> u64 {
        self.generation
    }

    /// Returns the session this token was issued for.
    pub fn session_id(&self) -> (id: SessionId)
        ensures
            id == self.spec_session_id(),
    {
        self.id
    }

    /// Returns the registration of the session that this token stands for.
    pub(crate) fn generation(&self) -> (generation: u64)
        ensures
            generation == self.spec_generation(),
    {
        self.generation
    }

    /// Makes the token of one registration.
    pub(crate) fn new(id: SessionId, generation: u64) -> (token: RegistrationToken)
        ensures
            token.spec_session_id() == id,
            token.spec_generation() == generation,
    {
        RegistrationToken { id, generation }
    }
}

/// Readiness flags observed on one fd and reported back to the driver.
#[derive(Debug, Clone, Copy, PartialEq, Eq, Hash, Structural)]
pub struct Readiness {
    /// The fd became readable.
    pub readable: bool,
    /// The fd became writable.
    pub writable: bool,
    /// Hangup was observed (drain remaining output before treating as EOF).
    pub hangup: bool,
    /// An error condition was reported (drive a read/write to learn the cause).
    pub error: bool,
}

impl Readiness {
    /// Nothing is ready.
    pub open spec fn none() -> Readiness {
        Readiness { readable: false, writable: false, hangup: false, error: false }
    }
}

impl Default for Readiness {
    fn default() -> (readiness: Readiness)
        ensures
            readiness == Readiness::none(),
    {
        Readiness { readable: false, writable: false, hangup: false, error: false }
    }
}

/// One registration the caller should apply to its event loop.
#[derive(Debug, Clone, Copy, PartialEq, Eq, Structural)]
pub struct PollSourceEntry {
    /// File descriptor to register.
    pub fd: i32,
    /// Token to associate with this fd.
    pub token: RegistrationToken,
    /// Interests to register for this fd.
    pub interests: Interests,
}

/// Snapshot of everything currently registered with the event loop.
///
/// The caller replaces its whole registration set with the entries in this
/// snapshot on every poll iteration, so a missed registration delta can always
/// be recovered.
#[derive(Debug, Clone)]
pub struct PollSource {
    entries: Vec<PollSourceEntry>,
}

impl Default for PollSource {
    /// Nothing is registered.
    fn default() -> (source: PollSource)
        ensures
            source@ == Seq::<PollSourceEntry>::empty(),
    {
        PollSource { entries: Vec::new() }
    }
}

impl PollSource {
    /// The entries to register.
    pub closed spec fn view(&self) -> Seq<PollSourceEntry> {
        self.entries@
    }

    /// Makes a snapshot of entries.
    pub(crate) fn new(entries: Vec<PollSourceEntry>) -> (source: PollSource)
        ensures
            source@ == entries@,
    {
        PollSource { entries }
    }

    /// Returns the entries to register.
    pub fn entries(&self) -> (entries: &[PollSourceEntry])
        ensures
            entries@ == self@,
    {
        self.entries.as_slice()
    }

    /// Returns whether no fd is currently registered.
    pub fn is_empty(&self) -> (empty: bool)
        ensures
            empty == (self@.len() == 0),
    {
        self.entries.len() == 0
    }
}

/// Limits that bound one `drive` call and one session's I/O.
#[derive(Debug, Clone, Copy, PartialEq, Eq, Structural)]
pub struct DriverConfig {
    /// Maximum bytes read from one session per read phase.
    pub read_byte_quantum: usize,
    /// Maximum read syscalls attempted for one session per drive.
    pub read_syscall_quantum: usize,
    /// Maximum bytes written to one session per write phase.
    pub write_byte_quantum: usize,
    /// Maximum write syscalls attempted for one session per drive.
    pub write_syscall_quantum: usize,
    /// Maximum bytes processed (read + write + decode) per whole drive.
    pub drive_byte_budget: usize,
    /// Maximum syscalls attempted per whole drive.
    pub drive_syscall_budget: usize,
    /// Maximum bytes held in the outbound write queue of one session.
    pub write_queue_limit: usize,
    /// Maximum unprocessed raw bytes held per session.
    pub read_buffer_limit: usize,
    /// Maximum reply bytes held while the outbound queue is full.
    pub pending_reply_limit: usize,
}

/// The fields of a [`DriverConfig`].
#[derive(Debug, Clone, Copy, PartialEq, Eq, Structural)]
pub enum ConfigField {
    /// `read_byte_quantum`
    ReadByteQuantum,
    /// `read_syscall_quantum`
    ReadSyscallQuantum,
    /// `write_byte_quantum`
    WriteByteQuantum,
    /// `write_syscall_quantum`
    WriteSyscallQuantum,
    /// `drive_byte_budget`
    DriveByteBudget,
    /// `drive_syscall_budget`
    DriveSyscallBudget,
    /// `write_queue_limit`
    WriteQueueLimit,
    /// `read_buffer_limit`
    ReadBufferLimit,
    /// `pending_reply_limit`
    PendingReplyLimit,
}

impl ConfigField {
    /// The name of the field.
    pub open spec fn spec_name(self) -> Seq<char> {
        match self {
            ConfigField::ReadByteQuantum => "read_byte_quantum"@,
            ConfigField::ReadSyscallQuantum => "read_syscall_quantum"@,
            ConfigField::WriteByteQuantum => "write_byte_quantum"@,
            ConfigField::WriteSyscallQuantum => "write_syscall_quantum"@,
            ConfigField::DriveByteBudget => "drive_byte_budget"@,
            ConfigField::DriveSyscallBudget => "drive_syscall_budget"@,
            ConfigField::WriteQueueLimit => "write_queue_limit"@,
            ConfigField::ReadBufferLimit => "read_buffer_limit"@,
            ConfigField::PendingReplyLimit => "pending_reply_limit"@,
        }
    }

    /// Returns the name of the field.
    pub fn name(self) -> (name: &'static str)
        ensures
            name@ == self.spec_name(),
    {
        match self {
            ConfigField::ReadByteQuantum => "read_byte_quantum",
            ConfigField::ReadSyscallQuantum => "read_syscall_quantum",
            ConfigField::WriteByteQuantum => "write_byte_quantum",
            ConfigField::WriteSyscallQuantum => "write_syscall_quantum",
            ConfigField::DriveByteBudget => "drive_byte_budget",
            ConfigField::DriveSyscallBudget => "drive_syscall_budget",
            ConfigField::WriteQueueLimit => "write_queue_limit",
            ConfigField::ReadBufferLimit => "read_buffer_limit",
            ConfigField::PendingReplyLimit => "pending_reply_limit",
        }
    }
}

/// What is wrong with a [`DriverConfig`].
#[derive(Debug, Clone, Copy, PartialEq, Eq, Structural)]
pub enum ConfigError {
    /// The field must be non-zero.
    Zero(ConfigField),
    /// The field must be able to hold one full terminal reply.
    HoldsNoReply(ConfigField),
}

impl ConfigError {
    /// What the error says.
    pub open spec fn spec_message(self) -> Seq<char> {
        match self {
            ConfigError::Zero(field) => field.spec_name() + " must be non-zero"@,
            ConfigError::HoldsNoReply(field) => field.spec_name()
                + " must be able to hold one full terminal reply"@,
        }
    }

    /// Returns what the error says, beginning with the name of the field.
    pub fn message(self) -> (message: String)
        ensures
            message@ == self.spec_message(),
    {
        match self {
            ConfigError::Zero(field) => field.name().to_owned().concat(" must be non-zero"),
            ConfigError::HoldsNoReply(field) => field.name().to_owned().concat(
                " must be able to hold one full terminal reply",
            ),
        }
    }
}

impl DriverConfig {
    /// The value of a field.
    pub open spec fn value(self, field: ConfigField) -> usize {
        match field {
            ConfigField::ReadByteQuantum => self.read_byte_quantum,
            ConfigField::ReadSyscallQuantum => self.read_syscall_quantum,
            ConfigField::WriteByteQuantum => self.write_byte_quantum,
            ConfigField::WriteSyscallQuantum => self.write_syscall_quantum,
            ConfigField::DriveByteBudget => self.drive_byte_budget,
            ConfigField::DriveSyscallBudget => self.drive_syscall_budget,
            ConfigField::WriteQueueLimit => self.write_queue_limit,
            ConfigField::ReadBufferLimit => self.read_buffer_limit,
            ConfigField::PendingReplyLimit => self.pending_reply_limit,
        }
    }

    /// Every limit is non-zero, and the two queues hold one reply.
    pub open spec fn is_valid(self) -> bool {
        &&& forall|field: ConfigField| #[trigger] self.value(field) > 0
        &&& self.write_queue_limit >= MAX_REPLY_BYTES
        &&& self.pending_reply_limit >= MAX_REPLY_BYTES
    }

    /// The error that a configuration is rejected with: the first field that
    /// is zero, else the first queue that holds no reply.
    pub open spec fn first_error(self) -> Option<ConfigError> {
        if self.read_byte_quantum == 0 {
            Some(ConfigError::Zero(ConfigField::ReadByteQuantum))
        } else if self.read_syscall_quantum == 0 {
            Some(ConfigError::Zero(ConfigField::ReadSyscallQuantum))
        } else if self.write_byte_quantum == 0 {
            Some(ConfigError::Zero(ConfigField::WriteByteQuantum))
        } else if self.write_syscall_quantum == 0 {
            Some(ConfigError::Zero(ConfigField::WriteSyscallQuantum))
        } else if self.drive_byte_budget == 0 {
            Some(ConfigError::Zero(ConfigField::DriveByteBudget))
        } else if self.drive_syscall_budget == 0 {
            Some(ConfigError::Zero(ConfigField::DriveSyscallBudget))
        } else if self.write_queue_limit == 0 {
            Some(ConfigError::Zero(ConfigField::WriteQueueLimit))
        } else if self.read_buffer_limit == 0 {
            Some(ConfigError::Zero(ConfigField::ReadBufferLimit))
        } else if self.pending_reply_limit == 0 {
            Some(ConfigError::Zero(ConfigField::PendingReplyLimit))
        } else if self.write_queue_limit < MAX_REPLY_BYTES {
            Some(ConfigError::HoldsNoReply(ConfigField::WriteQueueLimit))
        } else if self.pending_reply_limit < MAX_REPLY_BYTES {
            Some(ConfigError::HoldsNoReply(ConfigField::PendingReplyLimit))
        } else {
            None
        }
    }

    /// Validates the configuration.
    ///
    /// Every limit must be non-zero, and the write queue and pending reply
    /// buffers must each be able to hold one full terminal reply (14 bytes)
    /// so that a reply produced by decoding is never dropped.
    pub fn validate(&self) -> (result: Result<(), ConfigError>)
        ensures
            result is Ok <==> self.is_valid(),
            result == match self.first_error() {
                Some(error) => Err::<(), ConfigError>(error),
                None => Ok(()),
            },
    {
        let checks: [(ConfigField, usize); 9] = [
            (ConfigField::ReadByteQuantum, self.read_byte_quantum),
            (ConfigField::ReadSyscallQuantum, self.read_syscall_quantum),
            (ConfigField::WriteByteQuantum, self.write_byte_quantum),
            (ConfigField::WriteSyscallQuantum, self.write_syscall_quantum),
            (ConfigField::DriveByteBudget, self.drive_byte_budget),
            (ConfigField::DriveSyscallBudget, self.drive_syscall_budget),
            (ConfigField::WriteQueueLimit, self.write_queue_limit),
            (ConfigField::ReadBufferLimit, self.read_buffer_limit),
            (ConfigField::PendingReplyLimit, self.pending_reply_limit),
        ];
        let mut i: usize = 0;
        while i < 9
            invariant
                i <= 9,
                checks@.len() == 9,
                checks@ =~= seq![
                    (ConfigField::ReadByteQuantum, self.read_byte_quantum),
                    (ConfigField::ReadSyscallQuantum, self.read_syscall_quantum),
                    (ConfigField::WriteByteQuantum, self.write_byte_quantum),
                    (ConfigField::WriteSyscallQuantum, self.write_syscall_quantum),
                    (ConfigField::DriveByteBudget, self.drive_byte_budget),
                    (ConfigField::DriveSyscallBudget, self.drive_syscall_budget),
                    (ConfigField::WriteQueueLimit, self.write_queue_limit),
                    (ConfigField::ReadBufferLimit, self.read_buffer_limit),
                    (ConfigField::PendingReplyLimit, self.pending_reply_limit),
                ],
                forall|k: int| 0 <= k < i ==> (#[trigger] checks@[k]).1 > 0,
            decreases 9 - i,
        {
            let (field, value) = checks[i];
            if value == 0 {
                proof {
                    assert(self.value(field) == 0);
                    assert(i > 0 ==> checks@[0].1 > 0);
                    assert(i > 1 ==> checks@[1].1 > 0);
                    assert(i > 2 ==> checks@[2].1 > 0);
                    assert(i > 3 ==> checks@[3].1 > 0);
                    assert(i > 4 ==> checks@[4].1 > 0);
                    assert(i > 5 ==> checks@[5].1 > 0);
                    assert(i > 6 ==> checks@[6].1 > 0);
                    assert(i > 7 ==> checks@[7].1 > 0);
                }
                return Err(ConfigError::Zero(field));
            }
            i += 1;
        }
        proof {
            assert(checks@[0].1 > 0 && checks@[1].1 > 0 && checks@[2].1 > 0 && checks@[3].1 > 0
                && checks@[4].1 > 0 && checks@[5].1 > 0 && checks@[6].1 > 0 && checks@[7].1 > 0
                && checks@[8].1 > 0);
        }
        if self.write_queue_limit < MAX_REPLY_BYTES {
            return Err(ConfigError::HoldsNoReply(ConfigField::WriteQueueLimit));
        }
        if self.pending_reply_limit < MAX_REPLY_BYTES {
            return Err(ConfigError::HoldsNoReply(ConfigField::PendingReplyLimit));
        }
        Ok(())
    }
}

impl DriverConfig {
    /// The limits of a small interactive multiplexer.
    pub open spec fn standard() -> DriverConfig {
        DriverConfig {
            read_byte_quantum: 4096,
            read_syscall_quantum: 4,
            write_byte_quantum: 4096,
            write_syscall_quantum: 4,
            drive_byte_budget: 65536,
            drive_syscall_budget: 64,
            write_queue_limit: 65536,
            read_buffer_limit: 65536,
            pending_reply_limit: 65536,
        }
    }
}

impl Default for DriverConfig {
    /// Defaults tuned for a small interactive multiplexer: a few sessions,
    /// sub-millisecond per-drive latency, and a few hundred kilobytes of
    /// per-session memory at most. Raise `drive_*_budget` for throughput, or
    /// lower the queue and buffer limits to bound memory.
    fn default() -> (config: DriverConfig)
        ensures
            config.is_valid(),
            config == DriverConfig::standard(),
    {
        DriverConfig {
            read_byte_quantum: 4096,
            read_syscall_quantum: 4,
            write_byte_quantum: 4096,
            write_syscall_quantum: 4,
            drive_byte_budget: 65536,
            drive_syscall_budget: 64,
            write_queue_limit: 65536,
            read_buffer_limit: 65536,
            pending_reply_limit: 65536,
        }
    }
}

/// Per-session options passed when creating a session.
#[derive(Debug, Clone, Copy, PartialEq, Eq, Structural)]
pub struct SessionConfig {
    /// Initial terminal size.
    pub size: Size,
    /// Scrollback bounds for the session's emulator.
    pub scrollback_limits: ScrollbackLimits,
}

/// Result of one drive.
#[derive(Debug, Clone)]
pub struct DriveResult {
    /// Whether the driver still has ready work that a following drive should
    /// process before the caller blocks in its poll loop.
    pub has_pending_work: bool,
    /// Whether the poll source snapshot should be re-read (for example
    /// because an interest or a registration changed).
    pub poll_source_changed: bool,
    /// Sessions whose I/O was processed during this drive (bounded by the
    /// drive budgets).
    pub processed: Vec<SessionId>,
    /// Lifecycle events produced during this drive.
    pub events: Vec<DriverEvent>,
    /// Tokens that were rejected because they no longer match a live session.
    pub stale_tokens: Vec<RegistrationToken>,
}

impl Default for DriveResult {
    /// Nothing happened, and nothing is left to do.
    fn default() -> (result: DriveResult)
        ensures
            !result.has_pending_work,
            !result.poll_source_changed,
            result.processed@ == Seq::<SessionId>::empty(),
            result.events@ == Seq::<DriverEvent>::empty(),
            result.stale_tokens@ == Seq::<RegistrationToken>::empty(),
    {
        DriveResult {
            has_pending_work: false,
            poll_source_changed: false,
            processed: Vec::new(),
            events: Vec::new(),
            stale_tokens: Vec::new(),
        }
    }
}

/// A lifecycle event produced by the driver.
#[derive(Debug, Clone, Copy, PartialEq, Eq, Structural)]
pub enum DriverEvent {
    /// A child exit was observed without reaping the child.
    ///
    /// This event is emitted at most once per session. The child is still
    /// owned by the driver until the session is reaped.
    SessionExited {
        /// The session whose child exited.
        id: SessionId,
        /// The observed exit classification.
        exit: ObservedExit,
    },
}

/// Errors returned by the driver.
#[derive(Debug, Clone, Copy, PartialEq, Eq, Structural)]
pub enum DriverError {
    /// The session id does not refer to a live session (never existed, was
    /// already reaped, or is stale).
    StaleId(SessionId),
    /// The session was logically closed and no longer accepts this operation.
    SessionClosed(SessionId),
    /// The child exit has not been observed yet; poll processes first.
    NotExited(SessionId),
    /// The enqueue would exceed the session's queue limit and was rejected
    /// without modifying the queue.
    Backpressure,
    /// Identifier space exhausted; no new session can be created.
    IdExhausted,
    /// The configured limits cannot hold a terminal reply.
    ReplyOverflow,
    /// A configuration value is invalid.
    InvalidConfig(ConfigError),
}

/// Observable lifecycle phase of a session.
#[derive(Debug, Clone, Copy, PartialEq, Eq, Structural)]
pub enum SessionStatus {
    /// PTY master open, I/O active.
    Live,
    /// PTY EOF observed; remaining output drained.
    Eof,
    /// Logically closed; master closed, awaiting reap.
    Closing,
}

} // verus!
