//! A foundation for building terminal multiplexers.
//!
//! `termnix` provides an I/O-free terminal emulator, [`Input`] for session
//! key / paste / mouse / raw bytes, a [`Session`] that holds everything about
//! one PTY-backed child process but the PTY, a [`SessionDriver`] for several
//! sessions, and a [`Multiplexer`] of windows and panes. None of them performs
//! I/O: a pump or a drive tells its caller what to read or write, and the
//! caller reports how that went.

pub mod call_laws;
pub mod decimal;
pub mod driver;
pub mod driver_config;
pub mod driver_laws;
pub mod driver_session;
pub mod driver_session_laws;
pub mod glyph_laws;
pub mod input;
pub mod input_laws;
pub mod multiplexer;
pub mod multiplexer_laws;
pub mod multiplexer_model;
pub mod pty;
pub mod screen_laws;
pub mod sequence_laws;
pub mod session;
pub mod session_laws;
pub mod session_metrics;
pub mod size;
pub mod snapshot;
pub mod stream_laws;
pub mod terminal;
pub mod terminal_buffer;
pub mod terminal_emu;
pub mod terminal_laws;
pub mod terminal_model;
pub mod terminal_scrollback;
pub mod terminal_types;
pub mod tokenizer;
pub mod value_laws;

pub use decimal::push_u32;
pub use driver::{Drive, DriveAction, SessionDriver};
pub use driver_config::{
    ConfigError, ConfigField, DriveResult, DriverConfig, DriverError, DriverEvent, PollSource,
    PollSourceEntry, Readiness, RegistrationToken, SessionConfig, SessionId,
};
pub use input::{
    encode_key, encode_paste, Input, KeyCode, KeyEvent, Modifiers, MouseButton, MouseEvent,
    MouseEventKind,
};
pub use multiplexer::{
    LifecycleEvent, Multiplexer, MultiplexerError, Pane, PaneId, Window, WindowId,
};
pub use pty::{ClosingPtyProcess, ObservedExit, PtyError, SignalOutcome};
pub use session::{
    Interests, Pump, PumpAction, PumpBudget, ReadOutcome, Session, SessionCounters, SessionError,
    SessionStatus, WriteOutcome,
};
pub use session_metrics::{SessionMetrics, SessionPeaks};
pub use size::Size;
pub use snapshot::{ScrollbackLine, TerminalLine, TerminalSnapshot};
pub use terminal::TerminalState;
pub use terminal_scrollback::ScrollbackLimits;
pub use terminal_types::{
    Cell, Color, MouseReporting, Position, Style, TerminalAction, TerminalModes,
};
pub use tokenizer::Token;
