//! Logical input for PTY-bound terminal sessions.
//!
//! [`Input`] carries raw bytes, a key event, a paste payload or a mouse event.
//! A session turns all but raw bytes into PTY bytes using its current
//! [`TerminalModes`] at enqueue time. Host focus and the local tty mode are
//! never consulted.
//!
//! # Encoding references
//!
//! Cursor and keypad forms follow common xterm / VT practice (DECCKM, DECNKM /
//! application keypad). Bracketed paste uses the xterm markers `CSI 200~` /
//! `CSI 201~`. Mouse reports follow xterm's X10 / `?1000` / `?1002` / `?1003`
//! tracking modes and the SGR (`?1006`) encoding. Grid coordinates reuse
//! [`Position`].

use vstd::prelude::*;
use vstd::utf8::{encode_scalar, encode_utf8};

use crate::decimal::{decimal, push_u32};
use crate::terminal_types::{MouseReporting, Position, TerminalModes};

verus! {

/// Modifier keys held with a logical key.
#[derive(Debug, Clone, Copy, PartialEq, Eq, Structural, Hash)]
pub struct Modifiers {
    /// Control.
    pub ctrl: bool,
    /// Alt / Meta.
    pub alt: bool,
    /// Shift.
    pub shift: bool,
}

impl Modifiers {
    /// No modifiers.
    pub fn new() -> (modifiers: Modifiers)
        ensures
            modifiers == (Modifiers { ctrl: false, alt: false, shift: false }),
    {
        Modifiers { ctrl: false, alt: false, shift: false }
    }

    /// Sets Control and returns the updated value.
    pub fn ctrl(self) -> (modifiers: Modifiers)
        ensures
            modifiers == (Modifiers { ctrl: true, ..self }),
    {
        Modifiers { ctrl: true, alt: self.alt, shift: self.shift }
    }

    /// Sets Alt / Meta and returns the updated value.
    pub fn alt(self) -> (modifiers: Modifiers)
        ensures
            modifiers == (Modifiers { alt: true, ..self }),
    {
        Modifiers { ctrl: self.ctrl, alt: true, shift: self.shift }
    }

    /// Sets Shift and returns the updated value.
    pub fn shift(self) -> (modifiers: Modifiers)
        ensures
            modifiers == (Modifiers { shift: true, ..self }),
    {
        Modifiers { ctrl: self.ctrl, alt: self.alt, shift: true }
    }
}

impl Default for Modifiers {
    fn default() -> (modifiers: Modifiers)
        ensures
            modifiers == (Modifiers { ctrl: false, alt: false, shift: false }),
    {
        Modifiers::new()
    }
}

/// Logical key without host-toolkit bindings.
#[derive(Debug, Clone, Copy, PartialEq, Eq, Structural, Hash)]
pub enum KeyCode {
    /// Unicode character (after layout), not a named control key.
    Char(char),
    /// Enter / Return.
    Enter,
    /// Tab.
    Tab,
    /// Backspace.
    Backspace,
    /// Escape.
    Escape,
    /// Up arrow.
    Up,
    /// Down arrow.
    Down,
    /// Left arrow.
    Left,
    /// Right arrow.
    Right,
    /// Home.
    Home,
    /// End.
    End,
    /// Page Up.
    PageUp,
    /// Page Down.
    PageDown,
    /// Insert.
    Insert,
    /// Delete (forward).
    Delete,
    /// Function key `1..=12`.
    Function(u8),
    /// Numeric keypad digit `0..=9`.
    KeypadDigit(u8),
    /// Keypad decimal separator.
    KeypadDecimal,
    /// Keypad enter.
    KeypadEnter,
    /// Keypad add.
    KeypadAdd,
    /// Keypad subtract.
    KeypadSubtract,
    /// Keypad multiply.
    KeypadMultiply,
    /// Keypad divide.
    KeypadDivide,
}

/// A logical key press with modifiers.
#[derive(Debug, Clone, Copy, PartialEq, Eq, Structural, Hash)]
pub struct KeyEvent {
    /// Key identity.
    pub code: KeyCode,
    /// Held modifiers.
    pub modifiers: Modifiers,
}

impl KeyEvent {
    /// Builds a key event with no modifiers.
    pub fn new(code: KeyCode) -> (event: KeyEvent)
        ensures
            event == (KeyEvent {
                code,
                modifiers: Modifiers { ctrl: false, alt: false, shift: false },
            }),
    {
        KeyEvent { code, modifiers: Modifiers::new() }
    }
}

/// Mouse button identity for report encoding.
///
/// Report coordinates use [`Position`] (grid-local, zero-based cells).
#[derive(Debug, Clone, Copy, PartialEq, Eq, Structural, Hash)]
pub enum MouseButton {
    /// Left button.
    Left,
    /// Middle button.
    Middle,
    /// Right button.
    Right,
    /// Wheel up.
    WheelUp,
    /// Wheel down.
    WheelDown,
}

impl MouseButton {
    /// The button's part of a report code.
    pub open spec fn spec_code(self) -> u32 {
        match self {
            MouseButton::Left => 0,
            MouseButton::Middle => 1,
            MouseButton::Right => 2,
            MouseButton::WheelUp => 64,
            MouseButton::WheelDown => 65,
        }
    }

    /// The button's report-code low bits, as defined by the mouse protocol.
    ///
    /// The values only encode the button identity; the release and motion
    /// bits are added by the report encoder.
    fn code(self) -> (code: u32)
        ensures
            code == self.spec_code(),
    {
        match self {
            MouseButton::Left => 0,
            MouseButton::Middle => 1,
            MouseButton::Right => 2,
            MouseButton::WheelUp => 64,
            MouseButton::WheelDown => 65,
        }
    }
}

/// What happened to the mouse.
#[derive(Debug, Clone, Copy, PartialEq, Eq, Structural, Hash)]
pub enum MouseEventKind {
    /// A button went down.
    Press(MouseButton),
    /// A button came up.
    Release(MouseButton),
    /// The pointer moved. `button` is the held button, if any.
    ///
    /// The caller tracks which button is down: a session keeps no
    /// mouse-button state, so a drag is reported as `Some(button)` and a bare
    /// move as `None`.
    Motion {
        /// The button held while moving, or `None` for a bare move.
        button: Option<MouseButton>,
    },
}

/// A logical mouse event at a grid position.
///
/// Report bytes follow the child's current [`TerminalModes`] at enqueue time.
#[derive(Debug, Clone, Copy, PartialEq, Eq, Structural, Hash)]
pub struct MouseEvent {
    /// What happened.
    pub kind: MouseEventKind,
    /// Zero-based position on the active screen.
    pub position: Position,
    /// Held modifiers (Shift / Alt / Ctrl).
    pub modifiers: Modifiers,
}

/// Application input to enqueue on a session.
///
/// `Key`, `Paste`, and `Mouse` are turned into PTY bytes with the session's
/// current modes at enqueue time. `Raw` is appended unchanged.
#[derive(Debug, Clone, Copy, PartialEq, Eq, Hash)]
pub enum Input<'a> {
    /// Already-formed PTY bytes.
    Raw(&'a [u8]),
    /// A logical key press.
    Key(KeyEvent),
    /// Paste payload; bracketed-paste markers follow the current modes.
    Paste(&'a [u8]),
    /// A mouse event; report bytes follow the current modes.
    Mouse(MouseEvent),
}

/// What holding Control makes of a character, where it makes anything of it.
pub open spec fn control_byte(ch: char) -> Option<u8> {
    if ch == '@' || ch == ' ' {
        Some(0u8)
    } else if 'a' <= ch <= 'z' {
        Some((ch as u32 - 0x60) as u8)
    } else if 'A' <= ch <= 'Z' {
        Some((ch as u32 - 0x40) as u8)
    } else if ch == '[' || ch == '3' {
        Some(0x1bu8)
    } else if ch == '\\' || ch == '4' {
        Some(0x1cu8)
    } else if ch == ']' || ch == '5' {
        Some(0x1du8)
    } else if ch == '^' || ch == '6' {
        Some(0x1eu8)
    } else if ch == '_' || ch == '7' || ch == '/' {
        Some(0x1fu8)
    } else if ch == '?' {
        Some(0x7fu8)
    } else if (ch as u32) < 0x20 {
        Some(ch as u8)
    } else {
        None
    }
}

/// The bytes of a character key: its control byte where Control is held and
/// there is one, else its UTF-8 encoding.
pub open spec fn char_bytes(ch: char, ctrl: bool) -> Seq<u8> {
    match control_byte(ch) {
        Some(byte) if ctrl => seq![byte],
        _ => encode_scalar(ch as u32),
    }
}

/// `ESC O` and a final byte in application mode, else what `normal` says.
pub open spec fn keypad_bytes(application: bool, normal: u8, last: u8) -> Seq<u8> {
    if application {
        seq![0x1bu8, 0x4fu8, last]
    } else {
        seq![normal]
    }
}

/// `ESC O` or `ESC [` and a final byte.
pub open spec fn cursor_bytes(application: bool, last: u8) -> Seq<u8> {
    seq![0x1bu8, if application { 0x4fu8 } else { 0x5bu8 }, last]
}

/// `ESC [`, a decimal number and `~`.
pub open spec fn tilde_bytes(number: nat) -> Seq<u8> {
    seq![0x1bu8, 0x5bu8] + decimal(number) + seq![0x7eu8]
}

/// The bytes of a function key. There are twelve; any other number has none.
pub open spec fn function_bytes(n: u8) -> Seq<u8> {
    if 1 <= n <= 4 {
        seq![0x1bu8, 0x4fu8, (0x4f + n) as u8]
    } else if n == 5 {
        tilde_bytes(15)
    } else if 6 <= n <= 10 {
        tilde_bytes((n + 11) as nat)
    } else if 11 <= n <= 12 {
        tilde_bytes((n + 12) as nat)
    } else {
        Seq::empty()
    }
}

/// The bytes of a key, without what Alt adds.
pub open spec fn key_body(event: KeyEvent, modes: TerminalModes) -> Seq<u8> {
    let cursor = modes.application_cursor;
    let keypad = modes.application_keypad;
    match event.code {
        KeyCode::Char(ch) => char_bytes(ch, event.modifiers.ctrl),
        KeyCode::Enter => seq![0x0du8],
        KeyCode::Tab => seq![0x09u8],
        KeyCode::Backspace => seq![0x7fu8],
        KeyCode::Escape => seq![0x1bu8],
        KeyCode::Up => cursor_bytes(cursor, 0x41),
        KeyCode::Down => cursor_bytes(cursor, 0x42),
        KeyCode::Right => cursor_bytes(cursor, 0x43),
        KeyCode::Left => cursor_bytes(cursor, 0x44),
        KeyCode::Home => cursor_bytes(cursor, 0x48),
        KeyCode::End => cursor_bytes(cursor, 0x46),
        KeyCode::Insert => tilde_bytes(2),
        KeyCode::Delete => tilde_bytes(3),
        KeyCode::PageUp => tilde_bytes(5),
        KeyCode::PageDown => tilde_bytes(6),
        KeyCode::Function(n) => function_bytes(n),
        KeyCode::KeypadDigit(d) => if d > 9 {
            Seq::empty()
        } else {
            keypad_bytes(keypad, (0x30 + d) as u8, (0x70 + d) as u8)
        },
        KeyCode::KeypadDecimal => keypad_bytes(keypad, 0x2e, 0x6e),
        KeyCode::KeypadEnter => keypad_bytes(keypad, 0x0d, 0x4d),
        KeyCode::KeypadAdd => keypad_bytes(keypad, 0x2b, 0x6b),
        KeyCode::KeypadSubtract => keypad_bytes(keypad, 0x2d, 0x6d),
        KeyCode::KeypadMultiply => keypad_bytes(keypad, 0x2a, 0x6a),
        KeyCode::KeypadDivide => keypad_bytes(keypad, 0x2f, 0x6f),
    }
}

/// The bytes of a key press. Alt puts an escape in front.
pub open spec fn key_bytes(event: KeyEvent, modes: TerminalModes) -> Seq<u8> {
    if event.modifiers.alt {
        seq![0x1bu8] + key_body(event, modes)
    } else {
        key_body(event, modes)
    }
}

/// The bytes of a paste, between the markers `CSI 200~` and `CSI 201~` where
/// the child asked for them.
pub open spec fn paste_bytes(text: Seq<u8>, modes: TerminalModes) -> Seq<u8> {
    if modes.bracketed_paste {
        tilde_bytes(200) + text + tilde_bytes(201)
    } else {
        text
    }
}

/// Whether a mouse event is reported at all.
pub open spec fn is_reported(kind: MouseEventKind, mode: MouseReporting) -> bool {
    match mode {
        MouseReporting::Off => false,
        MouseReporting::X10 => match kind {
            MouseEventKind::Press(button) => button.spec_code() < 3,
            _ => false,
        },
        MouseReporting::Normal => !(kind is Motion),
        MouseReporting::ButtonEvent => kind != (MouseEventKind::Motion { button: None }),
        MouseReporting::AnyEvent => true,
    }
}

/// The part of a report code that stands for what happened. A release is
/// button 3 in the legacy form, and so is a move without a button.
pub open spec fn kind_code(kind: MouseEventKind, sgr: bool) -> int {
    match kind {
        MouseEventKind::Press(button) => button.spec_code() as int,
        MouseEventKind::Release(button) => if sgr {
            button.spec_code() as int
        } else {
            3
        },
        MouseEventKind::Motion { button } => match button {
            Some(button) => button.spec_code() + 32,
            None => 35,
        },
    }
}

/// The whole report code: each modifier has a bit of its own.
pub open spec fn report_code(event: MouseEvent, sgr: bool) -> int {
    let shift: int = if event.modifiers.shift {
        4
    } else {
        0
    };
    let alt: int = if event.modifiers.alt {
        8
    } else {
        0
    };
    let ctrl: int = if event.modifiers.ctrl {
        16
    } else {
        0
    };
    kind_code(event.kind, sgr) + shift + alt + ctrl
}

/// The byte that stands for a zero-based coordinate in the legacy form. What
/// is beyond 223 columns or rows is reported as 223.
pub open spec fn legacy_coordinate(n: u16) -> u8 {
    if n < 223 {
        (0x21 + n) as u8
    } else {
        0xff
    }
}

/// The bytes of a mouse event.
pub open spec fn mouse_bytes(event: MouseEvent, modes: TerminalModes) -> Seq<u8> {
    let code = report_code(event, modes.mouse_sgr);
    if !is_reported(event.kind, modes.mouse) {
        Seq::empty()
    } else if modes.mouse_sgr {
        let last = if event.kind is Release {
            0x6du8
        } else {
            0x4du8
        };
        seq![0x1bu8, 0x5bu8, 0x3cu8] + decimal(code as nat) + seq![0x3bu8] + decimal(
            (event.position.col + 1) as nat,
        ) + seq![0x3bu8] + decimal((event.position.row + 1) as nat) + seq![last]
    } else {
        seq![
            0x1bu8,
            0x5bu8,
            0x4du8,
            (0x20 + code) as u8,
            legacy_coordinate(event.position.col),
            legacy_coordinate(event.position.row),
        ]
    }
}

impl<'a> Input<'a> {
    /// The PTY bytes of this input under `modes`.
    pub open spec fn bytes(self, modes: TerminalModes) -> Seq<u8> {
        match self {
            Input::Raw(bytes) => bytes@,
            Input::Key(event) => key_bytes(event, modes),
            Input::Paste(text) => paste_bytes(text@, modes),
            Input::Mouse(event) => mouse_bytes(event, modes),
        }
    }

    /// Returns how many bytes this input would add to the write queue.
    ///
    /// `modes` selects the same sequences that enqueueing it would write. For
    /// `Raw`, the slice length is returned and `modes` is ignored.
    pub fn byte_len(self, modes: TerminalModes) -> (len: usize)
        ensures
            len == self.bytes(modes).len(),
    {
        match self {
            Input::Raw(bytes) => bytes.len(),
            _ => {
                let mut buf: Vec<u8> = Vec::new();
                self.write_to(modes, &mut buf);
                proof {
                    assert(buf@ =~= self.bytes(modes));
                }
                buf.len()
            },
        }
    }

    /// Appends the PTY bytes for this input to `out`.
    pub fn write_to(self, modes: TerminalModes, out: &mut Vec<u8>)
        ensures
            final(out)@ == old(out)@ + self.bytes(modes),
    {
        match self {
            Input::Raw(bytes) => append(out, bytes),
            Input::Key(event) => write_key(out, event, modes),
            Input::Paste(text) => write_paste(out, text, modes),
            Input::Mouse(event) => write_mouse(out, event, modes),
        }
    }
}

/// Appends bytes.
pub(crate) fn append(out: &mut Vec<u8>, bytes: &[u8])
    ensures
        final(out)@ == old(out)@ + bytes@,
{
    let ghost before = out@;
    out.extend_from_slice(bytes);
    proof {
        assert(out@ =~= before + bytes@);
    }
}

/// Returns the PTY bytes for a key press.
pub fn encode_key(event: KeyEvent, modes: TerminalModes) -> (bytes: Vec<u8>)
    ensures
        bytes@ == key_bytes(event, modes),
{
    let mut out: Vec<u8> = Vec::new();
    write_key(&mut out, event, modes);
    proof {
        assert(out@ =~= key_bytes(event, modes));
    }
    out
}

/// Returns the PTY bytes for a paste.
pub fn encode_paste(text: &str, modes: TerminalModes) -> (bytes: Vec<u8>)
    ensures
        bytes@ == paste_bytes(encode_utf8(text@), modes),
{
    let mut out: Vec<u8> = Vec::new();
    write_paste(&mut out, text.as_bytes(), modes);
    proof {
        assert(out@ =~= paste_bytes(encode_utf8(text@), modes));
    }
    out
}

/// Appends the PTY bytes for a key press.
pub fn write_key(out: &mut Vec<u8>, event: KeyEvent, modes: TerminalModes)
    ensures
        final(out)@ == old(out)@ + key_bytes(event, modes),
{
    let ghost before = out@;
    if event.modifiers.alt {
        out.push(0x1b);
    }
    write_key_body(out, event, modes);
    proof {
        assert(out@ =~= before + key_bytes(event, modes));
    }
}

fn write_paste(out: &mut Vec<u8>, text: &[u8], modes: TerminalModes)
    ensures
        final(out)@ == old(out)@ + paste_bytes(text@, modes),
{
    let ghost before = out@;
    if modes.bracketed_paste {
        write_tilde(out, 200);
        append(out, text);
        write_tilde(out, 201);
    } else {
        append(out, text);
    }
    proof {
        assert(out@ =~= before + paste_bytes(text@, modes));
    }
}

#[verifier::spinoff_prover]
#[verifier::rlimit(30)]
fn write_mouse(out: &mut Vec<u8>, event: MouseEvent, modes: TerminalModes)
    ensures
        final(out)@ == old(out)@ + mouse_bytes(event, modes),
{
    let ghost before = out@;
    if !should_report(event.kind, modes.mouse) {
        proof {
            assert(out@ =~= before + mouse_bytes(event, modes));
        }
        return ;
    }
    let mut code: u32 = button_code(event.kind, modes.mouse_sgr);
    if event.modifiers.shift {
        code += 4;
    }
    if event.modifiers.alt {
        code += 8;
    }
    if event.modifiers.ctrl {
        code += 16;
    }
    if modes.mouse_sgr {
        let last: u8 = if is_release(event.kind) {
            0x6d
        } else {
            0x4d
        };
        out.push(0x1b);
        out.push(0x5b);
        out.push(0x3c);
        push_u32(out, code);
        out.push(0x3b);
        // Coordinates are 1-based on the wire; the event carries zero-based
        // cells.
        push_u32(out, event.position.col as u32 + 1);
        out.push(0x3b);
        push_u32(out, event.position.row as u32 + 1);
        out.push(last);
    } else {
        out.push(0x1b);
        out.push(0x5b);
        out.push(0x4d);
        out.push(0x20 + code as u8);
        out.push(legacy_byte(event.position.col));
        out.push(legacy_byte(event.position.row));
    }
    proof {
        assert(out@ =~= before + mouse_bytes(event, modes));
    }
}

/// Returns the legacy form of a zero-based coordinate.
///
/// It cannot represent a coordinate above 223. Clamp, as xterm does, rather
/// than wrap to a wrong cell.
fn legacy_byte(n: u16) -> (byte: u8)
    ensures
        byte == legacy_coordinate(n),
{
    if n < 223 {
        0x21 + n as u8
    } else {
        0xff
    }
}

/// Returns whether `mode` tracks this event at all.
///
/// The wheel buttons (`64`/`65`) were added with `?1000`, after `?9`, so `X10`
/// reports only `Left`/`Middle`/`Right` presses.
fn should_report(kind: MouseEventKind, mode: MouseReporting) -> (reported: bool)
    ensures
        reported == is_reported(kind, mode),
{
    match mode {
        MouseReporting::Off => false,
        MouseReporting::X10 => matches!(
            kind,
            MouseEventKind::Press(MouseButton::Left | MouseButton::Middle | MouseButton::Right)
        ),
        MouseReporting::Normal => matches!(
            kind,
            MouseEventKind::Press(_) | MouseEventKind::Release(_)
        ),
        MouseReporting::ButtonEvent => match kind {
            MouseEventKind::Press(_) => true,
            MouseEventKind::Release(_) => true,
            MouseEventKind::Motion { button } => button.is_some(),
        },
        MouseReporting::AnyEvent => true,
    }
}

/// Low bits of the report code for a reported event.
///
/// A release is button `3` only in the legacy form, which has no other way to
/// spell it; SGR keeps the real button code and marks the release with a
/// trailing `m`. A bare move is also button `3` (no button held) plus the
/// motion bit.
fn button_code(kind: MouseEventKind, sgr: bool) -> (code: u32)
    ensures
        code == kind_code(kind, sgr),
        code <= 97,
{
    match kind {
        MouseEventKind::Press(button) => button.code(),
        MouseEventKind::Release(button) => {
            if sgr {
                button.code()
            } else {
                3
            }
        },
        MouseEventKind::Motion { button } => match button {
            Some(button) => button.code() + 32,
            None => 35,
        },
    }
}

fn is_release(kind: MouseEventKind) -> (release: bool)
    ensures
        release == (kind is Release),
{
    matches!(kind, MouseEventKind::Release(_))
}

/// Appends the PTY bytes for a key press, without what Alt adds.
pub fn write_key_body(out: &mut Vec<u8>, event: KeyEvent, modes: TerminalModes)
    ensures
        final(out)@ == old(out)@ + key_body(event, modes),
{
    let cursor = modes.application_cursor;
    let keypad = modes.application_keypad;
    match event.code {
        KeyCode::Char(ch) => write_char(out, ch, event.modifiers),
        KeyCode::Enter => append(out, &[0x0d]),
        KeyCode::Tab => append(out, &[0x09]),
        KeyCode::Backspace => append(out, &[0x7f]),
        KeyCode::Escape => append(out, &[0x1b]),
        KeyCode::Up => write_cursor(out, cursor, 0x41),
        KeyCode::Down => write_cursor(out, cursor, 0x42),
        KeyCode::Right => write_cursor(out, cursor, 0x43),
        KeyCode::Left => write_cursor(out, cursor, 0x44),
        KeyCode::Home => write_cursor(out, cursor, 0x48),
        KeyCode::End => write_cursor(out, cursor, 0x46),
        KeyCode::Insert => write_tilde(out, 2),
        KeyCode::Delete => write_tilde(out, 3),
        KeyCode::PageUp => write_tilde(out, 5),
        KeyCode::PageDown => write_tilde(out, 6),
        KeyCode::Function(n) => write_function(out, n),
        KeyCode::KeypadDigit(d) => write_keypad_digit(out, d, keypad),
        KeyCode::KeypadDecimal => write_keypad(out, keypad, 0x2e, 0x6e),
        KeyCode::KeypadEnter => write_keypad(out, keypad, 0x0d, 0x4d),
        KeyCode::KeypadAdd => write_keypad(out, keypad, 0x2b, 0x6b),
        KeyCode::KeypadSubtract => write_keypad(out, keypad, 0x2d, 0x6d),
        KeyCode::KeypadMultiply => write_keypad(out, keypad, 0x2a, 0x6a),
        KeyCode::KeypadDivide => write_keypad(out, keypad, 0x2f, 0x6f),
    }
}

fn write_char(out: &mut Vec<u8>, ch: char, mods: Modifiers)
    ensures
        final(out)@ == old(out)@ + char_bytes(ch, mods.ctrl),
{
    let ghost before = out@;
    if mods.ctrl {
        if let Some(byte) = ctrl_byte(ch) {
            out.push(byte);
            proof {
                assert(out@ =~= before + char_bytes(ch, true));
            }
            return ;
        }
    }
    write_utf8(out, ch);
}

/// Appends the UTF-8 encoding of a character.
fn write_utf8(out: &mut Vec<u8>, ch: char)
    ensures
        final(out)@ == old(out)@ + encode_scalar(ch as u32),
{
    let ghost before = out@;
    let scalar: u32 = ch as u32;
    if scalar <= 0x7f {
        out.push((scalar & 0x7f) as u8);
    } else if scalar <= 0x7ff {
        out.push(0xc0 | ((scalar >> 6) & 0x1f) as u8);
        out.push(0x80 | (scalar & 0x3f) as u8);
    } else if scalar <= 0xffff {
        out.push(0xe0 | ((scalar >> 12) & 0x0f) as u8);
        out.push(0x80 | ((scalar >> 6) & 0x3f) as u8);
        out.push(0x80 | (scalar & 0x3f) as u8);
    } else {
        out.push(0xf0 | ((scalar >> 18) & 0x7) as u8);
        out.push(0x80 | ((scalar >> 12) & 0x3f) as u8);
        out.push(0x80 | ((scalar >> 6) & 0x3f) as u8);
        out.push(0x80 | (scalar & 0x3f) as u8);
    }
    proof {
        assert(out@ =~= before + encode_scalar(ch as u32));
    }
}

/// Returns what holding Control makes of a character.
fn ctrl_byte(ch: char) -> (byte: Option<u8>)
    ensures
        byte == control_byte(ch),
{
    match ch {
        '@' | ' ' => Some(0x00),
        'a'..='z' => Some((ch as u32 - 0x60) as u8),
        'A'..='Z' => Some((ch as u32 - 0x40) as u8),
        '[' | '3' => Some(0x1b),
        '\\' | '4' => Some(0x1c),
        ']' | '5' => Some(0x1d),
        '^' | '6' => Some(0x1e),
        '_' | '7' | '/' => Some(0x1f),
        '?' => Some(0x7f),
        _ => {
            if (ch as u32) < 0x20 {
                Some(ch as u8)
            } else {
                None
            }
        },
    }
}

fn write_cursor(out: &mut Vec<u8>, application: bool, last: u8)
    ensures
        final(out)@ == old(out)@ + cursor_bytes(application, last),
{
    let ghost before = out@;
    out.push(0x1b);
    out.push(
        if application {
            0x4f
        } else {
            0x5b
        },
    );
    out.push(last);
    proof {
        assert(out@ =~= before + cursor_bytes(application, last));
    }
}

/// Appends `ESC [`, a number and `~`.
fn write_tilde(out: &mut Vec<u8>, number: u32)
    ensures
        final(out)@ == old(out)@ + tilde_bytes(number as nat),
{
    let ghost before = out@;
    out.push(0x1b);
    out.push(0x5b);
    push_u32(out, number);
    out.push(0x7e);
    proof {
        assert(out@ =~= before + tilde_bytes(number as nat));
    }
}

/// xterm defaults: F1-F4 via SS3, F5-F12 via CSI n~.
fn write_function(out: &mut Vec<u8>, n: u8)
    ensures
        final(out)@ == old(out)@ + function_bytes(n),
{
    let ghost before = out@;
    if 1 <= n && n <= 4 {
        out.push(0x1b);
        out.push(0x4f);
        out.push(0x4f + n);
    } else if n == 5 {
        write_tilde(out, 15);
    } else if 6 <= n && n <= 10 {
        write_tilde(out, n as u32 + 11);
    } else if n == 11 || n == 12 {
        write_tilde(out, n as u32 + 12);
    }
    proof {
        assert(out@ =~= before + function_bytes(n));
    }
}

fn write_keypad_digit(out: &mut Vec<u8>, digit: u8, application: bool)
    ensures
        final(out)@ == old(out)@ + if digit > 9 {
            Seq::<u8>::empty()
        } else {
            keypad_bytes(application, (0x30 + digit) as u8, (0x70 + digit) as u8)
        },
{
    let ghost before = out@;
    if digit > 9 {
        proof {
            assert(out@ =~= before + Seq::<u8>::empty());
        }
        return ;
    }
    write_keypad(out, application, 0x30 + digit, 0x70 + digit);
}

fn write_keypad(out: &mut Vec<u8>, application: bool, normal: u8, last: u8)
    ensures
        final(out)@ == old(out)@ + keypad_bytes(application, normal, last),
{
    let ghost before = out@;
    if application {
        out.push(0x1b);
        out.push(0x4f);
        out.push(last);
    } else {
        out.push(normal);
    }
    proof {
        assert(out@ =~= before + keypad_bytes(application, normal, last));
    }
}

/// A key is at most six bytes long.
pub proof fn lemma_key_len(event: KeyEvent, modes: TerminalModes)
    ensures
        key_bytes(event, modes).len() <= 6,
{
    lemma_tilde_len(2);
    lemma_tilde_len(3);
    lemma_tilde_len(5);
    lemma_tilde_len(6);
    lemma_tilde_len(15);
    if let KeyCode::Function(n) = event.code {
        lemma_tilde_len((n + 11) as nat);
        lemma_tilde_len((n + 12) as nat);
    }
}

proof fn lemma_tilde_len(number: nat)
    ensures
        number < 100 ==> tilde_bytes(number).len() <= 5,
        number < 1000 ==> tilde_bytes(number).len() <= 6,
{
    crate::decimal::lemma_decimal_len(number);
}

/// The markers of a paste are at most twelve bytes long together.
pub proof fn lemma_paste_len(text: Seq<u8>, modes: TerminalModes)
    ensures
        paste_bytes(text, modes).len() <= text.len() + 12,
{
    lemma_tilde_len(200);
    lemma_tilde_len(201);
}

/// Alt puts an escape in front of a key and changes nothing else of it.
pub proof fn alt_is_an_escape(code: KeyCode, ctrl: bool, shift: bool, modes: TerminalModes)
    ensures
        key_bytes(KeyEvent { code, modifiers: Modifiers { ctrl, alt: true, shift } }, modes)
            == seq![0x1bu8] + key_bytes(
            KeyEvent { code, modifiers: Modifiers { ctrl, alt: false, shift } },
            modes,
        ),
{
}

/// Shift never changes the bytes of a key.
pub proof fn shift_changes_no_key(event: KeyEvent, shift: bool, modes: TerminalModes)
    ensures
        key_bytes(
            KeyEvent { modifiers: Modifiers { shift, ..event.modifiers }, ..event },
            modes,
        ) == key_bytes(event, modes),
{
}

/// Control changes the bytes of a key only where it is a character that has a
/// control byte, and then that byte is all of it.
pub proof fn control_changes_characters_only(code: KeyCode, shift: bool, modes: TerminalModes)
    ensures
        ({
            let plain = KeyEvent { code, modifiers: Modifiers { ctrl: false, alt: false, shift } };
            let held = KeyEvent { code, modifiers: Modifiers { ctrl: true, alt: false, shift } };
            match code {
                KeyCode::Char(ch) => match control_byte(ch) {
                    Some(byte) => key_bytes(held, modes) == seq![byte],
                    None => key_bytes(held, modes) == key_bytes(plain, modes),
                },
                _ => key_bytes(held, modes) == key_bytes(plain, modes),
            }
        }),
{
}

/// Whether a key is one of the cursor keys.
pub open spec fn is_cursor_key(code: KeyCode) -> bool {
    code is Up || code is Down || code is Left || code is Right || code is Home || code is End
}

/// Whether a key is one of the keypad.
pub open spec fn is_keypad_key(code: KeyCode) -> bool {
    code is KeypadDigit || code is KeypadDecimal || code is KeypadEnter || code is KeypadAdd
        || code is KeypadSubtract || code is KeypadMultiply || code is KeypadDivide
}

/// The cursor keys depend on the application cursor mode and on no other, the
/// keypad on the application keypad mode and on no other, and all other keys
/// on no mode.
pub proof fn each_key_has_its_mode(event: KeyEvent, a: TerminalModes, b: TerminalModes)
    ensures
        is_cursor_key(event.code) && a.application_cursor == b.application_cursor ==> key_bytes(
            event,
            a,
        ) == key_bytes(event, b),
        is_keypad_key(event.code) && a.application_keypad == b.application_keypad ==> key_bytes(
            event,
            a,
        ) == key_bytes(event, b),
        !is_cursor_key(event.code) && !is_keypad_key(event.code) ==> key_bytes(event, a)
            == key_bytes(event, b),
{
}

/// A function key that there is none of, and a keypad digit that is none, have
/// no bytes of their own.
pub proof fn keys_that_do_not_exist_are_empty(n: u8, modifiers: Modifiers, modes: TerminalModes)
    ensures
        !(1 <= n <= 12) ==> key_body(KeyEvent { code: KeyCode::Function(n), modifiers }, modes)
            == Seq::<u8>::empty(),
        n > 9 ==> key_body(KeyEvent { code: KeyCode::KeypadDigit(n), modifiers }, modes) == Seq::<
            u8,
        >::empty(),
{
}

/// A legacy mouse report is six bytes long, and no byte of what is reported
/// is a control character. A mouse event that is not reported adds nothing.
pub proof fn legacy_reports_are_six_bytes(event: MouseEvent, modes: TerminalModes)
    requires
        !modes.mouse_sgr,
    ensures
        mouse_bytes(event, modes).len() == if is_reported(event.kind, modes.mouse) {
            6int
        } else {
            0int
        },
        is_reported(event.kind, modes.mouse) ==> forall|i: int|
            3 <= i < 6 ==> #[trigger] mouse_bytes(event, modes)[i] >= 0x20,
{
}

/// The mouse reporting modes track more and more: what one of them reports,
/// the next one reports too.
pub proof fn reporting_modes_are_nested(kind: MouseEventKind)
    ensures
        !is_reported(kind, MouseReporting::Off),
        is_reported(kind, MouseReporting::X10) ==> is_reported(kind, MouseReporting::Normal),
        is_reported(kind, MouseReporting::Normal) ==> is_reported(
            kind,
            MouseReporting::ButtonEvent,
        ),
        is_reported(kind, MouseReporting::ButtonEvent) ==> is_reported(
            kind,
            MouseReporting::AnyEvent,
        ),
{
}

/// What a key, a paste or a mouse event is turned into depends on nothing but
/// the modes that are given, and of those only on the ones that concern it.
pub proof fn only_the_given_modes_matter(input: Input, a: TerminalModes, b: TerminalModes)
    requires
        a.application_cursor == b.application_cursor,
        a.application_keypad == b.application_keypad,
        a.bracketed_paste == b.bracketed_paste,
        a.mouse == b.mouse,
        a.mouse_sgr == b.mouse_sgr,
    ensures
        input.bytes(a) == input.bytes(b),
{
}

} // verus!
