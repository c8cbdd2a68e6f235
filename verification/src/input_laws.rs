//! The bytes of every key, paste and mouse event, written out.

use vstd::prelude::*;
use vstd::utf8::encode_scalar;

use crate::decimal::decimal;
use crate::input::{
    key_body, key_bytes, mouse_bytes, paste_bytes, Input, KeyCode, KeyEvent, Modifiers,
    MouseButton, MouseEvent, MouseEventKind,
};
use crate::terminal_types::{MouseReporting, TerminalModes};

verus! {

/// A key that is pressed on its own.
pub open spec fn pressed(code: KeyCode, modes: TerminalModes) -> Seq<u8> {
    key_bytes(
        KeyEvent { code, modifiers: Modifiers { ctrl: false, alt: false, shift: false } },
        modes,
    )
}

proof fn lemma_digits(n: nat)
    ensures
        n < 10 ==> decimal(n) == seq![(0x30 + n) as u8],
        10 <= n < 100 ==> decimal(n) == seq![(0x30 + n / 10) as u8, (0x30 + n % 10) as u8],
        100 <= n < 1000 ==> decimal(n) == seq![
            (0x30 + n / 100) as u8,
            (0x30 + n / 10 % 10) as u8,
            (0x30 + n % 10) as u8,
        ],
{
    reveal_with_fuel(decimal, 4);
    if n < 10 {
    } else if n < 100 {
        assert(decimal(n) =~= seq![(0x30 + n / 10) as u8, (0x30 + n % 10) as u8]);
    } else if n < 1000 {
        assert(n / 10 / 10 == n / 100);
        assert(decimal(n) =~= seq![
            (0x30 + n / 100) as u8,
            (0x30 + n / 10 % 10) as u8,
            (0x30 + n % 10) as u8,
        ]);
    }
}

/// Enter, Tab, Backspace and Escape are one control character each.
pub proof fn bytes_of_control_keys(modes: TerminalModes)
    ensures
        pressed(KeyCode::Enter, modes) == seq![0x0du8],
        pressed(KeyCode::Tab, modes) == seq![0x09u8],
        pressed(KeyCode::Backspace, modes) == seq![0x7fu8],
        pressed(KeyCode::Escape, modes) == seq![0x1bu8],
{
}

/// Insert, Delete, Page Up and Page Down are `ESC [`, a digit and `~`.
pub proof fn bytes_of_editing_keys(modes: TerminalModes)
    ensures
        pressed(KeyCode::Insert, modes) == seq![0x1bu8, 0x5bu8, 0x32u8, 0x7eu8],
        pressed(KeyCode::Delete, modes) == seq![0x1bu8, 0x5bu8, 0x33u8, 0x7eu8],
        pressed(KeyCode::PageUp, modes) == seq![0x1bu8, 0x5bu8, 0x35u8, 0x7eu8],
        pressed(KeyCode::PageDown, modes) == seq![0x1bu8, 0x5bu8, 0x36u8, 0x7eu8],
{
    lemma_digits(2);
    lemma_digits(3);
    lemma_digits(5);
    lemma_digits(6);
    assert(pressed(KeyCode::Insert, modes) =~= seq![0x1bu8, 0x5bu8, 0x32u8, 0x7eu8]);
    assert(pressed(KeyCode::Delete, modes) =~= seq![0x1bu8, 0x5bu8, 0x33u8, 0x7eu8]);
    assert(pressed(KeyCode::PageUp, modes) =~= seq![0x1bu8, 0x5bu8, 0x35u8, 0x7eu8]);
    assert(pressed(KeyCode::PageDown, modes) =~= seq![0x1bu8, 0x5bu8, 0x36u8, 0x7eu8]);
}

/// The arrows, Home and End are `ESC [` and a letter, in application cursor
/// mode `ESC O` and the same letter.
pub proof fn bytes_of_cursor_keys(modes: TerminalModes)
    ensures
        ({
            let lead = if modes.application_cursor {
                0x4fu8
            } else {
                0x5bu8
            };
            &&& pressed(KeyCode::Up, modes) == seq![0x1bu8, lead, 0x41u8]
            &&& pressed(KeyCode::Down, modes) == seq![0x1bu8, lead, 0x42u8]
            &&& pressed(KeyCode::Right, modes) == seq![0x1bu8, lead, 0x43u8]
            &&& pressed(KeyCode::Left, modes) == seq![0x1bu8, lead, 0x44u8]
            &&& pressed(KeyCode::End, modes) == seq![0x1bu8, lead, 0x46u8]
            &&& pressed(KeyCode::Home, modes) == seq![0x1bu8, lead, 0x48u8]
        }),
{
}

/// The first four function keys are `ESC O` and a letter from `P` on. The
/// others are `ESC [`, a number and `~`, and any other number has no bytes.
pub proof fn bytes_of_function_keys(modes: TerminalModes, n: u8)
    ensures
        pressed(KeyCode::Function(1), modes) == seq![0x1bu8, 0x4fu8, 0x50u8],
        pressed(KeyCode::Function(2), modes) == seq![0x1bu8, 0x4fu8, 0x51u8],
        pressed(KeyCode::Function(3), modes) == seq![0x1bu8, 0x4fu8, 0x52u8],
        pressed(KeyCode::Function(4), modes) == seq![0x1bu8, 0x4fu8, 0x53u8],
        pressed(KeyCode::Function(5), modes) == seq![0x1bu8, 0x5bu8, 0x31u8, 0x35u8, 0x7eu8],
        pressed(KeyCode::Function(6), modes) == seq![0x1bu8, 0x5bu8, 0x31u8, 0x37u8, 0x7eu8],
        pressed(KeyCode::Function(7), modes) == seq![0x1bu8, 0x5bu8, 0x31u8, 0x38u8, 0x7eu8],
        pressed(KeyCode::Function(8), modes) == seq![0x1bu8, 0x5bu8, 0x31u8, 0x39u8, 0x7eu8],
        pressed(KeyCode::Function(9), modes) == seq![0x1bu8, 0x5bu8, 0x32u8, 0x30u8, 0x7eu8],
        pressed(KeyCode::Function(10), modes) == seq![0x1bu8, 0x5bu8, 0x32u8, 0x31u8, 0x7eu8],
        pressed(KeyCode::Function(11), modes) == seq![0x1bu8, 0x5bu8, 0x32u8, 0x33u8, 0x7eu8],
        pressed(KeyCode::Function(12), modes) == seq![0x1bu8, 0x5bu8, 0x32u8, 0x34u8, 0x7eu8],
        n == 0 || n > 12 ==> pressed(KeyCode::Function(n), modes) == Seq::<u8>::empty(),
{
    lemma_tilde(modes, 5, 15);
    lemma_tilde(modes, 6, 17);
    lemma_tilde(modes, 7, 18);
    lemma_tilde(modes, 8, 19);
    lemma_tilde(modes, 9, 20);
    lemma_tilde(modes, 10, 21);
    lemma_tilde(modes, 11, 23);
    lemma_tilde(modes, 12, 24);
}

proof fn lemma_tilde(modes: TerminalModes, n: u8, number: nat)
    requires
        5 <= n <= 12,
        number == if n == 5 {
            15int
        } else if n <= 10 {
            n + 11
        } else {
            n + 12
        },
    ensures
        pressed(KeyCode::Function(n), modes) == seq![
            0x1bu8,
            0x5bu8,
            (0x30 + number / 10) as u8,
            (0x30 + number % 10) as u8,
            0x7eu8,
        ],
{
    lemma_digits(number);
    assert(pressed(KeyCode::Function(n), modes) =~= seq![
        0x1bu8,
        0x5bu8,
        (0x30 + number / 10) as u8,
        (0x30 + number % 10) as u8,
        0x7eu8,
    ]);
}

/// A keypad key is the character that is on it, in application keypad mode
/// `ESC O` and a letter. A digit that is none has no bytes.
pub proof fn bytes_of_keypad_keys(modes: TerminalModes, digit: u8)
    ensures
        ({
            let application = modes.application_keypad;
            let key = |code: KeyCode, plain: u8, letter: u8|
                pressed(code, modes) == (if application {
                    seq![0x1bu8, 0x4fu8, letter]
                } else {
                    seq![plain]
                });
            &&& digit <= 9 ==> key(
                KeyCode::KeypadDigit(digit),
                (0x30 + digit) as u8,
                (0x70 + digit) as u8,
            )
            &&& digit > 9 ==> pressed(KeyCode::KeypadDigit(digit), modes) == Seq::<u8>::empty()
            &&& key(KeyCode::KeypadDecimal, 0x2e, 0x6e)
            &&& key(KeyCode::KeypadEnter, 0x0d, 0x4d)
            &&& key(KeyCode::KeypadAdd, 0x2b, 0x6b)
            &&& key(KeyCode::KeypadSubtract, 0x2d, 0x6d)
            &&& key(KeyCode::KeypadMultiply, 0x2a, 0x6a)
            &&& key(KeyCode::KeypadDivide, 0x2f, 0x6f)
        }),
{
}

/// A character on its own is its UTF-8 encoding; an ASCII character is one
/// byte.
pub proof fn bytes_of_characters(modes: TerminalModes, ch: char)
    ensures
        pressed(KeyCode::Char(ch), modes) == encode_scalar(ch as u32),
        (ch as u32) < 0x80 ==> pressed(KeyCode::Char(ch), modes) == seq![ch as u8],
{
    if (ch as u32) < 0x80 {
        let scalar = ch as u32;
        assert((scalar & 0x7f) as u8 == scalar as u8) by (bit_vector)
            requires
                scalar < 0x80,
        ;
        assert(encode_scalar(scalar) =~= seq![scalar as u8]);
    }
}

/// A character with Control held.
pub open spec fn controlled(ch: char, modes: TerminalModes) -> Seq<u8> {
    key_bytes(
        KeyEvent {
            code: KeyCode::Char(ch),
            modifiers: Modifiers { ctrl: true, alt: false, shift: false },
        },
        modes,
    )
}

/// Control makes a letter its place in the alphabet, in either case, and some
/// other characters the control characters around those. A control character
/// stays what it is.
pub proof fn bytes_of_control_characters(modes: TerminalModes, ch: char)
    ensures
        'a' <= ch <= 'z' ==> controlled(ch, modes) == seq![(ch as u32 - 'a' as u32 + 1) as u8],
        'A' <= ch <= 'Z' ==> controlled(ch, modes) == seq![(ch as u32 - 'A' as u32 + 1) as u8],
        controlled('@', modes) == seq![0u8],
        controlled(' ', modes) == seq![0u8],
        controlled('[', modes) == seq![0x1bu8],
        controlled('3', modes) == seq![0x1bu8],
        controlled('\\', modes) == seq![0x1cu8],
        controlled('4', modes) == seq![0x1cu8],
        controlled(']', modes) == seq![0x1du8],
        controlled('5', modes) == seq![0x1du8],
        controlled('^', modes) == seq![0x1eu8],
        controlled('6', modes) == seq![0x1eu8],
        controlled('_', modes) == seq![0x1fu8],
        controlled('7', modes) == seq![0x1fu8],
        controlled('/', modes) == seq![0x1fu8],
        controlled('?', modes) == seq![0x7fu8],
        (ch as u32) < 0x20 ==> controlled(ch, modes) == seq![ch as u8],
        (ch as u32) >= 0x80 ==> controlled(ch, modes) == pressed(KeyCode::Char(ch), modes),
        controlled('1', modes) == pressed(KeyCode::Char('1'), modes),
        controlled('2', modes) == pressed(KeyCode::Char('2'), modes),
        '8' <= ch <= '>' ==> controlled(ch, modes) == pressed(KeyCode::Char(ch), modes),
        '!' <= ch <= '.' ==> controlled(ch, modes) == pressed(KeyCode::Char(ch), modes),
        '{' <= ch <= '~' ==> controlled(ch, modes) == pressed(KeyCode::Char(ch), modes),
        ch == '0' || ch == '`' ==> controlled(ch, modes) == pressed(KeyCode::Char(ch), modes),
{
}

/// Alt puts an escape in front of the body, and the body is the key without
/// Alt; what is written for a key is what its body is.
pub proof fn bodies_are_keys_without_alt(event: KeyEvent, modes: TerminalModes)
    ensures
        key_bytes(event, modes) == (if event.modifiers.alt {
            seq![0x1bu8] + key_body(event, modes)
        } else {
            key_body(event, modes)
        }),
        key_body(event, modes) == key_bytes(
            KeyEvent { modifiers: Modifiers { alt: false, ..event.modifiers }, ..event },
            modes,
        ),
{
}

/// Raw bytes are passed on, a paste stands between `ESC [ 2 0 0 ~` and
/// `ESC [ 2 0 1 ~` where the child asked for that, and is passed on where it
/// did not.
pub proof fn bytes_of_input(raw: &[u8], event: KeyEvent, mouse: MouseEvent, modes: TerminalModes)
    ensures
        Input::Raw(raw).bytes(modes) == raw@,
        Input::Key(event).bytes(modes) == key_bytes(event, modes),
        Input::Mouse(mouse).bytes(modes) == mouse_bytes(mouse, modes),
        Input::Paste(raw).bytes(modes) == paste_bytes(raw@, modes),
        !modes.bracketed_paste ==> paste_bytes(raw@, modes) == raw@,
        modes.bracketed_paste ==> paste_bytes(raw@, modes) == seq![
            0x1bu8,
            0x5bu8,
            0x32u8,
            0x30u8,
            0x30u8,
            0x7eu8,
        ] + raw@ + seq![0x1bu8, 0x5bu8, 0x32u8, 0x30u8, 0x31u8, 0x7eu8],
{
    lemma_digits(200);
    lemma_digits(201);
    if modes.bracketed_paste {
        assert(paste_bytes(raw@, modes) =~= seq![0x1bu8, 0x5bu8, 0x32u8, 0x30u8, 0x30u8, 0x7eu8]
            + raw@ + seq![0x1bu8, 0x5bu8, 0x32u8, 0x30u8, 0x31u8, 0x7eu8]);
    }
}

/// The number of a button.
pub open spec fn button_number(button: MouseButton) -> int {
    match button {
        MouseButton::Left => 0,
        MouseButton::Middle => 1,
        MouseButton::Right => 2,
        MouseButton::WheelUp => 64,
        MouseButton::WheelDown => 65,
    }
}

/// What a modifier adds to the code of a mouse report.
pub open spec fn bit(held: bool, value: int) -> int {
    if held {
        value
    } else {
        0
    }
}

/// Which mouse events are told: none, presses of the three buttons, presses and
/// releases, those and drags, or all.
pub proof fn mouse_events_that_are_told(event: MouseEvent, modes: TerminalModes)
    ensures
        ({
            let told = mouse_bytes(event, modes).len() > 0;
            match (modes.mouse, event.kind) {
                (MouseReporting::Off, _) => !told,
                (MouseReporting::X10, MouseEventKind::Press(button)) => told == (button_number(
                    button,
                ) < 64),
                (MouseReporting::X10, _) => !told,
                (_, MouseEventKind::Press(_)) => told,
                (_, MouseEventKind::Release(_)) => told,
                (MouseReporting::Normal, MouseEventKind::Motion { .. }) => !told,
                (MouseReporting::ButtonEvent, MouseEventKind::Motion { button }) => told == (
                button is Some),
                (MouseReporting::AnyEvent, MouseEventKind::Motion { .. }) => told,
            }
        }),
{
}

/// A mouse report in the SGR form is `ESC [ <`, the code, the column and the
/// row counted from one, each in decimal, and `M`, or `m` for a release. The
/// code is the number of the button, and 32 more for a motion.
pub proof fn bytes_of_sgr_reports(event: MouseEvent, modes: TerminalModes)
    requires
        modes.mouse_sgr,
        mouse_bytes(event, modes).len() > 0,
    ensures
        ({
            let held = bit(event.modifiers.shift, 4) + bit(event.modifiers.alt, 8) + bit(
                event.modifiers.ctrl,
                16,
            );
            let code = held + match event.kind {
                MouseEventKind::Press(button) => button_number(button),
                MouseEventKind::Release(button) => button_number(button),
                MouseEventKind::Motion { button } => 32 + (match button {
                    Some(button) => button_number(button),
                    None => 3,
                }),
            };
            let last = if event.kind is Release {
                0x6du8
            } else {
                0x4du8
            };
            mouse_bytes(event, modes) == seq![0x1bu8, 0x5bu8, 0x3cu8] + decimal(code as nat)
                + seq![0x3bu8] + decimal((event.position.col + 1) as nat) + seq![0x3bu8] + decimal(
                (event.position.row + 1) as nat,
            ) + seq![last]
        }),
{
}

/// A mouse report in the legacy form is `ESC [ M` and three bytes: the code and
/// 32, and the column and the row counted from one and 32, or 255 where that
/// does not fit. A release, and a motion without a button, is button 3.
pub proof fn bytes_of_legacy_reports(event: MouseEvent, modes: TerminalModes)
    requires
        !modes.mouse_sgr,
        mouse_bytes(event, modes).len() > 0,
    ensures
        ({
            let held = bit(event.modifiers.shift, 4) + bit(event.modifiers.alt, 8) + bit(
                event.modifiers.ctrl,
                16,
            );
            let code = held + match event.kind {
                MouseEventKind::Press(button) => button_number(button),
                MouseEventKind::Release(_) => 3,
                MouseEventKind::Motion { button } => 32 + (match button {
                    Some(button) => button_number(button),
                    None => 3,
                }),
            };
            let col = 33 + event.position.col;
            let row = 33 + event.position.row;
            let bytes = mouse_bytes(event, modes);
            &&& bytes.len() == 6
            &&& bytes[0] == 0x1b && bytes[1] == 0x5b && bytes[2] == 0x4d
            &&& bytes[3] == 32 + code
            &&& bytes[4] == if col <= 255 {
                col
            } else {
                255
            }
            &&& bytes[5] == if row <= 255 {
                row
            } else {
                255
            }
        }),
{
}

} // verus!
