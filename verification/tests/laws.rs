//! The laws of the library on concrete values, and edge cases of the emulator.

use termnix::terminal_scrollback::ScrollbackLimits;
use termnix::tokenizer::{char_display_width, display_width};
use termnix::{
    Cell, Color, DriverConfig, Interests, Position, SessionConfig, SessionDriver, Size, Style,
    TerminalAction, TerminalState, Token,
};

fn size(rows: u16, cols: u16) -> Size {
    Size::new(rows, cols).expect("rows and cols are non-zero")
}

fn term(rows: u16, cols: u16) -> TerminalState {
    TerminalState::new(size(rows, cols))
}

fn row_text(term: &TerminalState, row: u16) -> String {
    term.row(row)
        .expect("row in range")
        .iter()
        .filter(|cell| cell.width != 0)
        .map(|cell| cell.ch)
        .collect()
}

fn widths(term: &TerminalState, row: u16) -> Vec<u8> {
    term.row(row)
        .expect("row in range")
        .iter()
        .map(|cell| cell.width)
        .collect()
}

fn replies(term: &TerminalState) -> Vec<u8> {
    term.pending_reply_bytes().to_vec()
}

#[test]
fn a_stream_may_be_cut_anywhere() {
    // Each of these is cut at every place, also inside a character.
    let streams: [&[u8]; 4] = [
        "caf\u{e9} A\u{3042}B".as_bytes(),
        b"\xc3\xa9A\xe3\x81\x82",
        b"a\x1b[3;4H\x1b[31mred\x1b]2;title\x07z",
        b"x\xc2\x85y\xffz",
    ];
    for stream in streams {
        let mut whole = term(4, 12);
        for &byte in stream {
            whole.feed(&[byte]);
        }
        for cut in 0..=stream.len() {
            let mut pieces = term(4, 12);
            pieces.feed(&stream[..cut]);
            pieces.feed(&stream[cut..]);
            assert!(whole.same_state(&pieces), "{stream:?} cut at {cut}");
        }
    }
}

#[test]
fn a_split_character_does_not_swallow_what_follows() {
    let mut t = term(1, 8);
    t.feed(b"\xc3");
    t.feed(b"\xa9A\xe3\x81\x82");
    assert_eq!(row_text(&t, 0), "\u{e9}A\u{3042}    ");
}

#[test]
fn replies_are_at_most_fourteen_bytes() {
    let mut t = term(u16::MAX, 1);
    t.feed(b"\x1b[65535;1H\x1b[6n");
    assert_eq!(replies(&t), b"\x1b[65535;1R".to_vec());
    let mut t = term(1, u16::MAX);
    t.feed(b"\x1b[1;65535H\x1b[6n");
    assert_eq!(replies(&t), b"\x1b[1;65535R".to_vec());
    assert!(replies(&t).len() <= 14);
}

#[test]
fn replies_wait_until_they_are_taken() {
    let mut t = term(2, 2);
    t.feed(b"\x1b[5n\x1b[c\x1b[6n");
    assert_eq!(replies(&t), b"\x1b[0n\x1b[?6c\x1b[1;1R".to_vec());
    t.advance_reply_bytes(0);
    t.advance_reply_bytes(4);
    assert_eq!(replies(&t), b"\x1b[?6c\x1b[1;1R".to_vec());
    // A hard reset leaves them.
    t.feed(b"\x1bc");
    assert_eq!(
        t.drain_actions(),
        vec![
            TerminalAction::WritePty(b"\x1b[?6c".to_vec()),
            TerminalAction::WritePty(b"\x1b[1;1R".to_vec()),
        ]
    );
    assert!(t.drain_actions().is_empty());
    assert!(replies(&t).is_empty());
}

#[test]
fn each_reply_is_an_action_of_its_own() {
    let mut t = term(2, 20);
    t.feed(b"\x1b[2;13H\x1b[6n\x1b[c\x1b[5n");
    t.advance_reply_bytes(3);
    let actions = t.drain_actions();
    // What is left of the first one is taken by itself.
    assert_eq!(
        actions,
        vec![
            TerminalAction::WritePty(b";13R".to_vec()),
            TerminalAction::WritePty(b"\x1b[?6c".to_vec()),
            TerminalAction::WritePty(b"\x1b[0n".to_vec()),
        ]
    );
}

#[test]
fn unknown_requests_and_private_queries_are_not_answered() {
    let mut t = term(2, 2);
    t.feed(b"\x1b[7n\x1b[?6n\x1b[?c\x1b[n");
    assert!(replies(&t).is_empty());
}

#[test]
fn a_title_is_decoded_and_invalid_bytes_are_replaced() {
    let mut t = term(1, 4);
    t.feed("\x1b]0;caf\u{e9}\x07".as_bytes());
    assert_eq!(t.title(), "caf\u{e9}");
    t.feed(b"\x1b]2;a\xff\x07");
    assert_eq!(t.title(), "a\u{fffd}");
    t.feed(b"\x1b]1;icon\x07");
    assert_eq!(t.title(), "a\u{fffd}");
    t.feed(b"\x1b]2\x07");
    assert_eq!(t.title(), "");
}

#[test]
fn device_control_strings_do_not_become_text() {
    let mut t = term(1, 8);
    t.feed(b"a\x1bPq#0;2;0;0;0~~\x1b\\b");
    assert_eq!(row_text(&t, 0), "ab      ");
    assert_eq!(t.cursor(), Position { row: 0, col: 2 });
}

#[test]
fn widths_come_from_the_unicode_tables() {
    assert_eq!(char_display_width('a'), Some(1));
    assert_eq!(char_display_width('\u{3042}'), Some(2));
    assert_eq!(char_display_width('\u{301}'), Some(0));
    assert_eq!(char_display_width('\u{7}'), None);
    assert_eq!(char_display_width('\u{85}'), None);
    assert_eq!(display_width(Some(3)), Some(1));
    assert_eq!(display_width(None), None);
}

#[test]
fn tokens_can_be_carried_out_directly() {
    let mut fed = term(3, 6);
    fed.feed(b"ab\r\n\x1b[1mc");
    let mut told = term(3, 6);
    told.perform(&[
        Token::Print('a'),
        Token::Print('b'),
        Token::Execute(b'\r'),
        Token::Execute(b'\n'),
        Token::Csi {
            params: vec![vec![1]],
            intermediates: vec![],
            ignore: false,
            action: 'm',
        },
        Token::Print('c'),
    ]);
    assert_eq!(fed.snapshot(), told.snapshot());
    assert_eq!(told.revision(), 1);
    told.print('d', Some(1));
    assert_eq!(told.cursor(), Position { row: 1, col: 2 });
    told.print('e', Some(0));
    told.print('e', None);
    assert_eq!(told.cursor(), Position { row: 1, col: 2 });
    assert_eq!(told.revision(), 2);
}

#[test]
fn sequences_that_are_too_long_are_ignored() {
    let mut t = term(1, 4);
    t.perform(&[Token::Csi {
        params: vec![vec![3]],
        intermediates: vec![],
        ignore: true,
        action: 'C',
    }]);
    assert_eq!(t.cursor(), Position { row: 0, col: 0 });
    t.perform(&[Token::Esc {
        intermediates: vec![b'('],
        ignore: false,
        byte: b'D',
    }]);
    assert_eq!(t.cursor(), Position { row: 0, col: 0 });
    assert_eq!(t.revision(), 0);
}

#[test]
fn the_alternate_screen_comes_and_goes_without_a_trace() {
    let mut t = term(3, 6);
    t.feed(b"one\r\ntwo\x1b[31m");
    let before = t.snapshot();
    t.feed(b"\x1b[?1049h\x1b[0mX\r\n\r\n\r\n\r\nY");
    assert!(t.is_on_alternate_screen());
    assert_eq!(t.scrollback_len(), 0);
    t.feed(b"\x1b[?1049l");
    assert_eq!(t.snapshot(), before);
    assert_eq!(
        t.style(),
        Style {
            foreground: Color::Indexed(1),
            ..Style::default()
        }
    );
}

#[test]
fn whatever_is_drawn_on_the_alternate_screen_is_left_behind() {
    let mut t = term(3, 6);
    t.feed(b"one\r\ntwo\r\nthree\r\nfour\x1b[1;32m\x1b[2;3H");
    let before = t.snapshot();
    t.feed(b"\x1b[?1049h");
    for piece in [
        &b"\x1b[2;3r\x1b[?6h\x1b[31mX\r\n\r\n\r\n"[..],
        b"\x1b8\x1b[u\x1b[2J\x1b[5n\x1bM\x1b[4L",
        b"wide \xe3\x81\x82\xe3\x81\x82\x1b[3S",
    ] {
        t.feed(piece);
        assert!(t.is_on_alternate_screen());
    }
    t.feed(b"\x1b[?1049l");
    let after = t.snapshot();
    assert!(!t.is_on_alternate_screen());
    for row in 0..3 {
        assert_eq!(after.row(row), before.row(row));
    }
    assert_eq!(after.cursor(), before.cursor());
    assert_eq!(after.style(), before.style());
    assert_eq!(t.scrollback_len(), 1);
}

#[test]
fn a_scroll_region_is_clamped_by_a_resize() {
    // Rows 1 and 2 of four are the region, and stay it on a larger screen.
    let mut t = term(4, 4);
    t.feed(b"\x1b[2;3r");
    t.resize(size(6, 4));
    t.feed(b"\x1b[1;1Hkeep\x1b[2;1Hup\x1b[3;1Hdown\x1b[4;1Hfoot\x1b[3;1H\n");
    assert_eq!(t.cursor(), Position { row: 2, col: 0 });
    assert_eq!(row_text(&t, 0), "keep");
    assert_eq!(row_text(&t, 1), "down");
    assert_eq!(row_text(&t, 2), "    ");
    assert_eq!(row_text(&t, 3), "foot");
    // A screen of three rows cuts rows 1 to 4 down to rows 1 and 2.
    let mut t = term(6, 4);
    t.feed(b"\x1b[2;5r");
    t.resize(size(3, 4));
    t.feed(b"\x1b[1;1Htop\x1b[3;1Hlow\n");
    assert_eq!(row_text(&t, 0), "top ");
    assert_eq!(row_text(&t, 1), "low ");
    assert_eq!(t.scrollback_len(), 0);
    // One row of it is no region any more: the whole screen scrolls.
    t.resize(size(2, 4));
    t.feed(b"\x1b[2;1H\n");
    assert_eq!(t.scrollback_len(), 1);
    // A region that is the whole screen stays the whole screen.
    let mut t = term(2, 4);
    t.resize(size(4, 4));
    t.feed(b"\x1b[3;1H\n");
    assert_eq!(t.cursor(), Position { row: 3, col: 0 });
    t.feed(b"\n");
    assert_eq!(t.scrollback_len(), 1);
}

#[test]
fn a_restored_cursor_is_the_saved_one() {
    let mut t = term(4, 8);
    t.feed(b"\x1b[3;5H\x1b[1m\x1b7");
    let saved = (t.cursor(), t.style());
    t.feed(b"\x1b[H\x1b[0mxyz\x1b8");
    assert_eq!((t.cursor(), t.style()), saved);
    t.feed(b"\x1b[2;2H\x1b[s\x1b[H\x1b[u");
    assert_eq!(t.cursor(), Position { row: 1, col: 1 });
}

#[test]
fn glyphs_stay_whole_where_cells_are_not_moved() {
    let mut t = term(2, 6);
    t.feed("\u{3042}\u{3042}\u{3042}".as_bytes());
    // Erasing one half takes the other half with it.
    t.feed(b"\x1b[1;2H\x1b[X");
    assert_eq!(widths(&t, 0), vec![1, 1, 2, 0, 2, 0]);
    // So does writing over it.
    t.feed(b"\x1b[1;5Hx");
    assert_eq!(widths(&t, 0), vec![1, 1, 2, 0, 1, 1]);
    // And cutting it off.
    t.resize(size(2, 3));
    assert_eq!(widths(&t, 0), vec![1, 1, 1]);
}

#[test]
fn inserting_cells_can_split_a_glyph() {
    let mut t = term(1, 5);
    t.feed("\u{3042}".as_bytes());
    t.feed(b"\x1b[1;2H\x1b[@");
    assert_eq!(widths(&t, 0), vec![2, 1, 0, 1, 1]);
}

#[test]
fn a_wide_glyph_that_fits_nowhere_is_dropped() {
    let mut t = term(2, 1);
    t.feed("\u{3042}".as_bytes());
    assert_eq!(widths(&t, 0), vec![1]);
    assert_eq!(widths(&t, 1), vec![1]);
}

#[test]
fn without_autowrap_the_last_column_is_overwritten() {
    let mut t = term(1, 3);
    t.feed(b"\x1b[?7labcdef");
    assert_eq!(row_text(&t, 0), "abf");
    assert_eq!(t.cursor(), Position { row: 0, col: 2 });
}

#[test]
fn erased_cells_take_the_style_of_the_pen() {
    let mut t = term(1, 3);
    t.feed(b"abc\x1b[44m\x1b[1;2H\x1b[K");
    let cell = t.cell(Position { row: 0, col: 1 }).expect("cell");
    assert_eq!(cell.ch, ' ');
    assert_eq!(cell.style.background, Color::Indexed(4));
    assert_eq!(
        t.cell(Position { row: 0, col: 0 }).map(|cell| cell.ch),
        Some('a')
    );
    assert_eq!(Cell::empty().width, 1);
    assert_eq!(Cell::continuation().width, 0);
}

#[test]
fn a_scroll_region_that_is_empty_is_not_taken() {
    let mut t = term(4, 2);
    t.feed(b"\x1b[3;2r\x1b[4;1H\n");
    // The whole screen still scrolls.
    assert_eq!(t.scrollback_len(), 1);
    t.feed(b"\x1b[2;3r\x1b[3;1H\n");
    assert_eq!(t.scrollback_len(), 1);
}

#[test]
fn in_origin_mode_positions_count_from_the_region() {
    let mut t = term(5, 4);
    t.feed(b"\x1b[2;4r\x1b[?6h");
    assert_eq!(t.cursor(), Position { row: 1, col: 0 });
    t.feed(b"\x1b[99;99H");
    assert_eq!(t.cursor(), Position { row: 3, col: 3 });
    t.feed(b"\x1b[9A");
    assert_eq!(t.cursor(), Position { row: 1, col: 3 });
    t.feed(b"\x1b[65535d");
    assert_eq!(t.cursor(), Position { row: 3, col: 3 });
}

#[test]
fn a_tab_stops_at_the_last_column() {
    let mut t = term(1, u16::MAX);
    t.feed(b"\x1b[1;65533H\t");
    assert_eq!(
        t.cursor(),
        Position {
            row: 0,
            col: u16::MAX - 1
        }
    );
}

#[test]
fn an_unchanged_revision_means_an_unchanged_screen() {
    let mut t = term(2, 4);
    t.feed(b"\x1b[?1049h");
    let revision = t.revision();
    let before = t.snapshot();
    t.feed(b"\x07\x1b[\x1b]9;x\x07");
    assert_eq!(t.revision(), revision);
    assert_eq!(t.snapshot(), before);
    // A write to the alternate screen counts as well.
    t.feed(b"a\x08");
    assert_eq!(t.revision(), revision + 1);
    t.feed(b"\x1b[2;2r\x1b[H");
    let revision = t.revision();
    t.resize(size(2, 4));
    assert_eq!(t.revision(), revision);
    t.resize(size(3, 4));
    assert_eq!(t.revision(), revision + 1);
}

#[test]
fn equal_revisions_agree_on_all_but_the_history() {
    let mut t = term(2, 4);
    t.feed(b"a\r\nb\r\nc\x1b[5n");
    let before = t.snapshot();
    // None of these can be seen.
    t.feed(b"");
    t.feed(b"\x07\x1b7\x1b[6n\x1b[?99h");
    t.resize(size(2, 4));
    t.trim_scrollback(0, 0);
    t.drain_actions();
    let after = t.snapshot();
    assert_eq!(after.revision(), before.revision());
    assert_eq!(after.size(), before.size());
    assert_eq!(after.cursor(), before.cursor());
    assert_eq!(after.modes(), before.modes());
    assert_eq!(after.style(), before.style());
    assert_eq!(after.title(), before.title());
    assert_eq!(after.is_on_alternate_screen(), before.is_on_alternate_screen());
    for row in 0..2 {
        assert_eq!(after.row(row), before.row(row));
    }
    // Going there and back again is seen, though the same is shown after it.
    t.feed(b"\x1b[1m");
    t.feed(b"\x1b[22m");
    assert_eq!(t.style(), before.style());
    assert_ne!(t.revision(), before.revision());
}

#[test]
fn trimming_while_growing_is_trimming_at_the_end() {
    let mut stepwise = term(2, 3);
    let mut once = term(2, 3);
    for n in 0..9u8 {
        let line = [b'a' + n, b'\r', b'\n'];
        stepwise.feed(&line);
        stepwise.trim_scrollback(4, 9);
        once.feed(&line);
    }
    assert_eq!(stepwise.scrollback_len(), 3);
    once.trim_scrollback(4, 9);
    assert_eq!(stepwise.snapshot(), once.snapshot());
}

#[test]
fn a_drive_keeps_to_its_budget() {
    let config = DriverConfig {
        drive_byte_budget: 10,
        ..DriverConfig::default()
    };
    let mut driver = SessionDriver::new(config).expect("driver");
    let session = SessionConfig {
        size: size(2, 2),
        scrollback_limits: ScrollbackLimits::disabled(),
    };
    let id = driver.create_session(7, session).expect("session");
    driver.enqueue_raw(id, &[b'x'; 64]).expect("enqueue");
    let source = driver.poll_sources();
    let entry = source.entries()[0];
    assert_eq!(entry.fd, 7);
    assert_eq!(
        entry.interests,
        Interests {
            readable: true,
            writable: true
        }
    );
    let ready = termnix::Readiness {
        writable: true,
        ..Default::default()
    };
    let (mut drive, action) = driver.drive(&[(entry.token, ready)]);
    assert_eq!(action, termnix::DriveAction::Write { id, len: 10 });
    let action = driver.note_write(&mut drive, termnix::WriteOutcome::Wrote(10));
    assert_eq!(action, termnix::DriveAction::Done);
    let result = driver.finish_drive(drive);
    assert!(result.has_pending_work);
    assert_eq!(driver.session(id).expect("session").unsent(), 54);
}

#[test]
fn sizes_are_never_empty() {
    assert_eq!(Size::new(0, 80), None);
    assert_eq!(Size::new(24, 0), None);
    let s = size(24, 80);
    assert_eq!((s.rows(), s.cols()), (24, 80));
}
