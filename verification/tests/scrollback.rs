//! Tests for trimming scrollback.

use std::collections::VecDeque;

use termnix::terminal_scrollback::trim_scrollback;
use termnix::{Cell, ScrollbackLine, Style};

fn line(cells: usize, ch: char) -> ScrollbackLine {
    ScrollbackLine::new(vec![
        Cell {
            ch,
            width: 1,
            style: Style::default()
        };
        cells
    ])
}

fn lines(chars: &[char]) -> VecDeque<ScrollbackLine> {
    chars.iter().map(|ch| line(4, *ch)).collect()
}

fn kept_chars(sb: &VecDeque<ScrollbackLine>) -> Vec<char> {
    sb.iter().map(|l| l.cells()[0].ch).collect()
}

#[test]
fn zero_limit_clears_everything() {
    let mut sb = lines(&['a', 'b', 'c']);
    let mut cells = 12;
    trim_scrollback(&mut sb, &mut cells, 0, 100);
    assert!(sb.is_empty());
    assert_eq!(cells, 0);

    let mut sb = lines(&['a', 'b', 'c']);
    let mut cells = 12;
    trim_scrollback(&mut sb, &mut cells, 100, 0);
    assert!(sb.is_empty());
    assert_eq!(cells, 0);
}

#[test]
fn trims_oldest_lines_first_to_line_bound() {
    let mut sb = lines(&['a', 'b', 'c', 'd']);
    let mut cells = 16;
    trim_scrollback(&mut sb, &mut cells, 2, 100);
    assert_eq!(kept_chars(&sb), vec!['c', 'd']);
    assert_eq!(cells, 8);
}

#[test]
fn trims_to_cell_bound() {
    let mut sb = lines(&['a', 'b', 'c', 'd']);
    let mut cells = 16;
    trim_scrollback(&mut sb, &mut cells, 100, 6);
    assert_eq!(kept_chars(&sb), vec!['d']);
    assert_eq!(cells, 4);
}

#[test]
fn trims_until_both_bounds_hold() {
    let mut sb = lines(&['a', 'b', 'c', 'd']);
    let mut cells = 16;
    trim_scrollback(&mut sb, &mut cells, 3, 8);
    assert_eq!(kept_chars(&sb), vec!['c', 'd']);
    assert_eq!(cells, 8);
}

#[test]
fn oversized_single_line_ends_empty() {
    let mut sb = VecDeque::new();
    sb.push_back(line(100, 'x'));
    let mut cells = 100;
    trim_scrollback(&mut sb, &mut cells, 10, 50);
    assert!(sb.is_empty());
    assert_eq!(cells, 0);
}
