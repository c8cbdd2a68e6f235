//! What holds of the terminal emulator as a whole.

use vstd::prelude::*;

use crate::decimal::{decimal, lemma_decimal_digits, lemma_decimal_len};
use crate::size::Size;
use crate::snapshot::SnapshotContent;
use crate::terminal::TerminalState;
use crate::terminal_buffer::{erase_span, lemma_erase_span_len};
use crate::terminal_model::{
    attributes_report, cursor_report, flat_params, param, pieces, status_report, TerminalModel,
};
use crate::terminal_scrollback::trimmed;
use crate::terminal_types::{Cell, MouseReporting, Position, Style, TerminalModes};
use crate::tokenizer::{
    at_most_one_sequence, shown_columns, tokens_after, unicode_columns, TokenView,
};

verus! {

/// In every state of the emulator both screens fill the screen size, and the
/// cursor and the scroll region lie inside it.
pub proof fn states_are_well_formed(state: &TerminalState)
    requires
        state.wf(),
    ensures
        state@.wf(),
{
    state.lemma_wf();
}

/// Two states that differ in nothing but whether they were written to.
#[verifier::opaque]
spec fn alike(a: TerminalModel, b: TerminalModel) -> bool {
    a.untouched() == b.untouched()
}

proof fn lemma_moves_alike(a: TerminalModel, b: TerminalModel, n: int, k: int)
    requires
        alike(a, b),
    ensures
        alike(a.cursor_up(n), b.cursor_up(n)),
        alike(a.cursor_down(n), b.cursor_down(n)),
        alike(a.cursor_forward(n), b.cursor_forward(n)),
        alike(a.cursor_backward(n), b.cursor_backward(n)),
        alike(a.set_col(n), b.set_col(n)),
        alike(a.set_row(n), b.set_row(n)),
        alike(a.set_position(n, k), b.set_position(n, k)),
        alike(a.carriage_return(), b.carriage_return()),
        alike(a.backspace(), b.backspace()),
        alike(a.horizontal_tab(), b.horizontal_tab()),
        alike(a.save_cursor(), b.save_cursor()),
        alike(a.drop_wrap(), b.drop_wrap()),
        a.cursor == b.cursor,
        a.wrap_pending == b.wrap_pending,
        a.modes == b.modes,
        a.pen == b.pen,
        a.size == b.size,
        a.on_alternate == b.on_alternate,
        a.fed == b.fed,
{
    reveal(alike);
    reveal(TerminalModel::cursor_up);
    reveal(TerminalModel::cursor_down);
    reveal(TerminalModel::cursor_forward);
    reveal(TerminalModel::cursor_backward);
    reveal(TerminalModel::set_col);
    reveal(TerminalModel::set_row);
    reveal(TerminalModel::set_position);
    reveal(TerminalModel::carriage_return);
    reveal(TerminalModel::backspace);
    reveal(TerminalModel::horizontal_tab);
    reveal(TerminalModel::save_cursor);
    assert(b == TerminalModel { touched: b.touched, ..a });
}

proof fn lemma_line_feed_alike(a: TerminalModel, b: TerminalModel)
    requires
        alike(a, b),
    ensures
        alike(a.line_feed(), b.line_feed()),
        alike(a.reverse_index(), b.reverse_index()),
{
    reveal(alike);
    reveal(TerminalModel::line_feed);
    reveal(TerminalModel::reverse_index);
    reveal(TerminalModel::scroll_up);
    reveal(TerminalModel::scroll_down);
}

proof fn lemma_next_line_alike(a: TerminalModel, b: TerminalModel)
    requires
        alike(a, b),
    ensures
        alike(a.carriage_return().line_feed(), b.carriage_return().line_feed()),
{
    lemma_moves_alike(a, b, 0, 0);
    lemma_line_feed_alike(a.carriage_return(), b.carriage_return());
}

proof fn lemma_place_alike(a: TerminalModel, b: TerminalModel, ch: char, width: int)
    requires
        alike(a, b),
    ensures
        alike(a.place(ch, width), b.place(ch, width)),
{
    reveal(alike);
    reveal(TerminalModel::place);
    reveal(TerminalModel::insert_chars);
}

proof fn lemma_finish_wrap_alike(a: TerminalModel, b: TerminalModel)
    requires
        alike(a, b),
    ensures
        alike(a.finish_wrap(), b.finish_wrap()),
{
    reveal(TerminalModel::finish_wrap);
    lemma_moves_alike(a, b, 0, 0);
    lemma_next_line_alike(a, b);
}

proof fn lemma_make_room_alike(a: TerminalModel, b: TerminalModel, width: int)
    requires
        alike(a, b),
    ensures
        alike(a.make_room(width), b.make_room(width)),
{
    reveal(TerminalModel::make_room);
    lemma_moves_alike(a, b, 0, 0);
    lemma_next_line_alike(a, b);
    assert(alike(
        a.move_to(a.cursor.row as int, a.cols() - 1),
        b.move_to(b.cursor.row as int, b.cols() - 1),
    )) by {
        reveal(alike);
    }
}

proof fn lemma_print_alike(a: TerminalModel, b: TerminalModel, ch: char, width: Option<usize>)
    requires
        alike(a, b),
    ensures
        alike(a.print(ch, width), b.print(ch, width)),
{
    reveal(TerminalModel::print);
    match width {
        Some(n) => {
            lemma_finish_wrap_alike(a, b);
            lemma_make_room_alike(a.finish_wrap(), b.finish_wrap(), n as int);
            let a1 = a.finish_wrap().make_room(n as int);
            let b1 = b.finish_wrap().make_room(n as int);
            lemma_moves_alike(a1, b1, 0, 0);
            lemma_place_alike(a1, b1, ch, n as int);
        },
        None => {},
    }
}

#[verifier::spinoff_prover]
#[verifier::rlimit(30)]
proof fn lemma_repair_alike(a: TerminalModel, b: TerminalModel)
    requires
        alike(a, b),
    ensures
        alike(a.repair_cursor(), b.repair_cursor()),
{
    reveal(alike);
    reveal(TerminalModel::repair_cursor);
}

proof fn lemma_restore_alike(a: TerminalModel, b: TerminalModel)
    requires
        alike(a, b),
    ensures
        alike(a.restore_cursor(), b.restore_cursor()),
{
    assert(alike(a.recall(), b.recall())) by {
        reveal(alike);
        reveal(TerminalModel::recall);
        assert(b == TerminalModel { touched: b.touched, ..a });
        assert(b.recall().cursor == a.recall().cursor);
    }
    lemma_repair_alike(a.recall(), b.recall());
}

proof fn lemma_alternate_alike(a: TerminalModel, b: TerminalModel, enable: bool, clear: bool)
    requires
        alike(a, b),
    ensures
        alike(a.set_alternate(enable, clear), b.set_alternate(enable, clear)),
{
    reveal(TerminalModel::set_alternate);
    assert(alike(a.show_alternate(false), b.show_alternate(false))) by {
        reveal(alike);
    }
    lemma_restore_alike(a.show_alternate(false), b.show_alternate(false));
    assert(a.on_alternate == b.on_alternate) by {
        reveal(alike);
    }
    if enable {
        reveal(alike);
        reveal(TerminalModel::clear_alternate);
        reveal(TerminalModel::save_cursor);
    }
}

proof fn lemma_with_modes_alike(
    a: TerminalModel,
    b: TerminalModel,
    modes: TerminalModes,
    style: MouseReporting,
    enable: bool,
)
    requires
        alike(a, b),
    ensures
        alike(a.with_modes(modes), b.with_modes(modes)),
        alike(a.set_mouse(style, enable), b.set_mouse(style, enable)),
        a.modes == b.modes,
{
    reveal(alike);
    reveal(TerminalModel::set_mouse);
    reveal(TerminalModel::with_modes);
}

proof fn lemma_one_mode_alike(
    a: TerminalModel,
    b: TerminalModel,
    mode: u16,
    private: bool,
    enable: bool,
)
    requires
        alike(a, b),
    ensures
        alike(a.set_one_mode(mode, private, enable), b.set_one_mode(mode, private, enable)),
{
    reveal(TerminalModel::set_private_mode);
    let off = MouseReporting::Off;
    let modes = a.modes;
    lemma_with_modes_alike(a, b, modes, off, enable);
    if !private {
        lemma_with_modes_alike(a, b, TerminalModes { insert: enable, ..modes }, off, enable);
    } else if mode == 1 {
        let modes = TerminalModes { application_cursor: enable, ..modes };
        lemma_with_modes_alike(a, b, modes, off, enable);
    } else if mode == 6 {
        let modes = TerminalModes { origin: enable, ..modes };
        lemma_with_modes_alike(a, b, modes, off, enable);
        lemma_moves_alike(a.with_modes(modes), b.with_modes(modes), 1, 1);
    } else if mode == 7 {
        lemma_with_modes_alike(a, b, TerminalModes { autowrap: enable, ..modes }, off, enable);
    } else if mode == 9 {
        lemma_with_modes_alike(a, b, modes, MouseReporting::X10, enable);
    } else if mode == 25 {
        let modes = TerminalModes { cursor_visible: enable, ..modes };
        lemma_with_modes_alike(a, b, modes, off, enable);
    } else if mode == 47 || mode == 1047 {
        lemma_alternate_alike(a, b, enable, false);
    } else if mode == 66 {
        let modes = TerminalModes { application_keypad: enable, ..modes };
        lemma_with_modes_alike(a, b, modes, off, enable);
    } else if mode == 1000 {
        lemma_with_modes_alike(a, b, modes, MouseReporting::Normal, enable);
    } else if mode == 1002 {
        lemma_with_modes_alike(a, b, modes, MouseReporting::ButtonEvent, enable);
    } else if mode == 1003 {
        lemma_with_modes_alike(a, b, modes, MouseReporting::AnyEvent, enable);
    } else if mode == 1006 {
        lemma_with_modes_alike(a, b, TerminalModes { mouse_sgr: enable, ..modes }, off, enable);
    } else if mode == 1049 {
        lemma_alternate_alike(a, b, enable, true);
    } else if mode == 2004 {
        let modes = TerminalModes { bracketed_paste: enable, ..modes };
        lemma_with_modes_alike(a, b, modes, off, enable);
    }
}

proof fn lemma_modes_alike(
    a: TerminalModel,
    b: TerminalModel,
    modes: Seq<u16>,
    private: bool,
    enable: bool,
)
    requires
        alike(a, b),
    ensures
        alike(a.set_modes(modes, private, enable), b.set_modes(modes, private, enable)),
    decreases modes.len(),
{
    if modes.len() > 0 {
        lemma_modes_alike(a, b, modes.drop_last(), private, enable);
        lemma_one_mode_alike(
            a.set_modes(modes.drop_last(), private, enable),
            b.set_modes(modes.drop_last(), private, enable),
            modes.last(),
            private,
            enable,
        );
    }
}

proof fn lemma_erase_alike(a: TerminalModel, b: TerminalModel, start: int, end: int)
    requires
        alike(a, b),
    ensures
        alike(a.erase_here(start, end), b.erase_here(start, end)),
        alike(a.erase_rows(start, end), b.erase_rows(start, end)),
        alike(a.forget(), b.forget()),
{
    reveal(alike);
    reveal(TerminalModel::erase_here);
    reveal(TerminalModel::erase_rows);
}

proof fn lemma_erasures_alike(a: TerminalModel, b: TerminalModel, mode: u16)
    requires
        alike(a, b),
    ensures
        alike(a.erase_display(mode), b.erase_display(mode)),
        alike(a.erase_line(mode), b.erase_line(mode)),
{
    reveal(TerminalModel::erase_display);
    reveal(TerminalModel::erase_line);
    let row = a.cursor.row as int;
    let col = a.cursor.col as int;
    lemma_moves_alike(a, b, 0, 0);
    lemma_erase_alike(a, b, col, a.cols());
    lemma_erase_alike(a, b, 0, col + 1);
    lemma_erase_alike(a, b, 0, a.cols());
    lemma_erase_alike(a, b, 0, a.rows());
    lemma_erase_alike(a, b, 0, row);
    lemma_erase_alike(
        a.erase_here(col, a.cols()),
        b.erase_here(col, a.cols()),
        row + 1,
        a.rows(),
    );
    lemma_erase_alike(a.erase_rows(0, row), b.erase_rows(0, row), 0, col + 1);
}

proof fn lemma_edit_alike(a: TerminalModel, b: TerminalModel, n: int)
    requires
        alike(a, b),
    ensures
        alike(a.insert_lines(n), b.insert_lines(n)),
        alike(a.delete_lines(n), b.delete_lines(n)),
        alike(a.insert_chars(n), b.insert_chars(n)),
        alike(a.delete_chars(n), b.delete_chars(n)),
        alike(a.scroll_up(n), b.scroll_up(n)),
        alike(a.scroll_down(n), b.scroll_down(n)),
{
    reveal(alike);
    reveal(TerminalModel::insert_lines);
    reveal(TerminalModel::delete_lines);
    reveal(TerminalModel::insert_chars);
    reveal(TerminalModel::delete_chars);
    reveal(TerminalModel::scroll_up);
    reveal(TerminalModel::scroll_down);
}

proof fn lemma_reports_alike(a: TerminalModel, b: TerminalModel, request: u16)
    requires
        alike(a, b),
    ensures
        alike(a.report_status(request), b.report_status(request)),
        alike(a.reply(attributes_report()), b.reply(attributes_report())),
{
    reveal(alike);
    reveal(TerminalModel::report_status);
}

proof fn lemma_rendition_alike(a: TerminalModel, b: TerminalModel, params: Seq<Seq<u16>>)
    requires
        alike(a, b),
    ensures
        alike(a.set_rendition(params), b.set_rendition(params)),
{
    reveal(alike);
    reveal(TerminalModel::set_rendition);
}

#[verifier::spinoff_prover]
#[verifier::rlimit(30)]
proof fn lemma_region_alike(a: TerminalModel, b: TerminalModel, params: Seq<Seq<u16>>)
    requires
        alike(a, b),
    ensures
        alike(a.set_scroll_region(params), b.set_scroll_region(params)),
{
    reveal(alike);
    reveal(TerminalModel::set_scroll_region);
    assert(b == TerminalModel { touched: b.touched, ..a });
}

proof fn lemma_csi_alike(
    a: TerminalModel,
    b: TerminalModel,
    params: Seq<Seq<u16>>,
    intermediates: Seq<u8>,
    action: char,
)
    requires
        alike(a, b),
    ensures
        alike(a.csi(params, intermediates, action), b.csi(params, intermediates, action)),
{
    reveal(TerminalModel::csi);
    let private = intermediates.len() > 0 && intermediates[0] == 0x3f;
    let n = param(params, 0, 1) as int;
    let mode = param(params, 0, 0);
    lemma_moves_alike(a, b, n, param(params, 1, 1) as int);
    lemma_moves_alike(a.cursor_up(n), b.cursor_up(n), 0, 0);
    lemma_moves_alike(a.cursor_down(n), b.cursor_down(n), 0, 0);
    lemma_erasures_alike(a, b, mode);
    lemma_erase_alike(a, b, a.cursor.col as int, a.cursor.col + n);
    lemma_edit_alike(a, b, n);
    lemma_reports_alike(a, b, mode);
    lemma_rendition_alike(a, b, params);
    lemma_region_alike(a, b, params);
    lemma_modes_alike(a, b, flat_params(params), private, true);
    lemma_modes_alike(a, b, flat_params(params), private, false);
    lemma_restore_alike(a, b);
}

proof fn lemma_perform_alike(a: TerminalModel, b: TerminalModel, token: TokenView)
    requires
        alike(a, b),
    ensures
        alike(a.perform(token), b.perform(token)),
{
    match token {
        TokenView::Print(ch) => {
            lemma_print_alike(a, b, ch, shown_columns(unicode_columns(ch)));
        },
        TokenView::Execute(byte) => {
            reveal(TerminalModel::execute);
            lemma_moves_alike(a, b, 0, 0);
            lemma_line_feed_alike(a, b);
        },
        TokenView::Osc(params) => {
            reveal(TerminalModel::command);
            reveal(alike);
        },
        TokenView::Csi { params, intermediates, ignore, action } => {
            lemma_csi_alike(a, b, params, intermediates, action);
        },
        TokenView::Esc { intermediates, ignore, byte } => {
            reveal(TerminalModel::escape);
            lemma_moves_alike(a, b, 0, 0);
            lemma_line_feed_alike(a, b);
            lemma_next_line_alike(a, b);
            lemma_restore_alike(a, b);
            assert(alike(a.reset(), b.reset())) by {
                reveal(alike);
                reveal(TerminalModel::reset);
            }
        },
    }
}

proof fn lemma_perform_all_alike(a: TerminalModel, b: TerminalModel, tokens: Seq<TokenView>)
    requires
        alike(a, b),
    ensures
        alike(a.perform_all(tokens), b.perform_all(tokens)),
    decreases tokens.len(),
{
    if tokens.len() > 0 {
        lemma_perform_all_alike(a, b, tokens.drop_last());
        lemma_perform_alike(
            a.perform_all(tokens.drop_last()),
            b.perform_all(tokens.drop_last()),
            tokens.last(),
        );
    }
}

proof fn lemma_read_all_alike(a: TerminalModel, b: TerminalModel, bytes: Seq<u8>)
    requires
        alike(a, b),
    ensures
        alike(a.read_all(bytes), b.read_all(bytes)),
    decreases bytes.len(),
{
    if bytes.len() > 0 {
        lemma_read_all_alike(a, b, bytes.drop_last());
        let a1 = a.read_all(bytes.drop_last());
        let b1 = b.read_all(bytes.drop_last());
        let a2 = TerminalModel { fed: a1.fed.push(bytes.last()), ..a1 };
        let b2 = TerminalModel { fed: b1.fed.push(bytes.last()), ..b1 };
        lemma_moves_alike(a1, b1, 0, 0);
        assert(alike(a2, b2)) by {
            reveal(alike);
        }
        lemma_perform_all_alike(a2, b2, tokens_after(a1.fed, bytes.last()));
    }
}

proof fn lemma_read_all_concat(m: TerminalModel, a: Seq<u8>, b: Seq<u8>)
    ensures
        m.read_all(a + b) == m.read_all(a).read_all(b),
    decreases b.len(),
{
    if b.len() == 0 {
        assert(a + b =~= a);
    } else {
        lemma_read_all_concat(m, a, b.drop_last());
        assert((a + b).drop_last() =~= a + b.drop_last());
    }
}

/// It makes no difference where a stream is cut: feeding `a` and then `b`
/// leaves the emulator in the same state as feeding them in one piece.
pub proof fn feeding_in_pieces(m: TerminalModel, a: Seq<u8>, b: Seq<u8>)
    ensures
        m.feed(a).feed(b) == m.feed(a + b),
{
    lemma_read_all_concat(m.untouched(), a, b);
    let whole = m.untouched().read_all(a);
    reveal(alike);
    lemma_read_all_alike(whole.untouched().untouched(), whole, b);
}

/// From `a` to `b` the emulator drew, scrolled or moved the cursor, if
/// anything: what left the top of the primary screen is at the end of the
/// history, and a screen that is not active was not drawn on.
#[verifier::opaque]
spec fn calm(a: TerminalModel, b: TerminalModel) -> bool {
    &&& b.size == a.size
    &&& b.fed == a.fed
    &&& b.replies == a.replies
    &&& b.title == a.title
    &&& b.saved == a.saved
    &&& b.on_alternate == a.on_alternate
    &&& a.scrollback.is_prefix_of(b.scrollback)
    &&& a.on_alternate ==> b.scrollback == a.scrollback && b.primary == a.primary
    &&& !a.on_alternate ==> b.alternate == a.alternate
    &&& a.touched ==> b.touched
    &&& !b.touched ==> b.primary == a.primary && b.alternate == a.alternate
}

proof fn lemma_calm_trans(a: TerminalModel, b: TerminalModel, c: TerminalModel)
    requires
        calm(a, b),
        calm(b, c),
    ensures
        calm(a, c),
{
    reveal(calm);
    assert(a.scrollback.is_prefix_of(c.scrollback)) by {
        assert(a.scrollback =~= c.scrollback.subrange(0, a.scrollback.len() as int));
    }
}

proof fn lemma_calm_refl(a: TerminalModel)
    ensures
        calm(a, a),
{
    reveal(calm);
}

proof fn lemma_calm_moves(a: TerminalModel, n: int, k: int)
    ensures
        calm(a, a.move_to(n, k)),
        calm(a, a.drop_wrap()),
        calm(a, a.cursor_up(n)),
        calm(a, a.cursor_down(n)),
        calm(a, a.cursor_forward(n)),
        calm(a, a.cursor_backward(n)),
        calm(a, a.set_col(n)),
        calm(a, a.set_row(n)),
        calm(a, a.set_position(n, k)),
        calm(a, a.carriage_return()),
        calm(a, a.backspace()),
        calm(a, a.horizontal_tab()),
{
    reveal(calm);
    reveal(TerminalModel::cursor_up);
    reveal(TerminalModel::cursor_down);
    reveal(TerminalModel::cursor_forward);
    reveal(TerminalModel::cursor_backward);
    reveal(TerminalModel::set_col);
    reveal(TerminalModel::set_row);
    reveal(TerminalModel::set_position);
    reveal(TerminalModel::carriage_return);
    reveal(TerminalModel::backspace);
    reveal(TerminalModel::horizontal_tab);
}

proof fn lemma_calm_settings(a: TerminalModel, params: Seq<Seq<u16>>)
    ensures
        calm(a, a.set_rendition(params)),
        calm(a, a.set_scroll_region(params)),
        calm(a, a.restore_cursor()),
{
    reveal(calm);
    reveal(TerminalModel::set_rendition);
    reveal(TerminalModel::recall);
    reveal(TerminalModel::repair_cursor);
    assert(calm(a, a.set_scroll_region(params))) by {
        reveal(TerminalModel::set_scroll_region);
    }
}

proof fn lemma_calm_scroll(a: TerminalModel, n: int)
    ensures
        calm(a, a.scroll_up(n)),
        calm(a, a.scroll_down(n)),
{
    reveal(calm);
    reveal(TerminalModel::scroll_up);
    reveal(TerminalModel::scroll_down);
    let gone = a.primary.subrange(0, crate::terminal_model::least(n, a.rows()));
    assert((a.scrollback + gone).subrange(0, a.scrollback.len() as int) =~= a.scrollback);
}

proof fn lemma_calm_lines(a: TerminalModel)
    ensures
        calm(a, a.line_feed()),
        calm(a, a.reverse_index()),
        calm(a, a.carriage_return().line_feed()),
{
    reveal(TerminalModel::line_feed);
    reveal(TerminalModel::reverse_index);
    let b = a.carriage_return();
    lemma_calm_moves(a, 0, 0);
    lemma_calm_scroll(a.drop_wrap(), 1);
    lemma_calm_trans(a, a.drop_wrap(), a.drop_wrap().scroll_up(1));
    lemma_calm_trans(a, a.drop_wrap(), a.drop_wrap().scroll_down(1));
    lemma_calm_moves(
        a,
        crate::terminal_model::least(a.cursor.row + 1, a.rows() - 1),
        a.cursor.col as int,
    );
    lemma_calm_moves(
        a,
        crate::terminal_model::greatest(a.cursor.row - 1, 0),
        a.cursor.col as int,
    );
    lemma_calm_moves(b, 0, 0);
    lemma_calm_scroll(b.drop_wrap(), 1);
    lemma_calm_trans(b, b.drop_wrap(), b.drop_wrap().scroll_up(1));
    lemma_calm_moves(
        b,
        crate::terminal_model::least(b.cursor.row + 1, b.rows() - 1),
        b.cursor.col as int,
    );
    lemma_calm_trans(a, b, b.line_feed());
}

proof fn lemma_calm_edits(a: TerminalModel, n: int, k: int)
    ensures
        calm(a, a.erase_here(n, k)),
        calm(a, a.erase_rows(n, k)),
        calm(a, a.insert_lines(n)),
        calm(a, a.delete_lines(n)),
        calm(a, a.insert_chars(n)),
        calm(a, a.delete_chars(n)),
{
    reveal(calm);
    reveal(TerminalModel::erase_here);
    reveal(TerminalModel::erase_rows);
    reveal(TerminalModel::insert_lines);
    reveal(TerminalModel::delete_lines);
    reveal(TerminalModel::insert_chars);
    reveal(TerminalModel::delete_chars);
}

proof fn lemma_calm_erasures(a: TerminalModel, mode: u16)
    ensures
        calm(a, a.erase_line(mode)),
        mode == 3 ==> a.erase_display(mode) == a.forget(),
        mode != 3 ==> calm(a, a.erase_display(mode)),
{
    reveal(TerminalModel::erase_line);
    reveal(TerminalModel::erase_display);
    let row = a.cursor.row as int;
    let col = a.cursor.col as int;
    lemma_calm_refl(a);
    lemma_calm_edits(a, col, a.cols());
    lemma_calm_edits(a, 0, col + 1);
    lemma_calm_edits(a, 0, a.cols());
    lemma_calm_edits(a, 0, a.rows());
    lemma_calm_edits(a, 0, row);
    let b = a.erase_here(col, a.cols());
    lemma_calm_edits(b, row + 1, a.rows());
    lemma_calm_trans(a, b, b.erase_rows(row + 1, a.rows()));
    let c = a.erase_rows(0, row);
    lemma_calm_edits(c, 0, col + 1);
    lemma_calm_trans(a, c, c.erase_here(0, col + 1));
}

proof fn lemma_calm_place(a: TerminalModel, ch: char, width: int)
    ensures
        calm(a, a.place(ch, width)),
{
    reveal(calm);
    reveal(TerminalModel::place);
    reveal(TerminalModel::insert_chars);
}

proof fn lemma_calm_print(a: TerminalModel, ch: char, width: Option<usize>)
    ensures
        calm(a, a.print(ch, width)),
{
    reveal(TerminalModel::print);
    reveal(TerminalModel::finish_wrap);
    reveal(TerminalModel::make_room);
    lemma_calm_refl(a);
    match width {
        Some(n) => {
            let b = a.finish_wrap();
            lemma_calm_lines(a);
            lemma_calm_moves(a, 0, 0);
            let c = b.make_room(n as int);
            lemma_calm_refl(b);
            lemma_calm_lines(b);
            lemma_calm_moves(b, b.cursor.row as int, b.cols() - 1);
            lemma_calm_trans(a, b, c);
            lemma_calm_place(c, ch, n as int);
            lemma_calm_trans(a, c, c.place(ch, n as int));
        },
        None => {},
    }
}

/// From `a` to `b` modes changed, if anything: the history and the primary
/// screen did not.
#[verifier::opaque]
spec fn switched(a: TerminalModel, b: TerminalModel) -> bool {
    &&& b.size == a.size
    &&& b.fed == a.fed
    &&& b.replies == a.replies
    &&& b.title == a.title
    &&& b.scrollback == a.scrollback
    &&& b.primary == a.primary
    &&& a.touched ==> b.touched
    &&& !b.touched ==> b.alternate == a.alternate
}

proof fn lemma_switched_alternate(a: TerminalModel, enable: bool, clear: bool)
    ensures
        switched(a, a.set_alternate(enable, clear)),
{
    reveal(switched);
    reveal(TerminalModel::set_alternate);
    reveal(TerminalModel::save_cursor);
    reveal(TerminalModel::clear_alternate);
    reveal(TerminalModel::recall);
    reveal(TerminalModel::repair_cursor);
}

proof fn lemma_switched_modes(
    a: TerminalModel,
    modes: TerminalModes,
    style: MouseReporting,
    enable: bool,
)
    ensures
        switched(a, a),
        switched(a, a.with_modes(modes)),
        switched(a, a.set_mouse(style, enable)),
        switched(a, a.with_modes(modes).set_position(1, 1)),
{
    reveal(switched);
    reveal(TerminalModel::with_modes);
    reveal(TerminalModel::set_mouse);
    reveal(TerminalModel::set_position);
}

proof fn lemma_switched_one(a: TerminalModel, mode: u16, private: bool, enable: bool)
    ensures
        switched(a, a.set_one_mode(mode, private, enable)),
{
    reveal(TerminalModel::set_private_mode);
    let off = MouseReporting::Off;
    let modes = a.modes;
    lemma_switched_modes(a, modes, off, enable);
    if !private {
        lemma_switched_modes(a, TerminalModes { insert: enable, ..modes }, off, enable);
    } else if mode == 1 {
        lemma_switched_modes(a, TerminalModes { application_cursor: enable, ..modes }, off, enable);
    } else if mode == 6 {
        lemma_switched_modes(a, TerminalModes { origin: enable, ..modes }, off, enable);
    } else if mode == 7 {
        lemma_switched_modes(a, TerminalModes { autowrap: enable, ..modes }, off, enable);
    } else if mode == 9 {
        lemma_switched_modes(a, modes, MouseReporting::X10, enable);
    } else if mode == 25 {
        lemma_switched_modes(a, TerminalModes { cursor_visible: enable, ..modes }, off, enable);
    } else if mode == 47 || mode == 1047 {
        lemma_switched_alternate(a, enable, false);
    } else if mode == 66 {
        lemma_switched_modes(a, TerminalModes { application_keypad: enable, ..modes }, off, enable);
    } else if mode == 1000 {
        lemma_switched_modes(a, modes, MouseReporting::Normal, enable);
    } else if mode == 1002 {
        lemma_switched_modes(a, modes, MouseReporting::ButtonEvent, enable);
    } else if mode == 1003 {
        lemma_switched_modes(a, modes, MouseReporting::AnyEvent, enable);
    } else if mode == 1006 {
        lemma_switched_modes(a, TerminalModes { mouse_sgr: enable, ..modes }, off, enable);
    } else if mode == 1049 {
        lemma_switched_alternate(a, enable, true);
    } else if mode == 2004 {
        lemma_switched_modes(a, TerminalModes { bracketed_paste: enable, ..modes }, off, enable);
    }
}

proof fn lemma_switched_all(a: TerminalModel, modes: Seq<u16>, private: bool, enable: bool)
    ensures
        switched(a, a.set_modes(modes, private, enable)),
    decreases modes.len(),
{
    if modes.len() == 0 {
        reveal(switched);
    } else {
        let b = a.set_modes(modes.drop_last(), private, enable);
        lemma_switched_all(a, modes.drop_last(), private, enable);
        lemma_switched_one(b, modes.last(), private, enable);
        reveal(switched);
    }
}

/// Whether a token asks for a hard reset.
pub open spec fn is_reset(token: TokenView) -> bool {
    token matches TokenView::Esc { intermediates, ignore, byte } && intermediates.len() == 0
        && !ignore && byte == 0x63
}

/// Whether bytes are one of the replies that an emulator gives.
pub open spec fn is_report(bytes: Seq<u8>) -> bool {
    ||| bytes == status_report()
    ||| bytes == attributes_report()
    ||| exists|at: Position| bytes == #[trigger] cursor_report(at)
}

/// What one token can bring about.
#[verifier::opaque]
spec fn effects(a: TerminalModel, b: TerminalModel, reset: bool, csi: bool) -> bool {
    &&& b.size == a.size
    &&& b.fed == a.fed
    &&& a.replies.is_prefix_of(b.replies)
    &&& b.replies.len() <= a.replies.len() + 14
    &&& b.replies == a.replies || is_report(b.replies.skip(a.replies.len() as int))
    &&& !csi ==> b.replies == a.replies
    &&& b.scrollback.len() == 0 || a.scrollback.is_prefix_of(b.scrollback)
    &&& a.on_alternate ==> b.scrollback.len() == 0 || b.scrollback == a.scrollback
    &&& a.on_alternate && !reset ==> b.primary == a.primary
    &&& a.touched ==> b.touched
    &&& !b.touched ==> b.primary == a.primary && b.alternate == a.alternate && b.title == a.title
}

proof fn lemma_calm_effects(a: TerminalModel, b: TerminalModel, reset: bool, csi: bool)
    requires
        calm(a, b) || switched(a, b),
    ensures
        effects(a, b, reset, csi),
{
    reveal(effects);
    reveal(calm);
    reveal(switched);
    assert(a.replies.subrange(0, a.replies.len() as int) =~= a.replies);
    assert(a.scrollback.subrange(0, a.scrollback.len() as int) =~= a.scrollback);
}

proof fn lemma_report_effects(a: TerminalModel, request: u16)
    ensures
        effects(a, a.report_status(request), false, true),
        effects(a, a.reply(attributes_report()), false, true),
{
    reveal(TerminalModel::report_status);
    reveal(effects);
    lemma_decimal_len((a.cursor.row + 1) as nat);
    lemma_decimal_len((a.cursor.col + 1) as nat);
    assert(a.replies.subrange(0, a.replies.len() as int) =~= a.replies);
    assert(a.scrollback.subrange(0, a.scrollback.len() as int) =~= a.scrollback);
    assert((a.replies + status_report()).subrange(0, a.replies.len() as int) =~= a.replies);
    assert((a.replies + attributes_report()).subrange(0, a.replies.len() as int) =~= a.replies);
    assert((a.replies + cursor_report(a.cursor)).subrange(0, a.replies.len() as int)
        =~= a.replies);
    let n = a.replies.len() as int;
    assert((a.replies + status_report()).skip(n) =~= status_report());
    assert((a.replies + attributes_report()).skip(n) =~= attributes_report());
    assert((a.replies + cursor_report(a.cursor)).skip(n) =~= cursor_report(a.cursor));
}

proof fn lemma_save_effects(a: TerminalModel, csi: bool)
    ensures
        effects(a, a.save_cursor(), false, csi),
{
    reveal(TerminalModel::save_cursor);
    reveal(effects);
    assert(a.replies.subrange(0, a.replies.len() as int) =~= a.replies);
    assert(a.scrollback.subrange(0, a.scrollback.len() as int) =~= a.scrollback);
}

proof fn lemma_csi_effects(
    a: TerminalModel,
    params: Seq<Seq<u16>>,
    intermediates: Seq<u8>,
    action: char,
)
    ensures
        effects(a, a.csi(params, intermediates, action), false, true),
{
    reveal(TerminalModel::csi);
    let private = intermediates.len() > 0 && intermediates[0] == 0x3f;
    let n = param(params, 0, 1) as int;
    let mode = param(params, 0, 0);
    let b = a.csi(params, intermediates, action);
    lemma_calm_refl(a);
    if action == 'n' || action == 'c' {
        lemma_report_effects(a, mode);
        lemma_calm_effects(a, a, false, true);
    } else if action == 'h' || action == 'l' {
        lemma_switched_all(a, flat_params(params), private, action == 'h');
        lemma_calm_effects(a, b, false, true);
    } else if action == 'J' && mode == 3 {
        lemma_calm_erasures(a, mode);
        reveal(effects);
        assert(a.replies.subrange(0, a.replies.len() as int) =~= a.replies);
    } else if action == 's' {
        lemma_save_effects(a, true);
        lemma_calm_effects(a, a, false, true);
    } else {
        lemma_calm_moves(a, n, param(params, 1, 1) as int);
        lemma_calm_moves(a.cursor_up(n), 0, 0);
        lemma_calm_moves(a.cursor_down(n), 0, 0);
        lemma_calm_trans(a, a.cursor_up(n), a.cursor_up(n).carriage_return());
        lemma_calm_trans(a, a.cursor_down(n), a.cursor_down(n).carriage_return());
        lemma_calm_erasures(a, mode);
        lemma_calm_edits(a, n, 0);
        lemma_calm_edits(a, a.cursor.col as int, a.cursor.col + n);
        lemma_calm_scroll(a, n);
        lemma_calm_settings(a, params);
        lemma_calm_effects(a, b, false, true);
    }
}

proof fn lemma_effects(a: TerminalModel, token: TokenView)
    ensures
        effects(a, a.perform(token), is_reset(token), token is Csi),
{
    let b = a.perform(token);
    lemma_calm_refl(a);
    match token {
        TokenView::Print(ch) => {
            lemma_calm_print(a, ch, shown_columns(unicode_columns(ch)));
            lemma_calm_effects(a, b, false, false);
        },
        TokenView::Execute(byte) => {
            reveal(TerminalModel::execute);
            lemma_calm_moves(a, 0, 0);
            lemma_calm_lines(a);
            lemma_calm_effects(a, b, false, false);
        },
        TokenView::Osc(params) => {
            reveal(TerminalModel::command);
            reveal(effects);
            assert(a.replies.subrange(0, a.replies.len() as int) =~= a.replies);
            assert(a.scrollback.subrange(0, a.scrollback.len() as int) =~= a.scrollback);
        },
        TokenView::Csi { params, intermediates, ignore, action } => {
            if ignore {
                lemma_calm_effects(a, a, false, true);
            } else {
                lemma_csi_effects(a, params, intermediates, action);
            }
        },
        TokenView::Esc { intermediates, ignore, byte } => {
            reveal(TerminalModel::escape);
            if is_reset(token) {
                reveal(TerminalModel::reset);
                reveal(effects);
                assert(a.replies.subrange(0, a.replies.len() as int) =~= a.replies);
            } else if byte == 0x37 {
                lemma_save_effects(a, false);
                lemma_calm_effects(a, a, false, false);
            } else {
                lemma_calm_moves(a, 0, 0);
                lemma_calm_lines(a);
                lemma_calm_settings(a, Seq::empty());
                lemma_calm_effects(a, b, false, false);
            }
        },
    }
}

proof fn lemma_effects_of_all(a: TerminalModel, tokens: Seq<TokenView>)
    ensures
        ({
            let b = a.perform_all(tokens);
            &&& b.size == a.size
            &&& b.fed == a.fed
            &&& a.touched ==> b.touched
            &&& !b.touched ==> b.primary == a.primary && b.alternate == a.alternate && b.title
                == a.title
        }),
    decreases tokens.len(),
{
    if tokens.len() > 0 {
        lemma_effects_of_all(a, tokens.drop_last());
        lemma_effects(a.perform_all(tokens.drop_last()), tokens.last());
        reveal(effects);
    }
}

proof fn lemma_effects_of_reading(a: TerminalModel, bytes: Seq<u8>)
    ensures
        ({
            let b = a.read_all(bytes);
            &&& b.size == a.size
            &&& b.fed == a.fed + bytes
            &&& a.touched ==> b.touched
            &&& !b.touched ==> b.primary == a.primary && b.alternate == a.alternate && b.title
                == a.title
        }),
    decreases bytes.len(),
{
    if bytes.len() == 0 {
        assert(a.fed + bytes =~= a.fed);
    } else {
        lemma_effects_of_reading(a, bytes.drop_last());
        let b = a.read_all(bytes.drop_last());
        let c = TerminalModel { fed: b.fed.push(bytes.last()), ..b };
        lemma_effects_of_all(c, tokens_after(b.fed, bytes.last()));
        assert(a.fed + bytes =~= (a.fed + bytes.drop_last()).push(bytes.last()));
    }
}

/// An unchanged revision means that the visible state is unchanged: where a
/// feed does not count as a visible change, the active screen, the title, the
/// cursor, the drawing style, the modes and the size are what they were.
pub proof fn quiet_feeds_show_nothing(m: TerminalModel, bytes: Seq<u8>)
    requires
        !m.feed_shows(bytes),
    ensures
        m.feed(bytes).looks_like(m),
{
    lemma_effects_of_reading(m.untouched(), bytes);
}

/// Output never changes the screen size, and all of it goes through the
/// tokenizer.
pub proof fn feeding_keeps_the_size(m: TerminalModel, bytes: Seq<u8>)
    ensures
        m.feed(bytes).size == m.size,
        m.feed(bytes).fed == m.fed + bytes,
{
    lemma_effects_of_reading(m.untouched(), bytes);
}

/// A token leaves the replies that are pending in front, and adds at most one
/// reply of at most 14 bytes. Only a control sequence is replied to.
pub proof fn replies_are_short(m: TerminalModel, token: TokenView)
    ensures
        m.replies.is_prefix_of(m.perform(token).replies),
        m.perform(token).replies.len() <= m.replies.len() + 14,
        !(token is Csi) ==> m.perform(token).replies == m.replies,
{
    lemma_effects(m, token);
    reveal(effects);
}

/// A reply begins with an escape and has no other one in it.
proof fn lemma_reports_are_pieces(report: Seq<u8>)
    requires
        is_report(report),
    ensures
        report.len() > 0,
        report[0] == 0x1b,
        forall|i: int| 0 < i < report.len() ==> #[trigger] report[i] != 0x1b,
{
    if report != status_report() && report != attributes_report() {
        let at = choose|at: Position| report == #[trigger] cursor_report(at);
        let row = decimal((at.row + 1) as nat);
        let col = decimal((at.col + 1) as nat);
        lemma_decimal_digits((at.row + 1) as nat);
        lemma_decimal_digits((at.col + 1) as nat);
        assert forall|i: int| 0 < i < report.len() implies #[trigger] report[i] != 0x1b by {
            if 2 <= i < 2 + row.len() {
                assert(report[i] == row[i - 2]);
            } else if 3 + row.len() <= i < 3 + row.len() + col.len() {
                assert(report[i] == col[i - 3 - row.len()]);
            }
        }
    }
}

proof fn lemma_one_more_piece(bytes: Seq<u8>, report: Seq<u8>)
    requires
        report.len() > 0,
        report[0] == 0x1b,
        forall|i: int| 0 < i < report.len() ==> #[trigger] report[i] != 0x1b,
    ensures
        pieces(bytes + report) == pieces(bytes).push(report),
    decreases report.len(),
{
    let all = bytes + report;
    let front = report.drop_last();
    assert(all.drop_last() =~= bytes + front);
    assert(all.last() == report.last());
    if report.len() == 1 {
        assert(bytes + front =~= bytes);
        assert(report =~= seq![report.last()]);
    } else {
        assert(forall|i: int| 0 < i < front.len() ==> front[i] == #[trigger] report[i]);
        lemma_one_more_piece(bytes, front);
        let before = pieces(bytes).push(front);
        assert(before.drop_last() =~= pieces(bytes));
        assert(front.push(report.last()) =~= report);
    }
}

/// Each reply that a token brings about is taken as one action of its own,
/// behind those that wait.
pub proof fn each_reply_is_one_action(m: TerminalModel, token: TokenView)
    ensures
        ({
            let after = m.perform(token).replies;
            let reply = after.skip(m.replies.len() as int);
            ||| after == m.replies
            ||| after == m.replies + reply && is_report(reply) && pieces(after) == pieces(
                m.replies,
            ).push(reply)
        }),
{
    lemma_effects(m, token);
    reveal(effects);
    let after = m.perform(token).replies;
    if after != m.replies {
        let reply = after.skip(m.replies.len() as int);
        assert(after =~= m.replies + reply) by {
            assert(m.replies =~= after.subrange(0, m.replies.len() as int));
        }
        lemma_reports_are_pieces(reply);
        lemma_one_more_piece(m.replies, reply);
    }
}

/// The replies, one behind the other.
pub open spec fn joined(pieces: Seq<Seq<u8>>) -> Seq<u8>
    decreases pieces.len(),
{
    if pieces.len() == 0 {
        Seq::empty()
    } else {
        joined(pieces.drop_last()) + pieces.last()
    }
}

/// Cutting pending bytes into replies loses nothing and changes no order.
pub proof fn no_reply_byte_is_lost(bytes: Seq<u8>)
    ensures
        joined(pieces(bytes)) == bytes,
    decreases bytes.len(),
{
    if bytes.len() > 0 {
        let front = pieces(bytes.drop_last());
        no_reply_byte_is_lost(bytes.drop_last());
        assert(bytes =~= bytes.drop_last().push(bytes.last()));
        if front.len() == 0 || bytes.last() == 0x1b {
            assert(front.push(seq![bytes.last()]).drop_last() =~= front);
        } else {
            let cut = front.drop_last();
            assert(cut.push(front.last().push(bytes.last())).drop_last() =~= cut);
            assert(joined(cut) + front.last().push(bytes.last()) =~= (joined(cut)
                + front.last()).push(bytes.last()));
        }
        assert(joined(pieces(bytes)) =~= bytes);
    }
}

/// Tokens with at most one control sequence among them add at most one reply.
pub proof fn one_sequence_one_reply(m: TerminalModel, tokens: Seq<TokenView>)
    requires
        at_most_one_sequence(tokens),
    ensures
        m.replies.is_prefix_of(m.perform_all(tokens).replies),
        m.perform_all(tokens).replies.len() <= m.replies.len() + 14,
        (forall|i: int| 0 <= i < tokens.len() ==> !(#[trigger] tokens[i] is Csi))
            ==> m.perform_all(tokens).replies == m.replies,
    decreases tokens.len(),
{
    if tokens.len() == 0 {
        assert(m.replies.subrange(0, m.replies.len() as int) =~= m.replies);
    } else {
        let front = tokens.drop_last();
        let mid = m.perform_all(front);
        assert(forall|i: int| 0 <= i < front.len() ==> front[i] == #[trigger] tokens[i]);
        one_sequence_one_reply(m, front);
        replies_are_short(mid, tokens.last());
        if tokens.last() is Csi {
            assert forall|i: int| 0 <= i < front.len() implies !(#[trigger] front[i] is Csi) by {
                assert(tokens[i] == front[i]);
            }
        }
        assert(m.replies =~= m.perform_all(tokens).replies.subrange(0, m.replies.len() as int));
    }
}

/// History grows at its end only. What else can happen to it is that it is
/// erased as a whole.
pub proof fn history_grows_at_its_end(m: TerminalModel, token: TokenView)
    ensures
        ({
            let after = m.perform(token).scrollback;
            after.len() == 0 || m.scrollback.is_prefix_of(after)
        }),
{
    lemma_effects(m, token);
    reveal(effects);
}

/// What happens on the alternate screen leaves no trace in the history, and
/// leaves the primary screen as it is, but for a hard reset.
pub proof fn alternate_screen_is_apart(m: TerminalModel, token: TokenView)
    requires
        m.on_alternate,
    ensures
        m.perform(token).scrollback == m.scrollback || m.perform(token).scrollback.len() == 0,
        !is_reset(token) ==> m.perform(token).primary == m.primary,
{
    lemma_effects(m, token);
    reveal(effects);
}

/// A scroll adds to the history exactly the rows that leave the top, and only
/// where the whole primary screen scrolls.
pub proof fn scrolling_feeds_the_history(m: TerminalModel, count: int)
    ensures
        !m.on_alternate && m.scroll_top == 0 && m.scroll_bottom + 1 == m.rows()
            ==> m.scroll_up(count).scrollback == m.scrollback + m.primary.subrange(
            0,
            crate::terminal_model::least(count, m.rows()),
        ),
        m.on_alternate || m.scroll_top != 0 || m.scroll_bottom + 1 != m.rows() ==> m.scroll_up(
            count,
        ).scrollback == m.scrollback,
        m.scroll_down(count).scrollback == m.scrollback,
        m.insert_lines(count).scrollback == m.scrollback,
        m.delete_lines(count).scrollback == m.scrollback,
{
    reveal(TerminalModel::scroll_up);
    reveal(TerminalModel::scroll_down);
    reveal(TerminalModel::insert_lines);
    reveal(TerminalModel::delete_lines);
}

/// A resize keeps the history line by line, with the width that each line
/// had, and everything else but the screens, the cursor, the scroll region
/// and a pending wrap.
pub proof fn resizing_keeps_the_history(m: TerminalModel, size: Size)
    ensures
        m.resize(size).size == size,
        m.resize(size).scrollback == m.scrollback,
        m.resize(size).title == m.title,
        m.resize(size).pen == m.pen,
        m.resize(size).modes == m.modes,
        m.resize(size).saved == m.saved,
        m.resize(size).on_alternate == m.on_alternate,
        m.resize(size).replies == m.replies,
        m.resize(size).fed == m.fed,
{
    reveal(TerminalModel::fit);
    reveal(TerminalModel::repair_cursor);
}

/// A resize clamps the scroll region into the new bounds: the whole screen
/// stays the whole screen, a region that fits keeps its rows, and one of which
/// fewer than two rows are left becomes the whole screen.
pub proof fn resizing_clamps_the_region(m: TerminalModel, size: Size)
    requires
        m.wf(),
        size.addressable(),
    ensures
        ({
            let after = m.resize(size);
            &&& after.scroll_top <= after.scroll_bottom < after.rows()
            &&& m.scrolls_whole_screen() ==> after.scrolls_whole_screen()
            &&& !m.scrolls_whole_screen() && m.scroll_top < m.scroll_bottom < after.rows()
                ==> after.scroll_top == m.scroll_top && after.scroll_bottom == m.scroll_bottom
            &&& !m.scrolls_whole_screen() && m.scroll_top + 1 < after.rows() <= m.scroll_bottom
                ==> after.scroll_top == m.scroll_top && after.scroll_bottom + 1 == after.rows()
            &&& size != m.size && m.scroll_top + 1 >= after.rows() ==> after.scrolls_whole_screen()
        }),
{
    reveal(TerminalModel::fit);
    reveal(TerminalModel::repair_cursor);
}

/// The cursor is not on the trailing half of a wide glyph, and in origin mode
/// it is in the scroll region.
pub open spec fn cursor_is_settled(m: TerminalModel) -> bool {
    &&& m.min_row() <= m.cursor.row <= m.max_row()
    &&& m.cursor.col > 0 ==> m.active()[m.cursor.row as int][m.cursor.col as int].width != 0
}

/// DECRC undoes what happened to the cursor, the style and the origin mode
/// since DECSC: right after it, nothing.
pub proof fn restoring_what_was_saved(m: TerminalModel)
    requires
        m.wf(),
        cursor_is_settled(m),
    ensures
        m.save_cursor().restore_cursor() == m.save_cursor(),
{
    reveal(TerminalModel::save_cursor);
    reveal(TerminalModel::recall);
    reveal(TerminalModel::repair_cursor);
    let saved = m.save_cursor();
    assert(saved.recall().cursor == saved.cursor);
    assert(saved.recall().modes == saved.modes);
    assert(saved.recall() == saved);
}

/// Entering the alternate screen and leaving it again brings back the primary
/// screen, the cursor, the style and the modes.
pub proof fn alternate_screen_round_trip(m: TerminalModel, clear: bool, clear_again: bool)
    requires
        m.wf(),
        !m.on_alternate,
        cursor_is_settled(m),
    ensures
        ({
            let back = m.set_alternate(true, clear).set_alternate(false, clear_again);
            &&& !back.on_alternate
            &&& back.primary == m.primary
            &&& back.cursor == m.cursor
            &&& back.wrap_pending == m.wrap_pending
            &&& back.pen == m.pen
            &&& back.modes == m.modes
            &&& back.scrollback == m.scrollback
            &&& back.title == m.title
        }),
{
    let away = m.set_alternate(true, clear);
    let home = away.show_alternate(false);
    assert(away.on_alternate && home.primary == m.primary && home.size == m.size && home.scrollback
        == m.scrollback && home.title == m.title && home.modes == m.modes && home.saved
        == m.save_cursor().saved && home.scroll_top <= m.scroll_top && m.scroll_bottom
        <= home.scroll_bottom) by {
        reveal(TerminalModel::set_alternate);
        reveal(TerminalModel::clear_alternate);
        reveal(TerminalModel::save_cursor);
    }
    assert(away.set_alternate(false, clear_again) == home.restore_cursor()) by {
        reveal(TerminalModel::set_alternate);
    }
    let at = home.recall();
    assert(at.primary == m.primary && !at.on_alternate && at.cursor == m.cursor && at.modes
        == m.modes && at.pen == m.pen && at.wrap_pending == m.wrap_pending && at.scrollback
        == m.scrollback && at.title == m.title) by {
        reveal(TerminalModel::recall);
        reveal(TerminalModel::save_cursor);
    }
    reveal(TerminalModel::repair_cursor);
}

/// Whether a token leaves the alternate screen, the primary screen, the history
/// and what was saved alone: it does not save the cursor, reset the emulator,
/// erase the history or switch screens.
pub open spec fn stays_aside(token: TokenView) -> bool {
    match token {
        TokenView::Csi { params, intermediates, ignore, action } => {
            let private = intermediates.len() > 0 && intermediates[0] == 0x3f;
            ||| ignore
            ||| {
                &&& action == 's' ==> private
                &&& action == 'J' ==> param(params, 0, 0) != 3
                &&& (action == 'h' || action == 'l') && private ==> switches_no_screen(
                    flat_params(params),
                )
            }
        },
        TokenView::Esc { intermediates, ignore, byte } => ignore || intermediates.len() > 0 || (byte
            != 0x37 && byte != 0x63),
        _ => true,
    }
}

/// Whether no mode among these is about the alternate screen.
pub open spec fn switches_no_screen(modes: Seq<u16>) -> bool {
    forall|i: int|
        0 <= i < modes.len() ==> #[trigger] modes[i] != 47 && modes[i] != 1047 && modes[i] != 1049
}

/// Whether all of these tokens stay aside.
pub open spec fn all_stay_aside(tokens: Seq<TokenView>) -> bool {
    forall|i: int| 0 <= i < tokens.len() ==> stays_aside(#[trigger] tokens[i])
}

/// Whether all that `bytes` bring about, fed behind `fed`, stays aside.
pub open spec fn output_stays_aside(fed: Seq<u8>, bytes: Seq<u8>) -> bool {
    forall|i: int|
        0 <= i < bytes.len() ==> all_stay_aside(
            tokens_after(fed + #[trigger] bytes.take(i), bytes[i]),
        )
}

/// From `a` to `b` the alternate screen stayed, and nothing else than what is
/// shown on it changed of what leaving it brings back.
spec fn aside(a: TerminalModel, b: TerminalModel) -> bool {
    &&& a.on_alternate
    &&& b.on_alternate
    &&& b.size == a.size
    &&& b.saved == a.saved
    &&& b.primary == a.primary
    &&& b.scrollback == a.scrollback
}

proof fn lemma_calm_with_modes(
    a: TerminalModel,
    modes: TerminalModes,
    style: MouseReporting,
    enable: bool,
)
    ensures
        calm(a, a.with_modes(modes)),
        calm(a, a.set_mouse(style, enable)),
        calm(a, a.with_modes(modes).set_position(1, 1)),
{
    reveal(calm);
    reveal(TerminalModel::with_modes);
    reveal(TerminalModel::set_mouse);
    reveal(TerminalModel::set_position);
}

proof fn lemma_calm_mode(a: TerminalModel, mode: u16, private: bool, enable: bool)
    requires
        !private || (mode != 47 && mode != 1047 && mode != 1049),
    ensures
        calm(a, a.set_one_mode(mode, private, enable)),
{
    reveal(TerminalModel::set_private_mode);
    let modes = a.modes;
    let off = MouseReporting::Off;
    lemma_calm_refl(a);
    if !private {
        lemma_calm_with_modes(a, TerminalModes { insert: enable, ..modes }, off, enable);
    } else if mode == 1 {
        let set = TerminalModes { application_cursor: enable, ..modes };
        lemma_calm_with_modes(a, set, off, enable);
    } else if mode == 6 {
        lemma_calm_with_modes(a, TerminalModes { origin: enable, ..modes }, off, enable);
    } else if mode == 7 {
        lemma_calm_with_modes(a, TerminalModes { autowrap: enable, ..modes }, off, enable);
    } else if mode == 9 {
        lemma_calm_with_modes(a, modes, MouseReporting::X10, enable);
    } else if mode == 25 {
        lemma_calm_with_modes(a, TerminalModes { cursor_visible: enable, ..modes }, off, enable);
    } else if mode == 66 {
        let set = TerminalModes { application_keypad: enable, ..modes };
        lemma_calm_with_modes(a, set, off, enable);
    } else if mode == 1000 {
        lemma_calm_with_modes(a, modes, MouseReporting::Normal, enable);
    } else if mode == 1002 {
        lemma_calm_with_modes(a, modes, MouseReporting::ButtonEvent, enable);
    } else if mode == 1003 {
        lemma_calm_with_modes(a, modes, MouseReporting::AnyEvent, enable);
    } else if mode == 1006 {
        lemma_calm_with_modes(a, TerminalModes { mouse_sgr: enable, ..modes }, off, enable);
    } else if mode == 2004 {
        lemma_calm_with_modes(a, TerminalModes { bracketed_paste: enable, ..modes }, off, enable);
    }
}

proof fn lemma_calm_modes(a: TerminalModel, modes: Seq<u16>, private: bool, enable: bool)
    requires
        !private || switches_no_screen(modes),
    ensures
        calm(a, a.set_modes(modes, private, enable)),
    decreases modes.len(),
{
    if modes.len() == 0 {
        lemma_calm_refl(a);
    } else {
        let front = modes.drop_last();
        assert(forall|i: int| 0 <= i < front.len() ==> front[i] == #[trigger] modes[i]);
        let b = a.set_modes(front, private, enable);
        lemma_calm_modes(a, front, private, enable);
        assert(modes.last() == modes[modes.len() - 1]);
        lemma_calm_mode(b, modes.last(), private, enable);
        lemma_calm_trans(a, b, b.set_one_mode(modes.last(), private, enable));
    }
}

proof fn lemma_csi_aside(
    a: TerminalModel,
    params: Seq<Seq<u16>>,
    intermediates: Seq<u8>,
    action: char,
)
    requires
        a.on_alternate,
        stays_aside(TokenView::Csi { params, intermediates, ignore: false, action }),
    ensures
        aside(a, a.csi(params, intermediates, action)),
{
    reveal(TerminalModel::csi);
    let private = intermediates.len() > 0 && intermediates[0] == 0x3f;
    let n = param(params, 0, 1) as int;
    let mode = param(params, 0, 0);
    let b = a.csi(params, intermediates, action);
    lemma_calm_refl(a);
    if action == 'n' || action == 'c' {
        reveal(TerminalModel::report_status);
    } else {
        assert(calm(a, b)) by {
            if action == 'h' || action == 'l' {
                lemma_calm_modes(a, flat_params(params), private, action == 'h');
            } else {
                lemma_calm_moves(a, n, param(params, 1, 1) as int);
                lemma_calm_moves(a.cursor_up(n), 0, 0);
                lemma_calm_moves(a.cursor_down(n), 0, 0);
                lemma_calm_trans(a, a.cursor_up(n), a.cursor_up(n).carriage_return());
                lemma_calm_trans(a, a.cursor_down(n), a.cursor_down(n).carriage_return());
                lemma_calm_erasures(a, mode);
                lemma_calm_edits(a, n, 0);
                lemma_calm_edits(a, a.cursor.col as int, a.cursor.col + n);
                lemma_calm_scroll(a, n);
                lemma_calm_settings(a, params);
            }
        }
        reveal(calm);
    }
}

proof fn lemma_aside(a: TerminalModel, token: TokenView)
    requires
        a.on_alternate,
        stays_aside(token),
    ensures
        aside(a, a.perform(token)),
{
    let b = a.perform(token);
    lemma_calm_refl(a);
    match token {
        TokenView::Print(ch) => {
            lemma_calm_print(a, ch, shown_columns(unicode_columns(ch)));
            reveal(calm);
        },
        TokenView::Execute(byte) => {
            reveal(TerminalModel::execute);
            lemma_calm_moves(a, 0, 0);
            lemma_calm_lines(a);
            reveal(calm);
        },
        TokenView::Osc(params) => {
            reveal(TerminalModel::command);
        },
        TokenView::Csi { params, intermediates, ignore, action } => {
            if !ignore {
                lemma_csi_aside(a, params, intermediates, action);
            }
        },
        TokenView::Esc { intermediates, ignore, byte } => {
            reveal(TerminalModel::escape);
            lemma_calm_moves(a, 0, 0);
            lemma_calm_lines(a);
            lemma_calm_settings(a, Seq::empty());
            reveal(calm);
        },
    }
}

proof fn lemma_all_aside(a: TerminalModel, tokens: Seq<TokenView>)
    requires
        a.on_alternate,
        all_stay_aside(tokens),
    ensures
        aside(a, a.perform_all(tokens)),
    decreases tokens.len(),
{
    if tokens.len() > 0 {
        let front = tokens.drop_last();
        assert(forall|i: int| 0 <= i < front.len() ==> front[i] == #[trigger] tokens[i]);
        lemma_all_aside(a, front);
        assert(tokens.last() == tokens[tokens.len() - 1]);
        lemma_aside(a.perform_all(front), tokens.last());
    }
}

proof fn lemma_output_aside(a: TerminalModel, bytes: Seq<u8>)
    requires
        a.on_alternate,
        output_stays_aside(a.fed, bytes),
    ensures
        aside(a, a.read_all(bytes)),
    decreases bytes.len(),
{
    if bytes.len() > 0 {
        let front = bytes.drop_last();
        let last = bytes.len() - 1;
        assert forall|i: int| 0 <= i < front.len() implies all_stay_aside(
            tokens_after(a.fed + #[trigger] front.take(i), front[i]),
        ) by {
            assert(front.take(i) =~= bytes.take(i));
        }
        lemma_output_aside(a, front);
        lemma_effects_of_reading(a, front);
        assert(bytes.take(last) =~= front);
        let b = a.read_all(front);
        lemma_all_aside(
            TerminalModel { fed: b.fed.push(bytes.last()), ..b },
            tokens_after(b.fed, bytes.last()),
        );
    }
}

/// Entering the alternate screen, whatever is drawn there, and leaving it again
/// brings back the primary screen, the cursor, the style and the origin mode,
/// and leaves the history as it is. What is drawn may be any output that does
/// not save the cursor, reset the emulator, erase the history or switch
/// screens, fed in one piece or in several.
pub proof fn alternate_screen_round_trip_over_output(
    m: TerminalModel,
    clear: bool,
    bytes: Seq<u8>,
    clear_again: bool,
)
    requires
        m.wf(),
        !m.on_alternate,
        !m.modes.origin,
        cursor_is_settled(m),
        output_stays_aside(m.fed, bytes),
    ensures
        ({
            let away = m.set_alternate(true, clear).feed(bytes);
            let back = away.set_alternate(false, clear_again);
            &&& away.on_alternate
            &&& !back.on_alternate
            &&& back.size == m.size
            &&& back.primary == m.primary
            &&& back.cursor == m.cursor
            &&& back.wrap_pending == m.wrap_pending
            &&& back.pen == m.pen
            &&& !back.modes.origin
            &&& back.scrollback == m.scrollback
        }),
{
    let entered = m.set_alternate(true, clear);
    assert(entered.on_alternate && entered.fed == m.fed && entered.primary == m.primary
        && entered.size == m.size && entered.scrollback == m.scrollback && entered.saved
        == m.save_cursor().saved) by {
        reveal(TerminalModel::set_alternate);
        reveal(TerminalModel::clear_alternate);
        reveal(TerminalModel::save_cursor);
    }
    lemma_output_aside(entered.untouched(), bytes);
    let away = entered.feed(bytes);
    let home = away.show_alternate(false);
    assert(away.set_alternate(false, clear_again) == home.restore_cursor()) by {
        reveal(TerminalModel::set_alternate);
    }
    let at = home.recall();
    assert(at.primary == m.primary && !at.on_alternate && at.size == m.size && at.cursor
        == m.cursor && at.pen == m.pen && at.wrap_pending == m.wrap_pending && at.scrollback
        == m.scrollback && !at.modes.origin) by {
        reveal(TerminalModel::recall);
        reveal(TerminalModel::save_cursor);
    }
    reveal(TerminalModel::repair_cursor);
}

/// What can be done to an emulator.
pub enum Change {
    /// Output is fed.
    Feed(Seq<u8>),
    /// Tokens are performed.
    Perform(Seq<TokenView>),
    /// A glyph is drawn.
    Draw(char, Option<usize>),
    /// The screens get another size.
    Resize(Size),
    /// The history is trimmed to a number of lines and of cells.
    Trim(nat, nat),
    /// Reply bytes are consumed.
    Consume(int),
}

/// What a change leaves behind.
pub open spec fn changed(m: TerminalModel, change: Change) -> TerminalModel {
    match change {
        Change::Feed(bytes) => m.feed(bytes),
        Change::Perform(tokens) => m.untouched().perform_all(tokens).untouched(),
        Change::Draw(ch, width) => m.untouched().print(ch, width).untouched(),
        Change::Resize(size) => m.resize(size),
        Change::Trim(lines, cells) => TerminalModel {
            scrollback: trimmed(m.scrollback, lines, cells),
            ..m
        },
        Change::Consume(n) => TerminalModel { replies: m.replies.skip(n), ..m },
    }
}

/// Whether a change moves the revision on.
pub open spec fn shows(m: TerminalModel, change: Change) -> bool {
    match change {
        Change::Feed(bytes) => m.feed_shows(bytes),
        Change::Perform(tokens) => m.tokens_show(tokens),
        Change::Draw(ch, width) => m.print_shows(ch, width),
        Change::Resize(size) => size != m.size,
        Change::Trim(_, _) => false,
        Change::Consume(_) => false,
    }
}

/// What changes leave behind, one after the other.
pub open spec fn changed_by_all(m: TerminalModel, changes: Seq<Change>) -> TerminalModel
    decreases changes.len(),
{
    if changes.len() == 0 {
        m
    } else {
        changed(changed_by_all(m, changes.drop_last()), changes.last())
    }
}

/// How many of the changes move the revision on.
pub open spec fn shown(m: TerminalModel, changes: Seq<Change>) -> nat
    decreases changes.len(),
{
    if changes.len() == 0 {
        0
    } else {
        shown(m, changes.drop_last()) + if shows(
            changed_by_all(m, changes.drop_last()),
            changes.last(),
        ) {
            1nat
        } else {
            0nat
        }
    }
}

/// The revision after changes. It wraps around.
pub open spec fn revision_after(revision: u64, m: TerminalModel, changes: Seq<Change>) -> u64
    decreases changes.len(),
{
    if changes.len() == 0 {
        revision
    } else {
        let before = revision_after(revision, m, changes.drop_last());
        if shows(changed_by_all(m, changes.drop_last()), changes.last()) {
            before.wrapping_add(1)
        } else {
            before
        }
    }
}

/// How many revisions there are before they come round again.
pub open spec fn revision_count() -> nat {
    0x1_0000_0000_0000_0000
}

/// The revision counts the changes that can be seen, and wraps around.
pub proof fn revisions_count_what_is_shown(revision: u64, m: TerminalModel, changes: Seq<Change>)
    ensures
        revision_after(revision, m, changes) == (revision + shown(m, changes))
            % revision_count() as int,
    decreases changes.len(),
{
    if changes.len() > 0 {
        let front = changes.drop_last();
        revisions_count_what_is_shown(revision, m, front);
        let before = revision + shown(m, front);
        assert((before + 1) % 0x1_0000_0000_0000_0000 == if before % 0x1_0000_0000_0000_0000
            == u64::MAX {
            0
        } else {
            before % 0x1_0000_0000_0000_0000 + 1
        });
    }
}

proof fn lemma_hidden_change(m: TerminalModel, change: Change)
    requires
        !shows(m, change),
    ensures
        changed(m, change).looks_like(m),
{
    match change {
        Change::Feed(bytes) => quiet_feeds_show_nothing(m, bytes),
        Change::Perform(tokens) => lemma_effects_of_all(m.untouched(), tokens),
        Change::Draw(ch, width) => {
            lemma_calm_print(m.untouched(), ch, width);
            reveal(calm);
        },
        _ => {},
    }
}

proof fn lemma_hidden_changes(m: TerminalModel, changes: Seq<Change>)
    requires
        shown(m, changes) == 0,
    ensures
        changed_by_all(m, changes).looks_like(m),
    decreases changes.len(),
{
    if changes.len() > 0 {
        lemma_hidden_changes(m, changes.drop_last());
        lemma_hidden_change(changed_by_all(m, changes.drop_last()), changes.last());
    }
}

/// Equal revisions mean that the same can be seen, whatever happened in
/// between: snapshots of one emulator with the same revision agree on
/// everything but the history, which is no part of what is visible. Only where
/// the number of visible changes is one that brings the counter back to where
/// it was is there nothing to be told from it.
pub proof fn equal_revisions_look_alike(revision: u64, m: TerminalModel, changes: Seq<Change>)
    requires
        shown(m, changes) % revision_count() == 0 ==> shown(m, changes) == 0,
        revision_after(revision, m, changes) == revision,
    ensures
        changed_by_all(m, changes).looks_like(m),
        changed_by_all(m, changes).content() == (SnapshotContent {
            scrollback: changed_by_all(m, changes).scrollback,
            ..m.content()
        }),
{
    revisions_count_what_is_shown(revision, m, changes);
    let n = shown(m, changes) as int;
    assert((revision + n) % 0x1_0000_0000_0000_0000 == revision ==> n % 0x1_0000_0000_0000_0000
        == 0);
    lemma_hidden_changes(m, changes);
}

/// Every wide glyph of a row has both its halves, side by side.
pub open spec fn glyphs_are_whole(row: Seq<Cell>) -> bool {
    forall|i: int|
        0 <= i < row.len() ==> {
            &&& (#[trigger] row[i]).width == 0 ==> i > 0 && row[i - 1].width == 2
            &&& row[i].width == 2 ==> i + 1 < row.len() && row[i + 1].width == 0
        }
}

/// Erasing columns of a row of whole glyphs makes them blank in the style of
/// the pen. Beside them, the half of a wide glyph that is left over becomes
/// empty; no other cell changes.
pub proof fn erasing_whole_glyphs(row: Seq<Cell>, start: int, end: int, style: Style)
    requires
        glyphs_are_whole(row),
        0 <= start < end <= row.len(),
    ensures
        erase_span(row, start, end, style).len() == row.len(),
        forall|i: int|
            0 <= i < row.len() ==> #[trigger] erase_span(row, start, end, style)[i] == (if start
                <= i < end {
                Cell::spec_blank(style)
            } else if i == start - 1 && row[start].width == 0 {
                Cell::spec_empty()
            } else if i == end && row[end - 1].width == 2 {
                Cell::spec_empty()
            } else {
                row[i]
            }),
    decreases end - start,
{
    lemma_erase_span_len(row, start, end, style);
    lemma_erase_span_len(row, start, end - 1, style);
    assert(row[start].width == 0 ==> row[start - 1].width == 2);
    if start < end - 1 {
        erasing_whole_glyphs(row, start, end - 1, style);
        let before = erase_span(row, start, end - 1, style);
        assert(row[end - 2].width == 2 ==> row[end - 1].width == 0);
        assert(row[end - 1].width == 0 ==> row[end - 2].width == 2);
        assert(before[end - 1] == (if row[end - 2].width == 2 {
            Cell::spec_empty()
        } else {
            row[end - 1]
        }));
    } else {
        assert(erase_span(row, start, end - 1, style) == row);
    }
}

} // verus!
