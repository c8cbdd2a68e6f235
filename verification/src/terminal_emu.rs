//! What the emulator does with each token of the byte stream.

use vstd::prelude::*;

use crate::decimal::push_u32;
use crate::size::Size;
use crate::terminal::TerminalState;
use crate::terminal_buffer::fills;
use crate::terminal_model::{
    attributes_report, cursor_report, extended_color, flat_params, param, sgr, status_report,
    TerminalModel,
};
use crate::terminal_types::{
    Color, MouseReporting, Position, SavedCursor, Style, TerminalModes,
};
use crate::tokenizer::{
    char_display_width, params_view, strings_view, text_from_utf8, tokens_view, Token, TokenView,
};

verus! {

impl TerminalState {
    /// Carries out tokens one after the other.
    pub(crate) fn perform_tokens(&mut self, tokens: &[Token])
        requires
            old(self).wf(),
        ensures
            old(self).becomes(final(self), old(self)@.perform_all(tokens_view(tokens@))),
    {
        let ghost all = tokens_view(tokens@);
        let mut i: usize = 0;
        proof {
            assert(all.take(0) =~= Seq::<TokenView>::empty());
        }
        while i < tokens.len()
            invariant
                i <= tokens@.len(),
                all == tokens_view(tokens@),
                old(self).becomes(self, old(self)@.perform_all(all.take(i as int))),
            decreases tokens@.len() - i,
        {
            self.perform_token(&tokens[i]);
            i += 1;
            proof {
                assert(all.take(i as int).drop_last() =~= all.take(i - 1));
                assert(all.take(i as int).last() == tokens@[i - 1]@);
            }
        }
        proof {
            assert(all.take(i as int) =~= all);
        }
    }

    /// Carries out one token.
    fn perform_token(&mut self, token: &Token)
        requires
            old(self).wf(),
        ensures
            old(self).becomes(final(self), old(self)@.perform(token@)),
    {
        match token {
            Token::Print(ch) => self.print_char(*ch),
            Token::Execute(byte) => self.execute(*byte),
            Token::Osc(params) => self.osc_dispatch(params),
            Token::Csi { params, intermediates, ignore, action } => {
                if !*ignore {
                    self.handle_csi(params, intermediates, *action);
                }
            },
            Token::Esc { intermediates, ignore, byte } => {
                if !*ignore && intermediates.len() == 0 {
                    self.esc_dispatch(*byte);
                }
            },
        }
    }

    /// Executes a control character.
    fn execute(&mut self, byte: u8)
        requires
            old(self).wf(),
        ensures
            old(self).becomes(final(self), old(self)@.execute(byte)),
    {
        proof {
            reveal(TerminalModel::execute);
        }
        match byte {
            0x08 => self.backspace(),
            0x09 => self.horizontal_tab(),
            0x0a..=0x0c => self.line_feed(),
            0x0d => self.carriage_return(),
            _ => {},
        }
    }

    /// Dispatches an escape sequence without intermediate bytes.
    fn esc_dispatch(&mut self, byte: u8)
        requires
            old(self).wf(),
        ensures
            old(self).becomes(final(self), old(self)@.escape(byte)),
    {
        proof {
            reveal(TerminalModel::escape);
        }
        match byte {
            0x37 => self.save_cursor(),
            0x38 => self.restore_cursor(),
            0x44 => self.line_feed(),
            0x45 => {
                self.carriage_return();
                self.line_feed();
            },
            0x4d => self.reverse_index(),
            0x63 => self.soft_reset(),
            _ => {},
        }
    }

    /// Dispatches an operating system command.
    ///
    /// OSC 0 / 2 store the window title. Other OSC numbers are ignored so
    /// their payloads never appear as printable text.
    fn osc_dispatch(&mut self, params: &Vec<Vec<u8>>)
        requires
            old(self).wf(),
        ensures
            old(self).becomes(final(self), old(self)@.command(strings_view(params@))),
    {
        proof {
            reveal(TerminalModel::command);
        }
        if params.len() == 0 {
            return ;
        }
        let id: &Vec<u8> = &params[0];
        proof {
            assert(strings_view(params@)[0] == id@);
        }
        if id.len() == 1 && (id[0] == 0x30 || id[0] == 0x32) {
            proof {
                assert(id@ =~= seq![id@[0]]);
            }
            if params.len() > 1 {
                proof {
                    assert(strings_view(params@)[1] == params@[1]@);
                }
                self.put_title(text_from_utf8(params[1].as_slice()));
            } else {
                let title: String = String::new();
                proof {
                    assert(title@ =~= Seq::<char>::empty());
                }
                self.put_title(title);
            }
        }
    }

    /// Draws a character at the cursor.
    fn print_char(&mut self, ch: char)
        requires
            old(self).wf(),
        ensures
            old(self).becomes(final(self), old(self)@.perform(TokenView::Print(ch))),
    {
        self.print_glyph(ch, char_display_width(ch));
    }

    /// Draws a character that takes up `width` columns at the cursor.
    pub(crate) fn print_glyph(&mut self, ch: char, width: Option<usize>)
        requires
            old(self).wf(),
            width matches Some(columns) ==> columns <= 2,
        ensures
            old(self).becomes(final(self), old(self)@.print(ch, width)),
    {
        proof {
            reveal(TerminalModel::print);
        }
        let width: u16 = match width {
            Some(width) => width as u16,
            None => return ,
        };
        if width == 0 {
            return ;
        }
        self.finish_wrap();
        self.make_room(width);
        proof {
            self.lemma_wf();
        }
        if width <= self.size().cols() - self.cursor().col {
            self.place_glyph(ch, width);
        }
    }

    /// Completes a pending wrap.
    fn finish_wrap(&mut self)
        requires
            old(self).wf(),
        ensures
            old(self).becomes(final(self), old(self)@.finish_wrap()),
    {
        proof {
            reveal(TerminalModel::finish_wrap);
        }
        if self.wrap_pending() && self.modes().autowrap {
            self.carriage_return();
            self.line_feed();
        } else {
            self.drop_wrap();
        }
    }

    /// Makes room for a glyph of `width` columns.
    fn make_room(&mut self, width: u16)
        requires
            old(self).wf(),
        ensures
            old(self).becomes(final(self), old(self)@.make_room(width as int)),
    {
        proof {
            reveal(TerminalModel::make_room);
            self.lemma_wf();
        }
        let at: Position = self.cursor();
        let cols: u16 = self.size().cols();
        if width > cols - at.col {
            if self.modes().autowrap {
                self.carriage_return();
                self.line_feed();
            } else {
                self.move_to(at.row, cols - 1);
            }
        }
    }

    fn backspace(&mut self)
        requires
            old(self).wf(),
        ensures
            old(self).becomes(final(self), old(self)@.backspace()),
    {
        proof {
            reveal(TerminalModel::backspace);
            self.lemma_wf();
        }
        let at: Position = self.cursor();
        self.move_to(at.row, at.col.saturating_sub(1));
    }

    fn horizontal_tab(&mut self)
        requires
            old(self).wf(),
        ensures
            old(self).becomes(final(self), old(self)@.horizontal_tab()),
    {
        proof {
            reveal(TerminalModel::horizontal_tab);
            self.lemma_wf();
        }
        let at: Position = self.cursor();
        let last: u16 = self.size().cols() - 1;
        let stop: u16 = at.col / 8 * 8;
        let col: u16 = if last >= 8 && stop < last - 8 {
            stop + 8
        } else {
            last
        };
        self.move_to(at.row, col);
    }

    fn line_feed(&mut self)
        requires
            old(self).wf(),
        ensures
            old(self).becomes(final(self), old(self)@.line_feed()),
    {
        proof {
            reveal(TerminalModel::line_feed);
            self.lemma_wf();
        }
        let at: Position = self.cursor();
        let (_, bottom) = self.scroll_region();
        if at.row == bottom {
            self.drop_wrap();
            self.scroll_up_screen(1);
        } else if at.row + 1 < self.size().rows() {
            self.move_to(at.row + 1, at.col);
        } else {
            self.move_to(at.row, at.col);
        }
    }

    fn carriage_return(&mut self)
        requires
            old(self).wf(),
        ensures
            old(self).becomes(final(self), old(self)@.carriage_return()),
    {
        proof {
            reveal(TerminalModel::carriage_return);
            self.lemma_wf();
        }
        let at: Position = self.cursor();
        self.move_to(at.row, 0);
    }

    fn reverse_index(&mut self)
        requires
            old(self).wf(),
        ensures
            old(self).becomes(final(self), old(self)@.reverse_index()),
    {
        proof {
            reveal(TerminalModel::reverse_index);
            self.lemma_wf();
        }
        let at: Position = self.cursor();
        let (top, _) = self.scroll_region();
        if at.row == top {
            self.drop_wrap();
            self.scroll_down_screen(1);
        } else {
            self.move_to(at.row.saturating_sub(1), at.col);
        }
    }

    fn cursor_up(&mut self, n: u16)
        requires
            old(self).wf(),
        ensures
            old(self).becomes(final(self), old(self)@.cursor_up(n as int)),
    {
        proof {
            reveal(TerminalModel::cursor_up);
            self.lemma_wf();
        }
        let at: Position = self.cursor();
        let (min_row, _) = self.origin_bounds();
        let row: u16 = at.row.saturating_sub(n);
        let row: u16 = if row > min_row {
            row
        } else {
            min_row
        };
        self.move_to(row, at.col);
    }

    fn cursor_down(&mut self, n: u16)
        requires
            old(self).wf(),
        ensures
            old(self).becomes(final(self), old(self)@.cursor_down(n as int)),
    {
        proof {
            reveal(TerminalModel::cursor_down);
            self.lemma_wf();
        }
        let at: Position = self.cursor();
        let (_, max_row) = self.origin_bounds();
        let row: u16 = at.row.saturating_add(n);
        let row: u16 = if row < max_row {
            row
        } else {
            max_row
        };
        self.move_to(row, at.col);
    }

    fn cursor_forward(&mut self, n: u16)
        requires
            old(self).wf(),
        ensures
            old(self).becomes(final(self), old(self)@.cursor_forward(n as int)),
    {
        proof {
            reveal(TerminalModel::cursor_forward);
            self.lemma_wf();
        }
        let at: Position = self.cursor();
        let last: u16 = self.size().cols() - 1;
        let col: u16 = at.col.saturating_add(n);
        let col: u16 = if col < last {
            col
        } else {
            last
        };
        self.move_to(at.row, col);
    }

    fn cursor_backward(&mut self, n: u16)
        requires
            old(self).wf(),
        ensures
            old(self).becomes(final(self), old(self)@.cursor_backward(n as int)),
    {
        proof {
            reveal(TerminalModel::cursor_backward);
            self.lemma_wf();
        }
        let at: Position = self.cursor();
        self.move_to(at.row, at.col.saturating_sub(n));
    }

    fn restore_cursor(&mut self)
        requires
            old(self).wf(),
        ensures
            old(self).becomes(final(self), old(self)@.restore_cursor()),
    {
        self.recall();
        self.repair_cursor_cell();
    }

    /// Brings back what was saved, with the cursor inside the screen.
    fn recall(&mut self)
        requires
            old(self).wf(),
        ensures
            old(self).becomes(final(self), old(self)@.recall()),
    {
        proof {
            reveal(TerminalModel::with_modes);
        }
        let ghost before = self@;
        let saved: SavedCursor = self.saved_cursor();
        let mut modes: TerminalModes = self.modes();
        modes.origin = saved.origin;
        self.put_modes(modes);
        self.put_pen(saved.pen);
        proof {
            self.lemma_wf();
        }
        let (min_row, max_row) = self.origin_bounds();
        let last: u16 = self.size().cols() - 1;
        let at: Position = saved.cursor;
        let row: u16 = if at.row < min_row {
            min_row
        } else if at.row > max_row {
            max_row
        } else {
            at.row
        };
        let col: u16 = if at.col < last {
            at.col
        } else {
            last
        };
        self.put_cursor(row, col, saved.wrap_pending);
        proof {
            reveal(TerminalModel::recall);
        }
    }

    /// Returns the column that a one-based column number stands for.
    fn addressed_col(&self, col_one_based: u16) -> (col: u16)
        ensures
            col == self@.addressed_col(col_one_based as int),
            col < self@.cols(),
    {
        let last: u16 = self.size().cols() - 1;
        let col: u16 = col_one_based.saturating_sub(1);
        if col < last {
            col
        } else {
            last
        }
    }

    /// Returns the row that a one-based row number stands for.
    fn addressed_row(&self, row_one_based: u16) -> (row: u16)
        requires
            self.wf(),
        ensures
            row == self@.addressed_row(row_one_based as int),
            row < self@.rows(),
    {
        proof {
            self.lemma_wf();
        }
        let (min_row, max_row) = self.origin_bounds();
        let row: u16 = min_row.saturating_add(row_one_based.saturating_sub(1));
        if row < max_row {
            row
        } else {
            max_row
        }
    }

    fn set_col(&mut self, col_one_based: u16)
        requires
            old(self).wf(),
        ensures
            old(self).becomes(final(self), old(self)@.set_col(col_one_based as int)),
    {
        proof {
            reveal(TerminalModel::set_col);
            self.lemma_wf();
        }
        let at: Position = self.cursor();
        let col: u16 = self.addressed_col(col_one_based);
        self.move_to(at.row, col);
    }

    fn set_row(&mut self, row_one_based: u16)
        requires
            old(self).wf(),
        ensures
            old(self).becomes(final(self), old(self)@.set_row(row_one_based as int)),
    {
        proof {
            reveal(TerminalModel::set_row);
            self.lemma_wf();
        }
        let at: Position = self.cursor();
        let row: u16 = self.addressed_row(row_one_based);
        self.move_to(row, at.col);
    }

    fn set_position(&mut self, row_one_based: u16, col_one_based: u16)
        requires
            old(self).wf(),
        ensures
            old(self).becomes(final(self), old(self)@.set_position(row_one_based as int, col_one_based as int)),
    {
        proof {
            reveal(TerminalModel::set_position);
        }
        let row: u16 = self.addressed_row(row_one_based);
        let col: u16 = self.addressed_col(col_one_based);
        self.move_to(row, col);
    }

    fn erase_display(&mut self, mode: u16)
        requires
            old(self).wf(),
        ensures
            old(self).becomes(final(self), old(self)@.erase_display(mode)),
    {
        proof {
            self.lemma_wf();
            reveal(TerminalModel::erase_display);
        }
        let at: Position = self.cursor();
        let size: Size = self.size();
        match mode {
            0 => {
                self.erase_here(at.col, size.cols());
                self.erase_rows(at.row + 1, size.rows());
            },
            1 => {
                self.erase_rows(0, at.row);
                self.erase_here(0, at.col + 1);
            },
            2 => self.erase_rows(0, size.rows()),
            3 => self.clear_scrollback(),
            _ => {},
        }
    }

    fn erase_line(&mut self, mode: u16)
        requires
            old(self).wf(),
        ensures
            old(self).becomes(final(self), old(self)@.erase_line(mode)),
    {
        proof {
            self.lemma_wf();
            reveal(TerminalModel::erase_line);
        }
        let at: Position = self.cursor();
        let cols: u16 = self.size().cols();
        match mode {
            0 => self.erase_here(at.col, cols),
            1 => self.erase_here(0, at.col + 1),
            2 => self.erase_here(0, cols),
            _ => {},
        }
    }

    fn erase_chars(&mut self, count: u16)
        requires
            old(self).wf(),
        ensures
            old(self).becomes(
                final(self),
                old(self)@.erase_here(
                    old(self)@.cursor.col as int,
                    old(self)@.cursor.col + count,
                ),
            ),
    {
        proof {
            self.lemma_wf();
            reveal(TerminalModel::erase_here);
            reveal(fills);
        }
        let at: Position = self.cursor();
        self.erase_here(at.col, at.col.saturating_add(count));
    }

    fn set_scroll_region(&mut self, params: &Vec<Vec<u16>>)
        requires
            old(self).wf(),
        ensures
            old(self).becomes(final(self), old(self)@.set_scroll_region(params_view(params@))),
    {
        proof {
            self.lemma_wf();
            reveal(TerminalModel::set_scroll_region);
        }
        let rows: u16 = self.size().rows();
        let top: u16 = param_or(params, 0, 1) - 1;
        let bottom: u16 = if params.len() >= 2 {
            param_or(params, 1, rows) - 1
        } else {
            rows - 1
        };
        if top < bottom && bottom < rows {
            self.set_region(top, bottom);
        } else if params.len() == 0 {
            self.set_region(0, rows - 1);
        }
        proof {
            self.lemma_wf();
        }
        let (min_row, _) = self.origin_bounds();
        self.move_to(min_row, 0);
    }

    fn set_mode(&mut self, params: &Vec<Vec<u16>>, private: bool, enable: bool)
        requires
            old(self).wf(),
        ensures
            old(self).becomes(
                final(self),
                old(self)@.set_modes(flat_params(params_view(params@)), private, enable),
            ),
    {
        let values: Vec<u16> = flatten_params(params);
        let mut i: usize = 0;
        proof {
            assert(values@.take(0) =~= Seq::<u16>::empty());
        }
        while i < values.len()
            invariant
                i <= values@.len(),
                old(self).becomes(
                    self,
                    old(self)@.set_modes(values@.take(i as int), private, enable),
                ),
            decreases values@.len() - i,
        {
            let mode: u16 = values[i];
            if private {
                self.set_private_mode(mode, enable);
            } else if mode == 4 {
                // IRM: insert/replace (ECMA-48).
                let mut modes: TerminalModes = self.modes();
                modes.insert = enable;
                self.put_modes(modes);
            }
            i += 1;
            proof {
                assert(values@.take(i as int).drop_last() =~= values@.take(i - 1));
                assert(values@.take(i as int).last() == mode);
            }
        }
        proof {
            assert(values@.take(i as int) =~= values@);
        }
    }

    #[verifier::spinoff_prover]
    #[verifier::rlimit(30)]
    fn set_private_mode(&mut self, mode: u16, enable: bool)
        requires
            old(self).wf(),
        ensures
            old(self).becomes(final(self), old(self)@.set_private_mode(mode, enable)),
    {
        proof {
            reveal(TerminalModel::set_private_mode);
        }
        let mut modes: TerminalModes = self.modes();
        match mode {
            // DECCKM
            1 => {
                modes.application_cursor = enable;
                self.put_modes(modes);
            },
            // DECOM
            6 => {
                modes.origin = enable;
                self.put_modes(modes);
                self.set_position(1, 1);
            },
            // DECAWM
            7 => {
                modes.autowrap = enable;
                self.put_modes(modes);
            },
            9 => self.set_mouse(MouseReporting::X10, enable),
            // DECTCEM: cursor visible.
            25 => {
                modes.cursor_visible = enable;
                self.put_modes(modes);
            },
            47 | 1047 => self.set_alternate(enable, false),
            // Application keypad.
            66 => {
                modes.application_keypad = enable;
                self.put_modes(modes);
            },
            1000 => self.set_mouse(MouseReporting::Normal, enable),
            1002 => self.set_mouse(MouseReporting::ButtonEvent, enable),
            1003 => self.set_mouse(MouseReporting::AnyEvent, enable),
            1006 => {
                modes.mouse_sgr = enable;
                self.put_modes(modes);
            },
            1049 => self.set_alternate(enable, true),
            // Bracketed paste.
            2004 => {
                modes.bracketed_paste = enable;
                self.put_modes(modes);
            },
            _ => {},
        }
    }

    fn set_mouse(&mut self, style: MouseReporting, enable: bool)
        requires
            old(self).wf(),
        ensures
            old(self).becomes(final(self), old(self)@.set_mouse(style, enable)),
    {
        proof {
            reveal(TerminalModel::set_mouse);
        }
        let mut modes: TerminalModes = self.modes();
        modes.mouse = if enable {
            style
        } else {
            MouseReporting::Off
        };
        self.put_modes(modes);
    }

    fn set_alternate(&mut self, enable: bool, clear_on_enter: bool)
        requires
            old(self).wf(),
        ensures
            old(self).becomes(final(self), old(self)@.set_alternate(enable, clear_on_enter)),
    {
        proof {
            reveal(TerminalModel::set_alternate);
            reveal(TerminalModel::save_cursor);
        }
        if enable {
            if !self.is_on_alternate_screen() {
                self.save_cursor();
                self.show_alternate(true);
            }
            if clear_on_enter {
                let rows: u16 = self.size().rows();
                self.clear_alternate();
                proof {
                    reveal(TerminalModel::clear_alternate);
                }
                self.set_region(0, rows - 1);
                self.move_to(0, 0);
            }
        } else if self.is_on_alternate_screen() {
            self.show_alternate(false);
            self.restore_cursor();
        }
    }

    fn device_status(&mut self, request: u16)
        requires
            old(self).wf(),
        ensures
            old(self).becomes(final(self), old(self)@.report_status(request)),
    {
        proof {
            reveal(TerminalModel::report_status);
        }
        match request {
            // DSR: terminal OK.
            5 => {
                let reply: [u8; 4] = [0x1b, 0x5b, 0x30, 0x6e];
                proof {
                    assert(reply@ =~= status_report());
                }
                self.push_reply(reply.as_slice());
            },
            // CPR: cursor position report.
            6 => {
                let at: Position = self.cursor();
                let mut reply: Vec<u8> = Vec::new();
                reply.push(0x1b);
                reply.push(0x5b);
                push_u32(&mut reply, at.row as u32 + 1);
                reply.push(0x3b);
                push_u32(&mut reply, at.col as u32 + 1);
                reply.push(0x52);
                proof {
                    assert(reply@ =~= cursor_report(self@.cursor));
                }
                self.push_reply(reply.as_slice());
            },
            _ => {},
        }
    }

    /// Answers like a VT102.
    fn primary_da(&mut self)
        requires
            old(self).wf(),
        ensures
            old(self).becomes(final(self), old(self)@.reply(attributes_report())),
    {
        let reply: [u8; 5] = [0x1b, 0x5b, 0x3f, 0x36, 0x63];
        proof {
            assert(reply@ =~= attributes_report());
        }
        self.push_reply(reply.as_slice());
    }

    fn handle_sgr(&mut self, params: &Vec<Vec<u16>>)
        requires
            old(self).wf(),
        ensures
            old(self).becomes(final(self), old(self)@.set_rendition(params_view(params@))),
    {
        proof {
            reveal(TerminalModel::set_rendition);
        }
        let values: Vec<u16> = flatten_params(params);
        if values.len() == 0 {
            self.put_pen(Style::plain());
        } else {
            let pen: Style = apply_sgr(self.style(), &values);
            self.put_pen(pen);
        }
    }

    /// Carries out a control sequence.
    fn handle_csi(&mut self, params: &Vec<Vec<u16>>, intermediates: &Vec<u8>, action: char)
        requires
            old(self).wf(),
        ensures
            old(self).becomes(
                final(self),
                old(self)@.csi(params_view(params@), intermediates@, action),
            ),
    {
        proof {
            reveal(TerminalModel::csi);
        }
        let private = intermediates.len() > 0 && intermediates[0] == 0x3f;
        let n: u16 = param_or(params, 0, 1);
        match action {
            'A' => self.cursor_up(n),
            'B' => self.cursor_down(n),
            'C' => self.cursor_forward(n),
            'D' => self.cursor_backward(n),
            'E' => {
                self.cursor_down(n);
                self.carriage_return();
            },
            'F' => {
                self.cursor_up(n);
                self.carriage_return();
            },
            'G' | '`' => self.set_col(n),
            'H' | 'f' => {
                let col: u16 = param_or(params, 1, 1);
                self.set_position(n, col);
            },
            'd' => self.set_row(n),
            'J' => self.erase_display(param_or(params, 0, 0)),
            'K' => self.erase_line(param_or(params, 0, 0)),
            'L' => self.insert_lines(n),
            'M' => self.delete_lines(n),
            '@' => self.insert_chars(n),
            'P' => self.delete_chars(n),
            'X' => self.erase_chars(n),
            'S' => self.scroll_up_screen(n),
            'T' => self.scroll_down_screen(n),
            'r' => {
                if !private {
                    self.set_scroll_region(params);
                }
            },
            'm' => {
                if !private {
                    self.handle_sgr(params);
                }
            },
            'h' => self.set_mode(params, private, true),
            'l' => self.set_mode(params, private, false),
            'n' => {
                if !private {
                    self.device_status(param_or(params, 0, 0));
                }
            },
            'c' => {
                if !private {
                    self.primary_da();
                }
            },
            's' => {
                if !private {
                    self.save_cursor();
                }
            },
            'u' => {
                if !private {
                    self.restore_cursor();
                }
            },
            _ => {},
        }
    }
}

/// Returns the style after a list of SGR values.
fn apply_sgr(pen: Style, values: &Vec<u16>) -> (style: Style)
    ensures
        style == sgr(pen, values@),
{
    let mut style: Style = pen;
    let mut i: usize = 0;
    proof {
        assert(values@.skip(0) =~= values@);
    }
    while i < values.len()
        invariant
            i <= values@.len(),
            sgr(style, values@.skip(i as int)) == sgr(pen, values@),
        decreases values@.len() - i,
    {
        let value: u16 = values[i];
        let ghost here = values@.skip(i as int);
        proof {
            assert(here.skip(1) =~= values@.skip(i + 1));
        }
        if value == 38 || value == 48 {
            let rest: &[u16] = vstd::slice::slice_subrange(
                values.as_slice(),
                i + 1,
                values.len(),
            );
            proof {
                assert(rest@ =~= here.skip(1));
            }
            match parse_extended_color(rest) {
                Some((color, consumed)) => {
                    proof {
                        assert(here.skip(1).skip(consumed as int) =~= values@.skip(
                            i + 1 + consumed,
                        ));
                    }
                    if value == 38 {
                        style.foreground = color;
                    } else {
                        style.background = color;
                    }
                    i += consumed;
                },
                None => {},
            }
        } else {
            style = apply_sgr_value(style, value);
        }
        i += 1;
    }
    style
}

/// Returns the style after an SGR value that stands alone.
fn apply_sgr_value(pen: Style, value: u16) -> (style: Style)
    ensures
        style == crate::terminal_model::sgr_value(pen, value),
{
    let mut style: Style = pen;
    match value {
        0 => style = Style::plain(),
        1 => style.bold = true,
        3 => style.italic = true,
        4 => style.underline = true,
        7 => style.reverse = true,
        22 => style.bold = false,
        23 => style.italic = false,
        24 => style.underline = false,
        27 => style.reverse = false,
        30..=37 => style.foreground = Color::Indexed((value - 30) as u8),
        39 => style.foreground = Color::Default,
        40..=47 => style.background = Color::Indexed((value - 40) as u8),
        49 => style.background = Color::Default,
        90..=97 => style.foreground = Color::Indexed((value - 90 + 8) as u8),
        100..=107 => style.background = Color::Indexed((value - 100 + 8) as u8),
        _ => {},
    }
    style
}

/// Returns the color that follows an SGR 38 or 48, and how many values it
/// takes up.
fn parse_extended_color(values: &[u16]) -> (color: Option<(Color, usize)>)
    ensures
        match color {
            Some((color, consumed)) => extended_color(values@) == Some((color, consumed as int))
                && consumed <= values@.len(),
            None => extended_color(values@) is None,
        },
{
    if values.len() >= 2 && values[0] == 5 && values[1] < 256 {
        Some((Color::Indexed(values[1] as u8), 2))
    } else if values.len() >= 4 && values[0] == 2 && values[1] < 256 && values[2] < 256 && values[3]
        < 256 {
        Some((Color::Rgb(values[1] as u8, values[2] as u8, values[3] as u8), 4))
    } else {
        None
    }
}

/// Returns the parameter at `index`, or `default` where it is absent or zero.
fn param_or(params: &Vec<Vec<u16>>, index: usize, default: u16) -> (value: u16)
    ensures
        value == param(params_view(params@), index as int, default),
{
    if index < params.len() {
        let subparams: &Vec<u16> = &params[index];
        proof {
            assert(params_view(params@)[index as int] == subparams@);
        }
        if subparams.len() > 0 && subparams[0] != 0 {
            return subparams[0];
        }
    }
    default
}

/// Returns all parameters and subparameters in one list.
///
/// Colon subparameters (such as `38:2:r:g:b`) are flattened so both semicolon
/// and colon SGR color forms work.
fn flatten_params(params: &Vec<Vec<u16>>) -> (values: Vec<u16>)
    ensures
        values@ == flat_params(params_view(params@)),
{
    let ghost all = params_view(params@);
    let mut values: Vec<u16> = Vec::new();
    let mut i: usize = 0;
    proof {
        assert(all.take(0) =~= Seq::<Seq<u16>>::empty());
        assert(values@ =~= flat_params(all.take(0)));
    }
    while i < params.len()
        invariant
            i <= params@.len(),
            all == params_view(params@),
            values@ == flat_params(all.take(i as int)),
        decreases params@.len() - i,
    {
        let subparams: &Vec<u16> = &params[i];
        let ghost before = values@;
        if subparams.len() == 0 {
            values.push(0);
            proof {
                assert(values@ =~= before + seq![0u16]);
            }
        } else {
            values.extend_from_slice(subparams.as_slice());
            proof {
                assert(values@ =~= before + subparams@);
            }
        }
        i += 1;
        proof {
            assert(all.take(i as int).drop_last() =~= all.take(i - 1));
            assert(all.take(i as int).last() == subparams@);
        }
    }
    proof {
        assert(all.take(i as int) =~= all);
    }
    values
}

} // verus!
