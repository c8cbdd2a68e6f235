//! I/O-free terminal emulator state.
//!
//! [`TerminalState`] accepts PTY output through [`TerminalState::feed()`] and
//! updates cells, styles, cursor, and modes. Query replies are held until the
//! caller reads them with [`TerminalState::pending_reply_bytes()`]; this type
//! never writes to a file descriptor.
//!
//! # Supported sequences
//!
//! - C0: BEL (ignored), BS, HT, LF, VT, FF, CR
//! - ESC: IND (`D`), NEL (`E`), RI (`M`), DECSC/DECRC (`7`/`8`), RIS (`c`)
//! - CSI cursor: CUU/CUD/CUF/CUB, CNL/CPL, CHA/HPA, VPA, CUP/HVP
//! - CSI edit: ICH, DCH, IL, DL, ED, EL, ECH, SU, SD
//! - CSI scroll region: DECSTBM
//! - CSI modes: SM/RM including the DEC private modes listed on
//!   [`TerminalModes`]
//! - CSI SGR (`m`): reset, bold, italic, underline, reverse, 16/256/24-bit
//!   color
//! - CSI queries: DSR, CPR, primary DA
//! - OSC 0/2: window title (stored); other OSC ignored without becoming text
//! - Alternate screen: DECSET/DECRST 1049 (also 47 / 1047)
//!
//! Sixel, Kitty graphics, iTerm2 image protocols, and DCS application payloads
//! are ignored by the tokenizer without corrupting subsequent text.
//!
//! # Unicode policy
//!
//! - Display width uses the `unicode-width` crate (UAX #11).
//! - Width 1 and 2 characters are placed on the active screen.
//! - Width 0 characters (for example combining marks) are ignored.
//! - Invalid UTF-8 becomes U+FFFD (width 1), via the `vte` tokenizer.

use std::collections::VecDeque;

use vstd::prelude::*;

use crate::size::Size;
use crate::snapshot::{
    copy_rows, lines_view, row_slices, rows_view, same_cells, TerminalLine, TerminalSnapshot,
};
use crate::terminal_buffer::{draw_glyph, fills, Screen};
use crate::terminal_laws::one_sequence_one_reply;
use crate::terminal_model::{action_bytes, least, narrow, pieces, TerminalModel};
use crate::terminal_scrollback::{
    cell_total, lemma_cell_total_bound, lemma_cell_total_concat, trim_scrollback, trimmed,
    trimming_keeps_the_newest,
};
use crate::terminal_types::{
    Cell, Position, SavedCursor, Style, TerminalAction, TerminalModes,
};
use crate::tokenizer::{advance, new_parser, parser_after, tokens_view, Token};

verus! {

/// Bytes produced by the emulator that the caller still owes the PTY master.
///
/// Replies are appended in one piece, so the pending bytes never end in a
/// partial escape sequence. Advancing a prefix just moves `offset`, and
/// draining the last byte empties the buffer so a long run of small replies
/// does not grow it without bound.
#[derive(Debug)]
pub(crate) struct ReplyBuf {
    bytes: Vec<u8>,
    offset: usize,
}

impl ReplyBuf {
    /// The bytes that were produced but not yet consumed.
    pub(crate) closed spec fn view(&self) -> Seq<u8> {
        self.bytes@.skip(self.offset as int)
    }

    /// The consumed prefix is part of the buffer.
    pub(crate) closed spec fn wf(&self) -> bool {
        self.offset <= self.bytes@.len()
    }

    fn new() -> (buf: ReplyBuf)
        ensures
            buf.wf(),
            buf@ == Seq::<u8>::empty(),
    {
        let buf = ReplyBuf { bytes: Vec::new(), offset: 0 };
        proof {
            assert(buf@ =~= Seq::<u8>::empty());
        }
        buf
    }

    /// Bytes produced but not yet consumed.
    pub(crate) fn pending(&self) -> (bytes: &[u8])
        requires
            self.wf(),
        ensures
            bytes@ == self@,
    {
        vstd::slice::slice_subrange(self.bytes.as_slice(), self.offset, self.bytes.len())
    }

    /// Appends a reply.
    pub(crate) fn push(&mut self, bytes: &[u8])
        requires
            old(self).wf(),
        ensures
            final(self).wf(),
            final(self)@ == old(self)@ + bytes@,
    {
        let ghost before = self@;
        self.bytes.extend_from_slice(bytes);
        proof {
            assert(self@ =~= before + bytes@);
        }
    }

    /// Marks `n` bytes consumed, emptying the buffer when fully drained.
    pub(crate) fn advance(&mut self, n: usize)
        requires
            old(self).wf(),
            n <= old(self)@.len(),
        ensures
            final(self).wf(),
            final(self)@ == old(self)@.skip(n as int),
    {
        let ghost before = self@;
        let len: usize = self.bytes.len();
        self.offset += n;
        if self.offset == len {
            self.bytes.clear();
            self.offset = 0;
        }
        proof {
            assert(self@ =~= before.skip(n as int));
        }
    }
}

/// Returns one action for each reply.
fn split_replies(bytes: &[u8]) -> (actions: Vec<TerminalAction>)
    ensures
        action_bytes(actions@) == pieces(bytes@),
{
    let mut actions: Vec<TerminalAction> = Vec::new();
    let mut current: Vec<u8> = Vec::new();
    let len: usize = bytes.len();
    let mut i: usize = 0;
    proof {
        assert(action_bytes(actions@) =~= pieces(bytes@.take(0)));
    }
    while i < len
        invariant
            i <= len,
            len == bytes@.len(),
            current@.len() == 0 <==> i == 0,
            i == 0 ==> actions@.len() == 0,
            pieces(bytes@.take(i as int)) == if i == 0 {
                action_bytes(actions@)
            } else {
                action_bytes(actions@).push(current@)
            },
        decreases len - i,
    {
        let byte: u8 = bytes[i];
        let ghost front = bytes@.take(i as int);
        let ghost before = action_bytes(actions@);
        let ghost held = current@;
        if byte == 0x1b && current.len() > 0 {
            actions.push(TerminalAction::WritePty(current));
            current = Vec::new();
            proof {
                assert(action_bytes(actions@) =~= before.push(held));
            }
        }
        current.push(byte);
        i += 1;
        proof {
            let now = bytes@.take(i as int);
            assert(now.drop_last() =~= front);
            assert(now.last() == byte);
            assert(before.push(held).drop_last() =~= before);
            assert(Seq::<u8>::empty().push(byte) =~= seq![byte]);
            assert(held.len() == 0 ==> held =~= Seq::<u8>::empty());
            assert(pieces(now) =~= action_bytes(actions@).push(current@));
        }
    }
    proof {
        assert(bytes@.take(len as int) =~= bytes@);
    }
    if current.len() > 0 {
        let ghost before = action_bytes(actions@);
        let ghost held = current@;
        actions.push(TerminalAction::WritePty(current));
        proof {
            assert(action_bytes(actions@) =~= before.push(held));
        }
    }
    actions
}

/// Primary terminal emulator state (no I/O).
///
/// Feed PTY bytes with [`feed()`](TerminalState::feed), then read the screen
/// grid through [`rows()`](TerminalState::rows) and the retained history with
/// [`scrollback_lines()`](TerminalState::scrollback_lines). Query replies are
/// held in a buffer the caller reads with
/// [`pending_reply_bytes()`](TerminalState::pending_reply_bytes) and releases
/// with [`advance_reply_bytes()`](TerminalState::advance_reply_bytes), so this
/// type never touches a file descriptor.
pub struct TerminalState {
    parser: vte::Parser,
    fed: Ghost<Seq<u8>>,
    size: Size,
    primary: Screen,
    alternate: Screen,
    on_alternate: bool,
    cursor: Position,
    saved: SavedCursor,
    wrap_pending: bool,
    pen: Style,
    modes: TerminalModes,
    title: String,
    scroll_top: u16,
    scroll_bottom: u16,
    replies: ReplyBuf,
    scrollback: VecDeque<TerminalLine>,
    scrollback_cells: u128,
    revision: u64,
    touched: bool,
}

/// The `Copy` fields of [`TerminalState`] that count as part of the visible
/// state and are cheap to compare across a single `feed`.
///
/// The scroll region is deliberately absent: setting it changes how later
/// scrolls behave, but nothing is drawn until such a scroll happens.
#[derive(Clone, Copy, PartialEq, Eq, Structural)]
pub(crate) struct VisibleScalars {
    size: Size,
    on_alternate: bool,
    cursor: Position,
    wrap_pending: bool,
    pen: Style,
    modes: TerminalModes,
}

impl TerminalState {
    /// The model of this state.
    pub closed spec fn view(&self) -> TerminalModel {
        TerminalModel {
            fed: self.fed@,
            size: self.size,
            primary: self.primary@,
            alternate: self.alternate@,
            on_alternate: self.on_alternate,
            cursor: self.cursor,
            saved: self.saved,
            wrap_pending: self.wrap_pending,
            pen: self.pen,
            modes: self.modes,
            title: self.title@,
            scroll_top: self.scroll_top,
            scroll_bottom: self.scroll_bottom,
            replies: self.replies@,
            scrollback: lines_view(self.scrollback@),
            touched: self.touched,
        }
    }

    /// The revision counter.
    pub closed spec fn spec_revision(&self) -> u64 {
        self.revision
    }

    /// The model is well-formed, and the fields that it leaves out agree with
    /// it.
    pub closed spec fn wf(&self) -> bool {
        &&& self@.wf()
        &&& self.primary.wf()
        &&& self.primary.spec_size() == self.size
        &&& self.alternate.wf()
        &&& self.alternate.spec_size() == self.size
        &&& self.replies.wf()
        &&& self.scrollback_cells == cell_total(self@.scrollback)
        &&& self.parser == parser_after(self.fed@)
    }

    /// `after` is this state moved on to `model`, with the same revision.
    pub open spec fn becomes(&self, after: &TerminalState, model: TerminalModel) -> bool {
        &&& after.wf()
        &&& after@ == model
        &&& after.spec_revision() == self.spec_revision()
    }

    /// Creates a blank primary-screen state of `size`.
    ///
    /// Rows and columns are non-zero by construction of [`Size`].
    pub fn new(size: Size) -> (state: TerminalState)
        ensures
            state.wf(),
            state@ == TerminalModel::initial(size),
            state.spec_revision() == 0,
    {
        let rows: u16 = size.rows();
        let state = TerminalState {
            parser: new_parser(),
            fed: Ghost(Seq::empty()),
            size,
            primary: Screen::blank(size),
            alternate: Screen::blank(size),
            on_alternate: false,
            cursor: Position::origin(),
            saved: SavedCursor::default(),
            wrap_pending: false,
            pen: Style::plain(),
            modes: TerminalModes::default(),
            title: String::new(),
            scroll_top: 0,
            scroll_bottom: rows - 1,
            replies: ReplyBuf::new(),
            scrollback: VecDeque::new(),
            scrollback_cells: 0,
            revision: 0,
            touched: false,
        };
        proof {
            reveal(narrow);
            reveal(fills);
            assert(state@.title =~= Seq::<char>::empty());
            assert(state@.scrollback =~= Seq::<Seq<Cell>>::empty());
        }
        state
    }

    /// Returns a counter that increments whenever the visible state changes.
    ///
    /// The visible state is the active screen's cells and styles, the cursor,
    /// the current drawing style (SGR pen), display-related modes (including
    /// cursor visibility, autowrap, mouse reporting, and alternate-screen
    /// selection), the screen size, and the window title. It deliberately
    /// excludes parser-internal progress (a partial sequence), scrollback-only
    /// changes, and undrained replies.
    ///
    /// The guarantee is one-directional. An unchanged counter means the visible
    /// state is certainly unchanged, but an advanced counter only means that
    /// some write reached the screen, not that anything on it differs: writing
    /// a cell the value it already held still counts as a write. It wraps on
    /// overflow, which is unreachable in practice.
    pub fn revision(&self) -> (revision: u64)
        ensures
            revision == self.spec_revision(),
    {
        self.revision
    }

    /// Returns the cheap, `Copy` fields that make up part of the visible state.
    fn visible_scalars(&self) -> (scalars: VisibleScalars)
        ensures
            scalars == (VisibleScalars {
                size: self.size,
                on_alternate: self.on_alternate,
                cursor: self.cursor,
                wrap_pending: self.wrap_pending,
                pen: self.pen,
                modes: self.modes,
            }),
    {
        VisibleScalars {
            size: self.size,
            on_alternate: self.on_alternate,
            cursor: self.cursor,
            wrap_pending: self.wrap_pending,
            pen: self.pen,
            modes: self.modes,
        }
    }

    /// Ends a visible operation that began with the fields in `before`: moves
    /// the revision on if something may be seen of it.
    fn settle(&mut self, before: VisibleScalars)
        requires
            old(self).wf(),
        ensures
            final(self).wf(),
            final(self)@ == old(self)@.untouched(),
            final(self).revision == if old(self).touched || before != (VisibleScalars {
                size: old(self).size,
                on_alternate: old(self).on_alternate,
                cursor: old(self).cursor,
                wrap_pending: old(self).wrap_pending,
                pen: old(self).pen,
                modes: old(self).modes,
            }) {
                old(self).revision.wrapping_add(1)
            } else {
                old(self).revision
            },
    {
        let changed = self.touched || self.visible_scalars() != before;
        if changed {
            self.revision = self.revision.wrapping_add(1);
        }
        self.touched = false;
    }

    /// Feeds output bytes into the emulator.
    ///
    /// Bytes may end mid-sequence or mid-UTF-8 code unit; state is kept until
    /// a later `feed` completes the sequence. Query replies are appended to the
    /// reply buffer; read them with
    /// [`TerminalState::pending_reply_bytes()`] and report what you wrote with
    /// [`TerminalState::advance_reply_bytes()`].
    ///
    /// One `feed` bumps [`revision()`](TerminalState::revision) at most once,
    /// no matter how many cells changed within it.
    pub fn feed(&mut self, bytes: &[u8])
        requires
            old(self).wf(),
        ensures
            final(self).wf(),
            final(self)@ == old(self)@.feed(bytes@),
            old(self)@.replies.is_prefix_of(final(self)@.replies),
            final(self)@.replies.len() <= old(self)@.replies.len() + 14 * bytes@.len(),
            final(self).spec_revision() == if old(self)@.feed_shows(bytes@) {
                old(self).spec_revision().wrapping_add(1)
            } else {
                old(self).spec_revision()
            },
    {
        let before = self.visible_scalars();
        self.touched = false;
        feed_bytes(self, bytes);
        self.settle(before);
    }

    /// Carries out tokens of the byte stream that were split off elsewhere.
    ///
    /// It bumps [`revision()`](TerminalState::revision) as a `feed` does.
    pub fn perform(&mut self, tokens: &[Token])
        requires
            old(self).wf(),
        ensures
            final(self).wf(),
            final(self)@ == old(self)@.untouched().perform_all(tokens_view(tokens@)).untouched(),
            final(self).spec_revision() == if old(self)@.tokens_show(tokens_view(tokens@)) {
                old(self).spec_revision().wrapping_add(1)
            } else {
                old(self).spec_revision()
            },
    {
        let before = self.visible_scalars();
        self.touched = false;
        self.perform_tokens(tokens);
        self.settle(before);
    }

    /// Draws a character that takes up `width` columns at the cursor.
    ///
    /// A character without a width, or of width 0, is ignored. No character is
    /// wider than 2.
    pub fn print(&mut self, ch: char, width: Option<usize>)
        requires
            old(self).wf(),
            width matches Some(columns) ==> columns <= 2,
        ensures
            final(self).wf(),
            final(self)@ == old(self)@.untouched().print(ch, width).untouched(),
            final(self).spec_revision() == if old(self)@.print_shows(ch, width) {
                old(self).spec_revision().wrapping_add(1)
            } else {
                old(self).spec_revision()
            },
    {
        let before = self.visible_scalars();
        self.touched = false;
        self.print_glyph(ch, width);
        self.settle(before);
    }

    /// Returns the bytes the emulator has produced in response to queries, if
    /// any.
    ///
    /// These are replies to queries the terminal was sent (DSR, CPR, primary
    /// DA). Whenever the slice is non-empty the caller should write it and then
    /// report how much it wrote with
    /// [`advance_reply_bytes()`](TerminalState::advance_reply_bytes). Bytes
    /// stay in the buffer until advanced past.
    pub fn pending_reply_bytes(&self) -> (bytes: &[u8])
        requires
            self.wf(),
        ensures
            bytes@ == self@.replies,
    {
        self.replies.pending()
    }

    /// Marks `n` bytes of
    /// [`pending_reply_bytes()`](TerminalState::pending_reply_bytes) as written
    /// to the PTY master. No more may be marked than are pending.
    pub fn advance_reply_bytes(&mut self, n: usize)
        requires
            old(self).wf(),
            n <= old(self)@.replies.len(),
        ensures
            final(self).wf(),
            final(self)@ == (TerminalModel {
                replies: old(self)@.replies.skip(n as int),
                ..old(self)@
            }),
            final(self).spec_revision() == old(self).spec_revision(),
    {
        self.replies.advance(n);
    }

    /// Takes the pending replies as actions for the caller to apply, one for
    /// each reply, in order. What is left of a reply that was consumed in part
    /// is an action of its own.
    pub fn drain_actions(&mut self) -> (actions: Vec<TerminalAction>)
        requires
            old(self).wf(),
        ensures
            final(self).wf(),
            final(self)@ == (TerminalModel { replies: Seq::empty(), ..old(self)@ }),
            final(self).spec_revision() == old(self).spec_revision(),
            action_bytes(actions@) == pieces(old(self)@.replies),
    {
        let actions: Vec<TerminalAction> = split_replies(self.replies.pending());
        let len: usize = self.replies.pending().len();
        self.replies.advance(len);
        proof {
            assert(self@.replies =~= Seq::<u8>::empty());
        }
        actions
    }

    /// Returns the current screen size.
    pub fn size(&self) -> (size: Size)
        ensures
            size == self@.size,
    {
        self.size
    }

    /// Returns the current cursor position.
    pub fn cursor(&self) -> (cursor: Position)
        ensures
            cursor == self@.cursor,
    {
        self.cursor
    }

    /// Returns the cell at `at` on the active screen, if in range.
    pub fn cell(&self, at: Position) -> (cell: Option<Cell>)
        requires
            self.wf(),
        ensures
            cell == if at.row < self@.rows() && at.col < self@.cols() {
                Some(self@.active()[at.row as int][at.col as int])
            } else {
                None
            },
    {
        self.active().get(at)
    }

    /// Returns each visible row as a left-to-right cell slice, top to bottom.
    ///
    /// The number of rows and the length of every slice are those of the
    /// current size. Unlike the cells saved into scrollback, the visible rows
    /// are re-laid out by [`TerminalState::resize()`].
    pub fn rows(&self) -> (rows: Vec<&[Cell]>)
        requires
            self.wf(),
        ensures
            rows@.len() == self@.rows(),
            forall|i: int|
                0 <= i < rows@.len() ==> (#[trigger] rows@[i])@ == self@.active()[i]
                    && rows@[i]@.len() == self@.cols(),
    {
        proof {
            reveal(fills);
        }
        row_slices(self.active().rows())
    }

    /// Returns the visible row at `row` as a cell slice, if in range.
    pub fn row(&self, row: u16) -> (cells: Option<&[Cell]>)
        requires
            self.wf(),
        ensures
            cells is Some <==> row < self@.rows(),
            cells matches Some(cells) ==> cells@ == self@.active()[row as int],
    {
        proof {
            reveal(fills);
        }
        if row >= self.size.rows() {
            return None;
        }
        Some(self.active().rows()[row as usize].as_slice())
    }

    /// Returns a copy of the current terminal modes.
    pub fn modes(&self) -> (modes: TerminalModes)
        ensures
            modes == self@.modes,
    {
        self.modes
    }

    /// Returns whether the alternate screen buffer is active.
    pub fn is_on_alternate_screen(&self) -> (on_alternate: bool)
        ensures
            on_alternate == self@.on_alternate,
    {
        self.on_alternate
    }

    /// Returns the OSC window title last set by OSC 0 or OSC 2.
    pub fn title(&self) -> (title: &str)
        ensures
            title@ == self@.title,
    {
        self.title.as_str()
    }

    /// Returns the current drawing style (SGR pen).
    pub fn style(&self) -> (style: Style)
        ensures
            style == self@.pen,
    {
        self.pen
    }

    /// Returns the retained scrollback lines, oldest-first.
    ///
    /// The lines are borrowed, not copied, and each keeps the width it had
    /// when it was saved; unlike the visible rows from
    /// [`TerminalState::rows()`], they are never reflowed by a later resize.
    pub fn scrollback_lines(&self) -> (lines: &VecDeque<TerminalLine>)
        ensures
            lines_view(lines@) == self@.scrollback,
    {
        &self.scrollback
    }

    /// Returns the number of retained scrollback lines.
    pub fn scrollback_len(&self) -> (len: usize)
        ensures
            len == self@.scrollback.len(),
    {
        self.scrollback.len()
    }

    /// Removes the oldest scrollback lines until both limits hold.
    ///
    /// Lines are removed whole, oldest first; the newest content is kept.
    /// If either limit is zero the entire history is cleared. The specified
    /// amounts are not a hard cap: history grows past them until this is
    /// called.
    pub fn trim_scrollback(&mut self, max_lines: usize, max_cells: usize)
        requires
            old(self).wf(),
        ensures
            final(self).wf(),
            final(self)@ == (TerminalModel {
                scrollback: trimmed(old(self)@.scrollback, max_lines as nat, max_cells as nat),
                ..old(self)@
            }),
            final(self).spec_revision() == old(self).spec_revision(),
    {
        proof {
            reveal(narrow);
            trimming_keeps_the_newest(self@.scrollback, max_lines as nat, max_cells as nat);
        }
        trim_scrollback(&mut self.scrollback, &mut self.scrollback_cells, max_lines, max_cells);
    }

    /// Returns the number of retained scrollback cells, including blank and
    /// wide-character continuation cells. A number too large to return is
    /// given as the largest that can be.
    pub fn scrollback_cells(&self) -> (cells: usize)
        requires
            self.wf(),
        ensures
            cells == if cell_total(self@.scrollback) <= usize::MAX {
                cell_total(self@.scrollback) as usize
            } else {
                usize::MAX
            },
    {
        if self.scrollback_cells <= usize::MAX as u128 {
            self.scrollback_cells as usize
        } else {
            usize::MAX
        }
    }

    /// Resizes both primary and alternate screens.
    ///
    /// Existing contents are copied into the overlapping region. Broken wide
    /// characters at the new right edge are cleared. The cursor and the
    /// scroll region are clamped into the new bounds. A scroll region that
    /// is the whole screen stays the whole screen, and one of which fewer
    /// than two rows are left becomes the whole screen.
    ///
    /// The visible grid reflows to the new size; the scrollback does not. Each
    /// retained line keeps the width it had when it was scrolled off.
    pub fn resize(&mut self, size: Size)
        requires
            old(self).wf(),
        ensures
            final(self).wf(),
            final(self)@ == old(self)@.resize(size),
            final(self).spec_revision() == if size == old(self)@.size {
                old(self).spec_revision()
            } else {
                old(self).spec_revision().wrapping_add(1)
            },
    {
        if size == self.size {
            return ;
        }
        self.fit(size);
        self.repair_cursor_cell();
        self.revision = self.revision.wrapping_add(1);
    }

    /// Brings the screens, the cursor and the scroll region to another size.
    fn fit(&mut self, size: Size)
        requires
            old(self).wf(),
            size != old(self)@.size,
        ensures
            old(self).becomes(final(self), old(self)@.fit(size)),
    {
        proof {
            reveal(TerminalModel::fit);
        }
        let rows: u16 = size.rows();
        let cols: u16 = size.cols();
        let region: (u16, u16) = self.clamped_region(rows);
        self.primary.resize(size);
        self.alternate.resize(size);
        self.size = size;
        self.scroll_top = region.0;
        self.scroll_bottom = region.1;
        let at: Position = self.cursor;
        self.cursor = Position {
            row: if at.row < rows {
                at.row
            } else {
                rows - 1
            },
            col: if at.col < cols {
                at.col
            } else {
                cols - 1
            },
        };
        self.wrap_pending = false;
    }

    /// Returns the first and the last row of the scroll region on a screen of
    /// another number of rows.
    fn clamped_region(&self, rows: u16) -> (region: (u16, u16))
        requires
            self.wf(),
            rows > 0,
        ensures
            region == self@.clamped_region(rows as int),
    {
        let last: u16 = rows - 1;
        let top: u16 = if self.scroll_top < last {
            self.scroll_top
        } else {
            last
        };
        let bottom: u16 = if self.scroll_bottom < last {
            self.scroll_bottom
        } else {
            last
        };
        let whole = self.scroll_top == 0 && self.scroll_bottom == self.size.rows() - 1;
        if whole || top >= bottom {
            (0, last)
        } else {
            (top, bottom)
        }
    }

    /// Returns whether two emulators are in the same state: the screens, the
    /// cursor, what was saved, the modes, the title, the scroll region, the
    /// history and the pending replies. What the tokenizer has in hand is not
    /// compared, nor is the revision.
    pub fn same_state(&self, other: &TerminalState) -> (same: bool)
        requires
            self.wf(),
            other.wf(),
        ensures
            same == (self@ == (TerminalModel {
                fed: self@.fed,
                touched: self@.touched,
                ..other@
            })),
    {
        let same_screens = self.primary.same(&other.primary) && self.alternate.same(
            &other.alternate,
        );
        let same_scalars = self.size == other.size && self.on_alternate == other.on_alternate
            && self.cursor == other.cursor && self.saved == other.saved && self.wrap_pending
            == other.wrap_pending && self.pen == other.pen && self.modes == other.modes
            && self.scroll_top == other.scroll_top && self.scroll_bottom == other.scroll_bottom;
        same_screens && same_scalars && self.title == other.title && same_bytes(
            self.replies.pending(),
            other.replies.pending(),
        ) && self.same_history(other)
    }

    /// Returns whether two emulators have the same history.
    fn same_history(&self, other: &TerminalState) -> (same: bool)
        ensures
            same == (self@.scrollback == other@.scrollback),
    {
        if self.scrollback.len() != other.scrollback.len() {
            proof {
                assert(self@.scrollback.len() != other@.scrollback.len());
            }
            return false;
        }
        let mut i: usize = 0;
        while i < self.scrollback.len()
            invariant
                i <= self.scrollback@.len(),
                self.scrollback@.len() == other.scrollback@.len(),
                forall|k: int|
                    0 <= k < i ==> #[trigger] self@.scrollback[k] == other@.scrollback[k],
            decreases self.scrollback@.len() - i,
        {
            if !same_cells(self.scrollback[i].cells(), other.scrollback[i].cells()) {
                proof {
                    assert(self@.scrollback[i as int] != other@.scrollback[i as int]);
                }
                return false;
            }
            i += 1;
        }
        proof {
            assert(self@.scrollback =~= other@.scrollback);
        }
        true
    }

    /// Copies the visible state and the scrollback.
    pub fn snapshot(&self) -> (snapshot: TerminalSnapshot)
        requires
            self.wf(),
        ensures
            snapshot.wf(),
            snapshot@ == self@.content(),
            snapshot.spec_revision() == self.spec_revision(),
    {
        proof {
            reveal(fills);
        }
        let rows: Vec<Vec<Cell>> = copy_rows(self.active().rows());
        let mut lines: Vec<TerminalLine> = Vec::with_capacity(self.scrollback.len());
        let mut i: usize = 0;
        while i < self.scrollback.len()
            invariant
                i <= self.scrollback@.len(),
                lines@.len() == i,
                forall|k: int| 0 <= k < i ==> (#[trigger] lines@[k])@ == self.scrollback@[k]@,
            decreases self.scrollback@.len() - i,
        {
            lines.push(self.scrollback[i].copy());
            i += 1;
        }
        proof {
            assert(lines_view(lines@) =~= self@.scrollback);
            assert(rows_view(rows@) =~= self@.active());
        }
        TerminalSnapshot::new(
            self.size,
            rows,
            self.cursor,
            self.modes,
            self.pen,
            self.title.clone(),
            self.on_alternate,
            lines,
            self.revision,
        )
    }

    fn active(&self) -> (screen: &Screen)
        requires
            self.wf(),
        ensures
            screen.wf(),
            screen@ == self@.active(),
            screen.spec_size() == self.size,
    {
        if self.on_alternate {
            &self.alternate
        } else {
            &self.primary
        }
    }

    fn active_mut(&mut self) -> (screen: &mut Screen)
        requires
            old(self).wf(),
        ensures
            screen.wf(),
            screen@ == old(self)@.active(),
            screen.spec_size() == old(self).size,
            *final(self) == if old(self).on_alternate {
                TerminalState { alternate: *final(screen), ..*old(self) }
            } else {
                TerminalState { primary: *final(screen), ..*old(self) }
            },
    {
        if self.on_alternate {
            &mut self.alternate
        } else {
            &mut self.primary
        }
    }

    /// Scrolls the active screen up by `count` rows.
    ///
    /// A full-screen scroll on the primary screen pushes the displaced rows
    /// into scrollback (top-to-bottom); partial regions, scroll-downs, line
    /// edits, and the alternate screen never do. History grows without a
    /// built-in bound; the caller trims it with [`Self::trim_scrollback()`].
    pub(crate) fn scroll_up_screen(&mut self, count: u16)
        requires
            old(self).wf(),
        ensures
            old(self).becomes(final(self), old(self)@.scroll_up(count as int)),
    {
        proof {
            reveal(TerminalModel::scroll_up);
            reveal(fills);
        }
        let top: u16 = self.scroll_top;
        let bottom: u16 = self.scroll_bottom;
        let full_screen = top == 0 && bottom + 1 == self.size.rows();
        let style: Style = self.pen;
        let ghost before = self@;
        let mut displaced: Vec<Vec<Cell>> = self.active_mut().scroll_up(count, top, bottom, style);
        self.touched = true;
        if full_screen && !self.on_alternate {
            let ghost after = before.scroll_up(count as int);
            let ghost gone = before.primary.subrange(
                0,
                least(count as int, before.rows()),
            );
            proof {
                assert(rows_view(displaced@) =~= gone);
                assert(before.scrollback + gone.take(0) =~= before.scrollback);
                assert(gone.skip(0) =~= gone);
            }
            let ghost mut taken: int = 0;
            while displaced.len() > 0
                invariant
                    self.wf(),
                    self.revision == old(self).revision,
                    0 <= taken <= gone.len(),
                    rows_view(displaced@) == gone.skip(taken),
                    forall|k: int| 0 <= k < gone.len() ==> (#[trigger] gone[k]).len() <= u16::MAX,
                    after.scrollback == before.scrollback + gone,
                    self@ == (TerminalModel {
                        scrollback: before.scrollback + gone.take(taken),
                        ..after
                    }),
                decreases displaced@.len(),
            {
                let ghost rest = displaced@;
                let lines: usize = self.scrollback.len();
                let row: Vec<Cell> = displaced.remove(0);
                let line = TerminalLine::new(row);
                let ghost kept = self@.scrollback;
                proof {
                    reveal(narrow);
                    assert(rows_view(rest).len() == gone.skip(taken).len());
                    assert(rows_view(rest)[0] == gone.skip(taken)[0]);
                    assert forall|k: int| 0 <= k < displaced@.len() implies rows_view(displaced@)[k]
                        == #[trigger] gone.skip(taken + 1)[k] by {
                        assert(rows_view(rest)[k + 1] == gone.skip(taken)[k + 1]);
                    }
                    assert(line@ == gone[taken]);
                    assert(rows_view(displaced@) =~= gone.skip(taken + 1));
                    assert(gone.take(taken + 1) =~= gone.take(taken).push(
                        gone[taken],
                    ));
                    lemma_cell_total_bound(kept, u16::MAX as nat);
                    assert(kept.len() == lines);
                    assert(kept.len() * 65535 <= 0xffff_ffff_ffff_ffff * 65535);
                    lemma_cell_total_concat(kept, seq![line@]);
                    assert(seq![line@].drop_last() =~= Seq::<Seq<Cell>>::empty());
                    assert(cell_total(seq![line@].drop_last()) == 0);
                }
                self.scrollback_cells = self.scrollback_cells + line.len() as u128;
                self.scrollback.push_back(line);
                proof {
                    taken = taken + 1;
                    assert(self@.scrollback =~= kept + seq![line@]);
                    assert(self@.scrollback =~= before.scrollback + gone.take(taken));
                }
            }
            proof {
                assert(rows_view(displaced@).len() == 0);
                assert(gone.take(taken) =~= gone);
            }
        }
    }

    /// Returns whether the next glyph wraps to the next line first.
    pub(crate) fn wrap_pending(&self) -> (pending: bool)
        ensures
            pending == self@.wrap_pending,
    {
        self.wrap_pending
    }

    /// Returns the first and the last row of the scroll region.
    pub(crate) fn scroll_region(&self) -> (region: (u16, u16))
        ensures
            region.0 == self@.scroll_top,
            region.1 == self@.scroll_bottom,
    {
        (self.scroll_top, self.scroll_bottom)
    }

    /// Returns what DECSC saved.
    pub(crate) fn saved_cursor(&self) -> (saved: SavedCursor)
        ensures
            saved == self@.saved,
    {
        self.saved
    }

    /// What holds of every well-formed state.
    pub(crate) proof fn lemma_wf(&self)
        requires
            self.wf(),
        ensures
            self@.wf(),
    {
    }

    /// Moves the cursor, and drops a pending wrap.
    pub(crate) fn move_to(&mut self, row: u16, col: u16)
        requires
            old(self).wf(),
            row < old(self)@.rows(),
            col < old(self)@.cols(),
        ensures
            old(self).becomes(final(self), old(self)@.move_to(row as int, col as int)),
    {
        self.cursor = Position { row, col };
        self.wrap_pending = false;
    }

    /// Puts the cursor somewhere, with or without a wrap pending.
    pub(crate) fn put_cursor(&mut self, row: u16, col: u16, wrap_pending: bool)
        requires
            old(self).wf(),
            row < old(self)@.rows(),
            col < old(self)@.cols(),
        ensures
            old(self).becomes(
                final(self),
                TerminalModel {
                    cursor: Position { row, col },
                    wrap_pending,
                    ..old(self)@
                },
            ),
    {
        self.cursor = Position { row, col };
        self.wrap_pending = wrap_pending;
    }

    /// Drops a pending wrap.
    pub(crate) fn drop_wrap(&mut self)
        requires
            old(self).wf(),
        ensures
            old(self).becomes(final(self), old(self)@.drop_wrap()),
    {
        self.wrap_pending = false;
    }

    /// Sets the scroll region.
    pub(crate) fn set_region(&mut self, top: u16, bottom: u16)
        requires
            old(self).wf(),
            top <= bottom < old(self)@.rows(),
        ensures
            old(self).becomes(final(self), old(self)@.with_region(top as int, bottom as int)),
    {
        self.scroll_top = top;
        self.scroll_bottom = bottom;
    }

    /// Replaces the modes.
    pub(crate) fn put_modes(&mut self, modes: TerminalModes)
        requires
            old(self).wf(),
        ensures
            old(self).becomes(final(self), old(self)@.with_modes(modes)),
    {
        proof {
            reveal(TerminalModel::with_modes);
        }
        self.modes = modes;
    }

    /// Replaces the drawing style.
    pub(crate) fn put_pen(&mut self, pen: Style)
        requires
            old(self).wf(),
        ensures
            old(self).becomes(final(self), old(self)@.with_pen(pen)),
    {
        self.pen = pen;
    }

    /// Replaces the window title.
    pub(crate) fn put_title(&mut self, title: String)
        requires
            old(self).wf(),
        ensures
            old(self).becomes(final(self), old(self)@.set_title(title@)),
    {
        self.title = title;
        self.touched = true;
    }

    /// Appends a reply.
    pub(crate) fn push_reply(&mut self, bytes: &[u8])
        requires
            old(self).wf(),
        ensures
            old(self).becomes(final(self), old(self)@.reply(bytes@)),
    {
        self.replies.push(bytes);
    }

    /// Makes the alternate screen the active one, or the primary one.
    pub(crate) fn show_alternate(&mut self, on_alternate: bool)
        requires
            old(self).wf(),
        ensures
            old(self).becomes(final(self), old(self)@.show_alternate(on_alternate)),
    {
        self.on_alternate = on_alternate;
    }

    /// Empties the alternate screen.
    pub(crate) fn clear_alternate(&mut self)
        requires
            old(self).wf(),
        ensures
            old(self).becomes(final(self), old(self)@.clear_alternate()),
    {
        proof {
            reveal(TerminalModel::clear_alternate);
        }
        self.alternate.clear_all(Style::plain());
        self.touched = true;
    }

    /// Draws a glyph that fits at the cursor, and moves the cursor past it.
    pub(crate) fn place_glyph(&mut self, ch: char, width: u16)
        requires
            old(self).wf(),
            1 <= width <= 2,
            old(self)@.cursor.col + width <= old(self)@.cols(),
        ensures
            old(self).becomes(final(self), old(self)@.place(ch, width as int)),
    {
        proof {
            reveal(TerminalModel::place);
        }
        if self.modes.insert {
            self.insert_chars(width);
            proof {
                reveal(TerminalModel::insert_chars);
            }
        }
        self.draw_at_cursor(ch, width as u8);
        let at: Position = self.cursor;
        let cols: u16 = self.size.cols();
        if width >= cols - at.col {
            self.move_to(at.row, cols - 1);
            self.wrap_pending = self.modes.autowrap;
        } else {
            self.move_to(at.row, at.col + width);
        }
    }

    /// Draws a glyph at the cursor.
    fn draw_at_cursor(&mut self, ch: char, width: u8)
        requires
            old(self).wf(),
            1 <= width <= 2,
            old(self)@.cursor.col + width <= old(self)@.cols(),
        ensures
            old(self).becomes(
                final(self),
                old(self)@.draw(
                    old(self)@.active().update(
                        old(self)@.cursor.row as int,
                        draw_glyph(
                            old(self)@.active()[old(self)@.cursor.row as int],
                            old(self)@.cursor.col as int,
                            ch,
                            width,
                            old(self)@.pen,
                        ),
                    ),
                ),
            ),
    {
        let row: u16 = self.cursor.row;
        let col: u16 = self.cursor.col;
        let style: Style = self.pen;
        self.active_mut().put_glyph(row, col, ch, width, style);
        self.touched = true;
    }

    /// Scrolls the active screen down by `count` rows.
    pub(crate) fn scroll_down_screen(&mut self, count: u16)
        requires
            old(self).wf(),
        ensures
            old(self).becomes(final(self), old(self)@.scroll_down(count as int)),
    {
        proof {
            reveal(TerminalModel::scroll_down);
        }
        let style: Style = self.pen;
        let top: u16 = self.scroll_top;
        let bottom: u16 = self.scroll_bottom;
        self.active_mut().scroll_down(count, top, bottom, style);
        self.touched = true;
    }

    pub(crate) fn save_cursor(&mut self)
        requires
            old(self).wf(),
        ensures
            old(self).becomes(final(self), old(self)@.save_cursor()),
    {
        proof {
            reveal(TerminalModel::save_cursor);
        }
        self.saved = SavedCursor {
            cursor: self.cursor,
            pen: self.pen,
            wrap_pending: self.wrap_pending,
            origin: self.modes.origin,
        };
    }

    /// Brings the terminal back to what it was at the start.
    pub(crate) fn soft_reset(&mut self)
        requires
            old(self).wf(),
        ensures
            old(self).becomes(final(self), old(self)@.reset()),
    {
        proof {
            reveal(TerminalModel::reset);
        }
        let size: Size = self.size;
        let rows: u16 = size.rows();
        self.primary = Screen::blank(size);
        self.alternate = Screen::blank(size);
        self.on_alternate = false;
        self.cursor = Position::origin();
        self.saved = SavedCursor::default();
        self.wrap_pending = false;
        self.pen = Style::plain();
        self.modes = TerminalModes::default();
        self.title = String::new();
        self.scroll_top = 0;
        self.scroll_bottom = rows - 1;
        self.touched = true;
        self.clear_scrollback();
        proof {
            assert(self@.title =~= Seq::<char>::empty());
        }
    }

    /// Forgets the history.
    pub(crate) fn clear_scrollback(&mut self)
        requires
            old(self).wf(),
        ensures
            old(self).becomes(
                final(self),
                TerminalModel { scrollback: Seq::empty(), ..old(self)@ },
            ),
    {
        self.scrollback.clear();
        self.scrollback_cells = 0;
        proof {
            reveal(narrow);
            assert(self@.scrollback =~= Seq::<Seq<Cell>>::empty());
        }
    }

    /// Returns the first and the last row that the cursor may move to.
    pub(crate) fn origin_bounds(&self) -> (bounds: (u16, u16))
        requires
            self.wf(),
        ensures
            bounds.0 == self@.min_row(),
            bounds.1 == self@.max_row(),
    {
        if self.modes.origin {
            (self.scroll_top, self.scroll_bottom)
        } else {
            (0, self.size.rows() - 1)
        }
    }

    /// Erases a span of the cursor's row.
    pub(crate) fn erase_here(&mut self, start: u16, end: u16)
        requires
            old(self).wf(),
        ensures
            old(self).becomes(final(self), old(self)@.erase_here(start as int, end as int)),
    {
        proof {
            reveal(TerminalModel::erase_here);
        }
        let row: u16 = self.cursor.row;
        let style: Style = self.pen;
        self.active_mut().erase_cells(row, start, end, style);
        self.touched = true;
    }

    /// Erases a span of rows.
    pub(crate) fn erase_rows(&mut self, start: u16, end: u16)
        requires
            old(self).wf(),
        ensures
            old(self).becomes(final(self), old(self)@.erase_rows(start as int, end as int)),
    {
        proof {
            reveal(TerminalModel::erase_rows);
        }
        let style: Style = self.pen;
        self.active_mut().erase_rows(start, end, style);
        self.touched = true;
    }

    pub(crate) fn insert_lines(&mut self, count: u16)
        requires
            old(self).wf(),
            count > 0,
        ensures
            old(self).becomes(final(self), old(self)@.insert_lines(count as int)),
    {
        proof {
            reveal(TerminalModel::insert_lines);
        }
        let row: u16 = self.cursor.row;
        let style: Style = self.pen;
        let top: u16 = self.scroll_top;
        let bottom: u16 = self.scroll_bottom;
        if top <= row && row <= bottom {
            self.active_mut().insert_lines(row, count, top, bottom, style);
            self.touched = true;
        }
    }

    pub(crate) fn delete_lines(&mut self, count: u16)
        requires
            old(self).wf(),
            count > 0,
        ensures
            old(self).becomes(final(self), old(self)@.delete_lines(count as int)),
    {
        proof {
            reveal(TerminalModel::delete_lines);
        }
        let row: u16 = self.cursor.row;
        let style: Style = self.pen;
        let top: u16 = self.scroll_top;
        let bottom: u16 = self.scroll_bottom;
        if top <= row && row <= bottom {
            self.active_mut().delete_lines(row, count, top, bottom, style);
            self.touched = true;
        }
    }

    pub(crate) fn insert_chars(&mut self, count: u16)
        requires
            old(self).wf(),
            count > 0,
        ensures
            old(self).becomes(final(self), old(self)@.insert_chars(count as int)),
    {
        proof {
            reveal(TerminalModel::insert_chars);
        }
        let row: u16 = self.cursor.row;
        let col: u16 = self.cursor.col;
        let style: Style = self.pen;
        self.active_mut().insert_columns(row, col, count, style);
        self.touched = true;
    }

    pub(crate) fn delete_chars(&mut self, count: u16)
        requires
            old(self).wf(),
            count > 0,
        ensures
            old(self).becomes(final(self), old(self)@.delete_chars(count as int)),
    {
        proof {
            reveal(TerminalModel::delete_chars);
        }
        let row: u16 = self.cursor.row;
        let col: u16 = self.cursor.col;
        let style: Style = self.pen;
        self.active_mut().delete_columns(row, col, count, style);
        self.touched = true;
    }

    pub(crate) fn repair_cursor_cell(&mut self)
        requires
            old(self).wf(),
        ensures
            old(self).becomes(final(self), old(self)@.repair_cursor()),
    {
        proof {
            reveal(TerminalModel::repair_cursor);
        }
        match self.cell(self.cursor) {
            Some(cell) => {
                if cell.width == 0 && self.cursor.col > 0 {
                    self.cursor.col = self.cursor.col - 1;
                }
            },
            None => {},
        }
    }
}

/// Returns whether two byte strings are equal.
fn same_bytes(a: &[u8], b: &[u8]) -> (same: bool)
    ensures
        same == (a@ == b@),
{
    if a.len() != b.len() {
        return false;
    }
    let mut i: usize = 0;
    while i < a.len()
        invariant
            i <= a@.len(),
            a@.len() == b@.len(),
            forall|k: int| 0 <= k < i ==> #[trigger] a@[k] == b@[k],
        decreases a@.len() - i,
    {
        if a[i] != b[i] {
            return false;
        }
        i += 1;
    }
    proof {
        assert(a@ =~= b@);
    }
    true
}

/// Feeds bytes to the tokenizer one by one, so that it makes no difference
/// where a stream is cut.
fn feed_bytes(term: &mut TerminalState, bytes: &[u8])
    requires
        old(term).wf(),
    ensures
        old(term).becomes(final(term), old(term)@.read_all(bytes@)),
        old(term)@.replies.is_prefix_of(final(term)@.replies),
        final(term)@.replies.len() <= old(term)@.replies.len() + 14 * bytes@.len(),
{
    let mut i: usize = 0;
    proof {
        assert(bytes@.take(0) =~= Seq::<u8>::empty());
        assert(term@.replies.subrange(0, term@.replies.len() as int) =~= term@.replies);
    }
    while i < bytes.len()
        invariant
            i <= bytes@.len(),
            old(term).becomes(term, old(term)@.read_all(bytes@.take(i as int))),
            old(term)@.replies.is_prefix_of(term@.replies),
            term@.replies.len() <= old(term)@.replies.len() + 14 * i,
        decreases bytes@.len() - i,
    {
        let byte: u8 = bytes[i];
        let ghost before = term@;
        let tokens: Vec<Token> = advance(&mut term.parser, byte);
        term.fed = Ghost(before.fed.push(byte));
        let ghost ready = term@;
        term.perform_tokens(tokens.as_slice());
        proof {
            one_sequence_one_reply(ready, tokens_view(tokens@));
            assert(old(term)@.replies =~= term@.replies.subrange(
                0,
                old(term)@.replies.len() as int,
            ));
            assert(bytes@.take(i + 1).drop_last() =~= bytes@.take(i as int));
        }
        i += 1;
    }
    proof {
        assert(bytes@.take(i as int) =~= bytes@);
    }
}

} // verus!
