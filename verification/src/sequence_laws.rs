//! What the sequences do that set something: the drawing style, the modes, the
//! scroll region, what is saved, the title, and what is replied.

use vstd::prelude::*;

use crate::decimal::decimal;
use crate::screen_laws::{
    count_of, csi, esc, first_row, is_nearest, last_row, no_style, nth,
    screen, space,
};
use crate::size::Size;
use crate::terminal_buffer::{fills, resized};
use crate::terminal_model::{flat_params, sgr, TerminalModel};
use crate::terminal_types::{
    Cell, Color, MouseReporting, Position, SavedCursor, Style, TerminalModes,
};
use crate::tokenizer::{lossy_text, tokens_after, TokenView};

verus! {

/// The drawing style after one SGR value.
pub open spec fn styled(m: TerminalModel, value: u16) -> Style {
    m.perform(csi(seq![seq![value]], Seq::empty(), 'm')).pen
}

proof fn lemma_flat_one(param: Seq<u16>)
    ensures
        param.len() > 0 ==> flat_params(seq![param]) == param,
{
    let params = seq![param];
    assert(params.drop_last() =~= Seq::<Seq<u16>>::empty());
    assert(flat_params(params.drop_last()) =~= Seq::<u16>::empty());
    assert(params.last() == param);
    if param.len() > 0 {
        assert(flat_params(params) =~= param);
    }
}

proof fn lemma_flat_concat(a: Seq<Seq<u16>>, b: Seq<Seq<u16>>)
    ensures
        flat_params(a + b) == flat_params(a) + flat_params(b),
    decreases b.len(),
{
    if b.len() == 0 {
        assert(a + b =~= a);
        assert(flat_params(b) =~= Seq::<u16>::empty());
        assert(flat_params(a) + flat_params(b) =~= flat_params(a));
    } else {
        lemma_flat_concat(a, b.drop_last());
        assert((a + b).drop_last() =~= a + b.drop_last());
        assert((a + b).last() == b.last());
        assert(flat_params(a + b) =~= flat_params(a) + flat_params(b));
    }
}

proof fn lemma_one_value(pen: Style, value: u16)
    ensures
        sgr(pen, seq![value]) == crate::terminal_model::sgr_value(pen, value),
{
    let values = seq![value];
    let rest = values.skip(1);
    assert(rest.len() == 0);
    assert(sgr(crate::terminal_model::sgr_value(pen, value), rest)
        == crate::terminal_model::sgr_value(pen, value));
}

/// SGR changes the drawing style and nothing else, and only without a private
/// marker.
pub proof fn rendition_changes_the_pen(
    m: TerminalModel,
    params: Seq<Seq<u16>>,
    intermediates: Seq<u8>,
)
    ensures
        ({
            let after = m.perform(csi(params, intermediates, 'm'));
            &&& after == (TerminalModel { pen: after.pen, ..m })
            &&& intermediates.len() > 0 && intermediates[0] == 0x3f ==> after == m
            &&& params.len() == 0 && intermediates.len() == 0 ==> after.pen == no_style()
        }),
{
    reveal(TerminalModel::csi);
    reveal(TerminalModel::set_rendition);
    if params.len() == 0 {
        assert(flat_params(params) =~= Seq::<u16>::empty());
    }
}

/// The attributes: 0 takes everything off, 1, 3, 4 and 7 put bold, italic,
/// underline and reverse on, and 22, 23, 24 and 27 take them off again.
pub proof fn rendition_of_attributes(m: TerminalModel)
    ensures
        styled(m, 0) == no_style(),
        styled(m, 1) == (Style { bold: true, ..m.pen }),
        styled(m, 3) == (Style { italic: true, ..m.pen }),
        styled(m, 4) == (Style { underline: true, ..m.pen }),
        styled(m, 7) == (Style { reverse: true, ..m.pen }),
        styled(m, 22) == (Style { bold: false, ..m.pen }),
        styled(m, 23) == (Style { italic: false, ..m.pen }),
        styled(m, 24) == (Style { underline: false, ..m.pen }),
        styled(m, 27) == (Style { reverse: false, ..m.pen }),
        styled(m, 39) == (Style { foreground: Color::Default, ..m.pen }),
        styled(m, 49) == (Style { background: Color::Default, ..m.pen }),
{
    lemma_styled(m, 0);
    lemma_styled(m, 1);
    lemma_styled(m, 3);
    lemma_styled(m, 4);
    lemma_styled(m, 7);
    lemma_styled(m, 22);
    lemma_styled(m, 23);
    lemma_styled(m, 24);
    lemma_styled(m, 27);
    lemma_styled(m, 39);
    lemma_styled(m, 49);
}

proof fn lemma_styled(m: TerminalModel, value: u16)
    ensures
        styled(m, value) == crate::terminal_model::sgr_value(m.pen, value),
{
    reveal(TerminalModel::csi);
    reveal(TerminalModel::set_rendition);
    lemma_flat_one(seq![value]);
    lemma_one_value(m.pen, value);
}

/// The sixteen system colors: 30 to 37 and 90 to 97 are the eight normal and
/// the eight bright ones in front, 40 to 47 and 100 to 107 behind.
pub proof fn rendition_of_system_colors(m: TerminalModel, color: u8)
    requires
        color < 8,
    ensures
        styled(m, (30 + color) as u16) == (Style { foreground: Color::Indexed(color), ..m.pen }),
        styled(m, (40 + color) as u16) == (Style { background: Color::Indexed(color), ..m.pen }),
        styled(m, (90 + color) as u16) == (Style {
            foreground: Color::Indexed((8 + color) as u8),
            ..m.pen
        }),
        styled(m, (100 + color) as u16) == (Style {
            background: Color::Indexed((8 + color) as u8),
            ..m.pen
        }),
{
    lemma_styled(m, (30 + color) as u16);
    lemma_styled(m, (40 + color) as u16);
    lemma_styled(m, (90 + color) as u16);
    lemma_styled(m, (100 + color) as u16);
}

/// Whether a number is one that SGR knows, on its own.
pub open spec fn is_rendition(value: u16) -> bool {
    ||| value == 0 || value == 1 || value == 3 || value == 4 || value == 7
    ||| value == 22 || value == 23 || value == 24 || value == 27
    ||| 30 <= value <= 37 || 39 <= value <= 47 || value == 49
    ||| 90 <= value <= 97 || 100 <= value <= 107
}

/// Any other number on its own leaves the style as it is.
pub proof fn rendition_of_other_numbers(m: TerminalModel, value: u16)
    requires
        !is_rendition(value),
    ensures
        styled(m, value) == m.pen,
{
    lemma_styled(m, value);
}

/// 38 and 48 take a palette index or the three parts of a color, as parameters
/// or as subparameters, and set the color in front or behind.
pub proof fn rendition_of_colors(m: TerminalModel, index: u8, r: u8, g: u8, b: u8)
    ensures
        ({
            let n = index as u16;
            let (x, y, z) = (r as u16, g as u16, b as u16);
            let front = Style { foreground: Color::Indexed(index), ..m.pen };
            let behind = Style { background: Color::Indexed(index), ..m.pen };
            let direct = Style { foreground: Color::Rgb(r, g, b), ..m.pen };
            let direct_behind = Style { background: Color::Rgb(r, g, b), ..m.pen };
            &&& m.perform(csi(seq![seq![38u16, 5u16, n]], Seq::empty(), 'm')).pen == front
            &&& m.perform(csi(seq![seq![48u16, 5u16, n]], Seq::empty(), 'm')).pen == behind
            &&& m.perform(csi(seq![seq![38u16, 2u16, x, y, z]], Seq::empty(), 'm')).pen == direct
            &&& m.perform(csi(seq![seq![48u16, 2u16, x, y, z]], Seq::empty(), 'm')).pen
                == direct_behind
        }),
{
    reveal(TerminalModel::csi);
    reveal(TerminalModel::set_rendition);
    let n = index as u16;
    let (x, y, z) = (r as u16, g as u16, b as u16);
    lemma_flat_one(seq![38u16, 5u16, n]);
    lemma_flat_one(seq![48u16, 5u16, n]);
    lemma_flat_one(seq![38u16, 2u16, x, y, z]);
    lemma_flat_one(seq![48u16, 2u16, x, y, z]);
    lemma_color(m.pen, seq![38u16, 5u16, n]);
    lemma_color(m.pen, seq![48u16, 5u16, n]);
    lemma_color(m.pen, seq![38u16, 2u16, x, y, z]);
    lemma_color(m.pen, seq![48u16, 2u16, x, y, z]);
}

proof fn lemma_color(pen: Style, values: Seq<u16>)
    requires
        values.len() == 3 || values.len() == 5,
        values[0] == 38 || values[0] == 48,
        values.len() == 3 ==> values[1] == 5 && values[2] < 256,
        values.len() == 5 ==> values[1] == 2 && values[2] < 256 && values[3] < 256 && values[4]
            < 256,
    ensures
        ({
            let color = if values.len() == 3 {
                Color::Indexed(values[2] as u8)
            } else {
                Color::Rgb(values[2] as u8, values[3] as u8, values[4] as u8)
            };
            sgr(pen, values) == if values[0] == 38 {
                Style { foreground: color, ..pen }
            } else {
                Style { background: color, ..pen }
            }
        }),
{
    let rest = values.skip(1);
    let taken = values.len() - 1;
    assert(rest.skip(taken).len() == 0);
    assert(rest[0] == values[1] && rest[1] == values[2]);
    if values.len() == 5 {
        assert(rest[2] == values[3] && rest[3] == values[4]);
    }
    let color = if values.len() == 3 {
        Color::Indexed(values[2] as u8)
    } else {
        Color::Rgb(values[2] as u8, values[3] as u8, values[4] as u8)
    };
    assert(crate::terminal_model::extended_color(rest) == Some((color, taken)));
    let front = Style { foreground: color, ..pen };
    let behind = Style { background: color, ..pen };
    assert(sgr(front, rest.skip(taken)) == front);
    assert(sgr(behind, rest.skip(taken)) == behind);
}

/// It makes no difference whether parameters are written with their
/// subparameters or one by one.
pub proof fn subparameters_are_parameters(m: TerminalModel, a: u16, param: Seq<u16>)
    requires
        param.len() > 0,
    ensures
        m.perform(csi(seq![seq![a], param], Seq::empty(), 'm')) == m.perform(
            csi(seq![seq![a] + param], Seq::empty(), 'm'),
        ),
{
    reveal(TerminalModel::csi);
    reveal(TerminalModel::set_rendition);
    lemma_flat_one(seq![a]);
    lemma_flat_one(param);
    lemma_flat_one(seq![a] + param);
    lemma_flat_concat(seq![seq![a]], seq![param]);
    assert(seq![seq![a]] + seq![param] =~= seq![seq![a], param]);
}

/// SGR takes its values one after the other: a value that stands alone, and
/// then the rest, are the same as two sequences.
pub proof fn renditions_add_up(m: TerminalModel, value: u16, rest: Seq<Seq<u16>>)
    requires
        value != 38,
        value != 48,
        rest.len() > 0,
    ensures
        m.perform(csi(seq![seq![value]] + rest, Seq::empty(), 'm')) == m.perform(
            csi(seq![seq![value]], Seq::empty(), 'm'),
        ).perform(csi(rest, Seq::empty(), 'm')),
{
    reveal(TerminalModel::csi);
    reveal(TerminalModel::set_rendition);
    lemma_flat_one(seq![value]);
    lemma_flat_concat(seq![seq![value]], rest);
    lemma_one_value(m.pen, value);
    assert(flat_params(rest).len() > 0);
    let values = seq![value] + flat_params(rest);
    assert(values.skip(1) =~= flat_params(rest));
    assert(values[0] == value);
}

/// After a color, SGR goes on with the values behind it.
pub proof fn renditions_go_on_behind_a_color(m: TerminalModel, index: u8, rest: Seq<Seq<u16>>)
    requires
        rest.len() > 0,
    ensures
        m.perform(csi(seq![seq![38u16, 5u16, index as u16]] + rest, Seq::empty(), 'm')) == m.perform(
            csi(seq![seq![38u16, 5u16, index as u16]], Seq::empty(), 'm'),
        ).perform(csi(rest, Seq::empty(), 'm')),
{
    reveal(TerminalModel::csi);
    reveal(TerminalModel::set_rendition);
    let color = seq![38u16, 5u16, index as u16];
    lemma_flat_one(color);
    lemma_flat_concat(seq![color], rest);
    lemma_color(m.pen, color);
    assert(flat_params(rest).len() > 0);
    let values = color + flat_params(rest);
    assert(values[0] == 38);
    assert(values.skip(1)[0] == 5 && values.skip(1)[1] == index);
    assert(values.skip(1).skip(2) =~= flat_params(rest));
}

/// A mode that is set or reset, alone in its sequence.
pub open spec fn moded(m: TerminalModel, private: bool, mode: u16, set: bool) -> TerminalModel {
    m.perform(
        csi(
            seq![seq![mode]],
            if private {
                seq![0x3fu8]
            } else {
                Seq::empty()
            },
            if set {
                'h'
            } else {
                'l'
            },
        ),
    )
}

proof fn lemma_moded(m: TerminalModel, private: bool, mode: u16, set: bool)
    ensures
        moded(m, private, mode, set) == m.set_one_mode(mode, private, set),
{
    reveal(TerminalModel::csi);
    lemma_flat_one(seq![mode]);
    let modes = seq![mode];
    assert(modes.drop_last() =~= Seq::<u16>::empty());
    assert(m.set_modes(modes.drop_last(), private, set) == m);
    assert(modes.last() == mode);
    assert(m.set_modes(modes, private, set) == m.set_one_mode(mode, private, set));
}

/// Each mode is switched by its own number and changes nothing but itself;
/// origin mode also sends the cursor home.
pub proof fn switching_modes(m: TerminalModel, set: bool)
    requires
        m.wf(),
    ensures
        moded(m, true, 1, set) == (TerminalModel {
            modes: TerminalModes { application_cursor: set, ..m.modes },
            ..m
        }),
        moded(m, true, 7, set) == (TerminalModel {
            modes: TerminalModes { autowrap: set, ..m.modes },
            ..m
        }),
        moded(m, true, 25, set) == (TerminalModel {
            modes: TerminalModes { cursor_visible: set, ..m.modes },
            ..m
        }),
        moded(m, true, 66, set) == (TerminalModel {
            modes: TerminalModes { application_keypad: set, ..m.modes },
            ..m
        }),
        moded(m, true, 1006, set) == (TerminalModel {
            modes: TerminalModes { mouse_sgr: set, ..m.modes },
            ..m
        }),
        moded(m, true, 2004, set) == (TerminalModel {
            modes: TerminalModes { bracketed_paste: set, ..m.modes },
            ..m
        }),
        moded(m, false, 4, set) == (TerminalModel {
            modes: TerminalModes { insert: set, ..m.modes },
            ..m
        }),
        moded(m, true, 6, set) == (TerminalModel {
            modes: TerminalModes { origin: set, ..m.modes },
            cursor: Position {
                row: if set {
                    m.scroll_top
                } else {
                    0
                },
                col: 0,
            },
            wrap_pending: false,
            ..m
        }),
{
    lemma_moded(m, true, 1, set);
    lemma_moded(m, true, 7, set);
    lemma_moded(m, true, 25, set);
    lemma_moded(m, true, 66, set);
    lemma_moded(m, true, 1006, set);
    lemma_moded(m, true, 2004, set);
    lemma_moded(m, false, 4, set);
    lemma_moded(m, true, 6, set);
    reveal(TerminalModel::set_private_mode);
    reveal(TerminalModel::with_modes);
    reveal(TerminalModel::set_position);
}

/// The mouse is reported as the last of its modes says that was set. Resetting
/// any of them stops the reports.
pub proof fn switching_the_mouse(m: TerminalModel)
    ensures
        ({
            let with = |mouse: MouseReporting|
                TerminalModel { modes: TerminalModes { mouse, ..m.modes }, ..m };
            &&& moded(m, true, 9, true) == with(MouseReporting::X10)
            &&& moded(m, true, 1000, true) == with(MouseReporting::Normal)
            &&& moded(m, true, 1002, true) == with(MouseReporting::ButtonEvent)
            &&& moded(m, true, 1003, true) == with(MouseReporting::AnyEvent)
            &&& moded(m, true, 9, false) == with(MouseReporting::Off)
            &&& moded(m, true, 1000, false) == with(MouseReporting::Off)
            &&& moded(m, true, 1002, false) == with(MouseReporting::Off)
            &&& moded(m, true, 1003, false) == with(MouseReporting::Off)
        }),
{
    lemma_moded(m, true, 9, true);
    lemma_moded(m, true, 1000, true);
    lemma_moded(m, true, 1002, true);
    lemma_moded(m, true, 1003, true);
    lemma_moded(m, true, 9, false);
    lemma_moded(m, true, 1000, false);
    lemma_moded(m, true, 1002, false);
    lemma_moded(m, true, 1003, false);
    reveal(TerminalModel::set_private_mode);
    reveal(TerminalModel::with_modes);
    reveal(TerminalModel::set_mouse);
}

/// Whether a mode is one that the emulator knows.
pub open spec fn is_mode(private: bool, mode: u16) -> bool {
    if private {
        ||| mode == 1 || mode == 6 || mode == 7 || mode == 9 || mode == 25 || mode == 47
        ||| mode == 66 || mode == 1000 || mode == 1002 || mode == 1003 || mode == 1006
        ||| mode == 1047 || mode == 1049 || mode == 2004
    } else {
        mode == 4
    }
}

/// Any other mode leaves everything as it is.
pub proof fn switching_other_modes(m: TerminalModel, private: bool, mode: u16, set: bool)
    requires
        !is_mode(private, mode),
    ensures
        moded(m, private, mode, set) == m,
{
    lemma_moded(m, private, mode, set);
    reveal(TerminalModel::set_private_mode);
}

/// Several modes in one sequence are switched one after the other.
pub proof fn modes_add_up(
    m: TerminalModel,
    a: Seq<Seq<u16>>,
    b: Seq<Seq<u16>>,
    intermediates: Seq<u8>,
    action: char,
)
    requires
        action == 'h' || action == 'l',
    ensures
        m.perform(csi(a + b, intermediates, action)) == m.perform(
            csi(a, intermediates, action),
        ).perform(csi(b, intermediates, action)),
{
    reveal(TerminalModel::csi);
    let private = intermediates.len() > 0 && intermediates[0] == 0x3f;
    lemma_flat_concat(a, b);
    lemma_modes_concat(m, flat_params(a), flat_params(b), private, action == 'h');
}

proof fn lemma_modes_concat(
    m: TerminalModel,
    a: Seq<u16>,
    b: Seq<u16>,
    private: bool,
    set: bool,
)
    ensures
        m.set_modes(a + b, private, set) == m.set_modes(a, private, set).set_modes(
            b,
            private,
            set,
        ),
    decreases b.len(),
{
    if b.len() == 0 {
        assert(a + b =~= a);
    } else {
        lemma_modes_concat(m, a, b.drop_last(), private, set);
        assert((a + b).drop_last() =~= a + b.drop_last());
        assert((a + b).last() == b.last());
    }
}

/// What DECSC remembers.
pub open spec fn memory(m: TerminalModel) -> SavedCursor {
    SavedCursor {
        cursor: m.cursor,
        pen: m.pen,
        wrap_pending: m.wrap_pending,
        origin: m.modes.origin,
    }
}

/// 1049 shows an alternate screen that is empty, with the cursor at home and
/// the whole screen as scroll region; 47 and 1047 show the one that was left.
/// The cursor of the primary screen is saved, and the primary screen stays as
/// it is. The second time nothing is saved.
pub proof fn entering_the_alternate_screen(m: TerminalModel)
    requires
        m.wf(),
    ensures
        ({
            let plain = moded(m, true, 47, true);
            let fresh = moded(m, true, 1049, true);
            &&& moded(m, true, 1047, true) == plain
            &&& plain == (TerminalModel {
                on_alternate: true,
                saved: if m.on_alternate {
                    m.saved
                } else {
                    memory(m)
                },
                ..m
            })
            &&& fresh == (TerminalModel {
                alternate: fresh.alternate,
                cursor: Position { row: 0, col: 0 },
                wrap_pending: false,
                scroll_top: 0,
                scroll_bottom: (m.size.row_count() - 1) as u16,
                touched: true,
                ..plain
            })
            &&& fresh.alternate.len() == m.size.row_count()
            &&& forall|r: int|
                0 <= r < fresh.alternate.len() ==> (#[trigger] fresh.alternate[r]).len()
                    == m.size.col_count()
            &&& forall|r: int, c: int|
                0 <= r < m.size.row_count() && 0 <= c < m.size.col_count()
                    ==> #[trigger] fresh.alternate[r][c] == space(no_style())
        }),
{
    lemma_moded(m, true, 47, true);
    lemma_moded(m, true, 1047, true);
    lemma_moded(m, true, 1049, true);
    reveal(TerminalModel::set_private_mode);
    reveal(TerminalModel::set_alternate);
    reveal(TerminalModel::clear_alternate);
    reveal(TerminalModel::save_cursor);
}

/// Leaving the alternate screen shows the primary one and restores what was
/// saved, as DECRC does. On the primary screen it does nothing.
pub proof fn leaving_the_alternate_screen(m: TerminalModel, mode: u16)
    requires
        mode == 47 || mode == 1047 || mode == 1049,
    ensures
        m.on_alternate ==> moded(m, true, mode, false) == (TerminalModel {
            on_alternate: false,
            ..m
        }).perform(esc(0x38)),
        !m.on_alternate ==> moded(m, true, mode, false) == m,
{
    lemma_moded(m, true, mode, false);
    reveal(TerminalModel::set_private_mode);
    reveal(TerminalModel::set_alternate);
    reveal(TerminalModel::escape);
}

/// DECSC and SCOSC save the cursor, the style, a pending wrap and the origin
/// mode, and change nothing else. DECRC and SCORC bring them back: the cursor
/// as near to where it was as the screen allows, on the leading half of a wide
/// glyph.
pub proof fn saving_and_restoring(m: TerminalModel)
    requires
        m.wf(),
    ensures
        ({
            let saved = m.perform(esc(0x37));
            let back = m.perform(esc(0x38));
            let restored = TerminalModel {
                modes: TerminalModes { origin: m.saved.origin, ..m.modes },
                ..m
            };
            let row = back.cursor.row as int;
            let col = back.cursor.col as int;
            let last = m.size.col_count() - 1;
            let there = if m.saved.cursor.col < last {
                m.saved.cursor.col as int
            } else {
                last
            };
            &&& saved == (TerminalModel { saved: memory(m), ..m })
            &&& m.perform(csi(Seq::empty(), Seq::empty(), 's')) == saved
            &&& m.perform(csi(Seq::empty(), Seq::empty(), 'u')) == back
            &&& back == (TerminalModel {
                cursor: back.cursor,
                pen: m.saved.pen,
                wrap_pending: m.saved.wrap_pending,
                ..restored
            })
            &&& is_nearest(
                row,
                m.saved.cursor.row as int,
                first_row(restored),
                last_row(restored),
            )
            &&& screen(m)[row][there].width == 0 && there > 0 ==> col == there - 1
            &&& screen(m)[row][there].width != 0 || there == 0 ==> col == there
        }),
{
    reveal(TerminalModel::csi);
    reveal(TerminalModel::escape);
    reveal(TerminalModel::save_cursor);
    reveal(TerminalModel::recall);
    reveal(TerminalModel::repair_cursor);
}

/// A terminal as it is when it is new: everything off but what is on by
/// default, and nothing on either screen.
pub open spec fn is_new(m: TerminalModel, size: Size) -> bool {
    &&& m.size == size
    &&& !m.on_alternate
    &&& m.cursor == (Position { row: 0, col: 0 })
    &&& m.saved == (SavedCursor {
        cursor: Position { row: 0, col: 0 },
        pen: no_style(),
        wrap_pending: false,
        origin: false,
    })
    &&& !m.wrap_pending
    &&& m.pen == no_style()
    &&& m.modes == (TerminalModes {
        autowrap: true,
        origin: false,
        insert: false,
        application_cursor: false,
        application_keypad: false,
        bracketed_paste: false,
        cursor_visible: true,
        mouse: MouseReporting::Off,
        mouse_sgr: false,
    })
    &&& m.title.len() == 0
    &&& m.scroll_top == 0
    &&& m.scroll_bottom == size.row_count() - 1
    &&& m.scrollback.len() == 0
    &&& is_clear(m.primary, size)
    &&& is_clear(m.alternate, size)
}

/// A screen of plain spaces.
pub open spec fn is_clear(grid: Seq<Seq<Cell>>, size: Size) -> bool {
    &&& grid.len() == size.row_count()
    &&& forall|r: int| 0 <= r < grid.len() ==> (#[trigger] grid[r]).len() == size.col_count()
    &&& forall|r: int, c: int|
        0 <= r < size.row_count() && 0 <= c < size.col_count() ==> #[trigger] grid[r][c] == space(
            no_style(),
        )
}

/// RIS makes an emulator new. What it still has to reply stays, and so does
/// what the tokenizer has in hand.
pub proof fn resetting(m: TerminalModel, size: Size)
    requires
        m.wf(),
        size.addressable(),
    ensures
        is_new(TerminalModel::initial(size), size),
        TerminalModel::initial(size).replies.len() == 0,
        TerminalModel::initial(size).fed.len() == 0,
        is_new(m.perform(esc(0x63)), m.size),
        m.perform(esc(0x63)).replies == m.replies,
        m.perform(esc(0x63)).fed == m.fed,
{
    reveal(TerminalModel::escape);
    reveal(TerminalModel::reset);
}

/// DECSTBM sets the scroll region, counted from one, and sends the cursor home.
/// Without a second number the region goes to the last row. A region of less
/// than two rows, or beyond the screen, is not taken.
pub proof fn setting_the_region(m: TerminalModel, params: Seq<Seq<u16>>, intermediates: Seq<u8>)
    requires
        m.wf(),
    ensures
        ({
            let rows = m.size.row_count() as int;
            let after = m.perform(csi(params, intermediates, 'r'));
            let top = count_of(params, 0) - 1;
            let bottom = if nth(params, 1) == 0 {
                rows - 1
            } else {
                nth(params, 1) - 1
            };
            &&& intermediates.len() > 0 && intermediates[0] == 0x3f ==> after == m
            &&& intermediates.len() == 0 ==> {
                &&& after == (TerminalModel {
                    scroll_top: after.scroll_top,
                    scroll_bottom: after.scroll_bottom,
                    cursor: Position {
                        row: if m.modes.origin {
                            after.scroll_top
                        } else {
                            0
                        },
                        col: 0,
                    },
                    wrap_pending: false,
                    ..m
                })
                &&& top < bottom < rows ==> after.scroll_top == top && after.scroll_bottom
                    == bottom
                &&& !(top < bottom < rows) && params.len() > 0 ==> after.scroll_top == m.scroll_top
                    && after.scroll_bottom == m.scroll_bottom
                &&& params.len() == 0 ==> after.scroll_top == 0 && after.scroll_bottom == rows - 1
            }
        }),
{
    reveal(TerminalModel::csi);
    reveal(TerminalModel::set_scroll_region);
}

/// The operating system commands 0 and 2 set the title to the text that comes
/// with them. No other one does anything.
pub proof fn setting_the_title(m: TerminalModel, params: Seq<Seq<u8>>)
    ensures
        ({
            let after = m.perform(TokenView::Osc(params));
            let named = params.len() > 0 && params[0].len() == 1 && (params[0][0] == 0x30
                || params[0][0] == 0x32);
            &&& named && params.len() > 1 ==> after == (TerminalModel {
                title: lossy_text(params[1]),
                touched: true,
                ..m
            })
            &&& named && params.len() == 1 ==> after == (TerminalModel {
                title: Seq::empty(),
                touched: true,
                ..m
            })
            &&& !named ==> after == m
        }),
{
    reveal(TerminalModel::command);
    if params.len() > 0 && params[0].len() == 1 {
        assert(params[0][0] == 0x30 ==> params[0] =~= seq![0x30u8]);
        assert(params[0][0] == 0x32 ==> params[0] =~= seq![0x32u8]);
    }
}

/// The number that decimal digits spell.
pub open spec fn spelled(digits: Seq<u8>) -> int
    decreases digits.len(),
{
    if digits.len() == 0 {
        0
    } else {
        10 * spelled(digits.drop_last()) + digits.last() - 0x30
    }
}

/// Decimal digits spell their number, in ASCII and without leading zeros.
pub proof fn decimals_spell_their_number(n: nat)
    ensures
        spelled(decimal(n)) == n,
        forall|i: int| 0 <= i < decimal(n).len() ==> 0x30 <= #[trigger] decimal(n)[i] <= 0x39,
        decimal(n).len() > 0,
        decimal(n).len() > 1 ==> decimal(n)[0] != 0x30,
    decreases n,
{
    crate::decimal::lemma_decimal_digits(n);
    if n < 10 {
        assert(decimal(n).drop_last() =~= Seq::<u8>::empty());
        assert(spelled(decimal(n).drop_last()) == 0);
    } else {
        decimals_spell_their_number(n / 10);
        assert(decimal(n).drop_last() =~= decimal(n / 10));
        if n / 10 < 10 {
            assert(decimal(n)[0] == decimal(n / 10)[0]);
            assert(decimal(n / 10)[0] == 0x30 + n / 10);
        } else {
            crate::decimal::lemma_decimal_len(n / 10);
            assert(decimal(n)[0] == decimal(n / 10)[0]);
            assert(decimal(n / 10).len() > 1) by {
                crate::decimal::lemma_decimal_len(n / 10 / 10);
            }
        }
    }
}

/// DSR 5 is answered that all is well, DSR 6 with the place of the cursor
/// counted from one, and DA with the attributes of a VT102. An answer goes
/// behind those that wait, and nothing else changes. No other request is
/// answered, nor any with a private marker.
pub proof fn answering(m: TerminalModel, params: Seq<Seq<u16>>, intermediates: Seq<u8>)
    ensures
        ({
            let status = m.perform(csi(params, intermediates, 'n'));
            let attributes = m.perform(csi(params, intermediates, 'c'));
            let private = intermediates.len() > 0 && intermediates[0] == 0x3f;
            let row = decimal((m.cursor.row + 1) as nat);
            let col = decimal((m.cursor.col + 1) as nat);
            let fine = seq![0x1bu8, 0x5bu8, 0x30u8, 0x6eu8];
            let place = seq![0x1bu8, 0x5bu8] + row + seq![0x3bu8] + col + seq![0x52u8];
            let terminal = seq![0x1bu8, 0x5bu8, 0x3fu8, 0x36u8, 0x63u8];
            &&& private ==> status == m && attributes == m
            &&& !private && nth(params, 0) == 5 ==> status == (TerminalModel {
                replies: m.replies + fine,
                ..m
            })
            &&& !private && nth(params, 0) == 6 ==> status == (TerminalModel {
                replies: m.replies + place,
                ..m
            })
            &&& nth(params, 0) != 5 && nth(params, 0) != 6 ==> status == m
            &&& !private ==> attributes == (TerminalModel { replies: m.replies + terminal, ..m })
        }),
{
    reveal(TerminalModel::csi);
    reveal(TerminalModel::report_status);
}

/// Whether the emulator knows a control sequence by its final character.
pub open spec fn is_known(action: char) -> bool {
    ||| action == 'A' || action == 'B' || action == 'C' || action == 'D' || action == 'E'
    ||| action == 'F' || action == 'G' || action == '`' || action == 'H' || action == 'f'
    ||| action == 'd' || action == 'J' || action == 'K' || action == 'L' || action == 'M'
    ||| action == '@' || action == 'P' || action == 'X' || action == 'S' || action == 'T'
    ||| action == 'r' || action == 'm' || action == 'h' || action == 'l' || action == 'n'
    ||| action == 'c' || action == 's' || action == 'u'
}

/// What the emulator does not know leaves everything as it is, and so does a
/// sequence that was too long to be kept whole.
pub proof fn ignoring_the_rest(
    m: TerminalModel,
    params: Seq<Seq<u16>>,
    intermediates: Seq<u8>,
    action: char,
    byte: u8,
)
    ensures
        !is_known(action) ==> m.perform(csi(params, intermediates, action)) == m,
        m.perform(TokenView::Csi { params, intermediates, ignore: true, action }) == m,
        m.perform(TokenView::Esc { intermediates, ignore: true, byte }) == m,
        intermediates.len() > 0 ==> m.perform(
            TokenView::Esc { intermediates, ignore: false, byte },
        ) == m,
        byte != 0x37 && byte != 0x38 && byte != 0x44 && byte != 0x45 && byte != 0x4d && byte
            != 0x63 ==> m.perform(esc(byte)) == m,
        intermediates.len() > 0 && intermediates[0] == 0x3f && (action == 's' || action == 'u')
            ==> m.perform(csi(params, intermediates, action)) == m,
{
    reveal(TerminalModel::csi);
    reveal(TerminalModel::escape);
}

/// The tokens of a stream are taken in order, and a byte is taken by the tokens
/// that it completes.
pub proof fn tokens_are_taken_in_order(
    m: TerminalModel,
    token: TokenView,
    a: Seq<TokenView>,
    b: Seq<TokenView>,
    byte: u8,
)
    ensures
        m.perform_all(Seq::empty()) == m,
        m.perform_all(seq![token]) == m.perform(token),
        m.perform_all(a + b) == m.perform_all(a).perform_all(b),
        m.read_all(seq![byte]) == (TerminalModel { fed: m.fed.push(byte), ..m }).perform_all(
            tokens_after(m.fed, byte),
        ),
        m.feed(Seq::empty()) == (TerminalModel { touched: false, ..m }),
        !m.feed_shows(Seq::empty()),
    decreases b.len(),
{
    assert(seq![token].drop_last() =~= Seq::<TokenView>::empty());
    assert(m.perform_all(seq![token].drop_last()) == m);
    assert(seq![token].last() == token);
    assert(seq![byte].drop_last() =~= Seq::<u8>::empty());
    assert(m.read_all(seq![byte].drop_last()) == m);
    assert(m.read_all(seq![byte]) == m.read(byte));
    assert(m.untouched().read_all(Seq::<u8>::empty()) == m.untouched());
    if b.len() == 0 {
        assert(a + b =~= a);
    } else {
        tokens_are_taken_in_order(m, token, a, b.drop_last(), byte);
        assert((a + b).drop_last() =~= a + b.drop_last());
        assert((a + b).last() == b.last());
    }
}

/// A feed counts as a visible change where a cell or the title was written to,
/// or where the cursor, a pending wrap, the style, the modes or the screen that
/// is shown differ afterwards, and only there.
pub proof fn visible_changes_count(m: TerminalModel, bytes: Seq<u8>)
    ensures
        ({
            let after = (TerminalModel { touched: false, ..m }).read_all(bytes);
            m.feed_shows(bytes) <==> after.touched || after.size != m.size || after.on_alternate
                != m.on_alternate || after.cursor != m.cursor || after.wrap_pending
                != m.wrap_pending || after.pen != m.pen || after.modes != m.modes
        }),
        ({
            let after = (TerminalModel { touched: false, ..m }).read_all(bytes);
            m.feed(bytes) == (TerminalModel { touched: false, ..after })
        }),
{
}

/// The cells of a screen that got another size: what is on both sizes stays
/// where it is, but for a wide glyph that would be cut in two. The rest is
/// empty.
pub open spec fn is_resized(
    before: Seq<Seq<Cell>>,
    after: Seq<Seq<Cell>>,
    from: Size,
    to: Size,
) -> bool {
    &&& after.len() == to.row_count()
    &&& forall|r: int| 0 <= r < after.len() ==> (#[trigger] after[r]).len() == to.col_count()
    &&& forall|r: int, c: int|
        0 <= r < to.row_count() && 0 <= c < to.col_count() ==> {
            let kept = r < from.row_count() && c < from.col_count();
            let cut = before[r][c].width == 2 && (c + 1 == to.col_count() || c + 1
                == from.col_count());
            &&& kept && !cut ==> #[trigger] after[r][c] == before[r][c]
            &&& !kept || cut ==> after[r][c] == space(no_style())
        }
}

/// A resize keeps what is on both the old and the new screen where it is, on
/// the primary and on the alternate screen. The cursor stays where it is as far
/// as the screen allows, on the leading half of a wide glyph.
pub proof fn resizing(m: TerminalModel, size: Size)
    requires
        m.wf(),
        size.addressable(),
        size != m.size,
    ensures
        ({
            let after = m.resize(size);
            let row = after.cursor.row as int;
            let col = after.cursor.col as int;
            let last = size.col_count() - 1;
            let there = if m.cursor.col < last {
                m.cursor.col as int
            } else {
                last
            };
            &&& is_resized(m.primary, after.primary, m.size, size)
            &&& is_resized(m.alternate, after.alternate, m.size, size)
            &&& after == (TerminalModel {
                size,
                primary: after.primary,
                alternate: after.alternate,
                scroll_top: after.scroll_top,
                scroll_bottom: after.scroll_bottom,
                cursor: after.cursor,
                wrap_pending: false,
                ..m
            })
            &&& is_nearest(row, m.cursor.row as int, 0, size.row_count() - 1)
            &&& screen(after)[row][there].width == 0 && there > 0 ==> col == there - 1
            &&& screen(after)[row][there].width != 0 || there == 0 ==> col == there
        }),
        m.resize(m.size) == m,
{
    reveal(TerminalModel::fit);
    reveal(TerminalModel::repair_cursor);
    lemma_resized(m.primary, m.size, size);
    lemma_resized(m.alternate, m.size, size);
    let fitted = m.fit(size);
    let after = m.resize(size);
    assert(after.primary == fitted.primary && after.alternate == fitted.alternate);
}

proof fn lemma_resized(grid: Seq<Seq<Cell>>, from: Size, to: Size)
    requires
        fills(grid, from),
        to.addressable(),
    ensures
        is_resized(
            grid,
            resized(grid, from.col_count() as int, to.row_count() as nat, to.col_count() as nat),
            from,
            to,
        ),
{
    reveal(fills);
}

/// A snapshot shows the screen that is active, cell by cell, and the cursor,
/// the modes, the style, the title and the history as they are.
pub proof fn snapshots_show_what_is_there(m: TerminalModel)
    ensures
        m.content().rows == screen(m),
        m.content().size == m.size,
        m.content().cursor == m.cursor,
        m.content().modes == m.modes,
        m.content().style == m.pen,
        m.content().title == m.title,
        m.content().on_alternate == m.on_alternate,
        m.content().scrollback == m.scrollback,
{
}

} // verus!
