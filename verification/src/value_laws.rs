//! What holds of the small values of the library: colors, limits, settings,
//! and how a child ended.

use vstd::prelude::*;

use crate::driver_config::{ConfigError, ConfigField, DriverConfig};
use crate::pty::{
    classify_signal, classify_wait, classify_wait_failure, is_gone, ClosingPtyProcess,
    ClosingState, ErrorCodes, ObservedExit, PollStep, PtyError, ReapStep, SignalOutcome, WaitCodes,
};
use crate::session::Direction;
use crate::terminal_scrollback::{
    cell_total, lemma_cell_total_concat, lemma_cell_total_skip, trimmed, trimming_keeps_the_newest,
    ScrollbackLimits,
};
use crate::terminal_types::{palette_color, Cell, Color};
use crate::tokenizer::shown_columns;

verus! {

/// The six intensities that a component of the color cube can have.
pub open spec fn intensity(level: int) -> int {
    if level == 0 {
        0
    } else if level == 1 {
        95
    } else if level == 2 {
        135
    } else if level == 3 {
        175
    } else if level == 4 {
        215
    } else {
        255
    }
}

/// The color cube is laid out red by red, in each of them green by green, in
/// each of them blue by blue. Behind it come grays, evenly from dark to light.
pub proof fn colors_of_the_palette(red: int, green: int, blue: int, gray: int)
    requires
        0 <= red < 6,
        0 <= green < 6,
        0 <= blue < 6,
        0 <= gray < 24,
    ensures
        ({
            let (r, g, b) = palette_color((16 + 36 * red + 6 * green + blue) as u8);
            r == intensity(red) && g == intensity(green) && b == intensity(blue)
        }),
        ({
            let (r, g, b) = palette_color((232 + gray) as u8);
            r == g && g == b && b == 8 + 10 * gray
        }),
{
    let n = 36 * red + 6 * green + blue;
    assert(n / 36 == red && n / 6 % 6 == green && n % 6 == blue) by (nonlinear_arith)
        requires
            n == 36 * red + 6 * green + blue,
            0 <= green < 6,
            0 <= blue < 6,
            0 <= red < 6,
    ;
}

/// The sixteen system colors: the first eight at normal intensity, then the
/// same at full intensity. In each half the index says in its three bits which
/// of red, green and blue take part.
pub proof fn colors_of_the_system(index: u8)
    requires
        index < 16,
    ensures
        ({
            let (r, g, b) = palette_color(index);
            let red = index % 2 == 1;
            let green = index / 2 % 2 == 1;
            let blue = index / 4 % 2 == 1;
            &&& index == 0 ==> r == 0 && g == 0 && b == 0
            &&& index == 4 ==> r == 0 && g == 0 && b == 238
            &&& index == 7 ==> r == 229 && g == 229 && b == 229
            &&& index == 8 ==> r == 127 && g == 127 && b == 127
            &&& index == 12 ==> r == 92 && g == 92 && b == 255
            &&& 0 < index < 7 && index != 4 ==> r == (if red {
                205int
            } else {
                0
            }) && g == (if green {
                205int
            } else {
                0
            }) && b == (if blue {
                205int
            } else {
                0
            })
            &&& 8 < index && index != 12 ==> r == (if red {
                255int
            } else {
                0
            }) && g == (if green {
                255int
            } else {
                0
            }) && b == (if blue {
                255int
            } else {
                0
            })
        }),
{
}

/// A color of the host has no value, a direct color is its own, and an indexed
/// one is that of the palette.
pub proof fn colors_that_have_a_value(color: &Color, rgb: Option<(u8, u8, u8)>)
    requires
        call_ensures(Color::to_rgb, (color,), rgb),
    ensures
        rgb is None <==> *color is Default,
        *color matches Color::Rgb(r, g, b) ==> rgb == Some((r, g, b)),
        *color matches Color::Indexed(index) ==> rgb == Some(palette_color(index)),
{
}

/// A history that is cut down is its newest part, the longest that keeps to
/// both limits. Where either limit is zero nothing is left.
pub proof fn histories_keep_to_their_limits(
    lines: Seq<Seq<Cell>>,
    max_lines: nat,
    max_cells: nat,
)
    ensures
        ({
            let left = trimmed(lines, max_lines, max_cells);
            let gone = lines.len() - left.len();
            &&& gone >= 0
            &&& left == lines.skip(gone)
            &&& left.len() <= max_lines
            &&& cell_total(left) <= max_cells
            &&& max_lines == 0 || max_cells == 0 ==> left.len() == 0
            &&& max_lines > 0 && max_cells > 0 && gone > 0 ==> left.len() + 1 > max_lines
                || cell_total(left) + lines[gone - 1].len() > max_cells
        }),
{
    trimming_keeps_the_newest(lines, max_lines, max_cells);
    let left = trimmed(lines, max_lines, max_cells);
    let gone = lines.len() - left.len();
    if max_lines == 0 || max_cells == 0 {
        assert(left.len() == 0);
    } else if gone > 0 {
        let more = lines.skip(gone - 1);
        lemma_cell_total_skip(more);
        assert(more.skip(1) =~= left);
    }
}

/// The cells of a history are those of its lines.
pub proof fn cells_add_up(a: Seq<Seq<Cell>>, line: Seq<Cell>, b: Seq<Seq<Cell>>)
    ensures
        cell_total(Seq::empty()) == 0,
        cell_total(a + b) == cell_total(a) + cell_total(b),
        cell_total(a.push(line)) == cell_total(a) + line.len(),
{
    lemma_cell_total_concat(a, b);
    assert(a.push(line).drop_last() =~= a);
}

/// Limits keep no history where either of them is zero.
pub proof fn limits_that_keep_nothing(limits: ScrollbackLimits)
    ensures
        limits.spec_is_disabled() <==> limits.max_lines == 0 || limits.max_cells == 0,
        limits.spec_is_disabled() <==> forall|lines: Seq<Seq<Cell>>|
            (#[trigger] trimmed(
                lines,
                limits.max_lines as nat,
                limits.max_cells as nat,
            )).len() == 0,
{
    if !limits.spec_is_disabled() {
        let line: Seq<Cell> = Seq::empty();
        let lines = seq![line];
        cells_add_up(Seq::empty(), line, Seq::empty());
        assert(lines =~= Seq::<Seq<Cell>>::empty().push(line));
        assert(trimmed(lines, limits.max_lines as nat, limits.max_cells as nat).len() == 1);
    }
}

/// A character takes the columns that it has, at most two; one that has more
/// takes one. Only a control character has none to take.
pub proof fn characters_take_up_to_two_columns(columns: Option<usize>)
    ensures
        shown_columns(columns) is None <==> columns is None,
        columns matches Some(n) ==> n == 0 || n == 1 || n == 2 ==> shown_columns(columns)
            == columns,
        columns matches Some(n) ==> n > 2 ==> shown_columns(columns) == Some(1usize),
{
}

/// There are two directions, and each is the other of the other.
pub proof fn directions_are_two(direction: Direction)
    ensures
        direction.other() != direction,
        direction.other().other() == direction,
{
}

/// An exit status has a code, or else a signal. One without either counts as
/// a success.
pub proof fn exits_have_a_code_or_a_signal(
    code: Option<i32>,
    signal: Option<i32>,
    core_dumped: bool,
)
    ensures
        ({
            let exit = ObservedExit::of_status(code, signal, core_dumped);
            &&& exit is Signaled <==> code is None && signal is Some
            &&& exit matches ObservedExit::Signaled { signal: s, core_dumped: c } ==> signal
                == Some(s) && c == core_dumped
            &&& exit matches ObservedExit::Exited { code: c } ==> (code is Some ==> code == Some(c))
                && (code is None ==> c == 0)
        }),
{
}

/// What is done about a child that has not been reaped goes by what is known
/// of it: nothing is asked once its exit is known, and it is waited for unless
/// observing it has failed for good. A signal is sent as long as it was not
/// reaped.
pub proof fn unreaped_children(observed: Option<ObservedExit>, failed: Option<PtyError>)
    ensures
        ({
            let child = ClosingPtyProcess {
                state: ClosingState::Unreaped { observed, lifecycle_error: failed },
            };
            &&& failed is None <==> child.is_waitable()
            &&& failed is None && observed is None ==> child.poll_step() is Ask
            &&& failed is None ==> child.reap_step() is Wait
            &&& failed is None && observed is Some ==> child.poll_step() == PollStep::Answer(
                Ok(observed),
            )
            &&& failed matches Some(error) ==> child.poll_step() == PollStep::Answer(Err(error))
                && child.reap_step() == ReapStep::Answer(Err(error))
            &&& child.unsent_signal() is None
        }),
{
}

/// A code that stands for no exit is remembered: it is the answer from then
/// on. No event, and what is no error of the child, change nothing.
pub proof fn unknown_codes_are_remembered(child: ClosingPtyProcess, code: i32)
    requires
        child.is_waitable(),
    ensures
        ({
            let after = child.after_poll(Err(PtyError::UnknownWaitCode(code)));
            &&& after.poll_step() == PollStep::Answer(Err(PtyError::UnknownWaitCode(code)))
            &&& after.reap_step() == ReapStep::Answer(Err(PtyError::UnknownWaitCode(code)))
            &&& after.unsent_signal() is None
            &&& after.observed() == child.observed()
            &&& !after.is_waitable()
        }),
        child.after_poll(Ok(None)) == child,
        child.after_poll(Err(PtyError::ExitMismatch)) == child,
        child.after_wait(Err(PtyError::ExitMismatch)) == child,
        child.after_wait(Err(PtyError::UnknownWaitCode(code))) == child,
{
}

/// What waiting for a child reports: nothing without an event, else an exit
/// that carries the status, where the three codes of the platform tell how the
/// child ended. Any other code is handed back.
pub proof fn events_of_a_child(
    codes: WaitCodes,
    pid: i32,
    code: i32,
    status: i32,
    exit: Result<Option<ObservedExit>, PtyError>,
)
    requires
        call_ensures(classify_wait, (codes, pid, code, status), exit),
        codes.exited != codes.killed,
        codes.killed != codes.dumped,
        codes.dumped != codes.exited,
    ensures
        exit == Ok::<Option<ObservedExit>, PtyError>(None) <==> pid == 0,
        exit == Ok::<Option<ObservedExit>, PtyError>(
            Some(ObservedExit::Exited { code: status }),
        ) <==> pid != 0 && code == codes.exited,
        exit == Ok::<Option<ObservedExit>, PtyError>(
            Some(ObservedExit::Signaled { signal: status, core_dumped: false }),
        ) <==> pid != 0 && code == codes.killed,
        exit == Ok::<Option<ObservedExit>, PtyError>(
            Some(ObservedExit::Signaled { signal: status, core_dumped: true }),
        ) <==> pid != 0 && code == codes.dumped,
        exit is Err <==> pid != 0 && code != codes.exited && code != codes.killed && code
            != codes.dumped,
        exit matches Err(error) ==> error == PtyError::UnknownWaitCode(code),
{
}

/// What a failed call means: no child is a lost child, no process is a group
/// that is missing, an input/output error is a peer that is gone. Any other
/// number is handed back.
pub proof fn failures_of_calls(
    codes: ErrorCodes,
    errno: i32,
    wait: PtyError,
    sent: Result<SignalOutcome, PtyError>,
    signal: Result<SignalOutcome, PtyError>,
    gone: bool,
    well: bool,
)
    requires
        call_ensures(classify_wait_failure, (codes, errno), wait),
        call_ensures(classify_signal, (codes, None::<i32>), sent),
        call_ensures(classify_signal, (codes, Some(errno)), signal),
        call_ensures(is_gone, (codes, Some(errno)), gone),
        call_ensures(is_gone, (codes, None::<i32>), well),
    ensures
        wait == PtyError::OwnershipLost <==> errno == codes.no_child,
        errno != codes.no_child ==> wait == PtyError::Os(errno),
        sent == Ok::<SignalOutcome, PtyError>(SignalOutcome::Sent),
        errno == codes.no_process ==> signal == Ok::<SignalOutcome, PtyError>(
            SignalOutcome::GroupMissing,
        ),
        errno != codes.no_process ==> signal == Err::<SignalOutcome, PtyError>(
            PtyError::Os(errno),
        ),
        gone <==> errno == codes.io,
        !well,
{
}

/// What was observed of a child has to be how it ended: another status is a
/// mismatch, though the child is reaped all the same.
pub proof fn exits_are_compared(
    before: &mut ClosingPtyProcess,
    result: Result<ObservedExit, PtyError>,
    answer: Result<ObservedExit, PtyError>,
)
    requires
        call_ensures(ClosingPtyProcess::note_wait, (before, result), answer),
    ensures
        ({
            let observed = old(before).observed();
            &&& result matches Err(error) ==> answer == result
            &&& result is Ok && observed is None ==> answer == result
            &&& result is Ok && observed is Some ==> (answer == result <==> result == Ok::<
                ObservedExit,
                PtyError,
            >(observed->0)) && (answer != result ==> answer == Err::<ObservedExit, PtyError>(
                PtyError::ExitMismatch,
            ))
        }),
{
}

/// The settings that a driver has by itself are valid: it moves a page for
/// each session and direction in at most four calls, and sixteen pages in all.
pub proof fn settings_by_default()
    ensures
        ({
            let c = DriverConfig::standard();
            &&& c.is_valid()
            &&& c.read_byte_quantum == 4096 && c.write_byte_quantum == 4096
            &&& c.read_syscall_quantum == 4 && c.write_syscall_quantum == 4
            &&& c.drive_byte_budget == 16 * 4096 && c.drive_syscall_budget == 64
            &&& c.write_queue_limit == 16 * 4096 && c.read_buffer_limit == 16 * 4096
            &&& c.pending_reply_limit == 16 * 4096
        }),
{
}

/// A setting that is rejected is told by its name, and by what it has to be.
pub proof fn rejected_settings_are_named(field: ConfigField)
    ensures
        ({
            let name = match field {
                ConfigField::ReadByteQuantum => "read_byte_quantum"@,
                ConfigField::ReadSyscallQuantum => "read_syscall_quantum"@,
                ConfigField::WriteByteQuantum => "write_byte_quantum"@,
                ConfigField::WriteSyscallQuantum => "write_syscall_quantum"@,
                ConfigField::DriveByteBudget => "drive_byte_budget"@,
                ConfigField::DriveSyscallBudget => "drive_syscall_budget"@,
                ConfigField::WriteQueueLimit => "write_queue_limit"@,
                ConfigField::ReadBufferLimit => "read_buffer_limit"@,
                ConfigField::PendingReplyLimit => "pending_reply_limit"@,
            };
            let zero = ConfigError::Zero(field).spec_message();
            let small = ConfigError::HoldsNoReply(field).spec_message();
            &&& name.is_prefix_of(zero) && zero.skip(name.len() as int) == " must be non-zero"@
            &&& name.is_prefix_of(small) && small.skip(name.len() as int)
                == " must be able to hold one full terminal reply"@
        }),
{
    let name = field.spec_name();
    let zero = ConfigError::Zero(field).spec_message();
    let small = ConfigError::HoldsNoReply(field).spec_message();
    assert(zero.subrange(0, name.len() as int) =~= name);
    assert(small.subrange(0, name.len() as int) =~= name);
    assert(zero.skip(name.len() as int) =~= " must be non-zero"@);
    assert(small.skip(name.len() as int) =~= " must be able to hold one full terminal reply"@);
}

} // verus!
