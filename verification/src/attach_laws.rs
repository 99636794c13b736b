//! What an attached client does with rows of bytes and of cells.

use crate::attach;
use crate::attach::{Command, CopyProgress, ServerEvent};
use crate::config::Action;
use crate::copy_mode;
use crate::copy_mode::CopyModeState;
use crate::input::Output;
use crate::layout::Orientation;
use vstd::prelude::*;
use vstd::utf8::*;

verus! {

/// Once a byte has left copy mode, what follows it is of no account.
pub proof fn lemma_bytes_after_leaving_are_ignored(
    state: CopyModeState,
    bytes: Seq<u8>,
    more: Seq<u8>,
)
    requires
        attach::copy_run(state, bytes).exit,
    ensures
        attach::copy_run(state, bytes + more) == attach::copy_run(state, bytes),
    decreases more.len(),
{
    let all = bytes + more;
    if more.len() == 0 {
        assert(all =~= bytes);
    } else {
        assert(all.drop_last() =~= bytes + more.drop_last());
        lemma_bytes_after_leaving_are_ignored(state, bytes, more.drop_last());
    }
}

proof fn lemma_offset_in_range(state: CopyModeState, bytes: Seq<u8>)
    requires
        state.scrollback_offset + bytes.len() <= usize::MAX,
    ensures
        0 <= attach::copy_run(state, bytes).offset <= state.scrollback_offset + bytes.len(),
    decreases bytes.len(),
{
    if bytes.len() > 0 {
        lemma_offset_in_range(state, bytes.drop_last());
    }
}

/// It does not matter how bytes come in rows: a row goes on where the row before
/// it ended.
pub proof fn lemma_rows_in_copy_mode_go_on(state: CopyModeState, bytes: Seq<u8>, more: Seq<u8>)
    requires
        state.scrollback_offset + bytes.len() + more.len() <= usize::MAX,
        !attach::copy_run(state, bytes).exit,
    ensures
        ({
            let before = attach::copy_run(state, bytes);
            let then = attach::copy_run(attach::copy_state(state, before), more);
            attach::copy_run(state, bytes + more) == (CopyProgress {
                redraw: before.redraw || then.redraw,
                ..then
            })
        }),
    decreases more.len(),
{
    let all = bytes + more;
    let before = attach::copy_run(state, bytes);
    lemma_offset_in_range(state, bytes);
    lemma_nothing_is_copied_before_leaving(state, bytes);
    if more.len() == 0 {
        assert(all =~= bytes);
    } else {
        let rest = more.drop_last();
        assert(all.drop_last() =~= bytes + rest);
        assert(all.last() == more.last());
        lemma_rows_in_copy_mode_go_on(state, bytes, rest);
    }
}

/// A selection is copied only where copy mode is left with it.
pub proof fn lemma_nothing_is_copied_before_leaving(state: CopyModeState, bytes: Seq<u8>)
    ensures
        attach::copy_run(state, bytes).yank is Some ==> attach::copy_run(state, bytes).exit,
    decreases bytes.len(),
{
    if bytes.len() > 0 {
        lemma_nothing_is_copied_before_leaving(state, bytes.drop_last());
    }
}

/// One byte does what the key stands for: `q` and Escape leave, `v` starts the
/// selection, `y` copies one that was started and leaves, and a move is drawn.
pub proof fn lemma_one_byte_in_copy_mode(state: CopyModeState, b: u8)
    ensures
        ({
            let after = attach::copy_run(state, seq![b]);
            let copies = b == 'y' as u8 && state.selecting_from is Some;
            &&& after.exit <==> b == 'q' as u8 || b == 27 || copies
            &&& after.yank == if copies {
                Some((state.selecting_from->0, state.cursor))
            } else {
                None
            }
            &&& after.selecting_from == if b == 'v' as u8 {
                Some(state.cursor)
            } else {
                state.selecting_from
            }
            &&& after.redraw <==> b == 'h' as u8 || b == 'j' as u8 || b == 'k' as u8 || b
                == 'l' as u8
            &&& !after.redraw ==> after.cursor == state.cursor && after.offset
                == state.scrollback_offset
        }),
{
    let one = seq![b];
    assert(one.drop_last() =~= seq![]);
    assert(attach::copy_run(state, one.drop_last()) == attach::copy_start(state));
}

/// A selection that is started, carried on by moves and copied runs from where the
/// cursor was to where the moves took it, and copy mode is left.
pub proof fn lemma_selection_runs_from_start_to_cursor(state: CopyModeState, moves: Seq<u8>)
    requires
        state.scrollback_offset + moves.len() + 2 <= usize::MAX,
        forall|i: int|
            0 <= i < moves.len() ==> #[trigger] moves[i] == 'h' as u8 || moves[i] == 'j' as u8
                || moves[i] == 'k' as u8 || moves[i] == 'l' as u8,
    ensures
        ({
            let after = attach::copy_run(state, seq!['v' as u8] + moves + seq!['y' as u8]);
            &&& after.exit
            &&& after.yank == Some((state.cursor, attach::copy_run(state, moves).cursor))
            &&& after.offset == attach::copy_run(state, moves).offset
        }),
{
    let all = seq!['v' as u8] + moves + seq!['y' as u8];
    lemma_selecting(state, moves);
    assert(all.drop_last() =~= seq!['v' as u8] + moves);
    lemma_offset_in_range(state, moves);
}

proof fn lemma_selecting(state: CopyModeState, moves: Seq<u8>)
    requires
        state.scrollback_offset + moves.len() + 1 <= usize::MAX,
        forall|i: int|
            0 <= i < moves.len() ==> #[trigger] moves[i] == 'h' as u8 || moves[i] == 'j' as u8
                || moves[i] == 'k' as u8 || moves[i] == 'l' as u8,
    ensures
        ({
            let plain = attach::copy_run(state, moves);
            let after = attach::copy_run(state, seq!['v' as u8] + moves);
            &&& !after.exit
            &&& !plain.exit
            &&& after.selecting_from == Some(state.cursor)
            &&& after.cursor == plain.cursor
            &&& after.offset == plain.offset
        }),
    decreases moves.len(),
{
    let all = seq!['v' as u8] + moves;
    if moves.len() == 0 {
        assert(all.drop_last() =~= seq![]);
        assert(attach::copy_run(state, all.drop_last()) == attach::copy_start(state));
    } else {
        let rest = moves.drop_last();
        assert forall|i: int| 0 <= i < rest.len() implies #[trigger] rest[i] == 'h' as u8 || rest[i]
            == 'j' as u8 || rest[i] == 'k' as u8 || rest[i] == 'l' as u8 by {
            assert(rest[i] == moves[i]);
        }
        lemma_selecting(state, rest);
        assert(all.drop_last() =~= seq!['v' as u8] + rest);
        assert(all.last() == moves.last());
        assert(moves[moves.len() - 1] == moves.last());
    }
}

/// What is typed goes to the pane as it is. Every action asks for something of its
/// own, but for the two that no configuration binds: these ask for nothing.
pub proof fn lemma_every_action_asks_for_its_own(bytes: Seq<u8>, one: Action, other: Action)
    ensures
        attach::command_for(Output::Forward(bytes)) == Command::Send(bytes),
        attach::command_for(Output::Action(one)) == attach::command_of(one),
        !(attach::command_of(one) is Send),
        attach::command_of(one) is Nothing <==> one is ExitCopyMode || one is SendPrefixLiteral,
        attach::command_of(one) == attach::command_of(other) && !(attach::command_of(
            one,
        ) is Nothing) ==> one == other,
        attach::command_of(one) is Split <==> one is SplitHorizontal || one is SplitVertical,
        attach::command_of(one) == Command::Split(Orientation::Vertical) ==> one is SplitVertical,
        attach::command_of(one) is SwitchWindow <==> one is NextWindow || one is PrevWindow,
        attach::command_of(one) == (Command::SwitchWindow { forward: true }) ==> one is NextWindow,
        attach::command_of(one) is Detach <==> one is Detach,
        attach::command_of(one) is KillPane <==> one is KillPane,
        attach::command_of(one) is NewWindow <==> one is NewWindow,
{
}

/// The status bar shows copy mode's keys whenever copy mode is on, and the leader's
/// only where it is off.
pub proof fn lemma_copy_mode_is_shown_first(copying: bool, armed: bool)
    ensures
        attach::mode_for(copying, armed) is CopyMode <==> copying,
        attach::mode_for(copying, armed) is PrefixArmed <==> armed && !copying,
        attach::mode_for(copying, armed) is Normal <==> !armed && !copying,
{
}

/// A row of cells is drawn cell by cell.
pub proof fn lemma_cells_are_drawn_in_order(front: Seq<String>, back: Seq<String>)
    ensures
        attach::plain_row(front + back) == attach::plain_row(front) + attach::plain_row(back),
    decreases back.len(),
{
    let all = front + back;
    if back.len() == 0 {
        assert(all =~= front);
        assert(attach::plain_row(back) =~= seq![]);
        assert(attach::plain_row(front) + attach::plain_row(back) =~= attach::plain_row(front));
    } else {
        assert(all.drop_last() =~= front + back.drop_last());
        assert(all.last() == back.last());
        lemma_cells_are_drawn_in_order(front, back.drop_last());
        assert(attach::plain_row(all) =~= attach::plain_row(front) + attach::plain_row(back));
    }
}

/// A cell is drawn as its text, and an empty one as a space.
pub proof fn lemma_how_a_cell_is_drawn(cell: String)
    ensures
        cell@.len() > 0 ==> attach::plain_row(seq![cell]) == cell@,
        cell@.len() == 0 ==> attach::plain_row(seq![cell]) == seq![' '],
{
    reveal_strlit(" ");
    let one = seq![cell];
    assert(one.drop_last() =~= seq![]);
    assert(attach::plain_row(one.drop_last()) =~= seq![]);
    assert(" "@ =~= seq![' ']);
    assert(attach::plain_row(one) =~= if cell@.len() == 0 {
        seq![' ']
    } else {
        cell@
    });
}

/// A grid is drawn row by row, each row with a carriage return and a line feed
/// behind it, on a screen that is cleared first, from its top-left corner on.
pub proof fn lemma_how_a_grid_is_drawn(front: Seq<Vec<String>>, back: Seq<Vec<String>>, row: Vec<
    String,
>)
    ensures
        attach::plain_rows(front + back) == attach::plain_rows(front) + attach::plain_rows(back),
        attach::plain_rows(seq![row]) == attach::plain_row(row@) + seq!['\r', '\n'],
        attach::plain_rows(seq![]).len() == 0,
        attach::plain_grid(front) == seq!['\u{1b}', '[', '2', 'J', '\u{1b}', '[', 'H']
            + attach::plain_rows(front),
    decreases back.len(),
{
    reveal_strlit("\r\n");
    reveal_strlit("\x1b[2J\x1b[H");
    assert("\r\n"@ =~= seq!['\r', '\n']);
    assert("\x1b[2J\x1b[H"@ =~= seq!['\u{1b}', '[', '2', 'J', '\u{1b}', '[', 'H']);
    let one = seq![row];
    assert(one.drop_last() =~= seq![]);
    assert(attach::plain_rows(one.drop_last()) =~= seq![]);
    assert(attach::plain_rows(one) =~= attach::plain_row(row@) + seq!['\r', '\n']);
    let all = front + back;
    if back.len() == 0 {
        assert(all =~= front);
        assert(attach::plain_rows(back) =~= seq![]);
        assert(attach::plain_rows(front) + attach::plain_rows(back) =~= attach::plain_rows(front));
    } else {
        assert(all.drop_last() =~= front + back.drop_last());
        assert(all.last() == back.last());
        lemma_how_a_grid_is_drawn(front, back.drop_last(), row);
        assert(attach::plain_rows(all) =~= attach::plain_rows(front) + attach::plain_rows(back));
    }
}

/// Output reaches the terminal as it is unless copy mode has the screen, and the end of
/// the process reaches it in any case. Only that makes the client leave.
pub proof fn lemma_copy_mode_hides_output(bytes: Vec<u8>, copying: bool, event: ServerEvent)
    ensures
        attach::shown(false, ServerEvent::Output(bytes)) == Some((false, bytes@)),
        attach::shown(true, event) is Some ==> event is Exited,
        attach::shown(copying, ServerEvent::Exited) == attach::shown(
            !copying,
            ServerEvent::Exited,
        ),
        (attach::shown(copying, event) matches Some(reaction) && reaction.0) <==> event is Exited,
        attach::shown(copying, ServerEvent::Other) is None,
        attach::shown(false, event) is None ==> event is Other,
        event is OutputGap ==> (attach::chrome_text(event) matches Some(message) && attach::shown(
            false,
            event,
        ) == Some((false, encode_utf8(message)))),
        event is Exited ==> (attach::chrome_text(event) matches Some(message) && attach::shown(
            copying,
            event,
        ) == Some((true, encode_utf8(message + seq!['\n'])))),
{
    reveal_strlit("\n");
    assert("\n"@ =~= seq!['\n']);
}

/// The live screen comes back exactly where copy mode is left, and until then the grid is
/// drawn exactly where something has moved, as far back as it then is.
pub proof fn lemma_what_copy_mode_draws(exit: bool, redraw: bool, offset: usize)
    ensures
        attach::display_after(exit, redraw, offset) is Live <==> exit,
        attach::display_after(exit, redraw, offset) is Nothing <==> !exit && !redraw,
        attach::display_after(false, true, offset) == (attach::CopyDisplay::Grid { offset }),
{
}

/// In copy mode the status line stands below the grid, which is drawn as it is.
pub proof fn lemma_the_status_line_is_below_the_grid(
    grid: Seq<Vec<String>>,
    live: bool,
    offset: nat,
)
    ensures
        attach::copy_screen(grid, live, offset) == attach::plain_grid(grid) + seq!['\r', '\n']
            + copy_mode::status_line(live, offset) + seq!['\n'],
{
    reveal_strlit("\r\n");
    reveal_strlit("\n");
    assert("\r\n"@ =~= seq!['\r', '\n']);
    assert("\n"@ =~= seq!['\n']);
}

} // verus!
