//! The terminal behind a pane: what its process prints goes in, and the screen
//! comes out.

use crate::screen;
use crate::screen::{
    cell_continuation, cell_text, cell_wide, render_screen, size_of, snapshot, Cell, PaneSnapshot,
};
use vstd::prelude::*;

verus! {

/// A terminal emulator: a `vt100::Parser` that is never scrolled back.
#[verifier::external_body]
pub struct Emulator {
    parser: vt100::Parser,
}

/// A new emulator of this size, which keeps up to `scrollback_len` rows that have
/// left its screen.
pub uninterp spec fn new_emulator(rows: u16, cols: u16, scrollback_len: usize) -> Emulator;

/// An emulator with some output taken in.
pub uninterp spec fn emulator_after(emulator: Emulator, output: Seq<u8>) -> Emulator;

/// An emulator at another size.
pub uninterp spec fn resized_emulator(emulator: Emulator, rows: u16, cols: u16) -> Emulator;

/// What an emulator has on display.
pub uninterp spec fn emulator_screen(emulator: Emulator) -> vt100::Screen;

/// The cells of an emulator's main buffer, on display or not.
pub uninterp spec fn main_cells(emulator: Emulator) -> Map<(u16, u16), Cell>;

/// The cells of an emulator's alternate buffer, on display or not.
pub uninterp spec fn alternate_cells(emulator: Emulator) -> Map<(u16, u16), Cell>;

/// The rows and columns of an emulator.
pub open spec fn emulator_size(emulator: Emulator) -> (u16, u16) {
    screen::screen_size(emulator_screen(emulator))
}

/// Whether there are cells only in so many rows and columns.
pub open spec fn within(cells: Map<(u16, u16), Cell>, size: (u16, u16)) -> bool {
    forall|row: u16, col: u16| #[trigger]
        cells.contains_key((row, col)) ==> row < size.0 && col < size.1
}

/// Whether the cell at a place, if there is one, is not one half of a wide
/// character without the other half next to it.
pub open spec fn half_is_paired(cells: Map<(u16, u16), Cell>, row: u16, col: u16) -> bool {
    cells.contains_key((row, col)) ==> {
        &&& cells[(row, col)].wide ==> col < u16::MAX && cells.contains_key(
            (row, (col + 1) as u16),
        ) && cells[(row, (col + 1) as u16)].continuation
        &&& cells[(row, col)].continuation ==> col > 0 && cells.contains_key(
            (row, (col - 1) as u16),
        ) && cells[(row, (col - 1) as u16)].wide
    }
}

/// Whether every wide character has both its halves.
pub open spec fn paired(cells: Map<(u16, u16), Cell>) -> bool {
    forall|row: u16, col: u16| #[trigger] half_is_paired(cells, row, col)
}

/// Whether every wide character in both buffers has both its halves.
pub open spec fn whole(emulator: Emulator) -> bool {
    paired(main_cells(emulator)) && paired(alternate_cells(emulator))
}

/// A screen with fewer rows has no row to wrap into.
pub const MIN_ROWS: u16 = 2;

/// The widest character takes so many columns.
pub const MIN_COLS: u16 = 3;

/// Beyond this the next tab stop cannot be counted.
pub const MAX_COLS: u16 = 65527;

/// Whether an emulator can take in any output. One that is too small, or too wide,
/// or whose columns were cut down through the middle of a wide character, fails on
/// some outputs.
pub open spec fn can_take(emulator: Emulator) -> bool {
    &&& emulator_size(emulator).0 >= MIN_ROWS
    &&& MIN_COLS <= emulator_size(emulator).1 <= MAX_COLS
    &&& whole(emulator)
}

/// `vt100::Parser::new` makes an emulator of a size that has at least one row. Its
/// cells are blank.
#[verifier::external_body]
fn start(rows: u16, cols: u16, scrollback_len: usize) -> (emulator: Emulator)
    requires
        rows >= 1,
    ensures
        emulator == new_emulator(rows, cols, scrollback_len),
        emulator_size(emulator) == (rows, cols),
        whole(emulator),
{
    Emulator { parser: vt100::Parser::new(rows, cols, scrollback_len) }
}

/// `vt100::Parser::process` takes in output. It does not change the size, and where
/// it draws over or moves one half of a wide character it takes care of the other.
///
/// It counts on two rows where a line wraps, on as many columns as the widest
/// character takes, on the number of the next tab stop being in range, and on every
/// half of a wide character having its other half, so nothing is claimed elsewhere:
/// not of an output that happens to need none of these either.
#[verifier::external_body]
fn process(emulator: &mut Emulator, output: &[u8])
    requires
        can_take(*old(emulator)),
    ensures
        *final(emulator) == emulator_after(*old(emulator), output@),
        emulator_size(*final(emulator)) == emulator_size(*old(emulator)),
        whole(*final(emulator)),
{
    emulator.parser.process(output);
}

/// `vt100::Screen::set_size` gives both buffers another size, of at least one row
/// and one column.
#[verifier::external_body]
fn set_size(emulator: &mut Emulator, rows: u16, cols: u16)
    requires
        emulator_size(*old(emulator)).0 >= 1,
        rows >= 1,
        cols >= 1,
    ensures
        *final(emulator) == resized_emulator(*old(emulator), rows, cols),
        emulator_size(*final(emulator)) == (rows, cols),
{
    emulator.parser.screen_mut().set_size(rows, cols);
}

/// `vt100::Parser::screen` gives what is on display.
#[verifier::external_body]
fn screen_of(emulator: &Emulator) -> (screen: &vt100::Screen)
    ensures
        *screen == emulator_screen(*emulator),
{
    emulator.parser.screen()
}

/// A copy of the screen that displays the main buffer: a clone of the
/// `vt100::Screen`, switched by the control sequence for it. It has no cells beyond
/// its size.
#[verifier::external_body]
fn main_buffer(emulator: &Emulator) -> (screen: vt100::Screen)
    ensures
        screen::screen_cells(screen) == main_cells(*emulator),
        screen::screen_size(screen) == emulator_size(*emulator),
        within(screen::screen_cells(screen), screen::screen_size(screen)),
{
    let mut parser = vt100::Parser::default();
    *parser.screen_mut() = emulator.parser.screen().clone();
    parser.process(b"\x1b[?47l");
    parser.screen().clone()
}

/// A copy of the screen that displays the alternate buffer: a clone of the
/// `vt100::Screen`, switched by the control sequence for it. It has no cells beyond
/// its size.
#[verifier::external_body]
fn alternate_buffer(emulator: &Emulator) -> (screen: vt100::Screen)
    ensures
        screen::screen_cells(screen) == alternate_cells(*emulator),
        screen::screen_size(screen) == emulator_size(*emulator),
        within(screen::screen_cells(screen), screen::screen_size(screen)),
{
    let mut parser = vt100::Parser::default();
    *parser.screen_mut() = emulator.parser.screen().clone();
    parser.process(b"\x1b[?47h");
    parser.screen().clone()
}

/// Whether there is a cell at a place, and it is the first half of a wide
/// character.
fn wide_at(screen: &vt100::Screen, row: u16, col: u16) -> (yes: bool)
    ensures
        yes == (screen::screen_cells(*screen).contains_key((row, col))
            && screen::screen_cells(*screen)[(row, col)].wide),
{
    cell_text(screen, row, col).is_some() && cell_wide(screen, row, col)
}

/// Whether there is a cell at a place, and it is the second half of a wide
/// character.
fn continuation_at(screen: &vt100::Screen, row: u16, col: u16) -> (yes: bool)
    ensures
        yes == (screen::screen_cells(*screen).contains_key((row, col))
            && screen::screen_cells(*screen)[(row, col)].continuation),
{
    cell_text(screen, row, col).is_some() && cell_continuation(screen, row, col)
}

/// Whether every wide character on display has both its halves.
fn is_paired(screen: &vt100::Screen) -> (yes: bool)
    requires
        within(screen::screen_cells(*screen), screen::screen_size(*screen)),
    ensures
        yes == paired(screen::screen_cells(*screen)),
{
    let ghost cells = screen::screen_cells(*screen);
    let (rows, cols): (u16, u16) = size_of(screen);
    let mut row: u16 = 0;
    while row < rows
        invariant
            row <= rows,
            (rows, cols) == screen::screen_size(*screen),
            cells == screen::screen_cells(*screen),
            within(cells, (rows, cols)),
            forall|r: u16, c: u16| r < row ==> #[trigger] half_is_paired(cells, r, c),
        decreases rows - row,
    {
        let mut col: u16 = 0;
        while col < cols
            invariant
                row < rows,
                col <= cols,
                (rows, cols) == screen::screen_size(*screen),
                cells == screen::screen_cells(*screen),
                forall|r: u16, c: u16| r < row ==> #[trigger] half_is_paired(cells, r, c),
                forall|c: u16| c < col ==> #[trigger] half_is_paired(cells, row, c),
            decreases cols - col,
        {
            let first_alone: bool = wide_at(screen, row, col) && !continuation_at(
                screen,
                row,
                col + 1,
            );
            let second_alone: bool = continuation_at(screen, row, col) && (col == 0 || !wide_at(
                screen,
                row,
                col - 1,
            ));
            if first_alone || second_alone {
                assert(!half_is_paired(cells, row, col));
                return false;
            }
            assert(half_is_paired(cells, row, col));
            col = col + 1;
        }
        assert forall|r: u16, c: u16| r < row + 1 implies #[trigger] half_is_paired(cells, r, c) by {
            if r == row && c >= cols {
                assert(!cells.contains_key((r, c)));
            }
        }
        row = row + 1;
    }
    assert forall|r: u16, c: u16| #[trigger] half_is_paired(cells, r, c) by {
        if r >= rows {
            assert(!cells.contains_key((r, c)));
        }
    }
    true
}

fn is_whole(emulator: &Emulator) -> (yes: bool)
    ensures
        yes == whole(*emulator),
{
    is_paired(&main_buffer(emulator)) && is_paired(&alternate_buffer(emulator))
}

/// The screen of a pane, kept in step with everything that its process prints.
pub struct PaneScreen {
    emulator: Emulator,
    whole: bool,
}

impl View for PaneScreen {
    type V = Emulator;

    closed spec fn view(&self) -> Emulator {
        self.emulator
    }
}

impl PaneScreen {
    /// There is at least one row, and it is known whether every wide character has
    /// both its halves.
    pub closed spec fn wf(self) -> bool {
        &&& emulator_size(self.emulator).0 >= 1
        &&& self.whole == whole(self.emulator)
    }

    /// A blank screen.
    pub fn new(rows: u16, cols: u16, scrollback_len: usize) -> (screen: Self)
        requires
            rows >= 1,
        ensures
            screen.wf(),
            screen@ == new_emulator(rows, cols, scrollback_len),
            emulator_size(screen@) == (rows, cols),
            can_take(screen@) <==> rows >= MIN_ROWS && MIN_COLS <= cols <= MAX_COLS,
    {
        PaneScreen { emulator: start(rows, cols, scrollback_len), whole: true }
    }

    /// Whether any output can be taken in.
    pub fn can_take_output(&self) -> (yes: bool)
        requires
            self.wf(),
        ensures
            yes == can_take(self@),
    {
        let (rows, cols): (u16, u16) = self.size();
        rows >= MIN_ROWS && MIN_COLS <= cols && cols <= MAX_COLS && self.whole
    }

    /// Takes in what the process has printed: exactly these bytes, once. Any output
    /// can be taken in after it, too.
    pub fn take_output(&mut self, output: &[u8])
        requires
            old(self).wf(),
            can_take(old(self)@),
        ensures
            final(self).wf(),
            final(self)@ == emulator_after(old(self)@, output@),
            emulator_size(final(self)@) == emulator_size(old(self)@),
            can_take(final(self)@),
    {
        process(&mut self.emulator, output);
    }

    /// Gives the screen another size.
    pub fn resize(&mut self, rows: u16, cols: u16)
        requires
            old(self).wf(),
            rows >= 1,
            cols >= 1,
        ensures
            final(self).wf(),
            final(self)@ == resized_emulator(old(self)@, rows, cols),
            emulator_size(final(self)@) == (rows, cols),
    {
        set_size(&mut self.emulator, rows, cols);
        self.whole = is_whole(&self.emulator);
    }

    /// What is on display.
    pub fn screen(&self) -> (screen: &vt100::Screen)
        ensures
            *screen == emulator_screen(self@),
    {
        screen_of(&self.emulator)
    }

    /// The rows and columns.
    pub fn size(&self) -> (size: (u16, u16))
        ensures
            size == emulator_size(self@),
    {
        size_of(self.screen())
    }

    /// A picture of what is on display.
    pub fn snapshot(&self) -> (picture: PaneSnapshot)
        ensures
            picture.shows(
                emulator_size(self@),
                screen::screen_cells(emulator_screen(self@)),
                screen::screen_cursor(emulator_screen(self@)),
            ),
    {
        snapshot(self.screen())
    }

    /// What is on display, as plain text.
    pub fn render(&self) -> (out: String)
        ensures
            out@ == screen::screen_text(
                screen::screen_cells(emulator_screen(self@)),
                emulator_size(self@).0 as int,
                emulator_size(self@).1 as int,
            ),
    {
        render_screen(self.screen())
    }
}

/// Any output can be taken in where there are at least two rows and from three up to
/// 65527 columns, and where in neither buffer a half of a wide character stands
/// without the other half beside it.
pub proof fn lemma_what_can_take_any_output(emulator: Emulator)
    ensures
        can_take(emulator) <==> {
            &&& emulator_size(emulator).0 >= 2
            &&& 3 <= emulator_size(emulator).1 <= 65527
            &&& forall|row: u16, col: u16|
                #[trigger] main_cells(emulator).contains_key((row, col)) ==> has_other_half(
                    main_cells(emulator),
                    row as int,
                    col as int,
                )
            &&& forall|row: u16, col: u16|
                #[trigger] alternate_cells(emulator).contains_key((row, col)) ==> has_other_half(
                    alternate_cells(emulator),
                    row as int,
                    col as int,
                )
        },
{
    lemma_halves(main_cells(emulator));
    lemma_halves(alternate_cells(emulator));
}

/// Whether a cell that is the first half of a wide character has a second half to
/// its right, and one that is the second half a first half to its left.
pub open spec fn has_other_half(cells: Map<(u16, u16), Cell>, row: int, col: int) -> bool {
    &&& cells[(row as u16, col as u16)].wide ==> exists|next: u16|
        next == col + 1 && #[trigger] cells.contains_key((row as u16, next)) && cells[(
            row as u16,
            next,
        )].continuation
    &&& cells[(row as u16, col as u16)].continuation ==> exists|before: u16|
        before == col - 1 && #[trigger] cells.contains_key((row as u16, before)) && cells[(
            row as u16,
            before,
        )].wide
}

proof fn lemma_halves(cells: Map<(u16, u16), Cell>)
    ensures
        paired(cells) <==> forall|row: u16, col: u16| #[trigger]
            cells.contains_key((row, col)) ==> has_other_half(cells, row as int, col as int),
{
    if paired(cells) {
        assert forall|row: u16, col: u16| #[trigger] cells.contains_key((row, col)) implies has_other_half(
            cells,
            row as int,
            col as int,
        ) by {
            assert(half_is_paired(cells, row, col));
            if cells[(row, col)].wide {
                let next: u16 = (col + 1) as u16;
                assert(cells.contains_key((row, next)));
            }
            if cells[(row, col)].continuation {
                let before: u16 = (col - 1) as u16;
                assert(cells.contains_key((row, before)));
            }
        }
    }
    if forall|row: u16, col: u16| #[trigger]
        cells.contains_key((row, col)) ==> has_other_half(cells, row as int, col as int) {
        assert forall|row: u16, col: u16| #[trigger] half_is_paired(cells, row, col) by {
            if cells.contains_key((row, col)) {
                assert(has_other_half(cells, row as int, col as int));
            }
        }
    }
}

} // verus!
