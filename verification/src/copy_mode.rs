//! Copy mode: moving over a pane's screen and its past, and picking out text.

use crate::text;
use crate::text::{bytes_of, push_decimal};
use vstd::prelude::*;
use vstd::utf8::*;

verus! {

/// A cell of the grid on display, counted from its top-left corner.
#[derive(Debug, Clone, Copy, PartialEq, Eq, Structural)]
pub struct CellPos {
    pub row: u16,
    pub col: u16,
}

/// What is to be done after a key in copy mode.
#[derive(Debug, Clone, Copy, PartialEq, Eq, Structural)]
pub enum CopyModeEvent {
    /// The cursor or the offset moved: draw again.
    Redraw,
    /// Leave copy mode.
    Exit,
    /// The selection is to be copied, and copy mode left.
    Yanked,
    /// Nothing.
    Consumed,
}

/// Where copy mode stands. It holds no grid: the caller has it.
#[derive(Debug)]
pub struct CopyModeState {
    /// How far back from the live screen the grid on display is.
    pub scrollback_offset: usize,
    pub cursor: CellPos,
    /// Where the selection started, if there is one.
    pub selecting_from: Option<CellPos>,
    pub yanked: Vec<u8>,
    pub rows: u16,
    pub cols: u16,
}

impl CopyModeState {
    /// Whether the cursor is on the grid.
    pub open spec fn on_grid(self) -> bool {
        self.cursor.row < self.rows && self.cursor.col < self.cols
    }

    /// Whether the cursor can be moved in every direction.
    pub open spec fn movable(self) -> bool {
        self.cursor.row < u16::MAX && self.cursor.col < u16::MAX
    }

    /// Where a key moves the cursor and the offset: `h`, `j`, `k` and `l` go
    /// left, down, up and right, and going up or down at the edge of the grid
    /// moves the grid instead.
    pub open spec fn moved(self, b: u8) -> (CellPos, int) {
        let CellPos { row, col } = self.cursor;
        let offset = self.scrollback_offset as int;
        if b == 0x68 {
            (
                CellPos {
                    row,
                    col: if col == 0 {
                        0
                    } else {
                        (col - 1) as u16
                    },
                },
                offset,
            )
        } else if b == 0x6c {
            let last = if self.cols == 0 {
                0
            } else {
                (self.cols - 1) as u16
            };
            (
                CellPos {
                    row,
                    col: if col < last {
                        (col + 1) as u16
                    } else {
                        last
                    },
                },
                offset,
            )
        } else if b == 0x6b {
            if row == 0 {
                (self.cursor, offset + 1)
            } else {
                (CellPos { row: (row - 1) as u16, col }, offset)
            }
        } else if b == 0x6a {
            if row + 1 >= self.rows {
                (
                    self.cursor,
                    if offset == 0 {
                        0
                    } else {
                        offset - 1
                    },
                )
            } else {
                (CellPos { row: (row + 1) as u16, col }, offset)
            }
        } else {
            (self.cursor, offset)
        }
    }

    /// What a key asks for.
    pub open spec fn event(self, b: u8) -> CopyModeEvent {
        if b == 0x71 || b == 0x1b {
            CopyModeEvent::Exit
        } else if b == 0x68 || b == 0x6a || b == 0x6b || b == 0x6c {
            CopyModeEvent::Redraw
        } else if b == 0x79 && self.selecting_from is Some {
            CopyModeEvent::Yanked
        } else {
            CopyModeEvent::Consumed
        }
    }

    /// Where the selection starts after a key: at the cursor after `v`.
    pub open spec fn anchor(self, b: u8) -> Option<CellPos> {
        if b == 0x76 {
            Some(self.cursor)
        } else {
            self.selecting_from
        }
    }

    /// Copy mode on a grid of this size, with the cursor in its top-left corner
    /// and nothing selected.
    pub fn new(rows: u16, cols: u16) -> (state: Self)
        ensures
            state.scrollback_offset == 0,
            state.cursor == (CellPos { row: 0, col: 0 }),
            state.selecting_from is None,
            state.yanked@ == Seq::<u8>::empty(),
            state.rows == rows,
            state.cols == cols,
            state.movable(),
    {
        CopyModeState {
            scrollback_offset: 0,
            cursor: CellPos { row: 0, col: 0 },
            selecting_from: None,
            yanked: Vec::new(),
            rows,
            cols,
        }
    }

    /// Takes in a key: `h`, `j`, `k` and `l` move, `v` starts a selection at the
    /// cursor, `y` asks for it to be copied, and `q` or Escape leaves.
    pub fn handle_byte(&mut self, b: u8) -> (event: CopyModeEvent)
        requires
            b == 0x6c ==> old(self).cursor.col < u16::MAX,
            b == 0x6b && old(self).cursor.row == 0 ==> old(self).scrollback_offset < usize::MAX,
            b == 0x6a ==> old(self).cursor.row < u16::MAX,
        ensures
            event == old(self).event(b),
            final(self).cursor == old(self).moved(b).0,
            final(self).scrollback_offset == old(self).moved(b).1,
            final(self).selecting_from == old(self).anchor(b),
            final(self).yanked == old(self).yanked,
            final(self).rows == old(self).rows,
            final(self).cols == old(self).cols,
            old(self).on_grid() ==> final(self).on_grid(),
            old(self).movable() ==> final(self).movable(),
    {
        match b {
            0x71 | 0x1b => CopyModeEvent::Exit,
            0x68 => {
                self.cursor.col = self.cursor.col.saturating_sub(1);
                CopyModeEvent::Redraw
            },
            0x6c => {
                let next: u16 = self.cursor.col + 1;
                let last: u16 = self.cols.saturating_sub(1);
                self.cursor.col = if next < last { next } else { last };
                CopyModeEvent::Redraw
            },
            0x6b => {
                if self.cursor.row == 0 {
                    self.scrollback_offset = self.scrollback_offset + 1;
                } else {
                    self.cursor.row = self.cursor.row - 1;
                }
                CopyModeEvent::Redraw
            },
            0x6a => {
                if self.cursor.row + 1 >= self.rows {
                    self.scrollback_offset = self.scrollback_offset.saturating_sub(1);
                } else {
                    self.cursor.row = self.cursor.row + 1;
                }
                CopyModeEvent::Redraw
            },
            0x76 => {
                self.selecting_from = Some(self.cursor);
                CopyModeEvent::Consumed
            },
            0x79 => {
                if self.selecting_from.is_some() {
                    CopyModeEvent::Yanked
                } else {
                    CopyModeEvent::Consumed
                }
            },
            _ => CopyModeEvent::Consumed,
        }
    }
}

/// Whether one position is at or before another, row by row.
pub open spec fn at_or_before(a: CellPos, b: CellPos) -> bool {
    a.row < b.row || (a.row == b.row && a.col <= b.col)
}

/// The two ends of a selection in their order.
pub open spec fn ordered(from: CellPos, to: CellPos) -> (CellPos, CellPos) {
    if at_or_before(from, to) {
        (from, to)
    } else {
        (to, from)
    }
}

/// The cells of a row, as values.
pub open spec fn row_view(row: Seq<String>) -> Seq<Seq<char>> {
    row.map_values(|cell: String| cell@)
}

/// The texts of the first `count` cells of a row that stand in columns `first`
/// to `last`. Columns are counted in 16 bits.
pub open spec fn row_text(row: Seq<Seq<char>>, count: int, first: u16, last: u16) -> Seq<char>
    decreases count,
{
    if count <= 0 {
        seq![]
    } else {
        let before = row_text(row, count - 1, first, last);
        let col = (count - 1) as u16;
        if first <= col <= last {
            before + row[count - 1]
        } else {
            before
        }
    }
}

/// The selected text of the first `count` rows: of the first row from the
/// selection's start on, of the last row up to its end, of those between all of
/// it, with a line break after each but the last. Rows are counted in 16 bits.
pub open spec fn selected(
    grid: Seq<Vec<String>>,
    count: int,
    start: CellPos,
    end: CellPos,
) -> Seq<char>
    decreases count,
{
    if count <= 0 {
        seq![]
    } else {
        let before = selected(grid, count - 1, start, end);
        let row = (count - 1) as u16;
        let cells = row_view(grid[count - 1]@);
        let first = if row == start.row {
            start.col
        } else {
            0
        };
        let last = if row == end.row {
            end.col
        } else if cells.len() == 0 {
            0
        } else {
            (cells.len() - 1) as u16
        };
        if row < start.row || row > end.row {
            before
        } else {
            before + row_text(cells, cells.len() as int, first, last) + if row != end.row {
                seq!['\n']
            } else {
                seq![]
            }
        }
    }
}

/// The text between two cells, both included, in either order, row by row.
pub fn extract_selection(grid: &[Vec<String>], from: CellPos, to: CellPos) -> (bytes: Vec<u8>)
    ensures
        ({
            let (start, end) = ordered(from, to);
            bytes@ == encode_utf8(selected(grid@, grid@.len() as int, start, end))
        }),
{
    let forward: bool = from.row < to.row || (from.row == to.row && from.col <= to.col);
    let start: CellPos = if forward { from } else { to };
    let end: CellPos = if forward { to } else { from };
    let mut out = String::new();
    let mut i: usize = 0;
    while i < grid.len()
        invariant
            i <= grid.len(),
            out@ == selected(grid@, i as int, start, end),
        decreases grid.len() - i,
    {
        let row: u16 = i as u16;
        if !(row < start.row || row > end.row) {
            let cells: &Vec<String> = &grid[i];
            let first: u16 = if row == start.row { start.col } else { 0 };
            let last: u16 = if row == end.row {
                end.col
            } else {
                cells.len().saturating_sub(1) as u16
            };
            push_cells(&mut out, cells, first, last);
            if row != end.row {
                out.push('\n');
            }
        }
        i = i + 1;
    }
    bytes_of(out.as_str().as_bytes())
}

fn push_cells(out: &mut String, cells: &Vec<String>, first: u16, last: u16)
    ensures
        final(out)@ == old(out)@ + row_text(row_view(cells@), cells@.len() as int, first, last),
{
    let ghost row = row_view(cells@);
    let mut i: usize = 0;
    assert(out@ =~= old(out)@ + row_text(row, 0, first, last));
    while i < cells.len()
        invariant
            i <= cells.len(),
            row == row_view(cells@),
            out@ == old(out)@ + row_text(row, i as int, first, last),
        decreases cells.len() - i,
    {
        let col: u16 = i as u16;
        assert(row[i as int] == cells@[i as int]@);
        if col >= first && col <= last {
            out.append(cells[i].as_str());
            assert(out@ =~= old(out)@ + row_text(row, i + 1, first, last));
        }
        i = i + 1;
    }
}

/// A selection is the same from either end.
pub proof fn lemma_selection_has_no_direction(from: CellPos, to: CellPos)
    ensures
        ordered(from, to) == ordered(to, from),
{
}

/// Copy mode's status line.
pub open spec fn status_line(live: bool, offset: nat) -> Seq<char> {
    (if live {
        "-- COPY MODE -- offset "@
    } else {
        "-- COPY MODE [exited] -- offset "@
    }) + text::decimal(offset) + " -- q/Escape to exit"@
}

/// Copy mode's status line, which tells whether the pane's process has exited.
pub fn render_status_line(live: bool, offset: usize) -> (line: String)
    ensures
        line@ == status_line(live, offset as nat),
{
    let mut line: String = if live {
        "-- COPY MODE -- offset ".to_owned()
    } else {
        "-- COPY MODE [exited] -- offset ".to_owned()
    };
    push_decimal(&mut line, offset as u64);
    line.append(" -- q/Escape to exit");
    line
}

/// Pieces of text one after the other: piece 0, piece 1, and so on, `count` of them.
pub open spec fn joined(count: int, piece: spec_fn(int) -> Seq<char>) -> Seq<char>
    decreases count,
{
    if count <= 0 {
        seq![]
    } else {
        joined(count - 1, piece) + piece(count - 1)
    }
}

/// Whether the cell in this row and column lies between two others, both included,
/// when cells are read row by row and each row from the left.
pub open spec fn lies_between(row: int, col: int, start: CellPos, end: CellPos) -> bool {
    &&& start.row < row || (start.row == row && start.col <= col)
    &&& row < end.row || (row == end.row && col <= end.col)
}

/// What a selection takes of one row: the texts of the row's cells that lie between
/// the ends, and a line break where the selection goes on below.
pub open spec fn selected_of_row(
    cells: Seq<Seq<char>>,
    row: int,
    start: CellPos,
    end: CellPos,
) -> Seq<char> {
    joined(
        cells.len() as int,
        |col: int|
            if lies_between(row, col, start, end) {
                cells[col]
            } else {
                seq![]
            },
    ) + if start.row <= row < end.row {
        seq!['\n']
    } else {
        seq![]
    }
}

proof fn lemma_row_text_takes_what_lies_between(
    cells: Seq<Seq<char>>,
    count: int,
    row: u16,
    first: u16,
    last: u16,
    start: CellPos,
    end: CellPos,
    piece: spec_fn(int) -> Seq<char>,
)
    requires
        0 <= count <= cells.len() <= 0x1_0000,
        start.row <= row <= end.row,
        first == if row == start.row {
            start.col as int
        } else {
            0
        },
        last == if row == end.row {
            end.col as int
        } else if cells.len() == 0 {
            0
        } else {
            cells.len() - 1
        },
        forall|col: int|
            0 <= col < cells.len() ==> #[trigger] piece(col) == if lies_between(
                row as int,
                col,
                start,
                end,
            ) {
                cells[col]
            } else {
                seq![]
            },
    ensures
        row_text(cells, count, first, last) == joined(count, piece),
    decreases count,
{
    if count > 0 {
        lemma_row_text_takes_what_lies_between(
            cells,
            count - 1,
            row,
            first,
            last,
            start,
            end,
            piece,
        );
        let before = joined(count - 1, piece);
        assert(piece(count - 1) == if lies_between(row as int, count - 1, start, end) {
            cells[count - 1]
        } else {
            seq![]
        });
        assert(before + Seq::<char>::empty() =~= before);
    }
}

/// What is selected is exactly the cells that lie between the two ends, read row by
/// row, with a line break behind each selected row but the last.
pub proof fn lemma_selection_is_what_lies_between(
    grid: Seq<Vec<String>>,
    count: int,
    start: CellPos,
    end: CellPos,
)
    requires
        0 <= count <= grid.len() <= 0x1_0000,
        forall|i: int| 0 <= i < grid.len() ==> (#[trigger] grid[i])@.len() <= 0x1_0000,
    ensures
        selected(grid, count, start, end) == joined(
            count,
            |row: int| selected_of_row(row_view(grid[row]@), row, start, end),
        ),
    decreases count,
{
    let piece = |row: int| selected_of_row(row_view(grid[row]@), row, start, end);
    if count > 0 {
        lemma_selection_is_what_lies_between(grid, count - 1, start, end);
        let row = count - 1;
        let cells = row_view(grid[row]@);
        assert(grid[row]@.len() <= 0x1_0000);
        let part = |col: int|
            if lies_between(row, col, start, end) {
                cells[col]
            } else {
                Seq::<char>::empty()
            };
        let before = joined(count - 1, piece);
        if start.row <= row <= end.row {
            let first: u16 = if row == start.row {
                start.col
            } else {
                0
            };
            let last: u16 = if row == end.row {
                end.col
            } else if cells.len() == 0 {
                0
            } else {
                (cells.len() - 1) as u16
            };
            lemma_row_text_takes_what_lies_between(
                cells,
                cells.len() as int,
                row as u16,
                first,
                last,
                start,
                end,
                part,
            );
            let line = row_text(cells, cells.len() as int, first, last);
            assert(before + line + seq!['\n'] =~= before + (line + seq!['\n']));
            assert(before + line + Seq::<char>::empty() =~= before + (line + Seq::<
                char,
            >::empty()));
        } else {
            lemma_nothing_joined(cells.len() as int, part);
            assert(piece(row) =~= seq![]);
            assert(before + Seq::<char>::empty() =~= before);
        }
    }
}

proof fn lemma_nothing_joined(count: int, piece: spec_fn(int) -> Seq<char>)
    requires
        forall|i: int| 0 <= i < count ==> #[trigger] piece(i) == Seq::<char>::empty(),
    ensures
        joined(count, piece) == Seq::<char>::empty(),
    decreases count,
{
    if count > 0 {
        lemma_nothing_joined(count - 1, piece);
        assert(piece(count - 1) == Seq::<char>::empty());
        assert(joined(count, piece) =~= seq![]);
    }
}

/// The ends of a selection are taken in the order in which they are read.
pub proof fn lemma_selection_starts_at_the_earlier_end(from: CellPos, to: CellPos)
    ensures
        ({
            let (start, end) = ordered(from, to);
            &&& (start == from && end == to) || (start == to && end == from)
            &&& start.row < end.row || (start.row == end.row && start.col <= end.col)
        }),
{
}

/// A key moves the cursor over the lines of the screen and of the past, of which
/// the live screen's are the last: `k` goes one line up and `j` one line down,
/// unless the cursor is on the last line of the live screen; `h` and `l` go one
/// column to the left and to the right, unless the cursor is at the edge. No
/// other key moves it, and it never leaves the grid.
pub proof fn lemma_keys_move_by_one(state: CopyModeState, b: u8)
    requires
        state.cursor.row < state.rows,
        state.cursor.col < state.cols,
    ensures
        ({
            let (cursor, offset) = state.moved(b);
            let line = state.cursor.row - state.scrollback_offset;
            let now = cursor.row - offset;
            &&& cursor.row < state.rows
            &&& cursor.col < state.cols
            &&& offset >= 0
            &&& now == if b == 'k' as u8 {
                line - 1
            } else if b == 'j' as u8 && line < state.rows - 1 {
                line + 1
            } else {
                line
            }
            &&& cursor.col == if b == 'h' as u8 && state.cursor.col > 0 {
                state.cursor.col - 1
            } else if b == 'l' as u8 && state.cursor.col < state.cols - 1 {
                state.cursor.col + 1
            } else {
                state.cursor.col as int
            }
        }),
{
}

/// The grid moves only where the cursor cannot: it shows as little of the past
/// as the cursor's way up asks for.
pub proof fn lemma_grid_moves_at_its_edges(state: CopyModeState, b: u8)
    requires
        state.cursor.row < state.rows,
        state.cursor.col < state.cols,
    ensures
        ({
            let (cursor, offset) = state.moved(b);
            &&& offset > state.scrollback_offset ==> state.cursor.row == 0 && offset
                == state.scrollback_offset + 1
            &&& offset < state.scrollback_offset ==> state.cursor.row == state.rows - 1 && offset
                == state.scrollback_offset - 1
            &&& offset != state.scrollback_offset ==> cursor == state.cursor
        }),
{
}

/// `q` and Escape leave, a move is drawn, `y` copies if a selection was started,
/// and nothing else asks for anything. `v` starts a selection at the cursor, and
/// no other key starts or ends one.
pub proof fn lemma_what_keys_ask_for(state: CopyModeState, b: u8)
    ensures
        state.event(b) is Exit <==> b == 'q' as u8 || b == 27,
        state.event(b) is Yanked <==> b == 'y' as u8 && state.selecting_from is Some,
        state.event(b) is Redraw <==> b == 'h' as u8 || b == 'j' as u8 || b == 'k' as u8 || b
            == 'l' as u8,
        state.moved(b) != (state.cursor, state.scrollback_offset as int) ==> state.event(
            b,
        ) is Redraw,
        b == 'v' as u8 ==> state.anchor(b) == Some(state.cursor),
        b != 'v' as u8 ==> state.anchor(b) == state.selecting_from,
{
}

} // verus!
