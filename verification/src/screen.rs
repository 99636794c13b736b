//! What is on a pane's screen, cell by cell.

use crate::copy_mode;
use crate::text;
use crate::text::{chars_of, text_of, whitespace};
use vstd::prelude::*;

verus! {

/// The screen of a terminal emulator.
#[verifier::external_type_specification]
#[verifier::external_body]
pub struct ExScreen(vt100::Screen);

/// A colour of a cell.
#[derive(Debug, Clone, Copy, PartialEq, Eq, Structural)]
pub enum Color {
    Default,
    Idx(u8),
    Rgb(u8, u8, u8),
}

/// One cell of a screen.
pub struct Cell {
    pub text: Seq<char>,
    pub fg: Color,
    pub bg: Color,
    pub bold: bool,
    pub underline: bool,
    pub inverse: bool,
    pub italic: bool,
    /// Whether this is the first half of a wide character.
    pub wide: bool,
    /// Whether this is the second half of one.
    pub continuation: bool,
}

/// The cells that a screen has, by row and column.
pub uninterp spec fn screen_cells(screen: vt100::Screen) -> Map<(u16, u16), Cell>;

/// The rows and columns of a screen.
pub uninterp spec fn screen_size(screen: vt100::Screen) -> (u16, u16);

/// The row and column that the cursor is at.
pub uninterp spec fn screen_cursor(screen: vt100::Screen) -> (u16, u16);

/// `vt100::Screen::size` gives the screen's rows and columns.
#[verifier::external_body]
pub(crate) fn size_of(screen: &vt100::Screen) -> (size: (u16, u16))
    ensures
        size == screen_size(*screen),
{
    screen.size()
}

/// `vt100::Screen::cursor_position` gives the cursor's row and column.
#[verifier::external_body]
fn cursor_of(screen: &vt100::Screen) -> (position: (u16, u16))
    ensures
        position == screen_cursor(*screen),
{
    screen.cursor_position()
}

/// `vt100::Screen::cell` gives the cell at a place, if the screen has one
/// there, and `vt100::Cell::contents` its text.
#[verifier::external_body]
pub(crate) fn cell_text(screen: &vt100::Screen, row: u16, col: u16) -> (text: Option<String>)
    ensures
        match text {
            Some(text) => screen_cells(*screen).contains_key((row, col)) && text@ == screen_cells(
                *screen,
            )[(row, col)].text,
            None => !screen_cells(*screen).contains_key((row, col)),
        },
{
    screen.cell(row, col).map(|cell| cell.contents().to_string())
}

/// `vt100::Cell::fgcolor` gives a cell's foreground colour.
#[verifier::external_body]
fn cell_fgcolor(screen: &vt100::Screen, row: u16, col: u16) -> (color: Color)
    requires
        screen_cells(*screen).contains_key((row, col)),
    ensures
        color == screen_cells(*screen)[(row, col)].fg,
{
    match screen.cell(row, col).unwrap().fgcolor() {
        vt100::Color::Default => Color::Default,
        vt100::Color::Idx(i) => Color::Idx(i),
        vt100::Color::Rgb(r, g, b) => Color::Rgb(r, g, b),
    }
}

/// `vt100::Cell::bgcolor` gives a cell's background colour.
#[verifier::external_body]
fn cell_bgcolor(screen: &vt100::Screen, row: u16, col: u16) -> (color: Color)
    requires
        screen_cells(*screen).contains_key((row, col)),
    ensures
        color == screen_cells(*screen)[(row, col)].bg,
{
    match screen.cell(row, col).unwrap().bgcolor() {
        vt100::Color::Default => Color::Default,
        vt100::Color::Idx(i) => Color::Idx(i),
        vt100::Color::Rgb(r, g, b) => Color::Rgb(r, g, b),
    }
}

/// `vt100::Cell::bold` says whether a cell is drawn bold.
#[verifier::external_body]
fn cell_bold(screen: &vt100::Screen, row: u16, col: u16) -> (bold: bool)
    requires
        screen_cells(*screen).contains_key((row, col)),
    ensures
        bold == screen_cells(*screen)[(row, col)].bold,
{
    screen.cell(row, col).unwrap().bold()
}

/// `vt100::Cell::underline` says whether a cell is underlined.
#[verifier::external_body]
fn cell_underline(screen: &vt100::Screen, row: u16, col: u16) -> (underline: bool)
    requires
        screen_cells(*screen).contains_key((row, col)),
    ensures
        underline == screen_cells(*screen)[(row, col)].underline,
{
    screen.cell(row, col).unwrap().underline()
}

/// `vt100::Cell::inverse` says whether a cell is drawn with its colours swapped.
#[verifier::external_body]
fn cell_inverse(screen: &vt100::Screen, row: u16, col: u16) -> (inverse: bool)
    requires
        screen_cells(*screen).contains_key((row, col)),
    ensures
        inverse == screen_cells(*screen)[(row, col)].inverse,
{
    screen.cell(row, col).unwrap().inverse()
}

/// `vt100::Cell::italic` says whether a cell is drawn in italics.
#[verifier::external_body]
fn cell_italic(screen: &vt100::Screen, row: u16, col: u16) -> (italic: bool)
    requires
        screen_cells(*screen).contains_key((row, col)),
    ensures
        italic == screen_cells(*screen)[(row, col)].italic,
{
    screen.cell(row, col).unwrap().italic()
}

/// `vt100::Cell::is_wide` says whether a cell holds a wide character, of which it is
/// the first half.
#[verifier::external_body]
pub(crate) fn cell_wide(screen: &vt100::Screen, row: u16, col: u16) -> (wide: bool)
    requires
        screen_cells(*screen).contains_key((row, col)),
    ensures
        wide == screen_cells(*screen)[(row, col)].wide,
{
    screen.cell(row, col).unwrap().is_wide()
}

/// `vt100::Cell::is_wide_continuation` says whether a cell is the second half of a
/// wide character.
#[verifier::external_body]
pub(crate) fn cell_continuation(screen: &vt100::Screen, row: u16, col: u16) -> (continuation: bool)
    requires
        screen_cells(*screen).contains_key((row, col)),
    ensures
        continuation == screen_cells(*screen)[(row, col)].continuation,
{
    screen.cell(row, col).unwrap().is_wide_continuation()
}

/// A colour as one number: the top byte tells the three forms apart, the rest
/// holds the index or the three components.
pub open spec fn packed_color(color: Color) -> int {
    match color {
        Color::Default => 0,
        Color::Idx(i) => 0x0100_0000 + i,
        Color::Rgb(r, g, b) => 0x0200_0000 + 0x1_0000 * r + 0x100 * g + b,
    }
}

/// A cell's attributes as one number, a bit for each.
pub open spec fn packed_attrs(bold: bool, underline: bool, inverse: bool, italic: bool) -> int {
    (if bold {
        1int
    } else {
        0
    }) + (if underline {
        2int
    } else {
        0
    }) + (if inverse {
        4int
    } else {
        0
    }) + (if italic {
        8int
    } else {
        0
    })
}

/// A colour as one number.
pub fn pack_color(color: Color) -> (packed: u32)
    ensures
        packed == packed_color(color),
{
    match color {
        Color::Default => 0,
        Color::Idx(i) => 0x0100_0000 + i as u32,
        Color::Rgb(r, g, b) => 0x0200_0000 + 0x1_0000 * (r as u32) + 0x100 * (g as u32) + b as u32,
    }
}

/// A cell's attributes as one number.
pub fn pack_attrs(bold: bool, underline: bool, inverse: bool, italic: bool) -> (packed: u32)
    ensures
        packed == packed_attrs(bold, underline, inverse, italic),
{
    let mut attrs: u32 = 0;
    if bold {
        attrs = attrs + 1;
    }
    if underline {
        attrs = attrs + 2;
    }
    if inverse {
        attrs = attrs + 4;
    }
    if italic {
        attrs = attrs + 8;
    }
    attrs
}

/// Different colours are packed into different numbers.
pub proof fn lemma_packed_colors_differ(a: Color, b: Color)
    requires
        packed_color(a) == packed_color(b),
    ensures
        a == b,
{
}

/// A picture of one cell.
#[derive(Debug, PartialEq)]
pub struct CellSnapshot {
    pub text: String,
    pub fg: u32,
    pub bg: u32,
    pub attrs: u32,
}

/// A picture of a pane's screen.
#[derive(Debug, PartialEq)]
pub struct PaneSnapshot {
    pub rows: u32,
    pub cols: u32,
    pub grid: Vec<Vec<CellSnapshot>>,
    pub cursor_row: u32,
    pub cursor_col: u32,
}

impl CellSnapshot {
    /// Whether this is the picture of the cell at a place: blank where the
    /// screen has no cell.
    pub open spec fn shows(self, cells: Map<(u16, u16), Cell>, row: u16, col: u16) -> bool {
        if cells.contains_key((row, col)) {
            let cell = cells[(row, col)];
            &&& self.text@ == cell.text
            &&& self.fg == packed_color(cell.fg)
            &&& self.bg == packed_color(cell.bg)
            &&& self.attrs == packed_attrs(cell.bold, cell.underline, cell.inverse, cell.italic)
        } else {
            &&& self.text@ == Seq::<char>::empty()
            &&& self.fg == 0
            &&& self.bg == 0
            &&& self.attrs == 0
        }
    }
}

impl PaneSnapshot {
    /// Whether this is the picture of a screen of this size, with these cells and
    /// the cursor at this place.
    pub open spec fn shows(
        self,
        size: (u16, u16),
        cells: Map<(u16, u16), Cell>,
        cursor: (u16, u16),
    ) -> bool {
        &&& self.rows == size.0
        &&& self.cols == size.1
        &&& self.cursor_row == cursor.0
        &&& self.cursor_col == cursor.1
        &&& self.grid@.len() == size.0
        &&& forall|row: int|
            0 <= row < size.0 ==> (#[trigger] self.grid@[row])@.len() == size.1 && row_shows(
                self.grid@[row]@,
                cells,
                row as u16,
            )
    }
}

/// Whether each cell of a row is the picture of the cell at its place.
pub open spec fn row_shows(row: Seq<CellSnapshot>, cells: Map<(u16, u16), Cell>, at: u16) -> bool {
    forall|col: int|
        0 <= col < row.len() ==> (#[trigger] row[col]).shows(cells, at, col as u16)
}

/// A picture of what is on a screen.
pub fn snapshot(screen: &vt100::Screen) -> (picture: PaneSnapshot)
    ensures
        picture.shows(screen_size(*screen), screen_cells(*screen), screen_cursor(*screen)),
{
    let (rows, cols): (u16, u16) = size_of(screen);
    let mut grid: Vec<Vec<CellSnapshot>> = Vec::new();
    let mut row: u16 = 0;
    while row < rows
        invariant
            row <= rows,
            (rows, cols) == screen_size(*screen),
            grid@.len() == row,
            forall|r: int|
                0 <= r < row ==> (#[trigger] grid@[r])@.len() == cols && row_shows(
                    grid@[r]@,
                    screen_cells(*screen),
                    r as u16,
                ),
        decreases rows - row,
    {
        let mut cells: Vec<CellSnapshot> = Vec::new();
        let mut col: u16 = 0;
        while col < cols
            invariant
                col <= cols,
                cells@.len() == col,
                row_shows(cells@, screen_cells(*screen), row),
            decreases cols - col,
        {
            let cell = snapshot_cell(screen, row, col);
            cells.push(cell);
            col = col + 1;
        }
        grid.push(cells);
        row = row + 1;
    }
    let (cursor_row, cursor_col): (u16, u16) = cursor_of(screen);
    PaneSnapshot {
        rows: rows as u32,
        cols: cols as u32,
        grid,
        cursor_row: cursor_row as u32,
        cursor_col: cursor_col as u32,
    }
}

fn snapshot_cell(screen: &vt100::Screen, row: u16, col: u16) -> (cell: CellSnapshot)
    ensures
        cell.shows(screen_cells(*screen), row, col),
{
    match cell_text(screen, row, col) {
        Some(text) => {
            CellSnapshot {
                text,
                fg: pack_color(cell_fgcolor(screen, row, col)),
                bg: pack_color(cell_bgcolor(screen, row, col)),
                attrs: pack_attrs(
                    cell_bold(screen, row, col),
                    cell_underline(screen, row, col),
                    cell_inverse(screen, row, col),
                    cell_italic(screen, row, col),
                ),
            }
        },
        None => CellSnapshot { text: String::new(), fg: 0, bg: 0, attrs: 0 },
    }
}

/// A row of a screen as text: the text of each cell, or a space where a cell is
/// empty or missing.
pub open spec fn line_text(cells: Map<(u16, u16), Cell>, row: u16, cols: int) -> Seq<char>
    decreases cols,
{
    if cols <= 0 {
        seq![]
    } else {
        let col = (cols - 1) as u16;
        line_text(cells, row, cols - 1) + if cells.contains_key((row, col)) && cells[(
            row,
            col,
        )].text.len() > 0 {
            cells[(row, col)].text
        } else {
            " "@
        }
    }
}

/// A text without the white space at its end.
pub open spec fn trimmed_end(line: Seq<char>) -> Seq<char>
    decreases line.len(),
{
    if line.len() > 0 && text::is_space(line.last()) {
        trimmed_end(line.drop_last())
    } else {
        line
    }
}

/// The first rows of a screen as text, each without the white space at its end
/// and with a line break.
pub open spec fn screen_text(cells: Map<(u16, u16), Cell>, rows: int, cols: int) -> Seq<char>
    decreases rows,
{
    if rows <= 0 {
        seq![]
    } else {
        (screen_text(cells, rows - 1, cols) + trimmed_end(
            line_text(cells, (rows - 1) as u16, cols),
        )).push('\n')
    }
}

/// The text without the white space at its end.
pub fn trim_end(line: &Vec<char>) -> (trimmed: Vec<char>)
    ensures
        trimmed@ == trimmed_end(line@),
{
    let mut trimmed: Vec<char> = line.clone();
    assert(trimmed@ =~= line@);
    while trimmed.len() > 0 && whitespace(trimmed[trimmed.len() - 1])
        invariant
            trimmed_end(trimmed@) == trimmed_end(line@),
        decreases trimmed@.len(),
    {
        let ghost before = trimmed@;
        trimmed.pop();
        assert(trimmed@ =~= before.drop_last());
    }
    trimmed
}

/// What is on a screen as plain text, a line per row.
pub fn render_screen(screen: &vt100::Screen) -> (out: String)
    ensures
        out@ == screen_text(
            screen_cells(*screen),
            screen_size(*screen).0 as int,
            screen_size(*screen).1 as int,
        ),
{
    let (rows, cols): (u16, u16) = size_of(screen);
    let ghost cells = screen_cells(*screen);
    let mut out = String::new();
    let mut row: u16 = 0;
    assert(out@ =~= screen_text(cells, 0, cols as int));
    while row < rows
        invariant
            row <= rows,
            cells == screen_cells(*screen),
            out@ == screen_text(cells, row as int, cols as int),
        decreases rows - row,
    {
        let mut line = String::new();
        let mut col: u16 = 0;
        assert(line@ =~= line_text(cells, row, 0));
        while col < cols
            invariant
                col <= cols,
                cells == screen_cells(*screen),
                line@ == line_text(cells, row, col as int),
            decreases cols - col,
        {
            match cell_text(screen, row, col) {
                Some(text) => {
                    if text.as_str().unicode_len() == 0 {
                        line.append(" ");
                    } else {
                        line.append(text.as_str());
                    }
                },
                None => line.append(" "),
            }
            assert(line@ =~= line_text(cells, row, col + 1));
            col = col + 1;
        }
        let trimmed = trim_end(&chars_of(line.as_str()));
        out.append(text_of(trimmed.as_slice()).as_str());
        out.push('\n');
        assert(out@ =~= screen_text(cells, row + 1, cols as int));
        row = row + 1;
    }
    out
}

/// Each attribute is a bit of its own: bold the lowest, then underline, inverse and
/// italic. There are no others.
pub proof fn lemma_attributes_are_bits(bold: bool, underline: bool, inverse: bool, italic: bool)
    ensures
        ({
            let packed = packed_attrs(bold, underline, inverse, italic);
            &&& 0 <= packed < 16
            &&& packed % 2 == 1 <==> bold
            &&& (packed / 2) % 2 == 1 <==> underline
            &&& (packed / 4) % 2 == 1 <==> inverse
            &&& (packed / 8) % 2 == 1 <==> italic
        }),
{
}

/// The top byte of a packed colour tells its form, and the bytes below hold what
/// the form has: red above green above blue, or the index.
pub proof fn lemma_colors_can_be_unpacked(color: Color)
    ensures
        ({
            let packed = packed_color(color);
            &&& 0 <= packed <= u32::MAX
            &&& match color {
                Color::Default => packed == 0,
                Color::Idx(i) => packed / 0x100_0000 == 1 && packed % 0x100_0000 == i,
                Color::Rgb(r, g, b) => packed / 0x100_0000 == 2 && (packed / 0x1_0000) % 0x100 == r
                    && (packed / 0x100) % 0x100 == g && packed % 0x100 == b,
            }
        }),
{
}

/// What stands for the cell at a place in a row of text.
pub open spec fn drawn(cells: Map<(u16, u16), Cell>, row: u16, col: int) -> Seq<char> {
    let place = (row, col as u16);
    if !cells.contains_key(place) || cells[place].text == Seq::<char>::empty() {
        seq![' ']
    } else {
        cells[place].text
    }
}

/// A row as text is what stands for its cells, from the left to the right.
pub proof fn lemma_line_is_drawn_cell_by_cell(cells: Map<(u16, u16), Cell>, row: u16, cols: int)
    requires
        0 <= cols <= 0x1_0000,
    ensures
        line_text(cells, row, cols) == copy_mode::joined(cols, |col: int| drawn(cells, row, col)),
    decreases cols,
{
    reveal_strlit(" ");
    assert(" "@ =~= seq![' ']);
    if cols > 0 {
        lemma_line_is_drawn_cell_by_cell(cells, row, cols - 1);
        let place = (row, (cols - 1) as u16);
        if cells.contains_key(place) && cells[place].text.len() == 0 {
            assert(cells[place].text =~= Seq::<char>::empty());
        }
    }
}

/// What is cut off at the end of a line is white space, all that is there: the rest
/// does not end in any.
pub proof fn lemma_white_space_is_cut_off(line: Seq<char>)
    ensures
        ({
            let rest = trimmed_end(line);
            &&& rest.len() <= line.len()
            &&& rest == line.take(rest.len() as int)
            &&& rest.len() > 0 ==> !text::is_space(rest.last())
            &&& forall|i: int|
                rest.len() <= i < line.len() ==> text::is_space(#[trigger] line[i])
        }),
    decreases line.len(),
{
    if line.len() > 0 && text::is_space(line.last()) {
        lemma_white_space_is_cut_off(line.drop_last());
        let rest = trimmed_end(line);
        assert(rest =~= line.take(rest.len() as int));
        assert forall|i: int| rest.len() <= i < line.len() implies text::is_space(
            #[trigger] line[i],
        ) by {
            if i < line.len() - 1 {
                assert(line.drop_last()[i] == line[i]);
            }
        }
    } else {
        assert(line.take(line.len() as int) =~= line);
    }
}

/// A screen as text is its rows from the top down, each without the white space at
/// its end and with a line break behind it.
pub proof fn lemma_screen_is_drawn_row_by_row(
    cells: Map<(u16, u16), Cell>,
    rows: int,
    cols: int,
)
    requires
        0 <= rows <= 0x1_0000,
    ensures
        screen_text(cells, rows, cols) == copy_mode::joined(
            rows,
            |row: int| trimmed_end(line_text(cells, row as u16, cols)) + seq!['\n'],
        ),
    decreases rows,
{
    if rows > 0 {
        lemma_screen_is_drawn_row_by_row(cells, rows - 1, cols);
        let line = |row: int| trimmed_end(line_text(cells, row as u16, cols)) + seq!['\n'];
        assert(screen_text(cells, rows, cols) =~= copy_mode::joined(rows - 1, line) + line(
            rows - 1,
        ));
    }
}

/// A picture of a screen has every cell in its place, with its text, its colours and
/// its attributes, and has no more rows and columns than the screen.
pub proof fn lemma_picture_has_every_cell(
    picture: PaneSnapshot,
    size: (u16, u16),
    cells: Map<(u16, u16), Cell>,
    cursor: (u16, u16),
    row: u16,
    col: u16,
)
    requires
        picture.shows(size, cells, cursor),
        row < size.0,
        col < size.1,
    ensures
        picture.rows == picture.grid@.len() == size.0,
        picture.cols == picture.grid@[row as int]@.len() == size.1,
        (picture.cursor_row, picture.cursor_col) == (cursor.0 as u32, cursor.1 as u32),
        ({
            let shown = picture.grid@[row as int]@[col as int];
            if cells.contains_key((row, col)) {
                let cell = cells[(row, col)];
                &&& shown.text@ == cell.text
                &&& shown.fg == packed_color(cell.fg)
                &&& shown.bg == packed_color(cell.bg)
                &&& shown.attrs % 2 == 1 <==> cell.bold
                &&& (shown.attrs / 2) % 2 == 1 <==> cell.underline
                &&& (shown.attrs / 4) % 2 == 1 <==> cell.inverse
                &&& (shown.attrs / 8) % 2 == 1 <==> cell.italic
            } else {
                shown.text@.len() == 0 && shown.fg == 0 && shown.bg == 0 && shown.attrs == 0
            }
        }),
{
    assert(picture.grid@[row as int]@.len() == size.1);
    assert(picture.grid@[row as int]@[col as int].shows(cells, row, col));
}

} // verus!
