use tymux::screen::{pack_attrs, pack_color, render_screen, snapshot, trim_end, Color};

fn screen_of(bytes: &[u8]) -> vt100::Parser {
    let mut parser = vt100::Parser::new(3, 10, 0);
    parser.process(bytes);
    parser
}

#[test]
fn a_picture_has_the_size_and_the_cells_of_the_screen() {
    let parser = screen_of(b"ab\x1b[1;31mc\x1b[0m\r\n\x1b[48;2;1;2;3m\x1b[7mx");
    let picture = snapshot(parser.screen());
    assert_eq!((picture.rows, picture.cols), (3, 10));
    assert_eq!((picture.cursor_row, picture.cursor_col), (1, 1));
    assert_eq!(picture.grid.len(), 3);
    assert!(picture.grid.iter().all(|row| row.len() == 10));
    assert_eq!(picture.grid[0][0].text, "a");
    assert_eq!(picture.grid[0][1].text, "b");
    assert_eq!(picture.grid[0][2].text, "c");
    assert_eq!(picture.grid[0][3].text, "");
    assert_eq!(picture.grid[0][0].fg, pack_color(Color::Default));
    assert_eq!(picture.grid[0][2].fg, pack_color(Color::Idx(1)));
    assert_eq!(picture.grid[0][2].attrs, pack_attrs(true, false, false, false));
    assert_eq!(picture.grid[1][0].bg, pack_color(Color::Rgb(1, 2, 3)));
    assert_eq!(picture.grid[1][0].attrs, pack_attrs(false, false, true, false));
}

#[test]
fn pictures_follow_the_terminal_crate_cell_by_cell() {
    let parser = screen_of(
        b"\x1b[3mit\x1b[23m \x1b[4mun\x1b[24m\x1b[38;5;200mcol\x1b[0m\r\n\xe4\xb8\xad\xe6\x96\x87e\xcc\x81",
    );
    let screen = parser.screen();
    let picture = snapshot(screen);
    let color = |c: vt100::Color| match c {
        vt100::Color::Default => Color::Default,
        vt100::Color::Idx(i) => Color::Idx(i),
        vt100::Color::Rgb(r, g, b) => Color::Rgb(r, g, b),
    };
    for (r, row) in picture.grid.iter().enumerate() {
        for (c, cell) in row.iter().enumerate() {
            let expected = screen.cell(r as u16, c as u16).unwrap();
            assert_eq!(cell.text, expected.contents());
            assert_eq!(cell.fg, pack_color(color(expected.fgcolor())));
            assert_eq!(cell.bg, pack_color(color(expected.bgcolor())));
            assert_eq!(
                cell.attrs,
                pack_attrs(
                    expected.bold(),
                    expected.underline(),
                    expected.inverse(),
                    expected.italic()
                )
            );
        }
    }
}

#[test]
fn colors_are_packed_apart() {
    assert_eq!(pack_color(Color::Default), 0);
    assert_eq!(pack_color(Color::Idx(7)), 0x0100_0007);
    assert_eq!(pack_color(Color::Rgb(1, 2, 3)), 0x0201_0203);
}

#[test]
fn attributes_are_packed_bit_by_bit() {
    assert_eq!(pack_attrs(false, false, false, false), 0);
    assert_eq!(pack_attrs(true, false, false, false), 1);
    assert_eq!(pack_attrs(false, true, false, false), 2);
    assert_eq!(pack_attrs(false, false, true, false), 4);
    assert_eq!(pack_attrs(false, false, false, true), 8);
    assert_eq!(pack_attrs(true, true, true, true), 15);
}

#[test]
fn screens_are_rendered_line_by_line_without_trailing_blanks() {
    let parser = screen_of(b"one\r\n  two  ");
    assert_eq!(render_screen(parser.screen()), "one\n  two\n\n");
}

#[test]
fn trailing_blanks_are_trimmed_as_std_trims_them() {
    for text in ["", " ", "a ", " a \t\u{3000}", "a\u{200b} ", "b\u{a0}\u{85}", "\u{2028}x\u{1f}"] {
        let chars: Vec<char> = text.chars().collect();
        let trimmed: String = trim_end(&chars).into_iter().collect();
        assert_eq!(trimmed, text.trim_end());
    }
}
