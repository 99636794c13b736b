use tymux::emulator::{PaneScreen, MAX_COLS, MIN_COLS, MIN_ROWS};
use tymux::screen::{pack_color, Color};

fn next(state: &mut u64) -> u64 {
    *state = state.wrapping_mul(6364136223846793005).wrapping_add(1442695040888963407);
    *state >> 33
}

#[test]
fn the_screen_follows_what_is_printed() {
    let mut screen = PaneScreen::new(3, 10, 0);
    assert!(screen.can_take_output());
    screen.take_output(b"one\r\n\x1b[31mtw");
    screen.take_output(b"o\x1b[0m");
    assert_eq!(screen.render(), "one\ntwo\n\n");
    let picture = screen.snapshot();
    assert_eq!((picture.rows, picture.cols), (3, 10));
    assert_eq!((picture.cursor_row, picture.cursor_col), (1, 3));
    assert_eq!(picture.grid[1][2].text, "o");
    assert_eq!(picture.grid[1][2].fg, pack_color(Color::Idx(1)));
    assert_eq!(picture.grid[0][0].fg, pack_color(Color::Default));
}

#[test]
fn the_screen_is_what_the_parser_makes_of_the_same_reads() {
    let reads: [&[u8]; 4] = [b"ab\x1b[2;2Hc", b"\x1b[1mwide \xe4\xb8", b"\xad!\r\n", b"\x1b[?1049hx"];
    let mut screen = PaneScreen::new(4, 12, 0);
    let mut parser = vt100::Parser::new(4, 12, 0);
    for read in reads {
        screen.take_output(read);
        parser.process(read);
        assert_eq!(screen.snapshot(), tymux::screen::snapshot(parser.screen()));
        assert_eq!(screen.size(), parser.screen().size());
    }
}

#[test]
fn a_resize_is_followed() {
    let mut screen = PaneScreen::new(3, 10, 0);
    screen.take_output(b"0123456789");
    screen.resize(2, 5);
    assert_eq!(screen.size(), (2, 5));
    assert!(screen.can_take_output());
    assert_eq!(screen.render(), "01234\n\n");
    screen.take_output(b"\r\nx");
    assert_eq!(screen.render(), "01234\nx\n");
}

#[test]
fn sizes_that_some_output_would_break_are_told() {
    let takes = |rows: u16, cols: u16| PaneScreen::new(rows, cols, 0).can_take_output();
    assert!(takes(MIN_ROWS, MIN_COLS));
    assert!(takes(MIN_ROWS, MAX_COLS));
    assert!(!takes(1, 80));
    assert!(!takes(24, 2));
    assert!(!takes(24, 0));
    assert!(!takes(2, MAX_COLS + 1));
    let mut screen = PaneScreen::new(24, 80, 0);
    screen.resize(1, 80);
    assert!(!screen.can_take_output());
    screen.resize(24, 80);
    assert!(screen.can_take_output());
}

#[test]
fn a_wide_character_that_a_resize_cuts_is_told() {
    let mut screen = PaneScreen::new(3, 6, 0);
    screen.take_output("abcd\u{4e2d}".as_bytes());
    screen.resize(3, 5);
    assert!(!screen.can_take_output());
    assert_eq!(screen.render(), "abcd\u{4e2d}\n\n\n");
    screen.resize(3, 4);
    assert!(screen.can_take_output());
    screen.take_output(b"\x1b[2;1Hx");
    assert_eq!(screen.render(), "abcd\nx\n\n");
}

#[test]
fn a_wide_character_cut_in_the_hidden_buffer_is_told_too() {
    let mut screen = PaneScreen::new(3, 6, 0);
    screen.take_output("abcd\u{4e2d}\x1b[?47h".as_bytes());
    assert_eq!(screen.render(), "\n\n\n");
    screen.resize(3, 5);
    assert!(!screen.can_take_output());
    let mut screen = PaneScreen::new(3, 6, 0);
    screen.take_output("\x1b[?47habcd\u{4e2d}\x1b[?47l".as_bytes());
    screen.resize(3, 5);
    assert!(!screen.can_take_output());
}

#[test]
fn any_output_can_be_taken_and_leaves_wide_characters_whole() {
    let texts = ["a", " ", "\u{4e2d}", "\u{301}", "\u{17d8}", "\u{1f600}", "\t", "\u{8}", "\r", "\n"];
    let finals = "@ABCDEFGHJKLMPSTXdmr";
    let escapes = ["\x1b7", "\x1b8", "\x1bM", "\x1bc", "\x1b[?6h", "\x1b[?6l", "\x1b[?47h",
        "\x1b[?47l", "\x1b[?1049h", "\x1b[?1049l"];
    for seed in 0..1500u64 {
        let mut state = seed;
        let rows = 2 + (next(&mut state) % 5) as u16;
        let cols = 3 + (next(&mut state) % 8) as u16;
        let mut screen = PaneScreen::new(rows, cols, (next(&mut state) % 2) as usize * 5);
        for _ in 0..40 {
            let mut output: Vec<u8> = Vec::new();
            for _ in 0..6 {
                match next(&mut state) % 8 {
                    0 | 1 | 2 | 3 => {
                        let at = next(&mut state) as usize % texts.len();
                        output.extend_from_slice(texts[at].as_bytes());
                    }
                    4 | 5 => {
                        let at = next(&mut state) as usize % finals.len();
                        let last = finals.as_bytes()[at] as char;
                        let (a, b) = (next(&mut state) % 10, next(&mut state) % 10);
                        output.extend_from_slice(format!("\x1b[{a};{b}{last}").as_bytes());
                    }
                    6 => {
                        let at = next(&mut state) as usize % escapes.len();
                        output.extend_from_slice(escapes[at].as_bytes());
                    }
                    _ => output.push(next(&mut state) as u8),
                }
            }
            screen.take_output(&output);
            assert!(screen.can_take_output());
            let (rows, cols) = screen.size();
            screen.resize(rows, cols);
            assert!(screen.can_take_output(), "seed {seed}: a wide character lost a half");
        }
        let (rows, cols) = screen.size();
        screen.resize(rows + 1, cols + 1);
        assert!(screen.can_take_output());
    }
}
