use tymux::copy_mode::{
    extract_selection, render_status_line, CellPos, CopyModeEvent, CopyModeState,
};

#[test]
fn copy_mode_should_move_scrollback_offset_without_forwarding_keystrokes_when_navigating() {
    let mut state = CopyModeState::new(24, 80);
    assert_eq!(state.handle_byte(b'k'), CopyModeEvent::Redraw);
    assert_eq!(state.scrollback_offset, 1);
    assert_eq!(state.handle_byte(b'l'), CopyModeEvent::Redraw);
    assert_eq!(state.cursor.col, 1);
}

#[test]
fn copy_mode_should_copy_selected_range_into_buffer_when_visual_select_then_yank() {
    let mut state = CopyModeState::new(3, 10);
    assert_eq!(state.handle_byte(b'v'), CopyModeEvent::Consumed);
    state.cursor.col = 4;
    assert_eq!(state.handle_byte(b'y'), CopyModeEvent::Yanked);

    let grid = vec!["hello world".chars().map(|c| c.to_string()).collect::<Vec<_>>()];
    let selected = extract_selection(&grid, CellPos { row: 0, col: 0 }, state.cursor);
    assert_eq!(String::from_utf8(selected).unwrap(), "hello");
}

#[test]
fn copy_mode_exit_key_should_behave_identically_when_pane_is_dead_versus_live() {
    let mut live_state = CopyModeState::new(24, 80);
    let mut dead_state = CopyModeState::new(24, 80);
    assert_eq!(live_state.handle_byte(b'q'), dead_state.handle_byte(b'q'));
    assert_eq!(live_state.handle_byte(0x1b), dead_state.handle_byte(0x1b));
}

#[test]
fn copy_mode_should_show_exited_marker_within_one_render_frame_on_dead_pane_entry() {
    let live_line = render_status_line(true, 0);
    let dead_line = render_status_line(false, 0);
    assert!(!live_line.contains("[exited]"));
    assert!(dead_line.contains("[exited]"));
    assert_eq!(render_status_line(true, 120), "-- COPY MODE -- offset 120 -- q/Escape to exit");
    assert_eq!(dead_line, "-- COPY MODE [exited] -- offset 0 -- q/Escape to exit");
}

#[test]
fn navigation_never_produces_a_forward_event_since_the_enum_has_none() {
    let mut state = CopyModeState::new(24, 80);
    for b in [b'h', b'j', b'k', b'l', b'v', b'y', b'q', 0x1b, b'x'] {
        match state.handle_byte(b) {
            CopyModeEvent::Redraw
            | CopyModeEvent::Exit
            | CopyModeEvent::Yanked
            | CopyModeEvent::Consumed => {}
        }
    }
}

#[test]
fn the_cursor_stays_on_the_grid() {
    let mut state = CopyModeState::new(2, 3);
    for b in b"llllljjjjhhhhhkkkkk" {
        state.handle_byte(*b);
        assert!(state.cursor.row < 2 && state.cursor.col < 3);
    }
    assert_eq!(state.cursor, CellPos { row: 0, col: 0 });
    assert_eq!(state.scrollback_offset, 4);
    assert_eq!(state.handle_byte(b'j'), CopyModeEvent::Redraw);
    assert_eq!(state.cursor.row, 1);
    assert_eq!(state.handle_byte(b'j'), CopyModeEvent::Redraw);
    assert_eq!(state.scrollback_offset, 3);
    assert_eq!(state.handle_byte(b'y'), CopyModeEvent::Consumed);
}

#[test]
fn selections_span_rows_in_either_order() {
    let grid: Vec<Vec<String>> = ["abcd", "efgh", "ijkl"]
        .iter()
        .map(|row| row.chars().map(|c| c.to_string()).collect())
        .collect();
    let from = CellPos { row: 0, col: 2 };
    let to = CellPos { row: 2, col: 1 };
    assert_eq!(extract_selection(&grid, from, to), b"cd\nefgh\nij".to_vec());
    assert_eq!(extract_selection(&grid, to, from), b"cd\nefgh\nij".to_vec());
    let wide = vec![vec!["\u{e9}".to_string(), "\u{1f600}".to_string()]];
    assert_eq!(
        extract_selection(&wide, CellPos { row: 0, col: 0 }, CellPos { row: 0, col: 9 }),
        "\u{e9}\u{1f600}".as_bytes().to_vec()
    );
    assert!(extract_selection(&[], from, to).is_empty());
}
