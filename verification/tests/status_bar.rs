use tymux::config::TymuxConfig;
use tymux::status_bar::{
    colorize, decstbm_reserve, pty_rows, redraw_status_line, render_bar_text, render_hint_line,
    DisplayMode, StatusBarConfig,
};

#[test]
fn attach_should_send_resize_for_rows_minus_one_when_status_bar_enabled() {
    let cfg = StatusBarConfig { enabled: true, no_color: false };
    assert_eq!(pty_rows(24, &cfg), 23);
    assert_eq!(decstbm_reserve(24, &cfg), b"\x1b[1;23r".to_vec());
}

#[test]
fn attach_should_send_full_rows_and_skip_decstbm_when_no_status_bar_flag_set() {
    let cfg = StatusBarConfig { enabled: false, no_color: false };
    assert_eq!(pty_rows(24, &cfg), 24);
    assert!(decstbm_reserve(24, &cfg).is_empty());
}

#[test]
fn status_bar_should_render_full_binding_table_when_prefix_state_armed() {
    let config = TymuxConfig::defaults();
    let line = render_hint_line(DisplayMode::PrefixArmed, &config);
    assert!(line.contains("detach"));
    assert!(line.contains("split-h"));
    assert!(line.contains("split-v"));
}

#[test]
fn status_bar_should_render_copy_mode_key_set_when_input_mode_is_copy_mode() {
    let config = TymuxConfig::defaults();
    let line = render_hint_line(DisplayMode::CopyMode, &config);
    assert!(line.contains("COPY MODE"));
    assert!(!line.contains("detach"));
}

#[test]
fn status_bar_should_not_render_stale_prefix_hints_after_mode_reverts_to_normal() {
    let config = TymuxConfig::defaults();
    let normal = render_hint_line(DisplayMode::Normal, &config);
    assert!(normal.is_empty(), "Normal mode must never show a lingering hint line");
}

#[test]
fn no_color_env_should_suppress_ansi_while_retaining_liveness_mode_text() {
    let with_color = StatusBarConfig { enabled: true, no_color: false };
    let no_color = StatusBarConfig { enabled: true, no_color: true };
    let text = "-- PREFIX -- d:detach";
    assert!(colorize(text, &with_color).contains("\x1b["));
    let plain = colorize(text, &no_color);
    assert!(!plain.contains("\x1b["));
    assert_eq!(plain, text, "NO_COLOR must drop color only, never the text itself");
}

#[test]
fn the_normal_bar_shows_the_session() {
    let config = TymuxConfig::defaults();
    assert_eq!(render_bar_text(DisplayMode::Normal, &config, "work"), "[work]");
    assert_eq!(
        render_bar_text(DisplayMode::PrefixArmed, &config, "work"),
        render_hint_line(DisplayMode::PrefixArmed, &config)
    );
}

#[test]
fn any_value_of_no_color_but_the_empty_one_counts() {
    assert!(StatusBarConfig::new(true, Some("1")).no_color);
    assert!(!StatusBarConfig::new(true, Some("")).no_color);
    assert!(!StatusBarConfig::new(true, None).no_color);
    assert!(!StatusBarConfig::new(false, None).enabled);
}

#[test]
fn the_bar_is_painted_on_the_last_row_and_the_cursor_put_back() {
    let config = TymuxConfig::defaults();
    let cfg = StatusBarConfig { enabled: true, no_color: true };
    let paint = redraw_status_line(24, DisplayMode::Normal, &config, &cfg, "work");
    assert_eq!(String::from_utf8(paint).unwrap(), "\x1b7\x1b[24;1H\x1b[2K[work]\x1b8");
    let off = StatusBarConfig { enabled: false, no_color: true };
    assert!(redraw_status_line(24, DisplayMode::Normal, &config, &off, "work").is_empty());
}

#[test]
fn a_terminal_without_room_keeps_one_row() {
    let cfg = StatusBarConfig { enabled: true, no_color: false };
    assert_eq!(pty_rows(1, &cfg), 1);
    assert_eq!(pty_rows(0, &cfg), 1);
    assert_eq!(pty_rows(2, &cfg), 1);
}
