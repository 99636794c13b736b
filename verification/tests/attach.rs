use tymux::attach::{
    detached_message, plan_resize, redraw_copy_mode, render_plain_grid, AttachCommand, AttachState,
    CopyDisplay, InputStep, ServerEvent, ServerReaction,
};
use tymux::config::TymuxConfig;
use tymux::copy_mode::CellPos;
use tymux::status_bar::{DisplayMode, StatusBarConfig};
use tymux::Orientation;

fn client() -> AttachState {
    AttachState::new(&TymuxConfig::defaults())
}

fn keys(state: &mut AttachState, bytes: &[u8]) -> (Vec<AttachCommand>, bool) {
    match state.on_input(bytes) {
        InputStep::Keys { commands, was_armed } => (commands, was_armed),
        InputStep::Copy(_) => panic!("not in copy mode"),
    }
}

#[test]
fn plain_keys_go_to_the_pane() {
    let mut state = client();
    let (commands, was_armed) = keys(&mut state, b"hi");
    assert_eq!(commands, vec![AttachCommand::Send(b"h".to_vec()), AttachCommand::Send(b"i".to_vec())]);
    assert!(!was_armed);
    assert!(!state.settle(was_armed));
    assert_eq!(state.mode, DisplayMode::Normal);
}

#[test]
fn bindings_ask_for_what_they_are_bound_to() {
    let cases = [
        (b'd', AttachCommand::Detach),
        (b'[', AttachCommand::EnterCopyMode),
        (b'%', AttachCommand::Split(Orientation::Horizontal)),
        (b'"', AttachCommand::Split(Orientation::Vertical)),
        (b'x', AttachCommand::KillPane),
        (b'c', AttachCommand::NewWindow),
        (b'n', AttachCommand::SwitchWindow { forward: true }),
        (b'p', AttachCommand::SwitchWindow { forward: false }),
    ];
    for (key, command) in cases {
        let mut state = client();
        let (commands, _) = keys(&mut state, &[0x02, key]);
        assert_eq!(commands, vec![command]);
    }
}

#[test]
fn the_bar_follows_the_leader() {
    let mut state = client();
    let (commands, was_armed) = keys(&mut state, &[0x02]);
    assert!(commands.is_empty());
    assert!(state.settle(was_armed));
    assert_eq!(state.mode, DisplayMode::PrefixArmed);
    let (_, was_armed) = keys(&mut state, b"Z");
    assert!(was_armed);
    assert!(state.settle(was_armed));
    assert_eq!(state.mode, DisplayMode::Normal);
}

#[test]
fn copy_mode_takes_every_key() {
    let mut state = client();
    state.enter_copy_mode(3, 10);
    assert_eq!(state.mode, DisplayMode::CopyMode);
    match state.on_input(b"vll\x02dy") {
        InputStep::Copy(step) => {
            assert_eq!(
                step.yank,
                Some((CellPos { row: 0, col: 0 }, CellPos { row: 0, col: 2 }))
            );
            assert_eq!(step.offset, 0);
            assert!(step.exit);
            let grid = vec!["hello".chars().map(|c| c.to_string()).collect::<Vec<_>>()];
            let (from, to) = step.yank.unwrap();
            state.yank(&grid, from, to);
            assert_eq!(state.copy_mode.as_ref().unwrap().yanked, b"hel".to_vec());
            assert_eq!(state.finish_copy(&step), CopyDisplay::Live);
        }
        InputStep::Keys { .. } => panic!("in copy mode"),
    }
    assert!(state.copy_mode.is_none());
    assert_eq!(state.mode, DisplayMode::Normal);
    let (commands, _) = keys(&mut state, b"a");
    assert_eq!(commands, vec![AttachCommand::Send(b"a".to_vec())]);
}

#[test]
fn copy_mode_moves_are_drawn_and_bytes_after_the_exit_dropped() {
    let mut state = client();
    state.enter_copy_mode(3, 10);
    match state.on_input(b"kk") {
        InputStep::Copy(step) => {
            assert_eq!((step.yank, step.offset), (None, 2));
            assert!(step.redraw && !step.exit);
            assert_eq!(state.finish_copy(&step), CopyDisplay::Grid { offset: 2 });
        }
        InputStep::Keys { .. } => panic!("in copy mode"),
    }
    match state.on_input(b"jqkkk") {
        InputStep::Copy(step) => {
            assert_eq!((step.yank, step.offset), (None, 2));
            assert!(step.exit);
        }
        InputStep::Keys { .. } => panic!("in copy mode"),
    }
    assert_eq!(state.copy_mode.unwrap().cursor, CellPos { row: 1, col: 0 });
}

#[test]
fn the_bar_shows_copy_mode_when_leader_and_key_come_in_two_reads() {
    let mut state = client();
    let (_, was_armed) = keys(&mut state, &[0x02]);
    assert!(state.settle(was_armed));
    assert_eq!(state.mode, DisplayMode::PrefixArmed);
    let (commands, was_armed) = keys(&mut state, b"[");
    assert_eq!(commands, vec![AttachCommand::EnterCopyMode]);
    state.enter_copy_mode(24, 80);
    assert!(state.settle(was_armed));
    assert_eq!(state.mode, DisplayMode::CopyMode);
}

#[test]
fn the_bar_shows_a_leader_that_is_still_armed_after_copy_mode() {
    let mut state = client();
    let (commands, was_armed) = keys(&mut state, &[0x02, b'[', 0x02]);
    assert_eq!(commands, vec![AttachCommand::EnterCopyMode]);
    state.enter_copy_mode(24, 80);
    assert!(state.settle(was_armed));
    assert_eq!(state.mode, DisplayMode::CopyMode);
    match state.on_input(b"q") {
        InputStep::Copy(step) => assert_eq!(state.finish_copy(&step), CopyDisplay::Live),
        InputStep::Keys { .. } => panic!("in copy mode"),
    }
    assert_eq!(state.mode, DisplayMode::PrefixArmed);
    let (commands, was_armed) = keys(&mut state, b"d");
    assert_eq!(commands, vec![AttachCommand::Detach]);
    assert!(state.settle(was_armed));
    assert_eq!(state.mode, DisplayMode::Normal);
}

#[test]
fn keys_without_effect_draw_nothing() {
    let mut state = client();
    state.enter_copy_mode(3, 10);
    match state.on_input(b"zyv") {
        InputStep::Copy(step) => assert_eq!(state.finish_copy(&step), CopyDisplay::Nothing),
        InputStep::Keys { .. } => panic!("in copy mode"),
    }
    assert_eq!(state.mode, DisplayMode::CopyMode);
    state.leave_copy_mode();
    state.yank(&[], CellPos { row: 0, col: 0 }, CellPos { row: 1, col: 1 });
    assert!(state.copy_mode.is_none());
}

#[test]
fn output_is_shown_unless_copy_mode_has_the_screen() {
    let mut state = client();
    assert_eq!(
        state.on_server_event(ServerEvent::Output(b"x".to_vec())),
        ServerReaction::Write(b"x".to_vec())
    );
    assert_eq!(
        state.on_server_event(ServerEvent::OutputGap),
        ServerReaction::Write(b"\r\n[tymux: output dropped]\r\n".to_vec())
    );
    assert_eq!(
        state.on_server_event(ServerEvent::Exited),
        ServerReaction::Leave(b"\r\n[tymux: pane exited]\n\n".to_vec())
    );
    assert_eq!(state.on_server_event(ServerEvent::Other), ServerReaction::Ignore);
    state.enter_copy_mode(24, 80);
    assert_eq!(
        state.on_server_event(ServerEvent::Output(b"x".to_vec())),
        ServerReaction::Ignore
    );
    assert_eq!(state.on_server_event(ServerEvent::OutputGap), ServerReaction::Ignore);
    assert_eq!(
        state.on_server_event(ServerEvent::Exited),
        ServerReaction::Leave(b"\r\n[tymux: pane exited]\n\n".to_vec())
    );
}

#[test]
fn a_resize_leaves_the_status_bar_its_row() {
    let config = TymuxConfig::defaults();
    let cfg = StatusBarConfig { enabled: true, no_color: true };
    let plan = plan_resize(24, 80, &cfg, DisplayMode::Normal, &config, "work");
    assert_eq!((plan.rows, plan.cols), (23, 80));
    assert_eq!(plan.repaint, b"\x1b[1;23r\x1b7\x1b[24;1H\x1b[2K[work]\x1b8".to_vec());
    let off = StatusBarConfig { enabled: false, no_color: true };
    let plan = plan_resize(24, 80, &off, DisplayMode::Normal, &config, "work");
    assert_eq!((plan.rows, plan.cols), (24, 80));
    assert!(plan.repaint.is_empty());
}

#[test]
fn copy_mode_draws_the_grid_and_its_status() {
    let grid = vec![
        vec!["a".to_string(), String::new(), "b".to_string()],
        vec![String::new(), String::new(), String::new()],
    ];
    let plain = String::from_utf8(render_plain_grid(&grid)).unwrap();
    assert_eq!(plain, "\x1b[2J\x1b[Ha b\r\n   \r\n");
    let drawn = String::from_utf8(redraw_copy_mode(&grid, true, 4)).unwrap();
    assert_eq!(drawn, format!("{plain}\r\n-- COPY MODE -- offset 4 -- q/Escape to exit\n"));
}

#[test]
fn detaching_is_told() {
    assert_eq!(detached_message(), "\r\n[tymux: detached]\n");
}
