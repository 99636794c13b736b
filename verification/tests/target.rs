use tymux::target::{
    adjacent_window_pane, check_attach_liveness, find_session, first_pane_id, flatten_panes,
    ls_status_label, Liveness, RemoteChild, RemoteLayout, RemotePane, RemoteSession, RemoteWindow,
    TargetString,
};
use tymux::{Orientation, Ratio};

fn half() -> Ratio {
    Ratio { bits: 0.5f32.to_bits() }
}

fn session_with(windows: Vec<RemoteWindow>) -> RemoteSession {
    RemoteSession {
        id: "session-1".to_string(),
        name: "test".to_string(),
        windows,
        liveness: Liveness::Live,
    }
}

fn window_with_panes(panes: Vec<RemotePane>) -> RemoteWindow {
    let mut layout: Option<RemoteLayout> = None;
    for p in panes {
        let leaf = RemoteLayout::Pane(p);
        layout = Some(match layout {
            None => leaf,
            Some(acc) => RemoteLayout::Split {
                orientation: Orientation::Horizontal,
                children: vec![
                    RemoteChild { layout: Some(acc), ratio: half() },
                    RemoteChild { layout: Some(leaf), ratio: half() },
                ],
            },
        });
    }
    RemoteWindow { id: "window-1".to_string(), name: "0".to_string(), layout }
}

fn pane(id: &str) -> RemotePane {
    RemotePane {
        id: id.to_string(),
        rows: 24,
        cols: 80,
        liveness: Liveness::Live,
        cwd: String::new(),
    }
}

#[test]
fn first_pane_id_returns_the_pane() {
    let session = session_with(vec![window_with_panes(vec![pane("pane-1")])]);
    assert_eq!(first_pane_id(&session).unwrap(), "pane-1");
}

#[test]
fn first_pane_id_errors_on_no_windows() {
    let session = session_with(vec![]);
    assert!(first_pane_id(&session).is_err());
}

#[test]
fn first_pane_id_errors_on_no_panes() {
    let session = session_with(vec![RemoteWindow {
        id: "window-1".to_string(),
        name: "0".to_string(),
        layout: None,
    }]);
    assert!(first_pane_id(&session).is_err());
}

#[test]
fn target_string_should_resolve_specific_pane_when_addressing_by_session_window_pane() {
    let target = TargetString::parse("myproject:0.1").unwrap();
    assert_eq!(target.session, "myproject");
    assert_eq!(target.window_index, 0);
    assert_eq!(target.pane_index, 1);

    let session = RemoteSession {
        id: "s1".to_string(),
        name: "myproject".to_string(),
        windows: vec![window_with_panes(vec![pane("pane-0"), pane("pane-1")])],
        liveness: Liveness::Live,
    };
    assert_eq!(target.resolve(&session).unwrap().id, "pane-1");
}

#[test]
fn target_string_bare_session_defaults_to_first_window_and_pane() {
    let target = TargetString::parse("myproject").unwrap();
    assert_eq!(target.window_index, 0);
    assert_eq!(target.pane_index, 0);
}

#[test]
fn target_string_should_return_bounds_checked_error_when_pane_index_out_of_range() {
    let target = TargetString::parse("myproject:0.5").unwrap();
    let session = RemoteSession {
        id: "s1".to_string(),
        name: "myproject".to_string(),
        windows: vec![window_with_panes(vec![pane("pane-0")])],
        liveness: Liveness::Live,
    };
    let err = target.resolve(&session).unwrap_err();
    assert!(err.to_string().contains("no pane 5"));
}

#[test]
fn target_string_should_return_bounds_checked_error_when_window_index_out_of_range() {
    let target = TargetString::parse("myproject:3.0").unwrap();
    let session = RemoteSession {
        id: "s1".to_string(),
        name: "myproject".to_string(),
        windows: vec![window_with_panes(vec![pane("pane-0")])],
        liveness: Liveness::Live,
    };
    let err = target.resolve(&session).unwrap_err();
    assert!(err.to_string().contains("no window 3"));
}

#[test]
fn target_string_rejects_missing_pane_component() {
    assert!(TargetString::parse("myproject:0").is_err());
}

#[test]
fn attach_should_fail_fast_with_revive_remediation_message_when_target_session_is_dead() {
    let pane = RemotePane {
        id: "pane-1".to_string(),
        rows: 24,
        cols: 80,
        liveness: Liveness::Dead,
        cwd: String::new(),
    };
    let msg = check_attach_liveness(&pane, "myproject").unwrap_err();
    assert!(msg.contains("not running"));
    assert!(
        msg.contains("tymux revive myproject"),
        "message must name the exact revive remediation command, got: {msg}"
    );
}

#[test]
fn attach_should_succeed_normally_when_target_session_is_live_after_revive() {
    let pane = RemotePane {
        id: "pane-1".to_string(),
        rows: 24,
        cols: 80,
        liveness: Liveness::Live,
        cwd: String::new(),
    };
    assert!(check_attach_liveness(&pane, "myproject").is_ok());
}

#[test]
fn ls_command_should_render_distinct_status_strings_for_live_versus_dead_restored_session() {
    let live_session = RemoteSession {
        id: "s1".to_string(),
        name: "myproject".to_string(),
        windows: vec![],
        liveness: Liveness::Live,
    };
    let dead_session = RemoteSession {
        id: "s2".to_string(),
        name: "myproject".to_string(),
        windows: vec![],
        liveness: Liveness::Dead,
    };
    let live_label = ls_status_label(&live_session);
    let dead_label = ls_status_label(&dead_session);
    assert_ne!(
        live_label, dead_label,
        "live and dead-restored sessions must never render identically"
    );
    assert!(live_label.contains("live"));
    assert!(dead_label.contains("restored"));
    assert!(dead_label.contains("not running"));
}

#[test]
fn malformed_targets_are_refused() {
    for target in
        ["", ":0.1", "p:", "p:.", "p:0.", "p:.1", "p:a.1", "p:0.b", "p:-1.0", "p: 0.1", "p:0.1.2"]
    {
        assert!(TargetString::parse(target).is_err(), "{target:?}");
    }
    let big = "p:99999999999999999999999.0";
    assert!(TargetString::parse(big).is_err());
}

#[test]
fn indices_are_read_as_std_reads_them() {
    for text in ["0", "7", "007", "+5", "42", "18446744073709551615", "18446744073709551616"] {
        let parsed = TargetString::parse(&format!("p:{text}.0")).ok().map(|t| t.window_index);
        assert_eq!(parsed, text.parse::<usize>().ok(), "{text}");
    }
}

#[test]
fn a_full_name_is_read_back() {
    for (session, window, index) in [("a", 0usize, 0usize), ("my project", 12, 345)] {
        let target = TargetString::parse(&format!("{session}:{window}.{index}")).unwrap();
        assert_eq!(
            target,
            TargetString {
                session: session.to_string(),
                window_index: window,
                pane_index: index,
            }
        );
    }
}

#[test]
fn panes_are_listed_in_tree_order() {
    let window = window_with_panes(vec![pane("a"), pane("b"), pane("c")]);
    let ids: Vec<&str> = flatten_panes(&window).iter().map(|p| p.id.as_str()).collect();
    assert_eq!(ids, vec!["a", "b", "c"]);
    assert!(flatten_panes(&window_with_panes(vec![])).is_empty());
}

#[test]
fn sessions_are_found_by_name() {
    let sessions = vec![session_with(vec![])];
    assert_eq!(find_session(&sessions, "test").unwrap().id, "session-1");
    assert!(find_session(&sessions, "other").is_err());
}

#[test]
fn windows_are_gone_through_in_a_ring() {
    let session = session_with(vec![
        window_with_panes(vec![pane("a"), pane("b")]),
        window_with_panes(vec![pane("c")]),
        window_with_panes(vec![pane("d"), pane("e")]),
    ]);
    let next = |id: &str, forward| adjacent_window_pane(&session, id, forward);
    assert_eq!(next("b", true).as_deref(), Some("c"));
    assert_eq!(next("c", true).as_deref(), Some("d"));
    assert_eq!(next("e", true).as_deref(), Some("a"));
    assert_eq!(next("a", false).as_deref(), Some("d"));
    assert_eq!(next("d", false).as_deref(), Some("c"));
    for id in ["a", "c", "d"] {
        let there = next(id, true).unwrap();
        assert_eq!(next(&there, false).as_deref(), Some(id));
    }
}

#[test]
fn what_is_not_there_is_told_exactly() {
    let session = session_with(vec![
        window_with_panes(vec![pane("a"), pane("b")]),
        window_with_panes(vec![pane("c")]),
    ]);
    let resolve = |target: &str| {
        TargetString::parse(target).unwrap().resolve(&session).map(|p| p.id.clone())
    };
    assert_eq!(resolve("x:1.0"), Ok("c".to_string()));
    assert_eq!(
        resolve("x:2.0"),
        Err("session 'x' has no window 2 (it has 2 windows)".to_string())
    );
    assert_eq!(
        resolve("x:1.1"),
        Err("window 1 of session 'x' has no pane 1 (it has 1 pane)".to_string())
    );
    let parse = |target: &str| TargetString::parse(target).unwrap_err();
    assert_eq!(
        parse(":0.0"),
        "target ':0.0' must name a session, e.g. 'myproject' or 'myproject:0.1'"
    );
    assert_eq!(
        parse("p:0"),
        "target 'p:0' is missing '.pane' after the window (expected session:window.pane)"
    );
    assert_eq!(parse("p:a.1"), "target 'p:a.1': 'a' is not a valid window index");
    assert_eq!(parse("p:0.b"), "target 'p:0.b': 'b' is not a valid pane index");
    assert_eq!(first_pane_id(&session_with(vec![])).unwrap_err(), "session session-1 has no windows");
    assert_eq!(
        first_pane_id(&session_with(vec![window_with_panes(vec![])])).unwrap_err(),
        "window window-1 has no panes"
    );
    assert_eq!(find_session(&vec![], "p").unwrap_err(), "no such session: p");
    assert_eq!(
        check_attach_liveness(&RemotePane { liveness: Liveness::Dead, ..pane("a") }, "p"),
        Err("Session 'p' is not running (restored from disk after a restart). Run 'tymux revive \
             p' to respawn it, then attach again."
            .to_string())
    );
    let mut dead = session_with(vec![]);
    assert_eq!(ls_status_label(&dead), "test [live]");
    dead.liveness = Liveness::Dead;
    assert_eq!(ls_status_label(&dead), "test [restored \u{2014} not running]");
}
