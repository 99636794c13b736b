use tymux::engine::{shell_command, Revival};
use tymux::{
    Engine, EngineError, LayoutSnapshot, LivePane, Orientation, PaneLookup, PersistedLayoutNode,
    PersistedPaneRecord, PersistedSessionRecord, PersistedWindowRecord, PtyRect, Ratio,
    ReviveOutcome, SessionSnapshot, Uuid, CURRENT_SCHEMA_VERSION,
};

fn new_id() -> Uuid {
    uuid::Uuid::new_v4().as_u128()
}

fn half() -> Ratio {
    Ratio { bits: 0.5f32.to_bits() }
}

fn sh() -> LivePane {
    LivePane {
        command: "/bin/sh".to_string(),
        cwd: "/tmp".to_string(),
        rows: 24,
        cols: 80,
        exited: false,
    }
}

fn create(engine: &mut Engine, name: &str) -> Uuid {
    engine.create_session(name.to_string(), new_id(), sh())
}

fn leaf_ids(node: &LayoutSnapshot) -> Vec<Uuid> {
    match node {
        LayoutSnapshot::Leaf(info) => vec![info.id],
        LayoutSnapshot::Split { children, .. } => {
            children.iter().flat_map(|(child, _)| leaf_ids(child)).collect()
        }
    }
}

fn sole_pane_id(snapshot: &SessionSnapshot) -> Uuid {
    match &snapshot.windows[0].layout {
        LayoutSnapshot::Leaf(info) => info.id,
        _ => panic!("expected a single-leaf window"),
    }
}

fn find(engine: &Engine, id: Uuid) -> SessionSnapshot {
    engine.list_sessions().into_iter().find(|s| s.id == id).unwrap()
}

fn split(
    engine: &mut Engine,
    pane: Uuid,
    orientation: Orientation,
) -> Result<SessionSnapshot, EngineError> {
    assert!(engine.can_split(pane, orientation));
    engine.split_pane(pane, orientation, new_id(), sh()).map(|outcome| outcome.session)
}

/// Goes through a revival, starting every pane that `starts` lets start.
fn revive(engine: &mut Engine, revival: &mut Revival, starts: impl Fn(Uuid) -> bool) {
    while let Some(request) = engine.next_respawn(revival) {
        if starts(request.pane_id) {
            let pane = LivePane {
                command: request.command,
                cwd: request.cwd,
                rows: request.rows,
                cols: request.cols,
                exited: false,
            };
            engine.pane_respawned(revival, request.pane_id, pane);
        }
    }
}

#[test]
fn create_and_list_session() {
    let mut engine = Engine::new();
    let id = create(&mut engine, "test");

    let sessions = engine.list_sessions();
    assert_eq!(sessions.len(), 1);
    assert_eq!(sessions[0].id, id);
    assert_eq!(sessions[0].name, "test");
    assert!(sessions[0].live);
}

#[test]
fn multiple_sessions_are_independent() {
    let mut engine = Engine::new();
    let id1 = create(&mut engine, "one");
    let id2 = create(&mut engine, "two");

    let sessions = engine.list_sessions();
    assert_eq!(sessions.len(), 2);
    let ids: Vec<Uuid> = sessions.iter().map(|s| s.id).collect();
    assert!(ids.contains(&id1));
    assert!(ids.contains(&id2));
    assert_ne!(id1, id2);

    let pane_ids: Vec<Uuid> = sessions.iter().map(sole_pane_id).collect();
    assert_ne!(pane_ids[0], pane_ids[1], "each session gets its own pane");
}

#[test]
fn kill_session_removes_it() {
    let mut engine = Engine::new();
    let id = create(&mut engine, "test");
    assert_eq!(engine.list_sessions().len(), 1);
    let pane = sole_pane_id(&find(&engine, id));

    assert_eq!(engine.kill_session(id).unwrap(), vec![pane]);
    assert_eq!(engine.list_sessions().len(), 0);
}

#[test]
fn kill_session_unknown_id_errors() {
    let mut engine = Engine::new();
    let id = new_id();
    let result = engine.kill_session(id);
    assert!(result.is_err());
    assert_eq!(result.unwrap_err(), EngineError::SessionNotFound(id));
}

#[test]
fn pane_lookup_should_return_live_when_pane_process_still_running() {
    let mut engine = Engine::new();
    let id = create(&mut engine, "test");
    let pane_id = sole_pane_id(&find(&engine, id));

    assert!(matches!(engine.pane_lookup(pane_id), PaneLookup::Live));
}

#[test]
fn pane_lookup_should_return_unknown_when_pane_id_never_created() {
    let engine = Engine::new();
    assert!(matches!(engine.pane_lookup(new_id()), PaneLookup::Unknown));
}

#[test]
fn pane_lookup_should_return_dead_when_pane_process_exited_but_record_exists() {
    let mut engine = Engine::new();
    let id = create(&mut engine, "test");
    let pane_id = sole_pane_id(&find(&engine, id));
    assert!(matches!(engine.pane_lookup(pane_id), PaneLookup::Live));

    engine.pane_exited(pane_id);

    assert!(matches!(engine.pane_lookup(pane_id), PaneLookup::Dead));
    assert!(!find(&engine, id).live);
}

#[test]
fn split_pane_should_produce_two_leaf_window() {
    let mut engine = Engine::new();
    let id = create(&mut engine, "test");
    let pane_id = sole_pane_id(&find(&engine, id));

    let snapshot = split(&mut engine, pane_id, Orientation::Horizontal).unwrap();
    match &snapshot.windows[0].layout {
        LayoutSnapshot::Split { children, .. } => assert_eq!(children.len(), 2),
        _ => panic!("expected split_pane to produce a Split window layout"),
    }
}

#[test]
fn split_pane_unknown_pane_id_errors() {
    let mut engine = Engine::new();
    let err = split(&mut engine, new_id(), Orientation::Horizontal).unwrap_err();
    assert!(matches!(err, EngineError::PaneNotFound(_)));
}

#[test]
fn close_pane_should_collapse_split_when_sibling_closes() {
    let mut engine = Engine::new();
    let id = create(&mut engine, "test");
    let pane_a = sole_pane_id(&find(&engine, id));
    let snapshot = split(&mut engine, pane_a, Orientation::Horizontal).unwrap();
    let pane_b = match &snapshot.windows[0].layout {
        LayoutSnapshot::Split { children, .. } => match &children[1].0 {
            LayoutSnapshot::Leaf(info) => info.id,
            _ => panic!("expected leaf"),
        },
        _ => panic!("expected split"),
    };

    let outcome = engine.close_pane(pane_b).unwrap();
    assert!(outcome.window_closed.is_none());
    assert!(outcome.session_closed.is_none());
    assert!(outcome.kill);
    assert_eq!(outcome.changed_window, Some(snapshot.windows[0].id));
    let session = outcome.session.unwrap();
    assert!(matches!(session.windows[0].layout, LayoutSnapshot::Leaf(_)));
}

#[test]
fn close_pane_should_close_session_when_last_pane_in_last_window() {
    let mut engine = Engine::new();
    let id = create(&mut engine, "test");
    let pane_id = sole_pane_id(&find(&engine, id));
    let window_id = find(&engine, id).windows[0].id;

    let outcome = engine.close_pane(pane_id).unwrap();
    assert!(outcome.window_closed.is_some());
    assert!(outcome.session_closed.is_some());
    assert!(outcome.session.is_none());
    assert_eq!(engine.list_sessions().len(), 0);
    assert_eq!(outcome.window_closed, Some((window_id, "0".to_string())));
    assert_eq!(outcome.session_closed, Some((id, "test".to_string())));
    assert_eq!(outcome.changed_window, None);
}

#[test]
fn create_window_adds_a_second_window() {
    let mut engine = Engine::new();
    let id = create(&mut engine, "test");
    let snapshot = engine.create_window(id, new_id(), sh()).unwrap().session;
    assert_eq!(snapshot.windows.len(), 2);
    assert_eq!(snapshot.windows[1].name, "1");
}

#[test]
fn report_viewport_should_apply_dimension_wise_minimum_across_two_clients() {
    let mut engine = Engine::new();
    let id = create(&mut engine, "test");
    let window_id = find(&engine, id).windows[0].id;

    let c1 = engine.new_client_id();
    let c2 = engine.new_client_id();
    assert_ne!(c1, c2);
    engine.report_viewport_and_recompute(window_id, c1, 40, 100);
    let resize = engine.report_viewport_and_recompute(window_id, c2, 20, 200).unwrap();
    assert_eq!(
        (resize.rows, resize.cols),
        (20, 100),
        "effective size must be the dimension-wise minimum"
    );
}

fn dead_leaf(id: Uuid, rows: u16, cols: u16) -> PersistedLayoutNode {
    PersistedLayoutNode::Leaf {
        pane: PersistedPaneRecord {
            pane_id: id,
            command: "/bin/sh".to_string(),
            cwd: "/".to_string(),
            rows,
            cols,
        },
    }
}

fn two_pane_record(session_id: Uuid, window_id: Uuid, a: Uuid, b: Uuid) -> PersistedSessionRecord {
    PersistedSessionRecord {
        schema_version: CURRENT_SCHEMA_VERSION,
        session_id,
        name: "test".to_string(),
        windows: vec![PersistedWindowRecord {
            id: window_id,
            name: "0".to_string(),
            layout: PersistedLayoutNode::Split {
                orientation: Orientation::Horizontal,
                children: vec![(dead_leaf(a, 24, 40), half()), (dead_leaf(b, 24, 40), half())],
            },
        }],
        active_window_id: window_id,
    }
}

#[test]
fn recompute_window_geometry_should_match_live_pane_by_id_not_position_when_window_has_dead_and_live_panes(
) {
    let (id, window_id, pane_a, pane_b) = (new_id(), new_id(), new_id(), new_id());
    let mut engine = Engine::new();
    engine.load_persisted(vec![two_pane_record(id, window_id, pane_a, pane_b)]);
    let mut revival = engine.revive_session(id).unwrap();
    revive(&mut engine, &mut revival, |pane| pane == pane_b);
    assert_eq!(revival.outcome(), ReviveOutcome::Revived { pane_count: 1 });

    let client = engine.new_client_id();
    engine.report_viewport(window_id, client, 24, 81);
    assert!(engine.can_recompute(window_id));
    let resize = engine.recompute_window_geometry(window_id).unwrap();

    assert!(matches!(engine.pane_lookup(pane_b), PaneLookup::Live));
    assert!(matches!(engine.pane_lookup(pane_a), PaneLookup::Dead));
    assert_eq!(
        resize.resizes,
        vec![(pane_b, PtyRect { row: 0, col: 40, rows: 24, cols: 41 })],
        "the live pane is resized to its own rectangle, never to its dead neighbour's"
    );

    for (pane, rect) in resize.resizes {
        engine.pane_resized(pane, rect.rows, rect.cols);
    }
    match find(&engine, id).windows.remove(0).layout {
        LayoutSnapshot::Split { children, .. } => match &children[1].0 {
            LayoutSnapshot::Leaf(info) => {
                assert_eq!((info.rows, info.cols), (24, 41));
            }
            _ => panic!("expected a leaf child"),
        },
        _ => panic!("expected a split"),
    }
}

#[test]
fn revive_session_should_respawn_ptys_matching_persisted_layout_shape_and_mark_live() {
    let mut engine = Engine::new();
    let id = create(&mut engine, "test");
    let pane_id = sole_pane_id(&find(&engine, id));
    split(&mut engine, pane_id, Orientation::Horizontal).unwrap();
    let before = find(&engine, id);

    let record = engine.snapshot_persisted_record(id).unwrap();
    assert!(record.validate().is_ok());
    let mut fresh_engine = Engine::new();
    fresh_engine.load_persisted(vec![record]);

    let dead_snapshot = find(&fresh_engine, id);
    assert!(!dead_snapshot.live, "freshly loaded session must be dead-flagged");
    assert!(
        matches!(dead_snapshot.windows[0].layout, LayoutSnapshot::Split { .. }),
        "the split shape must survive the reload"
    );
    assert_eq!(leaf_ids(&dead_snapshot.windows[0].layout), leaf_ids(&before.windows[0].layout));

    let mut revival = fresh_engine.revive_session(id).unwrap();
    revive(&mut fresh_engine, &mut revival, |_| true);
    let outcome = revival.outcome();
    assert!(matches!(outcome, ReviveOutcome::Revived { pane_count: 2 }));

    let revived_snapshot = find(&fresh_engine, id);
    assert!(revived_snapshot.live);
    assert!(
        matches!(revived_snapshot.windows[0].layout, LayoutSnapshot::Split { .. }),
        "the split shape must be preserved through revival"
    );
    assert_eq!(revived_snapshot, before);
}

#[test]
fn daemon_restart_should_leave_session_dead_flagged_when_revive_never_called() {
    let mut engine = Engine::new();
    let id = create(&mut engine, "test");
    let record = engine.snapshot_persisted_record(id).unwrap();

    for _ in 0..2 {
        let mut fresh = Engine::new();
        fresh.load_persisted(vec![record.clone()]);
        let snapshot = find(&fresh, id);
        assert!(!snapshot.live, "a bare restart without revive must leave the session dead");
        assert_eq!(fresh.snapshot_persisted_record(id).unwrap(), record);
    }
}

#[test]
fn revive_session_on_already_live_session_returns_already_live_outcome() {
    let mut engine = Engine::new();
    let id = create(&mut engine, "test");
    let mut revival = engine.revive_session(id).unwrap();
    assert_eq!(engine.next_respawn(&mut revival), None);
    assert_eq!(revival.outcome(), ReviveOutcome::AlreadyLive);
}

#[test]
fn reviving_an_unknown_session_is_refused() {
    let engine = Engine::new();
    let error = engine.revive_session(7).unwrap_err();
    assert_eq!(error, EngineError::SessionNotFound(7));
    assert_eq!(error.message(), "no such session: 00000000-0000-0000-0000-000000000007");
}

#[test]
fn tiny_panes_are_revived_at_the_least_size() {
    let (id, window_id, a, b) = (new_id(), new_id(), new_id(), new_id());
    let mut record = two_pane_record(id, window_id, a, b);
    record.windows[0].layout = dead_leaf(a, 1, 3);
    let mut engine = Engine::new();
    engine.load_persisted(vec![record]);
    let mut revival = engine.revive_session(id).unwrap();
    let request = engine.next_respawn(&mut revival).unwrap();
    assert_eq!((request.rows, request.cols), (2, 10));
    assert_eq!((request.command.as_str(), request.cwd.as_str()), ("/bin/sh", "/"));
}

#[test]
fn splits_are_refused_below_the_sizes() {
    let mut engine = Engine::new();
    let id = create(&mut engine, "test");
    let window_id = find(&engine, id).windows[0].id;
    let pane = sole_pane_id(&find(&engine, id));
    let client = engine.new_client_id();
    engine.report_viewport_and_recompute(window_id, client, 15, 80).unwrap();
    let error = split(&mut engine, pane, Orientation::Horizontal).unwrap_err();
    assert_eq!(error, EngineError::BelowRecommendedSize { rows: 15 });
    assert_eq!(
        error.message(),
        "Can't split: pane is 15 rows, minimum for a horizontal split is ~20 rows. \
         Resize your terminal or close another pane first."
    );
    engine.report_viewport_and_recompute(window_id, client, 3, 80).unwrap();
    let error = split(&mut engine, pane, Orientation::Vertical).unwrap_err();
    assert_eq!(error, EngineError::BelowMinimumSize { rows: 1, cols: 80 });
    assert_eq!(
        error.message(),
        "split would produce a pane of 1 rows x 80 cols, below the minimum of 2 rows x 10 cols"
    );
    assert_eq!(leaf_ids(&find(&engine, id).windows[0].layout), vec![pane]);
}

#[test]
fn requests_for_what_is_unknown_are_refused() {
    let mut engine = Engine::new();
    assert_eq!(engine.close_pane(5).unwrap_err(), EngineError::PaneNotFound(5));
    assert_eq!(
        EngineError::PaneNotFound(5).message(),
        "no such pane: 00000000-0000-0000-0000-000000000005"
    );
    assert_eq!(
        engine.create_window(6, new_id(), sh()).unwrap_err(),
        EngineError::SessionNotFound(6)
    );
    assert!(engine.snapshot_persisted_record(6).is_none());
    assert!(engine.window_snapshot(6).is_none());
    assert!(engine.record_for_window(6).is_none());
    assert!(engine.window_id_for_pane(5).is_none());
    assert!(engine.report_viewport_and_recompute(6, 1, 24, 80).is_none());
    assert_eq!(engine.attached_client_count(8), 0);
}

#[test]
fn other_sessions_are_spared() {
    let mut engine = Engine::new();
    let one = create(&mut engine, "one");
    let two = create(&mut engine, "two");
    let pane = sole_pane_id(&find(&engine, one));
    split(&mut engine, pane, Orientation::Vertical).unwrap();
    let kept = find(&engine, two);
    engine.close_pane(pane).unwrap();
    assert_eq!(find(&engine, two), kept);
    engine.kill_session(one).unwrap();
    assert_eq!(engine.list_sessions(), vec![kept]);
    assert_eq!(engine.pane_lookup(pane), PaneLookup::Unknown);
}

#[test]
fn viewports_come_and_go() {
    let mut engine = Engine::new();
    let id = create(&mut engine, "test");
    let window_id = find(&engine, id).windows[0].id;
    let pane = sole_pane_id(&find(&engine, id));
    assert_eq!(engine.window_id_for_pane(pane), Some(window_id));
    let (small, large) = (engine.new_client_id(), engine.new_client_id());
    engine.report_viewport(window_id, small, 10, 40);
    engine.report_viewport(window_id, large, 50, 200);
    assert_eq!(engine.attached_client_count(window_id), 2);
    let resize = engine.recompute_window_geometry(window_id).unwrap();
    assert_eq!((resize.rows, resize.cols), (10, 40));
    assert_eq!(resize.resizes, vec![(pane, PtyRect { row: 0, col: 0, rows: 10, cols: 40 })]);
    engine.unregister_viewport(window_id, small);
    assert_eq!(engine.attached_client_count(window_id), 1);
    let resize = engine.recompute_window_geometry(window_id).unwrap();
    assert_eq!((resize.rows, resize.cols), (50, 200));
    engine.unregister_viewport(window_id, large);
    let resize = engine.recompute_window_geometry(window_id).unwrap();
    assert_eq!((resize.rows, resize.cols), (24, 80));
    assert_eq!(engine.record_for_window(window_id), engine.snapshot_persisted_record(id));
    assert_eq!(engine.window_snapshot(window_id).unwrap(), find(&engine, id).windows[0]);
}

#[test]
fn windows_are_numbered_by_how_many_there_are() {
    let mut engine = Engine::new();
    let id = create(&mut engine, "test");
    for expected in 1..12 {
        let session = engine.create_window(id, new_id(), sh()).unwrap().session;
        assert_eq!(session.windows[expected].name, expected.to_string());
    }
}

#[test]
fn the_command_falls_back_to_the_shell_and_then_to_bash() {
    let text = |s: &str| Some(s.to_string());
    assert_eq!(shell_command(text("vi"), text("/bin/zsh")), "vi");
    assert_eq!(shell_command(None, text("/bin/zsh")), "/bin/zsh");
    assert_eq!(shell_command(None, None), "/bin/bash");
}

#[test]
fn only_a_revival_brings_dead_panes_back() {
    let (id, window_id, a, b) = (new_id(), new_id(), new_id(), new_id());
    let mut engine = Engine::new();
    engine.load_persisted(vec![two_pane_record(id, window_id, a, b)]);
    create(&mut engine, "other");
    engine.create_window(id, new_id(), sh()).unwrap();
    split(&mut engine, a, Orientation::Vertical).unwrap();
    let client = engine.new_client_id();
    engine.report_viewport_and_recompute(window_id, client, 30, 100).unwrap();
    engine.pane_resized(a, 5, 50);
    engine.pane_exited(a);
    engine.close_pane(b).unwrap();
    assert_eq!(engine.pane_lookup(a), PaneLookup::Dead);
    assert_eq!(engine.pane_lookup(b), PaneLookup::Unknown);
    let mut revival = engine.revive_session(id).unwrap();
    assert_eq!(engine.next_respawn(&mut revival), None, "some pane is live already");
    assert_eq!(revival.outcome(), ReviveOutcome::AlreadyLive);
}

#[test]
fn panes_that_cannot_be_started_stay_dead() {
    let (id, window_id, a, b) = (new_id(), new_id(), new_id(), new_id());
    let mut engine = Engine::new();
    engine.load_persisted(vec![two_pane_record(id, window_id, a, b)]);
    let mut revival = engine.revive_session(id).unwrap();
    revive(&mut engine, &mut revival, |_| false);
    assert_eq!(revival.outcome(), ReviveOutcome::Revived { pane_count: 0 });
    assert_eq!(engine.pane_lookup(a), PaneLookup::Dead);
    let mut revival = engine.revive_session(id).unwrap();
    revive(&mut engine, &mut revival, |pane| pane == a);
    assert_eq!(revival.outcome(), ReviveOutcome::Revived { pane_count: 1 });
    assert_eq!(engine.pane_lookup(a), PaneLookup::Live);
    assert_eq!(engine.pane_lookup(b), PaneLookup::Dead);
}

#[test]
fn a_restored_session_is_stored_with_all_that_a_revival_needs() {
    let (id, window_id, a, b) = (new_id(), new_id(), new_id(), new_id());
    let record = two_pane_record(id, window_id, a, b);
    let mut engine = Engine::new();
    engine.load_persisted(vec![record.clone()]);
    assert_eq!(engine.snapshot_persisted_record(id), Some(record));

    let closed = engine.close_pane(b).unwrap().record.unwrap();
    assert_eq!(closed.windows[0].layout, dead_leaf(a, 24, 40));

    let opened = engine.create_window(id, new_id(), sh()).unwrap().record;
    assert_eq!(opened.windows[0].layout, dead_leaf(a, 24, 40));

    engine.recompute_window_geometry(window_id).unwrap();
    let stored = engine.record_for_window(window_id).unwrap();
    assert_eq!(stored.windows[0].layout, dead_leaf(a, 24, 40));

    match split(&mut engine, a, Orientation::Vertical) {
        Ok(_) => {}
        Err(e) => panic!("{e:?}"),
    }
    match &engine.snapshot_persisted_record(id).unwrap().windows[0].layout {
        PersistedLayoutNode::Split { children, .. } => {
            assert_eq!(children[0].0, dead_leaf(a, 24, 40));
        }
        other => panic!("expected a split, got {other:?}"),
    }
}

#[test]
fn a_revival_that_fails_part_of_the_way_leaves_the_rest_to_be_revived() {
    let (id, window_id, a, b) = (new_id(), new_id(), new_id(), new_id());
    let mut engine = Engine::new();
    engine.load_persisted(vec![two_pane_record(id, window_id, a, b)]);
    let mut revival = engine.revive_session(id).unwrap();
    revive(&mut engine, &mut revival, |pane| pane == b);
    let record = engine.snapshot_persisted_record(id).unwrap();

    let mut fresh = Engine::new();
    fresh.load_persisted(vec![record]);
    let mut revival = fresh.revive_session(id).unwrap();
    let request = fresh.next_respawn(&mut revival).unwrap();
    assert_eq!(request.pane_id, a);
    assert_eq!((request.command.as_str(), request.cwd.as_str()), ("/bin/sh", "/"));
    assert_eq!((request.rows, request.cols), (24, 40));
}
