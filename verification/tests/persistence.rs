use std::collections::HashMap;
use std::sync::Mutex;
use tymux::persistence::{RecordError, SaveError, StructureError};
use tymux::{
    FsPersistenceBackend, LayoutNode, LivePane, NullPersistenceBackend, Orientation, PaneEntry,
    PersistedLayoutNode, PersistedPaneRecord, PersistedSessionRecord, PersistedWindowRecord,
    PersistenceBackend, Ratio, SessionState, Uuid, WindowState, CURRENT_SCHEMA_VERSION,
};

fn new_id() -> Uuid {
    uuid::Uuid::new_v4().as_u128()
}

fn ratio(value: f32) -> Ratio {
    Ratio { bits: value.to_bits() }
}

fn leaf(id: Uuid) -> PersistedLayoutNode {
    PersistedLayoutNode::Leaf {
        pane: PersistedPaneRecord {
            pane_id: id,
            command: "/bin/sh".to_string(),
            cwd: "/tmp".to_string(),
            rows: 24,
            cols: 80,
        },
    }
}

fn sample_record() -> PersistedSessionRecord {
    let a = new_id();
    let b = new_id();
    let window_id = new_id();
    let session_id = new_id();
    PersistedSessionRecord {
        schema_version: CURRENT_SCHEMA_VERSION,
        session_id,
        name: "test".to_string(),
        windows: vec![PersistedWindowRecord {
            id: window_id,
            name: "0".to_string(),
            layout: PersistedLayoutNode::Split {
                orientation: Orientation::Horizontal,
                children: vec![(leaf(a), ratio(0.5)), (leaf(b), ratio(0.5))],
            },
        }],
        active_window_id: window_id,
    }
}

#[test]
fn persisted_session_record_should_reject_load_when_schema_version_unknown() {
    let mut record = sample_record();
    record.schema_version = 999;
    assert!(record.validate().is_err());
    let error = record.validate().unwrap_err();
    assert!(matches!(error, RecordError::UnknownVersion { found: 999 }));
    assert_eq!(error.message(""), "unknown schema_version 999 (expected 1)");
}

#[test]
fn persisted_layout_node_validate_structure_should_reject_when_split_has_three_children() {
    let node = PersistedLayoutNode::Split {
        orientation: Orientation::Horizontal,
        children: vec![
            (leaf(new_id()), ratio(0.34)),
            (leaf(new_id()), ratio(0.33)),
            (leaf(new_id()), ratio(0.33)),
        ],
    };
    assert!(node.validate_structure().is_err());
    assert!(matches!(node.validate_structure(), Err(StructureError::ChildCount { count: 3 })));
}

#[test]
fn persisted_layout_node_validate_structure_should_reject_when_ratios_do_not_sum_to_one() {
    let node = PersistedLayoutNode::Split {
        orientation: Orientation::Horizontal,
        children: vec![(leaf(new_id()), ratio(0.5)), (leaf(new_id()), ratio(0.2))],
    };
    assert!(node.validate_structure().is_err());
    match node.validate_structure() {
        Err(StructureError::RatioSum { first, second }) => {
            assert_eq!((first, second), (ratio(0.5), ratio(0.2)));
        }
        other => panic!("expected RatioSum, got {other:?}"),
    }
}

#[test]
fn persisted_layout_node_validate_structure_should_reject_when_split_has_zero_children() {
    let node =
        PersistedLayoutNode::Split { orientation: Orientation::Horizontal, children: vec![] };
    assert!(node.validate_structure().is_err());
}

struct RecordingBackend {
    saved: Mutex<Vec<PersistedSessionRecord>>,
}

impl PersistenceBackend for RecordingBackend {
    fn save(&self, record: &PersistedSessionRecord) -> Result<(), SaveError> {
        self.saved.lock().unwrap().push(record.clone());
        Ok(())
    }
    fn load_all(&self) -> Vec<PersistedSessionRecord> {
        Vec::new()
    }
    fn delete(&self, _session_id: Uuid) {}
}

#[test]
fn engine_should_accept_any_persistence_backend_implementation_via_trait_object() {
    let backend: Box<dyn PersistenceBackend> =
        Box::new(RecordingBackend { saved: Mutex::new(Vec::new()) });
    backend.save(&sample_record()).unwrap();
    assert!(backend.load_all().is_empty());
}

#[test]
fn null_backend_keeps_nothing() {
    let backend = NullPersistenceBackend;
    let record = sample_record();
    backend.save(&record).unwrap();
    assert!(backend.load_all().is_empty());
    backend.delete(record.session_id);
}

#[test]
fn a_sound_record_is_valid() {
    let record = sample_record();
    assert!(record.validate().is_ok());
    assert_eq!(record.clone(), record);
}

#[test]
fn the_first_fault_in_a_nested_layout_is_reported() {
    let broken = PersistedLayoutNode::Split {
        orientation: Orientation::Vertical,
        children: vec![(leaf(new_id()), ratio(0.5))],
    };
    let mut record = sample_record();
    record.windows[0].layout = PersistedLayoutNode::Split {
        orientation: Orientation::Horizontal,
        children: vec![(leaf(new_id()), ratio(0.5)), (broken, ratio(0.5))],
    };
    let error = record.validate().unwrap_err();
    assert!(matches!(error, RecordError::Structure(StructureError::ChildCount { count: 1 })));
    assert_eq!(
        error.message(""),
        "Split node has 1 children, expected exactly 2"
    );
    let sum = StructureError::RatioSum { first: ratio(0.5), second: ratio(0.25) };
    assert_eq!(sum.message("0.75"), "Split node children ratios sum to 0.75, expected ~1.0");
}

#[test]
fn a_stored_session_keeps_its_shape_and_what_its_panes_run() {
    let (a, b, window_id, session_id) = (new_id(), new_id(), new_id(), new_id());
    let session = SessionState {
        id: session_id,
        name: "work".to_string(),
        windows: vec![WindowState {
            id: window_id,
            name: "0".to_string(),
            layout: LayoutNode::Split {
                orientation: Orientation::Vertical,
                children: vec![
                    (LayoutNode::leaf(a), ratio(0.25)),
                    (LayoutNode::leaf(b), ratio(0.75)),
                ],
            },
            rows: 24,
            cols: 80,
        }],
        active_window_id: window_id,
    };
    let mut panes = HashMap::new();
    panes.insert(
        a,
        PaneEntry::Live(LivePane {
            command: "vi".to_string(),
            cwd: "/home".to_string(),
            rows: 6,
            cols: 80,
            exited: false,
        }),
    );
    panes.insert(
        b,
        PaneEntry::Dead(PersistedPaneRecord {
            pane_id: b,
            command: "top".to_string(),
            cwd: "/".to_string(),
            rows: 18,
            cols: 79,
        }),
    );
    let record = PersistedSessionRecord::from_session_state(&session, &panes);
    assert_eq!(record.schema_version, CURRENT_SCHEMA_VERSION);
    assert_eq!(record.session_id, session_id);
    assert_eq!(record.name, "work");
    assert_eq!(record.active_window_id, window_id);
    assert_eq!(
        record.windows[0].layout,
        PersistedLayoutNode::Split {
            orientation: Orientation::Vertical,
            children: vec![
                (
                    PersistedLayoutNode::Leaf {
                        pane: PersistedPaneRecord {
                            pane_id: a,
                            command: "vi".to_string(),
                            cwd: "/home".to_string(),
                            rows: 6,
                            cols: 80,
                        },
                    },
                    ratio(0.25)
                ),
                (
                    PersistedLayoutNode::Leaf {
                        pane: PersistedPaneRecord {
                            pane_id: b,
                            command: "top".to_string(),
                            cwd: "/".to_string(),
                            rows: 18,
                            cols: 79,
                        },
                    },
                    ratio(0.75)
                ),
            ],
        }
    );
    assert!(record.validate().is_ok());
}

#[test]
fn sessions_are_stored_under_their_identifiers() {
    let backend = FsPersistenceBackend::new(b"/var/lib/tymux".to_vec());
    let id = 0x12345678_9abc_4def_8123_456789abcdef_u128;
    assert_eq!(
        backend.final_path(id),
        b"/var/lib/tymux/12345678-9abc-4def-8123-456789abcdef.json".to_vec()
    );
    assert_eq!(
        backend.tmp_path(id),
        b"/var/lib/tymux/12345678-9abc-4def-8123-456789abcdef.json.tmp".to_vec()
    );
    assert!(FsPersistenceBackend::holds_session(b"12345678-9abc-4def-8123-456789abcdef.json"));
    assert!(!FsPersistenceBackend::holds_session(
        b"12345678-9abc-4def-8123-456789abcdef.json.tmp"
    ));
    assert!(!FsPersistenceBackend::holds_session(b".json"));
    assert!(FsPersistenceBackend::holds_session(b"bad.json"));
    assert!(!FsPersistenceBackend::holds_session(b"notes.txt"));
}

#[test]
fn identifiers_are_written_as_the_uuid_crate_writes_them() {
    let backend = FsPersistenceBackend::new(Vec::new());
    for _ in 0..100 {
        let id = uuid::Uuid::new_v4();
        assert_eq!(backend.final_path(id.as_u128()), format!("{id}.json").into_bytes());
    }
}

#[test]
fn a_pane_that_is_not_known_is_stored_blank() {
    let (a, window_id) = (new_id(), new_id());
    let session = SessionState {
        id: new_id(),
        name: "work".to_string(),
        windows: vec![WindowState {
            id: window_id,
            name: "0".to_string(),
            layout: LayoutNode::leaf(a),
            rows: 24,
            cols: 80,
        }],
        active_window_id: window_id,
    };
    let record = PersistedSessionRecord::from_session_state(&session, &HashMap::new());
    assert_eq!(
        record.windows[0].layout,
        PersistedLayoutNode::Leaf {
            pane: PersistedPaneRecord {
                pane_id: a,
                command: String::new(),
                cwd: String::new(),
                rows: 0,
                cols: 0,
            },
        }
    );
}
