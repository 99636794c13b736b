//! The logic of a terminal multiplexer, verified.
//!
//! A daemon keeps sessions of windows of panes; clients attach to panes. This
//! crate holds what both of them decide: how a window is divided, what the
//! daemon's state becomes, what is stored of it, what keys mean, and what is
//! drawn. Processes, sockets, files and terminals are left to the callers.

pub mod attach;
pub mod attach_laws;
pub mod auth;
pub mod config;
pub mod config_laws;
pub mod copy_mode;
pub mod emulator;
pub mod engine;
pub mod engine_laws;
pub mod ids;
pub mod input;
pub mod input_laws;
pub mod keys;
pub mod layout;
pub mod layout_laws;
pub mod message_laws;
pub mod messages;
pub mod operation_laws;
pub mod paths;
pub mod persistence;
pub mod ratio;
pub mod record_laws;
pub mod replay_buffer;
pub mod revival_laws;
pub mod screen;
pub mod session;
pub mod snapshot;
pub mod status_bar;
pub mod target;
pub mod target_laws;
pub mod text;

pub use engine::{
    ClosePaneOutcome, Engine, EngineError, PaneLookup, ReviveOutcome, SplitOutcome, WindowOutcome,
};
pub use ids::Uuid;
pub use layout::{
    LayoutError, LayoutNode, Orientation, PtyRect, RemoveOutcome, MIN_PANE_COLS, MIN_PANE_ROWS,
    RECOMMENDED_SPLIT_MIN_ROWS,
};
pub use paths::{default_sessions_dir, FsPersistenceBackend};
pub use persistence::{
    NullPersistenceBackend, PersistedLayoutNode, PersistedPaneRecord, PersistedSessionRecord,
    PersistedWindowRecord, PersistenceBackend, CURRENT_SCHEMA_VERSION,
};
pub use ratio::Ratio;
pub use screen::{CellSnapshot, PaneSnapshot};
pub use session::{LivePane, PaneEntry, SessionState, WindowState};
pub use snapshot::{LayoutSnapshot, PaneInfo, SessionSnapshot, WindowSnapshot};
