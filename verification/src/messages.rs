//! What the user is told.

use crate::engine::EngineError;
use crate::ids;
use crate::ids::uuid_text;
use crate::layout::{LayoutError, MIN_PANE_COLS, MIN_PANE_ROWS, RECOMMENDED_SPLIT_MIN_ROWS};
use crate::persistence::{RecordError, StructureError, CURRENT_SCHEMA_VERSION};
use crate::text;
use crate::text::push_decimal;
use vstd::prelude::*;

verus! {

/// A split that would leave a pane too small.
pub open spec fn below_minimum_text(rows: u16, cols: u16) -> Seq<char> {
    "split would produce a pane of "@ + text::decimal(rows as nat) + " rows x "@ + text::decimal(
        cols as nat,
    ) + " cols, below the minimum of "@ + text::decimal(MIN_PANE_ROWS as nat) + " rows x "@
        + text::decimal(MIN_PANE_COLS as nat) + " cols"@
}

/// A pane that is too short to be split side by side.
pub open spec fn below_recommended_text(rows: u16) -> Seq<char> {
    "Can't split: pane is "@ + text::decimal(rows as nat)
        + " rows, minimum for a horizontal split is ~"@ + text::decimal(
        RECOMMENDED_SPLIT_MIN_ROWS as nat,
    ) + " rows. Resize your terminal or close another pane first."@
}

fn below_minimum_message(rows: u16, cols: u16) -> (message: String)
    ensures
        message@ == below_minimum_text(rows, cols),
{
    let mut message: String = "split would produce a pane of ".to_owned();
    push_decimal(&mut message, rows as u64);
    message.append(" rows x ");
    push_decimal(&mut message, cols as u64);
    message.append(" cols, below the minimum of ");
    push_decimal(&mut message, MIN_PANE_ROWS as u64);
    message.append(" rows x ");
    push_decimal(&mut message, MIN_PANE_COLS as u64);
    message.append(" cols");
    message
}

fn below_recommended_message(rows: u16) -> (message: String)
    ensures
        message@ == below_recommended_text(rows),
{
    let mut message: String = "Can't split: pane is ".to_owned();
    push_decimal(&mut message, rows as u64);
    message.append(" rows, minimum for a horizontal split is ~");
    push_decimal(&mut message, RECOMMENDED_SPLIT_MIN_ROWS as u64);
    message.append(" rows. Resize your terminal or close another pane first.");
    message
}

impl LayoutError {
    /// Why the split is refused.
    pub open spec fn text(self) -> Seq<char> {
        match self {
            LayoutError::BelowMinimumSize { rows, cols } => below_minimum_text(rows, cols),
            LayoutError::BelowRecommendedSize { rows } => below_recommended_text(rows),
            LayoutError::PaneNotFound { pane_id } => "no leaf with pane_id "@ + ids::hyphenated(
                pane_id,
            ) + " in this layout"@,
        }
    }

    /// Why the split is refused.
    pub fn message(&self) -> (message: String)
        ensures
            message@ == self.text(),
    {
        match *self {
            LayoutError::BelowMinimumSize { rows, cols } => below_minimum_message(rows, cols),
            LayoutError::BelowRecommendedSize { rows } => below_recommended_message(rows),
            LayoutError::PaneNotFound { pane_id } => {
                let mut message: String = "no leaf with pane_id ".to_owned();
                message.append(uuid_text(pane_id).as_str());
                message.append(" in this layout");
                message
            },
        }
    }
}

impl EngineError {
    /// Why the request is refused.
    pub open spec fn text(self) -> Seq<char> {
        match self {
            EngineError::PaneNotFound(id) => "no such pane: "@ + ids::hyphenated(id),
            EngineError::SessionNotFound(id) => "no such session: "@ + ids::hyphenated(id),
            EngineError::BelowMinimumSize { rows, cols } => below_minimum_text(rows, cols),
            EngineError::BelowRecommendedSize { rows } => below_recommended_text(rows),
        }
    }

    /// Why the request is refused.
    pub fn message(&self) -> (message: String)
        ensures
            message@ == self.text(),
    {
        match *self {
            EngineError::PaneNotFound(id) => {
                let mut message: String = "no such pane: ".to_owned();
                message.append(uuid_text(id).as_str());
                message
            },
            EngineError::SessionNotFound(id) => {
                let mut message: String = "no such session: ".to_owned();
                message.append(uuid_text(id).as_str());
                message
            },
            EngineError::BelowMinimumSize { rows, cols } => below_minimum_message(rows, cols),
            EngineError::BelowRecommendedSize { rows } => below_recommended_message(rows),
        }
    }
}

impl StructureError {
    /// What is wrong with the layout. `ratio_sum` is the sum of the ratios, as a
    /// text.
    pub open spec fn text(self, ratio_sum: Seq<char>) -> Seq<char> {
        match self {
            StructureError::ChildCount { count } => "Split node has "@ + text::decimal(
                count as nat,
            ) + " children, expected exactly 2"@,
            StructureError::RatioSum { .. } => "Split node children ratios sum to "@ + ratio_sum
                + ", expected ~1.0"@,
        }
    }

    /// What is wrong with the layout.
    pub fn message(&self, ratio_sum: &str) -> (message: String)
        ensures
            message@ == self.text(ratio_sum@),
    {
        match *self {
            StructureError::ChildCount { count } => {
                let mut message: String = "Split node has ".to_owned();
                push_decimal(&mut message, count as u64);
                message.append(" children, expected exactly 2");
                message
            },
            StructureError::RatioSum { .. } => {
                let mut message: String = "Split node children ratios sum to ".to_owned();
                message.append(ratio_sum);
                message.append(", expected ~1.0");
                message
            },
        }
    }
}

impl RecordError {
    /// What is wrong with the record.
    pub open spec fn text(self, ratio_sum: Seq<char>) -> Seq<char> {
        match self {
            RecordError::UnknownVersion { found } => "unknown schema_version "@ + text::decimal(
                found as nat,
            ) + " (expected "@ + text::decimal(CURRENT_SCHEMA_VERSION as nat) + ")"@,
            RecordError::Structure(error) => error.text(ratio_sum),
        }
    }

    /// What is wrong with the record.
    pub fn message(&self, ratio_sum: &str) -> (message: String)
        ensures
            message@ == self.text(ratio_sum@),
    {
        match self {
            RecordError::UnknownVersion { found } => {
                let mut message: String = "unknown schema_version ".to_owned();
                push_decimal(&mut message, *found as u64);
                message.append(" (expected ");
                push_decimal(&mut message, CURRENT_SCHEMA_VERSION as u64);
                message.append(")");
                message
            },
            RecordError::Structure(error) => error.message(ratio_sum),
        }
    }
}

/// The kinds of answer by which the daemon refuses that are told apart.
#[derive(Debug, Clone, Copy, PartialEq, Eq, Structural)]
pub enum StatusCode {
    Unauthenticated,
    PermissionDenied,
    Other,
}

/// What went wrong.
#[derive(Debug)]
pub enum Failure {
    /// The daemon cannot be reached.
    Transport,
    /// The daemon refuses.
    Status { code: StatusCode, message: String },
    /// Something else, which speaks for itself.
    Other { message: String },
}

impl Failure {
    /// What to tell of it.
    pub open spec fn text(self) -> Seq<char> {
        match self {
            Failure::Transport =>
                "couldn't connect to tymuxd — is the daemon running? (start it with `cargo run -p tymuxd`)"@,
            Failure::Status { code: StatusCode::Unauthenticated, message } =>
                "tymuxd rejected this connection: "@ + message@
                    + " (set --token or TYMUXD_TOKEN to authenticate)"@,
            Failure::Status { code: StatusCode::PermissionDenied, message } =>
                "tymuxd rejected this connection: "@ + message@
                    + " (ask the daemon's owner to add you to its configured --socket-group, or run tymux-cli as the daemon's own OS user)"@,
            Failure::Status { code: StatusCode::Other, message } => message@,
            Failure::Other { message } => message@,
        }
    }
}

/// What to tell of a failure: a remedy where there is a known one, and the plain
/// message otherwise.
pub fn friendly_message(failure: &Failure) -> (message: String)
    ensures
        message@ == failure.text(),
{
    match failure {
        Failure::Transport =>
            "couldn't connect to tymuxd — is the daemon running? (start it with `cargo run -p tymuxd`)".to_owned(),
        Failure::Status { code, message: reason } => match code {
            StatusCode::Unauthenticated => {
                let mut message: String = "tymuxd rejected this connection: ".to_owned();
                message.append(reason.as_str());
                message.append(" (set --token or TYMUXD_TOKEN to authenticate)");
                message
            },
            StatusCode::PermissionDenied => {
                let mut message: String = "tymuxd rejected this connection: ".to_owned();
                message.append(reason.as_str());
                message.append(
                    " (ask the daemon's owner to add you to its configured --socket-group, or run tymux-cli as the daemon's own OS user)",
                );
                message
            },
            StatusCode::Other => reason.clone(),
        },
        Failure::Other { message } => message.clone(),
    }
}

/// What to tell after a session was revived, or found to be live already.
pub open spec fn revive_text(session: Seq<char>, already_live: bool, pane_count: nat) -> Seq<char> {
    if already_live {
        "'"@ + session + "' is already live — nothing to revive. Use `tymux attach "@ + session
            + "` instead."@
    } else {
        "Session revived: "@ + text::decimal(pane_count)
            + " pane(s) respawned with their original command and working directory. These are NEW processes — scrollback from before the restart is not carried forward."@
    }
}

/// What to tell after a session was revived, or found to be live already.
pub fn revive_message(session_name: &str, already_live: bool, pane_count: u64) -> (message: String)
    ensures
        message@ == revive_text(session_name@, already_live, pane_count as nat),
{
    if already_live {
        let mut message: String = "'".to_owned();
        message.append(session_name);
        message.append("' is already live — nothing to revive. Use `tymux attach ");
        message.append(session_name);
        message.append("` instead.");
        message
    } else {
        let mut message: String = "Session revived: ".to_owned();
        push_decimal(&mut message, pane_count);
        message.append(
            " pane(s) respawned with their original command and working directory. These are NEW processes — scrollback from before the restart is not carried forward.",
        );
        message
    }
}

/// What to tell after a pane was closed: nothing, unless its window or its
/// session went with it, whose names are then not empty.
pub open spec fn close_pane_text(
    window_closed: Seq<char>,
    session_closed: Seq<char>,
    windows_left: nat,
) -> Option<Seq<char>> {
    if session_closed.len() > 0 {
        Some(
            "Window "@ + window_closed + " closed (last pane exited). '"@ + session_closed
                + "' closed (last window)."@,
        )
    } else if window_closed.len() > 0 {
        Some(
            "Window "@ + window_closed + " closed (last pane exited). "@ + text::decimal(
                windows_left,
            ) + " window(s) remain."@,
        )
    } else {
        None
    }
}

/// What to tell after a pane was closed.
pub fn close_pane_message(window_closed: &str, session_closed: &str, windows_left: usize) -> (message:
    Option<String>)
    ensures
        match message {
            Some(message) => close_pane_text(
                window_closed@,
                session_closed@,
                windows_left as nat,
            ) == Some(message@),
            None => close_pane_text(window_closed@, session_closed@, windows_left as nat) is None,
        },
{
    if session_closed.unicode_len() > 0 {
        let mut message: String = "Window ".to_owned();
        message.append(window_closed);
        message.append(" closed (last pane exited). '");
        message.append(session_closed);
        message.append("' closed (last window).");
        Some(message)
    } else if window_closed.unicode_len() > 0 {
        let mut message: String = "Window ".to_owned();
        message.append(window_closed);
        message.append(" closed (last pane exited). ");
        push_decimal(&mut message, windows_left as u64);
        message.append(" window(s) remain.");
        Some(message)
    } else {
        None
    }
}

/// How the daemon's socket could not be reached.
#[derive(Debug, Clone, Copy, PartialEq, Eq, Structural)]
pub enum UdsFailure {
    /// A daemon listens there and lets nobody but its own in.
    PermissionDenied,
    /// No daemon can be reached there.
    Other,
}

/// What to do where the daemon's socket could not be reached.
#[derive(Debug)]
pub enum DialFallback {
    /// Give up, and tell why.
    Refuse { message: String },
    /// Tell that TCP is used instead, and dial this address.
    Tcp { address: String, notice: String },
}

/// Where to turn first: to the address that was asked for, if one was, and to
/// the daemon's socket otherwise.
#[derive(Debug)]
pub enum DialPlan {
    Address(String),
    Socket,
}

/// Where to turn first. An address that was asked for is taken as it is, and the
/// socket is left alone.
pub fn dial_plan(explicit_addr: Option<String>) -> (plan: DialPlan)
    ensures
        match explicit_addr {
            Some(addr) => plan == DialPlan::Address(addr),
            None => plan is Socket,
        },
{
    match explicit_addr {
        Some(addr) => DialPlan::Address(addr),
        None => DialPlan::Socket,
    }
}

/// What to tell where TCP is used in place of the socket.
pub open spec fn fallback_notice(socket_path: Seq<char>) -> Seq<char> {
    "tymux: no reachable Unix socket at "@ + socket_path
        + " — falling back to TCP loopback (deprecated; make sure tymuxd is running)"@
}

/// What to do where the socket could not be reached. Being turned away there is
/// final: the connection is never tried again over TCP, where nobody is turned
/// away.
pub fn dial_fallback(failure: UdsFailure, socket_path: &str) -> (fallback: DialFallback)
    ensures
        match fallback {
            DialFallback::Refuse { message } => {
                &&& failure == UdsFailure::PermissionDenied
                &&& message@
                    == "tymuxd rejected this connection: not authorized to access this daemon's socket (ask the daemon's owner to add you to its configured --socket-group, or run tymux-cli as the daemon's own OS user)"@
            },
            DialFallback::Tcp { address, notice } => {
                &&& failure == UdsFailure::Other
                &&& address@ == "http://127.0.0.1:7419"@
                &&& notice@ == "tymux: no reachable Unix socket at "@ + socket_path@
                    + " — falling back to TCP loopback (deprecated; make sure tymuxd is running)"@
                &&& notice@ == fallback_notice(socket_path@)
            },
        },
{
    match failure {
        UdsFailure::PermissionDenied => DialFallback::Refuse {
            message: "tymuxd rejected this connection: not authorized to access this daemon's socket (ask the daemon's owner to add you to its configured --socket-group, or run tymux-cli as the daemon's own OS user)".to_owned(),
        },
        UdsFailure::Other => {
            let mut notice: String = "tymux: no reachable Unix socket at ".to_owned();
            notice.append(socket_path);
            notice.append(
                " — falling back to TCP loopback (deprecated; make sure tymuxd is running)",
            );
            DialFallback::Tcp { address: "http://127.0.0.1:7419".to_owned(), notice }
        },
    }
}

} // verus!
