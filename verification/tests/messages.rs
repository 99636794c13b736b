use tymux::attach::{chrome_message_for_event, ServerEvent};
use tymux::messages::{
    close_pane_message, dial_fallback, dial_plan, friendly_message, revive_message, DialFallback,
    DialPlan, Failure, StatusCode, UdsFailure,
};

fn status(code: StatusCode, message: &str) -> Failure {
    Failure::Status { code, message: message.to_string() }
}

#[test]
fn attach_event_match_should_render_output_dropped_message_on_output_gap_variant() {
    let exited_msg = chrome_message_for_event(&ServerEvent::Exited).unwrap();
    let gap_msg = chrome_message_for_event(&ServerEvent::OutputGap).unwrap();
    assert!(gap_msg.contains("output dropped"));
    assert_ne!(
        exited_msg, gap_msg,
        "exited and output-gap messages must be textually distinct"
    );
}

#[test]
fn chrome_message_for_event_is_none_for_output_bytes() {
    assert!(chrome_message_for_event(&ServerEvent::Output(vec![1, 2, 3])).is_none());
}

#[test]
fn friendly_message_unwraps_tonic_status_to_its_plain_text() {
    let failure = status(StatusCode::Other, "no such session: abc");
    assert_eq!(friendly_message(&failure), "no such session: abc");
}

#[test]
fn friendly_message_passes_through_generic_errors() {
    let failure = Failure::Other { message: "no such session: abc".to_string() };
    assert_eq!(friendly_message(&failure), "no such session: abc");
}

#[test]
fn friendly_message_names_the_remedy_for_unauthenticated_status() {
    let failure = status(StatusCode::Unauthenticated, "missing bearer token");
    assert_eq!(
        friendly_message(&failure),
        "tymuxd rejected this connection: missing bearer token (set --token or TYMUXD_TOKEN to authenticate)"
    );
}

#[test]
fn friendly_message_unaffected_for_other_status_codes() {
    let failure = status(StatusCode::Other, "no such session: abc");
    assert_eq!(friendly_message(&failure), "no such session: abc");
}

#[test]
fn friendly_message_names_the_remedy_for_permission_denied_status() {
    let failure =
        status(StatusCode::PermissionDenied, "not authorized to access this daemon's socket");
    assert_eq!(
        friendly_message(&failure),
        "tymuxd rejected this connection: not authorized to access this daemon's socket \
         (ask the daemon's owner to add you to its configured --socket-group, or run \
         tymux-cli as the daemon's own OS user)"
    );
}

#[test]
fn split_command_should_show_exact_row_counts_when_terminal_below_minimum_size() {
    let failure = status(
        StatusCode::Other,
        "Can't split: pane is 15 rows, minimum for a horizontal split is ~20 rows. \
         Resize your terminal or close another pane first.",
    );
    let msg = friendly_message(&failure);
    assert_eq!(
        msg,
        "Can't split: pane is 15 rows, minimum for a horizontal split is ~20 rows. \
         Resize your terminal or close another pane first."
    );
    assert!(msg.contains("15"));
    assert!(msg.contains("20"));
}

#[test]
fn kill_pane_message_names_window_closed_when_last_pane_in_window() {
    let message = close_pane_message("0", "", 1);
    assert_eq!(
        message.as_deref(),
        Some("Window 0 closed (last pane exited). 1 window(s) remain.")
    );
    assert_eq!(
        close_pane_message("0", "work", 0).as_deref(),
        Some("Window 0 closed (last pane exited). 'work' closed (last window).")
    );
    assert_eq!(close_pane_message("", "", 3), None);
}

#[test]
fn an_unreachable_daemon_is_named() {
    assert_eq!(
        friendly_message(&Failure::Transport),
        "couldn't connect to tymuxd \u{2014} is the daemon running? (start it with `cargo run -p tymuxd`)"
    );
}

#[test]
fn reviving_is_reported() {
    assert_eq!(
        revive_message("work", true, 0),
        "'work' is already live \u{2014} nothing to revive. Use `tymux attach work` instead."
    );
    assert_eq!(
        revive_message("work", false, 12),
        "Session revived: 12 pane(s) respawned with their original command and working \
         directory. These are NEW processes \u{2014} scrollback from before the restart is not \
         carried forward."
    );
}

#[test]
fn an_explicit_address_is_dialled_as_it_is() {
    match dial_plan(Some("http://10.0.0.1:1".to_string())) {
        DialPlan::Address(address) => assert_eq!(address, "http://10.0.0.1:1"),
        DialPlan::Socket => panic!("the socket must be left alone"),
    }
    assert!(matches!(dial_plan(None), DialPlan::Socket));
}

#[test]
fn being_turned_away_at_the_socket_is_final() {
    match dial_fallback(UdsFailure::PermissionDenied, "/run/tymuxd.sock") {
        DialFallback::Refuse { message } => assert!(message.contains("--socket-group")),
        DialFallback::Tcp { .. } => panic!("TCP must never be dialled"),
    }
    match dial_fallback(UdsFailure::Other, "/run/tymuxd.sock") {
        DialFallback::Tcp { address, notice } => {
            assert_eq!(address, "http://127.0.0.1:7419");
            assert!(notice.contains("/run/tymuxd.sock"));
            assert!(notice.contains("falling back to TCP"));
        }
        DialFallback::Refuse { .. } => panic!("TCP must be tried"),
    }
}
