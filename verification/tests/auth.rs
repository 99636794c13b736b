use tymux::auth::{invalid_token_message, BearerAuth, BearerToken, InvalidToken};
use tymux::paths::{default_sessions_dir, default_uds_socket_path, join};

fn auth(token: &str) -> Result<Option<Vec<u8>>, InvalidToken> {
    BearerAuth::new(BearerToken::parse(token)).map(|auth| auth.header)
}

#[test]
fn an_empty_token_is_no_token() {
    assert!(BearerToken::parse("").is_none());
    assert_eq!(BearerToken::parse("s3cr3t").unwrap().as_str(), "s3cr3t");
    assert_eq!(auth(""), Ok(None));
}

#[test]
fn a_token_goes_into_the_header() {
    assert_eq!(auth("s3cr3t"), Ok(Some(b"Bearer s3cr3t".to_vec())));
    assert_eq!(auth("tab\there"), Ok(Some(b"Bearer tab\there".to_vec())));
    assert_eq!(auth("\u{e9}"), Ok(Some("Bearer \u{e9}".as_bytes().to_vec())));
}

#[test]
fn a_token_that_no_header_can_hold_is_refused() {
    for token in ["a\nb", "a\rb", "\0", "\u{7f}", "\u{1b}"] {
        assert_eq!(auth(token), Err(InvalidToken), "{token:?}");
    }
    assert_eq!(invalid_token_message(), "token contains invalid header characters");
}

fn socket(xdg: Option<&str>, tmpdir: Option<&str>, uid: u32) -> String {
    let bytes = |value: Option<&str>| value.map(|v| v.as_bytes().to_vec());
    String::from_utf8(default_uds_socket_path(bytes(xdg), bytes(tmpdir), uid)).unwrap()
}

#[test]
fn default_uds_socket_path_prefers_xdg_runtime_dir() {
    assert_eq!(
        socket(Some("/run/user/1000"), Some("/var/tmp"), 1000),
        "/run/user/1000/tymuxd/tymuxd.sock"
    );
}

#[test]
fn default_uds_socket_path_falls_back_to_tmpdir_when_xdg_unset() {
    assert_eq!(socket(None, Some("/var/tmp"), 1000), "/var/tmp/tymuxd-1000/tymuxd.sock");
}

#[test]
fn default_uds_socket_path_falls_back_to_tmp_when_both_unset() {
    assert_eq!(socket(None, None, 1000), "/tmp/tymuxd-1000/tymuxd.sock");
}

#[test]
fn default_uds_socket_path_treats_empty_xdg_runtime_dir_as_unset() {
    assert_eq!(socket(Some(""), None, 1000), "/tmp/tymuxd-1000/tymuxd.sock");
    assert_eq!(socket(Some(""), Some(""), 1000), "/tmp/tymuxd-1000/tymuxd.sock");
}

#[test]
fn default_uds_socket_path_scopes_by_uid_to_avoid_collision() {
    let base = socket(None, None, 1000);
    let other = socket(None, None, 1001);
    assert_eq!(base, "/tmp/tymuxd-1000/tymuxd.sock");
    assert_eq!(other, "/tmp/tymuxd-1001/tymuxd.sock");
    assert_ne!(base, other);
}

#[test]
fn sessions_are_kept_below_the_state_directory() {
    assert_eq!(
        default_sessions_dir(Some(b"/state".to_vec()), Some(b"/data".to_vec())),
        b"/state/tymux/sessions".to_vec()
    );
    assert_eq!(
        default_sessions_dir(None, Some(b"/data".to_vec())),
        b"/data/tymux/sessions".to_vec()
    );
    assert_eq!(default_sessions_dir(None, None), b"./tymux/sessions".to_vec());
}

#[test]
fn paths_are_joined_as_std_joins_them() {
    for base in ["", "/", "a", "a/", "/a/b", "/a//"] {
        let joined = join(base.as_bytes().to_vec(), "name");
        let expected = std::path::Path::new(base).join("name");
        assert_eq!(joined, expected.to_str().unwrap().as_bytes().to_vec(), "{base:?}");
    }
}
