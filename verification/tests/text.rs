use std::collections::HashSet;
use tymux::ids::fresh_id;
use tymux::screen::{pack_color, Color};
use tymux::text::{bytes_of, chars_of, decimal_text, same_text, split_words, text_of, whitespace};
use tymux::{Engine, FsPersistenceBackend, LivePane};

#[test]
fn whitespace_is_what_std_calls_whitespace() {
    for n in 0..=0x10ffffu32 {
        if let Some(c) = char::from_u32(n) {
            assert_eq!(whitespace(c), c.is_whitespace(), "{n:x}");
        }
    }
}

#[test]
fn words_are_split_as_std_splits_them() {
    for text in ["", " ", "a", " a  b ", "C-b d", "\u{3000}x\u{2003}y\tz\n", "\u{200b}q"] {
        let ours: Vec<String> = split_words(text).into_iter().map(|w| w.into_iter().collect()).collect();
        let theirs: Vec<&str> = text.split_whitespace().collect();
        assert_eq!(ours, theirs, "{text:?}");
    }
}

#[test]
fn numbers_are_written_in_decimal() {
    for n in [0u64, 1, 9, 10, 11, 99, 100, 65535, 4294967296, u64::MAX] {
        assert_eq!(decimal_text(n), n.to_string());
    }
}

#[test]
fn texts_and_characters_convert_both_ways() {
    let text = "h\u{e9}llo \u{1f600}";
    let chars = chars_of(text);
    assert_eq!(chars, text.chars().collect::<Vec<char>>());
    assert_eq!(text_of(&chars), text);
    assert_eq!(bytes_of(b"abc"), b"abc".to_vec());
    assert!(same_text("abc", "abc"));
    assert!(!same_text("abc", "abd"));
    assert!(!same_text("abc", "ab"));
}

#[test]
fn fresh_identifiers_are_random_ones_and_differ() {
    let mut seen = HashSet::new();
    let mut engine = Engine::new();
    for n in 0..100u128 {
        let pane = LivePane {
            command: "sh".to_string(),
            cwd: "/".to_string(),
            rows: 24,
            cols: 80,
            exited: false,
        };
        let id = engine.create_session("s".to_string(), n, pane);
        let parsed = uuid::Uuid::from_u128(id);
        assert_eq!(parsed.get_version_num(), 4);
        assert_eq!(parsed.get_variant(), uuid::Variant::RFC4122);
        assert!(seen.insert(id));
    }
    for _ in 0..100 {
        let id = fresh_id();
        assert_eq!(uuid::Uuid::from_u128(id).get_version_num(), 4);
        assert!(seen.insert(id));
    }
    for window in engine.list_sessions().iter().flat_map(|s| s.windows.iter()) {
        assert_eq!(uuid::Uuid::from_u128(window.id).get_version_num(), 4);
        assert!(seen.insert(window.id));
    }
}

#[test]
fn sessions_have_their_own_files() {
    let backend = FsPersistenceBackend::new(b"/d".to_vec());
    let ids = [0u128, 1, 0x10, 1 << 64, 1 << 127, u128::MAX];
    let files: HashSet<Vec<u8>> = ids
        .iter()
        .flat_map(|id| [backend.final_path(*id), backend.tmp_path(*id)])
        .collect();
    assert_eq!(files.len(), 2 * ids.len());
}

#[test]
fn different_colors_are_packed_differently() {
    let mut seen = HashSet::new();
    assert!(seen.insert(pack_color(Color::Default)));
    for i in 0..=255u8 {
        assert!(seen.insert(pack_color(Color::Idx(i))));
    }
    for r in [0u8, 1, 255] {
        for g in [0u8, 1, 255] {
            for b in [0u8, 1, 255] {
                assert!(seen.insert(pack_color(Color::Rgb(r, g, b))));
            }
        }
    }
}
