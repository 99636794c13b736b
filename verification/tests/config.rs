use std::collections::HashMap;
use tymux::config::{
    parse_key_sequence, Action, KeyBinding, KeySequenceParseError, TomlEntry, TymuxConfig,
};
use tymux::keys::{KeyCode, KeyEvent, CONTROL, NONE, SHIFT};
use tymux::paths::default_config_path;

fn sequence_of(config: &TymuxConfig, action: Action) -> Vec<KeyEvent> {
    let binding: &KeyBinding = config.bindings.iter().find(|b| b.action == action).unwrap();
    binding.sequence.iter().map(|key| KeyEvent::new(key.code, key.modifiers)).collect()
}

#[test]
fn tymux_config_load_or_default_should_use_hardcoded_defaults_when_no_file_present() {
    let config = TymuxConfig::defaults();
    assert_eq!(config.leader, "C-b");
    assert!(config.bindings.iter().any(|b| b.action == Action::Detach && b.sequence.len() == 2));
    assert_eq!(TymuxConfig::load_or_default(None), config);
}

#[test]
fn tymux_config_should_override_only_detach_binding_when_config_specifies_one_binding() {
    let toml = "[keybindings]\ndetach = \"C-a d\"\n";
    let config = TymuxConfig::from_toml_str(toml);
    assert_eq!(
        sequence_of(&config, Action::Detach),
        vec![
            KeyEvent::new(KeyCode::Char('a'), CONTROL),
            KeyEvent::new(KeyCode::Char('d'), NONE),
        ]
    );
    assert_eq!(
        sequence_of(&config, Action::SplitHorizontal),
        parse_key_sequence("C-b %").unwrap()
    );
}

#[test]
fn tymux_config_should_warn_and_fallback_to_default_for_single_malformed_binding_while_others_apply(
) {
    let toml = "[keybindings]\ndetach = \"C-nonsense-key\"\nnew_window = \"C-b w\"\n";
    let config = TymuxConfig::from_toml_str(toml);
    assert_eq!(sequence_of(&config, Action::Detach), parse_key_sequence("C-b d").unwrap());
    assert_eq!(
        sequence_of(&config, Action::NewWindow),
        vec![
            KeyEvent::new(KeyCode::Char('b'), CONTROL),
            KeyEvent::new(KeyCode::Char('w'), NONE),
        ]
    );
}

#[test]
fn tymux_config_load_should_produce_friendly_error_not_panic_when_toml_syntax_invalid() {
    let config = TymuxConfig::from_toml_str("this is not [ valid toml");
    assert_eq!(config, TymuxConfig::defaults());
}

#[test]
fn tymux_config_should_resolve_xdg_config_dir_path_when_locating_config_toml() {
    let path = default_config_path(None, Some(b"/home/me/.config".to_vec()));
    assert!(path.is_some());
    assert!(path.unwrap().ends_with(b"tymux/config.toml"));
    assert_eq!(
        default_config_path(Some(b"/xdg".to_vec()), Some(b"/home/me/.config".to_vec())),
        Some(b"/xdg/tymux/config.toml".to_vec())
    );
    assert_eq!(default_config_path(None, None), None);
}

#[test]
fn the_defaults_bind_every_action() {
    let config = TymuxConfig::defaults();
    let expected = [
        (Action::Detach, "C-b d"),
        (Action::EnterCopyMode, "C-b ["),
        (Action::SplitHorizontal, "C-b %"),
        (Action::SplitVertical, "C-b \""),
        (Action::KillPane, "C-b x"),
        (Action::NewWindow, "C-b c"),
        (Action::NextWindow, "C-b n"),
        (Action::PrevWindow, "C-b p"),
    ];
    assert_eq!(config.bindings.len(), expected.len());
    for (action, keys) in expected {
        assert_eq!(sequence_of(&config, action), parse_key_sequence(keys).unwrap());
    }
}

#[test]
fn the_leader_can_be_changed() {
    let config = TymuxConfig::from_toml_str("leader = \"C-a\"\n");
    assert_eq!(config.leader, "C-a");
    assert_eq!(config.bindings, TymuxConfig::defaults().bindings);
    assert_eq!(TymuxConfig::load_or_default(Some("leader = \"C-a\"\n")), config);
}

#[test]
fn what_is_not_known_is_ignored() {
    let defaults = TymuxConfig::defaults();
    for toml in [
        "",
        "other = 1\n",
        "[keybindings]\nunknown_action = \"C-b z\"\n",
        "[other]\ndetach = \"C-a d\"\n",
    ] {
        assert_eq!(TymuxConfig::from_toml_str(toml), defaults, "{toml}");
    }
}

#[test]
fn a_file_with_a_value_of_the_wrong_kind_is_ignored_as_a_whole() {
    for toml in [
        "leader = 7\n[keybindings]\nkill_pane = \"C-b k\"\n",
        "[keybindings]\ndetach = 7\nkill_pane = \"C-b k\"\n",
        "keybindings = \"C-b k\"\n",
        "leader = \"C-a\"\nleader = \"C-c\"\n",
    ] {
        assert_eq!(TymuxConfig::from_toml_str(toml), TymuxConfig::defaults(), "{toml}");
    }
}

#[test]
fn a_date_reads_as_a_table_without_bindings() {
    let toml = "leader = \"C-a\"\nkeybindings = 1979-05-27\n";
    let config = TymuxConfig::from_toml_str(toml);
    assert_eq!(config.leader, "C-a");
    assert_eq!(config.bindings, TymuxConfig::defaults().bindings);
    let read = toml::from_str::<HashMap<String, HashMap<String, String>>>("k = 1979-05-27").unwrap();
    assert_eq!(read["k"].len(), 1);
    assert!(toml::from_str::<HashMap<String, String>>("leader = 1979-05-27").is_err());
    let toml = "leader = \"C-a\"\n[keybindings]\n\"$__toml_private_datetime\" = \"x\"\n\
                detach = \"C-a q\"\n[other]\n\"$__toml_private_datetime\" = \"y\"\n";
    let config = TymuxConfig::from_toml_str(toml);
    assert_eq!(config.leader, "C-a");
    assert_eq!(sequence_of(&config, Action::Detach), parse_key_sequence("C-a q").unwrap());
    for toml in
        ["leader = 1979-05-27\n", "leader = \"C-a\"\n[keybindings]\ndetach = 07:32:00\n"]
    {
        assert_eq!(TymuxConfig::from_toml_str(toml), TymuxConfig::defaults(), "{toml}");
    }
}

#[test]
fn documents_are_read_entry_by_entry() {
    let document = Some(vec![
        ("leader".to_string(), TomlEntry::Text("C-q".to_string())),
        ("extra".to_string(), TomlEntry::Other),
        (
            "keybindings".to_string(),
            TomlEntry::Table(vec![
                ("detach".to_string(), Some("C-q q".to_string())),
                ("new_window".to_string(), Some("nonsense".to_string())),
            ]),
        ),
    ]);
    let config = TymuxConfig::from_document(&document);
    assert_eq!(config.leader, "C-q");
    assert_eq!(
        sequence_of(&config, Action::Detach),
        vec![KeyEvent::new(KeyCode::Char('q'), CONTROL), KeyEvent::new(KeyCode::Char('q'), NONE)]
    );
    assert_eq!(
        sequence_of(&config, Action::NewWindow),
        sequence_of(&TymuxConfig::defaults(), Action::NewWindow)
    );
    assert_eq!(TymuxConfig::from_document(&None), TymuxConfig::defaults());
}

#[test]
fn key_sequences_follow_the_grammar() {
    assert_eq!(
        parse_key_sequence("  C-x   y\t%").unwrap(),
        vec![
            KeyEvent::new(KeyCode::Char('x'), CONTROL),
            KeyEvent::new(KeyCode::Char('y'), NONE),
            KeyEvent::new(KeyCode::Char('%'), NONE),
        ]
    );
    for raw in ["C-", "C-ab", "ab", "C-b  xy", "C-b C-"] {
        assert_eq!(
            parse_key_sequence(raw),
            Err(KeySequenceParseError { raw: raw.to_string() }),
            "{raw:?}"
        );
    }
    assert_eq!(parse_key_sequence(""), Ok(vec![]));
    assert_eq!(parse_key_sequence(" \t\u{3000}\n"), Ok(vec![]));
    assert_eq!(
        parse_key_sequence("\u{e9}").unwrap(),
        vec![KeyEvent::new(KeyCode::Char('\u{e9}'), NONE)]
    );
}

#[test]
fn keys_are_equal_whichever_way_a_capital_is_written() {
    assert_eq!(
        KeyEvent::new(KeyCode::Char('A'), NONE),
        KeyEvent::new(KeyCode::Char('a'), SHIFT)
    );
    assert_eq!(
        KeyEvent::new(KeyCode::Char('A'), SHIFT),
        KeyEvent::new(KeyCode::Char('A'), NONE)
    );
    assert_ne!(
        KeyEvent::new(KeyCode::Char('a'), CONTROL),
        KeyEvent::new(KeyCode::Char('a'), NONE)
    );
    assert_ne!(KeyEvent::new(KeyCode::Enter, NONE), KeyEvent::new(KeyCode::Tab, NONE));
}

#[test]
fn keys_are_equal_as_the_terminal_crate_has_it() {
    let codes: Vec<char> = "aAzZ1 %\u{e9}\u{c9}\u{df}".chars().collect();
    for &a in &codes {
        for &b in &codes {
            for m in 0..4u8 {
                for n in 0..4u8 {
                    let ours = KeyEvent::new(KeyCode::Char(a), m)
                        == KeyEvent::new(KeyCode::Char(b), n);
                    let theirs = crossterm::event::KeyEvent::new(
                        crossterm::event::KeyCode::Char(a),
                        crossterm::event::KeyModifiers::from_bits_truncate(m),
                    ) == crossterm::event::KeyEvent::new(
                        crossterm::event::KeyCode::Char(b),
                        crossterm::event::KeyModifiers::from_bits_truncate(n),
                    );
                    assert_eq!(ours, theirs, "{a:?} {m} {b:?} {n}");
                }
            }
        }
    }
}
