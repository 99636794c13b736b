use tymux::config::{Action, TymuxConfig};
use tymux::input::{KeystrokeReassembler, ReassembledOutput};

const PASTE_START: &[u8] = b"\x1b[200~";
const PASTE_END: &[u8] = b"\x1b[201~";

fn reassembler() -> KeystrokeReassembler {
    KeystrokeReassembler::new(&TymuxConfig::defaults())
}

fn forwards(bytes: &[u8]) -> Vec<ReassembledOutput> {
    bytes.iter().map(|&b| ReassembledOutput::Forward(vec![b])).collect()
}

#[test]
fn keystroke_reassembler_should_fire_action_when_binding_uses_a_different_leader_than_the_global_default(
) {
    let config = TymuxConfig::from_toml_str("[keybindings]\ndetach = \"C-a d\"\n");
    let mut r = KeystrokeReassembler::new(&config);

    let armed = r.process(&[0x01]);
    assert!(armed.is_empty(), "C-a must arm since a binding starts with it");
    assert!(r.is_armed());

    let fired = r.process(b"d");
    assert_eq!(fired, vec![ReassembledOutput::Action(Action::Detach)]);
}

#[test]
fn keystroke_reassembler_should_not_fire_action_when_second_key_matches_but_leader_differs() {
    let config = TymuxConfig::from_toml_str("[keybindings]\ndetach = \"C-a d\"\n");
    let mut r = KeystrokeReassembler::new(&config);

    r.process(&[0x02]);
    let out = r.process(b"d");
    assert_eq!(
        out,
        vec![ReassembledOutput::Forward(vec![0x02, b'd'])],
        "C-b d must not fire a binding whose configured leader is C-a"
    );
}

#[test]
fn keystroke_reassembler_should_fire_detach_action_exactly_once_when_leader_and_key_split_across_reads(
) {
    let mut r = reassembler();
    let first = r.process(&[0x02]);
    assert!(first.is_empty(), "arming the leader alone must not yet fire anything");
    let second = r.process(b"d");
    assert_eq!(second, vec![ReassembledOutput::Action(Action::Detach)]);
}

#[test]
fn keystroke_reassembler_should_fire_detach_action_exactly_once_when_leader_and_key_arrive_in_one_read(
) {
    let mut r = reassembler();
    let out = r.process(&[0x02, b'd']);
    assert_eq!(out, vec![ReassembledOutput::Action(Action::Detach)]);
}

#[test]
fn keystroke_reassembler_should_forward_paste_unmodified_when_pasted_bytes_match_a_binding_sequence(
) {
    let mut r = reassembler();
    let mut input = Vec::new();
    input.extend_from_slice(PASTE_START);
    input.extend_from_slice(&[0x02, b'd']);
    input.extend_from_slice(PASTE_END);

    let out = r.process(&input);
    assert_eq!(out, vec![ReassembledOutput::Forward(vec![0x02, b'd'])]);
}

#[test]
fn prefix_state_should_forward_literal_leader_byte_and_return_to_idle_when_leader_pressed_twice() {
    let mut r = reassembler();
    r.process(&[0x02]);
    assert!(r.is_armed());
    let out = r.process(&[0x02]);
    assert_eq!(out, vec![ReassembledOutput::Forward(vec![0x02])]);
    assert!(!r.is_armed());
}

#[test]
fn unmatched_follow_up_forwards_leader_and_key_rather_than_dropping_them() {
    let mut r = reassembler();
    r.process(&[0x02]);
    let out = r.process(b"Z");
    assert_eq!(out, vec![ReassembledOutput::Forward(vec![0x02, b'Z'])]);
}

#[test]
fn ordinary_input_passes_through_when_prefix_never_armed() {
    let mut r = reassembler();
    let out = r.process(b"hello");
    assert_eq!(
        out,
        b"hello".iter().map(|&b| ReassembledOutput::Forward(vec![b])).collect::<Vec<_>>()
    );
}

#[test]
fn reads_may_split_anywhere() {
    let input: &[u8] = b"ab\x02dx\x1b[200~one\x02d\x1b[20two\x1b[201~\x02\x02\x02%\x1b[A\x02q";
    let whole = reassembler().process(input);
    for cut in 0..=input.len() {
        let mut r = reassembler();
        let mut parts = r.process(&input[..cut]);
        parts.extend(r.process(&input[cut..]));
        assert_eq!(parts, whole, "cut at {cut}");
    }
    let mut r = reassembler();
    let mut parts = Vec::new();
    for b in input {
        parts.extend(r.process(&[*b]));
    }
    assert_eq!(parts, whole);
}

#[test]
fn other_escape_sequences_pass_unchanged() {
    let mut r = reassembler();
    let out = r.process(b"\x1b[A");
    let bytes: Vec<u8> = out
        .iter()
        .flat_map(|o| match o {
            ReassembledOutput::Forward(bytes) => bytes.clone(),
            ReassembledOutput::Action(_) => panic!("nothing is bound to an arrow key"),
        })
        .collect();
    assert_eq!(bytes, b"\x1b[A".to_vec());
    assert_eq!(r.process(b"x"), forwards(b"x"));
}

#[test]
fn every_default_binding_fires() {
    let cases = [
        (b'd', Action::Detach),
        (b'[', Action::EnterCopyMode),
        (b'%', Action::SplitHorizontal),
        (b'"', Action::SplitVertical),
        (b'x', Action::KillPane),
        (b'c', Action::NewWindow),
        (b'n', Action::NextWindow),
        (b'p', Action::PrevWindow),
    ];
    for (key, action) in cases {
        let mut r = reassembler();
        assert_eq!(r.process(&[0x02, key]), vec![ReassembledOutput::Action(action)]);
        assert!(!r.is_armed());
    }
}

#[test]
fn a_long_paste_is_passed_on_as_it_comes() {
    let mut r = reassembler();
    assert!(r.process(PASTE_START).is_empty());
    let mut sent = 0usize;
    for n in 1..=100usize {
        for output in r.process(b"x") {
            match output {
                ReassembledOutput::Forward(bytes) => sent += bytes.len(),
                ReassembledOutput::Action(_) => panic!("nothing fires in a paste"),
            }
        }
        assert!(n - sent <= 6, "{} bytes are held back", n - sent);
    }
}
