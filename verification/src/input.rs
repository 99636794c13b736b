//! From raw input bytes to bound actions and bytes for the pane.
//!
//! Input arrives in reads that split it anywhere. The reassembler keeps what it
//! needs between reads: the leader that is armed, and how much of a
//! bracketed-paste marker it has seen. What is pasted goes to the pane as it
//! is, whatever keys its bytes look like.

use crate::config;
use crate::config::{copy_bindings, Action, Binding, KeyBinding, TymuxConfig};
use crate::keys;
use crate::keys::{KeyCode, KeyEvent};
use crate::text::chars_of;
use vstd::prelude::*;

verus! {

/// What starts a bracketed paste: `ESC [ 2 0 0 ~`.
pub open spec fn paste_start() -> Seq<u8> {
    seq![0x1b, 0x5b, 0x32, 0x30, 0x30, 0x7e]
}

/// What ends a bracketed paste: `ESC [ 2 0 1 ~`.
pub open spec fn paste_end() -> Seq<u8> {
    seq![0x1b, 0x5b, 0x32, 0x30, 0x31, 0x7e]
}

/// How many bytes a paste marker has.
pub const PASTE_MARKER_LEN: usize = 6;

/// What the reassembler makes of its input.
#[derive(Debug, PartialEq)]
pub enum ReassembledOutput {
    /// Bytes for the pane.
    Forward(Vec<u8>),
    /// A bound action. The bytes that brought it about go nowhere.
    Action(Action),
}

/// What [`ReassembledOutput`] stands for.
pub enum Output {
    Forward(Seq<u8>),
    Action(Action),
}

impl View for ReassembledOutput {
    type V = Output;

    open spec fn view(&self) -> Output {
        match self {
            ReassembledOutput::Forward(bytes) => Output::Forward(bytes@),
            ReassembledOutput::Action(action) => Output::Action(*action),
        }
    }
}

/// Outputs, as values.
pub open spec fn outputs_view(outputs: Seq<ReassembledOutput>) -> Seq<Output> {
    outputs.map_values(|output: ReassembledOutput| output@)
}

#[derive(Debug)]
enum ScanState {
    Normal,
    MatchingPasteStart(Vec<u8>),
    InPaste(Vec<u8>),
}

/// Where the reassembler is with respect to bracketed pastes.
pub enum Scan {
    /// Outside.
    Normal,
    /// These bytes may turn out to start a paste.
    MatchingPasteStart(Seq<u8>),
    /// Inside; these bytes have not been passed on yet, since they may turn out
    /// to end the paste.
    InPaste(Seq<u8>),
}

/// Turns input bytes into bound actions and bytes for the pane.
#[derive(Debug)]
pub struct KeystrokeReassembler {
    bindings: Vec<KeyBinding>,
    leader: KeyEvent,
    armed: Option<(u8, KeyEvent)>,
    scan: ScanState,
}

/// What [`KeystrokeReassembler`] stands for.
pub struct Reassembler {
    pub bindings: Seq<Binding>,
    pub leader: KeyEvent,
    /// The byte that armed a binding, and the key it stands for.
    pub armed: Option<(u8, KeyEvent)>,
    pub scan: Scan,
}

impl View for KeystrokeReassembler {
    type V = Reassembler;

    closed spec fn view(&self) -> Reassembler {
        Reassembler {
            bindings: config::bindings_view(self.bindings@),
            leader: self.leader,
            armed: self.armed,
            scan: match self.scan {
                ScanState::Normal => Scan::Normal,
                ScanState::MatchingPasteStart(buf) => Scan::MatchingPasteStart(buf@),
                ScanState::InPaste(buf) => Scan::InPaste(buf@),
            },
        }
    }
}

/// The key that a byte stands for: 1 to 26 are the letters with control, any
/// other byte is a plain character.
pub open spec fn key_of_byte(b: u8) -> KeyEvent {
    if 1 <= b <= 26 {
        KeyEvent { code: KeyCode::Char((96 + b) as char), modifiers: keys::CONTROL }
    } else {
        KeyEvent { code: KeyCode::Char(b as char), modifiers: keys::NONE }
    }
}

/// The key that a leader setting names: `C-` and a character, or `C-b` where
/// the setting is something else. What follows the character is of no account.
pub open spec fn leader_key(raw: Seq<char>) -> KeyEvent {
    if raw.len() >= 3 && raw[0] == 'C' && raw[1] == '-' {
        KeyEvent { code: KeyCode::Char(raw[2]), modifiers: keys::CONTROL }
    } else {
        KeyEvent { code: KeyCode::Char('b'), modifiers: keys::CONTROL }
    }
}

/// Whether `prefix` is how `whole` begins.
pub open spec fn begins(whole: Seq<u8>, prefix: Seq<u8>) -> bool {
    prefix.len() <= whole.len() && whole.take(prefix.len() as int) == prefix
}

/// Whether `suffix` is how `whole` ends.
pub open spec fn ends(whole: Seq<u8>, suffix: Seq<u8>) -> bool {
    suffix.len() <= whole.len() && whole.skip(whole.len() - suffix.len()) == suffix
}

impl Reassembler {
    /// Whether a key arms: it is the leader, or some binding starts with it.
    pub open spec fn arms(self, key: KeyEvent) -> bool {
        ||| key.same_as(self.leader)
        ||| exists|i: int|
            0 <= i < self.bindings.len() && (#[trigger] self.bindings[i]).sequence.len() > 0
                && self.bindings[i].sequence[0].same_as(key)
    }

    /// The first binding that is these two keys, or the number of bindings.
    pub open spec fn bound(self, first: KeyEvent, second: KeyEvent) -> int {
        first_bound(self.bindings, first, second)
    }

    /// What a byte outside of a paste does. Unarmed, it arms or goes to the
    /// pane. Armed, the key that armed goes to the pane once when it comes
    /// again; a bound key brings about its action; any other goes to the pane
    /// behind the byte that armed.
    pub open spec fn key_step(self, b: u8) -> (Reassembler, Seq<Output>) {
        let key = key_of_byte(b);
        match self.armed {
            None => if self.arms(key) {
                (Reassembler { armed: Some((b, key)), ..self }, seq![])
            } else {
                (self, seq![Output::Forward(seq![b])])
            },
            Some((armed_byte, armed_key)) => {
                let idle = Reassembler { armed: None, ..self };
                let at = self.bound(armed_key, key);
                if key.same_as(armed_key) {
                    (idle, seq![Output::Forward(seq![b])])
                } else if at < self.bindings.len() {
                    (idle, seq![Output::Action(self.bindings[at].action)])
                } else {
                    (idle, seq![Output::Forward(seq![armed_byte, b])])
                }
            },
        }
    }

    /// What a byte does.
    pub open spec fn step(self, b: u8) -> (Reassembler, Seq<Output>) {
        match self.scan {
            Scan::Normal => if b == 0x1b {
                (Reassembler { scan: Scan::MatchingPasteStart(seq![b]), ..self }, seq![])
            } else {
                self.key_step(b)
            },
            Scan::MatchingPasteStart(seen) => {
                let seen = seen.push(b);
                if seen == paste_start() {
                    (Reassembler { scan: Scan::InPaste(seq![]), ..self }, seq![])
                } else if begins(paste_start(), seen) {
                    (Reassembler { scan: Scan::MatchingPasteStart(seen), ..self }, seq![])
                } else {
                    (Reassembler { scan: Scan::Normal, ..self }, seq![Output::Forward(seen)])
                }
            },
            Scan::InPaste(held) => {
                let held = held.push(b);
                let spare = held.len() - PASTE_MARKER_LEN;
                if ends(held, paste_end()) {
                    (
                        Reassembler { scan: Scan::Normal, ..self },
                        if spare > 0 {
                            seq![Output::Forward(held.take(spare))]
                        } else {
                            seq![]
                        },
                    )
                } else if spare > 0 {
                    (
                        Reassembler { scan: Scan::InPaste(held.skip(spare + 1)), ..self },
                        seq![Output::Forward(held.take(spare + 1))],
                    )
                } else {
                    (Reassembler { scan: Scan::InPaste(held), ..self }, seq![])
                }
            },
        }
    }

    /// What a row of bytes does.
    pub open spec fn run(self, bytes: Seq<u8>) -> (Reassembler, Seq<Output>)
        decreases bytes.len(),
    {
        if bytes.len() == 0 {
            (self, seq![])
        } else {
            let (before, outputs) = self.run(bytes.drop_last());
            let (after, more) = before.step(bytes.last());
            (after, outputs + more)
        }
    }
}

/// The first binding that is these two keys, or the number of bindings.
pub open spec fn first_bound(bindings: Seq<Binding>, first: KeyEvent, second: KeyEvent) -> int
    decreases bindings.len(),
{
    if bindings.len() == 0 {
        0
    } else if is_pair(bindings[0], first, second) {
        0
    } else {
        1 + first_bound(bindings.drop_first(), first, second)
    }
}

/// Whether a binding is these two keys.
pub open spec fn is_pair(binding: Binding, first: KeyEvent, second: KeyEvent) -> bool {
    &&& binding.sequence.len() == 2
    &&& binding.sequence[0].same_as(first)
    &&& binding.sequence[1].same_as(second)
}

fn classify_byte(b: u8) -> (key: KeyEvent)
    ensures
        key == key_of_byte(b),
{
    if 1 <= b && b <= 26 {
        KeyEvent::new(KeyCode::Char((96 + b) as char), keys::CONTROL)
    } else {
        KeyEvent::new(KeyCode::Char(b as char), keys::NONE)
    }
}

fn parse_leader(raw: &str) -> (key: KeyEvent)
    ensures
        key == leader_key(raw@),
{
    let chars = chars_of(raw);
    if chars.len() >= 3 && chars[0] == 'C' && chars[1] == '-' {
        KeyEvent::new(KeyCode::Char(chars[2]), keys::CONTROL)
    } else {
        KeyEvent::new(KeyCode::Char('b'), keys::CONTROL)
    }
}

fn marker_byte(start: bool, index: usize) -> (b: u8)
    requires
        index < PASTE_MARKER_LEN,
    ensures
        b == if start {
            paste_start()[index as int]
        } else {
            paste_end()[index as int]
        },
{
    match index {
        0 => 0x1b,
        1 => 0x5b,
        2 => 0x32,
        3 => 0x30,
        4 => if start { 0x30 } else { 0x31 },
        _ => 0x7e,
    }
}

/// Whether a row of bytes is how a paste starts, so far.
fn may_start_paste(seen: &Vec<u8>) -> (yes: bool)
    ensures
        yes == begins(paste_start(), seen@),
{
    if seen.len() > PASTE_MARKER_LEN {
        return false;
    }
    let mut i: usize = 0;
    while i < seen.len()
        invariant
            i <= seen.len() <= PASTE_MARKER_LEN,
            forall|j: int| 0 <= j < i ==> seen@[j] == #[trigger] paste_start()[j],
        decreases seen.len() - i,
    {
        if seen[i] != marker_byte(true, i) {
            assert(paste_start().take(seen@.len() as int)[i as int] != seen@[i as int]);
            return false;
        }
        i = i + 1;
    }
    assert(paste_start().take(seen@.len() as int) =~= seen@);
    true
}

/// Whether a row of bytes ends a paste.
fn ends_paste(held: &Vec<u8>) -> (yes: bool)
    ensures
        yes == ends(held@, paste_end()),
{
    if held.len() < PASTE_MARKER_LEN {
        return false;
    }
    let spare: usize = held.len() - PASTE_MARKER_LEN;
    let ghost tail = held@.skip(spare as int);
    let mut i: usize = 0;
    while i < PASTE_MARKER_LEN
        invariant
            i <= PASTE_MARKER_LEN,
            spare + PASTE_MARKER_LEN == held.len(),
            tail == held@.skip(spare as int),
            forall|j: int| 0 <= j < i ==> tail[j] == #[trigger] paste_end()[j],
        decreases PASTE_MARKER_LEN - i,
    {
        if held[spare + i] != marker_byte(false, i) {
            assert(tail[i as int] != paste_end()[i as int]);
            return false;
        }
        i = i + 1;
    }
    assert(tail =~= paste_end());
    true
}

impl KeystrokeReassembler {
    /// A reassembler with nothing armed and no paste under way.
    pub fn new(config: &TymuxConfig) -> (reassembler: Self)
        ensures
            reassembler@ == (Reassembler {
                bindings: config@.bindings,
                leader: leader_key(config@.leader),
                armed: None,
                scan: Scan::Normal,
            }),
    {
        KeystrokeReassembler {
            bindings: copy_bindings(&config.bindings),
            leader: parse_leader(config.leader.as_str()),
            armed: None,
            scan: ScanState::Normal,
        }
    }

    /// Whether a leader is armed.
    pub fn is_armed(&self) -> (armed: bool)
        ensures
            armed == self@.armed is Some,
    {
        self.armed.is_some()
    }

    /// Takes in a row of bytes, of which the last may be the beginning of
    /// something that the next row goes on with.
    pub fn process(&mut self, bytes: &[u8]) -> (outputs: Vec<ReassembledOutput>)
        ensures
            (final(self)@, outputs_view(outputs@)) == old(self)@.run(bytes@),
    {
        let mut outputs: Vec<ReassembledOutput> = Vec::new();
        let mut i: usize = 0;
        proof {
            assert(bytes@.take(0) =~= seq![]);
            assert(outputs_view(outputs@) =~= seq![]);
        }
        while i < bytes.len()
            invariant
                i <= bytes.len(),
                (self@, outputs_view(outputs@)) == old(self)@.run(bytes@.take(i as int)),
            decreases bytes.len() - i,
        {
            proof {
                assert(bytes@.take(i + 1).drop_last() =~= bytes@.take(i as int));
                assert(bytes@.take(i + 1).last() == bytes@[i as int]);
            }
            self.process_byte(bytes[i], &mut outputs);
            i = i + 1;
        }
        assert(bytes@.take(i as int) =~= bytes@);
        outputs
    }

    fn process_byte(&mut self, b: u8, out: &mut Vec<ReassembledOutput>)
        ensures
            final(self)@ == old(self)@.step(b).0,
            outputs_view(final(out)@) == outputs_view(old(out)@) + old(self)@.step(b).1,
    {
        let ghost was = self@;
        let ghost said = out@;
        let mut scan = ScanState::Normal;
        std::mem::swap(&mut scan, &mut self.scan);
        match scan {
            ScanState::Normal => {
                if b == 0x1b {
                    let seen: Vec<u8> = vec![b];
                    assert(seen@ =~= seq![b]);
                    self.scan = ScanState::MatchingPasteStart(seen);
                    assert(outputs_view(out@) =~= outputs_view(said) + was.step(b).1);
                } else {
                    self.handle_normal_byte(b, out);
                }
            },
            ScanState::MatchingPasteStart(seen) => {
                let mut seen = seen;
                seen.push(b);
                if may_start_paste(&seen) {
                    if seen.len() == PASTE_MARKER_LEN {
                        assert(paste_start().take(6) =~= paste_start());
                        let held: Vec<u8> = Vec::new();
                        assert(held@ =~= seq![]);
                        self.scan = ScanState::InPaste(held);
                    } else {
                        self.scan = ScanState::MatchingPasteStart(seen);
                    }
                    assert(outputs_view(out@) =~= outputs_view(said) + was.step(b).1);
                } else {
                    assert(seen@ != paste_start()) by {
                        assert(paste_start().take(6) =~= paste_start());
                    }
                    out.push(ReassembledOutput::Forward(seen));
                    assert(outputs_view(out@) =~= outputs_view(said) + was.step(b).1);
                }
            },
            ScanState::InPaste(held) => {
                let mut held = held;
                held.push(b);
                let ghost all = held@;
                if ends_paste(&held) {
                    let spare: usize = held.len() - PASTE_MARKER_LEN;
                    if spare > 0 {
                        held.truncate(spare);
                        assert(held@ =~= all.take(spare as int));
                        out.push(ReassembledOutput::Forward(held));
                    }
                    assert(outputs_view(out@) =~= outputs_view(said) + was.step(b).1);
                } else if held.len() > PASTE_MARKER_LEN {
                    let flush: usize = held.len() - PASTE_MARKER_LEN + 1;
                    let rest = held.split_off(flush);
                    assert(held@ =~= all.take(flush as int));
                    assert(rest@ =~= all.skip(flush as int));
                    self.scan = ScanState::InPaste(rest);
                    out.push(ReassembledOutput::Forward(held));
                    assert(outputs_view(out@) =~= outputs_view(said) + was.step(b).1);
                } else {
                    self.scan = ScanState::InPaste(held);
                    assert(outputs_view(out@) =~= outputs_view(said) + was.step(b).1);
                }
            },
        }
    }

    fn handle_normal_byte(&mut self, b: u8, out: &mut Vec<ReassembledOutput>)
        ensures
            final(self)@ == old(self)@.key_step(b).0,
            outputs_view(final(out)@) == outputs_view(old(out)@) + old(self)@.key_step(b).1,
    {
        let ghost was = self@;
        let ghost said = out@;
        let key: KeyEvent = classify_byte(b);
        match self.armed {
            None => {
                if key == self.leader || self.starts_binding(key) {
                    self.armed = Some((b, key));
                } else {
                    let bytes: Vec<u8> = vec![b];
                    assert(bytes@ =~= seq![b]);
                    out.push(ReassembledOutput::Forward(bytes));
                }
                assert(outputs_view(out@) =~= outputs_view(said) + was.key_step(b).1);
            },
            Some((armed_byte, armed_key)) => {
                self.armed = None;
                if key == armed_key {
                    let bytes: Vec<u8> = vec![b];
                    assert(bytes@ =~= seq![b]);
                    out.push(ReassembledOutput::Forward(bytes));
                } else {
                    let at: usize = self.find_pair(armed_key, key);
                    if at < self.bindings.len() {
                        assert(was.bindings[at as int] == self.bindings@[at as int]@);
                        out.push(ReassembledOutput::Action(self.bindings[at].action));
                    } else {
                        let bytes: Vec<u8> = vec![armed_byte, b];
                        assert(bytes@ =~= seq![armed_byte, b]);
                        out.push(ReassembledOutput::Forward(bytes));
                    }
                }
                assert(outputs_view(out@) =~= outputs_view(said) + was.key_step(b).1);
            },
        }
    }

    fn starts_binding(&self, key: KeyEvent) -> (yes: bool)
        ensures
            yes == exists|i: int|
                0 <= i < self@.bindings.len() && (#[trigger] self@.bindings[i]).sequence.len() > 0
                    && self@.bindings[i].sequence[0].same_as(key),
    {
        let ghost all = self@.bindings;
        let mut i: usize = 0;
        while i < self.bindings.len()
            invariant
                i <= self.bindings.len(),
                all == self@.bindings,
                forall|j: int|
                    0 <= j < i ==> !((#[trigger] all[j]).sequence.len() > 0
                        && all[j].sequence[0].same_as(key)),
            decreases self.bindings.len() - i,
        {
            assert(all[i as int] == self.bindings@[i as int]@);
            let sequence = &self.bindings[i].sequence;
            if sequence.len() > 0 && sequence[0] == key {
                assert(all[i as int].sequence[0].same_as(key));
                return true;
            }
            i = i + 1;
        }
        false
    }

    fn find_pair(&self, first: KeyEvent, second: KeyEvent) -> (at: usize)
        ensures
            at == self@.bound(first, second),
            at <= self@.bindings.len(),
    {
        let ghost all = self@.bindings;
        let mut i: usize = 0;
        assert(all.skip(0) =~= all);
        while i < self.bindings.len()
            invariant
                i <= self.bindings.len(),
                all == self@.bindings,
                first_bound(all, first, second) == i + first_bound(
                    all.skip(i as int),
                    first,
                    second,
                ),
            decreases self.bindings.len() - i,
        {
            assert(all.skip(i as int).drop_first() =~= all.skip(i + 1));
            assert(all.skip(i as int)[0] == self.bindings@[i as int]@);
            let sequence = &self.bindings[i].sequence;
            if sequence.len() == 2 && sequence[0] == first && sequence[1] == second {
                return i;
            }
            i = i + 1;
        }
        i
    }
}

} // verus!
