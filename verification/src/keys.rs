//! Keys, as bindings name them and as input bytes stand for them.

use crate::text;
use crate::text::push_decimal;
use vstd::prelude::*;

verus! {

/// Modifier keys, a bit for each.
pub type KeyModifiers = u8;

pub const NONE: KeyModifiers = 0;

pub const SHIFT: KeyModifiers = 1;

pub const CONTROL: KeyModifiers = 2;

/// A key of the keyboard.
#[derive(Debug, Clone, Copy, PartialEq, Eq, Structural)]
pub enum KeyCode {
    Backspace,
    Enter,
    Left,
    Right,
    Up,
    Down,
    Home,
    End,
    PageUp,
    PageDown,
    Tab,
    BackTab,
    Delete,
    Insert,
    F(u8),
    Char(char),
    Null,
    Esc,
    CapsLock,
    ScrollLock,
    NumLock,
    PrintScreen,
    Pause,
    Menu,
    KeypadBegin,
}

impl KeyCode {
    /// What a key is called: a character by itself, any other key by its name.
    pub open spec fn name(self) -> Seq<char> {
        match self {
            KeyCode::Backspace => "Backspace"@,
            KeyCode::Enter => "Enter"@,
            KeyCode::Left => "Left"@,
            KeyCode::Right => "Right"@,
            KeyCode::Up => "Up"@,
            KeyCode::Down => "Down"@,
            KeyCode::Home => "Home"@,
            KeyCode::End => "End"@,
            KeyCode::PageUp => "PageUp"@,
            KeyCode::PageDown => "PageDown"@,
            KeyCode::Tab => "Tab"@,
            KeyCode::BackTab => "BackTab"@,
            KeyCode::Delete => "Delete"@,
            KeyCode::Insert => "Insert"@,
            KeyCode::F(n) => "F("@ + text::decimal(n as nat) + ")"@,
            KeyCode::Char(c) => seq![c],
            KeyCode::Null => "Null"@,
            KeyCode::Esc => "Esc"@,
            KeyCode::CapsLock => "CapsLock"@,
            KeyCode::ScrollLock => "ScrollLock"@,
            KeyCode::NumLock => "NumLock"@,
            KeyCode::PrintScreen => "PrintScreen"@,
            KeyCode::Pause => "Pause"@,
            KeyCode::Menu => "Menu"@,
            KeyCode::KeypadBegin => "KeypadBegin"@,
        }
    }

    /// Puts the key's name at the end of `out`.
    pub fn push_name(&self, out: &mut String)
        ensures
            final(out)@ == old(out)@ + self.name(),
    {
        match self {
            KeyCode::Backspace => out.append("Backspace"),
            KeyCode::Enter => out.append("Enter"),
            KeyCode::Left => out.append("Left"),
            KeyCode::Right => out.append("Right"),
            KeyCode::Up => out.append("Up"),
            KeyCode::Down => out.append("Down"),
            KeyCode::Home => out.append("Home"),
            KeyCode::End => out.append("End"),
            KeyCode::PageUp => out.append("PageUp"),
            KeyCode::PageDown => out.append("PageDown"),
            KeyCode::Tab => out.append("Tab"),
            KeyCode::BackTab => out.append("BackTab"),
            KeyCode::Delete => out.append("Delete"),
            KeyCode::Insert => out.append("Insert"),
            KeyCode::F(n) => {
                out.append("F(");
                push_decimal(out, *n as u64);
                out.append(")");
                assert(out@ =~= old(out)@ + self.name());
            },
            KeyCode::Char(c) => {
                out.push(*c);
                assert(out@ =~= old(out)@ + self.name());
            },
            KeyCode::Null => out.append("Null"),
            KeyCode::Esc => out.append("Esc"),
            KeyCode::CapsLock => out.append("CapsLock"),
            KeyCode::ScrollLock => out.append("ScrollLock"),
            KeyCode::NumLock => out.append("NumLock"),
            KeyCode::PrintScreen => out.append("PrintScreen"),
            KeyCode::Pause => out.append("Pause"),
            KeyCode::Menu => out.append("Menu"),
            KeyCode::KeypadBegin => out.append("KeypadBegin"),
        }
    }
}

/// A key together with the modifiers held down with it.
#[derive(Debug, Clone, Copy)]
pub struct KeyEvent {
    pub code: KeyCode,
    pub modifiers: KeyModifiers,
}

/// Whether a character is an ASCII capital letter.
pub open spec fn is_capital(c: char) -> bool {
    'A' <= c <= 'Z'
}

/// An ASCII letter as a capital; any other character as it is.
pub open spec fn capital(c: char) -> char {
    if 'a' <= c <= 'z' {
        (c as u32 - 32) as char
    } else {
        c
    }
}

impl KeyEvent {
    pub open spec fn shifted(self) -> bool {
        self.modifiers % 2 == 1
    }

    /// The event with shift held exactly if it is needed for the character: a
    /// capital letter counts as shifted, and a shifted letter as a capital.
    pub open spec fn normalized(self) -> KeyEvent {
        match self.code {
            KeyCode::Char(c) => if is_capital(c) {
                KeyEvent {
                    code: self.code,
                    modifiers: if self.shifted() {
                        self.modifiers
                    } else {
                        (self.modifiers + SHIFT) as u8
                    },
                }
            } else if self.shifted() {
                KeyEvent { code: KeyCode::Char(capital(c)), modifiers: self.modifiers }
            } else {
                self
            },
            _ => self,
        }
    }

    /// Whether two events are the same key press.
    pub open spec fn same_as(self, other: KeyEvent) -> bool {
        self.normalized() == other.normalized()
    }

    pub open spec fn spec_new(code: KeyCode, modifiers: KeyModifiers) -> KeyEvent {
        KeyEvent { code, modifiers }
    }

    #[verifier::when_used_as_spec(spec_new)]
    pub fn new(code: KeyCode, modifiers: KeyModifiers) -> (event: Self)
        ensures
            event == KeyEvent::spec_new(code, modifiers),
    {
        KeyEvent { code, modifiers }
    }

    fn normalize(self) -> (event: KeyEvent)
        ensures
            event == self.normalized(),
    {
        match self.code {
            KeyCode::Char(c) => {
                if 'A' <= c && c <= 'Z' {
                    let modifiers: u8 = if self.modifiers % 2 == 1 {
                        self.modifiers
                    } else {
                        self.modifiers + 1
                    };
                    KeyEvent { code: self.code, modifiers }
                } else if self.modifiers % 2 == 1 && 'a' <= c && c <= 'z' {
                    let letter: char = (c as u8 - 32) as char;
                    KeyEvent { code: KeyCode::Char(letter), modifiers: self.modifiers }
                } else {
                    self
                }
            },
            _ => self,
        }
    }
}

impl PartialEq for KeyEvent {
    fn eq(&self, other: &KeyEvent) -> (equal: bool) {
        let one: KeyEvent = self.normalize();
        let two: KeyEvent = other.normalize();
        one.code == two.code && one.modifiers == two.modifiers
    }
}

impl vstd::std_specs::cmp::PartialEqSpecImpl for KeyEvent {
    open spec fn obeys_eq_spec() -> bool {
        true
    }

    open spec fn eq_spec(&self, other: &KeyEvent) -> bool {
        self.same_as(*other)
    }
}

/// Whether a character is an ASCII letter.
pub open spec fn is_letter(c: char) -> bool {
    'a' <= c <= 'z' || 'A' <= c <= 'Z'
}

/// Whether two ASCII letters are the same but for their case.
pub open spec fn same_letter(a: char, b: char) -> bool {
    a == b || a as u32 == b as u32 + 32 || b as u32 == a as u32 + 32
}

/// Two presses of letters are the same if the letters are, whatever their case,
/// if shift is held for both or for neither, where a capital counts as shift,
/// and if the other modifiers are the same. Two presses of anything else are the
/// same only if key and modifiers are.
pub proof fn lemma_what_is_the_same_key(a: KeyEvent, b: KeyEvent)
    ensures
        match (a.code, b.code) {
            (KeyCode::Char(c), KeyCode::Char(d)) if is_letter(c) && is_letter(d) => a.same_as(b)
                <==> same_letter(c, d) && a.modifiers / 2 == b.modifiers / 2 && (a.modifiers % 2
                == 1 || 'A' <= c <= 'Z') == (b.modifiers % 2 == 1 || 'A' <= d <= 'Z'),
            _ => a.same_as(b) <==> a.code == b.code && a.modifiers == b.modifiers,
        },
{
}

/// Being the same key is an equivalence.
pub proof fn lemma_same_key_is_an_equivalence(a: KeyEvent, b: KeyEvent, c: KeyEvent)
    ensures
        a.same_as(a),
        a.same_as(b) ==> b.same_as(a),
        a.same_as(b) && b.same_as(c) ==> a.same_as(c),
{
}

/// What keys are called: a character is called by itself, a function key by its number,
/// and every other key by its own name.
pub proof fn lemma_what_keys_are_called(c: char, n: u8)
    ensures
        KeyCode::Char(c).name() == seq![c],
        KeyCode::F(n).name() == seq!['F', '('] + text::decimal(n as nat) + seq![')'],
        KeyCode::Backspace.name() == seq!['B', 'a', 'c', 'k', 's', 'p', 'a', 'c', 'e'],
        KeyCode::Enter.name() == seq!['E', 'n', 't', 'e', 'r'],
        KeyCode::Left.name() == seq!['L', 'e', 'f', 't'],
        KeyCode::Right.name() == seq!['R', 'i', 'g', 'h', 't'],
        KeyCode::Up.name() == seq!['U', 'p'],
        KeyCode::Down.name() == seq!['D', 'o', 'w', 'n'],
        KeyCode::Home.name() == seq!['H', 'o', 'm', 'e'],
        KeyCode::End.name() == seq!['E', 'n', 'd'],
        KeyCode::PageUp.name() == seq!['P', 'a', 'g', 'e', 'U', 'p'],
        KeyCode::PageDown.name() == seq!['P', 'a', 'g', 'e', 'D', 'o', 'w', 'n'],
        KeyCode::Tab.name() == seq!['T', 'a', 'b'],
        KeyCode::BackTab.name() == seq!['B', 'a', 'c', 'k', 'T', 'a', 'b'],
        KeyCode::Delete.name() == seq!['D', 'e', 'l', 'e', 't', 'e'],
        KeyCode::Insert.name() == seq!['I', 'n', 's', 'e', 'r', 't'],
        KeyCode::Null.name() == seq!['N', 'u', 'l', 'l'],
        KeyCode::Esc.name() == seq!['E', 's', 'c'],
        KeyCode::CapsLock.name() == seq!['C', 'a', 'p', 's', 'L', 'o', 'c', 'k'],
        KeyCode::ScrollLock.name() == seq!['S', 'c', 'r', 'o', 'l', 'l', 'L', 'o', 'c', 'k'],
        KeyCode::NumLock.name() == seq!['N', 'u', 'm', 'L', 'o', 'c', 'k'],
        KeyCode::PrintScreen.name() == seq!['P', 'r', 'i', 'n', 't', 'S', 'c', 'r', 'e', 'e', 'n'],
        KeyCode::Pause.name() == seq!['P', 'a', 'u', 's', 'e'],
        KeyCode::Menu.name() == seq!['M', 'e', 'n', 'u'],
        KeyCode::KeypadBegin.name() == seq!['K', 'e', 'y', 'p', 'a', 'd', 'B', 'e', 'g', 'i', 'n'],
{
    reveal_strlit("F(");
    reveal_strlit(")");
    assert("F("@ =~= seq!['F', '(']);
    assert(")"@ =~= seq![')']);
    reveal_strlit("Backspace");
    assert("Backspace"@ =~= seq!['B', 'a', 'c', 'k', 's', 'p', 'a', 'c', 'e']);
    reveal_strlit("Enter");
    assert("Enter"@ =~= seq!['E', 'n', 't', 'e', 'r']);
    reveal_strlit("Left");
    assert("Left"@ =~= seq!['L', 'e', 'f', 't']);
    reveal_strlit("Right");
    assert("Right"@ =~= seq!['R', 'i', 'g', 'h', 't']);
    reveal_strlit("Up");
    assert("Up"@ =~= seq!['U', 'p']);
    reveal_strlit("Down");
    assert("Down"@ =~= seq!['D', 'o', 'w', 'n']);
    reveal_strlit("Home");
    assert("Home"@ =~= seq!['H', 'o', 'm', 'e']);
    reveal_strlit("End");
    assert("End"@ =~= seq!['E', 'n', 'd']);
    reveal_strlit("PageUp");
    assert("PageUp"@ =~= seq!['P', 'a', 'g', 'e', 'U', 'p']);
    reveal_strlit("PageDown");
    assert("PageDown"@ =~= seq!['P', 'a', 'g', 'e', 'D', 'o', 'w', 'n']);
    reveal_strlit("Tab");
    assert("Tab"@ =~= seq!['T', 'a', 'b']);
    reveal_strlit("BackTab");
    assert("BackTab"@ =~= seq!['B', 'a', 'c', 'k', 'T', 'a', 'b']);
    reveal_strlit("Delete");
    assert("Delete"@ =~= seq!['D', 'e', 'l', 'e', 't', 'e']);
    reveal_strlit("Insert");
    assert("Insert"@ =~= seq!['I', 'n', 's', 'e', 'r', 't']);
    reveal_strlit("Null");
    assert("Null"@ =~= seq!['N', 'u', 'l', 'l']);
    reveal_strlit("Esc");
    assert("Esc"@ =~= seq!['E', 's', 'c']);
    reveal_strlit("CapsLock");
    assert("CapsLock"@ =~= seq!['C', 'a', 'p', 's', 'L', 'o', 'c', 'k']);
    reveal_strlit("ScrollLock");
    assert("ScrollLock"@ =~= seq!['S', 'c', 'r', 'o', 'l', 'l', 'L', 'o', 'c', 'k']);
    reveal_strlit("NumLock");
    assert("NumLock"@ =~= seq!['N', 'u', 'm', 'L', 'o', 'c', 'k']);
    reveal_strlit("PrintScreen");
    assert("PrintScreen"@ =~= seq!['P', 'r', 'i', 'n', 't', 'S', 'c', 'r', 'e', 'e', 'n']);
    reveal_strlit("Pause");
    assert("Pause"@ =~= seq!['P', 'a', 'u', 's', 'e']);
    reveal_strlit("Menu");
    assert("Menu"@ =~= seq!['M', 'e', 'n', 'u']);
    reveal_strlit("KeypadBegin");
    assert("KeypadBegin"@ =~= seq!['K', 'e', 'y', 'p', 'a', 'd', 'B', 'e', 'g', 'i', 'n']);
}

} // verus!
