//! What a configuration comes to, whatever it says.

use crate::config;
use crate::config::{Action, Binding, Entry};
use crate::keys::{KeyCode, KeyEvent};
use crate::text;
use vstd::prelude::*;

verus! {

/// A word of one character is that character's key. `C-` and a character is the
/// key with control held. No other word is a key.
pub proof fn lemma_what_words_are_keys(word: Seq<char>, c: char)
    ensures
        config::key_of_word(seq![c]) == Some(KeyEvent { code: KeyCode::Char(c), modifiers: 0 }),
        config::key_of_word(seq!['C', '-', c]) == Some(
            KeyEvent { code: KeyCode::Char(c), modifiers: 2 },
        ),
        config::key_of_word(word) is Some <==> word.len() == 1 || (word.len() == 3 && word[0] == 'C'
            && word[1] == '-'),
{
}

/// The keys of a text are those before a white space and those after it. A text
/// with anything in it that is no key has none.
pub proof fn lemma_keys_are_read_in_order(before: Seq<char>, space: char, after: Seq<char>)
    requires
        text::is_space(space),
    ensures
        config::keys_of_text(before.push(space) + after) == match (
            config::keys_of_text(before),
            config::keys_of_text(after),
        ) {
            (Some(first), Some(rest)) => Some(first + rest),
            _ => None,
        },
{
    text::lemma_space_parts_words(before, space, after);
    let front = text::words(before);
    let back = text::words(after);
    let all = text::words(before.push(space) + after);
    let key = |word: Seq<char>| config::key_of_word(word)->0;
    assert(all == front + back);
    let good = |words: Seq<Seq<char>>|
        forall|i: int| 0 <= i < words.len() ==> config::key_of_word(#[trigger] words[i]) is Some;
    if good(front) && good(back) {
        assert forall|i: int| 0 <= i < all.len() implies config::key_of_word(
            #[trigger] all[i],
        ) is Some by {
            if i < front.len() {
                assert(all[i] == front[i]);
            } else {
                assert(all[i] == back[i - front.len()]);
            }
        }
        assert(all.map_values(key) =~= front.map_values(key) + back.map_values(key));
    }
    if !good(front) {
        let i = choose|i: int|
            0 <= i < front.len() && config::key_of_word(#[trigger] front[i]) is None;
        assert(all[i] == front[i]);
    }
    if !good(back) {
        let i = choose|i: int|
            0 <= i < back.len() && config::key_of_word(#[trigger] back[i]) is None;
        assert(all[front.len() + i] == back[i]);
    }
}

/// A text without white space is one key, or none at all; an empty text is an
/// empty row of keys.
pub proof fn lemma_keys_of_one_word(word: Seq<char>)
    requires
        forall|i: int| 0 <= i < word.len() ==> !text::is_space(#[trigger] word[i]),
    ensures
        word.len() == 0 ==> config::keys_of_text(word) == Some(Seq::<KeyEvent>::empty()),
        word.len() > 0 ==> config::keys_of_text(word) == match config::key_of_word(word) {
            Some(key) => Some(seq![key]),
            None => None,
        },
{
    text::lemma_one_word(word);
    let key = |word: Seq<char>| config::key_of_word(word)->0;
    let found = text::words(word);
    if word.len() == 0 {
        assert(found.map_values(key) =~= Seq::<KeyEvent>::empty());
    } else {
        assert(found[0] == word);
        assert(found.map_values(key) =~= seq![key(word)]);
    }
}

/// An entry is found exactly where one stands under the name, and of several it
/// is the first.
pub proof fn lemma_first_entry_counts<T>(entries: Seq<(Seq<char>, T)>, key: Seq<char>)
    ensures
        0 <= config::place_of(entries, key) <= entries.len(),
        forall|i: int|
            0 <= i < config::place_of(entries, key) ==> (#[trigger] entries[i]).0 != key,
        match config::entry_for(entries, key) {
            Some(value) => entries[config::place_of(entries, key)] == (key, value)
                && config::place_of(entries, key) < entries.len(),
            None => forall|i: int| 0 <= i < entries.len() ==> (#[trigger] entries[i]).0 != key,
        },
    decreases entries.len(),
{
    if entries.len() > 0 && entries[0].0 != key {
        let rest = entries.drop_first();
        lemma_first_entry_counts(rest, key);
        assert forall|i: int| 0 <= i < config::place_of(entries, key) implies (
        #[trigger] entries[i]).0 != key by {
            if i > 0 {
                assert(rest[i - 1] == entries[i]);
            }
        }
    }
}

/// The names that a configuration has for the actions, and the keys that bring
/// them about after `C-b` where it says nothing.
pub proof fn lemma_what_can_be_bound()
    ensures
        config::bindable().len() == 8,
        config::bindable()[0].action == Action::Detach && config::bindable()[0].key == seq!['d', 'e', 't', 'a', 'c', 'h']
            && config::bindable()[0].default == 'd',
        config::bindable()[1].action == Action::EnterCopyMode && config::bindable()[1].key == seq!['c', 'o', 'p', 'y', '_', 'm', 'o', 'd', 'e']
            && config::bindable()[1].default == '[',
        config::bindable()[2].action == Action::SplitHorizontal && config::bindable()[2].key == seq!['s', 'p', 'l', 'i', 't', '_', 'h', 'o', 'r', 'i', 'z', 'o', 'n', 't', 'a', 'l']
            && config::bindable()[2].default == '%',
        config::bindable()[3].action == Action::SplitVertical && config::bindable()[3].key == seq!['s', 'p', 'l', 'i', 't', '_', 'v', 'e', 'r', 't', 'i', 'c', 'a', 'l']
            && config::bindable()[3].default == '"',
        config::bindable()[4].action == Action::NewWindow && config::bindable()[4].key == seq!['n', 'e', 'w', '_', 'w', 'i', 'n', 'd', 'o', 'w']
            && config::bindable()[4].default == 'c',
        config::bindable()[5].action == Action::NextWindow && config::bindable()[5].key == seq!['n', 'e', 'x', 't', '_', 'w', 'i', 'n', 'd', 'o', 'w']
            && config::bindable()[5].default == 'n',
        config::bindable()[6].action == Action::PrevWindow && config::bindable()[6].key == seq!['p', 'r', 'e', 'v', '_', 'w', 'i', 'n', 'd', 'o', 'w']
            && config::bindable()[6].default == 'p',
        config::bindable()[7].action == Action::KillPane && config::bindable()[7].key == seq!['k', 'i', 'l', 'l', '_', 'p', 'a', 'n', 'e']
            && config::bindable()[7].default == 'x',
{
    reveal_strlit("detach");
    assert("detach"@ =~= seq!['d', 'e', 't', 'a', 'c', 'h']);
    reveal_strlit("copy_mode");
    assert("copy_mode"@ =~= seq!['c', 'o', 'p', 'y', '_', 'm', 'o', 'd', 'e']);
    reveal_strlit("split_horizontal");
    assert("split_horizontal"@ =~= seq!['s', 'p', 'l', 'i', 't', '_', 'h', 'o', 'r', 'i', 'z', 'o', 'n', 't', 'a', 'l']);
    reveal_strlit("split_vertical");
    assert("split_vertical"@ =~= seq!['s', 'p', 'l', 'i', 't', '_', 'v', 'e', 'r', 't', 'i', 'c', 'a', 'l']);
    reveal_strlit("new_window");
    assert("new_window"@ =~= seq!['n', 'e', 'w', '_', 'w', 'i', 'n', 'd', 'o', 'w']);
    reveal_strlit("next_window");
    assert("next_window"@ =~= seq!['n', 'e', 'x', 't', '_', 'w', 'i', 'n', 'd', 'o', 'w']);
    reveal_strlit("prev_window");
    assert("prev_window"@ =~= seq!['p', 'r', 'e', 'v', '_', 'w', 'i', 'n', 'd', 'o', 'w']);
    reveal_strlit("kill_pane");
    assert("kill_pane"@ =~= seq!['k', 'i', 'l', 'l', '_', 'p', 'a', 'n', 'e']);
}

/// What the status bar calls the actions.
pub proof fn lemma_what_actions_are_called()
    ensures
        Action::Detach.label() == seq!['d', 'e', 't', 'a', 'c', 'h'],
        Action::EnterCopyMode.label() == seq!['c', 'o', 'p', 'y', '-', 'm', 'o', 'd', 'e'],
        Action::SplitHorizontal.label() == seq!['s', 'p', 'l', 'i', 't', '-', 'h'],
        Action::SplitVertical.label() == seq!['s', 'p', 'l', 'i', 't', '-', 'v'],
        Action::NewWindow.label() == seq!['n', 'e', 'w', '-', 'w', 'i', 'n', 'd', 'o', 'w'],
        Action::NextWindow.label() == seq!['n', 'e', 'x', 't', '-', 'w', 'i', 'n', 'd', 'o', 'w'],
        Action::PrevWindow.label() == seq!['p', 'r', 'e', 'v', '-', 'w', 'i', 'n', 'd', 'o', 'w'],
        Action::KillPane.label() == seq!['k', 'i', 'l', 'l', '-', 'p', 'a', 'n', 'e'],
        Action::ExitCopyMode.label() == seq!['e', 'x', 'i', 't', '-', 'c', 'o', 'p', 'y', '-', 'm', 'o', 'd', 'e'],
        Action::SendPrefixLiteral.label() == seq!['l', 'i', 't', 'e', 'r', 'a', 'l', '-', 'p', 'r', 'e', 'f', 'i', 'x'],
{
    reveal_strlit("detach");
    assert("detach"@ =~= seq!['d', 'e', 't', 'a', 'c', 'h']);
    reveal_strlit("copy-mode");
    assert("copy-mode"@ =~= seq!['c', 'o', 'p', 'y', '-', 'm', 'o', 'd', 'e']);
    reveal_strlit("split-h");
    assert("split-h"@ =~= seq!['s', 'p', 'l', 'i', 't', '-', 'h']);
    reveal_strlit("split-v");
    assert("split-v"@ =~= seq!['s', 'p', 'l', 'i', 't', '-', 'v']);
    reveal_strlit("new-window");
    assert("new-window"@ =~= seq!['n', 'e', 'w', '-', 'w', 'i', 'n', 'd', 'o', 'w']);
    reveal_strlit("next-window");
    assert("next-window"@ =~= seq!['n', 'e', 'x', 't', '-', 'w', 'i', 'n', 'd', 'o', 'w']);
    reveal_strlit("prev-window");
    assert("prev-window"@ =~= seq!['p', 'r', 'e', 'v', '-', 'w', 'i', 'n', 'd', 'o', 'w']);
    reveal_strlit("kill-pane");
    assert("kill-pane"@ =~= seq!['k', 'i', 'l', 'l', '-', 'p', 'a', 'n', 'e']);
    reveal_strlit("exit-copy-mode");
    assert("exit-copy-mode"@ =~= seq!['e', 'x', 'i', 't', '-', 'c', 'o', 'p', 'y', '-', 'm', 'o', 'd', 'e']);
    reveal_strlit("literal-prefix");
    assert("literal-prefix"@ =~= seq!['l', 'i', 't', 'e', 'r', 'a', 'l', '-', 'p', 'r', 'e', 'f', 'i', 'x']);
}

/// A configuration binds each action that can be bound once, in their order, and
/// no other, whatever the document says.
pub proof fn lemma_every_action_is_bound(document: Option<Seq<(Seq<char>, Entry)>>)
    ensures
        ({
            let bindings = config::config_of(document).bindings;
            &&& bindings.len() == 8
            &&& forall|i: int|
                0 <= i < 8 ==> (#[trigger] bindings[i]).action == config::bindable()[i].action
        }),
{
}

/// Where the configuration is silent on an action, or names keys that are none,
/// the action keeps its keys: `C-b` and its own. Where it names keys, those are
/// the action's.
pub proof fn lemma_a_binding_is_what_is_said_of_it(
    entries: Seq<(Seq<char>, Entry)>,
    pairs: Seq<(Seq<char>, Option<Seq<char>>)>,
    i: int,
    j: int,
)
    requires
        config::is_config(entries),
        config::entry_for(entries, "keybindings"@) == Some(Entry::Table(pairs)),
        0 <= i < 8,
    ensures
        ({
            let entry = config::bindable()[i];
            let binding = config::config_of(Some(entries)).bindings[i];
            let silent = forall|j: int| 0 <= j < pairs.len() ==> (#[trigger] pairs[j]).0 != entry.key;
            let usual = seq![
                KeyEvent { code: KeyCode::Char('b'), modifiers: 2 },
                KeyEvent { code: KeyCode::Char(entry.default), modifiers: 0 },
            ];
            &&& silent ==> binding.sequence == usual
            &&& 0 <= j < pairs.len() && pairs[j].0 == entry.key && (forall|k: int|
                0 <= k < j ==> (#[trigger] pairs[k]).0 != entry.key) ==> (pairs[j].1 matches Some(
                raw,
            ) && binding.sequence == match config::keys_of_text(raw) {
                Some(sequence) => sequence,
                None => usual,
            })
        }),
{
    let entry = config::bindable()[i];
    lemma_first_entry_counts(pairs, entry.key);
    let place = config::place_of(pairs, entry.key);
    if 0 <= j < pairs.len() && pairs[j].0 == entry.key && (forall|k: int|
        0 <= k < j ==> (#[trigger] pairs[k]).0 != entry.key) {
        if j < place {
            assert(pairs[j].0 != entry.key);
        }
        if place < j {
            assert(pairs[place].0 != entry.key);
        }
        assert(pairs[j].1 is Some);
    }
}

/// What a document says of one action has no bearing on another: two that say the
/// same of an action give it the same keys.
pub proof fn lemma_bindings_are_independent(
    entries: Seq<(Seq<char>, Entry)>,
    others: Seq<(Seq<char>, Entry)>,
    i: int,
)
    requires
        config::is_config(entries),
        config::is_config(others),
        0 <= i < 8,
        config::entry_for(config::overrides_of(entries), config::bindable()[i].key)
            == config::entry_for(config::overrides_of(others), config::bindable()[i].key),
    ensures
        config::config_of(Some(entries)).bindings[i] == config::config_of(Some(others)).bindings[i],
{
}

/// The leader is what the document says, and `C-b` where it says nothing.
pub proof fn lemma_leader_is_what_is_said(entries: Seq<(Seq<char>, Entry)>, leader: Seq<char>)
    requires
        config::is_config(entries),
    ensures
        config::entry_for(entries, "leader"@) is None ==> config::config_of(Some(entries)).leader
            == seq!['C', '-', 'b'],
        config::entry_for(entries, "leader"@) == Some(Entry::Text(leader)) ==> config::config_of(
            Some(entries),
        ).leader == leader,
{
    reveal_strlit("C-b");
    assert("C-b"@ =~= seq!['C', '-', 'b']);
}

/// A document with a leader that is no text, with bindings that are no table, or
/// with a binding that is no text counts for nothing, as does a text that is no
/// document: the leader is then `C-b` and every action has its own keys.
pub proof fn lemma_what_is_no_configuration_counts_for_nothing(
    document: Option<Seq<(Seq<char>, Entry)>>,
    i: int,
)
    requires
        0 <= i < 8,
        document matches Some(entries) ==> {
            ||| config::entry_for(entries, "leader"@) matches Some(entry) && !(entry is Text)
            ||| config::entry_for(entries, "keybindings"@) matches Some(entry) && !(entry is Table)
            ||| config::entry_for(entries, "keybindings"@) matches Some(Entry::Table(pairs))
                && exists|j: int| 0 <= j < pairs.len() && (#[trigger] pairs[j]).1 is None
        },
    ensures
        config::config_of(document).leader == seq!['C', '-', 'b'],
        config::config_of(document).bindings[i] == (Binding {
            sequence: seq![
                KeyEvent { code: KeyCode::Char('b'), modifiers: 2 },
                KeyEvent { code: KeyCode::Char(config::bindable()[i].default), modifiers: 0 },
            ],
            action: config::bindable()[i].action,
        }),
{
    reveal_strlit("C-b");
    assert("C-b"@ =~= seq!['C', '-', 'b']);
}

/// A document is a configuration exactly if its leader is a text, where it has one, and
/// its bindings are a table of nothing but texts, where it has any. It may hold whatever
/// else it likes.
pub proof fn lemma_what_is_a_configuration(entries: Seq<(Seq<char>, Entry)>)
    ensures
        config::is_config(entries) <==> {
            &&& config::entry_for(entries, seq!['l', 'e', 'a', 'd', 'e', 'r']) matches Some(entry) ==> entry is Text
            &&& config::entry_for(entries, seq!['k', 'e', 'y', 'b', 'i', 'n', 'd', 'i', 'n', 'g', 's']) matches Some(entry) ==> (entry matches Entry::Table(
                pairs,
            ) && forall|i: int| 0 <= i < pairs.len() ==> (#[trigger] pairs[i]).1 is Some)
        },
{
    reveal_strlit("leader");
    reveal_strlit("keybindings");
    assert("leader"@ =~= seq!['l', 'e', 'a', 'd', 'e', 'r']);
    assert("keybindings"@ =~= seq!['k', 'e', 'y', 'b', 'i', 'n', 'd', 'i', 'n', 'g', 's']);
}

/// Where a configuration says nothing of bindings, every action keeps its own keys.
pub proof fn lemma_no_bindings_no_change(entries: Seq<(Seq<char>, Entry)>, i: int)
    requires
        config::is_config(entries),
        config::entry_for(entries, "keybindings"@) is None,
        0 <= i < 8,
    ensures
        config::config_of(Some(entries)).bindings[i].sequence == seq![
            KeyEvent { code: KeyCode::Char('b'), modifiers: 2 },
            KeyEvent { code: KeyCode::Char(config::bindable()[i].default), modifiers: 0 },
        ],
{
    lemma_first_entry_counts(
        Seq::<(Seq<char>, Option<Seq<char>>)>::empty(),
        config::bindable()[i].key,
    );
}

} // verus!
