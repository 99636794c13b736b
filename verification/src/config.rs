//! Key bindings and where they come from.

use crate::keys;
use crate::keys::{KeyCode, KeyEvent};
use crate::text;
use crate::text::{same_text, split_words};
use std::collections::BTreeMap;
use vstd::prelude::*;

verus! {

/// What a key binding can bring about. `ExitCopyMode` and `SendPrefixLiteral`
/// are not bound by any configuration: the first is copy mode's own key, the
/// second pressing the leader twice.
#[derive(Debug, Clone, Copy, PartialEq, Eq, Hash, Structural)]
pub enum Action {
    Detach,
    EnterCopyMode,
    ExitCopyMode,
    SplitHorizontal,
    SplitVertical,
    NewWindow,
    NextWindow,
    PrevWindow,
    KillPane,
    SendPrefixLiteral,
}

impl Action {
    /// The action's name in the status bar.
    pub open spec fn label(self) -> Seq<char> {
        match self {
            Action::Detach => "detach"@,
            Action::EnterCopyMode => "copy-mode"@,
            Action::ExitCopyMode => "exit-copy-mode"@,
            Action::SplitHorizontal => "split-h"@,
            Action::SplitVertical => "split-v"@,
            Action::NewWindow => "new-window"@,
            Action::NextWindow => "next-window"@,
            Action::PrevWindow => "prev-window"@,
            Action::KillPane => "kill-pane"@,
            Action::SendPrefixLiteral => "literal-prefix"@,
        }
    }

    /// The action's name in the status bar.
    pub fn short_label(&self) -> (label: &'static str)
        ensures
            label@ == self.label(),
    {
        match self {
            Action::Detach => "detach",
            Action::EnterCopyMode => "copy-mode",
            Action::ExitCopyMode => "exit-copy-mode",
            Action::SplitHorizontal => "split-h",
            Action::SplitVertical => "split-v",
            Action::NewWindow => "new-window",
            Action::NextWindow => "next-window",
            Action::PrevWindow => "prev-window",
            Action::KillPane => "kill-pane",
            Action::SendPrefixLiteral => "literal-prefix",
        }
    }
}

/// An action that a configuration can bind.
pub struct Bindable {
    pub action: Action,
    /// What the configuration file calls it.
    pub key: Seq<char>,
    /// The key that, after `C-b`, brings it about by default.
    pub default: char,
}

/// The actions that a configuration can bind.
pub open spec fn bindable() -> Seq<Bindable> {
    seq![
        Bindable { action: Action::Detach, key: "detach"@, default: 'd' },
        Bindable { action: Action::EnterCopyMode, key: "copy_mode"@, default: '[' },
        Bindable { action: Action::SplitHorizontal, key: "split_horizontal"@, default: '%' },
        Bindable { action: Action::SplitVertical, key: "split_vertical"@, default: '"' },
        Bindable { action: Action::NewWindow, key: "new_window"@, default: 'c' },
        Bindable { action: Action::NextWindow, key: "next_window"@, default: 'n' },
        Bindable { action: Action::PrevWindow, key: "prev_window"@, default: 'p' },
        Bindable { action: Action::KillPane, key: "kill_pane"@, default: 'x' },
    ]
}

/// How many actions a configuration can bind.
pub const BINDABLE_ACTIONS: usize = 8;

/// One of the actions that a configuration can bind.
fn bindable_action(index: usize) -> (entry: (Action, &'static str, char))
    requires
        index < BINDABLE_ACTIONS,
    ensures
        entry.0 == bindable()[index as int].action,
        entry.1@ == bindable()[index as int].key,
        entry.2 == bindable()[index as int].default,
{
    match index {
        0 => (Action::Detach, "detach", 'd'),
        1 => (Action::EnterCopyMode, "copy_mode", '['),
        2 => (Action::SplitHorizontal, "split_horizontal", '%'),
        3 => (Action::SplitVertical, "split_vertical", '"'),
        4 => (Action::NewWindow, "new_window", 'c'),
        5 => (Action::NextWindow, "next_window", 'n'),
        6 => (Action::PrevWindow, "prev_window", 'p'),
        _ => (Action::KillPane, "kill_pane", 'x'),
    }
}

/// A row of key presses and what it brings about.
#[derive(Debug, PartialEq)]
pub struct KeyBinding {
    pub sequence: Vec<KeyEvent>,
    pub action: Action,
}

/// What [`KeyBinding`] stands for.
pub struct Binding {
    pub sequence: Seq<KeyEvent>,
    pub action: Action,
}

impl View for KeyBinding {
    type V = Binding;

    open spec fn view(&self) -> Binding {
        Binding { sequence: self.sequence@, action: self.action }
    }
}

impl Clone for KeyBinding {
    fn clone(&self) -> (copy: Self)
        ensures
            copy@ == self@,
    {
        let sequence = self.sequence.clone();
        assert(sequence@ =~= self.sequence@);
        KeyBinding { sequence, action: self.action }
    }
}

/// Bindings, as values.
pub open spec fn bindings_view(bindings: Seq<KeyBinding>) -> Seq<Binding> {
    bindings.map_values(|binding: KeyBinding| binding@)
}

/// The leader key and the bindings.
#[derive(Debug, PartialEq)]
pub struct TymuxConfig {
    pub leader: String,
    pub bindings: Vec<KeyBinding>,
}

/// What [`TymuxConfig`] stands for.
pub struct Config {
    pub leader: Seq<char>,
    pub bindings: Seq<Binding>,
}

impl View for TymuxConfig {
    type V = Config;

    open spec fn view(&self) -> Config {
        Config { leader: self.leader@, bindings: bindings_view(self.bindings@) }
    }
}

impl Clone for TymuxConfig {
    fn clone(&self) -> (copy: Self)
        ensures
            copy@ == self@,
    {
        let copy = TymuxConfig {
            leader: self.leader.clone(),
            bindings: copy_bindings(&self.bindings),
        };
        copy
    }
}

/// A copy of a row of bindings.
pub(crate) fn copy_bindings(bindings: &Vec<KeyBinding>) -> (copies: Vec<KeyBinding>)
    ensures
        bindings_view(copies@) == bindings_view(bindings@),
{
    let mut copies: Vec<KeyBinding> = Vec::new();
    let mut i: usize = 0;
    while i < bindings.len()
        invariant
            i <= bindings.len(),
            copies@.len() == i,
            forall|j: int| 0 <= j < i ==> (#[trigger] copies@[j])@ == bindings@[j]@,
        decreases bindings.len() - i,
    {
        copies.push(bindings[i].clone());
        i = i + 1;
    }
    assert(bindings_view(copies@) =~= bindings_view(bindings@));
    copies
}

/// A row of keys that does not follow the grammar.
#[derive(Debug, PartialEq)]
pub struct KeySequenceParseError {
    pub raw: String,
}

/// The key that a word names: `C-` and a character for the character with
/// control, or a character by itself.
pub open spec fn key_of_word(word: Seq<char>) -> Option<KeyEvent> {
    if word.len() >= 2 && word[0] == 'C' && word[1] == '-' {
        if word.len() == 3 {
            Some(KeyEvent { code: KeyCode::Char(word[2]), modifiers: keys::CONTROL })
        } else {
            None
        }
    } else if word.len() == 1 {
        Some(KeyEvent { code: KeyCode::Char(word[0]), modifiers: keys::NONE })
    } else {
        None
    }
}

/// The keys that a text names, word by word, if every word names one.
pub open spec fn keys_of_text(raw: Seq<char>) -> Option<Seq<KeyEvent>> {
    let found = text::words(raw);
    if forall|i: int| 0 <= i < found.len() ==> key_of_word(#[trigger] found[i]) is Some {
        Some(found.map_values(|word: Seq<char>| key_of_word(word)->0))
    } else {
        None
    }
}

fn parse_key_token(word: &Vec<char>) -> (key: Option<KeyEvent>)
    ensures
        key == key_of_word(word@),
{
    if word.len() >= 2 && word[0] == 'C' && word[1] == '-' {
        if word.len() == 3 {
            Some(KeyEvent::new(KeyCode::Char(word[2]), keys::CONTROL))
        } else {
            None
        }
    } else if word.len() == 1 {
        Some(KeyEvent::new(KeyCode::Char(word[0]), keys::NONE))
    } else {
        None
    }
}

/// Reads a row of keys such as `C-b d`: words separated by white space, each a
/// character or `C-` and a character.
pub fn parse_key_sequence(raw: &str) -> (result: Result<Vec<KeyEvent>, KeySequenceParseError>)
    ensures
        match result {
            Ok(sequence) => keys_of_text(raw@) == Some(sequence@),
            Err(error) => keys_of_text(raw@) is None && error.raw@ == raw@,
        },
{
    let found = split_words(raw);
    let ghost all = text::words(raw@);
    let mut sequence: Vec<KeyEvent> = Vec::new();
    let mut i: usize = 0;
    while i < found.len()
        invariant
            i <= found.len(),
            all == text::words(raw@),
            text::words_view(found@) == all,
            sequence@.len() == i,
            forall|j: int|
                0 <= j < i ==> key_of_word(#[trigger] all[j]) == Some(sequence@[j]),
        decreases found.len() - i,
    {
        assert(all[i as int] == found@[i as int]@);
        match parse_key_token(&found[i]) {
            Some(key) => {
                sequence.push(key);
            },
            None => {
                return Err(KeySequenceParseError { raw: raw.to_owned() });
            },
        }
        i = i + 1;
    }
    assert(sequence@ =~= all.map_values(|word: Seq<char>| key_of_word(word)->0));
    Ok(sequence)
}

/// What an action is bound to by default: `C-b` and its key.
pub open spec fn default_sequence(entry: Bindable) -> Seq<KeyEvent> {
    seq![
        KeyEvent { code: KeyCode::Char('b'), modifiers: keys::CONTROL },
        KeyEvent { code: KeyCode::Char(entry.default), modifiers: keys::NONE },
    ]
}

/// The default binding of an action.
pub open spec fn default_binding(entry: Bindable) -> Binding {
    Binding { sequence: default_sequence(entry), action: entry.action }
}

/// The configuration where nothing else is said.
pub open spec fn default_config() -> Config {
    Config {
        leader: "C-b"@,
        bindings: bindable().map_values(|entry: Bindable| default_binding(entry)),
    }
}

fn default_key_binding(action: Action, key: char) -> (binding: KeyBinding)
    ensures
        binding@.action == action,
        binding@.sequence == seq![
            KeyEvent { code: KeyCode::Char('b'), modifiers: keys::CONTROL },
            KeyEvent { code: KeyCode::Char(key), modifiers: keys::NONE },
        ],
{
    KeyBinding {
        sequence: vec![
            KeyEvent::new(KeyCode::Char('b'), keys::CONTROL),
            KeyEvent::new(KeyCode::Char(key), keys::NONE),
        ],
        action,
    }
}

/// An entry of a TOML document: a text, a table whose values are texts or
/// something else, or something else. A date or time is a table that holds its
/// text under one key.
#[derive(Debug, PartialEq)]
pub enum TomlEntry {
    Text(String),
    Table(Vec<(String, Option<String>)>),
    Other,
}

/// What [`TomlEntry`] stands for.
pub enum Entry {
    Text(Seq<char>),
    Table(Seq<(Seq<char>, Option<Seq<char>>)>),
    Other,
}

/// A text that may be missing, as a value.
pub open spec fn optional_text(text: Option<String>) -> Option<Seq<char>> {
    text::optional(text)
}

impl View for TomlEntry {
    type V = Entry;

    open spec fn view(&self) -> Entry {
        match self {
            TomlEntry::Text(text) => Entry::Text(text@),
            TomlEntry::Table(pairs) => Entry::Table(pairs_view(pairs@)),
            TomlEntry::Other => Entry::Other,
        }
    }
}

/// A document, as a value.
pub open spec fn document_view(document: Option<Vec<(String, TomlEntry)>>) -> Option<
    Seq<(Seq<char>, Entry)>,
> {
    match document {
        Some(entries) => Some(entries_view(entries@)),
        None => None,
    }
}

/// What a TOML document says at its top level and in the tables there, if the
/// text is one.
pub uninterp spec fn toml_document(contents: Seq<char>) -> Option<Seq<(Seq<char>, Entry)>>;

/// `toml::from_str` reads the text of a document into a map of plain values, which
/// `serde_json::Value` holds. A date or time comes as a map of one text, and a key
/// of any name is kept.
#[verifier::external_body]
fn parse_toml(contents: &str) -> (document: Option<Vec<(String, TomlEntry)>>)
    ensures
        document_view(document) == toml_document(contents@),
{
    let table = toml::from_str::<BTreeMap<String, serde_json::Value>>(contents).ok()?;
    let plain = |value| match value {
        serde_json::Value::String(text) => TomlEntry::Text(text),
        serde_json::Value::Object(pairs) => TomlEntry::Table(
            pairs.into_iter().map(|(key, value)| (key, value.as_str().map(str::to_owned))).collect(),
        ),
        _ => TomlEntry::Other,
    };
    Some(table.into_iter().map(|(key, value)| (key, plain(value))).collect())
}

/// The place of the first entry under `key`, or the end.
pub open spec fn place_of<T>(entries: Seq<(Seq<char>, T)>, key: Seq<char>) -> int
    decreases entries.len(),
{
    if entries.len() == 0 {
        0
    } else if entries[0].0 == key {
        0
    } else {
        1 + place_of(entries.drop_first(), key)
    }
}

/// What stands under `key`, if anything does.
pub open spec fn entry_for<T>(entries: Seq<(Seq<char>, T)>, key: Seq<char>) -> Option<T> {
    let place = place_of(entries, key);
    if place < entries.len() {
        Some(entries[place].1)
    } else {
        None
    }
}

/// Whether a document is a configuration: its leader, if it names one, is a
/// text, and its bindings, if it has any, are a table of texts.
pub open spec fn is_config(entries: Seq<(Seq<char>, Entry)>) -> bool {
    &&& match entry_for(entries, "leader"@) {
        None => true,
        Some(entry) => entry is Text,
    }
    &&& match entry_for(entries, "keybindings"@) {
        None => true,
        Some(Entry::Table(pairs)) => forall|i: int|
            0 <= i < pairs.len() ==> (#[trigger] pairs[i]).1 is Some,
        Some(_) => false,
    }
}

/// What a configuration says of the bindings.
pub open spec fn overrides_of(entries: Seq<(Seq<char>, Entry)>) -> Seq<
    (Seq<char>, Option<Seq<char>>),
> {
    match entry_for(entries, "keybindings"@) {
        Some(Entry::Table(pairs)) => pairs,
        _ => seq![],
    }
}

/// What an action is bound to: what the configuration says, if it says something
/// that follows the grammar, and its default otherwise.
pub open spec fn chosen_binding(
    entry: Bindable,
    overrides: Seq<(Seq<char>, Option<Seq<char>>)>,
) -> Binding {
    match entry_for(overrides, entry.key) {
        Some(Some(raw)) => match keys_of_text(raw) {
            Some(sequence) => Binding { sequence, action: entry.action },
            None => default_binding(entry),
        },
        _ => default_binding(entry),
    }
}

/// The configuration that a document gives. A text that is no document, or a
/// document that is no configuration, gives the defaults.
pub open spec fn config_of(document: Option<Seq<(Seq<char>, Entry)>>) -> Config {
    match document {
        None => default_config(),
        Some(entries) => if is_config(entries) {
            Config {
                leader: match entry_for(entries, "leader"@) {
                    Some(Entry::Text(text)) => text,
                    _ => "C-b"@,
                },
                bindings: bindable().map_values(
                    |entry: Bindable| chosen_binding(entry, overrides_of(entries)),
                ),
            }
        } else {
            default_config()
        },
    }
}

/// Top-level entries, as values.
pub open spec fn entries_view(entries: Seq<(String, TomlEntry)>) -> Seq<(Seq<char>, Entry)> {
    entries.map_values(|entry: (String, TomlEntry)| (entry.0@, entry.1@))
}

/// Entries of a table, as values.
pub open spec fn pairs_view(pairs: Seq<(String, Option<String>)>) -> Seq<
    (Seq<char>, Option<Seq<char>>),
> {
    pairs.map_values(|pair: (String, Option<String>)| (pair.0@, optional_text(pair.1)))
}

fn find_entry(entries: &Vec<(String, TomlEntry)>, key: &str) -> (place: usize)
    ensures
        place == place_of(entries_view(entries@), key@),
        place <= entries@.len(),
{
    let ghost all = entries_view(entries@);
    let mut i: usize = 0;
    assert(all.skip(0) =~= all);
    while i < entries.len()
        invariant
            i <= entries.len(),
            all == entries_view(entries@),
            place_of(all, key@) == i + place_of(all.skip(i as int), key@),
        decreases entries.len() - i,
    {
        assert(all.skip(i as int).drop_first() =~= all.skip(i + 1));
        assert(all.skip(i as int)[0] == (entries@[i as int].0@, entries@[i as int].1@));
        if same_text(entries[i].0.as_str(), key) {
            return i;
        }
        i = i + 1;
    }
    i
}

fn find_pair(pairs: &Vec<(String, Option<String>)>, key: &str) -> (place: usize)
    ensures
        place == place_of(pairs_view(pairs@), key@),
        place <= pairs@.len(),
{
    let ghost all = pairs_view(pairs@);
    let mut i: usize = 0;
    assert(all.skip(0) =~= all);
    while i < pairs.len()
        invariant
            i <= pairs.len(),
            all == pairs_view(pairs@),
            place_of(all, key@) == i + place_of(all.skip(i as int), key@),
        decreases pairs.len() - i,
    {
        assert(all.skip(i as int).drop_first() =~= all.skip(i + 1));
        assert(all.skip(i as int)[0] == (pairs@[i as int].0@, optional_text(pairs@[i as int].1)));
        if same_text(pairs[i].0.as_str(), key) {
            return i;
        }
        i = i + 1;
    }
    i
}

fn all_texts(pairs: &Vec<(String, Option<String>)>) -> (yes: bool)
    ensures
        yes == forall|i: int|
            0 <= i < pairs@.len() ==> (#[trigger] pairs_view(pairs@)[i]).1 is Some,
{
    let mut i: usize = 0;
    while i < pairs.len()
        invariant
            i <= pairs.len(),
            forall|j: int| 0 <= j < i ==> (#[trigger] pairs_view(pairs@)[j]).1 is Some,
        decreases pairs.len() - i,
    {
        assert(pairs_view(pairs@)[i as int].1 == optional_text(pairs@[i as int].1));
        if pairs[i].1.is_none() {
            return false;
        }
        i = i + 1;
    }
    true
}

impl TymuxConfig {
    /// The configuration that the file gives, or the defaults if there is no
    /// file to be read.
    pub fn load_or_default(contents: Option<&str>) -> (config: TymuxConfig)
        ensures
            config@ == match contents {
                Some(contents) => config_of(toml_document(contents@)),
                None => default_config(),
            },
    {
        match contents {
            Some(contents) => TymuxConfig::from_toml_str(contents),
            None => TymuxConfig::defaults(),
        }
    }

    /// Reads a configuration file. A file that is no TOML, or of the wrong
    /// shape, gives the defaults; a binding that does not follow the grammar
    /// gives that binding's default, and leaves the others as the file has
    /// them.
    pub fn from_toml_str(contents: &str) -> (config: TymuxConfig)
        ensures
            config@ == config_of(toml_document(contents@)),
    {
        let document = parse_toml(contents);
        TymuxConfig::from_document(&document)
    }

    /// The configuration that a document gives.
    pub fn from_document(document: &Option<Vec<(String, TomlEntry)>>) -> (config: TymuxConfig)
        ensures
            config@ == config_of(document_view(*document)),
    {
        let entries: &Vec<(String, TomlEntry)> = match document {
            Some(entries) => entries,
            None => {
                return TymuxConfig::defaults();
            },
        };
        let ghost all = entries_view(entries@);
        let leader_at: usize = find_entry(entries, "leader");
        let mut leader: String = "C-b".to_owned();
        if leader_at < entries.len() {
            assert(all[leader_at as int] == (
                entries@[leader_at as int].0@,
                entries@[leader_at as int].1@,
            ));
            match &entries[leader_at].1 {
                TomlEntry::Text(text) => {
                    leader = text.clone();
                },
                _ => {
                    return TymuxConfig::defaults();
                },
            }
        }
        let none: Vec<(String, Option<String>)> = Vec::new();
        let bindings_at: usize = find_entry(entries, "keybindings");
        let mut overrides: &Vec<(String, Option<String>)> = &none;
        if bindings_at < entries.len() {
            assert(all[bindings_at as int] == (
                entries@[bindings_at as int].0@,
                entries@[bindings_at as int].1@,
            ));
            match &entries[bindings_at].1 {
                TomlEntry::Table(pairs) => {
                    if !all_texts(pairs) {
                        return TymuxConfig::defaults();
                    }
                    overrides = pairs;
                },
                _ => {
                    return TymuxConfig::defaults();
                },
            }
        }
        assert(pairs_view(none@) =~= seq![]);
        assert(pairs_view(overrides@) == overrides_of(all));
        assert(is_config(all));
        let bindings = choose_bindings(overrides);
        let config = TymuxConfig { leader, bindings };
        assert(config@.bindings =~= config_of(Some(all)).bindings);
        config
    }

    /// The configuration where nothing else is said: `C-b` leads every
    /// binding.
    pub fn defaults() -> (config: TymuxConfig)
        ensures
            config@ == default_config(),
    {
        let mut bindings: Vec<KeyBinding> = Vec::new();
        let mut i: usize = 0;
        while i < BINDABLE_ACTIONS
            invariant
                i <= BINDABLE_ACTIONS,
                bindings@.len() == i,
                forall|j: int|
                    0 <= j < i ==> (#[trigger] bindings@[j])@ == default_binding(bindable()[j]),
            decreases BINDABLE_ACTIONS - i,
        {
            let (action, _, key): (Action, &'static str, char) = bindable_action(i);
            bindings.push(default_key_binding(action, key));
            i = i + 1;
        }
        let config = TymuxConfig { leader: "C-b".to_owned(), bindings };
        assert(config@.bindings =~= default_config().bindings);
        config
    }
}

fn choose_bindings(overrides: &Vec<(String, Option<String>)>) -> (bindings: Vec<KeyBinding>)
    ensures
        bindings@.len() == bindable().len(),
        forall|j: int|
            0 <= j < bindings@.len() ==> (#[trigger] bindings@[j])@ == chosen_binding(
                bindable()[j],
                pairs_view(overrides@),
            ),
{
    let mut bindings: Vec<KeyBinding> = Vec::new();
    let mut i: usize = 0;
    while i < BINDABLE_ACTIONS
        invariant
            i <= BINDABLE_ACTIONS,
            bindings@.len() == i,
            forall|j: int|
                0 <= j < i ==> (#[trigger] bindings@[j])@ == chosen_binding(
                    bindable()[j],
                    pairs_view(overrides@),
                ),
        decreases BINDABLE_ACTIONS - i,
    {
        let (action, name, key): (Action, &'static str, char) = bindable_action(i);
        let at: usize = find_pair(overrides, name);
        let mut binding = default_key_binding(action, key);
        if at < overrides.len() {
            assert(pairs_view(overrides@)[at as int].1 == optional_text(
                overrides@[at as int].1,
            ));
            if let Some(raw) = &overrides[at].1 {
                if let Ok(sequence) = parse_key_sequence(raw.as_str()) {
                    binding = KeyBinding { sequence, action };
                }
            }
        }
        bindings.push(binding);
        i = i + 1;
    }
    bindings
}

} // verus!
