//! The status bar: the last row of the terminal, kept free of the pane's
//! output.

use crate::config::{Binding, TymuxConfig};
use crate::text;
use crate::text::{bytes_of, push_decimal};
use vstd::prelude::*;
use vstd::utf8::*;

verus! {

/// The rows that the status bar takes at the bottom of the terminal.
pub const RESERVED_ROWS: u16 = 1;

/// What the keys do at the moment.
#[derive(Debug, Clone, Copy, PartialEq, Eq, Structural)]
pub enum DisplayMode {
    Normal,
    PrefixArmed,
    CopyMode,
}

/// Whether there is a status bar, and whether it is coloured. Without one not a
/// single byte is added to the pane's output.
#[derive(Debug, Clone, Copy, PartialEq, Eq, Structural)]
pub struct StatusBarConfig {
    pub enabled: bool,
    pub no_color: bool,
}

impl StatusBarConfig {
    /// `no_color` is the value of the variable `NO_COLOR`, which asks for no
    /// colour if it is set and not empty.
    pub fn new(enabled: bool, no_color: Option<&str>) -> (config: Self)
        ensures
            config.enabled == enabled,
            config.no_color == (no_color matches Some(value) && value@.len() > 0),
    {
        StatusBarConfig {
            enabled,
            no_color: match no_color {
                Some(value) => value.unicode_len() > 0,
                None => false,
            },
        }
    }
}

/// The rows left to the pane: all but the status bar's, but never none.
pub open spec fn pane_rows(term_rows: u16, cfg: StatusBarConfig) -> u16 {
    if !cfg.enabled {
        term_rows
    } else if term_rows <= 2 {
        1
    } else {
        (term_rows - RESERVED_ROWS) as u16
    }
}

/// The rows left to the pane.
pub fn pty_rows(term_rows: u16, cfg: &StatusBarConfig) -> (rows: u16)
    ensures
        rows == pane_rows(term_rows, *cfg),
{
    if cfg.enabled {
        let rows: u16 = term_rows.saturating_sub(RESERVED_ROWS);
        if rows < 1 { 1 } else { rows }
    } else {
        term_rows
    }
}

/// The escape sequence that keeps scrolling to the pane's rows.
pub open spec fn scroll_region(term_rows: u16, cfg: StatusBarConfig) -> Seq<char> {
    if cfg.enabled {
        "\x1b[1;"@ + text::decimal(pane_rows(term_rows, cfg) as nat) + "r"@
    } else {
        seq![]
    }
}

/// The bytes that keep scrolling to the pane's rows; none if there is no status
/// bar.
pub fn decstbm_reserve(term_rows: u16, cfg: &StatusBarConfig) -> (bytes: Vec<u8>)
    ensures
        bytes@ == encode_utf8(scroll_region(term_rows, *cfg)),
        !cfg.enabled ==> bytes@.len() == 0,
{
    let mut out = String::new();
    if cfg.enabled {
        out.append("\x1b[1;");
        push_decimal(&mut out, pty_rows(term_rows, cfg) as u64);
        out.append("r");
    }
    assert(out@ =~= scroll_region(term_rows, *cfg));
    bytes_of(out.as_str().as_bytes())
}

/// The hints for a row of bindings: for each with a second key, that key and the
/// action, with two spaces between hints.
pub open spec fn hints(bindings: Seq<Binding>) -> Seq<char>
    decreases bindings.len(),
{
    if bindings.len() == 0 {
        seq![]
    } else {
        let before = hints(bindings.drop_last());
        let binding = bindings.last();
        if binding.sequence.len() < 2 {
            before
        } else {
            before + (if has_hint(bindings.drop_last()) {
                "  "@
            } else {
                seq![]
            }) + binding.sequence[1].code.name() + ":"@ + binding.action.label()
        }
    }
}

/// Whether any of the bindings has a hint.
pub open spec fn has_hint(bindings: Seq<Binding>) -> bool {
    exists|i: int| 0 <= i < bindings.len() && (#[trigger] bindings[i]).sequence.len() >= 2
}

/// The hint line: the bindings while a leader is armed, copy mode's keys in copy
/// mode, and nothing otherwise.
pub open spec fn hint_line(mode: DisplayMode, bindings: Seq<Binding>) -> Seq<char> {
    match mode {
        DisplayMode::Normal => seq![],
        DisplayMode::PrefixArmed => "-- PREFIX -- "@ + hints(bindings),
        DisplayMode::CopyMode => "-- COPY MODE -- h/j/k/l:move  v:select  y:yank  q/Esc:exit"@,
    }
}

/// The hint line for a mode.
pub fn render_hint_line(mode: DisplayMode, config: &TymuxConfig) -> (line: String)
    ensures
        line@ == hint_line(mode, config@.bindings),
{
    match mode {
        DisplayMode::Normal => {
            let line = String::new();
            assert(line@ =~= seq![]);
            line
        },
        DisplayMode::PrefixArmed => {
            let mut line: String = "-- PREFIX -- ".to_owned();
            push_hints(&mut line, config);
            line
        },
        DisplayMode::CopyMode =>
            "-- COPY MODE -- h/j/k/l:move  v:select  y:yank  q/Esc:exit".to_owned(),
    }
}

fn push_hints(line: &mut String, config: &TymuxConfig)
    ensures
        final(line)@ == old(line)@ + hints(config@.bindings),
{
    let ghost all = config@.bindings;
    let mut any: bool = false;
    let mut i: usize = 0;
    proof {
        assert(all.take(0) =~= seq![]);
        assert(line@ =~= old(line)@ + hints(all.take(0)));
    }
    while i < config.bindings.len()
        invariant
            i <= config.bindings.len(),
            all == config@.bindings,
            any == has_hint(all.take(i as int)),
            line@ == old(line)@ + hints(all.take(i as int)),
        decreases config.bindings.len() - i,
    {
        let binding = &config.bindings[i];
        let ghost next = all.take(i + 1);
        proof {
            assert(next.drop_last() =~= all.take(i as int));
            assert(next.last() == binding@);
            assert(binding@.sequence.len() >= 2 ==> next[i as int].sequence.len() >= 2);
            if has_hint(all.take(i as int)) {
                let j = choose|j: int|
                    0 <= j < i && (#[trigger] all.take(i as int)[j]).sequence.len() >= 2;
                assert(next[j].sequence.len() >= 2);
            }
            if has_hint(next) && binding@.sequence.len() < 2 {
                let j = choose|j: int|
                    0 <= j < next.len() && (#[trigger] next[j]).sequence.len() >= 2;
                assert(all.take(i as int)[j].sequence.len() >= 2);
            }
        }
        if binding.sequence.len() >= 2 {
            if any {
                line.append("  ");
            }
            binding.sequence[1].code.push_name(line);
            line.append(":");
            line.append(binding.action.short_label());
            any = true;
            assert(line@ =~= old(line)@ + hints(next));
        }
        i = i + 1;
    }
    assert(all.take(i as int) =~= all);
}

/// What stands in the status bar: the session's name in normal mode, and the
/// hint line otherwise.
pub open spec fn bar_text(
    mode: DisplayMode,
    bindings: Seq<Binding>,
    session_name: Seq<char>,
) -> Seq<char> {
    if mode == DisplayMode::Normal {
        "["@ + session_name + "]"@
    } else {
        hint_line(mode, bindings)
    }
}

/// What stands in the status bar.
pub fn render_bar_text(mode: DisplayMode, config: &TymuxConfig, session_name: &str) -> (text: String)
    ensures
        text@ == bar_text(mode, config@.bindings, session_name@),
{
    if mode == DisplayMode::Normal {
        let mut text: String = "[".to_owned();
        text.append(session_name);
        text.append("]");
        text
    } else {
        render_hint_line(mode, config)
    }
}

/// A text in reverse video, unless it is empty or there is to be no colour. The
/// text itself stays as it is.
pub open spec fn colorized(text: Seq<char>, cfg: StatusBarConfig) -> Seq<char> {
    if cfg.no_color || text.len() == 0 {
        text
    } else {
        "\x1b[7m"@ + text + "\x1b[0m"@
    }
}

/// A text in reverse video, unless it is empty or there is to be no colour.
pub fn colorize(text: &str, cfg: &StatusBarConfig) -> (out: String)
    ensures
        out@ == colorized(text@, *cfg),
{
    if cfg.no_color || text.unicode_len() == 0 {
        text.to_owned()
    } else {
        let mut out: String = "\x1b[7m".to_owned();
        out.append(text);
        out.append("\x1b[0m");
        out
    }
}

/// What paints the status bar: the cursor's place is kept, the last row cleared
/// and written, and the cursor put back.
pub open spec fn bar_paint(
    term_rows: u16,
    mode: DisplayMode,
    bindings: Seq<Binding>,
    cfg: StatusBarConfig,
    session_name: Seq<char>,
) -> Seq<char> {
    if cfg.enabled {
        "\x1b7\x1b["@ + text::decimal(term_rows as nat) + ";1H\x1b[2K"@ + colorized(
            bar_text(mode, bindings, session_name),
            cfg,
        ) + "\x1b8"@
    } else {
        seq![]
    }
}

/// The bytes that paint the status bar; none if there is none.
pub fn redraw_status_line(
    term_rows: u16,
    mode: DisplayMode,
    config: &TymuxConfig,
    cfg: &StatusBarConfig,
    session_name: &str,
) -> (bytes: Vec<u8>)
    ensures
        bytes@ == encode_utf8(
            bar_paint(term_rows, mode, config@.bindings, *cfg, session_name@),
        ),
        !cfg.enabled ==> bytes@.len() == 0,
{
    let mut out = String::new();
    if cfg.enabled {
        out.append("\x1b7\x1b[");
        push_decimal(&mut out, term_rows as u64);
        out.append(";1H\x1b[2K");
        let line = render_bar_text(mode, config, session_name);
        out.append(colorize(line.as_str(), cfg).as_str());
        out.append("\x1b8");
    }
    assert(out@ =~= bar_paint(term_rows, mode, config@.bindings, *cfg, session_name@));
    bytes_of(out.as_str().as_bytes())
}

/// With a status bar the pane has one row less than the terminal, but never
/// none; without one it has them all.
pub proof fn lemma_rows_left_to_the_pane(term_rows: u16, cfg: StatusBarConfig)
    ensures
        !cfg.enabled ==> pane_rows(term_rows, cfg) == term_rows,
        cfg.enabled && term_rows >= 2 ==> pane_rows(term_rows, cfg) + 1 == term_rows,
        cfg.enabled && term_rows < 2 ==> pane_rows(term_rows, cfg) == 1,
{
}

/// Scrolling is kept to the rows from the first to the pane's last, by the
/// escape sequence for that.
pub proof fn lemma_scrolling_is_kept_to_the_pane(term_rows: u16, cfg: StatusBarConfig) -> (last:
    Seq<char>)
    requires
        cfg.enabled,
    ensures
        scroll_region(term_rows, cfg) == seq!['\u{1b}', '[', '1', ';'] + last + seq!['r'],
        text::place_value(last) == pane_rows(term_rows, cfg),
{
    reveal_strlit("\x1b[1;");
    reveal_strlit("r");
    let last = text::decimal(pane_rows(term_rows, cfg) as nat);
    text::lemma_decimal_stands_for_the_number(pane_rows(term_rows, cfg) as nat);
    assert("\x1b[1;"@ =~= seq!['\u{1b}', '[', '1', ';']);
    assert("r"@ =~= seq!['r']);
    last
}

/// Without a status bar nothing is written.
pub proof fn lemma_no_bar_no_bytes(
    term_rows: u16,
    mode: DisplayMode,
    bindings: Seq<Binding>,
    cfg: StatusBarConfig,
    session_name: Seq<char>,
)
    requires
        !cfg.enabled,
    ensures
        scroll_region(term_rows, cfg).len() == 0,
        bar_paint(term_rows, mode, bindings, cfg, session_name).len() == 0,
{
}

/// The hints of two rows of bindings are the hints of the one and those of the
/// other, with two spaces between them if both have any.
pub proof fn lemma_hints_are_listed_in_order(front: Seq<Binding>, back: Seq<Binding>)
    ensures
        hints(front + back) == hints(front) + (if hints(front).len() > 0 && hints(back).len() > 0 {
            seq![' ', ' ']
        } else {
            seq![]
        }) + hints(back),
    decreases back.len(),
{
    reveal_strlit("  ");
    assert("  "@ =~= seq![' ', ' ']);
    let all = front + back;
    lemma_hints_where_there_are_some(front);
    lemma_hints_where_there_are_some(back);
    if back.len() == 0 {
        assert(all =~= front);
        assert(hints(back) =~= seq![]);
        assert(hints(front) + Seq::<char>::empty() + hints(back) =~= hints(front));
    } else {
        let rest = back.drop_last();
        let binding = back.last();
        assert(all.drop_last() =~= front + rest);
        lemma_hints_are_listed_in_order(front, rest);
        lemma_hints_where_there_are_some(rest);
        lemma_hints_where_there_are_some(front + rest);
        assert(hints(front + back) =~= hints(front) + (if hints(front).len() > 0 && hints(
            back,
        ).len() > 0 {
            seq![' ', ' ']
        } else {
            seq![]
        }) + hints(back));
    }
}

proof fn lemma_hints_where_there_are_some(bindings: Seq<Binding>)
    ensures
        has_hint(bindings) <==> hints(bindings).len() > 0,
    decreases bindings.len(),
{
    if bindings.len() > 0 {
        let rest = bindings.drop_last();
        lemma_hints_where_there_are_some(rest);
        reveal_strlit(":");
        if bindings.last().sequence.len() >= 2 {
            assert(bindings[bindings.len() - 1].sequence.len() >= 2);
            assert(hints(bindings).len() > 0);
        } else if has_hint(bindings) {
            let i = choose|i: int|
                0 <= i < bindings.len() && (#[trigger] bindings[i]).sequence.len() >= 2;
            assert(rest[i].sequence.len() >= 2);
        } else if has_hint(rest) {
            let i = choose|i: int| 0 <= i < rest.len() && (#[trigger] rest[i]).sequence.len() >= 2;
            assert(bindings[i].sequence.len() >= 2);
        }
    }
}

/// A binding of two keys or more is hinted at by its second key and its action,
/// with a colon between them. One of a single key has no hint.
pub proof fn lemma_hint_of_one_binding(binding: Binding)
    ensures
        binding.sequence.len() >= 2 ==> hints(seq![binding]) == binding.sequence[1].code.name()
            + seq![':'] + binding.action.label(),
        binding.sequence.len() < 2 ==> hints(seq![binding]).len() == 0,
{
    reveal_strlit(":");
    let one = seq![binding];
    assert(one.drop_last() =~= seq![]);
    assert(hints(one.drop_last()) =~= seq![]);
    assert(":"@ =~= seq![':']);
    assert(!has_hint(one.drop_last()));
    if binding.sequence.len() >= 2 {
        assert(hints(one) =~= binding.sequence[1].code.name() + seq![':'] + binding.action.label());
    }
}

/// The bindings are hinted at while a leader is armed and at no other time, and
/// the session's name is shown in normal mode and at no other time.
pub proof fn lemma_what_the_bar_shows(
    bindings: Seq<Binding>,
    others: Seq<Binding>,
    session_name: Seq<char>,
    other_name: Seq<char>,
)
    ensures
        bar_text(DisplayMode::Normal, bindings, session_name) == seq!['['] + session_name + seq![
            ']',
        ],
        bar_text(DisplayMode::CopyMode, bindings, session_name) == bar_text(
            DisplayMode::CopyMode,
            others,
            other_name,
        ),
        bar_text(DisplayMode::CopyMode, bindings, session_name).len() > 0,
        bar_text(DisplayMode::PrefixArmed, bindings, session_name) == bar_text(
            DisplayMode::PrefixArmed,
            bindings,
            other_name,
        ),
        bar_text(DisplayMode::PrefixArmed, bindings, session_name) == seq![
            '-',
            '-',
            ' ',
            'P',
            'R',
            'E',
            'F',
            'I',
            'X',
            ' ',
            '-',
            '-',
            ' ',
        ] + hints(bindings),
        hint_line(DisplayMode::Normal, bindings).len() == 0,
{
    reveal_strlit("[");
    reveal_strlit("]");
    reveal_strlit("-- PREFIX -- ");
    reveal_strlit("-- COPY MODE -- h/j/k/l:move  v:select  y:yank  q/Esc:exit");
    assert("["@ =~= seq!['[']);
    assert("]"@ =~= seq![']']);
    assert("-- PREFIX -- "@ =~= seq![
        '-',
        '-',
        ' ',
        'P',
        'R',
        'E',
        'F',
        'I',
        'X',
        ' ',
        '-',
        '-',
        ' ',
    ]);
}

/// Colour puts reverse video round a text and leaves the text itself as it is.
/// Without colour, and where there is no text, nothing is added.
pub proof fn lemma_color_goes_round_the_text(text: Seq<char>, cfg: StatusBarConfig)
    ensures
        cfg.no_color ==> colorized(text, cfg) == text,
        text.len() == 0 ==> colorized(text, cfg) == text,
        !cfg.no_color && text.len() > 0 ==> colorized(text, cfg) == seq!['\u{1b}', '[', '7', 'm']
            + text + seq!['\u{1b}', '[', '0', 'm'],
{
    reveal_strlit("\x1b[7m");
    reveal_strlit("\x1b[0m");
    assert("\x1b[7m"@ =~= seq!['\u{1b}', '[', '7', 'm']);
    assert("\x1b[0m"@ =~= seq!['\u{1b}', '[', '0', 'm']);
}

/// The bar is painted in the terminal's last row, from its first column on, after
/// the row is cleared; the cursor's place is kept first and put back last.
pub proof fn lemma_bar_is_painted_in_the_last_row(
    term_rows: u16,
    mode: DisplayMode,
    bindings: Seq<Binding>,
    cfg: StatusBarConfig,
    session_name: Seq<char>,
) -> (row: Seq<char>)
    requires
        cfg.enabled,
    ensures
        text::place_value(row) == term_rows,
        bar_paint(term_rows, mode, bindings, cfg, session_name) == seq![
            '\u{1b}',
            '7',
            '\u{1b}',
            '[',
        ] + row + seq![';', '1', 'H', '\u{1b}', '[', '2', 'K'] + colorized(
            bar_text(mode, bindings, session_name),
            cfg,
        ) + seq!['\u{1b}', '8'],
{
    reveal_strlit("\x1b7\x1b[");
    reveal_strlit(";1H\x1b[2K");
    reveal_strlit("\x1b8");
    text::lemma_decimal_stands_for_the_number(term_rows as nat);
    assert("\x1b7\x1b["@ =~= seq!['\u{1b}', '7', '\u{1b}', '[']);
    assert(";1H\x1b[2K"@ =~= seq![';', '1', 'H', '\u{1b}', '[', '2', 'K']);
    assert("\x1b8"@ =~= seq!['\u{1b}', '8']);
    text::decimal(term_rows as nat)
}

/// In copy mode the bar names copy mode's keys, whatever is bound.
pub proof fn lemma_copy_mode_keys_are_named(bindings: Seq<Binding>)
    ensures
        hint_line(DisplayMode::CopyMode, bindings) == seq!['-', '-', ' ', 'C', 'O', 'P', 'Y', ' ', 'M', 'O', 'D', 'E', ' ', '-', '-', ' ', 'h', '/', 'j', '/', 'k', '/', 'l', ':', 'm', 'o', 'v', 'e', ' ', ' ', 'v', ':', 's', 'e', 'l', 'e', 'c', 't', ' ', ' ', 'y', ':', 'y', 'a', 'n', 'k', ' ', ' ', 'q', '/', 'E', 's', 'c', ':', 'e', 'x', 'i', 't'],
{
    reveal_strlit("-- COPY MODE -- h/j/k/l:move  v:select  y:yank  q/Esc:exit");
    assert("-- COPY MODE -- h/j/k/l:move  v:select  y:yank  q/Esc:exit"@ =~= seq!['-', '-', ' ', 'C', 'O', 'P', 'Y', ' ', 'M', 'O', 'D', 'E', ' ', '-', '-', ' ', 'h', '/', 'j', '/', 'k', '/', 'l', ':', 'm', 'o', 'v', 'e', ' ', ' ', 'v', ':', 's', 'e', 'l', 'e', 'c', 't', ' ', ' ', 'y', ':', 'y', 'a', 'n', 'k', ' ', ' ', 'q', '/', 'E', 's', 'c', ':', 'e', 'x', 'i', 't']);
}

} // verus!
