//! What the user is told says the same of everything, with the names and the
//! numbers put in.
//!
//! Each law takes two things that can be told of, and gives the words that both
//! messages have round what is told of them.

use crate::copy_mode;
use crate::engine;
use crate::engine::EngineError;
use crate::ids;
use crate::ids::Uuid;
use crate::layout::LayoutError;
use crate::messages;
use crate::messages::{Failure, StatusCode};
use crate::persistence::{RecordError, StructureError};
use crate::target;
use crate::text;
use vstd::prelude::*;

verus! {

/// A refused split names the rows and the columns that the pane would have had,
/// in this order, and that two rows and ten columns are the least.
pub proof fn lemma_small_panes_are_described(
    rows: u16,
    cols: u16,
    other_rows: u16,
    other_cols: u16,
) -> (words: (Seq<char>, Seq<char>, Seq<char>, Seq<char>))
    ensures
        messages::below_minimum_text(rows, cols) == words.0 + text::decimal(rows as nat) + words.1
            + text::decimal(cols as nat) + words.2 + seq!['2'] + words.1 + seq!['1', '0']
            + words.3,
        messages::below_minimum_text(other_rows, other_cols) == words.0 + text::decimal(
            other_rows as nat,
        ) + words.1 + text::decimal(other_cols as nat) + words.2 + seq!['2'] + words.1 + seq![
            '1',
            '0',
        ] + words.3,
        (LayoutError::BelowMinimumSize { rows, cols }).text() == messages::below_minimum_text(
            rows,
            cols,
        ),
        (EngineError::BelowMinimumSize { rows, cols }).text() == messages::below_minimum_text(
            rows,
            cols,
        ),
        words.1 == seq![' ', 'r', 'o', 'w', 's', ' ', 'x', ' '],
{
    reveal_with_fuel(text::decimal, 3);
    reveal_strlit(" rows x ");
    assert(text::decimal(2) =~= seq!['2']);
    assert(text::decimal(10) =~= seq!['1', '0']);
    assert(" rows x "@ =~= seq![' ', 'r', 'o', 'w', 's', ' ', 'x', ' ']);
    (
        "split would produce a pane of "@,
        " rows x "@,
        " cols, below the minimum of "@,
        " cols"@,
    )
}

/// A pane that is too short to be split is told of with its rows, and that twenty
/// are wanted.
pub proof fn lemma_short_panes_are_described(rows: u16, other: u16) -> (words: (
    Seq<char>,
    Seq<char>,
    Seq<char>,
))
    ensures
        messages::below_recommended_text(rows) == words.0 + text::decimal(rows as nat) + words.1
            + seq!['2', '0'] + words.2,
        messages::below_recommended_text(other) == words.0 + text::decimal(other as nat) + words.1
            + seq!['2', '0'] + words.2,
        (LayoutError::BelowRecommendedSize { rows }).text() == messages::below_recommended_text(rows),
        (EngineError::BelowRecommendedSize { rows }).text() == messages::below_recommended_text(rows),
{
    reveal_with_fuel(text::decimal, 3);
    assert(text::decimal(20) =~= seq!['2', '0']);
    (
        "Can't split: pane is "@,
        " rows, minimum for a horizontal split is ~"@,
        " rows. Resize your terminal or close another pane first."@,
    )
}

/// What is not found is named, and whether it is a pane or a session is said.
pub proof fn lemma_what_is_not_found_is_named(id: Uuid, other: Uuid) -> (words: (
    Seq<char>,
    Seq<char>,
    Seq<char>,
    Seq<char>,
))
    ensures
        EngineError::PaneNotFound(id).text() == words.0 + ids::hyphenated(id),
        EngineError::PaneNotFound(other).text() == words.0 + ids::hyphenated(other),
        EngineError::SessionNotFound(id).text() == words.1 + ids::hyphenated(id),
        EngineError::SessionNotFound(other).text() == words.1 + ids::hyphenated(other),
        (LayoutError::PaneNotFound { pane_id: id }).text() == words.2 + ids::hyphenated(id) + words.3,
        (LayoutError::PaneNotFound { pane_id: other }).text() == words.2 + ids::hyphenated(other)
            + words.3,
        words.0.skip(8) == seq!['p', 'a', 'n', 'e', ':', ' '],
        words.1.skip(8) == seq!['s', 'e', 's', 's', 'i', 'o', 'n', ':', ' '],
{
    reveal_strlit("no such pane: ");
    reveal_strlit("no such session: ");
    assert("no such pane: "@.skip(8) =~= seq!['p', 'a', 'n', 'e', ':', ' ']);
    assert("no such session: "@.skip(8) =~= seq!['s', 'e', 's', 's', 'i', 'o', 'n', ':', ' ']);
    ("no such pane: "@, "no such session: "@, "no leaf with pane_id "@, " in this layout"@)
}

/// A record that is refused is told of with what was found in it: the number of
/// children, the sum of the ratios, or the version.
pub proof fn lemma_refused_records_are_described(
    count: usize,
    other_count: usize,
    found: u32,
    other_found: u32,
    sum: RecordError,
    ratio_sum: Seq<char>,
    other_sum: Seq<char>,
) -> (words: (Seq<char>, Seq<char>, Seq<char>, Seq<char>, Seq<char>, Seq<char>))
    requires
        sum matches RecordError::Structure(error) && error is RatioSum,
    ensures
        (StructureError::ChildCount { count }).text(ratio_sum) == words.0 + text::decimal(
            count as nat,
        ) + words.1,
        (StructureError::ChildCount { count: other_count }).text(other_sum) == words.0
            + text::decimal(other_count as nat) + words.1,
        RecordError::Structure((StructureError::ChildCount { count })).text(ratio_sum)
            == (StructureError::ChildCount { count }).text(ratio_sum),
        sum.text(ratio_sum) == words.2 + ratio_sum + words.3,
        sum.text(other_sum) == words.2 + other_sum + words.3,
        sum->Structure_0.text(ratio_sum) == sum.text(ratio_sum),
        (RecordError::UnknownVersion { found }).text(ratio_sum) == words.4 + text::decimal(
            found as nat,
        ) + words.5,
        (RecordError::UnknownVersion { found: other_found }).text(other_sum) == words.4
            + text::decimal(other_found as nat) + words.5,
        words.5 == seq![' ', '(', 'e', 'x', 'p', 'e', 'c', 't', 'e', 'd', ' ', '1', ')'],
{
    reveal_with_fuel(text::decimal, 2);
    reveal_strlit(" (expected ");
    reveal_strlit(")");
    let tail = " (expected "@ + text::decimal(1) + ")"@;
    assert(tail =~= seq![' ', '(', 'e', 'x', 'p', 'e', 'c', 't', 'e', 'd', ' ', '1', ')']);
    let head = "unknown schema_version "@;
    assert(RecordError::UnknownVersion { found }.text(ratio_sum) =~= head + text::decimal(
        found as nat,
    ) + tail);
    assert(RecordError::UnknownVersion { found: other_found }.text(other_sum) =~= head
        + text::decimal(other_found as nat) + tail);
    (
        "Split node has "@,
        " children, expected exactly 2"@,
        "Split node children ratios sum to "@,
        ", expected ~1.0"@,
        head,
        tail,
    )
}

/// A refusal that has a remedy is told with its reason and the remedy, and each
/// kind of refusal has one remedy. What has none is told as it is.
pub proof fn lemma_refusals_keep_their_reason(reason: String, other: String) -> (words: (
    Seq<char>,
    Seq<char>,
    Seq<char>,
))
    ensures
        (Failure::Other { message: reason }).text() == reason@,
        (Failure::Status { code: StatusCode::Other, message: reason }).text() == reason@,
        (Failure::Status { code: StatusCode::Unauthenticated, message: reason }).text() == words.0
            + reason@ + words.1,
        (Failure::Status { code: StatusCode::Unauthenticated, message: other }).text() == words.0
            + other@ + words.1,
        (Failure::Status { code: StatusCode::PermissionDenied, message: reason }).text() == words.0
            + reason@ + words.2,
        (Failure::Status { code: StatusCode::PermissionDenied, message: other }).text() == words.0
            + other@ + words.2,
        words.1 != words.2,
{
    reveal_strlit(" (set --token or TYMUXD_TOKEN to authenticate)");
    reveal_strlit(
        " (ask the daemon's owner to add you to its configured --socket-group, or run tymux-cli as the daemon's own OS user)",
    );
    let token = " (set --token or TYMUXD_TOKEN to authenticate)"@;
    let group =
        " (ask the daemon's owner to add you to its configured --socket-group, or run tymux-cli as the daemon's own OS user)"@;
    assert(token[2] == 's' && group[2] == 'a');
    ("tymuxd rejected this connection: "@, token, group)
}

/// A revival is told with the number of panes, and a session that was live with
/// its name.
pub proof fn lemma_revivals_are_described(
    session: Seq<char>,
    other: Seq<char>,
    count: nat,
    other_count: nat,
) -> (words: (Seq<char>, Seq<char>, Seq<char>, Seq<char>, Seq<char>))
    ensures
        messages::revive_text(session, false, count) == words.0 + text::decimal(count) + words.1,
        messages::revive_text(other, false, other_count) == words.0 + text::decimal(other_count)
            + words.1,
        messages::revive_text(session, true, count) == words.2 + session + words.3 + session
            + words.4,
        messages::revive_text(other, true, other_count) == words.2 + other + words.3 + other
            + words.4,
{
    (
        "Session revived: "@,
        " pane(s) respawned with their original command and working directory. These are NEW processes — scrollback from before the restart is not carried forward."@,
        "'"@,
        "' is already live — nothing to revive. Use `tymux attach "@,
        "` instead."@,
    )
}

/// The close of a pane is told of only where its window closed with it: with the
/// session's name where that closed too, and with the number of windows left
/// where it did not.
pub proof fn lemma_closes_are_described(
    window: Seq<char>,
    other_window: Seq<char>,
    session: Seq<char>,
    other_session: Seq<char>,
    left: nat,
    other_left: nat,
) -> (words: (Seq<char>, Seq<char>, Seq<char>, Seq<char>, Seq<char>))
    requires
        window.len() > 0,
        other_window.len() > 0,
        session.len() > 0,
        other_session.len() > 0,
    ensures
        messages::close_pane_text(seq![], seq![], left) is None,
        messages::close_pane_text(window, seq![], left) == Some(
            words.0 + window + words.1 + text::decimal(left) + words.2,
        ),
        messages::close_pane_text(other_window, seq![], other_left) == Some(
            words.0 + other_window + words.1 + text::decimal(other_left) + words.2,
        ),
        messages::close_pane_text(window, session, left) == Some(
            words.0 + window + words.3 + session + words.4,
        ),
        messages::close_pane_text(other_window, other_session, other_left) == Some(
            words.0 + other_window + words.3 + other_session + words.4,
        ),
{
    (
        "Window "@,
        " closed (last pane exited). "@,
        " window(s) remain."@,
        " closed (last pane exited). '"@,
        "' closed (last window)."@,
    )
}

/// A window or a pane that a target names and that is not there is told of with
/// its number and with how many there are, one of them in the singular.
pub proof fn lemma_missing_places_are_described(
    session: Seq<char>,
    other: Seq<char>,
    window: nat,
    other_window: nat,
    pane: nat,
    other_pane: nat,
    count: nat,
    other_count: nat,
) -> (words: (Seq<char>, Seq<char>, Seq<char>, Seq<char>, Seq<char>, Seq<char>, Seq<char>, Seq<char>))
    ensures
        target::no_window_text(session, window, count) == words.0 + session + words.1
            + text::decimal(window) + words.2 + text::decimal(count) + words.3 + target::plural(
            count,
        ) + seq![')'],
        target::no_window_text(other, other_window, other_count) == words.0 + other + words.1
            + text::decimal(other_window) + words.2 + text::decimal(other_count) + words.3
            + target::plural(other_count) + seq![')'],
        target::no_such_pane_text(window, session, pane, count) == words.4 + text::decimal(window)
            + words.5 + session + words.6 + text::decimal(pane) + words.2 + text::decimal(count)
            + words.7 + target::plural(count) + seq![')'],
        target::no_such_pane_text(other_window, other, other_pane, other_count) == words.4
            + text::decimal(other_window) + words.5 + other + words.6 + text::decimal(other_pane)
            + words.2 + text::decimal(other_count) + words.7 + target::plural(other_count) + seq![
            ')',
        ],
{
    reveal_strlit(")");
    assert(")"@ =~= seq![')']);
    (
        "session '"@,
        "' has no window "@,
        " (it has "@,
        " window"@,
        "window "@,
        " of session '"@,
        "' has no pane "@,
        " pane"@,
    )
}

/// A session that is not running is told of with its name, twice: once in what is
/// the matter and once in the command that revives it.
pub proof fn lemma_what_does_not_run_is_named(session: Seq<char>, other: Seq<char>) -> (words: (
    Seq<char>,
    Seq<char>,
    Seq<char>,
))
    ensures
        target::not_running_text(session) == words.0 + session + words.1 + session + words.2,
        target::not_running_text(other) == words.0 + other + words.1 + other + words.2,
        words.1.skip(words.1.len() - 13) == seq![
            't',
            'y',
            'm',
            'u',
            'x',
            ' ',
            'r',
            'e',
            'v',
            'i',
            'v',
            'e',
            ' ',
        ],
{
    reveal_strlit("' is not running (restored from disk after a restart). Run 'tymux revive ");
    let middle = "' is not running (restored from disk after a restart). Run 'tymux revive "@;
    assert(middle.skip(middle.len() - 13) =~= seq![
        't',
        'y',
        'm',
        'u',
        'x',
        ' ',
        'r',
        'e',
        'v',
        'i',
        'v',
        'e',
        ' ',
    ]);
    ("Session '"@, middle, "' to respawn it, then attach again."@)
}

/// Copy mode's status line tells how far back the grid is, and tells a pane whose
/// process has exited from one that runs.
pub proof fn lemma_copy_mode_tells_how_far_back_it_is(offset: nat, other: nat) -> (words: (
    Seq<char>,
    Seq<char>,
    Seq<char>,
))
    ensures
        copy_mode::status_line(true, offset) == words.0 + text::decimal(offset) + words.2,
        copy_mode::status_line(true, other) == words.0 + text::decimal(other) + words.2,
        copy_mode::status_line(false, offset) == words.1 + text::decimal(offset) + words.2,
        copy_mode::status_line(false, other) == words.1 + text::decimal(other) + words.2,
        words.1.subrange(13, 21) == seq!['[', 'e', 'x', 'i', 't', 'e', 'd', ']'],
        !words.0.contains('['),
{
    reveal_strlit("-- COPY MODE -- offset ");
    reveal_strlit("-- COPY MODE [exited] -- offset ");
    assert("-- COPY MODE [exited] -- offset "@.subrange(13, 21) =~= seq![
        '[',
        'e',
        'x',
        'i',
        't',
        'e',
        'd',
        ']',
    ]);
    ("-- COPY MODE -- offset "@, "-- COPY MODE [exited] -- offset "@, " -- q/Escape to exit"@)
}

/// The engine passes a refused split on with what was said of it.
pub proof fn lemma_refused_splits_are_passed_on(error: LayoutError)
    ensures
        match error {
            LayoutError::PaneNotFound { pane_id } => engine::split_error(error)
                == EngineError::PaneNotFound(pane_id),
            _ => engine::split_error(error).text() == error.text(),
        },
        error matches LayoutError::BelowMinimumSize { rows, cols } ==> engine::split_error(error) == (
        EngineError::BelowMinimumSize { rows, cols }),
        error matches LayoutError::BelowRecommendedSize { rows } ==> engine::split_error(error) == (
        EngineError::BelowRecommendedSize { rows }),
{
}

/// Where TCP is used in place of the socket, the socket is named.
pub proof fn lemma_the_socket_is_named(path: Seq<char>, other: Seq<char>) -> (words: (
    Seq<char>,
    Seq<char>,
))
    ensures
        messages::fallback_notice(path) == words.0 + path + words.1,
        messages::fallback_notice(other) == words.0 + other + words.1,
{
    (
        "tymux: no reachable Unix socket at "@,
        " — falling back to TCP loopback (deprecated; make sure tymuxd is running)"@,
    )
}

} // verus!
