//! What targets mean, text by text, and where they lead.

use crate::target;
use crate::target::{Liveness, RemoteChild, RemotePane, RemoteSession, RemoteWindow};
use crate::text;
use vstd::prelude::*;

verus! {

/// Whether a text writes a number: decimal digits that stand for it, with a plus
/// sign before them or not.
pub open spec fn writes(text: Seq<char>, n: int) -> bool {
    exists|digits: Seq<char>|
        {
            &&& #[trigger] text::place_value(digits) == n
            &&& text == digits || text == seq!['+'] + digits
            &&& digits.len() > 0
            &&& forall|i: int| 0 <= i < digits.len() ==> '0' <= #[trigger] digits[i] <= '9'
        }
}

proof fn lemma_same_value(digits: Seq<char>)
    requires
        target::all_digits(digits),
    ensures
        target::digits_value(digits) == text::place_value(digits),
    decreases digits.len(),
{
    if digits.len() > 0 {
        let front = digits.drop_last();
        assert forall|i: int| 0 <= i < front.len() implies '0' <= #[trigger] front[i] <= '9' by {
            assert(front[i] == digits[i]);
        }
        lemma_same_value(front);
        text::lemma_place_value_push(front, digits.last());
        assert(front.push(digits.last()) =~= digits);
        assert('0' <= digits[digits.len() - 1] <= '9');
    }
}

/// A text is read as a number exactly if it writes one that fits, and it is read
/// as the number that it writes.
pub proof fn lemma_numbers_are_read_as_written(text: Seq<char>, n: int)
    ensures
        writes(text, n) && 0 <= n <= usize::MAX ==> target::number_of(text) == Some(n as usize),
        target::number_of(text) matches Some(number) ==> writes(text, number as int),
{
    let stripped = if text.len() > 0 && text[0] == '+' {
        text.skip(1)
    } else {
        text
    };
    if writes(text, n) && 0 <= n <= usize::MAX {
        let digits = choose|digits: Seq<char>|
            {
                &&& #[trigger] text::place_value(digits) == n
                &&& text == digits || text == seq!['+'] + digits
                &&& digits.len() > 0
                &&& forall|i: int| 0 <= i < digits.len() ==> '0' <= #[trigger] digits[i] <= '9'
            };
        assert('0' <= digits[0] <= '9');
        if text != digits {
            assert(text.skip(1) =~= digits);
        }
        assert(stripped == digits);
        lemma_same_value(digits);
    }
    if target::number_of(text) is Some {
        lemma_same_value(stripped);
        if stripped != text {
            assert(text =~= seq!['+'] + stripped);
        }
        assert(text::place_value(stripped) == target::number_of(text)->0);
    }
}

/// A target without a colon is a session's name, and names the first pane of the
/// first window.
pub proof fn lemma_target_of_a_session(name: Seq<char>)
    requires
        name.len() > 0,
        !name.contains(':'),
    ensures
        target::target_of(name) == Ok::<(Seq<char>, usize, usize), Seq<char>>(
            (name, 0usize, 0usize),
        ),
{
    lemma_not_there(name, ':');
    assert(name.take(name.len() as int) =~= name);
}

proof fn lemma_not_there(text: Seq<char>, c: char)
    requires
        !text.contains(c),
    ensures
        target::first_place(text, c) == text.len(),
    decreases text.len(),
{
    if text.len() > 0 {
        assert(text.contains(text[0]));
        let rest = text.drop_first();
        if rest.contains(c) {
            let i = choose|i: int| 0 <= i < rest.len() && rest[i] == c;
            assert(text[i + 1] == c);
        }
        lemma_not_there(rest, c);
    }
}

proof fn lemma_place_after(front: Seq<char>, c: char, back: Seq<char>)
    requires
        !front.contains(c),
    ensures
        target::first_place(front.push(c) + back, c) == front.len(),
    decreases front.len(),
{
    let text = front.push(c) + back;
    if front.len() > 0 {
        assert(front.contains(front[0]));
        let rest = front.drop_first();
        if rest.contains(c) {
            let i = choose|i: int| 0 <= i < rest.len() && rest[i] == c;
            assert(front[i + 1] == c);
        }
        lemma_place_after(rest, c, back);
        assert(text.drop_first() =~= rest.push(c) + back);
    }
}

/// A target that starts with a colon, and one that is empty, names no session.
pub proof fn lemma_target_without_a_session(rest: Seq<char>)
    ensures
        target::target_of(seq![]) == Err::<(Seq<char>, usize, usize), Seq<char>>(
            target::no_session_text(seq![]),
        ),
        target::target_of(seq![':'] + rest) == Err::<(Seq<char>, usize, usize), Seq<char>>(
            target::no_session_text(seq![':'] + rest),
        ),
{
    assert(target::first_place(seq![], ':') == 0);
    assert(target::first_place(seq![':'] + rest, ':') == 0);
}

/// A target that has a colon but no dot behind it lacks the pane.
pub proof fn lemma_target_without_a_pane(name: Seq<char>, window: Seq<char>)
    requires
        name.len() > 0,
        !name.contains(':'),
        !window.contains('.'),
    ensures
        target::target_of(name.push(':') + window) == Err::<(Seq<char>, usize, usize), Seq<char>>(
            target::no_pane_text(name.push(':') + window),
        ),
{
    let whole = name.push(':') + window;
    lemma_place_after(name, ':', window);
    assert(whole.take(name.len() as int) =~= name);
    assert(whole.skip(name.len() as int + 1) =~= window);
    lemma_not_there(window, '.');
}

/// A target that has a colon and a dot behind it names a window and a pane by
/// their numbers. Of the two, a window that is no number is reported first.
pub proof fn lemma_target_in_full(name: Seq<char>, window: Seq<char>, pane: Seq<char>)
    requires
        name.len() > 0,
        !name.contains(':'),
        !window.contains('.'),
    ensures
        ({
            let whole = name.push(':') + (window.push('.') + pane);
            target::target_of(whole) == match (target::number_of(window), target::number_of(pane)) {
                (None, _) => Err::<(Seq<char>, usize, usize), Seq<char>>(
                    target::bad_index_text(whole, window, "window"@),
                ),
                (_, None) => Err(target::bad_index_text(whole, pane, "pane"@)),
                (Some(w), Some(p)) => Ok((name, w, p)),
            }
        }),
{
    let rest = window.push('.') + pane;
    let whole = name.push(':') + rest;
    lemma_place_after(name, ':', rest);
    assert(whole.take(name.len() as int) =~= name);
    assert(whole.skip(name.len() as int + 1) =~= rest);
    lemma_place_after(window, '.', pane);
    assert(rest.take(window.len() as int) =~= window);
    assert(rest.skip(window.len() as int + 1) =~= pane);
}

/// What is said of a bad target repeats it between quotes, and says which part is
/// meant.
pub proof fn lemma_bad_targets_are_quoted(target: Seq<char>, part: Seq<char>, kind: Seq<char>) -> (rest:
    (Seq<char>, Seq<char>, Seq<char>))
    ensures
        target::no_session_text(target) == seq!['t', 'a', 'r', 'g', 'e', 't', ' ', '\''] + target
            + seq!['\''] + rest.0,
        target::no_pane_text(target) == seq!['t', 'a', 'r', 'g', 'e', 't', ' ', '\''] + target
            + seq!['\''] + rest.1,
        target::bad_index_text(target, part, kind) == seq![
            't',
            'a',
            'r',
            'g',
            'e',
            't',
            ' ',
            '\'',
        ] + target + seq!['\'', ':', ' ', '\''] + part + seq!['\''] + rest.2,
        rest.2.subrange(rest.2.len() - kind.len() - 6, rest.2.len() - 6) == kind,
        rest.2.len() >= kind.len() + 6,
{
    reveal_strlit("target '");
    reveal_strlit("' must name a session, e.g. 'myproject' or 'myproject:0.1'");
    reveal_strlit("' is missing '.pane' after the window (expected session:window.pane)");
    reveal_strlit("': '");
    reveal_strlit("' is not a valid ");
    reveal_strlit(" index");
    let session_rest = "' must name a session, e.g. 'myproject' or 'myproject:0.1'"@.skip(1);
    let pane_rest =
        "' is missing '.pane' after the window (expected session:window.pane)"@.skip(1);
    let index_rest = "' is not a valid "@.skip(1) + kind + " index"@;
    assert(target::no_session_text(target) =~= seq!['t', 'a', 'r', 'g', 'e', 't', ' ', '\'']
        + target + seq!['\''] + session_rest);
    assert(target::no_pane_text(target) =~= seq!['t', 'a', 'r', 'g', 'e', 't', ' ', '\''] + target
        + seq!['\''] + pane_rest);
    assert(target::bad_index_text(target, part, kind) =~= seq![
        't',
        'a',
        'r',
        'g',
        'e',
        't',
        ' ',
        '\'',
    ] + target + seq!['\'', ':', ' ', '\''] + part + seq!['\''] + index_rest);
    assert(index_rest.subrange(index_rest.len() - kind.len() - 6, index_rest.len() - 6) =~= kind);
    (session_rest, pane_rest, index_rest)
}

/// Only one of a thing is spoken of in the singular.
pub proof fn lemma_one_is_singular(count: nat)
    ensures
        target::plural(count) == if count == 1 {
            Seq::<char>::empty()
        } else {
            seq!['s']
        },
{
    reveal_strlit("");
    reveal_strlit("s");
    assert(""@ =~= Seq::<char>::empty());
    assert("s"@ =~= seq!['s']);
}

/// The session found under a name is the first that has it, and none is found
/// only where none has it.
pub proof fn lemma_first_session_of_the_name(sessions: Seq<RemoteSession>, name: Seq<char>)
    ensures
        ({
            let place = target::session_place(sessions, name);
            &&& 0 <= place <= sessions.len()
            &&& place < sessions.len() ==> sessions[place].name@ == name
            &&& forall|i: int| 0 <= i < place ==> (#[trigger] sessions[i]).name@ != name
        }),
    decreases sessions.len(),
{
    if sessions.len() > 0 && sessions[0].name@ != name {
        let rest = sessions.drop_first();
        lemma_first_session_of_the_name(rest, name);
        assert forall|i: int| 0 <= i < target::session_place(sessions, name) implies (
        #[trigger] sessions[i]).name@ != name by {
            if i > 0 {
                assert(rest[i - 1] == sessions[i]);
            }
        }
    }
}

/// The window found for a pane is the first that has it, and none is found only
/// where none has it.
pub proof fn lemma_first_window_of_the_pane(windows: Seq<RemoteWindow>, pane_id: Seq<char>)
    ensures
        ({
            let place = target::window_place(windows, pane_id);
            &&& 0 <= place <= windows.len()
            &&& place < windows.len() ==> exists|j: int|
                0 <= j < windows[place].panes().len() && (#[trigger] windows[place].panes()[j]).id@
                    == pane_id
            &&& forall|i: int, j: int|
                #![trigger windows[i].panes()[j]]
                0 <= i < place && 0 <= j < windows[i].panes().len() ==> windows[i].panes()[j].id@
                    != pane_id
        }),
    decreases windows.len(),
{
    if windows.len() > 0 {
        if target::has_pane(windows[0].panes(), pane_id) {
        } else {
            let rest = windows.drop_first();
            lemma_first_window_of_the_pane(rest, pane_id);
            let place = target::window_place(windows, pane_id);
            if place < windows.len() {
                assert(rest[place - 1] == windows[place]);
                let j = choose|j: int|
                    0 <= j < rest[place - 1].panes().len() && (#[trigger] rest[place
                        - 1].panes()[j]).id@ == pane_id;
                assert(windows[place].panes()[j].id@ == pane_id);
            }
            assert forall|i: int, j: int|
                #![trigger windows[i].panes()[j]]
                0 <= i < place && 0 <= j < windows[i].panes().len() implies windows[i].panes()[j].id@
                != pane_id by {
                if i > 0 {
                    assert(rest[i - 1] == windows[i]);
                    assert(rest[i - 1].panes()[j].id@ != pane_id);
                }
            }
        }
    }
}

/// From a pane one gets to the first pane of the next window, and from the last
/// window to that of the first; backwards it is the other way round.
pub proof fn lemma_where_next_leads(windows: Seq<RemoteWindow>, pane_id: Seq<char>)
    requires
        windows.len() >= 2,
        target::window_place(windows, pane_id) < windows.len(),
    ensures
        ({
            let place = target::window_place(windows, pane_id);
            let last = windows.len() - 1;
            let next = if place == last {
                windows[0]
            } else {
                windows[place + 1]
            };
            let previous = if place == 0 {
                windows[last]
            } else {
                windows[place - 1]
            };
            &&& next.panes().len() > 0 ==> target::adjacent_pane(windows, pane_id, true) == Some(
                next.panes()[0].id@,
            )
            &&& next.panes().len() == 0 ==> target::adjacent_pane(windows, pane_id, true) is None
            &&& previous.panes().len() > 0 ==> target::adjacent_pane(windows, pane_id, false)
                == Some(previous.panes()[0].id@)
            &&& previous.panes().len() == 0 ==> target::adjacent_pane(windows, pane_id, false) is None
        }),
{
    lemma_first_window_of_the_pane(windows, pane_id);
    target::lemma_going_round(target::window_place(windows, pane_id), windows.len() as int);
}

/// There is nowhere to go from the only window, nor from a pane that no window
/// has.
pub proof fn lemma_nowhere_to_go(windows: Seq<RemoteWindow>, pane_id: Seq<char>, forward: bool)
    requires
        windows.len() < 2 || forall|i: int, j: int|
            #![trigger windows[i].panes()[j]]
            0 <= i < windows.len() && 0 <= j < windows[i].panes().len()
                ==> windows[i].panes()[j].id@ != pane_id,
    ensures
        target::adjacent_pane(windows, pane_id, forward) is None,
{
    lemma_first_window_of_the_pane(windows, pane_id);
    let place = target::window_place(windows, pane_id);
    if windows.len() >= 2 && place < windows.len() {
        let j = choose|j: int|
            0 <= j < windows[place].panes().len() && (#[trigger] windows[place].panes()[j]).id@
                == pane_id;
        assert(windows[place].panes()[j].id@ != pane_id);
    }
}

/// The panes of a row of children are those of the first of them, then those of
/// the rest.
pub proof fn lemma_panes_are_listed_in_order(front: Seq<RemoteChild>, back: Seq<RemoteChild>)
    ensures
        target::child_panes(front + back) == target::child_panes(front) + target::child_panes(back),
    decreases back.len(),
{
    let all = front + back;
    if back.len() == 0 {
        assert(all =~= front);
        assert(target::child_panes(back) =~= seq![]);
        assert(target::child_panes(front) + target::child_panes(back) =~= target::child_panes(front));
    } else {
        assert(all.drop_last() =~= front + back.drop_last());
        assert(all.last() == back.last());
        lemma_panes_are_listed_in_order(front, back.drop_last());
        assert(target::child_panes(all) =~= target::child_panes(front) + target::child_panes(back));
    }
}

/// A child's panes are those of its layout, and it has none if it has no layout.
pub proof fn lemma_panes_of_one_child(child: RemoteChild)
    ensures
        child.layout is None ==> target::child_panes(seq![child]).len() == 0,
        child.layout matches Some(layout) ==> target::child_panes(seq![child]) == layout.panes(),
{
    let one = seq![child];
    assert(one.drop_last() =~= seq![]);
    assert(target::child_panes(one.drop_last()) =~= seq![]);
    if let Some(layout) = child.layout {
        assert(target::child_panes(one) =~= layout.panes());
    }
}

/// A pane's full name leads to the pane: to the one at that place of the window at that
/// place.
pub proof fn lemma_full_names_lead_to_their_panes(
    windows: Seq<RemoteWindow>,
    session: Seq<char>,
    window: usize,
    pane: usize,
)
    requires
        session.len() > 0,
        !session.contains(':'),
        window < windows.len(),
        pane < windows[window as int].panes().len(),
    ensures
        ({
            let read = target::target_of(
                target::full_name(session, window as nat, pane as nat),
            );
            &&& read matches Ok(named)
            &&& named.0 == session
            &&& target::place_in(windows, named.0, named.1 as nat, named.2 as nat) == Ok::<
                RemotePane,
                Seq<char>,
            >(windows[window as int].panes()[pane as int])
        }),
{
    target::lemma_full_name_is_read_back(session, window, pane);
}

/// A session's name alone leads to the pane that one gets by creating the session: the
/// first of the first window, if there is one.
pub proof fn lemma_a_session_leads_to_its_first_pane(windows: Seq<RemoteWindow>, session: Seq<char>)
    requires
        session.len() > 0,
        !session.contains(':'),
    ensures
        ({
            let read = target::target_of(session);
            &&& read matches Ok(named)
            &&& match target::place_in(windows, named.0, named.1 as nat, named.2 as nat) {
                Ok(pane) => target::first_pane(windows) == Some(pane.id@) && windows[0].panes()[0]
                    == pane,
                Err(_) => target::first_pane(windows) is None,
            }
        }),
{
    lemma_target_of_a_session(session);
}

/// A place that is not there leads nowhere, and of the two it is the window that is
/// missed first.
pub proof fn lemma_places_that_are_not_there(
    windows: Seq<RemoteWindow>,
    session: Seq<char>,
    window: nat,
    pane: nat,
)
    ensures
        window >= windows.len() ==> target::place_in(windows, session, window, pane) == Err::<
            RemotePane,
            Seq<char>,
        >(target::no_window_text(session, window, windows.len())),
        window < windows.len() && pane >= windows[window as int].panes().len()
            ==> target::place_in(windows, session, window, pane) == Err::<RemotePane, Seq<char>>(
            target::no_such_pane_text(
                window,
                session,
                pane,
                windows[window as int].panes().len(),
            ),
        ),
{
}

/// A session is listed by its name, with the same behind it for all that run, and the same
/// for all that do not.
pub proof fn lemma_sessions_are_listed_by_name(name: Seq<char>, other: Seq<char>) -> (marks: (
    Seq<char>,
    Seq<char>,
))
    ensures
        target::listed(name, Liveness::Live) == name + marks.0,
        target::listed(other, Liveness::Live) == other + marks.0,
        target::listed(name, Liveness::Dead) == name + marks.1,
        target::listed(other, Liveness::Dead) == other + marks.1,
        marks.0 == seq![' ', '[', 'l', 'i', 'v', 'e', ']'],
        marks.1.take(10) == seq![' ', '[', 'r', 'e', 's', 't', 'o', 'r', 'e', 'd'],
{
    reveal_strlit(" [live]");
    reveal_strlit(" [restored — not running]");
    assert(" [live]"@ =~= seq![' ', '[', 'l', 'i', 'v', 'e', ']']);
    assert(" [restored — not running]"@.take(10) =~= seq![
        ' ',
        '[',
        'r',
        'e',
        's',
        't',
        'o',
        'r',
        'e',
        'd',
    ]);
    (" [live]"@, " [restored — not running]"@)
}

/// A pane can be attached to exactly if it is live, whatever its session is called. Where
/// it is not, the session is named.
pub proof fn lemma_only_live_panes_are_attached_to(liveness: Liveness, session: Seq<char>)
    ensures
        target::attach_refusal(liveness, session) is None <==> liveness == Liveness::Live,
        liveness == Liveness::Dead ==> target::attach_refusal(liveness, session) == Some(
            target::not_running_text(session),
        ),
{
}

} // verus!
