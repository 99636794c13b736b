//! What a client is told of the sessions, and how it names a pane.

use crate::layout::Orientation;
use crate::ratio::Ratio;
use crate::text;
use crate::text::{chars_of, push_decimal, same_text, text_of};
use vstd::prelude::*;
use vstd::slice::slice_subrange;

verus! {

/// Whether a session or pane runs, or is left over from before a restart.
#[derive(Debug, Clone, Copy, PartialEq, Eq, Structural)]
pub enum Liveness {
    Live,
    Dead,
}

/// A pane, as the daemon describes it.
#[derive(Debug, PartialEq)]
pub struct RemotePane {
    pub id: String,
    pub rows: u32,
    pub cols: u32,
    pub liveness: Liveness,
    pub cwd: String,
}

/// A window's layout, as the daemon describes it.
#[derive(Debug, PartialEq)]
pub enum RemoteLayout {
    Pane(RemotePane),
    Split { orientation: Orientation, children: Vec<RemoteChild> },
}

/// A child of a split. A child without a layout has no panes.
#[derive(Debug, PartialEq)]
pub struct RemoteChild {
    pub layout: Option<RemoteLayout>,
    pub ratio: Ratio,
}

/// A window, as the daemon describes it.
#[derive(Debug, PartialEq)]
pub struct RemoteWindow {
    pub id: String,
    pub name: String,
    pub layout: Option<RemoteLayout>,
}

/// A session, as the daemon describes it.
#[derive(Debug, PartialEq)]
pub struct RemoteSession {
    pub id: String,
    pub name: String,
    pub windows: Vec<RemoteWindow>,
    pub liveness: Liveness,
}

impl RemoteLayout {
    /// The panes, in order.
    pub open spec fn panes(self) -> Seq<RemotePane>
        decreases self,
    {
        match self {
            RemoteLayout::Pane(pane) => seq![pane],
            RemoteLayout::Split { children, .. } => child_panes(children@),
        }
    }
}

/// The panes of a row of children, in order.
pub open spec fn child_panes(children: Seq<RemoteChild>) -> Seq<RemotePane>
    decreases children,
{
    if children.len() == 0 {
        seq![]
    } else {
        child_panes(children.drop_last()) + match children.last().layout {
            Some(layout) => layout.panes(),
            None => seq![],
        }
    }
}

impl RemoteWindow {
    /// The panes, in order.
    pub open spec fn panes(self) -> Seq<RemotePane> {
        match self.layout {
            Some(layout) => layout.panes(),
            None => seq![],
        }
    }
}

#[verifier::loop_isolation(false)]
fn collect_panes<'a>(layout: &'a RemoteLayout, out: &mut Vec<&'a RemotePane>)
    ensures
        final(out)@.unref() == old(out)@.unref() + layout.panes(),
    decreases layout,
{
    match layout {
        RemoteLayout::Pane(pane) => {
            out.push(pane);
            assert(out@.unref() =~= old(out)@.unref() + layout.panes());
        },
        RemoteLayout::Split { children, .. } => {
            let mut i: usize = 0;
            assert(children@.take(0) =~= seq![]);
            assert(out@.unref() =~= old(out)@.unref() + child_panes(children@.take(0)));
            while i < children.len()
                invariant
                    i <= children.len(),
                    out@.unref() == old(out)@.unref() + child_panes(children@.take(i as int)),
                decreases children.len() - i,
            {
                assert(children@.take(i + 1).drop_last() =~= children@.take(i as int));
                assert(children@.take(i + 1).last() == children@[i as int]);
                if let Some(inner) = &children[i].layout {
                    collect_panes(inner, out);
                }
                assert(out@.unref() =~= old(out)@.unref() + child_panes(children@.take(i + 1)));
                i = i + 1;
            }
            assert(children@.take(i as int) =~= children@);
        },
    }
}

/// The panes of a window, in order. A target's pane number counts along them.
pub fn flatten_panes<'a>(window: &'a RemoteWindow) -> (panes: Vec<&'a RemotePane>)
    ensures
        panes@.unref() == window.panes(),
{
    let mut panes: Vec<&RemotePane> = Vec::new();
    assert(panes@.unref() =~= seq![]);
    if let Some(layout) = &window.layout {
        collect_panes(layout, &mut panes);
        assert(seq![] + layout.panes() =~= layout.panes());
    }
    panes
}

/// The place of the first `c`, or the end.
pub open spec fn first_place(text: Seq<char>, c: char) -> int
    decreases text.len(),
{
    if text.len() == 0 {
        0
    } else if text[0] == c {
        0
    } else {
        1 + first_place(text.drop_first(), c)
    }
}

fn find_char(chars: &[char], c: char) -> (place: usize)
    ensures
        place == first_place(chars@, c),
        place <= chars@.len(),
        place < chars@.len() ==> chars@[place as int] == c,
{
    let mut i: usize = 0;
    assert(chars@.skip(0) =~= chars@);
    while i < chars.len()
        invariant
            i <= chars.len(),
            first_place(chars@, c) == i + first_place(chars@.skip(i as int), c),
        decreases chars.len() - i,
    {
        assert(chars@.skip(i as int).drop_first() =~= chars@.skip(i + 1));
        assert(chars@.skip(i as int)[0] == chars@[i as int]);
        if chars[i] == c {
            return i;
        }
        i = i + 1;
    }
    i
}

/// Whether a text is made of decimal digits.
pub open spec fn all_digits(text: Seq<char>) -> bool {
    forall|i: int| 0 <= i < text.len() ==> '0' <= #[trigger] text[i] <= '9'
}

/// The number that a row of decimal digits writes.
pub open spec fn digits_value(text: Seq<char>) -> nat
    decreases text.len(),
{
    if text.len() == 0 {
        0
    } else {
        (digits_value(text.drop_last()) * 10 + (text.last() as u32 - 48)) as nat
    }
}

/// The number that a text writes: decimal digits, with a plus sign before them
/// or not, of a number that fits.
pub open spec fn number_of(text: Seq<char>) -> Option<usize> {
    let digits = if text.len() > 0 && text[0] == '+' {
        text.skip(1)
    } else {
        text
    };
    if digits.len() > 0 && all_digits(digits) && digits_value(digits) <= usize::MAX {
        Some(digits_value(digits) as usize)
    } else {
        None
    }
}

proof fn lemma_digits_grow(text: Seq<char>, count: int)
    requires
        0 <= count <= text.len(),
        all_digits(text),
    ensures
        digits_value(text.take(count)) <= digits_value(text),
    decreases text.len() - count,
{
    if count == text.len() {
        assert(text.take(count) =~= text);
    } else {
        lemma_digits_grow(text, count + 1);
        assert(text.take(count + 1).drop_last() =~= text.take(count));
        assert(text.take(count + 1).last() == text[count]);
    }
}

fn parse_number(chars: &[char]) -> (number: Option<usize>)
    ensures
        number == number_of(chars@),
{
    let start: usize = if chars.len() > 0 && chars[0] == '+' { 1 } else { 0 };
    let ghost digits = chars@.skip(start as int);
    assert(start == 0 ==> digits =~= chars@);
    if start == chars.len() {
        return None;
    }
    let mut value: usize = 0;
    let mut i: usize = start;
    assert(digits.take(0) =~= seq![]);
    while i < chars.len()
        invariant
            start <= i <= chars.len(),
            digits == chars@.skip(start as int),
            digits == if chars@.len() > 0 && chars@[0] == '+' {
                chars@.skip(1)
            } else {
                chars@
            },
            all_digits(digits.take(i - start)),
            value == digits_value(digits.take(i - start)),
        decreases chars.len() - i,
    {
        let c: char = chars[i];
        let ghost next = digits.take(i + 1 - start);
        proof {
            assert(next.drop_last() =~= digits.take(i - start));
            assert(next.last() == c);
            assert(digits[i - start] == c);
        }
        if !('0' <= c && c <= '9') {
            return None;
        }
        let digit: usize = (c as u32 - 48) as usize;
        assert(all_digits(next)) by {
            assert forall|k: int| 0 <= k < next.len() implies '0' <= #[trigger] next[k] <= '9' by {
                if k < i - start {
                    assert(next[k] == digits.take(i - start)[k]);
                }
            }
        }
        match value.checked_mul(10) {
            None => {
                proof {
                    if all_digits(digits) {
                        lemma_digits_grow(digits, i + 1 - start);
                    }
                }
                return None;
            },
            Some(tens) => match tens.checked_add(digit) {
                None => {
                    proof {
                        if all_digits(digits) {
                            lemma_digits_grow(digits, i + 1 - start);
                        }
                    }
                    return None;
                },
                Some(sum) => {
                    value = sum;
                },
            },
        }
        i = i + 1;
    }
    assert(digits.take(i - start) =~= digits);
    Some(value)
}

/// A pane named by its session, its window and its place in the window.
#[derive(Debug, PartialEq)]
pub struct TargetString {
    pub session: String,
    pub window_index: usize,
    pub pane_index: usize,
}

/// What is wrong with a target that names no session.
pub open spec fn no_session_text(target: Seq<char>) -> Seq<char> {
    "target '"@ + target + "' must name a session, e.g. 'myproject' or 'myproject:0.1'"@
}

/// What is wrong with a target that names a window but no pane.
pub open spec fn no_pane_text(target: Seq<char>) -> Seq<char> {
    "target '"@ + target
        + "' is missing '.pane' after the window (expected session:window.pane)"@
}

/// What is wrong with a target whose window or pane is no number.
pub open spec fn bad_index_text(
    target: Seq<char>,
    part: Seq<char>,
    kind: Seq<char>,
) -> Seq<char> {
    "target '"@ + target + "': '"@ + part + "' is not a valid "@ + kind + " index"@
}

/// What a target says: the session, the window's number and the pane's, both
/// nought where only the session is named; or what is wrong with it.
pub open spec fn target_of(target: Seq<char>) -> Result<(Seq<char>, usize, usize), Seq<char>> {
    let colon = first_place(target, ':');
    let session = target.take(colon);
    if session.len() == 0 {
        Err(no_session_text(target))
    } else if colon == target.len() {
        Ok((session, 0usize, 0usize))
    } else {
        let rest = target.skip(colon + 1);
        let dot = first_place(rest, '.');
        let window = rest.take(dot);
        let pane = rest.skip(dot + 1);
        if dot == rest.len() {
            Err(no_pane_text(target))
        } else if number_of(window) is None {
            Err(bad_index_text(target, window, "window"@))
        } else if number_of(pane) is None {
            Err(bad_index_text(target, pane, "pane"@))
        } else {
            Ok((session, number_of(window)->0, number_of(pane)->0))
        }
    }
}

fn bad_index_message(target: &str, part: &[char], kind: &str) -> (message: String)
    ensures
        message@ == bad_index_text(target@, part@, kind@),
{
    let mut message: String = "target '".to_owned();
    message.append(target);
    message.append("': '");
    message.append(text_of(part).as_str());
    message.append("' is not a valid ");
    message.append(kind);
    message.append(" index");
    message
}

impl TargetString {
    /// Reads `session` or `session:window.pane`.
    pub fn parse(target: &str) -> (result: Result<Self, String>)
        ensures
            match target_of(target@) {
                Ok((session, window_index, pane_index)) => {
                    &&& result matches Ok(parsed)
                    &&& parsed.session@ == session
                    &&& parsed.window_index == window_index
                    &&& parsed.pane_index == pane_index
                },
                Err(message) => result matches Err(text) && text@ == message,
            },
    {
        let chars = chars_of(target);
        let colon: usize = find_char(chars.as_slice(), ':');
        let session: &[char] = slice_subrange(chars.as_slice(), 0, colon);
        assert(session@ =~= target@.take(colon as int));
        if colon == 0 {
            let mut message: String = "target '".to_owned();
            message.append(target);
            message.append("' must name a session, e.g. 'myproject' or 'myproject:0.1'");
            return Err(message);
        }
        if colon == chars.len() {
            return Ok(
                TargetString { session: text_of(session), window_index: 0, pane_index: 0 },
            );
        }
        let rest: &[char] = slice_subrange(chars.as_slice(), colon + 1, chars.len());
        assert(rest@ =~= target@.skip(colon + 1));
        let dot: usize = find_char(rest, '.');
        if dot == rest.len() {
            let mut message: String = "target '".to_owned();
            message.append(target);
            message.append("' is missing '.pane' after the window (expected session:window.pane)");
            return Err(message);
        }
        let window: &[char] = slice_subrange(rest, 0, dot);
        let pane: &[char] = slice_subrange(rest, dot + 1, rest.len());
        assert(window@ =~= rest@.take(dot as int));
        assert(pane@ =~= rest@.skip(dot + 1));
        let window_index: usize = match parse_number(window) {
            Some(number) => number,
            None => {
                return Err(bad_index_message(target, window, "window"));
            },
        };
        let pane_index: usize = match parse_number(pane) {
            Some(number) => number,
            None => {
                return Err(bad_index_message(target, pane, "pane"));
            },
        };
        Ok(TargetString { session: text_of(session), window_index, pane_index })
    }
}

/// The ending of a plural.
pub open spec fn plural(count: nat) -> Seq<char> {
    if count == 1 {
        ""@
    } else {
        "s"@
    }
}

/// What to tell where a session has no such window.
pub open spec fn no_window_text(session: Seq<char>, index: nat, count: nat) -> Seq<char> {
    "session '"@ + session + "' has no window "@ + text::decimal(index) + " (it has "@
        + text::decimal(count) + " window"@ + plural(count) + ")"@
}

/// What to tell where a window has no such pane.
pub open spec fn no_such_pane_text(
    window: nat,
    session: Seq<char>,
    index: nat,
    count: nat,
) -> Seq<char> {
    "window "@ + text::decimal(window) + " of session '"@ + session + "' has no pane "@
        + text::decimal(index) + " (it has "@ + text::decimal(count) + " pane"@ + plural(count)
        + ")"@
}

/// The pane that stands at a place, or what to tell where there is none.
pub open spec fn place_in(
    windows: Seq<RemoteWindow>,
    session: Seq<char>,
    window: nat,
    pane: nat,
) -> Result<RemotePane, Seq<char>> {
    let panes = windows[window as int].panes();
    if window >= windows.len() {
        Err(no_window_text(session, window, windows.len()))
    } else if pane >= panes.len() {
        Err(no_such_pane_text(window, session, pane, panes.len()))
    } else {
        Ok(panes[pane as int])
    }
}

/// The identifier of the first pane of the first window, if there is one.
pub open spec fn first_pane(windows: Seq<RemoteWindow>) -> Option<Seq<char>> {
    if windows.len() == 0 || windows[0].panes().len() == 0 {
        None
    } else {
        Some(windows[0].panes()[0].id@)
    }
}

fn push_plural(message: &mut String, count: usize)
    ensures
        final(message)@ == old(message)@ + plural(count as nat),
{
    if count != 1 {
        message.append("s");
    } else {
        proof {
            reveal_strlit("");
        }
        assert(message@ =~= old(message)@ + plural(count as nat));
    }
}

impl TargetString {
    /// The pane that the target names in a session, or what is not there.
    pub fn resolve<'a>(&self, session: &'a RemoteSession) -> (result: Result<
        &'a RemotePane,
        String,
    >)
        ensures
            ({
                let windows = session.windows@;
                let panes = windows[self.window_index as int].panes();
                if self.window_index >= windows.len() {
                    result matches Err(message) && message@ == no_window_text(
                        self.session@,
                        self.window_index as nat,
                        windows.len(),
                    )
                } else if self.pane_index >= panes.len() {
                    result matches Err(message) && message@ == no_such_pane_text(
                        self.window_index as nat,
                        self.session@,
                        self.pane_index as nat,
                        panes.len(),
                    )
                } else {
                    result matches Ok(pane) && *pane == panes[self.pane_index as int]
                }
            }),
            match result {
                Ok(pane) => place_in(
                    session.windows@,
                    self.session@,
                    self.window_index as nat,
                    self.pane_index as nat,
                ) == Ok::<RemotePane, Seq<char>>(*pane),
                Err(message) => place_in(
                    session.windows@,
                    self.session@,
                    self.window_index as nat,
                    self.pane_index as nat,
                ) == Err::<RemotePane, Seq<char>>(message@),
            },
    {
        if self.window_index >= session.windows.len() {
            let mut message: String = "session '".to_owned();
            message.append(self.session.as_str());
            message.append("' has no window ");
            push_decimal(&mut message, self.window_index as u64);
            message.append(" (it has ");
            push_decimal(&mut message, session.windows.len() as u64);
            message.append(" window");
            push_plural(&mut message, session.windows.len());
            message.append(")");
            return Err(message);
        }
        let panes = flatten_panes(&session.windows[self.window_index]);
        assert(panes@.len() == panes@.unref().len());
        if self.pane_index >= panes.len() {
            let mut message: String = "window ".to_owned();
            push_decimal(&mut message, self.window_index as u64);
            message.append(" of session '");
            message.append(self.session.as_str());
            message.append("' has no pane ");
            push_decimal(&mut message, self.pane_index as u64);
            message.append(" (it has ");
            push_decimal(&mut message, panes.len() as u64);
            message.append(" pane");
            push_plural(&mut message, panes.len());
            message.append(")");
            return Err(message);
        }
        assert(panes@.unref()[self.pane_index as int] == *panes@[self.pane_index as int]);
        Ok(panes[self.pane_index])
    }
}

/// The first pane of a session that has just been created, or what is not
/// there.
pub fn first_pane_id(session: &RemoteSession) -> (result: Result<String, String>)
    ensures
        ({
            let windows = session.windows@;
            if windows.len() == 0 {
                result matches Err(message) && message@ == "session "@ + session.id@
                    + " has no windows"@
            } else if windows[0].panes().len() == 0 {
                result matches Err(message) && message@ == "window "@ + windows[0].id@
                    + " has no panes"@
            } else {
                result matches Ok(id) && id@ == windows[0].panes()[0].id@
            }
        }),
        match result {
            Ok(id) => first_pane(session.windows@) == Some(id@),
            Err(_) => first_pane(session.windows@) is None,
        },
{
    if session.windows.len() == 0 {
        let mut message: String = "session ".to_owned();
        message.append(session.id.as_str());
        message.append(" has no windows");
        return Err(message);
    }
    let panes = flatten_panes(&session.windows[0]);
    assert(panes@.len() == panes@.unref().len());
    if panes.len() == 0 {
        let mut message: String = "window ".to_owned();
        message.append(session.windows[0].id.as_str());
        message.append(" has no panes");
        return Err(message);
    }
    assert(panes@.unref()[0] == *panes@[0]);
    Ok(panes[0].id.clone())
}

/// The place of the first session of this name, or the end.
pub open spec fn session_place(sessions: Seq<RemoteSession>, name: Seq<char>) -> int
    decreases sessions.len(),
{
    if sessions.len() == 0 {
        0
    } else if sessions[0].name@ == name {
        0
    } else {
        1 + session_place(sessions.drop_first(), name)
    }
}

/// The first session of this name, or what to tell where there is none.
pub fn find_session<'a>(sessions: &'a Vec<RemoteSession>, name: &str) -> (result: Result<
    &'a RemoteSession,
    String,
>)
    ensures
        ({
            let place = session_place(sessions@, name@);
            if place < sessions@.len() {
                result matches Ok(session) && *session == sessions@[place] && session.name@ == name@
            } else {
                result matches Err(message) && message@ == "no such session: "@ + name@
            }
        }),
{
    let mut i: usize = 0;
    assert(sessions@.skip(0) =~= sessions@);
    while i < sessions.len()
        invariant
            i <= sessions.len(),
            session_place(sessions@, name@) == i + session_place(
                sessions@.skip(i as int),
                name@,
            ),
        decreases sessions.len() - i,
    {
        assert(sessions@.skip(i as int).drop_first() =~= sessions@.skip(i + 1));
        assert(sessions@.skip(i as int)[0] == sessions@[i as int]);
        if same_text(sessions[i].name.as_str(), name) {
            return Ok(&sessions[i]);
        }
        i = i + 1;
    }
    let mut message: String = "no such session: ".to_owned();
    message.append(name);
    Err(message)
}

/// Whether one of the panes has this identifier.
pub open spec fn has_pane(panes: Seq<RemotePane>, pane_id: Seq<char>) -> bool {
    exists|i: int| 0 <= i < panes.len() && (#[trigger] panes[i]).id@ == pane_id
}

/// The place of the first window that holds the pane, or the end.
pub open spec fn window_place(windows: Seq<RemoteWindow>, pane_id: Seq<char>) -> int
    decreases windows.len(),
{
    if windows.len() == 0 {
        0
    } else if has_pane(windows[0].panes(), pane_id) {
        0
    } else {
        1 + window_place(windows.drop_first(), pane_id)
    }
}

/// The window after another, or before it, going round.
pub open spec fn neighbour(index: int, count: int, forward: bool) -> int {
    if forward {
        (index + 1) % count
    } else {
        (index + count - 1) % count
    }
}

/// The pane to go to from a pane: the first one of the window after its own, or
/// before it, going round. There is none where the session has only one window,
/// does not hold the pane, or the other window has no panes.
pub open spec fn adjacent_pane(
    windows: Seq<RemoteWindow>,
    pane_id: Seq<char>,
    forward: bool,
) -> Option<Seq<char>> {
    let place = window_place(windows, pane_id);
    if windows.len() < 2 || place >= windows.len() {
        None
    } else {
        let panes = windows[neighbour(place, windows.len() as int, forward)].panes();
        if panes.len() == 0 {
            None
        } else {
            Some(panes[0].id@)
        }
    }
}

fn holds_pane(window: &RemoteWindow, pane_id: &str) -> (yes: bool)
    ensures
        yes == has_pane(window.panes(), pane_id@),
{
    let panes = flatten_panes(window);
    let ghost all = window.panes();
    let mut i: usize = 0;
    while i < panes.len()
        invariant
            i <= panes.len(),
            all == window.panes(),
            panes@.unref() == all,
            forall|j: int| 0 <= j < i ==> (#[trigger] all[j]).id@ != pane_id@,
        decreases panes.len() - i,
    {
        assert(panes@.unref()[i as int] == *panes@[i as int]);
        if same_text(panes[i].id.as_str(), pane_id) {
            assert(all[i as int].id@ == pane_id@);
            return true;
        }
        i = i + 1;
    }
    assert(panes@.len() == panes@.unref().len());
    false
}

/// The pane to go to from a pane of a session.
pub fn adjacent_window_pane(session: &RemoteSession, pane_id: &str, forward: bool) -> (next: Option<
    String,
>)
    ensures
        match next {
            Some(id) => adjacent_pane(session.windows@, pane_id@, forward) == Some(id@),
            None => adjacent_pane(session.windows@, pane_id@, forward) is None,
        },
{
    let count: usize = session.windows.len();
    if count < 2 {
        return None;
    }
    let ghost windows = session.windows@;
    let mut i: usize = 0;
    assert(windows.skip(0) =~= windows);
    while i < count
        invariant
            i <= count,
            windows == session.windows@,
            count == session.windows.len(),
            count >= 2,
            window_place(windows, pane_id@) == i + window_place(
                windows.skip(i as int),
                pane_id@,
            ),
        decreases count - i,
    {
        assert(windows.skip(i as int).drop_first() =~= windows.skip(i + 1));
        assert(windows.skip(i as int)[0] == windows[i as int]);
        if holds_pane(&session.windows[i], pane_id) {
            let next: usize = if forward {
                if i + 1 == count { 0 } else { i + 1 }
            } else if i == 0 {
                count - 1
            } else {
                i - 1
            };
            proof {
                lemma_going_round(i as int, count as int);
            }
            let panes = flatten_panes(&session.windows[next]);
            assert(panes@.len() == panes@.unref().len());
            if panes.len() == 0 {
                return None;
            }
            assert(panes@.unref()[0] == *panes@[0]);
            return Some(panes[0].id.clone());
        }
        i = i + 1;
    }
    None
}

/// The window after the last one is the first, and the one before the first is
/// the last.
pub proof fn lemma_going_round(index: int, count: int)
    requires
        0 <= index < count,
        count >= 2,
    ensures
        neighbour(index, count, true) == if index + 1 == count {
            0
        } else {
            index + 1
        },
        neighbour(index, count, false) == if index == 0 {
            count - 1
        } else {
            index - 1
        },
{
    if index + 1 == count {
        assert(count % count == 0) by {
            vstd::arithmetic::div_mod::lemma_mod_self_0(count);
        }
    } else {
        vstd::arithmetic::div_mod::lemma_small_mod((index + 1) as nat, count as nat);
    }
    if index == 0 {
        vstd::arithmetic::div_mod::lemma_small_mod((count - 1) as nat, count as nat);
    } else {
        vstd::arithmetic::div_mod::lemma_mod_add_multiples_vanish(index - 1, count);
        vstd::arithmetic::div_mod::lemma_small_mod((index - 1) as nat, count as nat);
    }
}

/// Going to the next window and back again leads to the first pane of the window
/// that one started from, and so does going back and on again, where every window
/// has a pane and no window's first pane stands in an earlier window.
pub proof fn lemma_next_and_back(windows: Seq<RemoteWindow>, pane_id: Seq<char>, forward: bool)
    requires
        windows.len() >= 2,
        window_place(windows, pane_id) < windows.len(),
        forall|i: int|
            0 <= i < windows.len() ==> (#[trigger] windows[i]).panes().len() > 0 && window_place(
                windows,
                windows[i].panes()[0].id@,
            ) == i,
    ensures
        adjacent_pane(windows, pane_id, forward) is Some,
        adjacent_pane(windows, adjacent_pane(windows, pane_id, forward)->0, !forward) == Some(
            windows[window_place(windows, pane_id)].panes()[0].id@,
        ),
{
    let count = windows.len() as int;
    let place = window_place(windows, pane_id);
    lemma_place_is_no_less_than_nought(windows, pane_id);
    let next = neighbour(place, count, forward);
    lemma_going_round(place, count);
    lemma_going_round(next, count);
    assert(windows[next].panes().len() > 0);
    assert(windows[place].panes().len() > 0);
}

proof fn lemma_place_is_no_less_than_nought(windows: Seq<RemoteWindow>, pane_id: Seq<char>)
    ensures
        window_place(windows, pane_id) >= 0,
    decreases windows.len(),
{
    if windows.len() > 0 {
        lemma_place_is_no_less_than_nought(windows.drop_first(), pane_id);
    }
}

/// What to tell where a session is not running.
pub open spec fn not_running_text(session: Seq<char>) -> Seq<char> {
    "Session '"@ + session
        + "' is not running (restored from disk after a restart). Run 'tymux revive "@ + session
        + "' to respawn it, then attach again."@
}

/// What to tell where a pane cannot be attached to, if it cannot.
pub open spec fn attach_refusal(liveness: Liveness, session: Seq<char>) -> Option<Seq<char>> {
    match liveness {
        Liveness::Live => None,
        Liveness::Dead => Some(not_running_text(session)),
    }
}

/// Refuses to attach to a pane that is not running, and tells how to revive its
/// session.
pub fn check_attach_liveness(pane: &RemotePane, session_name: &str) -> (result: Result<(), String>)
    ensures
        match result {
            Ok(()) => pane.liveness == Liveness::Live,
            Err(message) => pane.liveness == Liveness::Dead && message@ == not_running_text(
                session_name@,
            ),
        },
        match result {
            Ok(()) => attach_refusal(pane.liveness, session_name@) is None,
            Err(message) => attach_refusal(pane.liveness, session_name@) == Some(message@),
        },
{
    if pane.liveness == Liveness::Dead {
        let mut message: String = "Session '".to_owned();
        message.append(session_name);
        message.append(
            "' is not running (restored from disk after a restart). Run 'tymux revive ",
        );
        message.append(session_name);
        message.append("' to respawn it, then attach again.");
        return Err(message);
    }
    Ok(())
}

/// How a session is listed.
pub open spec fn listed(name: Seq<char>, liveness: Liveness) -> Seq<char> {
    name + match liveness {
        Liveness::Dead => " [restored — not running]"@,
        Liveness::Live => " [live]"@,
    }
}

/// How a session is listed: its name, and whether it runs.
pub fn ls_status_label(session: &RemoteSession) -> (label: String)
    ensures
        label@ == session.name@ + match session.liveness {
            Liveness::Dead => " [restored — not running]"@,
            Liveness::Live => " [live]"@,
        },
        label@ == listed(session.name@, session.liveness),
{
    let mut label: String = session.name.clone();
    match session.liveness {
        Liveness::Dead => label.append(" [restored — not running]"),
        Liveness::Live => label.append(" [live]"),
    }
    label
}

proof fn lemma_decimal_digits(n: nat)
    ensures
        text::decimal(n).len() > 0,
        all_digits(text::decimal(n)),
        digits_value(text::decimal(n)) == n,
    decreases n,
{
    let d = text::decimal(n);
    if n < 10 {
        assert(d.drop_last() =~= seq![]);
        assert(digits_value(d.drop_last()) == 0);
    } else {
        lemma_decimal_digits(n / 10);
        assert(d.drop_last() =~= text::decimal(n / 10));
    }
}

proof fn lemma_first_place(text: Seq<char>, c: char, place: int)
    requires
        0 <= place < text.len(),
        text[place] == c,
        forall|i: int| 0 <= i < place ==> #[trigger] text[i] != c,
    ensures
        first_place(text, c) == place,
    decreases place,
{
    if place > 0 {
        assert(text[0] != c);
        assert forall|i: int| 0 <= i < place - 1 implies #[trigger] text.drop_first()[i] != c by {
            assert(text.drop_first()[i] == text[i + 1]);
        }
        lemma_first_place(text.drop_first(), c, place - 1);
    }
}

/// A pane's full name, as a target has it.
pub open spec fn full_name(session: Seq<char>, window: nat, pane: nat) -> Seq<char> {
    session + seq![':'] + text::decimal(window) + seq!['.'] + text::decimal(pane)
}

/// A target that spells out a session, a window and a pane names just those,
/// as long as the session's name is not empty and has no colon in it.
pub proof fn lemma_full_name_is_read_back(session: Seq<char>, window: usize, pane: usize)
    requires
        session.len() > 0,
        !session.contains(':'),
    ensures
        target_of(full_name(session, window as nat, pane as nat)) == Ok::<
            (Seq<char>, usize, usize),
            Seq<char>,
        >((session, window, pane)),
{
    let w = text::decimal(window as nat);
    let p = text::decimal(pane as nat);
    let target = full_name(session, window as nat, pane as nat);
    lemma_decimal_digits(window as nat);
    lemma_decimal_digits(pane as nat);
    let colon = session.len() as int;
    assert forall|i: int| 0 <= i < colon implies #[trigger] target[i] != ':' by {
        assert(target[i] == session[i]);
        assert(session.contains(session[i]));
    }
    assert(target[colon] == ':');
    lemma_first_place(target, ':', colon);
    assert(target.take(colon) =~= session);
    let rest = target.skip(colon + 1);
    assert(rest =~= w + seq!['.'] + p);
    let dot = w.len() as int;
    assert forall|i: int| 0 <= i < dot implies #[trigger] rest[i] != '.' by {
        assert(rest[i] == w[i]);
    }
    assert(rest[dot] == '.');
    lemma_first_place(rest, '.', dot);
    assert(rest.take(dot) =~= w);
    assert(rest.skip(dot + 1) =~= p);
    assert('0' <= w[0] <= '9');
    assert('0' <= p[0] <= '9');
}

} // verus!
