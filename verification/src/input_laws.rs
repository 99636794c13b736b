//! What holds of the reassembler as a whole: reads may split the input
//! anywhere, plain input and pastes pass unchanged, and leaders do what they
//! are for.

use crate::input;
use crate::input::{Output, Reassembler, Scan};
use crate::keys::KeyEvent;
use vstd::prelude::*;

verus! {

/// Whether no leader is armed and no paste is under way.
pub open spec fn idle(state: Reassembler) -> bool {
    state.armed is None && state.scan is Normal
}

/// The bytes for the pane in a row of outputs, all told.
pub open spec fn forwarded(outputs: Seq<Output>) -> Seq<u8>
    decreases outputs.len(),
{
    if outputs.len() == 0 {
        seq![]
    } else {
        let before = forwarded(outputs.drop_last());
        match outputs.last() {
            Output::Forward(bytes) => before + bytes,
            Output::Action(_) => before,
        }
    }
}

/// Whether a row of outputs holds no action.
pub open spec fn no_action(outputs: Seq<Output>) -> bool {
    forall|i: int| 0 <= i < outputs.len() ==> (#[trigger] outputs[i]) is Forward
}

/// It does not matter where reads split the input: two rows of bytes taken in
/// one after the other do what they do taken in together.
pub proof fn lemma_reads_may_split_anywhere(state: Reassembler, a: Seq<u8>, b: Seq<u8>)
    ensures
        ({
            let (middle, first) = state.run(a);
            let (end, second) = middle.run(b);
            state.run(a + b) == (end, first + second)
        }),
    decreases b.len(),
{
    let (middle, first) = state.run(a);
    if b.len() == 0 {
        assert(a + b =~= a);
        assert(first + Seq::<Output>::empty() =~= first);
    } else {
        lemma_reads_may_split_anywhere(state, a, b.drop_last());
        assert((a + b).drop_last() =~= a + b.drop_last());
        assert((a + b).last() == b.last());
        let (end, second) = middle.run(b.drop_last());
        let more = end.step(b.last()).1;
        assert(first + second + more =~= first + (second + more));
    }
}

proof fn lemma_run_one(state: Reassembler, b: u8)
    ensures
        state.run(seq![b]) == state.step(b),
{
    assert(seq![b].drop_last() =~= seq![]);
    assert(state.run(seq![b].drop_last()) == (state, Seq::<Output>::empty()));
    let more = state.step(b).1;
    assert(Seq::<Output>::empty() + more =~= more);
}

proof fn lemma_run_two(state: Reassembler, a: u8, b: u8)
    ensures
        ({
            let (middle, first) = state.step(a);
            let (end, second) = middle.step(b);
            state.run(seq![a, b]) == (end, first + second)
        }),
{
    lemma_run_one(state, a);
    lemma_run_one(state.step(a).0, b);
    lemma_reads_may_split_anywhere(state, seq![a], seq![b]);
    assert(seq![a] + seq![b] =~= seq![a, b]);
}

/// Input that neither arms a binding nor starts an escape sequence goes to the
/// pane byte for byte.
pub proof fn lemma_plain_input_passes(state: Reassembler, bytes: Seq<u8>)
    requires
        idle(state),
        forall|i: int|
            0 <= i < bytes.len() ==> (#[trigger] bytes[i]) != 0x1b && !state.arms(
                input::key_of_byte(bytes[i]),
            ),
    ensures
        state.run(bytes) == (state, bytes.map_values(|b: u8| Output::Forward(seq![b]))),
    decreases bytes.len(),
{
    let pass = |b: u8| Output::Forward(seq![b]);
    if bytes.len() == 0 {
        assert(bytes.map_values(pass) =~= seq![]);
    } else {
        let rest = bytes.drop_last();
        assert forall|i: int| 0 <= i < rest.len() implies (#[trigger] rest[i]) != 0x1b
            && !state.arms(input::key_of_byte(rest[i])) by {
            assert(rest[i] == bytes[i]);
        }
        lemma_plain_input_passes(state, rest);
        let last = bytes[bytes.len() - 1];
        assert(state.step(last) == (state, seq![Output::Forward(seq![last])]));
        assert(rest.map_values(pass) + seq![Output::Forward(seq![last])] =~= bytes.map_values(
            pass,
        ));
    }
}

/// The key that arms, pressed twice, goes to the pane once.
pub proof fn lemma_leader_twice_passes_once(state: Reassembler, leader: u8)
    requires
        idle(state),
        leader != 0x1b,
        state.arms(input::key_of_byte(leader)),
    ensures
        state.run(seq![leader, leader]) == (state, seq![Output::Forward(seq![leader])]),
{
    lemma_run_two(state, leader, leader);
    let single = seq![Output::Forward(seq![leader])];
    assert(Seq::<Output>::empty() + single =~= single);
}

/// A bound pair of keys brings about its action and nothing else.
pub proof fn lemma_bound_keys_act(state: Reassembler, first: u8, second: u8)
    requires
        idle(state),
        first != 0x1b,
        second != 0x1b,
        state.arms(input::key_of_byte(first)),
        !input::key_of_byte(second).same_as(input::key_of_byte(first)),
        state.bound(input::key_of_byte(first), input::key_of_byte(second)) < state.bindings.len(),
    ensures
        ({
            let at = state.bound(input::key_of_byte(first), input::key_of_byte(second));
            state.run(seq![first, second]) == (
                state,
                seq![Output::Action(state.bindings[at].action)],
            )
        }),
{
    lemma_run_two(state, first, second);
    let at = state.bound(input::key_of_byte(first), input::key_of_byte(second));
    let single = seq![Output::Action(state.bindings[at].action)];
    assert(Seq::<Output>::empty() + single =~= single);
}

/// A key that is not bound after a leader goes to the pane behind the leader:
/// neither is swallowed.
pub proof fn lemma_unbound_keys_pass(state: Reassembler, first: u8, second: u8)
    requires
        idle(state),
        first != 0x1b,
        second != 0x1b,
        state.arms(input::key_of_byte(first)),
        !input::key_of_byte(second).same_as(input::key_of_byte(first)),
        state.bound(input::key_of_byte(first), input::key_of_byte(second)) >= state.bindings.len(),
    ensures
        state.run(seq![first, second]) == (state, seq![Output::Forward(seq![first, second])]),
{
    lemma_run_two(state, first, second);
    let single = seq![Output::Forward(seq![first, second])];
    assert(Seq::<Output>::empty() + single =~= single);
}

/// Of two key presses without shift, only equal ones are the same.
pub proof fn lemma_unshifted_keys(a: KeyEvent, b: KeyEvent)
    requires
        !a.shifted(),
        !b.shifted(),
    ensures
        a.same_as(b) <==> a == b,
{
}

proof fn lemma_forwarded_concat(a: Seq<Output>, b: Seq<Output>)
    ensures
        forwarded(a + b) == forwarded(a) + forwarded(b),
    decreases b.len(),
{
    if b.len() == 0 {
        assert(a + b =~= a);
        assert(forwarded(a) + Seq::<u8>::empty() =~= forwarded(a));
    } else {
        assert((a + b).drop_last() =~= a + b.drop_last());
        lemma_forwarded_concat(a, b.drop_last());
        if let Output::Forward(bytes) = b.last() {
            assert(forwarded(a) + forwarded(b.drop_last()) + bytes =~= forwarded(a) + (forwarded(
                b.drop_last(),
            ) + bytes));
        }
    }
}

proof fn lemma_forwarded_one(bytes: Seq<u8>)
    ensures
        forwarded(seq![Output::Forward(bytes)]) == bytes,
{
    let single = seq![Output::Forward(bytes)];
    assert(single.drop_last() =~= seq![]);
    assert(forwarded(single.drop_last()) =~= seq![]);
    assert(Seq::<u8>::empty() + bytes =~= bytes);
}

/// Whether the bytes hold the end of a paste only at their own end.
pub open spec fn ends_once(bytes: Seq<u8>) -> bool {
    forall|n: int|
        0 <= n < bytes.len() ==> !input::ends(#[trigger] bytes.take(n), input::paste_end())
}

/// Inside a paste, what has not been passed on yet is held back, and is long
/// enough to tell whether the paste ends.
proof fn lemma_inside_paste(state: Reassembler, bytes: Seq<u8>)
    requires
        state.scan == Scan::InPaste(seq![]),
        ends_once(bytes),
        !input::ends(bytes, input::paste_end()),
    ensures
        ({
            let (after, outputs) = state.run(bytes);
            &&& after.scan is InPaste
            &&& after == Reassembler { scan: after.scan, ..state }
            &&& no_action(outputs)
            &&& after.scan->InPaste_0.len() <= 6
            &&& after.scan->InPaste_0.len() >= if bytes.len() < 5 {
                bytes.len()
            } else {
                5
            }
            &&& forwarded(outputs) + after.scan->InPaste_0 == bytes
        }),
    decreases bytes.len(),
{
    if bytes.len() == 0 {
        assert(state.run(bytes) == (state, Seq::<Output>::empty()));
        assert(forwarded(Seq::<Output>::empty()) + Seq::<u8>::empty() =~= bytes);
    } else {
        let rest = bytes.drop_last();
        let b = bytes.last();
        assert(rest =~= bytes.take(bytes.len() - 1));
        assert forall|n: int| 0 <= n < rest.len() implies !input::ends(
            #[trigger] rest.take(n),
            input::paste_end(),
        ) by {
            assert(rest.take(n) =~= bytes.take(n));
        }
        lemma_inside_paste(state, rest);
        let (before, outputs) = state.run(rest);
        let kept = before.scan->InPaste_0;
        let held = kept.push(b);
        assert(forwarded(outputs) + held =~= (forwarded(outputs) + kept).push(b));
        assert(bytes =~= rest.push(b));
        lemma_ends_of_suffix(forwarded(outputs), held, bytes);
        let more = before.step(b).1;
        lemma_forwarded_concat(outputs, more);
        let spare = held.len() - 6;
        if spare > 0 {
            lemma_forwarded_one(held.take(spare + 1));
            assert(held.take(spare + 1) + held.skip(spare + 1) =~= held);
            assert(forwarded(outputs) + held.take(spare + 1) + held.skip(spare + 1) =~= forwarded(
                outputs,
            ) + (held.take(spare + 1) + held.skip(spare + 1)));
        } else {
            assert(more =~= seq![]);
            assert(forwarded(more) =~= seq![]);
            assert(forwarded(outputs) + Seq::<u8>::empty() =~= forwarded(outputs));
        }
    }
}

/// A row of bytes ends a paste exactly if its last six bytes do.
proof fn lemma_ends_of_suffix(front: Seq<u8>, held: Seq<u8>, whole: Seq<u8>)
    requires
        front + held == whole,
        held.len() >= 6 || held.len() == whole.len(),
    ensures
        input::ends(whole, input::paste_end()) <==> input::ends(held, input::paste_end()),
{
    if held.len() >= 6 {
        assert(whole.skip(whole.len() - 6) =~= held.skip(held.len() - 6));
    } else {
        assert(whole =~= held);
    }
}

/// What is pasted goes to the pane as it is, and no action comes of it, whatever
/// the bytes are; the state afterwards is the state before.
pub proof fn lemma_paste_passes_unchanged(state: Reassembler, content: Seq<u8>)
    requires
        state.scan is Normal,
        ends_once(content + input::paste_end()),
    ensures
        ({
            let (after, outputs) = state.run(input::paste_start() + content + input::paste_end());
            &&& after == state
            &&& no_action(outputs)
            &&& forwarded(outputs) == content
        }),
{
    let start = input::paste_start();
    let end = input::paste_end();
    lemma_start_is_seen(state);
    let inside = Reassembler { scan: Scan::InPaste(seq![]), ..state };
    let all = content + end;
    let rest = all.drop_last();
    let b = all.last();
    assert(rest =~= all.take(all.len() - 1));
    assert forall|n: int| 0 <= n < rest.len() implies !input::ends(#[trigger] rest.take(n), end) by {
        assert(rest.take(n) =~= all.take(n));
    }
    lemma_inside_paste(inside, rest);
    let (before, outputs) = inside.run(rest);
    let kept = before.scan->InPaste_0;
    let held = kept.push(b);
    assert(forwarded(outputs) + held =~= (forwarded(outputs) + kept).push(b));
    assert(all =~= rest.push(b));
    assert(all.skip(all.len() - 6) =~= end);
    lemma_ends_of_suffix(forwarded(outputs), held, all);
    let more = before.step(b).1;
    let spare = held.len() - 6;
    lemma_forwarded_concat(outputs, more);
    let front = forwarded(outputs);
    assert(held.len() >= 6);
    assert(front.len() + spare == content.len());
    assert((front + held).take(content.len() as int) =~= front + held.take(spare));
    assert(all.take(content.len() as int) =~= content);
    assert(front + held.take(spare) == content);
    if spare > 0 {
        lemma_forwarded_one(held.take(spare));
    } else {
        assert(more =~= seq![]);
        assert(forwarded(more) =~= seq![]);
        assert(held.take(spare) =~= seq![]);
    }
    assert(inside.run(all) == (state, outputs + more));
    lemma_reads_may_split_anywhere(state, start, all);
    assert(start + content + end =~= start + all);
    assert(Seq::<Output>::empty() + (outputs + more) =~= outputs + more);
}

proof fn lemma_start_is_seen(state: Reassembler)
    requires
        state.scan is Normal,
    ensures
        state.run(input::paste_start()) == (
            Reassembler { scan: Scan::InPaste(seq![]), ..state },
            Seq::<Output>::empty(),
        ),
{
    let start = input::paste_start();
    lemma_run_start(state, 5);
    assert(start.take(5) =~= start.drop_last());
    assert(start.take(5).push(start.last()) =~= start);
    assert(Seq::<Output>::empty() + Seq::<Output>::empty() =~= Seq::<Output>::empty());
}

proof fn lemma_run_start(state: Reassembler, n: nat)
    requires
        state.scan is Normal,
        1 <= n <= 5,
    ensures
        state.run(input::paste_start().take(n as int)) == (
            Reassembler {
                scan: Scan::MatchingPasteStart(input::paste_start().take(n as int)),
                ..state
            },
            Seq::<Output>::empty(),
        ),
    decreases n,
{
    let start = input::paste_start();
    let seen = start.take(n as int);
    let b = start[n - 1];
    assert(Seq::<Output>::empty() + Seq::<Output>::empty() =~= Seq::<Output>::empty());
    if n == 1 {
        assert(seen =~= seq![0x1bu8]);
        lemma_run_one(state, 0x1b);
    } else {
        let before = start.take(n - 1);
        lemma_run_start(state, (n - 1) as nat);
        assert(seen.drop_last() =~= before);
        assert(seen.last() == b);
        assert(before.push(b) =~= seen);
        assert(start.take(seen.len() as int) =~= seen);
        assert(input::begins(start, seen));
        assert(seen != start) by {
            assert(seen.len() == n);
        }
    }
}

/// Whether no more bytes are held back than a paste marker is long.
pub open spec fn holds_little(state: Reassembler) -> bool {
    match state.scan {
        Scan::Normal => true,
        Scan::MatchingPasteStart(seen) => seen.len() <= input::PASTE_MARKER_LEN,
        Scan::InPaste(held) => held.len() <= input::PASTE_MARKER_LEN,
    }
}

/// However much comes in, and however long a paste is, no more bytes are held
/// back than a paste marker is long.
pub proof fn lemma_little_is_held_back(state: Reassembler, bytes: Seq<u8>)
    requires
        holds_little(state),
    ensures
        holds_little(state.run(bytes).0),
    decreases bytes.len(),
{
    if bytes.len() > 0 {
        lemma_little_is_held_back(state, bytes.drop_last());
    }
}

/// The bytes that are held back because they may turn out to be part of a paste
/// marker.
pub open spec fn held_back(state: Reassembler) -> Seq<u8> {
    match state.scan {
        Scan::Normal => seq![],
        Scan::MatchingPasteStart(seen) => seen,
        Scan::InPaste(held) => held,
    }
}

/// Whether a row of bytes is found in another.
pub open spec fn holds(bytes: Seq<u8>, part: Seq<u8>) -> bool {
    exists|i: int|
        0 <= i <= bytes.len() - part.len() && #[trigger] bytes.subrange(i, i + part.len()) == part
}

/// No input is lost or changed, escape bytes and escape sequences included: as long
/// as no key arms and no paste starts, what has gone to the pane, and behind it what
/// is still held back, is the input, and no action comes of it.
pub proof fn lemma_no_input_is_lost(state: Reassembler, bytes: Seq<u8>)
    requires
        idle(state),
        forall|i: int|
            0 <= i < bytes.len() ==> !state.arms(input::key_of_byte(#[trigger] bytes[i])),
        !holds(bytes, seq![0x1bu8, 0x5b, 0x32, 0x30, 0x30, 0x7e]),
    ensures
        ({
            let (after, outputs) = state.run(bytes);
            &&& forwarded(outputs) + held_back(after) == bytes
            &&& no_action(outputs)
            &&& after.armed is None
            &&& after.bindings == state.bindings
            &&& after.leader == state.leader
        }),
{
    lemma_outside_of_pastes(state, bytes);
}

proof fn lemma_outside_of_pastes(state: Reassembler, bytes: Seq<u8>)
    requires
        idle(state),
        forall|i: int|
            0 <= i < bytes.len() ==> !state.arms(input::key_of_byte(#[trigger] bytes[i])),
        !holds(bytes, input::paste_start()),
    ensures
        ({
            let (after, outputs) = state.run(bytes);
            &&& forwarded(outputs) + held_back(after) == bytes
            &&& no_action(outputs)
            &&& after == (Reassembler { scan: after.scan, ..state })
            &&& match after.scan {
                Scan::Normal => true,
                Scan::MatchingPasteStart(seen) => seen.len() > 0 && input::begins(
                    input::paste_start(),
                    seen,
                ) && seen != input::paste_start(),
                Scan::InPaste(_) => false,
            }
        }),
    decreases bytes.len(),
{
    let start = input::paste_start();
    if bytes.len() == 0 {
        assert(forwarded(state.run(bytes).1) + held_back(state) =~= bytes);
    } else {
        let rest = bytes.drop_last();
        let b = bytes.last();
        assert forall|i: int| 0 <= i < rest.len() implies !state.arms(
            input::key_of_byte(#[trigger] rest[i]),
        ) by {
            assert(rest[i] == bytes[i]);
        }
        if holds(rest, start) {
            let i = choose|i: int|
                0 <= i <= rest.len() - start.len() && #[trigger] rest.subrange(i, i + start.len())
                    == start;
            assert(bytes.subrange(i, i + start.len()) =~= rest.subrange(i, i + start.len()));
        }
        lemma_outside_of_pastes(state, rest);
        let (before, outputs) = state.run(rest);
        let (after, more) = before.step(b);
        lemma_forwarded_concat(outputs, more);
        let front = forwarded(outputs);
        assert(!state.arms(input::key_of_byte(bytes[bytes.len() - 1])));
        assert(bytes =~= rest.push(b));
        match before.scan {
            Scan::Normal => {
                assert(front =~= rest);
                if b == 0x1b {
                    let one = seq![b];
                    assert(more =~= seq![]);
                    assert(forwarded(more) =~= seq![]);
                    assert(start.take(1) =~= one);
                    assert(front + Seq::<u8>::empty() + one =~= bytes);
                } else {
                    assert(before == state);
                    assert(more == seq![Output::Forward(seq![b])]);
                    lemma_forwarded_one(seq![b]);
                    assert(front + seq![b] + Seq::<u8>::empty() =~= bytes);
                }
            },
            Scan::MatchingPasteStart(seen) => {
                let now = seen.push(b);
                assert(front + now =~= (front + seen).push(b));
                assert(front + now == bytes);
                if now == start {
                    let i = front.len() as int;
                    assert(bytes.subrange(i, i + start.len()) =~= now);
                    assert(holds(bytes, start));
                } else if input::begins(start, now) {
                    assert(more =~= seq![]);
                    assert(forwarded(more) =~= seq![]);
                    assert(front + Seq::<u8>::empty() =~= front);
                } else {
                    lemma_forwarded_one(now);
                    assert(front + now + Seq::<u8>::empty() =~= bytes);
                }
            },
            Scan::InPaste(_) => {},
        }
        assert forall|i: int| 0 <= i < (outputs + more).len() implies (
        #[trigger] (outputs + more)[i]) is Forward by {
            if i >= outputs.len() {
                assert((outputs + more)[i] == more[i - outputs.len()]);
            }
        }
    }
}

/// An escape sequence that turns out not to start a paste goes to the pane whole, in
/// one piece, whether a leader is armed or not, and leaves the leader as it is.
pub proof fn lemma_escape_sequences_pass_whole(state: Reassembler, prefix: Seq<u8>, b: u8)
    requires
        state.scan is Normal,
        1 <= prefix.len() < 6,
        prefix == seq![0x1bu8, 0x5b, 0x32, 0x30, 0x30, 0x7e].take(prefix.len() as int),
        b != seq![0x1bu8, 0x5b, 0x32, 0x30, 0x30, 0x7e][prefix.len() as int],
    ensures
        state.run(prefix.push(b)) == (state, seq![Output::Forward(prefix.push(b))]),
{
    let start = input::paste_start();
    lemma_run_start(state, prefix.len());
    let all = prefix.push(b);
    assert(all.drop_last() =~= prefix);
    assert(start.take(prefix.len() as int) =~= prefix);
    assert(all.len() <= 6);
    assert(start.take(all.len() as int)[prefix.len() as int] != all[prefix.len() as int]);
    assert(all != start);
    assert(!input::begins(start, all));
    assert(Seq::<Output>::empty() + seq![Output::Forward(all)] =~= seq![Output::Forward(all)]);
}

/// The markers are those of bracketed paste: escape, `[200~` and escape, `[201~`.
pub proof fn lemma_paste_markers()
    ensures
        input::paste_start() == seq![0x1bu8, 0x5b, 0x32, 0x30, 0x30, 0x7e],
        input::paste_end() == seq![0x1bu8, 0x5b, 0x32, 0x30, 0x31, 0x7e],
{
}

/// Whether a byte is typed by this key: a letter with control by the bytes 1 to 26,
/// anything else by the byte of its character.
pub open spec fn types(b: u8, key: KeyEvent) -> bool {
    match key.code {
        crate::keys::KeyCode::Char(c) => if 1 <= b <= 26 {
            c as u32 == b + 96 && key.modifiers == 2
        } else {
            c as u32 == b && key.modifiers == 0
        },
        _ => false,
    }
}

/// Every binding of two different keys can be fired: typing its keys brings about its
/// action, unless a binding before it is of the same keys. This does not depend on
/// which key leads.
pub proof fn lemma_every_binding_fires(
    state: Reassembler,
    i: int,
    first: KeyEvent,
    second: KeyEvent,
    a: u8,
    b: u8,
)
    requires
        idle(state),
        0 <= i < state.bindings.len(),
        state.bindings[i].sequence == seq![first, second],
        types(a, first),
        types(b, second),
        a != 0x1b,
        b != 0x1b,
        !second.same_as(first),
        forall|j: int|
            0 <= j < i ==> !((#[trigger] state.bindings[j]).sequence.len() == 2
                && state.bindings[j].sequence[0].same_as(first)
                && state.bindings[j].sequence[1].same_as(second)),
    ensures
        state.run(seq![a, b]) == (state, seq![Output::Action(state.bindings[i].action)]),
{
    lemma_typed(a, first);
    lemma_typed(b, second);
    assert(state.bindings[i].sequence[0] == first);
    assert(state.arms(first));
    lemma_first_bound_is_first(state.bindings, first, second, i);
    lemma_bound_keys_act(state, a, b);
}

proof fn lemma_typed(b: u8, key: KeyEvent)
    requires
        types(b, key),
    ensures
        key == input::key_of_byte(b),
{
}

proof fn lemma_first_bound_is_first(
    bindings: Seq<crate::config::Binding>,
    first: KeyEvent,
    second: KeyEvent,
    i: int,
)
    requires
        0 <= i < bindings.len(),
        bindings[i].sequence == seq![first, second],
        forall|j: int|
            0 <= j < i ==> !((#[trigger] bindings[j]).sequence.len() == 2
                && bindings[j].sequence[0].same_as(first) && bindings[j].sequence[1].same_as(second)),
    ensures
        input::first_bound(bindings, first, second) == i,
    decreases i,
{
    if i > 0 {
        let rest = bindings.drop_first();
        assert(!input::is_pair(bindings[0], first, second));
        assert forall|j: int| 0 <= j < i - 1 implies !((#[trigger] rest[j]).sequence.len() == 2
            && rest[j].sequence[0].same_as(first) && rest[j].sequence[1].same_as(second)) by {
            assert(rest[j] == bindings[j + 1]);
        }
        lemma_first_bound_is_first(rest, first, second, i - 1);
    }
}

/// An action comes only of a bound pair: where no binding is of the two keys, the
/// pair goes to the pane.
pub proof fn lemma_only_bound_pairs_act(state: Reassembler, a: u8, b: u8)
    requires
        idle(state),
        a != 0x1b,
        b != 0x1b,
        state.arms(input::key_of_byte(a)),
        !input::key_of_byte(b).same_as(input::key_of_byte(a)),
        forall|j: int|
            0 <= j < state.bindings.len() ==> !((#[trigger] state.bindings[j]).sequence.len() == 2
                && state.bindings[j].sequence[0].same_as(input::key_of_byte(a))
                && state.bindings[j].sequence[1].same_as(input::key_of_byte(b))),
    ensures
        state.run(seq![a, b]) == (state, seq![Output::Forward(seq![a, b])]),
{
    lemma_none_bound(state.bindings, input::key_of_byte(a), input::key_of_byte(b));
    lemma_unbound_keys_pass(state, a, b);
}

proof fn lemma_none_bound(
    bindings: Seq<crate::config::Binding>,
    first: KeyEvent,
    second: KeyEvent,
)
    requires
        forall|j: int|
            0 <= j < bindings.len() ==> !((#[trigger] bindings[j]).sequence.len() == 2
                && bindings[j].sequence[0].same_as(first) && bindings[j].sequence[1].same_as(second)),
    ensures
        input::first_bound(bindings, first, second) == bindings.len(),
    decreases bindings.len(),
{
    if bindings.len() > 0 {
        let rest = bindings.drop_first();
        assert(!input::is_pair(bindings[0], first, second));
        assert forall|j: int| 0 <= j < rest.len() implies !((#[trigger] rest[j]).sequence.len() == 2
            && rest[j].sequence[0].same_as(first) && rest[j].sequence[1].same_as(second)) by {
            assert(rest[j] == bindings[j + 1]);
        }
        lemma_none_bound(rest, first, second);
    }
}

/// A byte arms exactly if it types the leader, or the first key of some binding.
pub proof fn lemma_what_arms(state: Reassembler, b: u8)
    requires
        idle(state),
        b != 0x1b,
    ensures
        ({
            let key = input::key_of_byte(b);
            let (after, outputs) = state.run(seq![b]);
            if key.same_as(state.leader) || exists|i: int|
                0 <= i < state.bindings.len() && (#[trigger] state.bindings[i]).sequence.len() > 0
                    && state.bindings[i].sequence[0].same_as(key) {
                &&& outputs == Seq::<Output>::empty()
                &&& after == (Reassembler { armed: Some((b, key)), ..state })
            } else {
                &&& outputs == seq![Output::Forward(seq![b])]
                &&& after == state
            }
        }),
{
    lemma_run_one(state, b);
}

/// A setting of `C-` and a character makes that character with control the leader;
/// any setting that is not of this form makes it `C-b`.
pub proof fn lemma_leader_setting(raw: Seq<char>, c: char, tail: Seq<char>)
    ensures
        input::leader_key(seq!['C', '-', c] + tail) == (KeyEvent {
            code: crate::keys::KeyCode::Char(c),
            modifiers: 2,
        }),
        (raw.len() < 3 || raw[0] != 'C' || raw[1] != '-') ==> input::leader_key(raw) == (KeyEvent {
            code: crate::keys::KeyCode::Char('b'),
            modifiers: 2,
        }),
{
    let setting = seq!['C', '-', c] + tail;
    assert(setting[0] == 'C' && setting[1] == '-' && setting[2] == c);
}

/// A paste that has not ended goes to the pane as it comes: what has gone there, and
/// behind it what is still held back, is what was pasted, and no more than six bytes
/// are held back. No action comes of it, and a leader that was armed stays so.
pub proof fn lemma_pastes_pass_as_they_come(state: Reassembler, content: Seq<u8>)
    requires
        state.scan is Normal,
        !holds(content, seq![0x1bu8, 0x5b, 0x32, 0x30, 0x31, 0x7e]),
    ensures
        ({
            let (after, outputs) = state.run(
                seq![0x1bu8, 0x5b, 0x32, 0x30, 0x30, 0x7e] + content,
            );
            &&& forwarded(outputs) + held_back(after) == content
            &&& held_back(after).len() <= 6
            &&& no_action(outputs)
            &&& after.armed == state.armed
            &&& after.bindings == state.bindings
            &&& after.leader == state.leader
        }),
{
    let start = input::paste_start();
    let end = input::paste_end();
    let inside = Reassembler { scan: Scan::InPaste(seq![]), ..state };
    lemma_start_is_seen(state);
    assert forall|n: int| 0 <= n <= content.len() implies !input::ends(
        #[trigger] content.take(n),
        end,
    ) by {
        if input::ends(content.take(n), end) {
            assert(content.subrange(n - 6, n) =~= content.take(n).skip(n - 6));
            assert(content.subrange(n - 6, n - 6 + 6) == end);
            assert(holds(content, end));
        }
    }
    assert(content.take(content.len() as int) =~= content);
    lemma_inside_paste(inside, content);
    let (after, outputs) = inside.run(content);
    lemma_reads_may_split_anywhere(state, start, content);
    assert(Seq::<Output>::empty() + outputs =~= outputs);
    assert(start =~= seq![0x1bu8, 0x5b, 0x32, 0x30, 0x30, 0x7e]);
}

} // verus!
