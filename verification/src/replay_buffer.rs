//! A bounded log of a pane's recent output, kept so that a client that
//! reconnects can resume from the last chunk that it has seen.

use crate::text::bytes_of;
use std::collections::VecDeque;
use vstd::prelude::*;

verus! {

/// What a pane is typically granted.
pub const MIN_REPLAY_BUFFER_BYTES: usize = 16 * 1024;

/// What a pane is granted while there is enough left.
pub const DEFAULT_REPLAY_BUFFER_BYTES: usize = 256 * 1024;

/// What all panes together may be granted.
pub const GLOBAL_REPLAY_BUFFER_BUDGET_BYTES: usize = 64 * 1024 * 1024;

/// How much of the global budget has been granted.
#[derive(Debug)]
pub struct ReplayBudget {
    pub used: usize,
}

impl ReplayBudget {
    pub fn new() -> (budget: Self)
        ensures
            budget.used == 0,
    {
        ReplayBudget { used: 0 }
    }

    /// What is left of the global budget.
    pub open spec fn remaining(self) -> int {
        if self.used <= GLOBAL_REPLAY_BUFFER_BUDGET_BYTES {
            GLOBAL_REPLAY_BUFFER_BUDGET_BYTES - self.used
        } else {
            0
        }
    }

    /// What is granted once so much is returned.
    pub open spec fn after_release(self, bytes: usize) -> int {
        if bytes <= self.used {
            self.used - bytes
        } else {
            self.used - bytes + usize::MAX + 1
        }
    }

    /// What a new pane is granted.
    pub open spec fn grant(self) -> int {
        if self.remaining() < DEFAULT_REPLAY_BUFFER_BYTES {
            self.remaining()
        } else {
            DEFAULT_REPLAY_BUFFER_BYTES as int
        }
    }
}

/// Grants a new pane its budget: the default, or what is left of the global
/// budget if that is less. The global budget is a hard cap: once it is used up,
/// nothing is granted, and a buffer without a budget cannot serve any resume
/// but of its newest chunk.
pub fn allocate_replay_budget(budget: &mut ReplayBudget) -> (granted: usize)
    ensures
        granted == old(budget).grant(),
        final(budget).used == old(budget).used + granted,
        old(budget).used <= GLOBAL_REPLAY_BUFFER_BUDGET_BYTES ==> final(budget).used
            <= GLOBAL_REPLAY_BUFFER_BUDGET_BYTES,
{
    let remaining: usize = GLOBAL_REPLAY_BUFFER_BUDGET_BYTES.saturating_sub(budget.used);
    let granted: usize = if DEFAULT_REPLAY_BUFFER_BYTES < remaining {
        DEFAULT_REPLAY_BUFFER_BYTES
    } else {
        remaining
    };
    budget.used = budget.used + granted;
    granted
}

/// Returns what a pane was granted. Returning more than has been granted wraps
/// around.
pub fn release_replay_budget(budget: &mut ReplayBudget, bytes: usize)
    ensures
        final(budget).used == if bytes <= old(budget).used {
            old(budget).used - bytes
        } else {
            old(budget).used - bytes + usize::MAX + 1
        },
        final(budget).used == old(budget).after_release(bytes),
{
    budget.used = budget.used.wrapping_sub(bytes);
}

/// What a client that asks to resume gets.
#[derive(Debug, Clone, PartialEq, Eq)]
pub enum ReplayOutcome {
    /// Everything after the chunk it has seen is still there.
    InWindow { chunks: Vec<(u64, Vec<u8>)>, tail_seq: u64 },
    /// Something it has not seen is gone, or it asks for what is yet to come.
    GapExceeded { oldest_available_seq: Option<u64> },
}

/// Recent chunks of output, each with its sequence number, the oldest first.
/// The oldest are dropped once there are more bytes than the budget allows, but
/// the newest one is always kept.
#[derive(Debug)]
pub struct ReplayBuffer {
    pub entries: VecDeque<(u64, Vec<u8>)>,
    pub total_bytes: usize,
    pub budget_bytes: usize,
}

/// A chunk and its sequence number, as a value.
pub open spec fn chunk_view(entry: (u64, Vec<u8>)) -> (u64, Seq<u8>) {
    (entry.0, entry.1@)
}

/// Chunks and their sequence numbers, as values.
pub open spec fn chunks_view(entries: Seq<(u64, Vec<u8>)>) -> Seq<(u64, Seq<u8>)> {
    entries.map_values(|entry: (u64, Vec<u8>)| chunk_view(entry))
}

/// The bytes in a row of chunks, all told.
pub open spec fn bytes_in(chunks: Seq<(u64, Seq<u8>)>) -> nat
    decreases chunks.len(),
{
    if chunks.len() == 0 {
        0
    } else {
        bytes_in(chunks.drop_first()) + chunks[0].1.len()
    }
}

/// The chunks that are kept: the oldest are dropped while there are more bytes
/// than the budget allows and more than one chunk.
pub open spec fn kept(chunks: Seq<(u64, Seq<u8>)>, budget: nat) -> Seq<(u64, Seq<u8>)>
    decreases chunks.len(),
{
    if bytes_in(chunks) > budget && chunks.len() > 1 {
        kept(chunks.drop_first(), budget)
    } else {
        chunks
    }
}

/// The sequence number of the oldest chunk, if there is one.
pub open spec fn oldest(chunks: Seq<(u64, Seq<u8>)>) -> Option<u64> {
    if chunks.len() == 0 {
        None
    } else {
        Some(chunks[0].0)
    }
}

/// Whether a client that has seen everything up to `resume_from_seq` can resume:
/// it has seen the oldest chunk that is still there, or everything if there is
/// none, and nothing that is yet to come.
pub open spec fn in_window(chunks: Seq<(u64, Seq<u8>)>, resume_from_seq: u64, latest_seq: u64) -> bool {
    &&& resume_from_seq <= latest_seq
    &&& resume_from_seq >= match oldest(chunks) {
        Some(seq) => seq,
        None => latest_seq,
    }
}

/// The chunks that come after this one, in order.
pub open spec fn newer(chunks: Seq<(u64, Seq<u8>)>, resume_from_seq: u64) -> Seq<(u64, Seq<u8>)> {
    chunks.filter(|chunk: (u64, Seq<u8>)| chunk.0 > resume_from_seq)
}

impl View for ReplayBuffer {
    type V = Seq<(u64, Seq<u8>)>;

    open spec fn view(&self) -> Seq<(u64, Seq<u8>)> {
        chunks_view(self.entries@)
    }
}

impl ReplayBuffer {
    /// The byte count is that of the chunks.
    pub open spec fn wf(self) -> bool {
        self.total_bytes == bytes_in(self@)
    }

    pub fn new(budget_bytes: usize) -> (buffer: Self)
        ensures
            buffer.wf(),
            buffer@ == Seq::<(u64, Seq<u8>)>::empty(),
            buffer.budget_bytes == budget_bytes,
    {
        let buffer = ReplayBuffer { entries: VecDeque::new(), total_bytes: 0, budget_bytes };
        assert(buffer@ =~= Seq::empty());
        buffer
    }

    /// Puts a chunk at the end, then drops chunks from the front until the bytes
    /// are within the budget or only the new chunk is left.
    pub fn push(&mut self, seq: u64, data: &[u8])
        requires
            old(self).wf(),
            old(self).total_bytes + data@.len() <= usize::MAX,
        ensures
            final(self).wf(),
            final(self)@ == kept(old(self)@.push((seq, data@)), old(self).budget_bytes as nat),
            final(self).budget_bytes == old(self).budget_bytes,
    {
        let ghost all = self@.push((seq, data@));
        self.entries.push_back((seq, bytes_of(data)));
        assert(self@ =~= all);
        proof {
            lemma_bytes_push(old(self)@, (seq, data@));
        }
        self.total_bytes = self.total_bytes + data.len();
        while self.total_bytes > self.budget_bytes && self.entries.len() > 1
            invariant
                self.wf(),
                kept(self@, self.budget_bytes as nat) == kept(all, old(self).budget_bytes as nat),
                self.budget_bytes == old(self).budget_bytes,
            decreases self.entries@.len(),
        {
            let ghost before = self@;
            if let Some((_, evicted)) = self.entries.pop_front() {
                assert(self@ =~= before.drop_first());
                self.total_bytes = self.total_bytes - evicted.len();
            }
        }
    }

    /// The sequence number of the oldest chunk still there, if there is one.
    pub fn oldest_seq(&self) -> (seq: Option<u64>)
        ensures
            seq == oldest(self@),
    {
        if self.entries.len() == 0 {
            None
        } else {
            Some(self.entries[0].0)
        }
    }

    /// What a client gets that has seen everything up to `resume_from_seq`, where
    /// the pane is at `latest_seq`.
    pub fn replay_since(&self, resume_from_seq: u64, latest_seq: u64) -> (outcome: ReplayOutcome)
        ensures
            match outcome {
                ReplayOutcome::InWindow { chunks, tail_seq } => {
                    &&& in_window(self@, resume_from_seq, latest_seq)
                    &&& chunks_view(chunks@) == newer(self@, resume_from_seq)
                    &&& tail_seq == latest_seq
                },
                ReplayOutcome::GapExceeded { oldest_available_seq } => {
                    &&& !in_window(self@, resume_from_seq, latest_seq)
                    &&& oldest_available_seq == oldest(self@)
                },
            },
    {
        if resume_from_seq > latest_seq {
            return ReplayOutcome::GapExceeded { oldest_available_seq: self.oldest_seq() };
        }
        let available_from: u64 = match self.oldest_seq() {
            Some(seq) => seq,
            None => latest_seq,
        };
        if resume_from_seq < available_from {
            return ReplayOutcome::GapExceeded { oldest_available_seq: self.oldest_seq() };
        }
        let ghost wanted = |chunk: (u64, Seq<u8>)| chunk.0 > resume_from_seq;
        let mut chunks: Vec<(u64, Vec<u8>)> = Vec::new();
        let mut i: usize = 0;
        proof {
            reveal(Seq::filter);
            assert(self@.take(0) =~= seq![]);
            assert(chunks_view(chunks@) =~= seq![]);
        }
        while i < self.entries.len()
            invariant
                i <= self.entries@.len(),
                wanted == (|chunk: (u64, Seq<u8>)| chunk.0 > resume_from_seq),
                chunks_view(chunks@) == self@.take(i as int).filter(wanted),
            decreases self.entries@.len() - i,
        {
            let entry = &self.entries[i];
            proof {
                reveal(Seq::filter);
                assert(self@.take(i + 1).drop_last() =~= self@.take(i as int));
                assert(self@.take(i + 1).last() == chunk_view(*entry));
            }
            if entry.0 > resume_from_seq {
                let ghost before = chunks@;
                chunks.push((entry.0, entry.1.clone()));
                assert(chunks_view(chunks@) =~= chunks_view(before).push(chunk_view(*entry)));
            }
            i = i + 1;
        }
        assert(self@.take(i as int) =~= self@);
        ReplayOutcome::InWindow { chunks, tail_seq: latest_seq }
    }
}

proof fn lemma_bytes_push(chunks: Seq<(u64, Seq<u8>)>, chunk: (u64, Seq<u8>))
    ensures
        bytes_in(chunks.push(chunk)) == bytes_in(chunks) + chunk.1.len(),
    decreases chunks.len(),
{
    if chunks.len() == 0 {
        assert(chunks.push(chunk).drop_first() =~= seq![]);
        assert(bytes_in(chunks.push(chunk).drop_first()) == 0);
    } else {
        assert(chunks.push(chunk).drop_first() =~= chunks.drop_first().push(chunk));
        lemma_bytes_push(chunks.drop_first(), chunk);
    }
}

/// What is kept is the newest chunks: at least one if there is any, within the
/// budget unless it is a single one, and no more dropped than need be.
pub proof fn lemma_kept_is_newest_within_budget(chunks: Seq<(u64, Seq<u8>)>, budget: nat)
    requires
        chunks.len() > 0,
    ensures
        ({
            let rest = kept(chunks, budget);
            let dropped = chunks.len() - rest.len();
            &&& rest.len() > 0
            &&& dropped >= 0
            &&& rest == chunks.skip(dropped)
            &&& rest.last() == chunks.last()
            &&& bytes_in(rest) <= budget || rest.len() == 1
            &&& dropped > 0 ==> bytes_in(chunks.skip(dropped - 1)) > budget
        }),
    decreases chunks.len(),
{
    if bytes_in(chunks) > budget && chunks.len() > 1 {
        let tail = chunks.drop_first();
        lemma_kept_is_newest_within_budget(tail, budget);
        let rest = kept(tail, budget);
        let dropped = tail.len() - rest.len();
        assert(tail.skip(dropped) =~= chunks.skip(dropped + 1));
        if dropped > 0 {
            assert(tail.skip(dropped - 1) =~= chunks.skip(dropped));
        } else {
            assert(chunks.skip(0) =~= chunks);
        }
    } else {
        assert(chunks.skip(0) =~= chunks);
    }
}

/// Whether the chunks are numbered one after another, up to `latest_seq`.
pub open spec fn numbered_up_to(chunks: Seq<(u64, Seq<u8>)>, latest_seq: u64) -> bool {
    forall|i: int|
        0 <= i < chunks.len() ==> (#[trigger] chunks[i]).0 == latest_seq - (chunks.len() - 1 - i)
}

/// A buffer of chunks numbered one after another stays one when the next chunk
/// is put in.
pub proof fn lemma_push_keeps_numbering(
    chunks: Seq<(u64, Seq<u8>)>,
    latest_seq: u64,
    data: Seq<u8>,
    budget: nat,
)
    requires
        numbered_up_to(chunks, latest_seq),
        latest_seq < u64::MAX,
    ensures
        numbered_up_to(
            kept(chunks.push(((latest_seq + 1) as u64, data)), budget),
            (latest_seq + 1) as u64,
        ),
{
    let all = chunks.push(((latest_seq + 1) as u64, data));
    lemma_kept_is_newest_within_budget(all, budget);
    let dropped = all.len() - kept(all, budget).len();
    assert forall|i: int| 0 <= i < kept(all, budget).len() implies (
    #[trigger] kept(all, budget)[i]).0 == latest_seq + 1 - (kept(all, budget).len() - 1 - i) by {
        assert(kept(all, budget)[i] == all[i + dropped]);
        if i + dropped < chunks.len() {
            assert(all[i + dropped] == chunks[i + dropped]);
        }
    }
}

/// A client that can resume misses nothing: it gets every chunk after the last
/// one it has seen, up to the latest, in order.
pub proof fn lemma_resume_misses_nothing(
    chunks: Seq<(u64, Seq<u8>)>,
    resume_from_seq: u64,
    latest_seq: u64,
)
    requires
        numbered_up_to(chunks, latest_seq),
        in_window(chunks, resume_from_seq, latest_seq),
    ensures
        ({
            let sent = newer(chunks, resume_from_seq);
            &&& sent.len() == latest_seq - resume_from_seq
            &&& sent == chunks.skip(chunks.len() - (latest_seq - resume_from_seq))
            &&& forall|i: int|
                0 <= i < sent.len() ==> (#[trigger] sent[i]).0 == resume_from_seq + 1 + i
        }),
{
    let wanted = |chunk: (u64, Seq<u8>)| chunk.0 > resume_from_seq;
    let missing = latest_seq - resume_from_seq;
    let seen = chunks.len() - missing;
    if chunks.len() > 0 {
        assert(chunks[0].0 == latest_seq - (chunks.len() - 1));
    }
    assert(chunks =~= chunks.take(seen) + chunks.skip(seen));
    Seq::filter_distributes_over_add(chunks.take(seen), chunks.skip(seen), wanted);
    lemma_filter_none(chunks.take(seen), wanted);
    lemma_filter_all(chunks.skip(seen), wanted);
    assert(chunks.take(seen).filter(wanted) + chunks.skip(seen).filter(wanted) =~= chunks.skip(
        seen,
    ));
}

proof fn lemma_filter_none(
    chunks: Seq<(u64, Seq<u8>)>,
    wanted: spec_fn((u64, Seq<u8>)) -> bool,
)
    requires
        forall|i: int| 0 <= i < chunks.len() ==> !wanted(#[trigger] chunks[i]),
    ensures
        chunks.filter(wanted) == Seq::<(u64, Seq<u8>)>::empty(),
    decreases chunks.len(),
{
    reveal(Seq::filter);
    if chunks.len() > 0 {
        assert(!wanted(chunks[chunks.len() - 1]));
        assert forall|i: int| 0 <= i < chunks.drop_last().len() implies !wanted(
            #[trigger] chunks.drop_last()[i],
        ) by {
            assert(chunks.drop_last()[i] == chunks[i]);
        }
        lemma_filter_none(chunks.drop_last(), wanted);
    }
}

proof fn lemma_filter_all(chunks: Seq<(u64, Seq<u8>)>, wanted: spec_fn((u64, Seq<u8>)) -> bool)
    requires
        forall|i: int| 0 <= i < chunks.len() ==> wanted(#[trigger] chunks[i]),
    ensures
        chunks.filter(wanted) == chunks,
    decreases chunks.len(),
{
    reveal(Seq::filter);
    if chunks.len() > 0 {
        assert(wanted(chunks[chunks.len() - 1]));
        assert forall|i: int| 0 <= i < chunks.drop_last().len() implies wanted(
            #[trigger] chunks.drop_last()[i],
        ) by {
            assert(chunks.drop_last()[i] == chunks[i]);
        }
        lemma_filter_all(chunks.drop_last(), wanted);
        assert(chunks.drop_last().push(chunks.last()) =~= chunks);
    }
}

/// A pane is granted 256 KiB while as much is left of the 64 MiB for all panes, and
/// what is left afterwards, never more. With all of it granted there is nothing left.
pub proof fn lemma_grants_stay_within_the_budget(budget: ReplayBudget)
    ensures
        0 <= budget.grant() <= 262_144,
        budget.used <= 67_108_864 ==> budget.used + budget.grant() <= 67_108_864,
        budget.used + 262_144 <= 67_108_864 ==> budget.grant() == 262_144,
        budget.used <= 67_108_864 < budget.used + 262_144 ==> budget.used + budget.grant()
            == 67_108_864,
        budget.used > 67_108_864 ==> budget.grant() == 0,
{
}

/// The bytes of two rows of chunks are those of the one and those of the other, and
/// those of one chunk are its bytes.
pub proof fn lemma_bytes_add_up(front: Seq<(u64, Seq<u8>)>, back: Seq<(u64, Seq<u8>)>, chunk: (
    u64,
    Seq<u8>,
))
    ensures
        bytes_in(front + back) == bytes_in(front) + bytes_in(back),
        bytes_in(seq![chunk]) == chunk.1.len(),
        bytes_in(seq![]) == 0,
    decreases front.len(),
{
    let one = seq![chunk];
    assert(one.drop_first() =~= seq![]);
    assert(bytes_in(one.drop_first()) == 0);
    let all = front + back;
    if front.len() == 0 {
        assert(all =~= back);
    } else {
        assert(all.drop_first() =~= front.drop_first() + back);
        lemma_bytes_add_up(front.drop_first(), back, chunk);
    }
}

/// Where chunks are numbered one after another, a client can resume exactly if the
/// chunk that it has seen last is one of those kept; where none is kept, exactly if
/// it has seen everything.
pub proof fn lemma_resume_where_the_last_seen_is_kept(
    chunks: Seq<(u64, Seq<u8>)>,
    resume_from_seq: u64,
    latest_seq: u64,
)
    requires
        numbered_up_to(chunks, latest_seq),
    ensures
        chunks.len() > 0 ==> (in_window(chunks, resume_from_seq, latest_seq) <==> exists|i: int|
            0 <= i < chunks.len() && (#[trigger] chunks[i]).0 == resume_from_seq),
        chunks.len() == 0 ==> (in_window(chunks, resume_from_seq, latest_seq) <==> resume_from_seq
            == latest_seq),
{
    if chunks.len() > 0 {
        assert(chunks[0].0 == latest_seq - (chunks.len() - 1));
        if in_window(chunks, resume_from_seq, latest_seq) {
            let i = resume_from_seq - chunks[0].0;
            assert(chunks[i].0 == resume_from_seq);
        }
    }
}

/// What a client is sent is what it has not seen, and nothing else.
pub proof fn lemma_only_what_is_new_is_sent(
    chunks: Seq<(u64, Seq<u8>)>,
    resume_from_seq: u64,
    chunk: (u64, Seq<u8>),
)
    ensures
        newer(chunks, resume_from_seq).contains(chunk) <==> chunks.contains(chunk)
            && resume_from_seq < chunk.0,
{
    let wanted = |chunk: (u64, Seq<u8>)| chunk.0 > resume_from_seq;
    let sent = chunks.filter(wanted);
    broadcast use Seq::lemma_filter_pred, Seq::lemma_filter_contains;

    if sent.contains(chunk) {
        let i = choose|i: int| 0 <= i < sent.len() && sent[i] == chunk;
        assert(wanted(sent[i]));
        chunks.lemma_filter_contains_rev(wanted, chunk);
    }
    if chunks.contains(chunk) && wanted(chunk) {
        let i = choose|i: int| 0 <= i < chunks.len() && chunks[i] == chunk;
        chunks.lemma_filter_contains(wanted, i);
    }
}

/// What a pane was granted can be granted again once it is returned.
pub proof fn lemma_what_is_returned_can_be_granted_again(
    before: ReplayBudget,
    granted: ReplayBudget,
    bytes: usize,
)
    requires
        bytes == before.grant(),
        granted.used == before.used + bytes,
    ensures
        granted.after_release(bytes) == before.used,
{
}

} // verus!
