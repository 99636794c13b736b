use tymux::replay_buffer::{
    allocate_replay_budget, release_replay_budget, ReplayBudget, ReplayBuffer, ReplayOutcome,
    DEFAULT_REPLAY_BUFFER_BYTES, GLOBAL_REPLAY_BUFFER_BUDGET_BYTES, MIN_REPLAY_BUFFER_BYTES,
};

#[test]
fn replay_buffer_push_should_evict_oldest_entries_until_under_budget_when_new_chunk_arrives() {
    let mut buf = ReplayBuffer::new(100);
    buf.push(1, &[0u8; 30]);
    buf.push(2, &[0u8; 30]);
    buf.push(3, &[0u8; 30]);
    assert_eq!(buf.total_bytes, 90);

    buf.push(4, &[0u8; 30]);

    assert!(
        buf.total_bytes <= 100,
        "total_bytes ({}) must be back under the 100-byte budget after eviction",
        buf.total_bytes
    );
    assert_eq!(
        buf.entries.back().map(|(seq, _)| *seq),
        Some(4),
        "the newly pushed entry must always be retained"
    );
    assert!(
        !buf.entries.iter().any(|(seq, _)| *seq == 1),
        "the oldest entry (seq 1) must have been evicted to make room"
    );
}

#[test]
fn replay_buffer_push_should_retain_newest_entry_even_when_it_alone_exceeds_budget() {
    let mut buf = ReplayBuffer::new(10);
    buf.push(1, &[0u8; 5]);
    buf.push(2, &[0u8; 50]);

    assert_eq!(buf.entries.len(), 1);
    assert_eq!(buf.oldest_seq(), Some(2));
}

#[test]
fn replay_buffer_replay_since_should_return_in_window_when_resume_from_seq_equals_oldest_retained()
{
    let mut buf = ReplayBuffer::new(1_000);
    for seq in 5..=9u64 {
        buf.push(seq, b"x");
    }

    let outcome = buf.replay_since(5, 9);

    match outcome {
        ReplayOutcome::InWindow { chunks, tail_seq } => {
            assert_eq!(tail_seq, 9);
            assert_eq!(
                chunks.iter().map(|(seq, _)| *seq).collect::<Vec<_>>(),
                vec![6, 7, 8, 9]
            );
        }
        other => panic!("expected InWindow, got {other:?}"),
    }
}

#[test]
fn replay_buffer_replay_since_should_return_gap_exceeded_when_resume_from_seq_is_one_less_than_oldest_retained(
) {
    let mut buf = ReplayBuffer::new(1_000);
    for seq in 5..=9u64 {
        buf.push(seq, b"x");
    }
    assert_eq!(buf.oldest_seq(), Some(5));

    let outcome = buf.replay_since(5u64.saturating_sub(1), 9);

    assert_eq!(outcome, ReplayOutcome::GapExceeded { oldest_available_seq: Some(5) });
}

#[test]
fn replay_buffer_replay_since_should_return_in_window_empty_when_fresh_pane_has_no_output_yet() {
    let buf = ReplayBuffer::new(1_000);

    let outcome = buf.replay_since(0, 0);

    assert_eq!(outcome, ReplayOutcome::InWindow { chunks: vec![], tail_seq: 0 });
}

#[test]
fn replay_buffer_replay_since_should_return_gap_exceeded_when_resume_from_seq_exceeds_latest_seq()
{
    let mut buf = ReplayBuffer::new(1_000);
    buf.push(1, b"x");
    buf.push(2, b"y");

    let outcome = buf.replay_since(100, 2);

    assert_eq!(outcome, ReplayOutcome::GapExceeded { oldest_available_seq: Some(1) });
}

#[test]
fn allocate_replay_budget_should_return_zero_not_min_floor_when_global_budget_already_exhausted() {
    let mut budget = ReplayBudget::new();
    let mut granted_so_far = Vec::new();
    loop {
        let granted = allocate_replay_budget(&mut budget);
        if granted == 0 {
            break;
        }
        granted_so_far.push(granted);
    }

    let granted = allocate_replay_budget(&mut budget);

    assert_eq!(
        granted, 0,
        "once the global budget is exhausted, allocate_replay_budget must grant 0, \
         not MIN_REPLAY_BUFFER_BYTES"
    );

    for bytes in granted_so_far {
        release_replay_budget(&mut budget, bytes);
    }
    assert_eq!(budget.used, 0);
}

#[test]
fn budget_is_granted_in_full_and_then_in_part() {
    assert_eq!(MIN_REPLAY_BUFFER_BYTES, 16 * 1024);
    let mut budget = ReplayBudget { used: GLOBAL_REPLAY_BUFFER_BUDGET_BYTES - 1000 };
    assert_eq!(allocate_replay_budget(&mut budget), 1000);
    assert_eq!(budget.used, GLOBAL_REPLAY_BUFFER_BUDGET_BYTES);
    release_replay_budget(&mut budget, GLOBAL_REPLAY_BUFFER_BUDGET_BYTES);
    assert_eq!(allocate_replay_budget(&mut budget), DEFAULT_REPLAY_BUFFER_BYTES);
    let mut empty = ReplayBudget::new();
    release_replay_budget(&mut empty, 1);
    assert_eq!(empty.used, usize::MAX);
    assert_eq!(allocate_replay_budget(&mut empty), 0);
}

#[test]
fn a_resuming_client_gets_every_chunk_it_has_not_seen() {
    let mut buf = ReplayBuffer::new(20);
    for seq in 1..=30u64 {
        buf.push(seq, &[seq as u8; 3]);
    }
    assert_eq!(buf.oldest_seq(), Some(25));
    for seen in 25..=30u64 {
        match buf.replay_since(seen, 30) {
            ReplayOutcome::InWindow { chunks, tail_seq } => {
                assert_eq!(tail_seq, 30);
                let expected: Vec<(u64, Vec<u8>)> =
                    (seen + 1..=30).map(|seq| (seq, vec![seq as u8; 3])).collect();
                assert_eq!(chunks, expected);
            }
            other => panic!("expected InWindow, got {other:?}"),
        }
    }
    for seen in 0..25u64 {
        assert_eq!(
            buf.replay_since(seen, 30),
            ReplayOutcome::GapExceeded { oldest_available_seq: Some(25) }
        );
    }
}
