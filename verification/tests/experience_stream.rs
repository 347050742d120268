use std::sync::Arc;

use axiom_core::experience::ExperienceEvent;
use axiom_core::experience::StreamError;
use axiom_core::sampling::SamplingStrategy;
use axiom_core::experience_stream::sample_from;
use axiom_core::experience_stream::settled;
use axiom_core::experience_stream::slot_index;
use axiom_core::experience_stream::window_span;
use axiom_core::experience_stream::ExperienceStream;
use axiom_core::experience_stream::Slot;

fn filled(capacity: usize, window: usize, writes: u128) -> ExperienceStream {
    let s = ExperienceStream::new(capacity, window);
    for i in 0..writes {
        assert_eq!(s.write_event(ExperienceEvent::new(i)), Ok(i as u64));
    }
    s
}

fn ids(batch: &[ExperienceEvent]) -> Vec<u128> {
    batch.iter().map(|e| e.event_id).collect()
}

fn slot(ticket: u64, filled: bool, id: u128) -> Slot {
    Slot {
        ticket,
        filled,
        event: ExperienceEvent::new(id),
    }
}

#[test]
fn new_stream_is_empty() {
    let s = ExperienceStream::new(1000, 100);
    assert_eq!(s.capacity(), 1000);
    assert_eq!(s.window_size(), 100);
    assert_eq!(s.total_written(), 0);
    assert_eq!(s.sample_batch(10, SamplingStrategy::Uniform), Vec::new());
    assert_eq!(s.sample_batch(10, SamplingStrategy::Recent), Vec::new());
    let (copies, first) = s.snapshot();
    assert_eq!(copies.len(), 0);
    assert_eq!(first, 0);
}

#[test]
fn written_event_is_sampled_back() {
    let s = ExperienceStream::new(8, 4);
    let mut e = ExperienceEvent::default();
    e.event_id = 77;
    e.timestamp = 123_456;
    e.event_type = 2;
    e.flags = 1;
    e.state[0] = 1.0f32.to_bits();
    assert_eq!(s.write_event(e), Ok(0));
    assert_eq!(s.total_written(), 1);
    assert_eq!(s.sample_batch(1, SamplingStrategy::Uniform), vec![e]);
    assert_eq!(s.sample_batch(5, SamplingStrategy::Recent), vec![e]);
    let (copies, first) = s.snapshot();
    assert_eq!(first, 0);
    assert_eq!(copies.len(), 1);
    assert!(copies[0].filled);
    assert_eq!(copies[0].ticket, 0);
    assert_eq!(copies[0].event, e);
}

#[test]
fn capacity_100_window_10_after_250_writes() {
    let s = filled(100, 10, 250);
    assert_eq!(s.total_written(), 250);
    for _ in 0..200 {
        let batch = s.sample_batch(10, SamplingStrategy::Uniform);
        assert_eq!(batch.len(), 10);
        let mut seen = ids(&batch);
        for id in &seen {
            assert!(*id >= 150);
        }
        seen.sort();
        assert_eq!(seen, (240..250).collect::<Vec<u128>>());
    }
}

#[test]
fn full_window_never_shows_overwritten_events() {
    for capacity in [1usize, 3, 10] {
        for k in [1u128, 4, 25] {
            let s = filled(capacity, capacity, capacity as u128 + k);
            for strategy in [SamplingStrategy::Uniform, SamplingStrategy::Recent] {
                let mut seen = ids(&s.sample_batch(capacity, strategy));
                seen.sort();
                assert_eq!(
                    seen,
                    (k..capacity as u128 + k).collect::<Vec<u128>>()
                );
            }
        }
    }
}

#[test]
fn first_sample_of_a_stream_is_the_draw_for_seed_zero() {
    let s = filled(100, 10, 250);
    assert_eq!(
        ids(&s.sample_batch(10, SamplingStrategy::Uniform)),
        vec![245, 241, 249, 247, 240, 244, 243, 242, 246, 248]
    );
    assert_eq!(
        ids(&s.sample_batch(3, SamplingStrategy::Uniform)),
        vec![240, 242, 246]
    );
    assert_eq!(
        ids(&s.sample_batch(4, SamplingStrategy::Recent)),
        vec![249, 248, 247, 246]
    );
}

#[test]
fn sample_size_is_bounded() {
    let s = filled(50, 8, 5);
    assert_eq!(s.sample_batch(3, SamplingStrategy::Uniform).len(), 3);
    assert_eq!(s.sample_batch(20, SamplingStrategy::Uniform).len(), 5);
    let s = filled(50, 8, 30);
    assert_eq!(s.sample_batch(20, SamplingStrategy::Uniform).len(), 8);
    assert_eq!(s.sample_batch(0, SamplingStrategy::Uniform).len(), 0);
    let s = filled(4, 8, 30);
    assert_eq!(s.sample_batch(20, SamplingStrategy::Uniform).len(), 4);
}

#[test]
fn malformed_event_is_refused_and_takes_no_ticket() {
    let s = filled(4, 4, 2);
    let mut bad = ExperienceEvent::new(9);
    bad.event_type = 64;
    assert_eq!(s.write_event(bad), Err(StreamError::UnknownEventType(64)));
    bad.event_type = 0;
    bad.flags = 0x8000;
    assert_eq!(s.write_event(bad), Err(StreamError::ReservedFlags(0x8000)));
    assert_eq!(s.total_written(), 2);
    assert_eq!(s.write_event(ExperienceEvent::new(5)), Ok(2));
    assert_eq!(
        ids(&s.sample_batch(4, SamplingStrategy::Recent)),
        vec![5, 1, 0]
    );
}

#[test]
fn zero_capacity_accepts_and_forgets() {
    let s = filled(0, 10, 3);
    assert_eq!(s.total_written(), 3);
    assert_eq!(s.sample_batch(5, SamplingStrategy::Uniform), Vec::new());
}

#[test]
fn handle_is_shared() {
    let s = Arc::new(ExperienceStream::new(16, 16));
    let producer = s.clone();
    let consumer = s.clone();
    for i in 0..5u128 {
        assert_eq!(producer.write_event(ExperienceEvent::new(i)), Ok(i as u64));
    }
    assert_eq!(
        ids(&consumer.sample_batch(5, SamplingStrategy::Recent)),
        vec![4, 3, 2, 1, 0]
    );
    assert_eq!(s.total_written(), 5);
}

#[test]
fn tickets_map_to_slots_round_robin() {
    assert_eq!(slot_index(0, 100), 0);
    assert_eq!(slot_index(99, 100), 99);
    assert_eq!(slot_index(100, 100), 0);
    assert_eq!(slot_index(249, 100), 49);
    assert_eq!(slot_index(u64::MAX, 7), (u64::MAX % 7) as usize);
    assert_eq!(slot_index(12345, 1), 0);
}

#[test]
fn span_is_cut_to_window_capacity_and_tickets() {
    assert_eq!(window_span(250, 100, 10), 10);
    assert_eq!(window_span(4, 100, 10), 4);
    assert_eq!(window_span(250, 3, 10), 3);
    assert_eq!(window_span(0, 100, 10), 0);
    assert_eq!(window_span(u64::MAX, usize::MAX, usize::MAX), usize::MAX);
    assert_eq!(window_span(250, 100, 0), 0);
}

#[test]
fn only_settled_slots_count() {
    let snapshot = vec![
        slot(240, true, 1),
        slot(141, true, 2),
        slot(242, false, 3),
        slot(243, true, 4),
        slot(344, true, 5),
        slot(245, true, 6),
    ];
    assert_eq!(ids(&settled(&snapshot, 240)), vec![1, 4, 6]);
    assert_eq!(ids(&settled(&snapshot, 241)), Vec::<u128>::new());
    assert_eq!(ids(&settled(&Vec::new(), 0)), Vec::<u128>::new());
    let at_the_end = vec![slot(u64::MAX, true, 1), slot(0, true, 2)];
    assert_eq!(ids(&settled(&at_the_end, u64::MAX)), vec![1]);
}

#[test]
fn a_sample_is_drawn_from_the_settled_events() {
    let snapshot: Vec<Slot> = (0..10u64)
        .map(|k| slot(240 + k, k != 3, 1000 + k as u128))
        .collect();
    assert_eq!(
        ids(&sample_from(&snapshot, 240, 4, SamplingStrategy::Recent, 0)),
        vec![1009, 1008, 1007, 1006]
    );
    assert_eq!(
        ids(&sample_from(&snapshot, 240, 20, SamplingStrategy::Recent, 0)),
        vec![1009, 1008, 1007, 1006, 1005, 1004, 1002, 1001, 1000]
    );
    let full: Vec<Slot> = (0..10u64).map(|k| slot(k, true, k as u128)).collect();
    assert_eq!(
        ids(&sample_from(&full, 0, 3, SamplingStrategy::Uniform, 42)),
        vec![3, 2, 4]
    );
}

#[test]
fn snapshot_follows_the_counter_value() {
    let s = filled(100, 10, 250);
    let (copies, first) = s.snapshot_at(250);
    assert_eq!(first, 240);
    assert_eq!(
        copies.iter().map(|c| c.ticket).collect::<Vec<u64>>(),
        (240..250).collect::<Vec<u64>>()
    );
    assert_eq!(ids(&settled(&copies, first)), (240..250).collect::<Vec<u128>>());
    let (copies, first) = s.snapshot_at(4);
    assert_eq!((copies.len(), first), (4, 0));
    assert_eq!(ids(&settled(&copies, first)), Vec::<u128>::new());
    let (copies, first) = s.snapshot_at(0);
    assert_eq!((copies.len(), first), (0, 0));
    let (copies, first) = s.snapshot_at(u64::MAX);
    assert_eq!((copies.len(), first), (10, u64::MAX - 10));
    let narrow = filled(3, 10, 8);
    let (copies, first) = narrow.snapshot_at(8);
    assert_eq!((copies.len(), first), (3, 5));
    let (copies, first) = narrow.snapshot();
    assert_eq!((copies.len(), first), (3, 5));
    assert_eq!(ids(&settled(&copies, first)), vec![5, 6, 7]);
    let none = filled(0, 10, 8);
    assert_eq!(none.snapshot_at(8).0.len(), 0);
}
