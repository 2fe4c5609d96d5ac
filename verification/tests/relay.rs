use cezanne::analizer::{block_samples, spectrum_size};
use cezanne::input_stream::SampleRelay;
use cezanne::output_stream::{worker_step, SpectrumSlot, WorkerAction};

fn ramp(start: usize, len: usize) -> Vec<f32> {
    (start..start + len).map(|i| i as f32).collect()
}

#[test]
fn new_relay_is_empty() {
    let relay: SampleRelay<f32> = SampleRelay::new(1024);
    assert_eq!(relay.len(), 0);
    assert_eq!(relay.block_size(), 1024);
    assert!(!relay.is_ready());
}

#[test]
fn push_appends_while_block_is_incomplete() {
    let mut relay: SampleRelay<f32> = SampleRelay::new(4);
    relay.push(&[1.0, 2.0]);
    relay.push(&[3.0]);
    assert_eq!(relay.len(), 3);
    assert!(!relay.is_ready());
    relay.push(&[4.0, 5.0]);
    assert_eq!(relay.len(), 5);
    assert!(relay.is_ready());
    assert_eq!(relay.take_block(), Some(vec![1.0, 2.0, 3.0, 4.0]));
    assert_eq!(relay.len(), 1);
}

#[test]
fn push_drops_a_stale_block() {
    let mut relay: SampleRelay<f32> = SampleRelay::new(4);
    relay.push(&[1.0, 2.0, 3.0, 4.0, 5.0]);
    assert!(relay.is_ready());
    relay.push(&[9.0, 8.0]);
    assert_eq!(relay.len(), 2);
    assert!(!relay.is_ready());
    relay.push(&[7.0, 6.0]);
    assert_eq!(relay.take_block(), Some(vec![9.0, 8.0, 7.0, 6.0]));
    assert_eq!(relay.len(), 0);
}

#[test]
fn push_clears_at_exactly_one_block() {
    let mut relay: SampleRelay<u8> = SampleRelay::new(3);
    relay.push(&[1, 2, 3]);
    relay.push(&[4]);
    assert_eq!(relay.len(), 1);
    assert_eq!(relay.take_block(), None);
}

#[test]
fn push_of_an_empty_chunk_changes_nothing_below_a_block() {
    let mut relay: SampleRelay<u8> = SampleRelay::new(3);
    relay.push(&[1, 2]);
    relay.push(&[]);
    assert_eq!(relay.len(), 2);
}

#[test]
fn take_block_needs_a_whole_block() {
    let mut relay: SampleRelay<f32> = SampleRelay::new(4);
    relay.push(&[1.0, 2.0, 3.0]);
    assert_eq!(relay.take_block(), None);
    assert_eq!(relay.len(), 3);
}

#[test]
fn take_block_keeps_the_remainder_in_order() {
    let mut relay: SampleRelay<u16> = SampleRelay::new(2);
    relay.push(&[10, 11, 12, 13, 14]);
    assert_eq!(relay.take_block(), Some(vec![10, 11]));
    assert_eq!(relay.take_block(), Some(vec![12, 13]));
    assert_eq!(relay.take_block(), None);
    assert_eq!(relay.len(), 1);
}

#[test]
fn relay_with_empty_blocks_is_always_ready() {
    let mut relay: SampleRelay<u8> = SampleRelay::new(0);
    assert!(relay.is_ready());
    assert_eq!(relay.take_block(), Some(vec![]));
    relay.push(&[1, 2]);
    relay.push(&[3]);
    assert_eq!(relay.len(), 1);
}

#[test]
fn worker_waits_without_a_block() {
    let mut relay: SampleRelay<f32> = SampleRelay::new(4);
    relay.push(&[1.0]);
    assert!(matches!(worker_step(false, &mut relay), WorkerAction::Wait));
    assert_eq!(relay.len(), 1);
}

#[test]
fn worker_exits_on_termination_even_with_a_block() {
    let mut relay: SampleRelay<f32> = SampleRelay::new(2);
    relay.push(&[1.0, 2.0, 3.0]);
    assert!(matches!(worker_step(true, &mut relay), WorkerAction::Exit));
    assert_eq!(relay.len(), 3);
}

#[test]
fn worker_takes_the_block_to_analyze() {
    let mut relay: SampleRelay<f32> = SampleRelay::new(2);
    relay.push(&[1.0, 2.0, 3.0]);
    match worker_step(false, &mut relay) {
        WorkerAction::Analyze(block) => assert_eq!(block, vec![1.0, 2.0]),
        _ => panic!("a block was ready"),
    }
    assert_eq!(relay.len(), 1);
    assert!(matches!(worker_step(false, &mut relay), WorkerAction::Wait));
}

#[test]
fn slot_is_empty_until_published() {
    let slot: SpectrumSlot<f32> = SpectrumSlot::new();
    assert_eq!(slot.snapshot(), None);
}

#[test]
fn slot_replaces_the_spectrum_as_a_whole() {
    let mut slot: SpectrumSlot<f32> = SpectrumSlot::new();
    slot.publish(vec![0.0, 0.5, 1.0]);
    assert_eq!(slot.snapshot(), Some(vec![0.0, 0.5, 1.0]));
    slot.publish(vec![1.0]);
    assert_eq!(slot.snapshot(), Some(vec![1.0]));
    slot.publish(vec![]);
    assert_eq!(slot.snapshot(), Some(vec![]));
}

#[test]
fn four_chunks_of_300_yield_one_block_of_1024() {
    let channels: u16 = 1;
    let mut relay: SampleRelay<f32> = SampleRelay::new(block_samples(1024, channels).unwrap());
    assert_eq!(relay.block_size(), 1024);
    let mut slot: SpectrumSlot<f32> = SpectrumSlot::new();
    for chunk in 0..4 {
        assert!(matches!(worker_step(false, &mut relay), WorkerAction::Wait));
        assert_eq!(slot.snapshot(), None);
        relay.push(&ramp(chunk * 300, 300));
    }
    assert_eq!(relay.len(), 1200);
    let block = match worker_step(false, &mut relay) {
        WorkerAction::Analyze(block) => block,
        _ => panic!("1200 samples hold a block of 1024"),
    };
    assert_eq!(block, ramp(0, 1024));
    assert_eq!(relay.len(), 176);
    let bins = spectrum_size(block.len(), channels);
    assert_eq!(bins, 512);
    slot.publish(vec![0.0; bins]);
    assert_eq!(slot.snapshot().map(|spectrum| spectrum.len()), Some(512));
    assert!(matches!(worker_step(false, &mut relay), WorkerAction::Wait));
    assert_eq!(relay.len(), 176);
}
