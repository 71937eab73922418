use d300::rotation::sweep;
use d300::{Angle, AngledScanLine, Frame, RotationAggregator, D300};

fn point(distance: usize) -> AngledScanLine {
    AngledScanLine { distance, intensity: 1, angle: Angle { numer: 0, denom: 100 } }
}

fn frame_between(start_angle: u16, end_angle: u16, distances: &[usize]) -> Frame {
    Frame {
        header: 0x54,
        message_type: 1,
        len: distances.len() as u8,
        speed: 0,
        start_angle,
        data: distances.iter().map(|d| point(*d)).collect(),
        end_angle,
        ts: 0,
        crc: 0,
    }
}

fn sector_bytes(start_angle: u16, distance: u16, end_angle: u16) -> Vec<u8> {
    let mut bytes = vec![0x54, 0x21, 0, 0];
    bytes.extend_from_slice(&start_angle.to_le_bytes());
    bytes.extend_from_slice(&distance.to_le_bytes());
    bytes.push(1);
    bytes.extend_from_slice(&end_angle.to_le_bytes());
    bytes.extend_from_slice(&[0, 0, 0]);
    bytes
}

#[test]
fn wraparound_sweep_is_taken_through_zero() {
    assert_eq!(sweep(35000, 1000), 2000);
}

#[test]
fn sweep_without_wraparound_is_the_difference() {
    assert_eq!(sweep(1000, 35000), 34000);
    assert_eq!(sweep(1234, 1234), 0);
    assert_eq!(sweep(0, 36000), 36000);
    assert_eq!(sweep(0, 65535), 65535);
}

#[test]
fn sweep_from_beyond_a_full_turn_can_be_negative() {
    assert_eq!(sweep(36000, 0), 0);
    assert_eq!(sweep(65535, 0), -29535);
    assert_eq!(sweep(40000, 1000), -3000);
}

#[test]
fn rotation_batching_gives_one_batch_at_a_full_turn() {
    let mut aggregator = RotationAggregator::new(1);
    assert_eq!(aggregator.push(frame_between(0, 9000, &[1, 2])), None);
    assert_eq!(aggregator.covered_angle(), 9000);
    assert_eq!(aggregator.push(frame_between(9000, 18000, &[3])), None);
    assert_eq!(aggregator.push(frame_between(18000, 27000, &[])), None);
    assert_eq!(aggregator.covered_angle(), 27000);
    assert_eq!(aggregator.pending_len(), 3);
    let batch = aggregator.push(frame_between(27000, 36000, &[4, 5])).unwrap();
    assert_eq!(batch, vec![point(1), point(2), point(3), point(4), point(5)]);
    assert_eq!(aggregator.covered_angle(), 0);
    assert_eq!(aggregator.pending_len(), 0);
    assert_eq!(aggregator.push(frame_between(0, 35999, &[6])), None);
    assert_eq!(aggregator.covered_angle(), 35999);
    assert_eq!(aggregator.push(frame_between(35999, 36000, &[7])), Some(vec![point(6), point(7)]));
}

#[test]
fn rotation_batching_discards_the_overshoot() {
    let mut aggregator = RotationAggregator::new(1);
    assert_eq!(aggregator.push(frame_between(0, 30000, &[1])), None);
    assert_eq!(aggregator.push(frame_between(30000, 50000, &[2])), Some(vec![point(1), point(2)]));
    assert_eq!(aggregator.covered_angle(), 0);
    assert_eq!(aggregator.push(frame_between(0, 35999, &[3])), None);
}

#[test]
fn rotation_batching_counts_wraparound_frames() {
    let mut aggregator = RotationAggregator::new(1);
    assert_eq!(aggregator.push(frame_between(1000, 35000, &[1])), None);
    assert_eq!(aggregator.covered_angle(), 34000);
    assert_eq!(aggregator.push(frame_between(35000, 1000, &[2])), Some(vec![point(1), point(2)]));
}

#[test]
fn rotation_batching_waits_for_the_wanted_number_of_turns() {
    let mut aggregator = RotationAggregator::new(3);
    for turn in 0..2 {
        assert_eq!(aggregator.push(frame_between(0, 36000, &[turn])), None);
    }
    assert_eq!(aggregator.covered_angle(), 72000);
    assert_eq!(
        aggregator.push(frame_between(0, 36000, &[2])),
        Some(vec![point(0), point(1), point(2)])
    );
}

#[test]
fn rotation_batching_with_zero_turns_gives_every_frame() {
    let mut aggregator = RotationAggregator::new(0);
    assert_eq!(aggregator.push(frame_between(0, 0, &[1])), Some(vec![point(1)]));
    assert_eq!(aggregator.push(frame_between(40000, 1000, &[2])), None);
    assert_eq!(aggregator.covered_angle(), -3000);
    assert_eq!(aggregator.push(frame_between(0, 2999, &[3])), None);
    assert_eq!(aggregator.push(frame_between(0, 1, &[4])), Some(vec![point(2), point(3), point(4)]));
}

#[test]
fn rotation_batching_with_the_largest_target_never_fills() {
    let mut aggregator = RotationAggregator::new(usize::MAX);
    for _ in 0..100 {
        assert_eq!(aggregator.push(frame_between(0, 65535, &[1])), None);
    }
    assert_eq!(aggregator.covered_angle(), 6553500);
    assert_eq!(aggregator.pending_len(), 100);
}

#[test]
fn new_aggregator_has_seen_nothing() {
    let aggregator = RotationAggregator::new(5);
    assert_eq!(aggregator.covered_angle(), 0);
    assert_eq!(aggregator.pending_len(), 0);
}

#[test]
fn rotation_stream_gives_whole_rotations_and_drops_the_rest() {
    let mut bytes = Vec::new();
    for turn in 0..2u16 {
        for sector in 0..4u16 {
            bytes.extend_from_slice(&sector_bytes(
                sector * 9000,
                turn * 10 + sector,
                (sector + 1) * 9000,
            ));
        }
    }
    bytes.extend_from_slice(&sector_bytes(0, 99, 9000));
    let mut stream = D300::new(bytes).frame_in(1);
    let first: Vec<usize> = stream.next().unwrap().iter().map(|p| p.distance).collect();
    assert_eq!(first, vec![0, 1, 2, 3]);
    let second: Vec<usize> = stream.next().unwrap().iter().map(|p| p.distance).collect();
    assert_eq!(second, vec![10, 11, 12, 13]);
    assert_eq!(stream.next(), None);
    assert_eq!(stream.next(), None);
}

#[test]
fn rotation_stream_of_two_turns_joins_them() {
    let mut bytes = Vec::new();
    for sector in 0..8u16 {
        bytes.extend_from_slice(&sector_bytes((sector % 4) * 9000, sector, (sector % 4 + 1) * 9000));
    }
    let mut stream = D300::new(bytes).frame_in(2);
    let batch: Vec<usize> = stream.next().unwrap().iter().map(|p| p.distance).collect();
    assert_eq!(batch, vec![0, 1, 2, 3, 4, 5, 6, 7]);
    assert_eq!(stream.next(), None);
}

#[test]
fn rotation_stream_keeps_the_angles_of_the_points() {
    let mut bytes = sector_bytes(0, 5, 18000);
    bytes.extend_from_slice(&sector_bytes(18000, 6, 36000));
    let batch = D300::new(bytes).frame_in(1).next().unwrap();
    assert_eq!(
        batch,
        vec![
            AngledScanLine { distance: 5, intensity: 1, angle: Angle { numer: 0, denom: 100 } },
            AngledScanLine { distance: 6, intensity: 1, angle: Angle { numer: 18000, denom: 100 } },
        ]
    );
}
