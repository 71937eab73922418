use d300::{Angle, AngledScanLine, D300};

fn frame_bytes(start_angle: u16, distances: &[u16], end_angle: u16) -> Vec<u8> {
    let mut bytes = vec![0x54, 0x20 | (distances.len() as u8), 0x10, 0x0e];
    bytes.extend_from_slice(&start_angle.to_le_bytes());
    for distance in distances {
        bytes.extend_from_slice(&distance.to_le_bytes());
        bytes.push(200);
    }
    bytes.extend_from_slice(&end_angle.to_le_bytes());
    bytes.extend_from_slice(&[0x39, 0x30, 0x7f]);
    bytes
}

/// What a sensor sends, as a reader that joins in the middle of a frame sees
/// it: the tail of one frame, then whole frames of twelve points.
fn capture() -> Vec<u8> {
    let mut bytes = vec![0xe1, 0x0a, 0xc6, 0x2b, 0x01, 0x39, 0x30, 0x7f];
    bytes.extend_from_slice(&frame_bytes(
        10,
        &[2803, 2805, 2810, 2816, 2821, 2830, 2836, 2845, 2851, 2860, 2872, 2880],
        853,
    ));
    bytes.extend_from_slice(&frame_bytes(
        930,
        &[2893, 2901, 2915, 2930, 2941, 2955, 2970, 2990, 3004, 3021, 3040, 3062],
        1771,
    ));
    bytes.extend_from_slice(&[0x54, 0x2c, 0x10, 0x0e, 0x3a, 0x07, 0x11]);
    bytes
}

#[test]
fn test_real_world() {
    let data = capture();
    let d300 = D300::new(data);

    let mut stream = d300.as_scan_line_stream();
    let first = stream.next().unwrap();

    assert_eq!(first.angle.numer as f64 / first.angle.denom as f64, 0.1);
    assert_eq!(first.distance, 2803);
}

#[test]
fn frame_stream_gives_each_whole_frame_then_ends() {
    let mut stream = D300::new(capture()).as_frame_stream();
    let first = stream.next().unwrap();
    assert_eq!(first.start_angle, 10);
    assert_eq!(first.end_angle, 853);
    assert_eq!(first.len, 12);
    let second = stream.next().unwrap();
    assert_eq!(second.start_angle, 930);
    assert_eq!(second.data[11].distance, 3062);
    assert_eq!(stream.next(), None);
    assert_eq!(stream.next(), None);
}

#[test]
fn frame_stream_of_nothing_is_empty() {
    assert_eq!(D300::new(Vec::new()).as_frame_stream().next(), None);
    assert_eq!(D300::new(vec![1, 2, 3]).as_frame_stream().next(), None);
}

#[test]
fn frame_stream_continues_where_read_frame_stopped() {
    let mut lidar = D300::new(capture());
    assert_eq!(lidar.read_frame().unwrap().start_angle, 10);
    let mut stream = lidar.as_frame_stream();
    assert_eq!(stream.next().unwrap().start_angle, 930);
    assert_eq!(stream.next(), None);
}

#[test]
fn scan_line_stream_gives_the_points_in_order() {
    let mut stream = D300::new(capture()).as_scan_line_stream();
    let mut distances: Vec<usize> = Vec::new();
    let mut angles: Vec<Angle> = Vec::new();
    while let Some(point) = stream.next() {
        assert_eq!(point.intensity, 200);
        distances.push(point.distance);
        angles.push(point.angle);
    }
    assert_eq!(
        distances,
        vec![
            2803, 2805, 2810, 2816, 2821, 2830, 2836, 2845, 2851, 2860, 2872, 2880, 2893, 2901,
            2915, 2930, 2941, 2955, 2970, 2990, 3004, 3021, 3040, 3062,
        ]
    );
    assert_eq!(angles[0], Angle { numer: 110, denom: 1100 });
    assert_eq!(angles[1], Angle { numer: 110 + 843, denom: 1100 });
    assert_eq!(angles[11], Angle { numer: 853 * 11, denom: 1100 });
    assert_eq!(angles[12], Angle { numer: 930 * 11, denom: 1100 });
    assert_eq!(angles[23], Angle { numer: 1771 * 11, denom: 1100 });
    assert_eq!(stream.next(), None);
}

#[test]
fn scan_line_stream_passes_over_frames_without_points() {
    let mut bytes = frame_bytes(0, &[], 100);
    bytes.extend_from_slice(&frame_bytes(100, &[7], 200));
    bytes.extend_from_slice(&frame_bytes(200, &[], 300));
    bytes.extend_from_slice(&frame_bytes(300, &[8, 9], 400));
    bytes.extend_from_slice(&frame_bytes(400, &[], 500));
    let mut stream = D300::new(bytes).as_scan_line_stream();
    assert_eq!(
        stream.next(),
        Some(AngledScanLine { distance: 7, intensity: 200, angle: Angle { numer: 100, denom: 100 } })
    );
    assert_eq!(stream.next().unwrap().distance, 8);
    assert_eq!(stream.next().unwrap().distance, 9);
    assert_eq!(stream.next(), None);
    assert_eq!(stream.next(), None);
}

#[test]
fn streams_end_without_error_at_every_cut() {
    let whole = capture();
    for cut in 0..=whole.len() {
        let bytes = whole[..cut].to_vec();
        let expected_frames = if cut >= 8 + 2 * 47 {
            2
        } else if cut >= 8 + 47 {
            1
        } else {
            0
        };
        let mut frames = D300::new(bytes.clone()).as_frame_stream();
        let mut seen = 0;
        while let Some(frame) = frames.next() {
            assert_eq!(frame.len, 12);
            seen += 1;
        }
        assert_eq!(seen, expected_frames);
        assert_eq!(frames.next(), None);

        let mut points = D300::new(bytes.clone()).as_scan_line_stream();
        let mut seen_points = 0;
        while points.next().is_some() {
            seen_points += 1;
        }
        assert_eq!(seen_points, 12 * expected_frames);
        assert_eq!(points.next(), None);

        let mut batches = D300::new(bytes).frame_in(1);
        assert_eq!(batches.next(), None);
    }
}
