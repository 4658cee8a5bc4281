use mel_pipeline::config::ConfigurationError;
use mel_pipeline::framing::FrameBuffer;

fn ramp(len: usize) -> Vec<f32> {
    (0..len).map(|i| i as f32).collect()
}

fn expected_frames(len: usize, window: usize, hop: usize) -> usize {
    if len >= window {
        1 + (len - window) / hop
    } else {
        0
    }
}

/// Feeds `stream` cut into chunks of the given sizes (the last size repeats),
/// draining after each chunk, and returns every frame taken.
fn feed(stream: &[f32], sizes: &[usize], window: usize, hop: usize) -> Vec<Vec<f32>> {
    let mut buffer = FrameBuffer::<f32>::new(window, hop).unwrap();
    let mut frames = Vec::new();
    let mut at = 0;
    let mut turn = 0;
    while at < stream.len() {
        let size = sizes[turn.min(sizes.len() - 1)].min(stream.len() - at);
        turn += 1;
        buffer.push(stream[at..at + size].to_vec());
        at += size;
        while let Some(frame) = buffer.try_take_frame() {
            frames.push(frame);
        }
    }
    frames
}

#[test]
fn new_rejects_window_below_two() {
    assert!(matches!(FrameBuffer::<f32>::new(0, 1), Err(ConfigurationError::WindowSize)));
    assert!(matches!(FrameBuffer::<f32>::new(1, 1), Err(ConfigurationError::WindowSize)));
    assert!(FrameBuffer::<f32>::new(2, 1).is_ok());
}

#[test]
fn new_rejects_zero_hop() {
    assert!(matches!(FrameBuffer::<f32>::new(4, 0), Err(ConfigurationError::HopLength)));
    assert!(matches!(FrameBuffer::<f32>::new(1, 0), Err(ConfigurationError::WindowSize)));
}

#[test]
fn new_buffer_is_empty_and_keeps_its_parameters() {
    let mut buffer = FrameBuffer::<f32>::new(400, 160).unwrap();
    assert_eq!(buffer.window_size(), 400);
    assert_eq!(buffer.hop_length(), 160);
    assert_eq!(buffer.len(), 0);
    assert!(buffer.try_take_frame().is_none());
}

#[test]
fn no_frame_until_a_whole_window_has_arrived() {
    let mut buffer = FrameBuffer::<f32>::new(4, 2).unwrap();
    buffer.push(vec![1.0, 2.0, 3.0]);
    assert!(buffer.try_take_frame().is_none());
    assert_eq!(buffer.len(), 3);
    buffer.push(vec![4.0]);
    assert_eq!(buffer.try_take_frame(), Some(vec![1.0, 2.0, 3.0, 4.0]));
    assert_eq!(buffer.len(), 2);
    assert!(buffer.try_take_frame().is_none());
}

#[test]
fn empty_chunk_changes_nothing() {
    let mut buffer = FrameBuffer::<f32>::new(3, 1).unwrap();
    buffer.push(vec![1.0, 2.0]);
    buffer.push(Vec::new());
    assert_eq!(buffer.len(), 2);
    assert!(buffer.try_take_frame().is_none());
}

#[test]
fn frames_overlap_when_hop_is_below_window() {
    let frames = feed(&ramp(10), &[10], 4, 2);
    assert_eq!(
        frames,
        vec![
            vec![0.0, 1.0, 2.0, 3.0],
            vec![2.0, 3.0, 4.0, 5.0],
            vec![4.0, 5.0, 6.0, 7.0],
            vec![6.0, 7.0, 8.0, 9.0],
        ]
    );
}

#[test]
fn frames_abut_when_hop_equals_window() {
    let frames = feed(&ramp(7), &[7], 3, 3);
    assert_eq!(frames, vec![vec![0.0, 1.0, 2.0], vec![3.0, 4.0, 5.0]]);
}

#[test]
fn frames_leave_gaps_when_hop_is_above_window() {
    let frames = feed(&ramp(12), &[12], 2, 5);
    assert_eq!(frames, vec![vec![0.0, 1.0], vec![5.0, 6.0], vec![10.0, 11.0]]);
}

#[test]
fn gap_is_skipped_across_chunk_boundaries() {
    let mut buffer = FrameBuffer::<f32>::new(2, 5).unwrap();
    buffer.push(vec![0.0, 1.0, 2.0]);
    assert_eq!(buffer.try_take_frame(), Some(vec![0.0, 1.0]));
    assert_eq!(buffer.len(), 0);
    assert!(buffer.try_take_frame().is_none());
    buffer.push(vec![3.0]);
    assert_eq!(buffer.len(), 0);
    buffer.push(vec![4.0, 5.0]);
    assert_eq!(buffer.len(), 1);
    assert!(buffer.try_take_frame().is_none());
    buffer.push(vec![6.0]);
    assert_eq!(buffer.try_take_frame(), Some(vec![5.0, 6.0]));
    assert_eq!(buffer.len(), 0);
}

#[test]
fn exactly_hop_samples_leave_after_each_frame() {
    let mut buffer = FrameBuffer::<f32>::new(400, 160).unwrap();
    buffer.push(vec![0.0; 1000]);
    assert!(buffer.try_take_frame().is_some());
    assert_eq!(buffer.len(), 840);
    assert!(buffer.try_take_frame().is_some());
    assert_eq!(buffer.len(), 680);
}

#[test]
fn frame_count_follows_the_formula() {
    for &(window, hop) in &[(2usize, 1usize), (4, 2), (3, 3), (2, 5), (400, 160), (5, 7)] {
        for len in 0..60usize {
            let frames = feed(&ramp(len), &[len.max(1)], window, hop);
            assert_eq!(frames.len(), expected_frames(len, window, hop), "len {len} window {window} hop {hop}");
        }
    }
    assert_eq!(feed(&vec![0.0; 10000], &[10000], 400, 160).len(), 61);
    assert_eq!(feed(&vec![0.0; 399], &[399], 400, 160).len(), 0);
    assert_eq!(feed(&vec![0.0; 400], &[400], 400, 160).len(), 1);
    assert_eq!(feed(&vec![0.0; 559], &[559], 400, 160).len(), 1);
    assert_eq!(feed(&vec![0.0; 560], &[560], 400, 160).len(), 2);
}

#[test]
fn frames_do_not_depend_on_chunking() {
    let stream = ramp(157);
    for &(window, hop) in &[(4usize, 2usize), (3, 3), (2, 5), (16, 5), (5, 16)] {
        let whole = feed(&stream, &[stream.len()], window, hop);
        assert_eq!(whole.len(), expected_frames(stream.len(), window, hop));
        for (k, frame) in whole.iter().enumerate() {
            assert_eq!(frame[..], stream[k * hop..k * hop + window]);
        }
        let single = feed(&stream, &[1], window, hop);
        assert_eq!(single, whole);
        let uneven = feed(&stream, &[7, 1, 30, 2, 2, 50, 3], window, hop);
        assert_eq!(uneven, whole);
        let pairs = feed(&stream, &[2], window, hop);
        assert_eq!(pairs, whole);
    }
}

#[test]
fn buffer_stays_below_one_window_after_draining() {
    let mut buffer = FrameBuffer::<f32>::new(8, 3).unwrap();
    for round in 0..20 {
        buffer.push(vec![round as f32; 5]);
        while buffer.try_take_frame().is_some() {}
        assert!(buffer.len() < 8);
    }
}
