use eyetrack::sort::{sort_by_timestamp, Capture};

#[test]
fn frames_come_out_by_timestamp() {
    let frames = vec![(5, "e"), (1, "a"), (4, "d"), (3, "c"), (2, "b")];
    assert_eq!(sort_by_timestamp(frames), vec![(1, "a"), (2, "b"), (3, "c"), (4, "d"), (5, "e")]);
}

#[test]
fn equal_timestamps_keep_their_order() {
    let frames = vec![(2, 'x'), (1, 'p'), (2, 'y'), (1, 'q'), (2, 'z')];
    assert_eq!(
        sort_by_timestamp(frames),
        vec![(1, 'p'), (1, 'q'), (2, 'x'), (2, 'y'), (2, 'z')]
    );
}

#[test]
fn few_frames() {
    assert_eq!(sort_by_timestamp(Vec::<(u64, u8)>::new()), vec![]);
    assert_eq!(sort_by_timestamp(vec![(u64::MAX, 7u8)]), vec![(u64::MAX, 7)]);
}

#[test]
fn sorted_frames_stay() {
    let frames: Vec<(u64, u64)> = (0..100).map(|i| (i / 3, i)).collect();
    assert_eq!(sort_by_timestamp(frames.clone()), frames);
}

#[test]
fn many_frames_sort_as_the_standard_library_does() {
    let mut frames: Vec<(u64, usize)> = Vec::new();
    let mut x: u64 = 17;
    for i in 0..1000 {
        x = x.wrapping_mul(6364136223846793005).wrapping_add(1442695040888963407);
        frames.push(((x >> 33) % 50, i));
    }
    let mut expected = frames.clone();
    expected.sort_by_key(|(timestamp, _)| *timestamp);
    assert_eq!(sort_by_timestamp(frames), expected);
}

#[test]
fn a_capture_sorts_each_of_its_lists() {
    let capture = Capture {
        left: vec![(2, 'b'), (1, 'a')],
        right: vec![(9, 'd'), (8, 'c')],
        labels: vec![(4, 1.5f32), (3, 0.5)],
    };
    let sorted = capture.sorted();
    assert_eq!(sorted.left, vec![(1, 'a'), (2, 'b')]);
    assert_eq!(sorted.right, vec![(8, 'c'), (9, 'd')]);
    assert_eq!(sorted.labels, vec![(3, 0.5), (4, 1.5)]);
}

#[test]
fn the_order_of_reading_is_forgotten() {
    let frames: Vec<(u64, char)> = vec![(5, 'e'), (1, 'a'), (9, 'i'), (3, 'c')];
    let expected = vec![(1, 'a'), (3, 'c'), (5, 'e'), (9, 'i')];
    let mut reversed = frames.clone();
    reversed.reverse();
    assert_eq!(sort_by_timestamp(frames), expected);
    assert_eq!(sort_by_timestamp(reversed), expected);
}
