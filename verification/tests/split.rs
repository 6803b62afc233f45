use eyetrack::split::{get_data, split_windows, take_tenths};

#[test]
fn few_frames_make_no_window() {
    for count in 0..4 {
        let split = split_windows(count, 42);
        assert!(split.train.is_empty());
        assert!(split.test.is_empty());
    }
}

#[test]
fn one_window_is_for_testing() {
    let split = split_windows(4, 42);
    assert!(split.train.is_empty());
    assert_eq!(split.test, vec![vec![0, 1, 2, 3]]);
}

#[test]
fn eight_tenths_are_for_training() {
    for (count, train, test) in [(13, 8, 2), (14, 8, 3), (103, 80, 20), (102, 79, 20)] {
        let split = split_windows(count, 7);
        assert_eq!(split.train.len(), train);
        assert_eq!(split.test.len(), test);
    }
}

#[test]
fn every_window_is_used_once() {
    let split = split_windows(50, 3);
    let mut all: Vec<Vec<usize>> = split.train.clone();
    all.extend(split.test.clone());
    all.sort();
    let expected: Vec<Vec<usize>> = (0..47).map(|i| vec![i, i + 1, i + 2, i + 3]).collect();
    assert_eq!(all, expected);
    assert!(split.train.iter().all(|window| !split.test.contains(window)));
}

#[test]
fn the_windows_are_shuffled() {
    let all = get_data(50, 3, 0, 10);
    let ordered: Vec<Vec<usize>> = (0..47).map(|i| vec![i, i + 1, i + 2, i + 3]).collect();
    assert_ne!(all, ordered);
    let mut sorted = all.clone();
    sorted.sort();
    assert_eq!(sorted, ordered);
}

#[test]
fn a_seed_gives_the_same_split_again() {
    let first = split_windows(60, 11);
    let second = split_windows(60, 11);
    assert_eq!(first.train, second.train);
    assert_eq!(first.test, second.test);
    let other = split_windows(60, 12);
    assert_ne!(first.train, other.train);
}

#[test]
fn the_shares_follow_each_other() {
    let all = get_data(40, 5, 0, 10);
    let split = split_windows(40, 5);
    assert_eq!(all[..split.train.len()], split.train[..]);
    assert_eq!(all[split.train.len()..], split.test[..]);
}

#[test]
fn tenths_round_down() {
    let items: Vec<Vec<usize>> = (0..7).map(|i| vec![i]).collect();
    assert_eq!(take_tenths(items.clone(), 0, 8), items[0..5].to_vec());
    assert_eq!(take_tenths(items.clone(), 8, 10), items[5..7].to_vec());
    assert_eq!(take_tenths(items.clone(), 3, 3), Vec::<Vec<usize>>::new());
    assert_eq!(take_tenths(items.clone(), 0, 10), items);
}
