use sonik::queue::SonikQueue;
use sonik::record::Track;

fn track(path: &str, dur: u32) -> Track {
    Track {
        file_path: path.to_string(),
        title: path.to_string(),
        artist: String::new(),
        album_artist: String::new(),
        album: String::new(),
        year: 0,
        track_num: 0,
        duration: dur,
    }
}

#[test]
fn push_then_take_leaves_empty_queue() {
    let mut q = SonikQueue::new();
    q.add(track("t1", 500));
    assert_eq!(q.total_time_ms(), 500);
    let t = q.take();
    assert_eq!(t.file_path, "t1");
    assert!(q.is_empty());
    assert_eq!(q.total_time_ms(), 0);
}

#[test]
fn pushes_count_at_either_end() {
    let mut q = SonikQueue::new();
    q.add(track("a", 1));
    q.add_to_front(track("b", 2));
    q.add(track("c", 3));
    q.add_to_front(track("d", 4));
    assert_eq!(q.len(), 4);
    assert_eq!(q.total_time_ms(), 10);
    let order: Vec<String> = (0..4).map(|_| q.take().file_path).collect();
    assert_eq!(order, vec!["d", "b", "a", "c"]);
}

#[test]
fn shuffle_keeps_the_same_tracks() {
    let mut q = SonikQueue::new();
    for i in 0..20 {
        q.add(track(&format!("t{}", i), i));
    }
    let before = q.total_time_ms();
    q.shuffle();
    assert_eq!(q.len(), 20);
    assert_eq!(q.total_time_ms(), before);
    let mut names: Vec<String> = q.tracks.iter().map(|t| t.file_path.clone()).collect();
    names.sort();
    let mut expected: Vec<String> = (0..20).map(|i| format!("t{}", i)).collect();
    expected.sort();
    assert_eq!(names, expected);
}

#[test]
fn shuffle_then_take_three() {
    let mut q = SonikQueue::new();
    q.add(track("t1", 1));
    q.add(track("t2", 2));
    q.add(track("t3", 3));
    q.shuffle();
    let mut taken: Vec<String> = Vec::new();
    for _ in 0..3 {
        taken.push(q.take().file_path);
    }
    taken.sort();
    assert_eq!(taken, vec!["t1", "t2", "t3"]);
    assert!(q.is_empty());
    assert_eq!(q.total_time_ms(), 0);
}

#[test]
fn shuffle_of_empty_and_single_queue() {
    let mut q = SonikQueue::new();
    q.shuffle();
    assert!(q.is_empty());
    q.add(track("only", 9));
    q.shuffle();
    assert_eq!(q.take().file_path, "only");
}

#[test]
fn clear_empties_queue() {
    let mut q = SonikQueue::new();
    q.add(track("a", 5));
    q.add(track("b", 6));
    q.clear();
    assert!(q.is_empty());
    assert_eq!(q.total_time_ms(), 0);
}

#[test]
fn shuffle_moves_tracks() {
    // Twenty distinct tracks keep their order with probability 1/20!.
    let mut q = SonikQueue::new();
    for i in 0..20 {
        q.add(track(&format!("t{}", i), 1));
    }
    q.shuffle();
    let order: Vec<String> = q.tracks.iter().map(|t| t.file_path.clone()).collect();
    let before: Vec<String> = (0..20).map(|i| format!("t{}", i)).collect();
    assert_ne!(order, before);
}

#[test]
fn shuffle_with_applies_the_draws() {
    let mut q = SonikQueue::new();
    q.add(track("a", 1));
    q.add(track("b", 2));
    q.add(track("c", 3));
    q.shuffle_with(&vec![0, 0, 1]);
    let order: Vec<String> = q.tracks.iter().map(|t| t.file_path.clone()).collect();
    assert_eq!(order, vec!["c", "a", "b"]);
    assert_eq!(q.total_time_ms(), 6);
    q.shuffle_with(&vec![0, 1, 2]);
    let order: Vec<String> = q.tracks.iter().map(|t| t.file_path.clone()).collect();
    assert_eq!(order, vec!["c", "a", "b"]);
}
