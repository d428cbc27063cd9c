use noline::history::{get_history_entries, Direction, History};
use noline::line_buffer::Truncated;

fn entries(history: &History) -> Vec<Vec<u8>> {
    let mut walk = get_history_entries(history);
    let mut found = Vec::new();
    while let Some(entry) = walk.next() {
        found.push(entry.to_vec());
    }
    assert_eq!(walk.next(), None);
    found
}

fn texts(lines: &[&str]) -> Vec<Vec<u8>> {
    lines.iter().map(|line| line.as_bytes().to_vec()).collect()
}

#[test]
fn capacity_two_keeps_the_last_two_of_three() {
    let mut history = History::new(2, 8);
    history.push(b"a");
    history.push(b"b");
    history.push(b"c");
    assert_eq!(entries(&history), texts(&["b", "c"]));
    assert_eq!(history.len(), 2);
}

#[test]
fn one_push_more_than_capacity_keeps_the_most_recent() {
    for capacity in 1usize..6 {
        let mut history = History::new(capacity, 4);
        let lines: Vec<Vec<u8>> =
            (0..=capacity).map(|i| vec![b'a' + i as u8; 1 + i % 4]).collect();
        for line in &lines {
            history.push(line);
        }
        assert_eq!(entries(&history), lines[1..].to_vec());
        assert_eq!(history.len(), capacity);
        assert_eq!(history.capacity(), capacity);
    }
}

#[test]
fn entries_come_out_oldest_first_and_iteration_can_be_repeated() {
    let mut history = History::new(3, 8);
    history.push(b"one");
    history.push(b"two");
    assert_eq!(entries(&history), texts(&["one", "two"]));
    assert_eq!(entries(&history), texts(&["one", "two"]));
    assert_eq!(history.entry(0).map(|e| e.to_vec()), Some(b"one".to_vec()));
    assert_eq!(history.entry(1).map(|e| e.to_vec()), Some(b"two".to_vec()));
    assert_eq!(history.entry(2), None);
}

#[test]
fn an_entry_across_the_end_of_the_region_comes_in_two_parts() {
    // Two slots of four bytes: a region of eight.
    let mut history = History::new(2, 4);
    history.push(b"abc");
    history.push(b"def");
    // "ghij" begins at offset 6 and runs on at offset 0.
    history.push(b"ghij");
    let newest = history.entry(1).unwrap();
    let (head, tail) = newest.get_slices();
    assert_eq!(head, b"gh");
    assert_eq!(tail, b"ij");
    assert_eq!(newest.to_vec(), b"ghij".to_vec());
    let older = history.entry(0).unwrap();
    let (head, tail) = older.get_slices();
    assert_eq!(head, b"def");
    assert_eq!(tail, b"");
    assert_eq!(entries(&history), texts(&["def", "ghij"]));
}

#[test]
fn the_ring_goes_round_many_times() {
    let mut history = History::new(3, 5);
    let mut pushed: Vec<Vec<u8>> = Vec::new();
    for i in 0..100usize {
        let line = vec![b'0' + (i % 10) as u8; 1 + (i * 7) % 5];
        history.push(&line);
        pushed.push(line);
        let from = pushed.len().saturating_sub(3);
        assert_eq!(entries(&history), pushed[from..].to_vec());
    }
}

#[test]
fn a_line_longer_than_the_bound_is_cut() {
    let mut history = History::new(2, 3);
    assert_eq!(history.push(b"abcdef"), Some(Truncated { dropped: 3 }));
    assert_eq!(entries(&history), texts(&["abc"]));
    assert_eq!(history.push(b"abc"), None);
    assert_eq!(entries(&history), texts(&["abc", "abc"]));
    assert_eq!(history.bound(), 3);
}

#[test]
fn a_history_without_slots_keeps_nothing() {
    let mut history = History::new(0, 8);
    history.push(b"a");
    assert_eq!(history.len(), 0);
    assert_eq!(entries(&history), texts(&[]));
    assert_eq!(history.load_entries(&[b"x".as_slice()]), 0);
    assert_eq!(history.navigate(Direction::Up, 0), None);
}

#[test]
fn load_takes_what_fits_and_says_how_many() {
    let mut history = History::new(3, 8);
    history.push(b"kept");
    let lines: [&[u8]; 4] = [b"one", b"two", b"three", b"four"];
    assert_eq!(history.load_entries(&lines), 2);
    assert_eq!(entries(&history), texts(&["kept", "one", "two"]));
    assert_eq!(history.load_entries(&lines), 0);
    assert_eq!(entries(&history), texts(&["kept", "one", "two"]));
}

#[test]
fn load_of_fewer_lines_than_free_slots_takes_all() {
    let mut history = History::new(5, 4);
    let lines: [&[u8]; 2] = [b"toolong", b"ok"];
    assert_eq!(history.load_entries(&lines), 2);
    assert_eq!(entries(&history), texts(&["tool", "ok"]));
}

#[test]
fn navigation_stops_at_the_oldest_and_at_the_newest() {
    let mut history = History::new(3, 8);
    history.push(b"a");
    history.push(b"b");
    history.push(b"c");
    assert_eq!(history.navigate(Direction::Up, 2), Some(1));
    assert_eq!(history.navigate(Direction::Up, 1), Some(0));
    assert_eq!(history.navigate(Direction::Up, 0), None);
    assert_eq!(history.navigate(Direction::Down, 0), Some(1));
    assert_eq!(history.navigate(Direction::Down, 1), Some(2));
    assert_eq!(history.navigate(Direction::Down, 2), None);
    assert_eq!(history.navigate(Direction::Up, 3), None);
    assert_eq!(history.navigate(Direction::Down, 3), None);
    assert_eq!(history.navigate(Direction::Down, usize::MAX), None);
}

#[test]
fn empty_lines_can_be_entries() {
    let mut history = History::new(2, 2);
    history.push(b"");
    history.push(b"ab");
    history.push(b"");
    assert_eq!(entries(&history), texts(&["ab", ""]));
}

#[test]
fn a_walk_is_forward_and_can_be_begun_again() {
    let mut history = History::new(3, 8);
    history.push(b"one");
    history.push(b"two");
    let mut walk = get_history_entries(&history);
    assert_eq!(walk.next().map(|e| e.to_vec()), Some(b"one".to_vec()));
    let mut again = history.iterate();
    assert_eq!(again.next().map(|e| e.to_vec()), Some(b"one".to_vec()));
    assert_eq!(walk.next().map(|e| e.to_vec()), Some(b"two".to_vec()));
    assert_eq!(walk.next(), None);
    assert_eq!(walk.next(), None);
    assert_eq!(again.next().map(|e| e.to_vec()), Some(b"two".to_vec()));
}
