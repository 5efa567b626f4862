use memedit::model::{ErrorKind, MemoryRegion, Permissions, RegionLabel};
use memedit::snapshot::{
    diff, Capture, Classification, MemorySnapshot, SnapshotStore, CAPTURE_WINDOW,
};

fn region(start: u64, end: u64) -> MemoryRegion {
    MemoryRegion {
        start_address: start,
        end_address: end,
        permissions: Permissions { read: true, write: true, execute: false },
        backing_path: Some(String::from("/usr/bin/target")),
        label: RegionLabel::FileBacked,
    }
}

fn snapshot(bytes: Vec<u8>, time: u64) -> MemorySnapshot {
    MemorySnapshot::new(region(0x1000, 0x1000 + bytes.len() as u64), bytes, time)
}

#[test]
fn the_window_is_sixteen_mebibytes() {
    assert_eq!(CAPTURE_WINDOW, 16 * 1024 * 1024);
}

#[test]
fn snapshot_keeps_what_it_was_made_of() {
    let s = snapshot(vec![1, 2, 3], 99);
    assert_eq!(s.region(), &region(0x1000, 0x1003));
    assert_eq!(s.bytes(), &[1, 2, 3]);
    assert_eq!(s.capture_time(), 99);
}

#[test]
fn capture_reads_front_to_back_in_bounded_pieces() {
    let mut capture = Capture::begin(region(0x1000, 0x100A), 4).unwrap();
    assert_eq!(capture.next_chunk(), Some((0x1000, 4)));
    assert_eq!(capture.accept(vec![0, 1, 2, 3]), Ok(false));
    assert_eq!(capture.next_chunk(), Some((0x1004, 4)));
    assert_eq!(capture.accept(vec![4, 5, 6, 7]), Ok(false));
    assert_eq!(capture.next_chunk(), Some((0x1008, 2)));
    assert_eq!(capture.accept(vec![8, 9]), Ok(true));
    assert_eq!(capture.next_chunk(), None);
    let taken = capture.finish(5).unwrap();
    assert_eq!(taken.bytes(), &[0, 1, 2, 3, 4, 5, 6, 7, 8, 9]);
    assert_eq!(taken.region(), &region(0x1000, 0x100A));
    assert_eq!(taken.capture_time(), 5);
}

#[test]
fn capture_of_a_small_region_is_one_read() {
    let mut capture = Capture::begin(region(0x7000, 0x7003), CAPTURE_WINDOW).unwrap();
    assert_eq!(capture.next_chunk(), Some((0x7000, 3)));
    assert_eq!(capture.accept(vec![1, 2, 3]), Ok(true));
}

#[test]
fn capture_of_a_region_as_large_as_the_window_is_one_read() {
    let mut capture = Capture::begin(region(0, 8), 8).unwrap();
    assert_eq!(capture.next_chunk(), Some((0, 8)));
    assert_eq!(capture.accept(vec![0; 8]), Ok(true));
}

#[test]
fn capture_turns_down_a_read_of_the_wrong_length() {
    let mut capture = Capture::begin(region(0x1000, 0x100A), 4).unwrap();
    assert_eq!(capture.accept(vec![0, 1, 2]), Err(ErrorKind::Unreadable));
    assert_eq!(capture.accept(vec![0, 1, 2, 3, 4]), Err(ErrorKind::Unreadable));
    assert_eq!(capture.accept(vec![]), Err(ErrorKind::Unreadable));
    assert_eq!(capture.next_chunk(), Some((0x1000, 4)));
}

#[test]
fn a_complete_capture_takes_no_more_bytes() {
    let mut capture = Capture::begin(region(0x1000, 0x1002), 4).unwrap();
    assert_eq!(capture.accept(vec![1, 2]), Ok(true));
    assert_eq!(capture.accept(vec![3]), Err(ErrorKind::ProtocolViolation));
    assert_eq!(capture.accept(vec![]), Err(ErrorKind::ProtocolViolation));
    assert_eq!(capture.finish(0).unwrap().bytes(), &[1, 2]);
}

#[test]
fn an_incomplete_capture_is_no_snapshot() {
    let mut capture = Capture::begin(region(0x1000, 0x1008), 4).unwrap();
    assert_eq!(capture.accept(vec![0; 4]), Ok(false));
    assert_eq!(capture.finish(0), Err(ErrorKind::ProtocolViolation));
}

#[test]
fn capture_needs_a_region_with_bytes_and_a_window() {
    assert_eq!(Capture::begin(region(8, 8), 4), Err(ErrorKind::ProtocolViolation));
    assert_eq!(Capture::begin(region(9, 8), 4), Err(ErrorKind::ProtocolViolation));
    assert_eq!(Capture::begin(region(0, 8), 0), Err(ErrorKind::ProtocolViolation));
}

#[test]
fn store_keeps_the_newest_two() {
    let mut store = SnapshotStore::new();
    assert_eq!(store.live(), 0);
    assert!(store.current().is_none());
    assert!(store.previous().is_none());

    store.capture(snapshot(vec![1], 1));
    assert_eq!(store.live(), 1);
    assert_eq!(store.current().unwrap().capture_time(), 1);
    assert!(store.previous().is_none());

    store.capture(snapshot(vec![2], 2));
    assert_eq!(store.live(), 2);
    assert_eq!(store.current().unwrap().bytes(), &[2]);
    assert_eq!(store.previous().unwrap().bytes(), &[1]);

    store.capture(snapshot(vec![3], 3));
    assert_eq!(store.live(), 2);
    assert_eq!(store.current().unwrap().capture_time(), 3);
    assert_eq!(store.previous().unwrap().capture_time(), 2);

    store.release();
    assert_eq!(store.live(), 0);
    assert!(store.current().is_none());
    assert!(store.previous().is_none());
}

#[test]
fn diff_classifies_each_offset() {
    let mut first = vec![0u8; 8];
    first[5] = 0x10;
    let mut second = first.clone();
    second[5] = 0x20;
    second[7] = 1;
    let old = snapshot(first, 1);
    let new = snapshot(second, 2);
    assert_eq!(diff(&old, &new, &[5]), Ok(vec![Classification::Changed]));
    assert_eq!(
        diff(&old, &new, &[0, 5, 6, 7, 5]),
        Ok(vec![
            Classification::Unchanged,
            Classification::Changed,
            Classification::Unchanged,
            Classification::Changed,
            Classification::Changed,
        ])
    );
    assert_eq!(diff(&old, &new, &[]), Ok(vec![]));
    assert_eq!(diff(&old, &old, &[5]), Ok(vec![Classification::Unchanged]));
}

#[test]
fn diff_fails_for_an_offset_outside_either_snapshot() {
    let old = snapshot(vec![0; 8], 1);
    let new = snapshot(vec![0; 4], 2);
    assert_eq!(diff(&old, &new, &[3]), Ok(vec![Classification::Unchanged]));
    assert_eq!(diff(&old, &new, &[4]), Err(ErrorKind::OutOfRange));
    assert_eq!(diff(&new, &old, &[4]), Err(ErrorKind::OutOfRange));
    assert_eq!(diff(&old, &old, &[0, 8]), Err(ErrorKind::OutOfRange));
    assert_eq!(diff(&old, &old, &[usize::MAX]), Err(ErrorKind::OutOfRange));
}
