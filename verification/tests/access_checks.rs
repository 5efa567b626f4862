use memedit::access::{
    check_access, locate, plan_access, write_outcome, AccessKind, AccessPlan, MemoryImage,
};
use memedit::model::{ErrorKind, MemoryRegion, Permissions, RegionLabel};

fn region(start: u64, end: u64, read: bool, write: bool) -> MemoryRegion {
    MemoryRegion {
        start_address: start,
        end_address: end,
        permissions: Permissions { read, write, execute: false },
        backing_path: None,
        label: RegionLabel::Anonymous,
    }
}

fn image(start: u64, bytes: Vec<u8>, read: bool, write: bool) -> MemoryImage {
    MemoryImage { region: region(start, start + bytes.len() as u64, read, write), bytes }
}

#[test]
fn region_size_and_range() {
    let r = region(0x1000, 0x1010, true, true);
    assert!(r.is_well_formed());
    assert_eq!(r.size(), 16);
    assert!(r.contains_range(0x1000, 16));
    assert!(r.contains_range(0x100F, 1));
    assert!(r.contains_range(0x1010, 0));
    assert!(!r.contains_range(0x100F, 2));
    assert!(!r.contains_range(0x0FFF, 1));
    assert!(!r.contains_range(0x1011, 0));
    assert!(!r.contains_range(u64::MAX, 2));
    assert!(!region(5, 5, true, true).is_well_formed());
    assert!(!region(6, 5, true, true).is_well_formed());
    assert_eq!(r.duplicate(), r);
}

#[test]
fn range_at_the_top_of_the_address_space_does_not_wrap() {
    let top = region(u64::MAX - 8, u64::MAX, true, true);
    assert!(top.contains_range(u64::MAX - 8, 8));
    assert!(!top.contains_range(u64::MAX - 8, 9));
    assert!(!top.contains_range(u64::MAX - 1, usize::MAX));
}

#[test]
fn locate_finds_the_first_region_that_covers() {
    let regions = vec![
        region(0x100, 0x200, true, false),
        region(0x180, 0x300, true, true),
        region(0x400, 0x500, true, true),
    ];
    assert_eq!(locate(&regions, 0x100, 4), Some(0));
    assert_eq!(locate(&regions, 0x1F0, 0x10), Some(0));
    assert_eq!(locate(&regions, 0x1F0, 0x11), Some(1));
    assert_eq!(locate(&regions, 0x4FC, 4), Some(2));
    assert_eq!(locate(&regions, 0x4FD, 4), None);
    assert_eq!(locate(&regions, 0x300, 1), None);
    assert_eq!(locate(&[], 0x100, 1), None);
}

#[test]
fn check_gives_each_error_its_input() {
    let regions = vec![region(0x100, 0x200, true, false), region(0x200, 0x300, false, true)];
    assert_eq!(check_access(&regions, 0x100, 8, AccessKind::Read), Ok(0));
    assert_eq!(check_access(&regions, 0x100, 8, AccessKind::Write), Err(ErrorKind::ReadOnlyRegion));
    assert_eq!(check_access(&regions, 0x200, 8, AccessKind::Write), Ok(1));
    assert_eq!(check_access(&regions, 0x200, 8, AccessKind::Read), Err(ErrorKind::Unreadable));
    assert_eq!(check_access(&regions, 0x1FC, 8, AccessKind::Read), Err(ErrorKind::OutOfRange));
    assert_eq!(check_access(&regions, 0x300, 1, AccessKind::Write), Err(ErrorKind::OutOfRange));
    assert_eq!(check_access(&[], 0, 1, AccessKind::Read), Err(ErrorKind::OutOfRange));
}

#[test]
fn a_failed_check_asks_for_the_regions_once() {
    let regions = vec![region(0x100, 0x200, true, false)];
    assert_eq!(
        plan_access(&regions, 0x100, 4, AccessKind::Read, false),
        AccessPlan::Proceed(0)
    );
    assert_eq!(plan_access(&regions, 0x100, 4, AccessKind::Read, true), AccessPlan::Proceed(0));
    assert_eq!(plan_access(&regions, 0x100, 4, AccessKind::Write, false), AccessPlan::Refresh);
    assert_eq!(
        plan_access(&regions, 0x100, 4, AccessKind::Write, true),
        AccessPlan::Fail(ErrorKind::ReadOnlyRegion)
    );
    assert_eq!(plan_access(&regions, 0x500, 4, AccessKind::Read, false), AccessPlan::Refresh);
    assert_eq!(
        plan_access(&regions, 0x500, 4, AccessKind::Read, true),
        AccessPlan::Fail(ErrorKind::OutOfRange)
    );
}

#[test]
fn a_short_write_is_never_a_success() {
    assert_eq!(write_outcome(4, 4), Ok(4));
    assert_eq!(write_outcome(0, 0), Ok(0));
    assert_eq!(write_outcome(4, 3), Err(ErrorKind::PartialWrite));
    assert_eq!(write_outcome(4, 0), Err(ErrorKind::PartialWrite));
    assert_eq!(write_outcome(4, 5), Err(ErrorKind::PartialWrite));
}

#[test]
fn written_bytes_are_read_back() {
    let mut target = image(0x1000, vec![0; 16], true, true);
    let data = [0xDE, 0xAD, 0xBE, 0xEF];
    assert_eq!(target.write(0x1004, &data), Ok(4));
    assert_eq!(target.read(0x1004, 4), Ok(data.to_vec()));
    assert_eq!(
        target.bytes,
        vec![0, 0, 0, 0, 0xDE, 0xAD, 0xBE, 0xEF, 0, 0, 0, 0, 0, 0, 0, 0]
    );
    assert_eq!(target.write(0x100C, &data), Ok(4));
    assert_eq!(target.read(0x100C, 4), Ok(data.to_vec()));
    assert_eq!(target.write(0x1000, &[]), Ok(0));
    assert_eq!(target.read(0x1000, 0), Ok(vec![]));
}

#[test]
fn image_read_returns_the_bytes_at_the_address() {
    let target = image(0x2000, (0u8..32).collect(), true, false);
    assert_eq!(target.read(0x2000, 4), Ok(vec![0, 1, 2, 3]));
    assert_eq!(target.read(0x201C, 4), Ok(vec![28, 29, 30, 31]));
    assert_eq!(target.read(0x201D, 4), Err(ErrorKind::OutOfRange));
    assert_eq!(target.read(0x1FFF, 1), Err(ErrorKind::OutOfRange));
    assert_eq!(target.read(u64::MAX, 2), Err(ErrorKind::OutOfRange));
}

#[test]
fn image_refuses_what_the_region_does_not_grant() {
    let mut read_only = image(0x1000, vec![7; 8], true, false);
    assert_eq!(read_only.write(0x1000, &[1]), Err(ErrorKind::ReadOnlyRegion));
    assert_eq!(read_only.bytes, vec![7; 8]);
    assert_eq!(read_only.write(0x1008, &[1]), Err(ErrorKind::OutOfRange));
    assert_eq!(read_only.bytes, vec![7; 8]);

    let mut write_only = image(0x1000, vec![7; 8], false, true);
    assert_eq!(write_only.write(0x1000, &[1]), Ok(1));
    assert_eq!(write_only.read(0x1000, 1), Err(ErrorKind::Unreadable));
    assert_eq!(write_only.read(0x1008, 1), Err(ErrorKind::OutOfRange));
}
