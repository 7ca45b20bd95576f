use netlab::copy::{copy_schedule, BLOCK_SIZE};
use netlab::stride::stride_u64;

#[test]
fn empty_file_has_nothing_to_copy() {
    assert!(copy_schedule(0, 2).is_none());
}

#[test]
fn two_threads_alternate_blocks() {
    let plan = copy_schedule(5000, 2).unwrap();
    assert_eq!(plan.len(), 2);
    assert_eq!(plan[0].points, vec![0, 2048, 4096]);
    assert_eq!(plan[1].points, vec![1024, 3072]);
    assert!(!plan[0].overflows);
    assert!(!plan[1].overflows);
}

#[test]
fn offset_equal_to_size_is_included() {
    let plan = copy_schedule(2048, 2).unwrap();
    assert_eq!(plan[0].points, vec![0, 2048]);
    assert_eq!(plan[1].points, vec![1024]);
}

#[test]
fn thread_beyond_small_file_copies_nothing() {
    let plan = copy_schedule(10, 3).unwrap();
    assert_eq!(plan[0].points, vec![0]);
    assert!(plan[1].points.is_empty());
    assert!(plan[2].points.is_empty());
}

#[test]
fn every_block_copied_exactly_once() {
    let size: u64 = 50_000;
    let threads: u64 = 3;
    let plan = copy_schedule(size, threads).unwrap();
    let mut seen = Vec::new();
    for s in plan.iter() {
        seen.extend(s.points.iter().copied());
    }
    seen.sort();
    let expected: Vec<u64> = (0..=size / BLOCK_SIZE).map(|b| b * BLOCK_SIZE).collect();
    assert_eq!(seen, expected);
}

#[test]
fn stride_reports_overflow_past_u64() {
    let s = stride_u64(u64::MAX - 5, 4, u64::MAX, u64::MAX);
    assert_eq!(s.points, vec![u64::MAX - 5, u64::MAX - 1]);
    assert!(s.overflows);
    let t = stride_u64(3, 4, 10, u64::MAX);
    assert_eq!(t.points, vec![3, 7]);
    assert!(!t.overflows);
}

#[test]
fn stride_overflow_is_measured_against_the_limit() {
    let s = stride_u64(65530, 4, 65535, 65535);
    assert_eq!(s.points, vec![65530, 65534]);
    assert!(s.overflows);
    let t = stride_u64(65530, 4, 65533, 65535);
    assert_eq!(t.points, vec![65530]);
    assert!(!t.overflows);
}
