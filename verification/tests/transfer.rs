use mahou::downloader::{eta_seconds, Transfer};

#[test]
fn exact_size_completes_exactly_at_declared_bytes() {
    let mut t = Transfer::new(10);
    assert!(!t.is_complete());
    assert!(!t.apply_chunk(4));
    assert!(!t.apply_chunk(4));
    assert!(!t.is_complete());
    assert!(t.apply_chunk(2));
    assert!(t.is_complete());
    assert_eq!(t.received, 10);
    assert_eq!(t.size, 10);
}

#[test]
fn completion_is_never_reported_short() {
    let mut t = Transfer::new(100);
    assert!(!t.apply_chunk(99));
    assert!(!t.is_complete());
    assert_eq!(t.received, 99);
}

#[test]
fn overshooting_final_chunk_still_completes() {
    let mut t = Transfer::new(10);
    assert!(!t.apply_chunk(8));
    assert!(t.apply_chunk(8));
    assert_eq!(t.received, 16);
}

#[test]
fn zero_size_transfer_is_complete_at_once() {
    let t = Transfer::new(0);
    assert!(t.is_complete());
}

#[test]
fn eta_is_undefined_before_any_bytes() {
    assert_eq!(eta_seconds(5, 0, 100), None);
}

#[test]
fn eta_scales_remaining_bytes_by_pace() {
    assert_eq!(eta_seconds(10, 50, 100), Some(10));
    assert_eq!(eta_seconds(30, 25, 100), Some(90));
    assert_eq!(eta_seconds(30, 100, 100), Some(0));
}

#[test]
fn eta_when_position_overshoots_length() {
    assert_eq!(eta_seconds(30, 120, 100), Some(0));
}

#[test]
fn eta_saturates_instead_of_overflowing() {
    assert_eq!(
        eta_seconds(u64::MAX, 1, u64::MAX),
        Some(u64::MAX)
    );
}
