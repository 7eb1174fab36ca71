use bevy_hanabi::render::error::BufferError;
use bevy_hanabi::render::range_allocator::RangeAllocator;

#[test]
fn fresh_allocations_follow_each_other() {
    let mut allocator = RangeAllocator::new(100);
    assert_eq!(allocator.capacity(), 100);
    assert_eq!(allocator.used(), 0);
    assert_eq!(allocator.allocate(10), Ok(Some(0..10)));
    assert_eq!(allocator.allocate(30), Ok(Some(10..40)));
    assert_eq!(allocator.used(), 40);
    assert_eq!(allocator.allocate(60), Ok(Some(40..100)));
    assert_eq!(allocator.used(), 100);
    assert_eq!(allocator.capacity(), 100);
}

#[test]
fn exhaustion_is_reported_and_changes_nothing() {
    let mut allocator = RangeAllocator::new(100);
    assert_eq!(allocator.allocate(60), Ok(Some(0..60)));
    assert_eq!(allocator.allocate(41), Ok(None));
    assert_eq!(allocator.used(), 60);
    assert_eq!(allocator.free_len(), 0);
    assert_eq!(allocator.allocate(40), Ok(Some(60..100)));
    assert_eq!(allocator.allocate(1), Ok(None));
}

#[test]
fn a_request_near_the_largest_number_is_turned_down() {
    let mut allocator = RangeAllocator::new(u32::MAX);
    assert_eq!(allocator.allocate(u32::MAX - 1), Ok(Some(0..u32::MAX - 1)));
    assert_eq!(allocator.allocate(u32::MAX), Ok(None));
    assert_eq!(allocator.allocate(1), Ok(Some(u32::MAX - 1..u32::MAX)));
}

#[test]
fn zero_items_are_rejected() {
    let mut allocator = RangeAllocator::new(100);
    assert_eq!(allocator.allocate(0), Err(BufferError::ZeroLength));
    assert_eq!(allocator.used(), 0);
    assert_eq!(allocator.allocate(1), Ok(Some(0..1)));
}

fn with_free_ranges() -> RangeAllocator {
    let mut allocator = RangeAllocator::new(100);
    assert_eq!(allocator.allocate(5), Ok(Some(0..5)));
    assert_eq!(allocator.allocate(3), Ok(Some(5..8)));
    assert_eq!(allocator.allocate(4), Ok(Some(8..12)));
    assert_eq!(allocator.allocate(3), Ok(Some(12..15)));
    assert_eq!(allocator.allocate(1), Ok(Some(15..16)));
    assert!(allocator.release(0..5));
    assert!(allocator.release(5..8));
    assert!(allocator.release(8..12));
    assert!(allocator.release(12..15));
    assert_eq!(allocator.free_len(), 4);
    allocator
}

#[test]
fn best_fit_takes_the_shortest_range_that_fits() {
    let mut allocator = with_free_ranges();
    assert_eq!(allocator.allocate(4), Ok(Some(8..12)));
    assert_eq!(allocator.free_len(), 3);
    assert_eq!(allocator.used(), 16);
}

#[test]
fn best_fit_ties_go_to_the_earliest_range() {
    let mut allocator = with_free_ranges();
    assert_eq!(allocator.allocate(3), Ok(Some(5..8)));
    assert_eq!(allocator.allocate(3), Ok(Some(12..15)));
    assert_eq!(allocator.free_len(), 2);
}

#[test]
fn a_reused_range_is_consumed_whole_and_handed_out_from_its_start() {
    let mut allocator = with_free_ranges();
    assert_eq!(allocator.allocate(2), Ok(Some(5..7)));
    assert_eq!(allocator.free_len(), 3);
    // The item 7 went with its range: the next request of one item takes
    // the other range of three items.
    assert_eq!(allocator.allocate(1), Ok(Some(12..13)));
    assert_eq!(allocator.allocate(1), Ok(Some(8..9)));
    assert_eq!(allocator.allocate(1), Ok(Some(0..1)));
    assert_eq!(allocator.free_len(), 0);
    assert_eq!(allocator.allocate(1), Ok(Some(16..17)));
}

#[test]
fn the_last_free_range_takes_the_place_of_the_one_taken() {
    let mut allocator = RangeAllocator::new(100);
    assert_eq!(allocator.allocate(2), Ok(Some(0..2)));
    assert_eq!(allocator.allocate(9), Ok(Some(2..11)));
    assert_eq!(allocator.allocate(5), Ok(Some(11..16)));
    assert_eq!(allocator.allocate(5), Ok(Some(16..21)));
    assert!(allocator.release(0..2));
    assert!(allocator.release(2..11));
    assert!(allocator.release(11..16));
    assert!(allocator.release(16..21));
    assert_eq!(allocator.free_ranges(), &[0..2, 2..11, 11..16, 16..21][..]);
    // Taking the first puts the last in front.
    assert_eq!(allocator.allocate(2), Ok(Some(0..2)));
    assert_eq!(allocator.free_ranges(), &[16..21, 2..11, 11..16][..]);
    // The tie goes to 16..21 now.
    assert_eq!(allocator.allocate(5), Ok(Some(16..21)));
    assert_eq!(allocator.free_ranges(), &[11..16, 2..11][..]);
    assert_eq!(allocator.allocate(5), Ok(Some(11..16)));
    assert_eq!(allocator.free_ranges(), &[2..11][..]);
    assert_eq!(allocator.allocate(5), Ok(Some(2..7)));
    assert_eq!(allocator.free_len(), 0);
    assert!(allocator.free_ranges().is_empty());
}

#[test]
fn a_released_range_joins_the_free_list_at_its_end() {
    let mut allocator = RangeAllocator::new(50);
    assert_eq!(allocator.allocate(50), Ok(Some(0..50)));
    assert!(allocator.release(30..40));
    assert!(allocator.release(0..10));
    assert!(!allocator.release(5..15));
    assert!(allocator.release(10..30));
    assert_eq!(allocator.free_ranges(), &[30..40, 0..10, 10..30][..]);
    assert_eq!(allocator.used(), 50);
    assert_eq!(allocator.capacity(), 50);
}

#[test]
fn without_a_fit_the_items_come_from_above_the_mark() {
    let mut allocator = with_free_ranges();
    assert_eq!(allocator.allocate(6), Ok(Some(16..22)));
    assert_eq!(allocator.free_len(), 4);
    assert_eq!(allocator.used(), 22);
}

#[test]
fn without_a_fit_and_without_room_nothing_is_handed_out() {
    let mut allocator = with_free_ranges();
    assert_eq!(allocator.allocate(85), Ok(None));
    assert_eq!(allocator.free_len(), 4);
    assert_eq!(allocator.used(), 16);
    assert_eq!(allocator.allocate(84), Ok(Some(16..100)));
}

#[test]
fn release_turns_down_what_was_not_handed_out() {
    let mut allocator = RangeAllocator::new(100);
    assert_eq!(allocator.allocate(10), Ok(Some(0..10)));
    assert!(!allocator.release(5..5));
    assert!(!allocator.release(7..5));
    assert!(!allocator.release(5..11));
    assert!(!allocator.release(10..20));
    assert_eq!(allocator.free_len(), 0);
    assert!(allocator.release(2..6));
    assert!(!allocator.release(2..6));
    assert!(!allocator.release(0..3));
    assert!(!allocator.release(5..10));
    assert!(!allocator.release(3..4));
    assert!(allocator.release(0..2));
    assert!(allocator.release(6..10));
    assert_eq!(allocator.free_len(), 3);
    assert_eq!(allocator.used(), 10);
}
