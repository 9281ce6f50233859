use livepager::position::{get_pos, pos_with_in_view, PAGE_SIZE};

#[test]
fn zero_offset_changes_nothing() {
    assert_eq!(get_pos(None, 100, 10, 0), None);
    assert_eq!(get_pos(Some(0), 100, 10, 0), Some(0));
    assert_eq!(get_pos(Some(42), 100, 10, 0), Some(42));
    assert_eq!(get_pos(Some(500), 100, 10, 0), Some(500));
    assert_eq!(get_pos(Some(7), 0, 0, 0), Some(7));
}

#[test]
fn scrolling_from_a_pinned_line() {
    assert_eq!(get_pos(Some(5), 100, 10, 3), Some(8));
    assert_eq!(get_pos(Some(5), 100, 10, -3), Some(2));
    assert_eq!(get_pos(Some(2), 100, 10, -5), Some(0));
}

#[test]
fn scrolling_past_the_end_follows_the_tail() {
    assert_eq!(get_pos(Some(95), 100, 10, 10), None);
    assert_eq!(get_pos(Some(98), 100, 10, 1), Some(99));
    assert_eq!(get_pos(Some(99), 100, 10, 1), None);
    assert_eq!(get_pos(Some(usize::MAX), 100, 10, 5), None);
    assert_eq!(get_pos(Some(3), usize::MAX, 10, i32::MAX), Some(3 + i32::MAX as usize));
}

#[test]
fn nothing_lies_below_the_tail() {
    assert_eq!(get_pos(None, 100, 10, 1), None);
    assert_eq!(get_pos(None, 100, 10, 10), None);
}

#[test]
fn scrolling_up_from_the_tail() {
    assert_eq!(get_pos(None, 100, 10, -1), Some(89));
    assert_eq!(get_pos(None, 100, 10, -10), Some(80));
    assert_eq!(get_pos(None, 100, 10, -95), Some(0));
    assert_eq!(get_pos(None, 10, 10, -1), Some(0));
}

#[test]
fn scrolling_up_from_the_tail_of_a_short_buffer() {
    assert_eq!(get_pos(None, 5, 10, -1), Some(4));
    assert_eq!(get_pos(None, 5, 10, -5), Some(0));
    assert_eq!(get_pos(None, 5, 10, -9), Some(0));
    assert_eq!(get_pos(None, 0, 10, -1), Some(0));
}

#[test]
fn the_largest_offsets_do_not_overflow() {
    assert_eq!(get_pos(Some(7), 100, 10, i32::MIN), Some(0));
    assert_eq!(get_pos(None, 100, 10, i32::MIN), Some(0));
    assert_eq!(get_pos(Some(0), 100, 10, i32::MAX), None);
}

#[test]
fn look_behind_keeps_a_page_above_the_target() {
    assert_eq!(PAGE_SIZE, 10);
    assert_eq!(pos_with_in_view(Some(24), PAGE_SIZE), Some(14));
    assert_eq!(pos_with_in_view(Some(10), PAGE_SIZE), Some(0));
    assert_eq!(pos_with_in_view(Some(3), PAGE_SIZE), Some(0));
    assert_eq!(pos_with_in_view(Some(3), 0), Some(3));
    assert_eq!(pos_with_in_view(None, PAGE_SIZE), None);
}
