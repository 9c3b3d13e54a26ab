use vsysmonitor::navigation::Pager;

#[test]
fn pager_starts_on_first_page_and_treats_zero_size_as_one() {
    let p = Pager::new(0);
    assert_eq!(p.current_page(), 0);
    assert_eq!(p.total_pages(5), 5);
    assert_eq!(p.window(5), (0, 1));
}

#[test]
fn total_pages_rounds_up() {
    let p = Pager::new(3);
    assert_eq!(p.total_pages(0), 0);
    assert_eq!(p.total_pages(1), 1);
    assert_eq!(p.total_pages(3), 1);
    assert_eq!(p.total_pages(4), 2);
    assert_eq!(p.total_pages(9), 3);
    assert_eq!(p.total_pages(10), 4);
}

#[test]
fn next_page_wraps_to_first() {
    let mut p = Pager::new(3);
    p.next_page(7);
    assert_eq!(p.current_page(), 1);
    p.next_page(7);
    assert_eq!(p.current_page(), 2);
    p.next_page(7);
    assert_eq!(p.current_page(), 0);
}

#[test]
fn prev_page_wraps_to_last() {
    let mut p = Pager::new(3);
    p.prev_page(7);
    assert_eq!(p.current_page(), 2);
    p.prev_page(7);
    assert_eq!(p.current_page(), 1);
}

#[test]
fn paging_without_items_keeps_page() {
    let mut p = Pager::new(3);
    p.next_page(0);
    assert_eq!(p.current_page(), 0);
    p.prev_page(0);
    assert_eq!(p.current_page(), 0);
}

#[test]
fn next_then_prev_returns_to_page() {
    let mut p = Pager::new(2);
    p.next_page(9);
    p.next_page(9);
    let before = p.current_page();
    p.next_page(9);
    p.prev_page(9);
    assert_eq!(p.current_page(), before);
    p.prev_page(9);
    p.next_page(9);
    assert_eq!(p.current_page(), before);
}

#[test]
fn clamp_brings_page_back_into_range() {
    let mut p = Pager::new(2);
    p.prev_page(10);
    assert_eq!(p.current_page(), 4);
    p.clamp(5);
    assert_eq!(p.current_page(), 2);
    p.clamp(0);
    assert_eq!(p.current_page(), 0);
    p.next_page(10);
    p.clamp(10);
    assert_eq!(p.current_page(), 1);
}

#[test]
fn window_covers_the_current_page() {
    let mut p = Pager::new(3);
    assert_eq!(p.window(0), (0, 0));
    assert_eq!(p.window(7), (0, 3));
    p.next_page(7);
    assert_eq!(p.window(7), (3, 6));
    p.next_page(7);
    assert_eq!(p.window(7), (6, 7));
}

#[test]
fn set_page_size_keeps_page() {
    let mut p = Pager::new(3);
    p.next_page(9);
    p.set_page_size(0);
    assert_eq!(p.current_page(), 1);
    assert_eq!(p.total_pages(9), 9);
    p.set_page_size(4);
    assert_eq!(p.window(9), (4, 8));
}
