use fiapo::window::{PageEntry, Window, EXTRA_PAGES_AT_ENDS, WINDOW_CAPACITY};
use image::DynamicImage;

fn page(global: usize) -> PageEntry {
    // Give each page a distinguishable image.
    PageEntry {
        global_index: global,
        image: DynamicImage::new_rgb8(1 + global as u32, 1),
    }
}

#[test]
fn capacity_is_two_extras_each_side_plus_current() {
    assert_eq!(EXTRA_PAGES_AT_ENDS, 2);
    assert_eq!(WINDOW_CAPACITY, 5);
}

#[test]
fn empty_window_shows_nothing() {
    let w = Window::new();
    assert_eq!(w.len(), 0);
    assert!(w.is_empty());
    assert!(w.current_image().is_none());
    assert!(w.current_index().is_none());
}

#[test]
fn push_back_keeps_cursor_on_same_page() {
    let mut w = Window::new();
    w.push_back_page(page(3));
    w.push_back_page(page(4));
    assert_eq!(w.len(), 2);
    assert_eq!(w.current_index(), Some(3));
}

#[test]
fn push_front_keeps_cursor_on_same_page() {
    let mut w = Window::new();
    w.push_back_page(page(3));
    w.push_front_page(page(2));
    assert_eq!(w.len(), 2);
    assert_eq!(w.current_index(), Some(3));
    assert_eq!(w.head_index(), 2);
    assert_eq!(w.tail_index(), 3);
}

#[test]
fn advance_and_retreat_move_within_buffer() {
    let mut w = Window::new();
    for g in 0..3 {
        w.push_back_page(page(g));
    }
    assert_eq!(w.current_index(), Some(0));
    assert!(w.advance());
    assert_eq!(w.current_index(), Some(1));
    assert!(w.advance());
    assert_eq!(w.current_index(), Some(2));
    // No buffered page remains ahead.
    assert!(!w.advance());
    assert_eq!(w.current_index(), Some(2));
    assert!(w.retreat());
    assert_eq!(w.current_index(), Some(1));
}

#[test]
fn eviction_keeps_cursor_on_same_page() {
    let mut w = Window::new();
    for g in 0..5 {
        w.push_back_page(page(g));
    }
    assert!(w.advance());
    assert!(w.advance());
    assert_eq!(w.current_index(), Some(2));
    w.pop_front_page();
    assert_eq!(w.len(), 4);
    assert_eq!(w.current_index(), Some(2));
    w.pop_back_page();
    assert_eq!(w.len(), 3);
    assert_eq!(w.current_index(), Some(2));
    assert_eq!(w.head_index(), 1);
    assert_eq!(w.tail_index(), 3);
}

#[test]
fn current_image_tracks_cursor() {
    let mut w = Window::new();
    for g in 0..3 {
        w.push_back_page(page(g));
    }
    assert_eq!(w.current_image(), Some(&DynamicImage::new_rgb8(1, 1)));
    w.advance();
    assert_eq!(w.current_image(), Some(&DynamicImage::new_rgb8(2, 1)));
}

#[test]
fn clear_empties_the_window() {
    let mut w = Window::new();
    for g in 0..3 {
        w.push_back_page(page(g));
    }
    w.clear();
    assert!(w.is_empty());
    assert!(w.current_image().is_none());
}
