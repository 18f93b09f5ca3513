use fiapo::decode::DecodeError;
use fiapo::server::Server;
use fiapo::source::{Source, SourceType};
use fiapo::window::{PageEntry, Window, WINDOW_CAPACITY};
use image::DynamicImage;

fn page(global: usize) -> PageEntry {
    PageEntry {
        global_index: global,
        image: DynamicImage::new_rgb8(1 + global as u32, 1),
    }
}

/// A session over sources with the given page counts, whose window already
/// buffers the global pages `buffered` with the cursor on `cursor`.
/// The backing paths do not exist, so any render the engine attempts on
/// its own fails and is skipped — which leaves exactly the buffered pages.
fn session(counts: &[usize], buffered: std::ops::Range<usize>, cursor: usize) -> Server {
    let sources: Vec<Source> = counts
        .iter()
        .enumerate()
        .map(|(i, &c)| Source::from_parts(SourceType::Pdf, format!("/nonexistent/s{}.pdf", i), c))
        .collect();
    let total = counts.iter().sum();
    let mut window = Window::new();
    for g in buffered {
        window.push_back_page(page(g));
    }
    for _ in 0..cursor {
        window.advance();
    }
    Server {
        sources,
        page_count: total,
        page_store: window,
    }
}

#[test]
fn fresh_engine_navigates_nowhere() {
    let mut server = Server::new();
    assert_eq!(server.total_page_count(), 0);
    assert!(server.get_next_page().is_none());
    assert!(server.get_prev_page().is_none());
}

#[test]
fn empty_session_always_returns_nothing() {
    let mut server = Server::new();
    server.set_sources(Vec::new(), 0);
    for _ in 0..4 {
        assert!(server.get_next_page().is_none());
        assert!(server.get_prev_page().is_none());
    }
    assert!(server.current_page_index().is_none());
    assert!(server.current_source_index().is_none());
}

#[test]
fn single_page_session_always_shows_the_same_page() {
    let mut server = session(&[1], 0..1, 0);
    let expected = DynamicImage::new_rgb8(1, 1);
    for _ in 0..3 {
        assert_eq!(server.get_next_page(), Some(&expected));
        assert_eq!(server.current_page_index(), Some(0));
        assert_eq!(server.get_prev_page(), Some(&expected));
        assert_eq!(server.current_page_index(), Some(0));
    }
}

#[test]
fn next_then_prev_returns_to_the_same_page() {
    // Window buffers pages 1..=3 of a five-page source, cursor on page 2.
    let mut server = session(&[5], 1..4, 1);
    assert_eq!(server.current_page_index(), Some(2));
    let before = DynamicImage::new_rgb8(3, 1);
    assert_eq!(server.get_next_page(), Some(&DynamicImage::new_rgb8(4, 1)));
    assert_eq!(server.current_page_index(), Some(3));
    assert_eq!(server.get_prev_page(), Some(&before));
    assert_eq!(server.current_page_index(), Some(2));
}

#[test]
fn prev_at_first_page_is_a_no_op() {
    let mut server = session(&[3], 0..3, 0);
    let first = DynamicImage::new_rgb8(1, 1);
    assert_eq!(server.get_prev_page(), Some(&first));
    assert_eq!(server.current_page_index(), Some(0));
}

#[test]
fn next_at_last_page_is_a_no_op() {
    let mut server = session(&[3], 0..3, 2);
    let last = DynamicImage::new_rgb8(3, 1);
    assert_eq!(server.get_next_page(), Some(&last));
    assert_eq!(server.current_page_index(), Some(2));
}

#[test]
fn navigation_walks_buffered_pages_in_order() {
    let mut server = session(&[5], 0..5, 0);
    let mut seen = vec![server.current_page_index().unwrap()];
    for _ in 0..6 {
        server.get_next_page();
        seen.push(server.current_page_index().unwrap());
    }
    // Forward motion stops at the buffered end; no page is skipped and no
    // page is repeated before the end.
    assert_eq!(seen, vec![0, 1, 2, 3, 4, 4, 4]);
}

#[test]
fn window_never_exceeds_capacity() {
    let mut server = session(&[9], 2..7, 2);
    assert_eq!(server.page_store.len(), WINDOW_CAPACITY);
    for _ in 0..5 {
        server.get_next_page();
        assert!(server.page_store.len() <= WINDOW_CAPACITY);
    }
    for _ in 0..8 {
        server.get_prev_page();
        assert!(server.page_store.len() <= WINDOW_CAPACITY);
    }
}

#[test]
fn current_source_tracks_the_boundary() {
    // Sources of 2 and 3 pages; buffered pages straddle the boundary.
    let mut server = session(&[2, 3], 0..4, 1);
    assert_eq!(server.current_page_index(), Some(1));
    assert_eq!(server.current_source_index(), Some(0));
    server.get_next_page();
    // Crossing the boundary lands on the first page of the next source
    // with no empty step in between.
    assert_eq!(server.current_page_index(), Some(2));
    assert_eq!(server.current_source_index(), Some(1));
    server.get_next_page();
    assert_eq!(server.current_page_index(), Some(3));
    assert_eq!(server.current_source_index(), Some(1));
}

#[test]
fn set_sources_replaces_the_session_wholesale() {
    let mut server = session(&[5], 0..5, 2);
    let replacement = vec![Source::from_parts(
        SourceType::Pdf,
        "/nonexistent/z.pdf".to_string(),
        4,
    )];
    server.set_sources(replacement, 4);
    assert_eq!(server.total_page_count(), 4);
    // The old window is gone; filling rendered nothing because the backing
    // file does not exist.
    assert_eq!(server.page_store.len(), 0);
}

#[test]
fn reset_tears_the_session_down() {
    let mut server = session(&[5], 0..5, 2);
    server.reset();
    assert_eq!(server.total_page_count(), 0);
    assert!(server.current_page_index().is_none());
    assert!(server.get_next_page().is_none());
    assert!(server.get_prev_page().is_none());
}

#[test]
fn open_on_missing_file_is_unreadable() {
    let mut source = Source::from_parts(SourceType::Pdf, "/nonexistent/a.pdf".to_string(), 3);
    assert_eq!(source.open(), Err(DecodeError::Unreadable));
}

#[test]
fn failed_render_keeps_position_and_releases_handle() {
    let mut source = Source::from_parts(SourceType::Pdf, "/nonexistent/a.pdf".to_string(), 3);
    assert!(source.render_next_page().is_none());
    assert_eq!(source.current_page, 0);
    assert!(source.pdf_object.is_none());
}

#[test]
fn exhausted_source_releases_handle_in_both_directions() {
    let mut source = Source::from_parts(SourceType::Pdf, "/nonexistent/a.pdf".to_string(), 2);
    source.seek(2);
    // No page remains forward: nothing is rendered and no handle is held.
    assert!(source.render_next_page().is_none());
    assert!(source.pdf_object.is_none());
    source.seek(0);
    assert!(source.render_prev_page().is_none());
    assert!(source.pdf_object.is_none());
}
