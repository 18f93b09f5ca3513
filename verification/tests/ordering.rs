use fiapo::builder::{build_session, classify_name, sort_sources, Candidate};
use fiapo::order::bytes_le_exec;
use fiapo::source::{extract_file_name, Source, SourceType};

#[test]
fn byte_order_on_distinct_names() {
    assert!(bytes_le_exec(b"a.pdf", b"b.pdf"));
    assert!(!bytes_le_exec(b"b.pdf", b"a.pdf"));
}

#[test]
fn byte_order_prefix_comes_first() {
    assert!(bytes_le_exec(b"a", b"a.pdf"));
    assert!(!bytes_le_exec(b"a.pdf", b"a"));
}

#[test]
fn byte_order_equal_names() {
    assert!(bytes_le_exec(b"same", b"same"));
}

#[test]
fn byte_order_is_case_sensitive() {
    // Capital letters sort before lower-case ones byte-wise.
    assert!(bytes_le_exec(b"B.pdf", b"a.pdf"));
}

#[test]
fn file_name_of_nested_path() {
    assert_eq!(extract_file_name("/docs/comics/b.pdf"), b"b.pdf".to_vec());
}

#[test]
fn file_name_of_bare_name() {
    assert_eq!(extract_file_name("b.pdf"), b"b.pdf".to_vec());
}

#[test]
fn classify_pdf_extension() {
    assert_eq!(classify_name(&b"a.pdf".to_vec()), SourceType::Pdf);
}

#[test]
fn classify_image_extensions() {
    assert_eq!(classify_name(&b"a.png".to_vec()), SourceType::ImageSequence);
    assert_eq!(classify_name(&b"a.jpg".to_vec()), SourceType::ImageSequence);
}

#[test]
fn classify_unknown_extension_defaults_to_document() {
    assert_eq!(classify_name(&b"a.txt".to_vec()), SourceType::Pdf);
    assert_eq!(classify_name(&b"archive.tar.gz".to_vec()), SourceType::Pdf);
}

#[test]
fn classify_without_extension_defaults_to_document() {
    assert_eq!(classify_name(&b"README".to_vec()), SourceType::Pdf);
    assert_eq!(classify_name(&b".hidden".to_vec()), SourceType::Pdf);
}

#[test]
fn sort_sources_orders_by_file_name() {
    let b = Source::from_parts(SourceType::Pdf, "/docs/b.pdf".to_string(), 2);
    let a = Source::from_parts(SourceType::Pdf, "/docs/a.pdf".to_string(), 3);
    let sorted = sort_sources(vec![b, a]);
    assert_eq!(sorted.len(), 2);
    assert_eq!(sorted[0].name, b"a.pdf".to_vec());
    assert_eq!(sorted[1].name, b"b.pdf".to_vec());
    assert_eq!(sorted[0].page_count, 3);
    assert_eq!(sorted[1].page_count, 2);
}

#[test]
fn sort_sources_keeps_every_source() {
    let names = ["c.pdf", "a.pdf", "d.pdf", "b.pdf"];
    let mut sources = Vec::new();
    for (i, n) in names.iter().enumerate() {
        sources.push(Source::from_parts(SourceType::Pdf, n.to_string(), i + 1));
    }
    let sorted = sort_sources(sources);
    assert_eq!(sorted.len(), 4);
    let got: Vec<Vec<u8>> = sorted.iter().map(|s| s.name.clone()).collect();
    assert_eq!(
        got,
        vec![
            b"a.pdf".to_vec(),
            b"b.pdf".to_vec(),
            b"c.pdf".to_vec(),
            b"d.pdf".to_vec()
        ]
    );
}

#[test]
fn sort_sources_keeps_tied_names_in_arrival_order() {
    // Two sources with the same file name in different directories: the
    // tie is broken stably, keeping their relative order.
    let first = Source::from_parts(SourceType::Pdf, "/one/x.pdf".to_string(), 1);
    let second = Source::from_parts(SourceType::Pdf, "/two/x.pdf".to_string(), 2);
    let sorted = sort_sources(vec![first, second]);
    assert_eq!(sorted[0].page_count, 1);
    assert_eq!(sorted[1].page_count, 2);
}

#[test]
fn build_session_drops_directories_and_unreadable_files() {
    // Neither candidate is a readable document: the directory is rejected
    // outright, and the missing file opens as unreadable (page count 0),
    // so the session comes out empty.
    let candidates = vec![
        Candidate {
            path: "/nonexistent-dir".to_string(),
            is_dir: true,
        },
        Candidate {
            path: "/nonexistent/missing.pdf".to_string(),
            is_dir: false,
        },
    ];
    let (sources, total) = build_session(candidates);
    assert!(sources.is_empty());
    assert_eq!(total, 0);
}

#[test]
fn source_for_missing_file_has_no_pages() {
    let source = Source::new(SourceType::Pdf, "/nonexistent/missing.pdf".to_string(), true);
    assert_eq!(source.get_page_count(), 0);
    assert!(source.pdf_object.is_none());
}

#[test]
fn image_sequence_source_is_a_stub_without_pages() {
    let source = Source::new(
        SourceType::ImageSequence,
        "/nonexistent/missing.png".to_string(),
        false,
    );
    assert_eq!(source.get_page_count(), 0);
}

#[test]
fn keep_positive_drops_only_empty_sources() {
    let a = Source::from_parts(SourceType::Pdf, "a.pdf".to_string(), 2);
    let empty = Source::from_parts(SourceType::Pdf, "empty.pdf".to_string(), 0);
    let b = Source::from_parts(SourceType::Pdf, "b.pdf".to_string(), 3);
    let kept = fiapo::builder::keep_positive(vec![a, empty, b]);
    assert_eq!(kept.len(), 2);
    assert_eq!(kept[0].name, b"a.pdf".to_vec());
    assert_eq!(kept[1].name, b"b.pdf".to_vec());
}

#[test]
fn keep_positive_keeps_everything_with_pages() {
    let sources: Vec<Source> = (1..4usize)
        .map(|c| Source::from_parts(SourceType::Pdf, format!("s{}.pdf", c), c))
        .collect();
    let kept = fiapo::builder::keep_positive(sources);
    assert_eq!(kept.len(), 3);
    assert_eq!(kept[0].page_count, 1);
    assert_eq!(kept[2].page_count, 3);
}
