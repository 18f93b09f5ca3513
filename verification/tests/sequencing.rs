use fiapo::sequencer::locate;
use fiapo::source::{Source, SourceType};

fn sources_with_counts(counts: &[usize]) -> Vec<Source> {
    counts
        .iter()
        .enumerate()
        .map(|(i, &c)| Source::from_parts(SourceType::Pdf, format!("s{}.pdf", i), c))
        .collect()
}

#[test]
fn locate_inside_first_source() {
    let sources = sources_with_counts(&[2, 3]);
    assert_eq!(locate(&sources, 0), (0, 0));
    assert_eq!(locate(&sources, 1), (0, 1));
}

#[test]
fn locate_crosses_into_second_source() {
    // The page after the last page of source 0 is page 0 of source 1:
    // the global order is seamless across the boundary.
    let sources = sources_with_counts(&[2, 3]);
    assert_eq!(locate(&sources, 2), (1, 0));
    assert_eq!(locate(&sources, 3), (1, 1));
    assert_eq!(locate(&sources, 4), (1, 2));
}

#[test]
fn locate_over_three_sources() {
    let sources = sources_with_counts(&[1, 1, 4]);
    assert_eq!(locate(&sources, 0), (0, 0));
    assert_eq!(locate(&sources, 1), (1, 0));
    assert_eq!(locate(&sources, 2), (2, 0));
    assert_eq!(locate(&sources, 5), (2, 3));
}

#[test]
fn locate_visits_sources_in_order() {
    let sources = sources_with_counts(&[3, 2, 2]);
    let mut last_source = 0usize;
    for g in 0..7usize {
        let (s, p) = locate(&sources, g);
        assert!(s >= last_source);
        assert!(p < sources[s].get_page_count());
        last_source = s;
    }
}
