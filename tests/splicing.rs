use ministatic::error::Error;
use ministatic::render::find_more_marker;
use ministatic::splice::{content_ranges, splice, ContentRange};

fn spans(v: &[ContentRange]) -> Vec<(bool, usize, usize)> {
    v.iter()
        .map(|r| match r {
            ContentRange::Markdown { start, end } => (false, *start, *end),
            ContentRange::ShortCode { start, end } => (true, *start, *end),
        })
        .collect()
}

#[test]
fn ranges_alternate_in_order() {
    let v = content_ranges("A {{ x() }} B").unwrap();
    assert_eq!(spans(&v), vec![(false, 0, 2), (true, 2, 11), (false, 11, 13)]);
}

#[test]
fn ranges_adjacent_shortcodes() {
    let v = content_ranges("{{ a() }}{{ b() }}").unwrap();
    assert_eq!(spans(&v), vec![(true, 0, 9), (true, 9, 18)]);
}

#[test]
fn ranges_without_markers_are_one_markdown_range() {
    let v = content_ranges("just *text*").unwrap();
    assert_eq!(spans(&v), vec![(false, 0, 11)]);
    assert!(content_ranges("").unwrap().is_empty());
}

#[test]
fn ranges_unterminated_shortcode() {
    assert!(matches!(content_ranges("a {{ b("), Err(Error::UnterminatedShortCode)));
    assert!(matches!(content_ranges("{{ a() }} {{"), Err(Error::UnterminatedShortCode)));
}

#[test]
fn splice_joins_pieces_in_order() {
    let pieces = vec!["<p>A</p>".to_string(), "<em>hi</em>".to_string(), "".to_string(), "z".to_string()];
    assert_eq!(splice(&pieces), "<p>A</p><em>hi</em>z");
    assert_eq!(splice(&vec![]), "");
}

#[test]
fn ranges_then_splice_of_the_text_gives_the_body_back() {
    let body = "intro {{ a(x=\"1\") }} middle {{ b() }} end";
    let v = content_ranges(body).unwrap();
    let chars: Vec<char> = body.chars().collect();
    let pieces: Vec<String> = spans(&v).iter().map(|(_, s, e)| chars[*s..*e].iter().collect()).collect();
    assert_eq!(splice(&pieces), body);
}

#[test]
fn more_marker_found() {
    assert_eq!(find_more_marker("A <!-- more --> B"), Some(2));
    assert_eq!(find_more_marker("<!--MORE-->"), Some(0));
    assert_eq!(find_more_marker("x<!--  More\n-->"), Some(1));
    assert_eq!(find_more_marker("<!-- x --> A <!-- more --> B"), Some(13));
    assert_eq!(find_more_marker("<!-- <!-- more -->"), Some(5));
}

#[test]
fn more_marker_absent() {
    assert_eq!(find_more_marker("A <!-- other --> B"), None);
    assert_eq!(find_more_marker("A <!-- more"), None);
    assert_eq!(find_more_marker("no marker"), None);
}
