use replacer::splice::append_bytes;
use replacer::splice::spans_well_placed;
use replacer::splice::splice;
use replacer::splice::Substitute;
use std::borrow::Cow;

fn run(
    content: &[u8],
    spans: Vec<(usize, usize)>,
    text: &[u8],
    limit: usize,
    prefix: &[u8],
    suffix: &[u8],
) -> Vec<u8> {
    assert!(spans_well_placed(&spans, content.len()));
    splice(content, &spans, Substitute::Verbatim(text), limit, prefix, suffix).into_owned()
}

#[test]
fn no_spans_borrow_the_content() {
    let content = b"abc";
    let spans = vec![];
    let out = splice(content, &spans, Substitute::Verbatim(b"x"), 0, b"<", b">");
    assert!(matches!(out, Cow::Borrowed(_)));
    assert_eq!(&*out, b"abc");
}

#[test]
fn every_span_is_replaced_without_limit() {
    assert_eq!(run(b"foo foo foo", vec![(0, 3), (4, 7), (8, 11)], b"bar", 0, b"", b""), b"bar bar bar");
}

#[test]
fn limit_stops_after_that_many() {
    let spans = vec![(0, 3), (4, 7), (8, 11)];
    assert_eq!(run(b"foo foo foo", spans.clone(), b"x", 1, b"", b""), b"x foo foo");
    assert_eq!(run(b"foo foo foo", spans.clone(), b"x", 2, b"", b""), b"x x foo");
    assert_eq!(run(b"foo foo foo", spans.clone(), b"x", 3, b"", b""), b"x x x");
    assert_eq!(run(b"foo foo foo", spans.clone(), b"x", 4, b"", b""), b"x x x");
    assert_eq!(run(b"foo foo foo", spans, b"x", usize::MAX, b"", b""), b"x x x");
}

#[test]
fn bytes_outside_the_spans_are_kept() {
    assert_eq!(run(b"0123456789", vec![(2, 4), (7, 8)], b"", 0, b"", b""), b"0145689");
    assert_eq!(run(b"0123456789", vec![(2, 4), (7, 8)], b"", 1, b"", b""), b"01456789");
}

#[test]
fn empty_and_adjacent_spans() {
    assert_eq!(run(b"abc", vec![(0, 0), (1, 1), (2, 2), (3, 3)], b"-", 0, b"", b""), b"-a-b-c-");
    assert_eq!(run(b"abcd", vec![(0, 2), (2, 4)], b"x", 0, b"", b""), b"xx");
    assert_eq!(run(b"abcd", vec![(0, 4)], b"", 0, b"", b""), b"");
}

#[test]
fn markers_surround_each_replacement() {
    assert_eq!(run(b"a b", vec![(0, 1), (2, 3)], b"x", 0, b"<", b">"), b"<x> <x>");
    assert_eq!(run(b"a b", vec![(0, 1), (2, 3)], b"x", 1, b"<", b">"), b"<x> b");
}

#[test]
fn each_span_gets_its_own_text() {
    let content = b"1 2 3";
    let spans = vec![(0, 1), (2, 3), (4, 5)];
    let texts = vec![b"one".to_vec(), b"two".to_vec(), b"three".to_vec()];
    assert!(spans_well_placed(&spans, content.len()));
    let out = splice(content, &spans, Substitute::PerMatch(&texts), 2, b"", b"");
    assert!(matches!(out, Cow::Owned(_)));
    assert_eq!(&*out, b"one two 3");
}

#[test]
fn placement_of_spans_is_checked() {
    assert!(spans_well_placed(&vec![], 0));
    assert!(spans_well_placed(&vec![(0, 0)], 0));
    assert!(spans_well_placed(&vec![(0, 2), (2, 5)], 5));
    assert!(!spans_well_placed(&vec![(0, 6)], 5));
    assert!(!spans_well_placed(&vec![(3, 2)], 5));
    assert!(!spans_well_placed(&vec![(0, 3), (2, 4)], 5));
    assert!(!spans_well_placed(&vec![(2, 4), (0, 1)], 5));
}

#[test]
fn bytes_are_appended() {
    let mut buffer = b"ab".to_vec();
    append_bytes(&mut buffer, b"cd");
    append_bytes(&mut buffer, b"");
    assert_eq!(buffer, b"abcd");
}
