use lib::span::Span;

#[test]
fn len_and_empty() {
    let s = Span::new(3, 7);
    assert_eq!(s.len(), 4);
    assert!(!s.is_empty());
    assert!(Span::new(5, 5).is_empty());
}

#[test]
fn merge_covers_both() {
    let a = Span::new(2, 4);
    let b = Span::new(8, 10);
    assert_eq!(a.merge(&b), Span::new(2, 10));
    assert_eq!(b.merge(&a), Span::new(2, 10));
}

#[test]
fn merge_of_overlapping_spans_is_their_hull() {
    let a = Span::new(2, 9);
    let b = Span::new(4, 6);
    assert_eq!(a.merge(&b), Span::new(2, 9));
    assert_eq!(b.merge(&b), b);
}
