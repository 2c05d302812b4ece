use json_peek::Span;

#[test]
fn get_range() {
    assert_eq!(Span::new(3, 9).range(), 3..=9);
}

#[test]
fn add_usize() {
    assert_eq!(Span::new(3, 9) + 1, Span { start: 3, end: 10 });
}

#[test]
fn sub_usize() {
    assert_eq!(Span::new(0, 10) - 10, Span { start: 0, end: 0 });
}

#[test]
fn add_span() {
    assert_eq!(Span::new(0, 9) + Span::new(5, 8), Span { start: 5, end: 17 });
}

#[test]
fn sub_span() {
    assert_eq!(Span::new(5, 10) - Span::new(3, 4), Span { start: 2, end: 6 });
}

#[test]
fn span_points_and_trim() {
    let span = Span::new(2, 4);
    assert_eq!(span.start_point(), Span::new(2, 2));
    assert_eq!(span.end_point(), Span::new(4, 4));
    assert!(!span.is_point());
    assert!(span.start_point().is_point());
    assert_eq!(span.trim(1), Span::new(3, 3));
    assert_eq!(span.trim(2), Span::new(4, 2));
}

#[test]
fn span_union_of_two() {
    assert_eq!(Span::from_span(Span::new(1, 5), Span::new(4, 10)), Span::new(1, 10));
    assert_eq!(Span::from_span(Span::new(4, 10), Span::new(1, 5)), Span::new(1, 10));
    assert_eq!(Span::test(), Span::new(0, 0));
}
