use saran_compiler::span::{Span, SpanOf};

#[test]
fn concat_is_convex_hull() {
    let a = Span(3, 5);
    let b = Span(10, 12);
    assert_eq!(a.concat(b), Span(3, 12));
    // Overlapping and unordered inputs work the same way.
    let c = Span(4, 11);
    assert_eq!(b.concat(c), Span(4, 12));
    assert_eq!(Span(7, 9).concat(Span(1, 2)), Span(1, 9));
}

#[test]
fn concat_commutative() {
    let a = Span(2, 6);
    let b = Span(4, 9);
    assert_eq!(a.concat(b), b.concat(a));
}

#[test]
fn concat_associative() {
    let a = Span(0, 3);
    let b = Span(8, 11);
    let c = Span(5, 6);
    assert_eq!(a.concat(b).concat(c), a.concat(b.concat(c)));
}

#[test]
fn concat_idempotent() {
    let s = Span(4, 17);
    assert_eq!(s.concat(s), s);
}

#[test]
fn range_is_the_byte_range() {
    let r = Span(3, 9).range();
    assert_eq!(r.start, 3);
    assert_eq!(r.end, 9);
    let text = "abcdefghij";
    assert_eq!(&text[Span(2, 5).range()], "cde");
}

#[test]
fn span_of_new_keeps_both_parts() {
    let t = SpanOf::new('x', Span(1, 2));
    assert_eq!(t.value, 'x');
    assert_eq!(t.span, Span(1, 2));
}

#[test]
fn combine_merges_payloads_and_spans() {
    let a = SpanOf::new(2u32, Span(0, 1));
    let b = SpanOf::new(40u32, Span(5, 6));
    let c = a.combine(b, |x, y| x + y);
    assert_eq!(c.value, 42);
    assert_eq!(c.span, Span(0, 6));
}
