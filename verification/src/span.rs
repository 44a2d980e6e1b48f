use vstd::prelude::*;

verus! {

/// A half-open byte range `[start, end)` into one source buffer.
#[derive(Debug, Clone, Copy, PartialEq, Eq, Structural)]
pub struct Span(pub usize, pub usize);

impl Span {
    /// The smallest span covering both inputs: the minimum of the starts and
    /// the maximum of the ends. A convex hull, so the inputs need not touch
    /// or be ordered.
    pub open spec fn concat_spec(self, other: Self) -> Span {
        Span(
            if self.0 <= other.0 {
                self.0
            } else {
                other.0
            },
            if self.1 >= other.1 {
                self.1
            } else {
                other.1
            },
        )
    }

    /// Merge two spans into the smallest span covering both.
    pub fn concat(self, other: Self) -> (r: Self)
        ensures
            r == self.concat_spec(other),
    {
        Span(
            if self.0 <= other.0 {
                self.0
            } else {
                other.0
            },
            if self.1 >= other.1 {
                self.1
            } else {
                other.1
            },
        )
    }

    /// The byte range of this span, for slicing the source buffer.
    pub fn range(self) -> (r: core::ops::Range<usize>)
        ensures
            r.start == self.0,
            r.end == self.1,
    {
        self.0..self.1
    }
}

/// Merging spans is commutative.
pub proof fn lemma_concat_commutative(a: Span, b: Span)
    ensures
        a.concat_spec(b) == b.concat_spec(a),
{
}

/// Merging spans is associative.
pub proof fn lemma_concat_associative(a: Span, b: Span, c: Span)
    ensures
        a.concat_spec(b).concat_spec(c) == a.concat_spec(b.concat_spec(c)),
{
}

/// Merging a span with itself gives the span back.
pub proof fn lemma_concat_idempotent(s: Span)
    ensures
        s.concat_spec(s) == s,
{
}

/// A value of type `T` paired with the span it was derived from.
#[derive(Debug, Clone, Copy, PartialEq, Eq)]
pub struct SpanOf<T> {
    pub value: T,
    pub span: Span,
}

impl<T> SpanOf<T> {
    /// Tag a value with its span.
    pub fn new(value: T, span: Span) -> (r: Self)
        ensures
            r.value == value,
            r.span == span,
    {
        Self { value, span }
    }

    /// Merge two span-tagged values: the payloads through `func`, the spans
    /// by `concat`.
    pub fn combine<T1, O, F: FnOnce(T, T1) -> O>(self, other: SpanOf<T1>, func: F) -> (r: SpanOf<
        O,
    >)
        requires
            call_requires(func, (self.value, other.value)),
        ensures
            call_ensures(func, (self.value, other.value), r.value),
            r.span == self.span.concat_spec(other.span),
    {
        let v = func(self.value, other.value);
        SpanOf::new(v, self.span.concat(other.span))
    }
}

} // verus!
