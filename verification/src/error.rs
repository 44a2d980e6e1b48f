use crate::span::SpanOf;
use std::rc::Rc;
use vstd::prelude::*;

verus! {

/// A hard parse failure: a span-tagged message together with a shared handle
/// to the source buffer it points into, so a caller can slice out the
/// offending text.
#[derive(Debug, Clone)]
pub struct Error {
    message: SpanOf<String>,
    source: Rc<String>,
}

impl Error {
    /// The span-tagged message of this failure.
    pub closed spec fn message_spec(&self) -> SpanOf<String> {
        self.message
    }

    /// The source buffer the failure points into.
    pub closed spec fn source_spec(&self) -> Seq<char> {
        self.source@
    }

    /// Build a hard failure from a span-tagged message and the buffer it
    /// refers to.
    pub fn new(message: SpanOf<String>, source: Rc<String>) -> (r: Self)
        ensures
            r.message_spec() == message,
            r.source_spec() == source@,
    {
        Self { message, source }
    }

    /// The span-tagged message of this failure.
    pub fn message(&self) -> (r: &SpanOf<String>)
        ensures
            r == self.message_spec(),
    {
        &self.message
    }

    /// The source buffer the failure points into.
    pub fn source(&self) -> (r: &Rc<String>)
        ensures
            r@ == self.source_spec(),
    {
        &self.source
    }
}

} // verus!
