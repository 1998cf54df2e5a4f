//! Tokens: an opaque caller-supplied tag paired with the span it covers.

use vstd::prelude::*;
use crate::span::Span;

verus! {

/// A token produced by a successful rule match: a caller-defined kind
/// plus the span of text it covers.
pub struct Token<K> {
    /// The kind of the token, an opaque caller-supplied tag.
    pub kind: K,
    /// The span in the source text where the token is located.
    pub span: Span,
}

impl<K> Token<K> {
    /// Creates a new `Token`.
    pub fn new(kind: K, span: Span) -> (t: Token<K>)
        ensures
            t.kind == kind,
            t.span == span,
    {
        Token { kind, span }
    }
}

} // verus!
