//! A source text: the content being scanned together with a display name.

use vstd::prelude::*;

verus! {

/// A source text along with its display name. The text is immutable once
/// constructed; the name is a label for diagnostics and is not validated.
pub struct Source {
    /// The display name of the source text.
    pub filename: String,
    /// The text itself.
    pub code: String,
}

impl Source {
    /// Creates a new `Source` from a display name and the text itself.
    pub fn from_str(filename: &str, code: &str) -> (s: Source)
        ensures
            s.filename@ == filename@,
            s.code@ == code@,
    {
        Source { filename: filename.to_owned(), code: code.to_owned() }
    }
}

} // verus!
