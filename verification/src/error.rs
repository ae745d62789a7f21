//! The error kinds a codec operation can report.

use vstd::prelude::*;

verus! {

/// What went wrong while validating a URL or decoding a property list.
///
/// Every decode operation is total over this set: it either returns a fully
/// validated value or exactly one of these kinds, never a partial result.
#[derive(Clone, Copy, Debug, PartialEq, Eq, Structural)]
pub enum WeblocError {
    /// The input string fails URL grammar validation.
    InvalidUrl,
    /// Binary plist: bad magic, truncated or out-of-range trailer, offset
    /// table, or object reference.
    MalformedContainer,
    /// XML plist: unparsable document, or the `<plist>`/`<dict>` root is
    /// missing.
    MalformedDocument,
    /// The decoded root is not a single-entry dictionary mapping the key
    /// `URL` to a string value.
    UnexpectedShape,
}

} // verus!
