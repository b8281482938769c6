//! The errors a run can hit while parsing arguments or editing a document.

use vstd::prelude::*;

verus! {

/// Everything that can go wrong short of I/O: a key token with no segments,
/// an entry token with no `=`, input text that is not a valid document, and
/// a delete or assign target that cannot be resolved. `KeyNotFound` carries
/// the raw key string the caller gave, `Parse` the parser's own message.
#[derive(Debug, PartialEq, Eq)]
pub enum EditError {
    MalformedKey,
    MalformedEntry,
    Parse(String),
    KeyNotFound(String),
}

impl EditError {
    /// The human-readable message for this error, as it is shown to the user.
    pub fn message(&self) -> (r: String)
        ensures
            self is MalformedKey ==> r@ == "Key must be form of KEY[.SUBKEY ...]"@,
            self is MalformedEntry ==> r@ == "Entry must be form of KEY[.SUBKEY...]=VALUE"@,
            self matches EditError::Parse(m) ==> r@ == m@,
            self matches EditError::KeyNotFound(raw) ==> r@ == "could not find `"@ + raw@
                + "`"@,
    {
        match self {
            EditError::MalformedKey => String::from_str("Key must be form of KEY[.SUBKEY ...]"),
            EditError::MalformedEntry => String::from_str(
                "Entry must be form of KEY[.SUBKEY...]=VALUE",
            ),
            EditError::Parse(m) => m.clone(),
            EditError::KeyNotFound(raw) => {
                let mut r = String::from_str("could not find `");
                r.append(raw.as_str());
                r.append("`");
                r
            },
        }
    }
}

} // verus!
