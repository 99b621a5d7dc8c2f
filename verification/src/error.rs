//! The error taxonomy of the collection pipeline.  Every failure aborts the
//! current collection cycle and carries enough text to point at the culprit.

use vstd::prelude::*;

verus! {

/// What can go wrong while collecting one cluster snapshot.
#[derive(Clone, Debug, PartialEq, Eq)]
pub enum CollectError {
    /// The external tool could not be launched (`started == false`) or
    /// exited non-zero (`started == true`); `detail` carries its standard
    /// error text.
    Execution { started: bool, detail: String },
    /// A record field did not decode; names the field and the raw value.
    Parse { field: String, value: String },
    /// A resource string (GRES/TRES/memory) did not decode.
    Extraction { field: String, value: String },
}

impl CollectError {
    /// Whether this is a parse error naming exactly this field and value.
    pub open spec fn is_parse_of(self, field: Seq<char>, value: Seq<char>) -> bool {
        self matches CollectError::Parse { field: f, value: v } && f@ == field && v@ == value
    }

    /// Whether this is an extraction error naming exactly this field and value.
    pub open spec fn is_extraction_of(self, field: Seq<char>, value: Seq<char>) -> bool {
        self matches CollectError::Extraction { field: f, value: v } && f@ == field && v@
            == value
    }
}

/// Builds a parse error for one field.
pub fn parse_error(field: &str, value: &str) -> (e: CollectError)
    ensures
        e.is_parse_of(field@, value@),
{
    CollectError::Parse { field: String::from_str(field), value: String::from_str(value) }
}

/// Builds an extraction error for one resource string.
pub fn extraction_error(field: &str, value: &str) -> (e: CollectError)
    ensures
        e.is_extraction_of(field@, value@),
{
    CollectError::Extraction { field: String::from_str(field), value: String::from_str(value) }
}

} // verus!
