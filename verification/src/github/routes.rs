//! One place that validates subjects; `SubjectKind` is the one defined
//! in `crate::metrics`.

use vstd::prelude::*;
pub use crate::metrics::SubjectKind;
use crate::escape::valid_subject;

verus! {

/// Validates a GitHub login, following GitHub's rules: 1 to 39
/// characters, ASCII letters, digits and hyphens, no leading or trailing
/// hyphen, no two hyphens in a row.
pub fn is_valid_subject(s: &str) -> (b: bool)
    ensures
        b == valid_subject(s@),
{
    crate::escape::is_valid_subject(s)
}

} // verus!
