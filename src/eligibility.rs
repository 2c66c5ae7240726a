//! Whether a file is recent enough to be converted.

use vstd::prelude::*;

verus! {

/// A file last modified `age` seconds ago is converted when no threshold is
/// set, or when its age is strictly below the threshold.
pub open spec fn eligible(age: u64, threshold: Option<u64>) -> bool {
    match threshold {
        Some(t) => age < t,
        None => true,
    }
}

/// Whether a file last modified `age` seconds ago is to be converted under
/// the "modified within `threshold` seconds" filter.
///
/// A file whose modification time lies in the future counts as age zero;
/// the caller passes 0 for it.
pub fn is_transcode_eligible(age: u64, threshold: Option<u64>) -> (r: bool)
    ensures
        r == eligible(age, threshold),
{
    match threshold {
        Some(t) => age < t,
        None => true,
    }
}

/// A file exactly as old as the threshold is not converted; one a second
/// younger is.
pub proof fn lemma_eligibility_boundary(threshold: u64)
    requires
        threshold > 0,
    ensures
        !eligible(threshold, Some(threshold)),
        eligible((threshold - 1) as u64, Some(threshold)),
{
}

/// Without a threshold every file is converted.
pub proof fn lemma_no_threshold_admits_all(age: u64)
    ensures
        eligible(age, None),
{
}

} // verus!
