//! Checking the change a client asks for on an enrollment.
use vstd::prelude::*;
use crate::text::{chars_of, range_equals};

verus! {

broadcast use vstd::string::group_string_axioms;

/// A change to an enrollment as the client sends it; each field that is
/// present replaces the stored one.
#[derive(Clone, Debug, PartialEq, Eq)]
pub struct PatchEnrollmentBody {
    pub status: Option<String>,
    pub timezone: Option<String>,
    pub day_boundary_hour: Option<i16>,
}

/// Why a change to an enrollment was refused.
#[derive(Clone, Copy, Debug, PartialEq, Eq, Structural)]
pub enum PatchEnrollmentError {
    InvalidBoundary,
    InvalidStatus,
}

impl PatchEnrollmentError {
    /// What the client is told.
    pub fn message(&self) -> (text: &'static str)
        ensures
            text@ == (match *self {
                PatchEnrollmentError::InvalidBoundary => "invalid day boundary hour"@,
                PatchEnrollmentError::InvalidStatus => "invalid enrollment status"@,
            }),
    {
        match self {
            PatchEnrollmentError::InvalidBoundary => "invalid day boundary hour",
            PatchEnrollmentError::InvalidStatus => "invalid enrollment status",
        }
    }
}

/// The statuses an enrollment can be put in.
pub open spec fn known_status(status: Seq<char>) -> bool {
    status == "active"@ || status == "paused"@ || status == "completed"@ || status == "abandoned"@
}

/// A change is refused when it moves the day boundary outside midnight to
/// four in the morning, or names a status an enrollment cannot have; the
/// boundary is checked first.
pub fn validate_enrollment_patch(body: &PatchEnrollmentBody) -> (result: Result<(), PatchEnrollmentError>)
    ensures
        result == (if body.day_boundary_hour matches Some(h) && !(0 <= h <= 4) {
            Err(PatchEnrollmentError::InvalidBoundary)
        } else if body.status matches Some(s) && !known_status(s@) {
            Err(PatchEnrollmentError::InvalidStatus)
        } else {
            Ok::<(), PatchEnrollmentError>(())
        }),
{
    match body.day_boundary_hour {
        Some(h) => {
            if h < 0 || h > 4 {
                return Err(PatchEnrollmentError::InvalidBoundary);
            }
        },
        None => {},
    }
    match &body.status {
        Some(s) => {
            let chars = chars_of(s.as_str());
            let cs = chars.as_slice();
            let n = chars.len();
            assert(chars@.subrange(0, n as int) == chars@);
            let known = range_equals(cs, 0, n, "active") || range_equals(cs, 0, n, "paused") || range_equals(
                cs,
                0,
                n,
                "completed",
            ) || range_equals(cs, 0, n, "abandoned");
            if !known {
                return Err(PatchEnrollmentError::InvalidStatus);
            }
        },
        None => {},
    }
    Ok(())
}

} // verus!
