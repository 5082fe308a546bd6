//! What a response's status means for a fetch.

use vstd::prelude::*;
use crate::report::{decimal, decimal_chars};
use crate::text::{append_chars, chars_of, string_of};

verus! {

/// Why a fetch counts as failed.
#[derive(Clone, Copy, Debug, PartialEq, Eq, Structural)]
pub enum FetchError {
    /// The response's status was not a success; the status is kept.
    Status(u16),
}

/// A status from 200 to 299 is a success.
pub open spec fn is_success(status: u16) -> bool {
    200 <= status < 300
}

/// Whether a response with the given status is taken: any status but a
/// success is a failure that keeps the status.
pub fn check_status(status: u16) -> (r: Result<(), FetchError>)
    ensures
        is_success(status) ==> r is Ok,
        !is_success(status) ==> r == Err::<(), FetchError>(FetchError::Status(status)),
{
    if 200 <= status && status < 300 {
        Ok(())
    } else {
        Err(FetchError::Status(status))
    }
}

impl FetchError {
    /// The error in words, with the status.
    pub fn message(&self) -> (r: String)
        ensures
            r@ == match *self {
                FetchError::Status(status) => "HTTP "@ + decimal(status as nat),
            },
    {
        match self {
            FetchError::Status(status) => {
                let mut out = chars_of("HTTP ");
                append_chars(&mut out, &decimal_chars(*status as u32));
                string_of(&out)
            },
        }
    }
}

} // verus!
