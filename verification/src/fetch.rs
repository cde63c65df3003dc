//! Which responses count as failed, and whose failure it is.

use vstd::prelude::*;

verus! {

/// Why a response counts as failed.
#[derive(Debug, PartialEq, Eq)]
pub enum Error {
    /// A status from 400 to 499, with the status text.
    Client(u16, String),
    /// A status from 500 to 599, with the status text.
    Server(u16, String),
}

/// Whether a response that the host does not call `ok` has a status that
/// says whose fault the failure is.
pub open spec fn is_failure_status(status: u16) -> bool {
    400 <= status <= 599
}

/// What becomes of a response with the given marks.
pub open spec fn checked(ok: bool, status: u16, status_text: String) -> Result<(), Error> {
    if ok {
        Ok(())
    } else if 400 <= status <= 499 {
        Err(Error::Client(status, status_text))
    } else {
        Err(Error::Server(status, status_text))
    }
}

/// Accepts a response that the host calls `ok` and sorts every other by its
/// status into the client's and the server's failures. A response that is
/// neither `ok` nor carries a failure status is not handed in.
pub fn check_status(ok: bool, status: u16, status_text: String) -> (r: Result<(), Error>)
    requires
        ok || is_failure_status(status),
    ensures
        r == checked(ok, status, status_text),
{
    if ok {
        Ok(())
    } else if status <= 499 {
        Err(Error::Client(status, status_text))
    } else {
        Err(Error::Server(status, status_text))
    }
}

/// Whether a response may be handed to [`check_status`].
pub fn can_check(ok: bool, status: u16) -> (r: bool)
    ensures
        r == (ok || is_failure_status(status)),
{
    ok || (400 <= status && status <= 599)
}

} // verus!
