//! Status mapper: turns the numeric completion code of a boundary call into
//! a typed outcome.
//!
//! Code `0` means success and code `1` means the host could not service the
//! request (`FailGetRandomSource`). Every other code is a protocol violation:
//! the host and the contract no longer agree on the wire contract, and no
//! typed error may stand for that.

use vstd::prelude::*;

verus! {

/// The one typed, caller-recoverable failure a boundary call can report.
#[derive(Debug, Copy, Clone, PartialEq, Eq, Structural)]
pub enum CouchErr {
    /// The host could not reach the resource that services the request.
    FailGetRandomSource,
}

impl CouchErr {
    /// Total classification of a status code: `None` exactly on the codes
    /// that the wire contract does not know, which the caller must treat as
    /// a fatal protocol violation, never as a typed error.
    pub fn try_from_status_code(status_code: u32) -> (r: Option<Result<(), CouchErr>>)
        ensures
            r == (if status_code == 0 {
                Some(Ok::<(), CouchErr>(()))
            } else if status_code == 1 {
                Some(Err::<(), CouchErr>(CouchErr::FailGetRandomSource))
            } else {
                None::<Result<(), CouchErr>>
            }),
    {
        match status_code {
            0u32 => Some(Ok(())),
            1u32 => Some(Err(CouchErr::FailGetRandomSource)),
            _ => None,
        }
    }

    /// Status mapping as the boundary machinery applies it. A code outside
    /// the known set aborts the process in the deployed system, so it is
    /// excluded here rather than given a result.
    pub fn from_status_code(status_code: u32) -> (r: Result<(), CouchErr>)
        requires
            status_code == 0 || status_code == 1,
        ensures
            status_code == 0 ==> r == Ok::<(), CouchErr>(()),
            status_code == 1 ==> r == Err::<(), CouchErr>(CouchErr::FailGetRandomSource),
    {
        match CouchErr::try_from_status_code(status_code) {
            Some(r) => r,
            None => Err(CouchErr::FailGetRandomSource),
        }
    }
}

} // verus!
