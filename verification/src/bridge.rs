//! The host boundary and the extension dispatcher.
//!
//! `CouchBridge` is the boundary itself: the host implements it, taking a
//! numeric operation id, an opaque argument buffer and an output buffer,
//! and answering with a status code. The dispatcher picks the id for a
//! logical operation, makes the one call, and turns the status code into a
//! typed outcome. Nothing is promised of what the host writes: every
//! function that reads a response says what holds for each buffer the host
//! could hand back.

use crate::status::CouchErr;
use vstd::prelude::*;

verus! {

/// The host boundary. The two operations the crate issues are dispatched
/// through one call keyed by a stable numeric id; its implementation lives
/// with the host, outside this crate.
pub trait CouchBridge {
    /// Services the operation `func_id` with the argument buffer `input`,
    /// writes the response into `output`, and answers with a status code.
    fn call(&mut self, func_id: u32, input: &Vec<u8>, output: &mut Vec<u8>) -> u32;
}

/// The environment the contract is deployed against: the default host
/// environment extended with the `CouchBridge` boundary. It carries no
/// data; it names a configuration.
pub struct CustomEnvironment {}

/// The two operations of the wire contract.
#[derive(Debug, Copy, Clone, PartialEq, Eq, Structural)]
pub enum Operation {
    Find,
    Create,
}

impl Operation {
    /// The stable numeric id of each operation. These are part of the wire
    /// contract: the host dispatches on nothing else.
    pub open spec fn spec_id(self) -> u32 {
        match self {
            Operation::Find => 2,
            Operation::Create => 3,
        }
    }

    /// The id sent across the boundary.
    pub fn id(self) -> (r: u32)
        ensures
            r == self.spec_id(),
    {
        match self {
            Operation::Find => 2,
            Operation::Create => 3,
        }
    }
}

/// How a boundary call can fail.
#[derive(Debug, Copy, Clone, PartialEq, Eq, Structural)]
pub enum CallFault {
    /// The typed failure the wire contract knows: status code 1.
    Source(CouchErr),
    /// A status code outside the wire contract: a protocol violation, to be
    /// treated as fatal by the caller, never as a typed error.
    UnknownStatus(u32),
    /// The response buffer was not what the codec demands.
    MalformedResponse,
}

/// Dispatches one operation across the boundary: sends the payload under
/// the operation's id, then maps the status code. No retry is made: a
/// boundary call is not assumed safe to repeat.
pub fn invoke<B: CouchBridge>(bridge: &mut B, op: Operation, payload: &Vec<u8>) -> (r: Result<
    Vec<u8>,
    CallFault,
>)
    ensures
        r matches Err(f) ==> match f {
            CallFault::Source(e) => e == CouchErr::FailGetRandomSource,
            CallFault::UnknownStatus(c) => c != 0 && c != 1,
            CallFault::MalformedResponse => false,
        },
{
    let mut output: Vec<u8> = Vec::new();
    let code = bridge.call(op.id(), payload, &mut output);
    match CouchErr::try_from_status_code(code) {
        Some(outcome) => match outcome {
            Ok(()) => Ok(output),
            Err(e) => Err(CallFault::Source(e)),
        },
        None => Err(CallFault::UnknownStatus(code)),
    }
}

} // verus!
