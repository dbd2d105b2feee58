//! The server side: a read-only method registry, the dispatch decision
//! over an inbound `methodCall` document, and the serve-loop step that
//! makes cancellation a distinct outcome.
//!
//! Handlers themselves run outside this crate: dispatch hands back the
//! decoded parameter list for the matched method, and the caller turns
//! the handler's value or fault into a response document through
//! [`crate::encode::response_to_xml`] and [`crate::encode::fault_to_xml`].

use vstd::prelude::*;

use crate::error::DxrError;
use crate::error::Fault;
use crate::rpc::p_request;
use crate::text::str_eq;
use crate::values::Value;
use crate::values::vals_v;

verus! {

/// The reserved fault code for an unknown method name.
pub const METHOD_NOT_FOUND: i32 = -32601;

/// The reserved fault code for a request that is no well-formed
/// `methodCall` document.
pub const INVALID_REQUEST: i32 = -32600;

/// The reserved fault code for arguments a handler cannot accept.
pub const INVALID_PARAMS: i32 = -32602;

/// What the dispatch decision found in an inbound request.
pub enum Dispatch {
    /// The named method is registered under this index: the handler
    /// should run with these parameters.
    Found { index: usize, params: Vec<Value> },
    /// No handler carries the requested name.
    NotFound { fault: Fault },
    /// The request was no well-formed `methodCall` document.
    Malformed { fault: Fault },
}

/// Decides what to do with an inbound request against a registry of
/// method names: run a handler, or answer with a reserved fault.
#[verifier::loop_isolation(false)]
pub fn dispatch_request(methods: &Vec<String>, request: &str) -> (r: Dispatch)
    ensures
        match p_request(request@) {
            Some((name, ps)) => match r {
                Dispatch::Found { index, params } => index < methods@.len()
                    && methods@[index as int]@ == name && vals_v(params@) == ps,
                Dispatch::NotFound { fault } => fault.code == METHOD_NOT_FOUND && (forall|i: int|
                    0 <= i < methods@.len() ==> (#[trigger] methods@[i])@ != name),
                Dispatch::Malformed { .. } => false,
            },
            None => r matches Dispatch::Malformed { fault } && fault.code == INVALID_REQUEST,
        },
{
    match crate::rpc::parse_request(request) {
        Ok((name, params)) => {
            let mut i: usize = 0;
            while i < methods.len()
                invariant
                    i <= methods@.len(),
                    forall|k: int| 0 <= k < i ==> (#[trigger] methods@[k])@ != name@,
                decreases methods@.len() - i,
            {
                if str_eq(methods[i].as_str(), name.as_str()) {
                    return Dispatch::Found { index: i, params };
                }
                i += 1;
            }
            Dispatch::NotFound {
                fault: Fault {
                    code: METHOD_NOT_FOUND,
                    message: String::from_str("requested method not found"),
                },
            }
        },
        Err(_) => Dispatch::Malformed {
            fault: Fault {
                code: INVALID_REQUEST,
                message: String::from_str("malformed methodCall document"),
            },
        },
    }
}

/// Maps a conversion error a handler hit into a well-formed fault, so
/// that no internal error ever crosses the protocol boundary raw.
pub fn fault_from_error(e: &DxrError) -> (r: Fault)
    ensures
        r.code == (if e is InvalidData {
            INVALID_REQUEST
        } else {
            INVALID_PARAMS
        }),
{
    match e {
        DxrError::InvalidData { .. } => Fault {
            code: INVALID_REQUEST,
            message: String::from_str("invalid request data"),
        },
        DxrError::MissingField { .. } => Fault {
            code: INVALID_PARAMS,
            message: String::from_str("missing struct field"),
        },
        DxrError::ParameterMismatch { .. } => Fault {
            code: INVALID_PARAMS,
            message: String::from_str("wrong number of arguments"),
        },
        DxrError::WrongType { .. } => Fault {
            code: INVALID_PARAMS,
            message: String::from_str("wrong argument type"),
        },
    }
}

/// How a serve loop ends: shutdown is its own outcome, never a generic
/// failure.
#[derive(Debug, PartialEq, Eq, Structural)]
pub enum ServeOutcome {
    /// The loop was told to stop; no further request is accepted.
    Cancelled,
    /// The transport closed the stream of requests.
    Closed,
}

impl ServeOutcome {
    /// True exactly of the shutdown outcome.
    pub fn is_cancelled(&self) -> (r: bool)
        ensures
            r == (self is Cancelled),
    {
        match self {
            ServeOutcome::Cancelled => true,
            ServeOutcome::Closed => false,
        }
    }
}

/// One event the serve loop can see.
pub enum ServeEvent {
    /// An inbound request document.
    Request(String),
    /// The shutdown signal.
    Shutdown,
}

/// What the serve loop does next for one event: answer and continue, or
/// stop with a distinct outcome. Shutdown always maps to `Cancelled`.
pub fn serve_step(methods: &Vec<String>, event: ServeEvent) -> (r: Result<Dispatch, ServeOutcome>)
    ensures
        event is Shutdown <==> r == Err::<Dispatch, ServeOutcome>(ServeOutcome::Cancelled),
        event matches ServeEvent::Request(q) ==> (r matches Ok(d) && (match p_request(q@) {
            Some((name, ps)) => match d {
                Dispatch::Found { index, params } => index < methods@.len()
                    && methods@[index as int]@ == name && vals_v(params@) == ps,
                Dispatch::NotFound { fault } => fault.code == METHOD_NOT_FOUND && (forall|i: int|
                    0 <= i < methods@.len() ==> (#[trigger] methods@[i])@ != name),
                Dispatch::Malformed { .. } => false,
            },
            None => d matches Dispatch::Malformed { fault } && fault.code == INVALID_REQUEST,
        })),
{
    match event {
        ServeEvent::Shutdown => Err(ServeOutcome::Cancelled),
        ServeEvent::Request(q) => Ok(dispatch_request(methods, q.as_str())),
    }
}

} // verus!
