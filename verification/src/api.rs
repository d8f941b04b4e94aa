//! The call surface: the six operations as typed requests and responses,
//! and the error taxonomy. A missing key or channel is never an error — it
//! comes back as an explicit absence or a zero count. `Filtered` is a policy
//! rejection by middleware; `HandlerFault` is an unexpected failure inside a
//! handler, caught at the handler boundary. The transport that turns bytes
//! into these values lives outside the library.

use vstd::prelude::*;

use crate::registry::{hviews, RegV, SubHandle};

verus! {

/// One inbound call.
pub enum Request {
    /// Echo the payload, or answer with the fixed reply if there is none.
    Ping(Option<String>),
    /// Insert or overwrite one key (the set operation); always succeeds.
    Put(String, String),
    /// Read one key.
    Get(String),
    /// Remove each listed key if present.
    Del(Vec<String>),
    /// Deliver a message on one channel.
    Publish(String, String),
    /// Attach to each listed channel, to then wait for the first message.
    Subscribe(Vec<String>),
}

/// One successful answer.
pub enum Response {
    /// The ping echo.
    Pong(String),
    /// The set acknowledgement.
    SetOk(String),
    /// The value read, or an explicit absence.
    Value(Option<String>),
    /// How many keys were actually removed.
    Deleted(usize),
    /// How many subscribers the publish delivered to.
    Published(usize),
    /// The attachments a subscribe call races over.
    Subscribed(Vec<SubHandle>),
}

/// Why a call failed.
pub enum ServiceError {
    /// Rejected by middleware policy before reaching its handler.
    Filtered(String),
    /// An unexpected failure inside a handler, converted to a value at the
    /// handler boundary rather than tearing the serving task down.
    HandlerFault(String),
}

/// The view of a response.
pub enum RespV {
    Pong(Seq<char>),
    SetOk(Seq<char>),
    Value(Option<Seq<char>>),
    Deleted(nat),
    Published(nat),
    Subscribed(Seq<(Seq<char>, nat)>),
}

/// The view of an error.
pub enum ErrV {
    Filtered(Seq<char>),
    HandlerFault(Seq<char>),
}

/// The whole observable state of the service: the store's map and the
/// registry's map.
pub struct SvcView {
    pub kv: Map<Seq<char>, Seq<char>>,
    pub channels: RegV,
}

pub open spec fn resp_view(r: Response) -> RespV {
    match r {
        Response::Pong(s) => RespV::Pong(s@),
        Response::SetOk(s) => RespV::SetOk(s@),
        Response::Value(v) => RespV::Value(
            match v {
                Some(s) => Some(s@),
                None => None,
            },
        ),
        Response::Deleted(n) => RespV::Deleted(n as nat),
        Response::Published(n) => RespV::Published(n as nat),
        Response::Subscribed(hs) => RespV::Subscribed(hviews(hs@)),
    }
}

pub open spec fn err_view(e: ServiceError) -> ErrV {
    match e {
        ServiceError::Filtered(m) => ErrV::Filtered(m@),
        ServiceError::HandlerFault(m) => ErrV::HandlerFault(m@),
    }
}

/// The diagnostic message an error carries.
pub open spec fn err_msg(e: ErrV) -> Seq<char> {
    match e {
        ErrV::Filtered(m) => m,
        ErrV::HandlerFault(m) => m,
    }
}

/// The view of a call's outcome.
pub open spec fn res_view(r: Result<Response, ServiceError>) -> Result<RespV, ErrV> {
    match r {
        Ok(v) => Ok(resp_view(v)),
        Err(e) => Err(err_view(e)),
    }
}

impl ServiceError {
    /// The diagnostic message, surrendered.
    pub fn message(self) -> (m: String)
        ensures
            m@ == err_msg(err_view(self)),
    {
        match self {
            ServiceError::Filtered(m) => m,
            ServiceError::HandlerFault(m) => m,
        }
    }

    /// Whether this is a policy rejection.
    pub fn is_filtered(&self) -> (b: bool)
        ensures
            b == (err_view(*self) is Filtered),
    {
        match self {
            ServiceError::Filtered(_) => true,
            ServiceError::HandlerFault(_) => false,
        }
    }
}

} // verus!
