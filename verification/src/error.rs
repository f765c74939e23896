//! Error taxonomy: structured evaluation and network errors for the core
//! algorithms, and the string-carrying top-level error handed to callers.

use vstd::prelude::*;

verus! {

/// Why one evaluation tick was aborted. A failed tick commits nothing.
#[derive(Clone, Copy, Debug, PartialEq, Eq, Structural)]
pub enum EvaluationError {
    /// A driver asked for a named global property that was not supplied.
    MissingProperty,
    /// A value did not have the kind or the exact bounds a consumer demanded,
    /// or a sink write fell outside the configured universes or channels.
    TypeMismatch,
    /// The connection dependencies admit no topological order.
    Cycle,
}

/// Why a frame could not be sent or decoded.
#[derive(Clone, Copy, Debug, PartialEq, Eq, Structural)]
pub enum NetworkError {
    /// The connection was never bound; call for establishment first.
    NotEstablished,
    /// Binding the local socket failed.
    BindFailure,
    /// Fewer bytes left the socket than the frame holds; not retried.
    PartialSend,
    /// The transport reported an error.
    IoFailure,
    /// Inbound bytes are not a well-formed frame.
    DecodeFailure,
}

/// Top-level error of the engine, one variant per subsystem.
#[derive(Debug, Clone)]
pub enum DmGuiError {
    DMX(String),
    Evaluation(String),
    Networking(String),
}

impl DmGuiError {
    /// Wraps a message as a DMX state error.
    pub fn dmx(s: String) -> (r: Self)
        ensures
            r == DmGuiError::DMX(s),
    {
        Self::DMX(s)
    }

    /// Wraps a message as an evaluation error.
    pub fn evaluation(s: String) -> (r: Self)
        ensures
            r == DmGuiError::Evaluation(s),
    {
        Self::Evaluation(s)
    }

    /// Wraps a message as a networking error.
    pub fn networking(s: String) -> (r: Self)
        ensures
            r == DmGuiError::Networking(s),
    {
        Self::Networking(s)
    }

    /// The wrapped message.
    pub fn message(&self) -> (r: &String)
        ensures
            (r@ == match self {
                DmGuiError::DMX(s) => s@,
                DmGuiError::Evaluation(s) => s@,
                DmGuiError::Networking(s) => s@,
            }),
    {
        match self {
            Self::DMX(s) => s,
            Self::Evaluation(s) => s,
            Self::Networking(s) => s,
        }
    }
}

/// The message text used when lifting an evaluation error to a `DmGuiError`.
pub open spec fn evaluation_error_text(e: EvaluationError) -> Seq<char> {
    match e {
        EvaluationError::MissingProperty => "required property is missing"@,
        EvaluationError::TypeMismatch => "value kind or bounds do not match"@,
        EvaluationError::Cycle => "graph connections form a cycle"@,
    }
}

/// Lifts a structured evaluation error into the top-level error.
pub fn evaluation_to_gui(e: EvaluationError) -> (r: DmGuiError)
    ensures
        r is Evaluation,
        r->Evaluation_0@ == evaluation_error_text(e),
{
    match e {
        EvaluationError::MissingProperty => DmGuiError::Evaluation(
            "required property is missing".to_owned(),
        ),
        EvaluationError::TypeMismatch => DmGuiError::Evaluation(
            "value kind or bounds do not match".to_owned(),
        ),
        EvaluationError::Cycle => DmGuiError::Evaluation("graph connections form a cycle".to_owned()),
    }
}

/// The message text used when lifting a network error to a `DmGuiError`.
pub open spec fn network_error_text(e: NetworkError) -> Seq<char> {
    match e {
        NetworkError::NotEstablished => "connection is not established"@,
        NetworkError::BindFailure => "binding the socket failed"@,
        NetworkError::PartialSend => "datagram was sent only in part"@,
        NetworkError::IoFailure => "transport reported an error"@,
        NetworkError::DecodeFailure => "bytes are not a well-formed frame"@,
    }
}

/// Lifts a structured network error into the top-level error.
pub fn network_to_gui(e: NetworkError) -> (r: DmGuiError)
    ensures
        r is Networking,
        r->Networking_0@ == network_error_text(e),
{
    match e {
        NetworkError::NotEstablished => DmGuiError::Networking(
            "connection is not established".to_owned(),
        ),
        NetworkError::BindFailure => DmGuiError::Networking("binding the socket failed".to_owned()),
        NetworkError::PartialSend => DmGuiError::Networking(
            "datagram was sent only in part".to_owned(),
        ),
        NetworkError::IoFailure => DmGuiError::Networking("transport reported an error".to_owned()),
        NetworkError::DecodeFailure => DmGuiError::Networking(
            "bytes are not a well-formed frame".to_owned(),
        ),
    }
}

} // verus!
