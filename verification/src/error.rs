//! The ways in which a call can fail.

use vstd::prelude::*;

verus! {

/// Why a call failed. Every failure ends the call; nothing is tried again.
#[derive(Debug)]
pub enum ClientError {
    /// A file source whose path has no final segment to name the upload by.
    InvalidPath,
    /// A minimum confidence that is no number between zero and one.
    InvalidArgument,
    /// The file could not be read.
    IoError { reason: String },
    /// The request did not reach the service, or its response did not arrive.
    TransportError { reason: String },
    /// The service answered with a status other than success.
    ServiceRejected { status: u16, body: String },
    /// The body of a successful response does not have the expected shape.
    DecodeError,
}

/// A `ClientError` as contracts see it.
pub enum Failure {
    InvalidPath,
    InvalidArgument,
    Io { reason: Seq<char> },
    Transport { reason: Seq<char> },
    Rejected { status: u16, body: Seq<char> },
    Decode,
}

impl View for ClientError {
    type V = Failure;

    open spec fn view(&self) -> Failure {
        match self {
            ClientError::InvalidPath => Failure::InvalidPath,
            ClientError::InvalidArgument => Failure::InvalidArgument,
            ClientError::IoError { reason } => Failure::Io { reason: reason@ },
            ClientError::TransportError { reason } => Failure::Transport { reason: reason@ },
            ClientError::ServiceRejected { status, body } => Failure::Rejected {
                status: *status,
                body: body@,
            },
            ClientError::DecodeError => Failure::Decode,
        }
    }
}

/// Who is answerable for a failure.
#[derive(Clone, Copy, Debug, PartialEq, Eq, Structural)]
pub enum Blame {
    /// The caller, who gave a path or an argument that cannot be used.
    Caller,
    /// The surroundings: the file system or the network.
    Environment,
    /// The service, which rejected the request or answered in a shape
    /// that was not agreed.
    Service,
}

impl Failure {
    pub open spec fn blame(self) -> Blame {
        match self {
            Failure::InvalidPath => Blame::Caller,
            Failure::InvalidArgument => Blame::Caller,
            Failure::Io { .. } => Blame::Environment,
            Failure::Transport { .. } => Blame::Environment,
            Failure::Rejected { .. } => Blame::Service,
            Failure::Decode => Blame::Service,
        }
    }
}

impl ClientError {
    /// Who is answerable for the failure.
    pub fn blame(&self) -> (r: Blame)
        ensures
            r == self@.blame(),
    {
        match self {
            ClientError::InvalidPath => Blame::Caller,
            ClientError::InvalidArgument => Blame::Caller,
            ClientError::IoError { .. } => Blame::Environment,
            ClientError::TransportError { .. } => Blame::Environment,
            ClientError::ServiceRejected { .. } => Blame::Service,
            ClientError::DecodeError => Blame::Service,
        }
    }
}

} // verus!
