use vstd::prelude::*;

verus! {

/// Why the transport could not hand back a body.
#[derive(Clone, Copy, Debug, PartialEq, Eq, Structural)]
pub enum TransportError {
    /// The network call itself failed.
    Network,
    /// The host answered with a status outside the success range.
    Status(u16),
    /// The credentials have lapsed; the same call may succeed after signing in again.
    NeedsReauthentication,
}

/// Why a body could not be turned into a typed value.
#[derive(Clone, Copy, Debug, PartialEq, Eq, Structural)]
pub enum DecodeError {
    /// The body is not JSON.
    Malformed,
    /// The body is JSON but lacks a field that the shape requires.
    MissingField,
}

/// Why a decoded payload cannot be arranged into a comment tree.
#[derive(Clone, Copy, Debug, PartialEq, Eq, Structural)]
pub enum StructuralError {
    /// An item names a parent that the payload does not supply in time.
    UnresolvedParent,
    /// The envelope's kind is not one of the known kinds.
    UnknownKind,
}

/// Every failure that the library reports.
#[derive(Clone, Copy, Debug, PartialEq, Eq, Structural)]
pub enum APIError {
    Transport(TransportError),
    Decode(DecodeError),
    Structure(StructuralError),
}

impl APIError {
    /// True for the one failure after which the same call may be sent again
    /// unchanged: the transport says that it has to sign in anew.
    pub fn is_retryable(&self) -> (r: bool)
        ensures
            r == (*self == APIError::Transport(TransportError::NeedsReauthentication)),
    {
        match self {
            APIError::Transport(TransportError::NeedsReauthentication) => true,
            _ => false,
        }
    }
}

} // verus!
