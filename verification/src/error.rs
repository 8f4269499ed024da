//! What can go wrong in an operation of a room.
use vstd::prelude::*;

verus! {

/// The error of [`serde_json`], carried through as it is.
#[verifier::external_type_specification]
#[verifier::external_body]
pub struct ExJsonError(serde_json::Error);

/// Why a request to the homeserver has no response.
///
/// `F` is what the transport reports of a failure.
#[derive(Debug)]
pub enum HttpError<F> {
    /// The client is not logged in, and the request needs a user.
    AuthenticationRequired,
    /// The request was not sent, or not answered as it should have been.
    Request(F),
}

/// Why an operation of a room failed.
///
/// `F` is what the client and its stores report of a failure.
#[derive(Debug)]
pub enum RoomError<F> {
    /// A request to the homeserver failed.
    Http(HttpError<F>),
    /// A JSON text is not an event, or an event has no JSON text.
    SerdeJson(serde_json::Error),
    /// An identifier that is read from the JSON text of an event is too long for that.
    OversizedIdentifier,
    /// The state store failed.
    StateStore(F),
    /// The store that holds the devices of users failed.
    CryptoStore(F),
    /// A response could not be taken into the state of the client.
    Base(F),
}

impl<F> From<HttpError<F>> for RoomError<F> {
    fn from(error: HttpError<F>) -> (res: Self) {
        RoomError::Http(error)
    }
}

impl<F> vstd::std_specs::convert::FromSpecImpl<HttpError<F>> for RoomError<F> {
    open spec fn obeys_from_spec() -> bool {
        true
    }

    open spec fn from_spec(error: HttpError<F>) -> Self {
        RoomError::Http(error)
    }
}

} // verus!
