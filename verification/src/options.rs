//! What a caller can ask of a page of events.
use vstd::prelude::*;
use crate::request::{Direction, GetMessageEventsRequest};
use crate::values::UInt;

verus! {

/// Options for [`messages`](crate::common::Common::messages).
///
/// See that method for details.
#[derive(Debug)]
#[non_exhaustive]
pub struct MessagesOptions<'a> {
    /// The token to start returning events from.
    ///
    /// This token can be obtained from a `prev_batch` token returned for each
    /// room from the sync API, or from a start or end token returned by a
    /// previous `messages` call.
    pub from: &'a str,
    /// The token to stop returning events at.
    ///
    /// This token can be obtained from a `prev_batch` token returned for each
    /// room by the sync API, or from a start or end token returned by a
    /// previous `messages` call.
    pub to: Option<&'a str>,
    /// The direction to return events in.
    pub dir: Direction,
    /// The maximum number of events to return.
    ///
    /// Default: 10.
    pub limit: UInt,
    /// A filter on the events that are returned.
    pub filter: Option<ruma::api::client::r0::filter::RoomEventFilter<'a>>,
}

impl<'a> MessagesOptions<'a> {
    /// Whether everything but the start token and the direction is at its
    /// default.
    pub open spec fn is_default(self) -> bool {
        &&& self.to is None
        &&& self.limit.spec_value() == 10
        &&& self.filter is None
    }

    /// Creates `MessagesOptions` with the given start token and direction.
    ///
    /// All other parameters will be defaulted.
    pub fn new(from: &'a str, dir: Direction) -> (res: Self)
        ensures
            res.from == from,
            res.dir == dir,
            res.to is None,
            res.limit.spec_value() == 10,
            res.filter is None,
            res.is_default(),
    {
        MessagesOptions { from, to: None, dir, limit: UInt::from_u32(10), filter: None }
    }

    /// Creates `MessagesOptions` with the given start token, and `dir` set to
    /// `Backward`.
    pub fn backward(from: &'a str) -> (res: Self)
        ensures
            res.from == from,
            res.dir == Direction::Backward,
            res.to is None,
            res.limit.spec_value() == 10,
            res.filter is None,
            res.is_default(),
    {
        Self::new(from, Direction::Backward)
    }

    /// Creates `MessagesOptions` with the given start token, and `dir` set to
    /// `Forward`.
    pub fn forward(from: &'a str) -> (res: Self)
        ensures
            res.from == from,
            res.dir == Direction::Forward,
            res.to is None,
            res.limit.spec_value() == 10,
            res.filter is None,
            res.is_default(),
    {
        Self::new(from, Direction::Forward)
    }

    /// The request for such a page of the room `room_id`.
    pub open spec fn spec_request(self, room_id: &'a str) -> GetMessageEventsRequest<'a> {
        GetMessageEventsRequest {
            room_id,
            from: self.from,
            to: self.to,
            dir: self.dir,
            limit: self.limit,
            filter: self.filter,
        }
    }

    /// The request for such a page of the room `room_id`.
    pub fn into_request(self, room_id: &'a str) -> (res: GetMessageEventsRequest<'a>)
        ensures
            res.room_id == room_id,
            res.from == self.from,
            res.to == self.to,
            res.dir == self.dir,
            res.limit == self.limit,
            res.filter == self.filter,
            res == self.spec_request(room_id),
    {
        GetMessageEventsRequest {
            room_id,
            from: self.from,
            to: self.to,
            dir: self.dir,
            limit: self.limit,
            filter: self.filter,
        }
    }
}

} // verus!
