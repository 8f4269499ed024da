//! What is asked of the homeserver and of the stores of the client.
use vstd::prelude::*;
use crate::values::UInt;

verus! {

/// A filter on the events of a room, carried through as it is.
#[verifier::external_type_specification]
#[verifier::external_body]
pub struct ExRoomEventFilter<'a>(ruma::api::client::r0::filter::RoomEventFilter<'a>);

/// The type of an event, carried through as it is.
#[verifier::external_type_specification]
#[verifier::external_body]
pub struct ExEventType(ruma::events::EventType);

/// Leave a room.
#[derive(Debug)]
pub struct LeaveRoomRequest<'a> {
    /// The room to leave.
    pub room_id: &'a str,
}

/// Join a room by its ID.
#[derive(Debug)]
pub struct JoinRoomRequest<'a> {
    /// The room to join.
    pub room_id: &'a str,
}

/// In which direction events are returned.
#[derive(Clone, Copy, Debug, PartialEq, Eq, Structural)]
pub enum Direction {
    /// Backwards in time from the start token.
    Backward,
    /// Forwards in time from the start token.
    Forward,
}

/// Get a page of the events of a room.
#[derive(Debug)]
pub struct GetMessageEventsRequest<'a> {
    /// The room to get events from.
    pub room_id: &'a str,
    /// The token to start returning events from.
    pub from: &'a str,
    /// The token to stop returning events at.
    pub to: Option<&'a str>,
    /// The direction to return events in.
    pub dir: Direction,
    /// The maximum number of events to return.
    pub limit: UInt,
    /// A filter on the events that are returned.
    pub filter: Option<ruma::api::client::r0::filter::RoomEventFilter<'a>>,
}

/// Get one event of a room.
#[derive(Debug)]
pub struct GetRoomEventRequest<'a> {
    /// The room that the event is in.
    pub room_id: &'a str,
    /// The ID of the event.
    pub event_id: &'a str,
}

/// Get the membership events of a room, of all members and at the present.
#[derive(Debug)]
pub struct GetMemberEventsRequest {
    /// The room to get the events of.
    pub room_id: String,
}

/// Put a tag on a room, or update it.
#[derive(Debug)]
pub struct CreateTagRequest<'a> {
    /// The user whose tag it is.
    pub user_id: &'a str,
    /// The room to tag.
    pub room_id: &'a str,
    /// The name of the tag.
    pub tag: String,
    /// What the tag carries besides its name.
    pub tag_info: ruma::events::tag::TagInfo,
}

/// Take a tag off a room.
#[derive(Debug)]
pub struct DeleteTagRequest<'a> {
    /// The user whose tag it is.
    pub user_id: &'a str,
    /// The tagged room.
    pub room_id: &'a str,
    /// The name of the tag.
    pub tag: String,
}

/// Read the state events of one type from the state store.
#[derive(Debug)]
pub struct StateEventsQuery<'a> {
    /// The room that the events are in.
    pub room_id: &'a str,
    /// The type of the events.
    pub event_type: ruma::events::EventType,
}

/// Read one state event from the state store.
#[derive(Debug)]
pub struct StateEventQuery<'a> {
    /// The room that the event is in.
    pub room_id: &'a str,
    /// The type of the event.
    pub event_type: ruma::events::EventType,
    /// The state key of the event.
    pub state_key: &'a str,
}

/// Read the IDs of all users of a room from the state store.
#[derive(Debug)]
pub struct UserIdsQuery<'a> {
    /// The room that the users are in.
    pub room_id: &'a str,
}

} // verus!
