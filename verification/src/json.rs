//! Events as JSON text, by way of `ruma` and `serde_json`.
use vstd::prelude::*;

verus! {

/// Whether the JSON text `json` is an event of a room: what
/// `ruma::serde::Raw::<AnyRoomEvent>::deserialize` decides of it.
pub uninterp spec fn room_event_deserializes(json: Seq<char>) -> bool;

/// The JSON text that `serde_json::value::to_raw_value` writes for the event
/// that the text `json` deserializes to, if it can write one.
pub uninterp spec fn room_event_json(json: Seq<char>) -> Option<Seq<char>>;

/// Whether the JSON text `json` is an event of a room, and none of the identifiers
/// that are read from it is too long for that.
pub open spec fn is_room_event(json: Seq<char>) -> bool {
    crate::identifiers::identifiers_fit(json) && room_event_deserializes(json)
}

/// Deserializes the text `json` with
/// `ruma::serde::Raw::<AnyRoomEvent>::deserialize`, which panics on an identifier
/// that is too long where it reads one.
///
/// Claimed of it: whether it succeeds depends on the text alone. What the error
/// says is left open.
#[verifier::external_body]
pub(crate) fn deserialize_room_event(json: &str) -> (res: Result<(), serde_json::Error>)
    requires
        crate::identifiers::identifiers_fit(json@),
    ensures
        res is Ok <==> room_event_deserializes(json@),
{
    let raw: ruma::serde::Raw<ruma::events::AnyRoomEvent> = serde_json::from_str(json)?;
    raw.deserialize()?;
    Ok(())
}

/// Serializes the event that the text `json` deserializes to, with
/// `serde_json::value::to_raw_value`.
///
/// Claimed of it: whether it succeeds, and the text that it writes, depend on
/// the text `json` alone. What the error says is left open.
#[verifier::external_body]
pub(crate) fn serialize_room_event(json: &str) -> (res: Result<String, serde_json::Error>)
    requires
        is_room_event(json@),
    ensures
        res is Ok <==> room_event_json(json@) is Some,
        res matches Ok(text) ==> room_event_json(json@) == Some(text@),
{
    let event: ruma::events::AnyRoomEvent = serde_json::from_str(json)?;
    let raw = serde_json::value::to_raw_value(&event)?;
    Ok(raw.get().to_owned())
}

} // verus!
