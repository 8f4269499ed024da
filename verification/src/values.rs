//! The values that the operations of a room read and hand out.
use vstd::prelude::*;

verus! {

/// The largest integer below which every integer has an exact `f64`.
pub const MAX_SAFE_UINT: u64 = 0x001F_FFFF_FFFF_FFFF;

/// An unsigned integer that a JSON number holds exactly.
#[derive(Clone, Copy, Debug, PartialEq, Eq)]
pub struct UInt {
    value: u64,
}

impl UInt {
    #[verifier::type_invariant]
    spec fn in_range(self) -> bool {
        self.value <= MAX_SAFE_UINT
    }

    /// The integer itself.
    pub closed spec fn spec_value(self) -> u64 {
        self.value
    }

    /// The integer `value`, unless it is larger than [`MAX_SAFE_UINT`].
    pub fn new(value: u64) -> (res: Option<UInt>)
        ensures
            res is Some <==> value <= MAX_SAFE_UINT,
            res matches Some(uint) ==> uint.spec_value() == value,
    {
        if value <= MAX_SAFE_UINT {
            Some(UInt { value })
        } else {
            None
        }
    }

    /// The integer `value`. Every `u32` is in range.
    pub fn from_u32(value: u32) -> (res: UInt)
        ensures
            res.spec_value() == value,
    {
        UInt { value: value as u64 }
    }

    /// The integer itself.
    pub fn get(self) -> (value: u64)
        ensures
            value == self.spec_value(),
            value <= MAX_SAFE_UINT,
    {
        proof {
            use_type_invariant(self);
        }
        self.value
    }
}

/// How far an operation has come.
#[derive(Debug)]
pub enum Step<A, T> {
    /// This has to be done before the operation can go on.
    Perform(A),
    /// The operation is over, with this result.
    Done(T),
}

/// How the user of the client stands to a room.
#[derive(Clone, Copy, Debug, PartialEq, Eq, Structural)]
pub enum RoomType {
    /// The user has joined the room.
    Joined,
    /// The user has left the room.
    Left,
    /// The user is invited to the room.
    Invited,
}

/// Who can see the history of a room.
#[derive(Debug)]
pub enum HistoryVisibility {
    /// Members, from the point they were invited onwards.
    Invited,
    /// Members, from the point they joined onwards.
    Joined,
    /// Members, all of it.
    Shared,
    /// Anyone, all of it.
    WorldReadable,
    /// A rule that this library does not know.
    Custom(String),
}

impl Clone for HistoryVisibility {
    fn clone(&self) -> (res: Self)
        ensures
            res == *self,
    {
        match self {
            HistoryVisibility::Invited => HistoryVisibility::Invited,
            HistoryVisibility::Joined => HistoryVisibility::Joined,
            HistoryVisibility::Shared => HistoryVisibility::Shared,
            HistoryVisibility::WorldReadable => HistoryVisibility::WorldReadable,
            HistoryVisibility::Custom(rule) => HistoryVisibility::Custom(rule.clone()),
        }
    }
}

/// What the client knows of a room when an operation starts.
#[derive(Debug)]
pub struct BaseRoom {
    /// The ID of the room.
    pub room_id: String,
    /// How the user stands to the room.
    pub room_type: RoomType,
    /// Who can see the history of the room.
    pub history_visibility: HistoryVisibility,
    /// The `mxc://` URI of the avatar of the room, if one is set.
    pub avatar_url: Option<String>,
    /// Whether the full list of members has been fetched.
    pub members_synced: bool,
}

impl Clone for BaseRoom {
    fn clone(&self) -> (res: Self)
        ensures
            res == *self,
    {
        let avatar_url = match &self.avatar_url {
            Some(avatar_url) => Some(avatar_url.clone()),
            None => None,
        };
        BaseRoom {
            room_id: self.room_id.clone(),
            room_type: self.room_type,
            history_visibility: self.history_visibility.clone(),
            avatar_url,
            members_synced: self.members_synced,
        }
    }
}

/// What is known of the client when an operation starts.
#[derive(Debug)]
pub struct Client {
    /// The ID of the user, if the client is logged in.
    pub user_id: Option<String>,
    /// Whether the client can decrypt events.
    pub encryption: bool,
}

impl Clone for Client {
    fn clone(&self) -> (res: Self)
        ensures
            res == *self,
    {
        let user_id = match &self.user_id {
            Some(user_id) => Some(user_id.clone()),
            None => None,
        };
        Client { user_id, encryption: self.encryption }
    }
}

/// The JSON text of an event, as the server sent it.
#[derive(Debug)]
pub struct Raw {
    /// The JSON text.
    pub json: String,
}

impl Clone for Raw {
    fn clone(&self) -> (res: Self)
        ensures
            res == *self,
    {
        Raw { json: self.json.clone() }
    }
}

/// An event of a room, possibly decrypted.
///
/// `I` is what decryption tells of the sender and the keys.
#[derive(Debug)]
pub struct RoomEvent<I> {
    /// The event.
    pub event: Raw,
    /// What is known of how the event was encrypted. `None` if it was not
    /// encrypted, or was not decrypted.
    pub encryption_info: Option<I>,
}

impl<I> RoomEvent<I> {
    /// The event `event` as it came in.
    pub open spec fn undecrypted(event: Raw) -> RoomEvent<I> {
        RoomEvent { event, encryption_info: None }
    }

    /// What becomes of `event` once its decryption was tried: the decrypted
    /// event, or the event as it came in where decryption failed.
    pub open spec fn settled(event: Raw, decrypted: Option<RoomEvent<I>>) -> RoomEvent<I> {
        match decrypted {
            Some(decrypted) => decrypted,
            None => RoomEvent::undecrypted(event),
        }
    }
}

/// A member of a room, with the client to act through.
#[derive(Debug)]
pub struct RoomMember<M> {
    /// The client that knows the member.
    pub client: Client,
    /// What is stored of the member.
    pub inner: M,
}

impl<M> RoomMember<M> {
    /// The member `inner` of a room that `client` knows.
    pub fn new(client: Client, inner: M) -> (res: Self)
        ensures
            res == (RoomMember { client, inner }),
    {
        RoomMember { client, inner }
    }
}

/// A device of a user.
#[derive(Debug)]
pub struct Device {
    /// The ID of the device.
    pub device_id: String,
    /// Whether the device is verified.
    pub verified: bool,
}

} // verus!
