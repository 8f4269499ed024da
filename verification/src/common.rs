//! The operations of a room.
use std::ops::Deref;
use std::sync::Arc;
use vstd::prelude::*;
use crate::error::{HttpError, RoomError};
use crate::identifiers::check_identifiers;
use crate::json::{deserialize_room_event, serialize_room_event};
use crate::locks::MembersRequestLocks;
use crate::media::{GetMediaContent, MediaFormat, MediaRequest, MediaType};
use crate::members::{
    MemberSelection, Membership, MembersCall, MembersEvent, MembersQuery, MembersRequest,
    MembersRequests,
};
use crate::messages::{Messages, MessagesCall, MessagesResponse};
use crate::options::MessagesOptions;
use crate::request::{
    CreateTagRequest, DeleteTagRequest, GetMessageEventsRequest, GetRoomEventRequest,
    JoinRoomRequest, LeaveRoomRequest, StateEventQuery, StateEventsQuery, UserIdsQuery,
};
use crate::tag::{tag_name, TagName};
use crate::values::{
    BaseRoom, Client, HistoryVisibility, Raw, RoomEvent, RoomMember, RoomType, Step,
};

verus! {

/// A struct containing methods that are common for Joined, Invited and Left
/// Rooms
#[derive(Debug)]
pub struct Common {
    inner: BaseRoom,
    pub(crate) client: Client,
}

impl Deref for Common {
    type Target = BaseRoom;

    fn deref(&self) -> (room: &BaseRoom)
        ensures
            *room == self.base(),
    {
        &self.inner
    }
}

impl Clone for Common {
    fn clone(&self) -> (res: Self)
        ensures
            res == *self,
    {
        Common { inner: self.inner.clone(), client: self.client.clone() }
    }
}

/// What has to be done with an event that was fetched.
#[derive(Debug)]
pub enum EventWork {
    /// Decrypt it.
    Decrypt(Raw),
    /// Write it anew from what was read of it.
    Serialize(Raw),
}

/// Whether the user of the client can see the events of `room`. Only someone who
/// is merely invited may not.
pub open spec fn events_visible(room: BaseRoom) -> bool {
    room.room_type is Invited ==> room.history_visibility is WorldReadable
        || room.history_visibility is Invited
}

/// Whether the members of `room` are fetched from the server before they are read
/// from the store.
pub open spec fn needs_members(room: BaseRoom) -> bool {
    events_visible(room) && !room.members_synced
}

impl Common {
    /// The underlying room.
    pub closed spec fn base(self) -> BaseRoom {
        self.inner
    }

    /// The client used to make requests.
    pub closed spec fn spec_client(self) -> Client {
        self.client
    }

    /// Create a new `room::Common`
    ///
    /// # Arguments
    /// * `client` - The client used to make requests.
    ///
    /// * `room` - The underlying room.
    pub fn new(client: Client, room: BaseRoom) -> (res: Self)
        ensures
            res.base() == room,
            res.spec_client() == client,
    {
        Common { inner: room, client }
    }

    /// Leave this room.
    ///
    /// Only invited and joined rooms can be left. Whether this is one is left to
    /// the caller, and the answer of the server goes to
    /// [`acknowledged`](Self::acknowledged).
    pub fn leave(&self) -> (res: LeaveRoomRequest<'_>)
        ensures
            res.room_id@ == self.base().room_id@,
    {
        LeaveRoomRequest { room_id: self.inner.room_id.as_str() }
    }

    /// Join this room.
    ///
    /// Only invited and left rooms can be joined via this method. Whether this is
    /// one is left to the caller, and the answer of the server goes to
    /// [`acknowledged`](Self::acknowledged).
    pub fn join(&self) -> (res: JoinRoomRequest<'_>)
        ensures
            res.room_id@ == self.base().room_id@,
    {
        JoinRoomRequest { room_id: self.inner.room_id.as_str() }
    }

    /// The result of [`leave`](Self::leave) and [`join`](Self::join), from the
    /// answer of the server.
    pub fn acknowledged<R, F>(response: Result<R, HttpError<F>>) -> (res: Result<(), RoomError<F>>)
        ensures
            match response {
                Ok(_) => res == Ok::<(), RoomError<F>>(()),
                Err(error) => res == Err::<(), RoomError<F>>(RoomError::Http(error)),
            },
    {
        match response {
            Ok(_) => Ok(()),
            Err(error) => Err(RoomError::from(error)),
        }
    }

    /// Gets the avatar of this room, if set.
    ///
    /// If a thumbnail is requested no guarantee on the size of the image is
    /// given. What the server answers goes to
    /// [`avatar_loaded`](Self::avatar_loaded).
    ///
    /// # Arguments
    ///
    /// * `format` - The desired format of the avatar.
    pub fn avatar<F>(&self, format: MediaFormat) -> (res: Step<
        GetMediaContent,
        Result<Option<Vec<u8>>, RoomError<F>>,
    >)
        ensures
            match self.base().avatar_url {
                Some(url) => res == Step::<
                    GetMediaContent,
                    Result<Option<Vec<u8>>, RoomError<F>>,
                >::Perform(
                    GetMediaContent {
                        request: MediaRequest { media_type: MediaType::Uri(url), format },
                        use_cache: true,
                    },
                ),
                None => res == Step::<
                    GetMediaContent,
                    Result<Option<Vec<u8>>, RoomError<F>>,
                >::Done(Ok(None)),
            },
    {
        match &self.inner.avatar_url {
            Some(url) => {
                let request = MediaRequest { media_type: MediaType::Uri(url.clone()), format };
                Step::Perform(GetMediaContent { request, use_cache: true })
            },
            None => Step::Done(Ok(None)),
        }
    }

    /// The result of [`avatar`](Self::avatar), from the media that were got for
    /// it.
    pub fn avatar_loaded<F>(content: Result<Vec<u8>, RoomError<F>>) -> (res: Result<
        Option<Vec<u8>>,
        RoomError<F>,
    >)
        ensures
            match content {
                Ok(content) => res == Ok::<Option<Vec<u8>>, RoomError<F>>(Some(content)),
                Err(error) => res == Err::<Option<Vec<u8>>, RoomError<F>>(error),
            },
    {
        match content {
            Ok(content) => Ok(Some(content)),
            Err(error) => Err(error),
        }
    }

    /// Sends a request to `/_matrix/client/r0/rooms/{room_id}/messages`, whose
    /// response goes to [`messages_received`](Self::messages_received).
    pub fn messages<'a>(&'a self, options: MessagesOptions<'a>) -> (res: GetMessageEventsRequest<
        'a,
    >)
        ensures
            res.room_id@ == self.base().room_id@,
            res.from == options.from,
            res.to == options.to,
            res.dir == options.dir,
            res.limit == options.limit,
            res.filter == options.filter,
            res == options.spec_request(res.room_id),
    {
        options.into_request(self.inner.room_id.as_str())
    }

    /// Which of `events` a client decrypts: with encryption, those that are events
    /// of a room and can be read.
    pub open spec fn spec_decryptable(encryption: bool, events: Seq<Raw>) -> Seq<bool> {
        Seq::new(
            events.len(),
            |i: int| encryption && crate::json::is_room_event(events[i].json@),
        )
    }

    /// Turns the page that the server sent into a `Messages` struct that contains
    /// a chunk of room and state events.
    ///
    /// With encryption, messages are decrypted if possible. If decryption fails
    /// for an individual message, that message is returned undecrypted. "Broken"
    /// messages (i.e., those that cannot be deserialized) are returned unchanged
    /// so that the caller can handle them individually. A message is one of them
    /// if an identifier that is read from it is too long for that.
    pub fn messages_received<I, F>(&self, response: Result<MessagesResponse, HttpError<F>>) -> (res:
        Result<Step<MessagesCall<I>, Messages<I>>, RoomError<F>>)
        ensures
            match response {
                Ok(response) => {
                    &&& res is Ok
                    &&& MessagesCall::reached(
                        res->Ok_0,
                        response,
                        Self::spec_decryptable(self.spec_client().encryption, response.chunk@),
                        Seq::empty(),
                    )
                },
                Err(error) => res == Err::<Step<MessagesCall<I>, Messages<I>>, RoomError<F>>(
                    RoomError::Http(error),
                ),
            },
    {
        match response {
            Ok(response) => {
                let decryptable = self.decryptable(&response.chunk);
                Ok(MessagesCall::begin(response, decryptable))
            },
            Err(error) => Err(RoomError::from(error)),
        }
    }

    fn decryptable(&self, events: &Vec<Raw>) -> (res: Vec<bool>)
        ensures
            res@ == Self::spec_decryptable(self.spec_client().encryption, events@),
    {
        let mut res: Vec<bool> = Vec::new();
        let mut i: usize = 0;
        while i < events.len()
            invariant
                i <= events@.len(),
                res@.len() == i,
                forall|j: int|
                    0 <= j < i ==> #[trigger] res@[j] == (self.spec_client().encryption
                        && crate::json::is_room_event(events@[j].json@)),
            decreases events@.len() - i,
        {
            let json = events[i].json.as_str();
            let decryptable = self.client.encryption && check_identifiers(json)
                && deserialize_room_event(json).is_ok();
            res.push(decryptable);
            i += 1;
        }
        assert(res@ =~= Self::spec_decryptable(self.spec_client().encryption, events@));
        res
    }

    /// Fetch the event with the given `EventId` in this room. The response goes to
    /// [`event_received`](Self::event_received).
    pub fn event<'a>(&'a self, event_id: &'a str) -> (res: GetRoomEventRequest<'a>)
        ensures
            res.room_id@ == self.base().room_id@,
            res.event_id == event_id,
    {
        GetRoomEventRequest { room_id: self.inner.room_id.as_str(), event_id }
    }

    /// Goes on with the event that the server sent. With encryption the event is
    /// to be decrypted, and what comes of that goes to
    /// [`event_decrypted`](Self::event_decrypted); without it the event is written
    /// anew from what was read of it. What is no event of a room is an error, and so
    /// is an event if an identifier that is read from it is too long for that.
    pub fn event_received<I, F>(&self, response: Result<Raw, HttpError<F>>) -> (res: Step<
        Raw,
        Result<RoomEvent<I>, RoomError<F>>,
    >)
        ensures
            match response {
                Err(error) => res == Step::<Raw, Result<RoomEvent<I>, RoomError<F>>>::Done(
                    Err(RoomError::Http(error)),
                ),
                Ok(event) => if !crate::identifiers::identifiers_fit(event.json@) {
                    res == Step::<Raw, Result<RoomEvent<I>, RoomError<F>>>::Done(
                        Err(RoomError::OversizedIdentifier),
                    )
                } else if !crate::json::room_event_deserializes(event.json@) {
                    res matches Step::Done(Err(RoomError::SerdeJson(_)))
                } else if self.spec_client().encryption {
                    res == Step::<Raw, Result<RoomEvent<I>, RoomError<F>>>::Perform(event)
                } else {
                    match crate::json::room_event_json(event.json@) {
                        Some(json) => {
                            &&& res is Done
                            &&& res->Done_0 is Ok
                            &&& res->Done_0->Ok_0.event.json@ == json
                            &&& res->Done_0->Ok_0.encryption_info is None
                        },
                        None => res matches Step::Done(Err(RoomError::SerdeJson(_))),
                    }
                },
            },
    {
        match response {
            Ok(event) => {
                if !check_identifiers(event.json.as_str()) {
                    return Step::Done(Err(RoomError::OversizedIdentifier));
                }
                let deserialized = deserialize_room_event(event.json.as_str());
                match self.event_deserialized(event, deserialized) {
                    Ok(EventWork::Decrypt(event)) => Step::Perform(event),
                    Ok(EventWork::Serialize(event)) => {
                        let json = serialize_room_event(event.json.as_str());
                        Step::Done(Self::event_serialized(json))
                    },
                    Err(error) => Step::Done(Err(error)),
                }
            },
            Err(error) => Step::Done(Err(RoomError::from(error))),
        }
    }

    /// What has to be done with the event that the server sent, from whether it
    /// could be deserialized.
    pub fn event_deserialized<F>(
        &self,
        event: Raw,
        deserialized: Result<(), serde_json::Error>,
    ) -> (res: Result<EventWork, RoomError<F>>)
        ensures
            match deserialized {
                Ok(()) => res == Ok::<EventWork, RoomError<F>>(
                    if self.spec_client().encryption {
                        EventWork::Decrypt(event)
                    } else {
                        EventWork::Serialize(event)
                    },
                ),
                Err(error) => res == Err::<EventWork, RoomError<F>>(RoomError::SerdeJson(error)),
            },
    {
        match deserialized {
            Ok(()) => if self.client.encryption {
                Ok(EventWork::Decrypt(event))
            } else {
                Ok(EventWork::Serialize(event))
            },
            Err(error) => Err(RoomError::SerdeJson(error)),
        }
    }

    /// The result of [`event`](Self::event) without encryption, from the JSON text
    /// of the event.
    pub fn event_serialized<I, F>(json: Result<String, serde_json::Error>) -> (res: Result<
        RoomEvent<I>,
        RoomError<F>,
    >)
        ensures
            match json {
                Ok(json) => res == Ok::<RoomEvent<I>, RoomError<F>>(
                    RoomEvent::undecrypted(Raw { json }),
                ),
                Err(error) => res == Err::<RoomEvent<I>, RoomError<F>>(RoomError::SerdeJson(error)),
            },
    {
        match json {
            Ok(json) => Ok(RoomEvent { event: Raw { json }, encryption_info: None }),
            Err(error) => Err(RoomError::SerdeJson(error)),
        }
    }

    /// The result of [`event`](Self::event) with encryption, from what decryption
    /// made of the event. Where decryption failed, the event is kept as it is.
    pub fn event_decrypted<I>(event: Raw, decrypted: Option<RoomEvent<I>>) -> (res: RoomEvent<I>)
        ensures
            res == RoomEvent::settled(event, decrypted),
            match decrypted {
                Some(decrypted) => res == decrypted,
                None => res.event == event && res.encryption_info is None,
            },
    {
        match decrypted {
            Some(decrypted) => decrypted,
            None => RoomEvent { event, encryption_info: None },
        }
    }

    /// Asks for the members of this room, with a new lock at hand. If a request
    /// for them is under way, this one waits for that one.
    pub fn request_members<L, P>(&self, locks: &mut MembersRequestLocks<L>, mutex: Arc<L>) -> (res:
        MembersRequest<L, P>)
        requires
            old(locks).wf(),
        ensures
            final(locks).wf(),
            (final(locks)@, res) == crate::members::started::<L, P>(
                old(locks)@,
                self.base().room_id,
                mutex,
            ),
    {
        MembersRequest::start(&self.inner.room_id, locks, mutex)
    }

    /// Asks for the members of this room if they can be seen and have not been
    /// fetched yet.
    pub fn ensure_members<L, P>(&self, locks: &mut MembersRequestLocks<L>, mutex: Arc<L>) -> (res:
        Option<MembersRequest<L, P>>)
        requires
            old(locks).wf(),
        ensures
            final(locks).wf(),
            match res {
                Some(request) => needs_members(self.base()) && (final(locks)@, request)
                    == crate::members::started::<L, P>(old(locks)@, self.base().room_id, mutex),
                None => !needs_members(self.base()) && *final(locks) == *old(locks),
            },
    {
        if !self.are_events_visible() {
            return None;
        }
        if !self.inner.members_synced {
            return Some(self.request_members(locks, mutex));
        }
        None
    }

    /// Whether the user of the client can see the events of this room.
    pub fn are_events_visible(&self) -> (res: bool)
        ensures
            res == events_visible(self.base()),
            res <==> !(self.base().room_type is Invited) || self.base().history_visibility
                is WorldReadable || self.base().history_visibility is Invited,
    {
        if let RoomType::Invited = self.inner.room_type {
            return match self.inner.history_visibility {
                HistoryVisibility::WorldReadable | HistoryVisibility::Invited => true,
                _ => false,
            };
        }
        true
    }

    /// Sync the member list with the server.
    ///
    /// This method will de-duplicate requests if it is called multiple times in
    /// quick succession, in that case the return value will be `None`.
    pub fn sync_members<L, P>(&self, locks: &mut MembersRequestLocks<L>, mutex: Arc<L>) -> (res:
        MembersRequest<L, P>)
        requires
            old(locks).wf(),
        ensures
            final(locks).wf(),
            (final(locks)@, res) == crate::members::started::<L, P>(
                old(locks)@,
                self.base().room_id,
                mutex,
            ),
    {
        self.request_members(locks, mutex)
    }

    /// Whether `call` is how a call for members starts that reads `query` in the
    /// end, where `before` and `after` are the locks of the requests that are
    /// under way.
    pub open spec fn starts<L, P>(
        self,
        before: Map<Seq<char>, Arc<L>>,
        mutex: Arc<L>,
        query: MembersQuery,
        after: Map<Seq<char>, Arc<L>>,
        call: MembersCall<L, P>,
    ) -> bool {
        if needs_members(self.base()) {
            let (locks, request) = crate::members::started::<L, P>(
                before,
                self.base().room_id,
                mutex,
            );
            after == locks && call == (MembersCall::Request { request, query })
        } else {
            after == before && call == (MembersCall::<L, P>::Load { query })
        }
    }

    fn members_call<L, P>(
        &self,
        query: MembersQuery,
        locks: &mut MembersRequestLocks<L>,
        mutex: Arc<L>,
    ) -> (res: MembersCall<L, P>)
        requires
            old(locks).wf(),
        ensures
            final(locks).wf(),
            self.starts(old(locks)@, mutex, query, final(locks)@, res),
    {
        match self.ensure_members(locks, mutex) {
            Some(request) => MembersCall::Request { request, query },
            None => MembersCall::Load { query },
        }
    }

    /// What is read from the state store for the members `selection`.
    pub open spec fn spec_query(self, selection: MemberSelection) -> MembersQuery {
        MembersQuery { room_id: self.base().room_id, selection }
    }

    /// Get active members for this room, includes invited, joined members.
    ///
    /// *Note*: This method will fetch the members from the homeserver if the
    /// member list isn't synchronized due to member lazy loading, unless the
    /// events of the room cannot be seen.
    ///
    /// Use [active_members_no_sync()](#method.active_members_no_sync) if you
    /// want a method that doesn't do any requests.
    pub fn active_members<L, P>(&self, locks: &mut MembersRequestLocks<L>, mutex: Arc<L>) -> (res:
        MembersCall<L, P>)
        requires
            old(locks).wf(),
        ensures
            final(locks).wf(),
            self.starts(
                old(locks)@,
                mutex,
                self.spec_query(MemberSelection::Active),
                final(locks)@,
                res,
            ),
            match res {
                MembersCall::Request { query, .. } | MembersCall::Load { query } => query.room_id
                    == self.base().room_id && query.selection is Active,
            },
    {
        let query = self.active_members_no_sync();
        self.members_call(query, locks, mutex)
    }

    /// Get active members for this room, includes invited, joined members.
    ///
    /// *Note*: This method will not fetch the members from the homeserver if
    /// the member list isn't synchronized due to member lazy loading. Thus,
    /// members could be missing from the list.
    ///
    /// Use [active_members()](#method.active_members) if you want to ensure to
    /// always get the full member list.
    pub fn active_members_no_sync(&self) -> (res: MembersQuery)
        ensures
            res.room_id == self.base().room_id,
            res.selection is Active,
            res == self.spec_query(MemberSelection::Active),
    {
        MembersQuery { room_id: self.inner.room_id.clone(), selection: MemberSelection::Active }
    }

    /// Get all the joined members of this room.
    ///
    /// *Note*: This method will fetch the members from the homeserver if the
    /// member list isn't synchronized due to member lazy loading, unless the
    /// events of the room cannot be seen.
    ///
    /// Use [joined_members_no_sync()](#method.joined_members_no_sync) if you
    /// want a method that doesn't do any requests.
    pub fn joined_members<L, P>(&self, locks: &mut MembersRequestLocks<L>, mutex: Arc<L>) -> (res:
        MembersCall<L, P>)
        requires
            old(locks).wf(),
        ensures
            final(locks).wf(),
            self.starts(
                old(locks)@,
                mutex,
                self.spec_query(MemberSelection::Joined),
                final(locks)@,
                res,
            ),
            match res {
                MembersCall::Request { query, .. } | MembersCall::Load { query } => query.room_id
                    == self.base().room_id && query.selection is Joined,
            },
    {
        let query = self.joined_members_no_sync();
        self.members_call(query, locks, mutex)
    }

    /// Get all the joined members of this room.
    ///
    /// *Note*: This method will not fetch the members from the homeserver if
    /// the member list isn't synchronized due to member lazy loading. Thus,
    /// members could be missing from the list.
    ///
    /// Use [joined_members()](#method.joined_members) if you want to ensure to
    /// always get the full member list.
    pub fn joined_members_no_sync(&self) -> (res: MembersQuery)
        ensures
            res.room_id == self.base().room_id,
            res.selection is Joined,
            res == self.spec_query(MemberSelection::Joined),
    {
        MembersQuery { room_id: self.inner.room_id.clone(), selection: MemberSelection::Joined }
    }

    /// Get a specific member of this room.
    ///
    /// *Note*: This method will fetch the members from the homeserver if the
    /// member list isn't synchronized due to member lazy loading, unless the
    /// events of the room cannot be seen.
    ///
    /// Use [get_member_no_sync()](#method.get_member_no_sync) if you want a
    /// method that doesn't do any requests.
    ///
    /// # Arguments
    ///
    /// * `user_id` - The ID of the user that should be fetched out of the
    /// store.
    pub fn get_member<L, P>(
        &self,
        user_id: String,
        locks: &mut MembersRequestLocks<L>,
        mutex: Arc<L>,
    ) -> (res: MembersCall<L, P>)
        requires
            old(locks).wf(),
        ensures
            final(locks).wf(),
            self.starts(
                old(locks)@,
                mutex,
                self.spec_query(MemberSelection::User(user_id)),
                final(locks)@,
                res,
            ),
            match res {
                MembersCall::Request { query, .. } | MembersCall::Load { query } => query.room_id
                    == self.base().room_id && query.selection == MemberSelection::User(user_id),
            },
    {
        let query = self.get_member_no_sync(user_id);
        self.members_call(query, locks, mutex)
    }

    /// Get a specific member of this room.
    ///
    /// *Note*: This method will not fetch the members from the homeserver if
    /// the member list isn't synchronized due to member lazy loading. Thus,
    /// members could be missing.
    ///
    /// Use [get_member()](#method.get_member) if you want to ensure to always
    /// have the full member list to chose from.
    ///
    /// # Arguments
    ///
    /// * `user_id` - The ID of the user that should be fetched out of the
    /// store.
    pub fn get_member_no_sync(&self, user_id: String) -> (res: MembersQuery)
        ensures
            res.room_id == self.base().room_id,
            res.selection == MemberSelection::User(user_id),
            res == self.spec_query(MemberSelection::User(user_id)),
    {
        MembersQuery {
            room_id: self.inner.room_id.clone(),
            selection: MemberSelection::User(user_id),
        }
    }

    /// Get all members for this room, includes invited, joined and left
    /// members.
    ///
    /// *Note*: This method will fetch the members from the homeserver if the
    /// member list isn't synchronized due to member lazy loading, unless the
    /// events of the room cannot be seen.
    ///
    /// Use [members_no_sync()](#method.members_no_sync) if you want a
    /// method that doesn't do any requests.
    pub fn members<L, P>(&self, locks: &mut MembersRequestLocks<L>, mutex: Arc<L>) -> (res:
        MembersCall<L, P>)
        requires
            old(locks).wf(),
        ensures
            final(locks).wf(),
            self.starts(
                old(locks)@,
                mutex,
                self.spec_query(MemberSelection::All),
                final(locks)@,
                res,
            ),
            match res {
                MembersCall::Request { query, .. } | MembersCall::Load { query } => query.room_id
                    == self.base().room_id && query.selection is All,
            },
    {
        let query = self.members_no_sync();
        self.members_call(query, locks, mutex)
    }

    /// Get all members for this room, includes invited, joined and left
    /// members.
    ///
    /// *Note*: This method will not fetch the members from the homeserver if
    /// the member list isn't synchronized due to member lazy loading. Thus,
    /// members could be missing.
    ///
    /// Use [members()](#method.members) if you want to ensure to always get
    /// the full member list.
    pub fn members_no_sync(&self) -> (res: MembersQuery)
        ensures
            res.room_id == self.base().room_id,
            res.selection is All,
            res == self.spec_query(MemberSelection::All),
    {
        MembersQuery { room_id: self.inner.room_id.clone(), selection: MemberSelection::All }
    }

    /// The members of this room for those that the store holds.
    pub open spec fn spec_members<M>(self, stored: Seq<M>) -> Seq<RoomMember<M>> {
        stored.map_values(|inner: M| RoomMember { client: self.spec_client(), inner })
    }

    /// The result of a call for members of this room, from those that the store
    /// holds: the same members in the same order, each with the client of the
    /// room.
    pub fn members_loaded<M, F>(&self, stored: Result<Vec<M>, F>) -> (res: Result<
        Vec<RoomMember<M>>,
        RoomError<F>,
    >)
        ensures
            match stored {
                Ok(stored) => {
                    &&& res is Ok
                    &&& res->Ok_0@ == self.spec_members(stored@)
                    &&& res->Ok_0@.len() == stored@.len()
                    &&& forall|i: int|
                        0 <= i < stored@.len() ==> (#[trigger] res->Ok_0@[i]).inner == stored@[i]
                            && res->Ok_0@[i].client == self.spec_client()
                },
                Err(failure) => res == Err::<Vec<RoomMember<M>>, RoomError<F>>(
                    RoomError::StateStore(failure),
                ),
            },
    {
        match stored {
            Ok(stored) => {
                let ghost members = stored@;
                let mut res: Vec<RoomMember<M>> = Vec::new();
                for inner in iter: stored
                    invariant
                        res@.len() == iter.index(),
                        iter.seq() == members,
                        forall|j: int|
                            0 <= j < res@.len() ==> #[trigger] res@[j] == (RoomMember {
                                client: self.spec_client(),
                                inner: members[j],
                            }),
                {
                    res.push(RoomMember::new(self.client.clone(), inner));
                }
                assert(res@ =~= self.spec_members(members));
                Ok(res)
            },
            Err(failure) => Err(RoomError::StateStore(failure)),
        }
    }

    /// The result of a call for one member of this room, from what the store
    /// holds: that member, if there is one, with the client of the room.
    pub fn member_loaded<M, F>(&self, stored: Result<Option<M>, F>) -> (res: Result<
        Option<RoomMember<M>>,
        RoomError<F>,
    >)
        ensures
            match stored {
                Ok(Some(inner)) => res == Ok::<Option<RoomMember<M>>, RoomError<F>>(
                    Some(RoomMember { client: self.spec_client(), inner }),
                ),
                Ok(None) => res == Ok::<Option<RoomMember<M>>, RoomError<F>>(None),
                Err(failure) => res == Err::<Option<RoomMember<M>>, RoomError<F>>(
                    RoomError::StateStore(failure),
                ),
            },
    {
        match stored {
            Ok(Some(inner)) => Ok(Some(RoomMember::new(self.client.clone(), inner))),
            Ok(None) => Ok(None),
            Err(failure) => Err(RoomError::StateStore(failure)),
        }
    }

    /// Get all state events of a given type in this room. What the store holds of
    /// them goes to [`state_loaded`](Self::state_loaded).
    pub fn get_state_events(&self, event_type: ruma::events::EventType) -> (res: StateEventsQuery<
        '_,
    >)
        ensures
            res.room_id@ == self.base().room_id@,
            res.event_type == event_type,
    {
        StateEventsQuery { room_id: self.inner.room_id.as_str(), event_type }
    }

    /// Get a specific state event in this room. What the store holds of it goes to
    /// [`state_loaded`](Self::state_loaded).
    pub fn get_state_event<'a>(
        &'a self,
        event_type: ruma::events::EventType,
        state_key: &'a str,
    ) -> (res: StateEventQuery<'a>)
        ensures
            res.room_id@ == self.base().room_id@,
            res.event_type == event_type,
            res.state_key == state_key,
    {
        StateEventQuery { room_id: self.inner.room_id.as_str(), event_type, state_key }
    }

    /// The result of [`get_state_events`](Self::get_state_events) and
    /// [`get_state_event`](Self::get_state_event), from what the store holds.
    pub fn state_loaded<T, F>(stored: Result<T, F>) -> (res: Result<T, RoomError<F>>)
        ensures
            match stored {
                Ok(stored) => res == Ok::<T, RoomError<F>>(stored),
                Err(failure) => res == Err::<T, RoomError<F>>(RoomError::StateStore(failure)),
            },
    {
        match stored {
            Ok(stored) => Ok(stored),
            Err(failure) => Err(RoomError::StateStore(failure)),
        }
    }

    /// Check if all members of this room are verified and all their devices are
    /// verified.
    ///
    /// The users that the store holds of the room go to
    /// [`DevicesCall::begin`](crate::devices::DevicesCall::begin), which in the
    /// end gives true if all devices in the room are verified, otherwise false.
    pub fn contains_only_verified_devices(&self) -> (res: UserIdsQuery<'_>)
        ensures
            res.room_id@ == self.base().room_id@,
    {
        UserIdsQuery { room_id: self.inner.room_id.as_str() }
    }

    /// Whether `request` puts the tag `tag` of the user of the client on this room.
    pub open spec fn sets_tag(
        self,
        tag: TagName,
        tag_info: ruma::events::tag::TagInfo,
        request: CreateTagRequest<'_>,
    ) -> bool {
        &&& self.spec_client().user_id is Some
        &&& request.user_id@ == self.spec_client().user_id->Some_0@
        &&& request.room_id@ == self.base().room_id@
        &&& request.tag@ == tag.spec_name()
        &&& request.tag_info == tag_info
    }

    /// Whether `request` takes the tag `tag` of the user of the client off this
    /// room.
    pub open spec fn removes_tag(self, tag: TagName, request: DeleteTagRequest<'_>) -> bool {
        &&& self.spec_client().user_id is Some
        &&& request.user_id@ == self.spec_client().user_id->Some_0@
        &&& request.room_id@ == self.base().room_id@
        &&& request.tag@ == tag.spec_name()
    }

    /// Adds a tag to the room, or updates it if it already exists. Who is not
    /// logged in has no tags.
    ///
    /// # Arguments
    /// * `tag` - The tag to add or update.
    ///
    /// * `tag_info` - Information about the tag, generally containing the
    ///   `order` parameter.
    pub fn set_tag<F>(&self, tag: TagName, tag_info: ruma::events::tag::TagInfo) -> (res: Result<
        CreateTagRequest<'_>,
        HttpError<F>,
    >)
        ensures
            match self.spec_client().user_id {
                Some(_) => res is Ok && self.sets_tag(tag, tag_info, res->Ok_0),
                None => res == Err::<CreateTagRequest<'_>, HttpError<F>>(
                    HttpError::AuthenticationRequired,
                ),
            },
    {
        match &self.client.user_id {
            Some(user_id) => Ok(
                CreateTagRequest {
                    user_id: user_id.as_str(),
                    room_id: self.inner.room_id.as_str(),
                    tag: tag_name(&tag),
                    tag_info,
                },
            ),
            None => Err(HttpError::AuthenticationRequired),
        }
    }

    /// Removes a tag from the room. Who is not logged in has no tags.
    ///
    /// # Arguments
    /// * `tag` - The tag to remove.
    pub fn remove_tag<F>(&self, tag: TagName) -> (res: Result<DeleteTagRequest<'_>, HttpError<F>>)
        ensures
            match self.spec_client().user_id {
                Some(_) => res is Ok && self.removes_tag(tag, res->Ok_0),
                None => res == Err::<DeleteTagRequest<'_>, HttpError<F>>(
                    HttpError::AuthenticationRequired,
                ),
            },
    {
        match &self.client.user_id {
            Some(user_id) => Ok(
                DeleteTagRequest {
                    user_id: user_id.as_str(),
                    room_id: self.inner.room_id.as_str(),
                    tag: tag_name(&tag),
                },
            ),
            None => Err(HttpError::AuthenticationRequired),
        }
    }
}

/// A tag is removed from where it was set: the two requests name the same user,
/// the same room and the same tag.
pub proof fn law_tag_is_removed_where_it_was_set(
    room: Common,
    tag: TagName,
    tag_info: ruma::events::tag::TagInfo,
    set: CreateTagRequest<'_>,
    removed: DeleteTagRequest<'_>,
)
    requires
        room.sets_tag(tag, tag_info, set),
        room.removes_tag(tag, removed),
    ensures
        set.user_id@ == removed.user_id@,
        set.room_id@ == removed.room_id@,
        set.tag@ == removed.tag@,
{
}

/// A call for members fetches them from the server if the member list is not
/// synchronized, unless the events of the room cannot be seen: the call sends a
/// request of its own, or waits for the one that is under way, whatever became of
/// earlier requests.
pub proof fn law_unsynchronized_members_are_fetched<L, P>(
    room: Common,
    states: Seq<MembersRequests<L, P>>,
    ids: Seq<nat>,
    events: Seq<MembersEvent<L, P>>,
    k: int,
    mutex: Arc<L>,
    query: MembersQuery,
    after: Map<Seq<char>, Arc<L>>,
    call: MembersCall<L, P>,
)
    requires
        crate::members::is_history(states, ids, events),
        0 <= k < states.len(),
        room.starts(states[k].locks, mutex, query, after, call),
        !room.base().members_synced,
        events_visible(room.base()),
    ensures
        call is Request,
        (forall|id: nat| !states[k].fetches(id, room.base().room_id@)) ==> {
            &&& call->request.fetches() == Some(room.base().room_id@)
            &&& after == states[k].locks.insert(room.base().room_id@, mutex)
        },
        (exists|id: nat| states[k].fetches(id, room.base().room_id@)) ==> {
            &&& call->request is Wait
            &&& after == states[k].locks
        },
{
    let room_id = room.base().room_id@;
    crate::members::law_requests_are_deduplicated(states, ids, events, k);
    if states[k].locks.contains_key(room_id) {
        crate::members::law_lock_means_request_under_way(states, ids, events, k, room_id);
    }
}

/// A call for members of a room whose member list is synchronized, or whose events
/// cannot be seen, sends no request: it reads the store, as the method of the same
/// name that does no requests does.
pub proof fn law_no_request_without_need<L, P>(
    room: Common,
    before: Map<Seq<char>, Arc<L>>,
    mutex: Arc<L>,
    query: MembersQuery,
    after: Map<Seq<char>, Arc<L>>,
    call: MembersCall<L, P>,
)
    requires
        room.starts(before, mutex, query, after, call),
        room.base().members_synced || !events_visible(room.base()),
    ensures
        call == (MembersCall::<L, P>::Load { query }),
        after == before,
{
}

/// The user IDs of `members`, where `user_id` tells that of what is stored of a
/// member.
pub open spec fn user_ids<M>(
    members: Seq<RoomMember<M>>,
    user_id: spec_fn(M) -> Seq<char>,
) -> Set<Seq<char>> {
    members.map_values(|member: RoomMember<M>| user_id(member.inner)).to_set()
}

/// With an unchanged store, the joined members of a room are among the active ones,
/// and those are among all members.
pub proof fn law_selections_of_members_are_nested<M>(
    room: Common,
    stored: Map<Seq<char>, Membership>,
    user_id: spec_fn(M) -> Seq<char>,
    joined: Seq<M>,
    active: Seq<M>,
    all: Seq<M>,
)
    requires
        room.spec_query(MemberSelection::Joined).is_answered(stored, joined.map_values(user_id)),
        room.spec_query(MemberSelection::Active).is_answered(stored, active.map_values(user_id)),
        room.spec_query(MemberSelection::All).is_answered(stored, all.map_values(user_id)),
    ensures
        user_ids(room.spec_members(joined), user_id).subset_of(
            user_ids(room.spec_members(active), user_id),
        ),
        user_ids(room.spec_members(active), user_id).subset_of(
            user_ids(room.spec_members(all), user_id),
        ),
{
    assert forall|stored: Seq<M>|
        #[trigger] user_ids(room.spec_members(stored), user_id) == stored.map_values(
            user_id,
        ).to_set() by {
        assert(room.spec_members(stored).map_values(
            |member: RoomMember<M>| user_id(member.inner),
        ) =~= stored.map_values(user_id));
    }
    let joined_ids = joined.map_values(user_id);
    let active_ids = active.map_values(user_id);
    let all_ids = all.map_values(user_id);
    assert forall|id: Seq<char>| joined_ids.to_set().contains(id) implies active_ids.to_set().contains(
        id,
    ) by {
        assert(joined_ids.contains(id));
        assert(active_ids.contains(id));
    }
    assert forall|id: Seq<char>| active_ids.to_set().contains(id) implies all_ids.to_set().contains(
        id,
    ) by {
        assert(active_ids.contains(id));
        assert(all_ids.contains(id));
    }
}

/// The events of a room can be seen, unless the user is merely invited to it.
pub proof fn law_only_invited_may_not_see_events(room: BaseRoom)
    ensures
        !events_visible(room) ==> room.room_type == RoomType::Invited,
{
}

/// "Broken" messages (i.e., those that cannot be read as an event of a room) are
/// returned unchanged, and without encryption all messages are.
pub proof fn law_broken_messages_are_returned_unchanged<I>(
    encryption: bool,
    events: Seq<Raw>,
    outcomes: Seq<Option<RoomEvent<I>>>,
    chunks: Seq<Seq<RoomEvent<I>>>,
    i: int,
)
    requires
        crate::messages::is_run(
            events,
            Common::spec_decryptable(encryption, events),
            outcomes,
            chunks,
        ),
        chunks.last().len() == events.len(),
        0 <= i < events.len(),
        encryption ==> !crate::json::is_room_event(events[i].json@),
    ensures
        chunks.last()[i] == RoomEvent::<I>::undecrypted(events[i]),
{
    crate::messages::law_messages_settles_every_event(
        events,
        Common::spec_decryptable(encryption, events),
        outcomes,
        chunks,
    );
}

/// With encryption, a message that is an event of a room and can be read is
/// decrypted: it is returned as its own decryption made it, and if that failed it is
/// returned undecrypted.
pub proof fn law_messages_are_decrypted_if_possible<I>(
    events: Seq<Raw>,
    outcomes: Seq<Option<RoomEvent<I>>>,
    chunks: Seq<Seq<RoomEvent<I>>>,
    i: int,
)
    requires
        crate::messages::is_run(events, Common::spec_decryptable(true, events), outcomes, chunks),
        chunks.last().len() == events.len(),
        0 <= i < events.len(),
        crate::json::is_room_event(events[i].json@),
    ensures
        ({
            let n = crate::messages::decryptions(Common::spec_decryptable(true, events), i) as int;
            match outcomes[n] {
                Some(decrypted) => chunks.last()[i] == decrypted,
                None => chunks.last()[i] == RoomEvent::<I>::undecrypted(events[i]),
            }
        }),
{
    crate::messages::law_messages_settles_every_event(
        events,
        Common::spec_decryptable(true, events),
        outcomes,
        chunks,
    );
}

} // verus!
