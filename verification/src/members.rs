//! How the members of a room are fetched, once for all who ask at the same time.
use std::sync::Arc;
use vstd::prelude::*;
use crate::error::{HttpError, RoomError};
use crate::locks::{share, MembersRequestLocks};
use crate::request::GetMemberEventsRequest;
use crate::values::Step;

verus! {

/// What a request for the members of a room waits for.
///
/// `P` is the response of the server.
#[derive(Debug)]
pub enum MembersRequest<L, P> {
    /// Another request for the same members is under way. Take this lock, which
    /// that request holds, and let go of it.
    Wait {
        /// The lock of the other request.
        lock: Arc<L>,
    },
    /// Take this lock, and hold it until the request is over.
    Lock {
        /// The room whose members are requested.
        room_id: String,
        /// The lock of this request.
        lock: Arc<L>,
    },
    /// Send this to the server.
    Send {
        /// What to send.
        request: GetMemberEventsRequest,
    },
    /// Take the response of the server into the state of the room.
    Receive {
        /// The room whose members were requested.
        room_id: String,
        /// The response of the server.
        response: P,
    },
}

/// What there is of locks and of a request once the members of the room
/// `room_id` are asked for, where `locks` are the locks of the requests that are
/// under way and `mutex` is a new one.
pub open spec fn started<L, P>(
    locks: Map<Seq<char>, Arc<L>>,
    room_id: String,
    mutex: Arc<L>,
) -> (Map<Seq<char>, Arc<L>>, MembersRequest<L, P>) {
    if locks.contains_key(room_id@) {
        (locks, MembersRequest::Wait { lock: locks[room_id@] })
    } else {
        (locks.insert(room_id@, mutex), MembersRequest::Lock { room_id, lock: mutex })
    }
}

impl<L, P> MembersRequest<L, P> {
    /// The room whose members this request fetches, if it is not one that waits
    /// for another.
    pub open spec fn fetches(self) -> Option<Seq<char>> {
        match self {
            MembersRequest::Wait { .. } => None,
            MembersRequest::Lock { room_id, .. } => Some(room_id@),
            MembersRequest::Send { request } => Some(request.room_id@),
            MembersRequest::Receive { room_id, .. } => Some(room_id@),
        }
    }

    /// The locks that are left of `locks` when the request is over.
    pub open spec fn released(self, locks: Map<Seq<char>, Arc<L>>) -> Map<Seq<char>, Arc<L>> {
        match self.fetches() {
            Some(room_id) => locks.remove(room_id),
            None => locks,
        }
    }

    /// What follows once the lock was taken. With `None` the request is over.
    pub open spec fn after_lock(self) -> Option<MembersRequest<L, P>> {
        match self {
            MembersRequest::Lock { room_id, .. } => Some(
                MembersRequest::Send { request: GetMemberEventsRequest { room_id } },
            ),
            _ => None,
        }
    }

    /// What follows once the server has sent `response`.
    pub open spec fn after_response(self, response: P) -> MembersRequest<L, P> {
        MembersRequest::Receive { room_id: self->Send_request.room_id, response }
    }

    /// Asks for the members of the room `room_id`. If a request for them is under
    /// way, this one waits for that one.
    pub fn start(room_id: &String, locks: &mut MembersRequestLocks<L>, mutex: Arc<L>) -> (res: Self)
        requires
            old(locks).wf(),
        ensures
            final(locks).wf(),
            (final(locks)@, res) == started::<L, P>(old(locks)@, *room_id, mutex),
            match res {
                MembersRequest::Wait { lock } => {
                    &&& old(locks)@.contains_key(room_id@)
                    &&& lock == old(locks)@[room_id@]
                    &&& final(locks)@ == old(locks)@
                },
                MembersRequest::Lock { room_id: fetched, lock } => {
                    &&& !old(locks)@.contains_key(room_id@)
                    &&& fetched == *room_id
                    &&& lock == mutex
                    &&& final(locks)@ == old(locks)@.insert(room_id@, mutex)
                },
                _ => false,
            },
    {
        match locks.get(room_id) {
            Some(lock) => MembersRequest::Wait { lock },
            None => {
                locks.insert(room_id.clone(), share(&mutex));
                MembersRequest::Lock { room_id: room_id.clone(), lock: mutex }
            },
        }
    }

    /// Goes on once the lock was taken. A request that waited for another is over,
    /// without a response of its own.
    pub fn locked<R, F>(self) -> (res: Step<Self, Result<Option<R>, RoomError<F>>>)
        requires
            self is Wait || self is Lock,
        ensures
            match self.after_lock() {
                Some(next) => res == Step::<Self, Result<Option<R>, RoomError<F>>>::Perform(next),
                None => res == Step::<Self, Result<Option<R>, RoomError<F>>>::Done(Ok(None)),
            },
            self matches MembersRequest::Lock { room_id, .. } ==> {
                &&& res is Perform
                &&& res->Perform_0 is Send
                &&& res->Perform_0->Send_request.room_id == room_id
            },
            self is Wait ==> res is Done,
    {
        match self {
            MembersRequest::Lock { room_id, .. } => Step::Perform(
                MembersRequest::Send { request: GetMemberEventsRequest { room_id } },
            ),
            _ => Step::Done(Ok(None)),
        }
    }

    /// Goes on with the answer of the server. If there is none the request is
    /// over, and its lock is gone.
    pub fn sent<R, F>(
        self,
        locks: &mut MembersRequestLocks<L>,
        response: Result<P, HttpError<F>>,
    ) -> (res: Step<Self, Result<Option<R>, RoomError<F>>>)
        requires
            self is Send,
            old(locks).wf(),
        ensures
            final(locks).wf(),
            match response {
                Ok(response) => *final(locks) == *old(locks) && res == Step::<
                    Self,
                    Result<Option<R>, RoomError<F>>,
                >::Perform(self.after_response(response)) && res->Perform_0 == (
                MembersRequest::<L, P>::Receive {
                    room_id: self->Send_request.room_id,
                    response,
                }),
                Err(error) => final(locks)@ == old(locks)@.remove(self->Send_request.room_id@)
                    && res == Step::<Self, Result<Option<R>, RoomError<F>>>::Done(
                    Err(RoomError::Http(error)),
                ),
            },
    {
        match response {
            Ok(response) => match self {
                MembersRequest::Send { request } => Step::Perform(
                    MembersRequest::Receive { room_id: request.room_id, response },
                ),
                // Not reached: this is for a request that was sent.
                other => Step::Perform(other),
            },
            Err(error) => {
                self.release(locks);
                Step::Done(Err(RoomError::from(error)))
            },
        }
    }

    /// Goes on with what became of the response of the server. The request is
    /// over, and its lock is gone.
    pub fn received<R, F>(
        self,
        locks: &mut MembersRequestLocks<L>,
        members: Result<R, F>,
    ) -> (res: Result<Option<R>, RoomError<F>>)
        requires
            self is Receive,
            old(locks).wf(),
        ensures
            final(locks).wf(),
            final(locks)@ == old(locks)@.remove(self->Receive_room_id@),
            match members {
                Ok(members) => res == Ok::<Option<R>, RoomError<F>>(Some(members)),
                Err(failure) => res == Err::<Option<R>, RoomError<F>>(RoomError::Base(failure)),
            },
    {
        self.release(locks);
        match members {
            Ok(members) => Ok(Some(members)),
            Err(failure) => Err(RoomError::Base(failure)),
        }
    }

    /// Gives up on the request, which is over then. If it is one that fetches
    /// members its lock is gone.
    pub fn abandoned(self, locks: &mut MembersRequestLocks<L>)
        requires
            old(locks).wf(),
        ensures
            final(locks).wf(),
            final(locks)@ == self.released(old(locks)@),
    {
        self.release(locks);
    }

    fn release(&self, locks: &mut MembersRequestLocks<L>)
        requires
            old(locks).wf(),
        ensures
            final(locks).wf(),
            final(locks)@ == self.released(old(locks)@),
    {
        match self {
            MembersRequest::Wait { .. } => {},
            MembersRequest::Lock { room_id, .. } => locks.remove(room_id),
            MembersRequest::Send { request } => locks.remove(&request.room_id),
            MembersRequest::Receive { room_id, .. } => locks.remove(room_id),
        }
    }
}

/// Which members of a room are asked for.
#[derive(Debug)]
pub enum MemberSelection {
    /// Invited and joined members.
    Active,
    /// Joined members.
    Joined,
    /// Invited, joined and left members.
    All,
    /// The member with this user ID.
    User(String),
}

/// How a user stands to a room that they are a member of.
pub enum Membership {
    /// Invited, and has not joined yet.
    Invited,
    /// Joined.
    Joined,
    /// Was invited or joined once, and no longer is.
    Left,
}

impl MemberSelection {
    /// Whether the user `user_id`, who stands to the room as `membership` says, is
    /// asked for.
    pub open spec fn covers(self, user_id: Seq<char>, membership: Membership) -> bool {
        match self {
            MemberSelection::Active => membership is Invited || membership is Joined,
            MemberSelection::Joined => membership is Joined,
            MemberSelection::All => true,
            MemberSelection::User(wanted) => user_id == wanted@,
        }
    }
}

/// Read members of a room from the state store.
#[derive(Debug)]
pub struct MembersQuery {
    /// The room that the members are in.
    pub room_id: String,
    /// Which members to read.
    pub selection: MemberSelection,
}

impl MembersQuery {
    /// Whether the users `user_ids` are what a store has to give for the query if
    /// it knows the members `stored` of the room: those who are asked for.
    pub open spec fn is_answered(
        self,
        stored: Map<Seq<char>, Membership>,
        user_ids: Seq<Seq<char>>,
    ) -> bool {
        forall|user_id: Seq<char>| #[trigger]
            user_ids.contains(user_id) <==> stored.contains_key(user_id) && self.selection.covers(
                user_id,
                stored[user_id],
            )
    }
}

/// What a call that asks for members of a room waits for.
#[derive(Debug)]
pub enum MembersCall<L, P> {
    /// The members are fetched from the server first.
    Request {
        /// What the request waits for.
        request: MembersRequest<L, P>,
        /// What to read when it is over.
        query: MembersQuery,
    },
    /// Read this from the state store. What it gives is the result of the call.
    Load {
        /// What to read.
        query: MembersQuery,
    },
}

impl<L, P> MembersCall<L, P> {
    /// What is read from the state store in the end.
    pub open spec fn spec_query(self) -> MembersQuery {
        match self {
            MembersCall::Request { query, .. } => query,
            MembersCall::Load { query } => query,
        }
    }

    /// Goes on once the lock was taken, as [`MembersRequest::locked`] does.
    pub fn locked(self) -> (res: Self)
        requires
            self is Request,
            self->request is Wait || self->request is Lock,
        ensures
            match self->request.after_lock() {
                Some(request) => res == (MembersCall::Request { request, query: self.spec_query() }),
                None => res == (MembersCall::<L, P>::Load { query: self.spec_query() }),
            },
            match res {
                MembersCall::Request { query, .. } | MembersCall::Load { query } => query
                    == self->Request_query,
            },
    {
        match self {
            MembersCall::Request { request, query } => {
                let step: Step<MembersRequest<L, P>, Result<Option<()>, RoomError<()>>> =
                    request.locked();
                match step {
                    Step::Perform(request) => MembersCall::Request { request, query },
                    Step::Done(_) => MembersCall::Load { query },
                }
            },
            // Not reached: there is a request.
            load => load,
        }
    }

    /// Goes on with the answer of the server, as [`MembersRequest::sent`] does. If
    /// there is none the call fails.
    pub fn sent<F>(
        self,
        locks: &mut MembersRequestLocks<L>,
        response: Result<P, HttpError<F>>,
    ) -> (res: Result<Self, RoomError<F>>)
        requires
            self is Request,
            self->request is Send,
            old(locks).wf(),
        ensures
            final(locks).wf(),
            match response {
                Ok(response) => *final(locks) == *old(locks) && res == Ok::<Self, RoomError<F>>(
                    MembersCall::Request {
                        request: self->request.after_response(response),
                        query: self.spec_query(),
                    },
                ),
                Err(error) => final(locks)@ == old(locks)@.remove(
                    self->request->Send_request.room_id@,
                ) && res == Err::<Self, RoomError<F>>(RoomError::Http(error)),
            },
            res matches Ok(next) ==> next is Request && next->Request_query == self->Request_query,
    {
        match self {
            MembersCall::Request { request, query } => {
                let step: Step<MembersRequest<L, P>, Result<Option<()>, RoomError<F>>> =
                    request.sent(locks, response);
                match step {
                    Step::Perform(request) => Ok(MembersCall::Request { request, query }),
                    // Not reached: an answer of the server is not the end.
                    Step::Done(Ok(_)) => Ok(MembersCall::Load { query }),
                    Step::Done(Err(error)) => Err(error),
                }
            },
            // Not reached: there is a request.
            load => Ok(load),
        }
    }

    /// Goes on with what became of the response of the server, as
    /// [`MembersRequest::received`] does. If it was not taken into the state of
    /// the room the call fails.
    pub fn received<R, F>(
        self,
        locks: &mut MembersRequestLocks<L>,
        members: Result<R, F>,
    ) -> (res: Result<Self, RoomError<F>>)
        requires
            self is Request,
            self->request is Receive,
            old(locks).wf(),
        ensures
            final(locks).wf(),
            final(locks)@ == old(locks)@.remove(self->request->Receive_room_id@),
            match members {
                Ok(_) => res == Ok::<Self, RoomError<F>>(
                    MembersCall::Load { query: self.spec_query() },
                ),
                Err(failure) => res == Err::<Self, RoomError<F>>(RoomError::Base(failure)),
            },
            res matches Ok(next) ==> next == (MembersCall::<L, P>::Load {
                query: self->Request_query,
            }),
    {
        match self {
            MembersCall::Request { request, query } => {
                match request.received(locks, members) {
                    Ok(_) => Ok(MembersCall::Load { query }),
                    Err(error) => Err(error),
                }
            },
            // Not reached: there is a request.
            load => Ok(load),
        }
    }

    /// Gives up on the call, and on its request as [`MembersRequest::abandoned`]
    /// does.
    pub fn abandoned(self, locks: &mut MembersRequestLocks<L>)
        requires
            old(locks).wf(),
        ensures
            final(locks).wf(),
            match self {
                MembersCall::Request { request, .. } => final(locks)@ == request.released(
                    old(locks)@,
                ),
                MembersCall::Load { .. } => *final(locks) == *old(locks),
            },
    {
        match self {
            MembersCall::Request { request, .. } => request.abandoned(locks),
            MembersCall::Load { .. } => {},
        }
    }
}

impl<L, P> MembersCall<L, P> {
    /// Whether the call can go on as `next`, by what [`locked`](Self::locked),
    /// [`sent`](Self::sent) and [`received`](Self::received) do.
    pub open spec fn goes_on_as(self, next: MembersCall<L, P>) -> bool {
        let query = self.spec_query();
        &&& self is Request
        &&& match self->request {
            MembersRequest::Send { .. } => {
                &&& next is Request
                &&& next->request is Receive
                &&& next == (MembersCall::Request {
                    request: self->request.after_response(next->request->Receive_response),
                    query,
                })
            },
            MembersRequest::Receive { .. } => next == (MembersCall::<L, P>::Load { query }),
            _ => match self->request.after_lock() {
                Some(request) => next == (MembersCall::Request { request, query }),
                None => next == (MembersCall::<L, P>::Load { query }),
            },
        }
    }
}

/// A call for members reads in the end what the method of the same name that does
/// no requests reads, and it does so after the request is over: a call that
/// fetches takes its lock, sends its request and has the response taken into the
/// state of the room first, and a call that waits has waited.
pub proof fn law_members_are_read_after_request<L, P>(stages: Seq<MembersCall<L, P>>)
    requires
        stages.len() > 0,
        stages[0] matches MembersCall::Request { request, .. } ==> request is Wait || request is Lock,
        forall|k: int|
            #![trigger stages[k]]
            0 <= k < stages.len() - 1 ==> stages[k].goes_on_as(stages[k + 1]),
        stages.last() is Load,
    ensures
        stages.last().spec_query() == stages[0].spec_query(),
        stages[0] is Load ==> stages.len() == 1,
        stages[0] is Request && stages[0]->request is Wait ==> stages.len() == 2,
        stages[0] is Request && stages[0]->request is Lock ==> {
            &&& stages.len() == 4
            &&& stages[1]->request is Send
            &&& stages[2]->request is Receive
            &&& stages[1]->request.fetches() == stages[0]->request.fetches()
            &&& stages[2]->request.fetches() == stages[0]->request.fetches()
        },
{
    let n = stages.len() as int;
    if n > 1 {
        assert(stages[0].goes_on_as(stages[1]));
    }
    if n > 2 {
        assert(stages[1].goes_on_as(stages[2]));
    }
    if n > 3 {
        assert(stages[2].goes_on_as(stages[3]));
    }
    if n > 4 {
        assert(stages[3].goes_on_as(stages[4]));
    }
}

/// The requests for members that are under way in a client, and their locks.
pub struct MembersRequests<L, P> {
    /// The locks.
    pub locks: Map<Seq<char>, Arc<L>>,
    /// The requests that are not over, each under a number of its own.
    pub calls: Map<nat, MembersRequest<L, P>>,
}

/// What can happen to the requests of a client.
pub enum MembersEvent<L, P> {
    /// The members of a room are asked for, with a new lock at hand.
    Start(String, Arc<L>),
    /// The request took its lock.
    Locked,
    /// The server answered with a response.
    Sent(P),
    /// The server did not answer.
    SendFailed,
    /// The response was taken into the state of the room.
    Received,
    /// The response was not taken into the state of the room.
    ReceiveFailed,
    /// The caller gave up.
    Dropped,
}

impl<L, P> MembersRequests<L, P> {
    /// No request is under way.
    pub open spec fn init() -> MembersRequests<L, P> {
        MembersRequests { locks: Map::empty(), calls: Map::empty() }
    }

    /// The request `id` is over, however it ended: its lock, if it has one, is
    /// gone.
    pub open spec fn over(self, id: nat) -> MembersRequests<L, P> {
        MembersRequests {
            locks: self.calls[id].released(self.locks),
            calls: self.calls.remove(id),
        }
    }

    /// The request `id` goes on as `request`.
    pub open spec fn goes_on(self, id: nat, request: MembersRequest<L, P>) -> MembersRequests<L, P> {
        MembersRequests { locks: self.locks, calls: self.calls.insert(id, request) }
    }

    /// Whether `event` can happen to the request `id` and leads to `next`, by what
    /// [`MembersRequest::start`], [`MembersRequest::locked`],
    /// [`MembersRequest::sent`], [`MembersRequest::received`] and
    /// [`MembersRequest::abandoned`] do.
    pub open spec fn steps_to(
        self,
        id: nat,
        event: MembersEvent<L, P>,
        next: MembersRequests<L, P>,
    ) -> bool {
        let request = self.calls[id];
        match event {
            MembersEvent::Start(room_id, mutex) => {
                let (locks, request) = started::<L, P>(self.locks, room_id, mutex);
                &&& !self.calls.contains_key(id)
                &&& next == (MembersRequests { locks, calls: self.calls.insert(id, request) })
            },
            MembersEvent::Locked => {
                &&& self.calls.contains_key(id)
                &&& request is Wait || request is Lock
                &&& next == match request.after_lock() {
                    Some(request) => self.goes_on(id, request),
                    None => self.over(id),
                }
            },
            MembersEvent::Sent(response) => {
                &&& self.calls.contains_key(id)
                &&& request is Send
                &&& next == self.goes_on(id, request.after_response(response))
            },
            MembersEvent::SendFailed => {
                &&& self.calls.contains_key(id)
                &&& request is Send
                &&& next == self.over(id)
            },
            MembersEvent::Received => {
                &&& self.calls.contains_key(id)
                &&& request is Receive
                &&& next == self.over(id)
            },
            MembersEvent::ReceiveFailed => {
                &&& self.calls.contains_key(id)
                &&& request is Receive
                &&& next == self.over(id)
            },
            MembersEvent::Dropped => {
                &&& self.calls.contains_key(id)
                &&& next == self.over(id)
            },
        }
    }

    /// Whether the request `id` fetches the members of the room `room_id`.
    pub open spec fn fetches(self, id: nat, room_id: Seq<char>) -> bool {
        self.calls.contains_key(id) && self.calls[id].fetches() == Some(room_id)
    }

    /// Whether every room that is fetched has a lock, and no room is fetched
    /// twice.
    pub open spec fn deduplicated(self) -> bool {
        &&& forall|id: nat, room_id: Seq<char>| #[trigger]
            self.fetches(id, room_id) ==> self.locks.contains_key(room_id)
        &&& forall|id: nat, other: nat, room_id: Seq<char>| #[trigger]
            self.fetches(id, room_id) && #[trigger] self.fetches(other, room_id) ==> id == other
    }
}

/// Whether `states` are states that a client goes through from the start, where
/// `events[k]` happens to the request `ids[k]` in the `k`th of them.
pub open spec fn is_history<L, P>(
    states: Seq<MembersRequests<L, P>>,
    ids: Seq<nat>,
    events: Seq<MembersEvent<L, P>>,
) -> bool {
    &&& states.len() == events.len() + 1
    &&& ids.len() == events.len()
    &&& states[0] == MembersRequests::<L, P>::init()
    &&& forall|k: int|
        #![trigger events[k]]
        0 <= k < events.len() ==> states[k].steps_to(ids[k], events[k], states[k + 1])
}

/// Requests for the members of a room are de-duplicated: however calls start,
/// succeed, fail and are given up on, at no time are two of them fetching the
/// members of the same room.
pub proof fn law_requests_are_deduplicated<L, P>(
    states: Seq<MembersRequests<L, P>>,
    ids: Seq<nat>,
    events: Seq<MembersEvent<L, P>>,
    k: int,
)
    requires
        is_history(states, ids, events),
        0 <= k < states.len(),
    ensures
        states[k].deduplicated(),
    decreases k,
{
    if k > 0 {
        law_requests_are_deduplicated(states, ids, events, k - 1);
        let event = events[k - 1];
        law_step_keeps_requests_deduplicated(states[k - 1], ids[k - 1], event, states[k]);
    }
}

/// Whatever happens to a request, no room is fetched twice afterwards if none was
/// before.
pub proof fn law_step_keeps_requests_deduplicated<L, P>(
    state: MembersRequests<L, P>,
    id: nat,
    event: MembersEvent<L, P>,
    next: MembersRequests<L, P>,
)
    requires
        state.deduplicated(),
        state.steps_to(id, event, next),
    ensures
        next.deduplicated(),
{
    assert forall|other: nat, room_id: Seq<char>|
        #[trigger] next.fetches(other, room_id) && other != id implies state.fetches(
        other,
        room_id,
    ) by {}
    assert forall|room_id: Seq<char>|
        #[trigger] next.fetches(id, room_id) && !(event is Start) implies state.fetches(
        id,
        room_id,
    ) by {}
    assert forall|other: nat, room_id: Seq<char>| #[trigger]
        next.fetches(other, room_id) implies next.locks.contains_key(room_id) by {
        if other != id {
            assert(state.fetches(other, room_id));
            if state.calls.contains_key(id) && state.calls[id].fetches() is Some {
                assert(state.fetches(id, state.calls[id].fetches()->Some_0));
            }
        } else if !(event is Start) {
            assert(state.fetches(id, room_id));
        }
    }
    assert forall|one: nat, other: nat, room_id: Seq<char>| #[trigger]
        next.fetches(one, room_id) && #[trigger] next.fetches(other, room_id) implies one
        == other by {
        if one != id {
            assert(state.fetches(one, room_id));
        }
        if other != id {
            assert(state.fetches(other, room_id));
        }
        if !(event is Start) {
            if one == id {
                assert(state.fetches(id, room_id));
            }
            if other == id {
                assert(state.fetches(id, room_id));
            }
        }
    }
}

/// A call that asks for the members of a room while they are fetched waits for
/// that request and sends none of its own.
pub proof fn law_call_waits_for_request_under_way<L, P>(
    state: MembersRequests<L, P>,
    fetching: nat,
    room_id: String,
    id: nat,
    mutex: Arc<L>,
    next: MembersRequests<L, P>,
)
    requires
        state.deduplicated(),
        state.fetches(fetching, room_id@),
        state.steps_to(id, MembersEvent::Start(room_id, mutex), next),
    ensures
        next.calls[id] == (MembersRequest::<L, P>::Wait { lock: state.locks[room_id@] }),
        next.calls[id].after_lock() is None,
        next.locks == state.locks,
{
}

/// There is a lock for the members of a room only while they are fetched, however
/// calls start, succeed, fail and are given up on. So a call has no response of
/// its own only where another request is under way.
pub proof fn law_lock_means_request_under_way<L, P>(
    states: Seq<MembersRequests<L, P>>,
    ids: Seq<nat>,
    events: Seq<MembersEvent<L, P>>,
    k: int,
    room_id: Seq<char>,
)
    requires
        is_history(states, ids, events),
        0 <= k < states.len(),
        states[k].locks.contains_key(room_id),
    ensures
        exists|id: nat| states[k].fetches(id, room_id),
    decreases k,
{
    if k > 0 {
        let state = states[k - 1];
        let next = states[k];
        let id = ids[k - 1];
        let event = events[k - 1];
        assert(state.steps_to(id, event, next));
        if state.locks.contains_key(room_id) {
            law_lock_means_request_under_way(states, ids, events, k - 1, room_id);
            let witness = choose|other: nat| state.fetches(other, room_id);
            assert(next.fetches(witness, room_id));
        } else {
            assert(next.fetches(id, room_id));
        }
    }
}

/// A call that asks for the members of a room while no request for them is under
/// way sends a request of its own, whatever became of earlier requests.
pub proof fn law_call_fetches_if_no_request_is_under_way<L, P>(
    states: Seq<MembersRequests<L, P>>,
    ids: Seq<nat>,
    events: Seq<MembersEvent<L, P>>,
    k: int,
    room_id: String,
    id: nat,
    mutex: Arc<L>,
    next: MembersRequests<L, P>,
)
    requires
        is_history(states, ids, events),
        0 <= k < states.len(),
        forall|other: nat| !states[k].fetches(other, room_id@),
        states[k].steps_to(id, MembersEvent::Start(room_id, mutex), next),
    ensures
        next.calls[id] == (MembersRequest::<L, P>::Lock { room_id, lock: mutex }),
        next.calls[id].after_lock() == Some(
            MembersRequest::<L, P>::Send { request: GetMemberEventsRequest { room_id } },
        ),
        next.locks == states[k].locks.insert(room_id@, mutex),
{
    if states[k].locks.contains_key(room_id@) {
        law_lock_means_request_under_way(states, ids, events, k, room_id@);
    }
}

/// A request that fails, or that its caller gives up on, can be repeated: the next
/// call for the members of the room sends a request of its own.
pub proof fn law_failed_request_can_be_repeated<L, P>(
    state: MembersRequests<L, P>,
    failing: nat,
    event: MembersEvent<L, P>,
    failed: MembersRequests<L, P>,
    room_id: String,
    id: nat,
    mutex: Arc<L>,
    next: MembersRequests<L, P>,
)
    requires
        state.fetches(failing, room_id@),
        event is SendFailed || event is ReceiveFailed || event is Dropped,
        state.steps_to(failing, event, failed),
        failed.steps_to(id, MembersEvent::Start(room_id, mutex), next),
    ensures
        next.calls[id] == (MembersRequest::<L, P>::Lock { room_id, lock: mutex }),
        next.calls[id].after_lock() == Some(
            MembersRequest::<L, P>::Send { request: GetMemberEventsRequest { room_id } },
        ),
{
}

/// A request that fetches members leaves the locks as it found them, at whatever
/// stage it ends.
pub proof fn law_request_leaves_no_lock<L, P>(
    locks: Map<Seq<char>, Arc<L>>,
    room_id: String,
    mutex: Arc<L>,
    response: P,
)
    requires
        !locks.contains_key(room_id@),
    ensures
        ({
            let (held, request) = started::<L, P>(locks, room_id, mutex);
            let sending = request.after_lock()->Some_0;
            &&& request.released(held) == locks
            &&& sending.released(held) == locks
            &&& sending.after_response(response).released(held) == locks
        }),
{
    assert(locks.insert(room_id@, mutex).remove(room_id@) =~= locks);
}

} // verus!
