//! How a page of events becomes a page of possibly decrypted events.
use vstd::prelude::*;
use crate::values::{Raw, RoomEvent, Step};

verus! {

/// A page of the events of a room, as the server sent it.
#[derive(Debug)]
pub struct MessagesResponse {
    /// The token the pagination starts from.
    pub start: String,
    /// The token the pagination ends at.
    pub end: Option<String>,
    /// A list of room events.
    pub chunk: Vec<Raw>,
    /// A list of state events relevant to showing the `chunk`.
    pub state: Vec<Raw>,
}

/// The result of a `messages` call.
///
/// In short, this is a possibly decrypted version of the page that the server
/// sent.
#[derive(Debug)]
pub struct Messages<I> {
    /// The token the pagination starts from.
    pub start: String,
    /// The token the pagination ends at.
    pub end: Option<String>,
    /// A list of room events.
    pub chunk: Vec<RoomEvent<I>>,
    /// A list of state events relevant to showing the `chunk`.
    pub state: Vec<Raw>,
}

impl<I> Messages<I> {
    /// Whether everything but the events is as the server sent it.
    pub open spec fn frames(self, response: MessagesResponse) -> bool {
        &&& self.start == response.start
        &&& self.end == response.end
        &&& self.state == response.state
    }
}

/// Whether `chunk` holds what becomes of the first `chunk.len()` of `events`
/// where `before` held what becomes of the first `before.len()`, and all that
/// was added are events that are not to be decrypted, up to the next one that
/// is, or to the end.
pub open spec fn carried_on<I>(
    events: Seq<Raw>,
    decryptable: Seq<bool>,
    before: Seq<RoomEvent<I>>,
    chunk: Seq<RoomEvent<I>>,
) -> bool {
    &&& before.len() <= chunk.len() <= events.len()
    &&& chunk.take(before.len() as int) == before
    &&& forall|i: int|
        before.len() <= i < chunk.len() ==> !(#[trigger] decryptable[i]) && chunk[i]
            == RoomEvent::<I>::undecrypted(events[i])
    &&& chunk.len() < events.len() ==> decryptable[chunk.len() as int]
}

/// A `messages` call that waits for an event to be decrypted.
#[derive(Debug)]
pub struct MessagesCall<I> {
    response: MessagesResponse,
    decryptable: Vec<bool>,
    chunk: Vec<RoomEvent<I>>,
}

impl<I> MessagesCall<I> {
    /// The page that the server sent.
    pub closed spec fn response(self) -> MessagesResponse {
        self.response
    }

    /// Which events of the page are to be decrypted.
    pub closed spec fn decryptable(self) -> Seq<bool> {
        self.decryptable@
    }

    /// What has become of the first events of the page.
    pub closed spec fn chunk(self) -> Seq<RoomEvent<I>> {
        self.chunk@
    }

    /// Whether the next event of the page is to be decrypted.
    pub open spec fn wf(self) -> bool {
        &&& self.decryptable().len() == self.response().chunk@.len()
        &&& self.chunk().len() < self.response().chunk@.len()
        &&& self.decryptable()[self.chunk().len() as int]
    }

    /// Whether `step` is where a call on the page `response` has come to when
    /// the first `before.len()` events of it have become `before`.
    pub open spec fn reached(
        step: Step<MessagesCall<I>, Messages<I>>,
        response: MessagesResponse,
        decryptable: Seq<bool>,
        before: Seq<RoomEvent<I>>,
    ) -> bool {
        match step {
            Step::Perform(call) => {
                &&& call.wf()
                &&& call.response() == response
                &&& call.decryptable() == decryptable
                &&& carried_on(response.chunk@, decryptable, before, call.chunk())
            },
            Step::Done(messages) => {
                &&& messages.frames(response)
                &&& messages.chunk@.len() == response.chunk@.len()
                &&& carried_on(response.chunk@, decryptable, before, messages.chunk@)
            },
        }
    }

    /// Starts to work off the page `response`, of which the events that
    /// `decryptable` marks are to be decrypted and the others stay as they are.
    pub fn begin(response: MessagesResponse, decryptable: Vec<bool>) -> (res: Step<
        MessagesCall<I>,
        Messages<I>,
    >)
        requires
            decryptable@.len() == response.chunk@.len(),
        ensures
            Self::reached(res, response, decryptable@, Seq::empty()),
    {
        let call = MessagesCall { response, decryptable, chunk: Vec::new() };
        call.carry_on()
    }

    /// The event to decrypt.
    pub fn event(&self) -> (event: &Raw)
        requires
            self.wf(),
        ensures
            *event == self.response().chunk@[self.chunk().len() as int],
    {
        &self.response.chunk[self.chunk.len()]
    }

    /// Goes on with what decryption made of [`event`](Self::event). Where
    /// decryption failed, the event is kept as it is.
    pub fn decrypted(self, decrypted: Option<RoomEvent<I>>) -> (res: Step<
        MessagesCall<I>,
        Messages<I>,
    >)
        requires
            self.wf(),
        ensures
            Self::reached(
                res,
                self.response(),
                self.decryptable(),
                self.chunk().push(
                    RoomEvent::settled(
                        self.response().chunk@[self.chunk().len() as int],
                        decrypted,
                    ),
                ),
            ),
    {
        let mut call = self;
        let event = match decrypted {
            Some(event) => event,
            None => RoomEvent {
                event: call.response.chunk[call.chunk.len()].clone(),
                encryption_info: None,
            },
        };
        call.chunk.push(event);
        call.carry_on()
    }

    /// Adds events as they are, up to the next one that is to be decrypted.
    fn carry_on(self) -> (res: Step<MessagesCall<I>, Messages<I>>)
        requires
            self.decryptable().len() == self.response().chunk@.len(),
            self.chunk().len() <= self.response().chunk@.len(),
        ensures
            Self::reached(res, self.response(), self.decryptable(), self.chunk()),
    {
        let ghost before = self.chunk@;
        let mut call = self;
        assert(before.take(before.len() as int) == before);
        while call.chunk.len() < call.response.chunk.len() && !call.decryptable[call.chunk.len()]
            invariant
                call.response == self.response,
                call.decryptable == self.decryptable,
                call.decryptable@.len() == call.response.chunk@.len(),
                before.len() <= call.chunk@.len() <= call.response.chunk@.len(),
                call.chunk@.take(before.len() as int) == before,
                forall|i: int|
                    before.len() <= i < call.chunk@.len() ==> !(#[trigger] call.decryptable@[i])
                        && call.chunk@[i] == RoomEvent::<I>::undecrypted(
                            call.response.chunk@[i],
                        ),
            decreases call.response.chunk@.len() - call.chunk@.len(),
        {
            let ghost chunk = call.chunk@;
            let event = call.response.chunk[call.chunk.len()].clone();
            call.chunk.push(RoomEvent { event, encryption_info: None });
            assert(call.chunk@.take(before.len() as int) == chunk.take(before.len() as int));
        }
        if call.chunk.len() < call.response.chunk.len() {
            Step::Perform(call)
        } else {
            let MessagesCall { response, chunk, .. } = call;
            Step::Done(
                Messages { start: response.start, end: response.end, chunk, state: response.state },
            )
        }
    }
}

/// How many of the first `n` events are to be decrypted.
pub open spec fn decryptions(decryptable: Seq<bool>, n: int) -> nat
    decreases n,
{
    if n <= 0 {
        0
    } else if decryptable[n - 1] {
        decryptions(decryptable, n - 1) + 1
    } else {
        decryptions(decryptable, n - 1)
    }
}

/// What becomes of the `i`th event when decryption gives `outcomes` for the
/// events that are to be decrypted, in their order.
pub open spec fn final_event<I>(
    events: Seq<Raw>,
    decryptable: Seq<bool>,
    outcomes: Seq<Option<RoomEvent<I>>>,
    i: int,
) -> RoomEvent<I> {
    if decryptable[i] {
        RoomEvent::settled(events[i], outcomes[decryptions(decryptable, i) as int])
    } else {
        RoomEvent::undecrypted(events[i])
    }
}

/// Whether `chunks` are the stages that a call goes through, as
/// [`MessagesCall::begin`] and then [`MessagesCall::decrypted`] report them, when
/// decryption gives `outcomes`, one after the other.
pub open spec fn is_run<I>(
    events: Seq<Raw>,
    decryptable: Seq<bool>,
    outcomes: Seq<Option<RoomEvent<I>>>,
    chunks: Seq<Seq<RoomEvent<I>>>,
) -> bool {
    &&& decryptable.len() == events.len()
    &&& chunks.len() == outcomes.len() + 1
    &&& carried_on(events, decryptable, Seq::empty(), chunks[0])
    &&& forall|k: int|
        #![trigger outcomes[k]]
        0 <= k < outcomes.len() ==> chunks[k].len() < events.len() && carried_on(
            events,
            decryptable,
            chunks[k].push(RoomEvent::settled(events[chunks[k].len() as int], outcomes[k])),
            chunks[k + 1],
        )
}

/// A `messages` call loses no event, adds none and keeps their order. Each event
/// that is to be decrypted is decrypted once, in the order of the page: it comes
/// out decrypted, or, where that one decryption failed, as it came in. Every
/// other event comes out as it came in.
pub proof fn law_messages_settles_every_event<I>(
    events: Seq<Raw>,
    decryptable: Seq<bool>,
    outcomes: Seq<Option<RoomEvent<I>>>,
    chunks: Seq<Seq<RoomEvent<I>>>,
)
    requires
        is_run(events, decryptable, outcomes, chunks),
        chunks.last().len() == events.len(),
    ensures
        outcomes.len() == decryptions(decryptable, events.len() as int),
        forall|i: int|
            0 <= i < events.len() ==> #[trigger] chunks.last()[i] == final_event(
                events,
                decryptable,
                outcomes,
                i,
            ),
{
    lemma_stage(events, decryptable, outcomes, chunks, outcomes.len() as int);
}

/// What the `k`th stage of a call holds.
proof fn lemma_stage<I>(
    events: Seq<Raw>,
    decryptable: Seq<bool>,
    outcomes: Seq<Option<RoomEvent<I>>>,
    chunks: Seq<Seq<RoomEvent<I>>>,
    k: int,
)
    requires
        is_run(events, decryptable, outcomes, chunks),
        0 <= k <= outcomes.len(),
    ensures
        decryptions(decryptable, chunks[k].len() as int) == k,
        forall|i: int|
            0 <= i < chunks[k].len() ==> #[trigger] chunks[k][i] == final_event(
                events,
                decryptable,
                outcomes,
                i,
            ),
    decreases k,
{
    if k == 0 {
        lemma_no_decryption(decryptable, 0, chunks[0].len() as int);
    } else {
        lemma_stage(events, decryptable, outcomes, chunks, k - 1);
        let earlier = chunks[k - 1];
        let n = earlier.len() as int;
        let settled = RoomEvent::settled(events[n], outcomes[k - 1]);
        let before = earlier.push(settled);
        assert(carried_on(events, decryptable, before, chunks[k]));
        assert(decryptable[n]) by {
            if k == 1 {
                assert(carried_on(events, decryptable, Seq::empty(), earlier));
            } else {
                let previous = chunks[k - 2];
                assert(carried_on(
                    events,
                    decryptable,
                    previous.push(
                        RoomEvent::settled(events[previous.len() as int], outcomes[k - 2]),
                    ),
                    earlier,
                ));
            }
        }
        lemma_no_decryption(decryptable, n + 1, chunks[k].len() as int);
        assert forall|i: int| 0 <= i < chunks[k].len() implies #[trigger] chunks[k][i]
            == final_event(events, decryptable, outcomes, i) by {
            if i < before.len() {
                assert(chunks[k].take(before.len() as int)[i] == before[i]);
                if i < n {
                    assert(before[i] == earlier[i]);
                }
            } else {
                assert(!decryptable[i]);
            }
        }
    }
}

/// Events that are not to be decrypted do not count.
proof fn lemma_no_decryption(decryptable: Seq<bool>, from: int, to: int)
    requires
        0 <= from <= to <= decryptable.len(),
        forall|i: int| from <= i < to ==> !(#[trigger] decryptable[i]),
    ensures
        decryptions(decryptable, to) == decryptions(decryptable, from),
    decreases to - from,
{
    if from < to {
        lemma_no_decryption(decryptable, from, to - 1);
        assert(!decryptable[to - 1]);
    }
}

} // verus!
