//! What the operations of a room are for, stated of every call of them: of what
//! goes in and what comes out.
use std::sync::Arc;
use vstd::prelude::*;
use crate::common::Common;
use crate::devices::DevicesCall;
use crate::error::{HttpError, RoomError};
use crate::locks::MembersRequestLocks;
use crate::media::{GetMediaContent, MediaFormat};
use crate::members::{MemberSelection, Membership, MembersCall, MembersQuery, MembersRequest};
use crate::messages::{Messages, MessagesCall, MessagesResponse};
use crate::options::MessagesOptions;
use crate::request::{
    CreateTagRequest, DeleteTagRequest, Direction, GetMessageEventsRequest, GetRoomEventRequest,
    JoinRoomRequest, LeaveRoomRequest, StateEventQuery, StateEventsQuery, UserIdsQuery,
};
use crate::tag::{TagName, UserTagName};
use crate::values::{
    BaseRoom, Client, Device, HistoryVisibility, Raw, RoomEvent, RoomMember, RoomType, Step, UInt,
};

verus! {

/// A look at the devices of a room answers `false` as soon as one device of one
/// user is not verified, and `true` only if every device of every user is. It asks
/// for the users one after the other, and ends after the last one at the latest.
///
/// `devices[u]` are the devices that the store has of the user `user_ids[u]`.
pub proof fn law_every_device_of_every_user_counts<F>(
    user_ids: Vec<String>,
    devices: Seq<Vec<Device>>,
    steps: Seq<Step<DevicesCall, Result<bool, RoomError<F>>>>,
)
    requires
        devices.len() == user_ids@.len(),
        steps.len() > 0,
        call_ensures(DevicesCall::begin::<F>, (Ok(user_ids),), steps[0]),
        forall|k: int|
            #![trigger steps[k]]
            0 <= k < steps.len() - 1 ==> steps[k] is Perform && call_ensures(
                DevicesCall::devices_loaded::<F>,
                (steps[k]->Perform_0, Ok(devices[k])),
                steps[k + 1],
            ),
    ensures
        steps.len() <= user_ids@.len() + 1,
        steps.len() == user_ids@.len() + 1 ==> steps.last() is Done,
        steps.last() is Done ==> steps.last()->Done_0 is Ok,
        forall|u: int, d: int|
            steps.last() is Done && 0 <= u < devices.len() && 0 <= d < devices[u]@.len() && !(
            #[trigger] devices[u]@[d]).verified ==> steps.last()->Done_0 == Ok::<
                bool,
                RoomError<F>,
            >(false),
        (forall|u: int, d: int|
            0 <= u < devices.len() && 0 <= d < devices[u]@.len() ==> (
            #[trigger] devices[u]@[d]).verified) && steps.last() is Done ==> steps.last()->Done_0
            == Ok::<bool, RoomError<F>>(true),
        forall|k: int, user_id: &str|
            0 <= k < steps.len() && steps[k] is Perform && #[trigger] call_ensures(
                DevicesCall::user_id,
                (&steps[k]->Perform_0,),
                user_id,
            ) ==> user_id@ == user_ids@[k]@,
{
    assert forall|k: int| 0 <= k < steps.len() implies k <= user_ids@.len() && (
    #[trigger] steps[k] matches Step::Perform(call) ==> call.user_ids() == user_ids@
        && call.looked_at() == k && k < user_ids@.len()) by {
        lemma_look(user_ids, devices, steps, k);
    }
    let last = steps.len() - 1;
    lemma_look(user_ids, devices, steps, last);
}

/// What is known of a look at devices after `k` steps.
proof fn lemma_look<F>(
    user_ids: Vec<String>,
    devices: Seq<Vec<Device>>,
    steps: Seq<Step<DevicesCall, Result<bool, RoomError<F>>>>,
    k: int,
)
    requires
        devices.len() == user_ids@.len(),
        0 <= k < steps.len(),
        call_ensures(DevicesCall::begin::<F>, (Ok(user_ids),), steps[0]),
        forall|k: int|
            #![trigger steps[k]]
            0 <= k < steps.len() - 1 ==> steps[k] is Perform && call_ensures(
                DevicesCall::devices_loaded::<F>,
                (steps[k]->Perform_0, Ok(devices[k])),
                steps[k + 1],
            ),
    ensures
        k <= user_ids@.len(),
        match steps[k] {
            Step::Perform(call) => {
                &&& k < user_ids@.len()
                &&& call.user_ids() == user_ids@
                &&& call.looked_at() == k
                &&& forall|u: int, d: int|
                    0 <= u < k && 0 <= d < devices[u]@.len() ==> (#[trigger] devices[u]@[d]).verified
            },
            Step::Done(answer) => {
                ||| answer == Ok::<bool, RoomError<F>>(true) && k == devices.len() && forall|
                    u: int,
                    d: int,
                |
                    0 <= u < devices.len() && 0 <= d < devices[u]@.len() ==> (
                    #[trigger] devices[u]@[d]).verified
                ||| answer == Ok::<bool, RoomError<F>>(false) && exists|u: int, d: int|
                    0 <= u < devices.len() && 0 <= d < devices[u]@.len() && !(
                    #[trigger] devices[u]@[d]).verified
            },
        },
    decreases k,
{
    if k > 0 {
        lemma_look(user_ids, devices, steps, k - 1);
        assert(steps[k - 1] is Perform);
        let had = devices[k - 1]@;
        if exists|d: int| 0 <= d < had.len() && !(#[trigger] had[d]).verified {
            let d = choose|d: int| 0 <= d < had.len() && !(#[trigger] had[d]).verified;
            assert(!devices[k - 1]@[d].verified);
        }
    }
}

/// A store that fails ends the look at devices, with its own failure.
pub proof fn law_failing_store_ends_the_look<F>(
    failure: F,
    call: DevicesCall,
    begun: Step<DevicesCall, Result<bool, RoomError<F>>>,
    loaded: Step<DevicesCall, Result<bool, RoomError<F>>>,
)
    requires
        call_ensures(DevicesCall::begin::<F>, (Err(failure),), begun),
        call_ensures(DevicesCall::devices_loaded::<F>, (call, Err(failure)), loaded),
        call.wf(),
    ensures
        begun is Done && begun->Done_0 == Err::<bool, RoomError<F>>(RoomError::StateStore(failure)),
        loaded is Done && loaded->Done_0 == Err::<bool, RoomError<F>>(
            RoomError::CryptoStore(failure),
        ),
{
}

/// A page of messages is asked for just as the options say, and in the room itself.
pub proof fn law_page_is_asked_for_as_the_options_say<'a>(
    room: &'a Common,
    options: MessagesOptions<'a>,
    room_id: &'a str,
    request: GetMessageEventsRequest<'a>,
    made: GetMessageEventsRequest<'a>,
)
    requires
        call_ensures(Common::messages, (room, options), request),
        call_ensures(MessagesOptions::into_request, (options, room_id), made),
    ensures
        request.room_id@ == room.base().room_id@,
        request.from == options.from,
        request.to == options.to,
        request.dir == options.dir,
        request.limit == options.limit,
        request.filter == options.filter,
        made.room_id == room_id,
        made.from == options.from,
        made.to == options.to,
        made.dir == options.dir,
        made.limit == options.limit,
        made.filter == options.filter,
{
}

/// Options for paging in a direction from a token ask for ten events in that
/// direction from that token, and leave the end and the filter open.
pub proof fn law_pages_go_from_the_token_in_the_direction<'a>(
    room: &'a Common,
    from: &'a str,
    dir: Direction,
    new: MessagesOptions<'a>,
    forward: MessagesOptions<'a>,
    backward: MessagesOptions<'a>,
    new_request: GetMessageEventsRequest<'a>,
    forward_request: GetMessageEventsRequest<'a>,
    backward_request: GetMessageEventsRequest<'a>,
)
    requires
        call_ensures(MessagesOptions::new, (from, dir), new),
        call_ensures(MessagesOptions::forward, (from,), forward),
        call_ensures(MessagesOptions::backward, (from,), backward),
        call_ensures(Common::messages, (room, new), new_request),
        call_ensures(Common::messages, (room, forward), forward_request),
        call_ensures(Common::messages, (room, backward), backward_request),
    ensures
        new_request.dir == dir,
        forward_request.dir == Direction::Forward,
        backward_request.dir == Direction::Backward,
        new_request.from == from && forward_request.from == from && backward_request.from == from,
        new_request.to is None && forward_request.to is None && backward_request.to is None,
        new_request.filter is None && forward_request.filter is None && backward_request.filter is None,
        forall|limit: u64| #[trigger]
            call_ensures(UInt::get, (new_request.limit,), limit) ==> limit == 10,
        forall|limit: u64| #[trigger]
            call_ensures(UInt::get, (forward_request.limit,), limit) ==> limit == 10,
        forall|limit: u64| #[trigger]
            call_ensures(UInt::get, (backward_request.limit,), limit) ==> limit == 10,
{
}

/// An integer comes out as it went in, and those up to 2^53 - 1 go in.
pub proof fn law_integers_are_kept(
    value: u64,
    small: u32,
    made: Option<UInt>,
    from: UInt,
    got: u64,
    back: u64,
)
    requires
        call_ensures(UInt::new, (value,), made),
        call_ensures(UInt::from_u32, (small,), from),
        made is Some ==> call_ensures(UInt::get, (made->Some_0,), got),
        call_ensures(UInt::get, (from,), back),
    ensures
        made is Some <==> value <= 9007199254740991,
        made is Some ==> got == value,
        back == small,
{
}

/// Whether `room` is of a client with encryption, and `event` is an event of a room
/// that can be read.
#[verifier::opaque]
pub open spec fn is_readable(room: Common, event: Raw) -> bool {
    &&& room.spec_client().encryption
    &&& crate::identifiers::identifiers_fit(event.json@)
    &&& crate::json::room_event_deserializes(event.json@)
}

/// How many of the first `n` of `events` can be read.
pub open spec fn readable_before(room: Common, events: Seq<Raw>, n: int) -> nat {
    events.take(n).filter(|event: Raw| is_readable(room, event)).len()
}

/// Whether `next` is what [`MessagesCall::decrypted`] gives where the work on a page
/// waits for a decryption, as `step` does, and that gives `outcome`.
pub open spec fn goes_on_with<I>(
    step: Step<MessagesCall<I>, Messages<I>>,
    outcome: Option<RoomEvent<I>>,
    next: Step<MessagesCall<I>, Messages<I>>,
) -> bool {
    &&& step is Perform
    &&& call_ensures(MessagesCall::<I>::decrypted, (step->Perform_0, outcome), next)
}

/// A page of messages keeps its tokens and its state events, and every event keeps
/// its place. An event that can be read comes out as its own decryption made it; the
/// decryptions are asked for one after the other, in the order of the page. Where a
/// decryption failed, and where an event cannot be read, the event comes out as it
/// came in.
///
/// `outcomes[k]` is what the `k`th decryption gives.
pub proof fn law_page_keeps_every_event_in_its_place<I, F>(
    room: Common,
    response: MessagesResponse,
    outcomes: Seq<Option<RoomEvent<I>>>,
    steps: Seq<Step<MessagesCall<I>, Messages<I>>>,
)
    requires
        steps.len() == outcomes.len() + 1,
        call_ensures(
            Common::messages_received::<I, F>,
            (&room, Ok(response)),
            Ok::<Step<MessagesCall<I>, Messages<I>>, RoomError<F>>(steps[0]),
        ),
        forall|k: int|
            #![trigger outcomes[k]]
            0 <= k < outcomes.len() ==> goes_on_with(steps[k], outcomes[k], steps[k + 1]),
    ensures
        steps.last() is Done ==> {
            let messages = steps.last()->Done_0;
            &&& messages.start == response.start
            &&& messages.end == response.end
            &&& messages.state == response.state
            &&& messages.chunk@.len() == response.chunk@.len()
            &&& outcomes.len() == readable_before(
                room,
                response.chunk@,
                response.chunk@.len() as int,
            )
            &&& forall|i: int|
                #![trigger messages.chunk@[i]]
                0 <= i < response.chunk@.len() && is_readable(room, response.chunk@[i]) ==> match outcomes[readable_before(
                    room,
                    response.chunk@,
                    i,
                ) as int] {
                    Some(decrypted) => messages.chunk@[i] == decrypted,
                    None => messages.chunk@[i].event == response.chunk@[i]
                        && messages.chunk@[i].encryption_info is None,
                }
            &&& forall|i: int|
                #![trigger messages.chunk@[i]]
                0 <= i < response.chunk@.len() && !is_readable(room, response.chunk@[i])
                    ==> messages.chunk@[i].event == response.chunk@[i]
                    && messages.chunk@[i].encryption_info is None
        },
        forall|k: int, event: &Raw|
            0 <= k < steps.len() && steps[k] is Perform && #[trigger] call_ensures(
                MessagesCall::<I>::event,
                (&steps[k]->Perform_0,),
                event,
            ) ==> exists|i: int|
                0 <= i < response.chunk@.len() && is_readable(room, response.chunk@[i])
                    && readable_before(room, response.chunk@, i) == k && *event
                    == #[trigger] response.chunk@[i],
{
    assert forall|k: int| 0 <= k < steps.len() implies page_at(
        room,
        response,
        outcomes,
        k,
        #[trigger] steps[k],
    ) by {
        lemma_page::<I, F>(room, response, outcomes, steps, k);
    }
    assert forall|k: int, event: &Raw|
        0 <= k < steps.len() && steps[k] is Perform && #[trigger] call_ensures(
            MessagesCall::<I>::event,
            (&steps[k]->Perform_0,),
            event,
        ) implies exists|i: int|
        0 <= i < response.chunk@.len() && is_readable(room, response.chunk@[i])
            && readable_before(room, response.chunk@, i) == k && *event
            == #[trigger] response.chunk@[i] by {
        let i = steps[k]->Perform_0.chunk().len() as int;
        assert(page_at(room, response, outcomes, k, steps[k]));
        assert(*event == response.chunk@[i]);
    }
}

/// What has become of the first events of a page, after `k` decryptions.
spec fn page_holds<I>(
    room: Common,
    events: Seq<Raw>,
    outcomes: Seq<Option<RoomEvent<I>>>,
    k: int,
    chunk: Seq<RoomEvent<I>>,
) -> bool {
    &&& chunk.len() <= events.len()
    &&& readable_before(room, events, chunk.len() as int) == k
    &&& forall|i: int|
        #![trigger chunk[i]]
        0 <= i < chunk.len() && is_readable(room, events[i]) ==> {
            let n = readable_before(room, events, i) as int;
            &&& n < k
            &&& match outcomes[n] {
                Some(decrypted) => chunk[i] == decrypted,
                None => chunk[i].event == events[i] && chunk[i].encryption_info is None,
            }
        }
    &&& forall|i: int|
        #![trigger chunk[i]]
        0 <= i < chunk.len() && !is_readable(room, events[i]) ==> chunk[i].event == events[i]
            && chunk[i].encryption_info is None
}

spec fn page_at<I>(
    room: Common,
    response: MessagesResponse,
    outcomes: Seq<Option<RoomEvent<I>>>,
    k: int,
    step: Step<MessagesCall<I>, Messages<I>>,
) -> bool {
    match step {
        Step::Perform(call) => {
            let n = call.chunk().len() as int;
            &&& call.wf()
            &&& call.response() == response
            &&& call.decryptable() == Common::spec_decryptable(
                room.spec_client().encryption,
                response.chunk@,
            )
            &&& page_holds(room, response.chunk@, outcomes, k, call.chunk())
            &&& n < response.chunk@.len()
            &&& is_readable(room, response.chunk@[n])
        },
        Step::Done(messages) => {
            &&& messages.start == response.start
            &&& messages.end == response.end
            &&& messages.state == response.state
            &&& messages.chunk@.len() == response.chunk@.len()
            &&& page_holds(room, response.chunk@, outcomes, k, messages.chunk@)
        },
    }
}

proof fn lemma_readable_before(room: Common, events: Seq<Raw>, n: int)
    requires
        0 <= n < events.len(),
    ensures
        readable_before(room, events, n + 1) == readable_before(room, events, n) + if is_readable(
            room,
            events[n],
        ) {
            1nat
        } else {
            0nat
        },
{
    reveal(Seq::filter);
    assert(events.take(n + 1).drop_last() =~= events.take(n));
}

/// Events that cannot be read are added as they are.
proof fn lemma_page_goes_on<I>(
    room: Common,
    events: Seq<Raw>,
    outcomes: Seq<Option<RoomEvent<I>>>,
    k: int,
    before: Seq<RoomEvent<I>>,
    chunk: Seq<RoomEvent<I>>,
)
    requires
        page_holds(room, events, outcomes, k, before),
        before.len() <= chunk.len() <= events.len(),
        forall|i: int| #![trigger chunk[i]] 0 <= i < before.len() ==> chunk[i] == before[i],
        forall|i: int|
            #![trigger chunk[i]]
            before.len() <= i < chunk.len() ==> !is_readable(room, events[i]) && chunk[i].event
                == events[i] && chunk[i].encryption_info is None,
    ensures
        page_holds(room, events, outcomes, k, chunk),
    decreases chunk.len() - before.len(),
{
    if before.len() < chunk.len() {
        let n = before.len() as int;
        let longer = before.push(chunk[n]);
        lemma_readable_before(room, events, n);
        assert(!is_readable(room, events[n]));
        assert forall|i: int| #![trigger longer[i]] 0 <= i < longer.len() implies longer[i]
            == chunk[i] && (i < n ==> longer[i] == before[i]) by {}
        assert(page_holds(room, events, outcomes, k, longer));
        lemma_page_goes_on(room, events, outcomes, k, longer, chunk);
    } else {
        assert(chunk =~= before);
    }
}

/// The work on a page goes on from `before` as it has to.
proof fn lemma_page_reached<I>(
    room: Common,
    response: MessagesResponse,
    outcomes: Seq<Option<RoomEvent<I>>>,
    k: int,
    before: Seq<RoomEvent<I>>,
    step: Step<MessagesCall<I>, Messages<I>>,
)
    requires
        page_holds(room, response.chunk@, outcomes, k, before),
        MessagesCall::reached(
            step,
            response,
            Common::spec_decryptable(room.spec_client().encryption, response.chunk@),
            before,
        ),
    ensures
        page_at(room, response, outcomes, k, step),
{
    let events = response.chunk@;
    let marks = Common::spec_decryptable(room.spec_client().encryption, events);
    assert forall|i: int| 0 <= i < events.len() implies #[trigger] marks[i] == is_readable(
        room,
        events[i],
    ) by {
        reveal(is_readable);
    }
    let chunk = match step {
        Step::Perform(call) => call.chunk(),
        Step::Done(messages) => messages.chunk@,
    };
    assert forall|i: int| #![trigger chunk[i]] 0 <= i < before.len() implies chunk[i]
        == before[i] by {
        assert(chunk.take(before.len() as int)[i] == chunk[i]);
    }
    assert forall|i: int| #![trigger chunk[i]] before.len() <= i < chunk.len() implies !is_readable(
        room,
        events[i],
    ) && chunk[i].event == events[i] && chunk[i].encryption_info is None by {
        assert(!marks[i]);
    }
    lemma_page_goes_on(room, events, outcomes, k, before, chunk);
    if step is Perform {
        assert(marks[chunk.len() as int]);
    }
}

proof fn lemma_page<I, F>(
    room: Common,
    response: MessagesResponse,
    outcomes: Seq<Option<RoomEvent<I>>>,
    steps: Seq<Step<MessagesCall<I>, Messages<I>>>,
    k: int,
)
    requires
        0 <= k < steps.len(),
        steps.len() == outcomes.len() + 1,
        call_ensures(
            Common::messages_received::<I, F>,
            (&room, Ok(response)),
            Ok::<Step<MessagesCall<I>, Messages<I>>, RoomError<F>>(steps[0]),
        ),
        forall|k: int|
            #![trigger outcomes[k]]
            0 <= k < outcomes.len() ==> goes_on_with(steps[k], outcomes[k], steps[k + 1]),
    ensures
        page_at(room, response, outcomes, k, steps[k]),
    decreases k,
{
    let events = response.chunk@;
    if k == 0 {
        let before = Seq::<RoomEvent<I>>::empty();
        assert(page_holds(room, events, outcomes, k, before)) by {
            reveal(Seq::filter);
            assert(events.take(0) =~= Seq::<Raw>::empty());
        }
        lemma_page_reached(room, response, outcomes, k, before, steps[k]);
    } else {
        lemma_page::<I, F>(room, response, outcomes, steps, k - 1);
        let outcome = outcomes[k - 1];
        let call = steps[k - 1]->Perform_0;
        let n = call.chunk().len() as int;
        let before = call.chunk().push(RoomEvent::settled(events[n], outcome));
        assert(page_holds(room, events, outcomes, k, before)) by {
            lemma_readable_before(room, events, n);
            assert forall|i: int| #![trigger before[i]] 0 <= i < n implies before[i]
                == call.chunk()[i] by {}
        }
        lemma_page_reached(room, response, outcomes, k, before, steps[k]);
    }
}

/// A page that the server did not send is the failure of its request.
pub proof fn law_failed_page_is_its_failure<I, F>(
    room: Common,
    error: HttpError<F>,
    res: Result<Step<MessagesCall<I>, Messages<I>>, RoomError<F>>,
)
    requires
        call_ensures(Common::messages_received::<I, F>, (&room, Err(error)), res),
    ensures
        res is Err,
        res->Err_0 == RoomError::Http(error),
{
}

/// A page is always worked off: an answer of the server is never a failure.
pub proof fn law_page_is_never_refused<I, F>(
    room: Common,
    response: MessagesResponse,
    res: Result<Step<MessagesCall<I>, Messages<I>>, RoomError<F>>,
)
    requires
        call_ensures(Common::messages_received::<I, F>, (&room, Ok(response)), res),
    ensures
        res is Ok,
{
}

/// An event that was fetched is decrypted if the client can do that and otherwise
/// written anew, unless it cannot be read. A failed decryption leaves the event as
/// it came in, and every failure is reported.
pub proof fn law_fetched_event_is_returned<I, F>(
    room: Common,
    event: Raw,
    error: HttpError<F>,
    decrypted: RoomEvent<I>,
    received: Step<Raw, Result<RoomEvent<I>, RoomError<F>>>,
    failed: Step<Raw, Result<RoomEvent<I>, RoomError<F>>>,
    read: RoomEvent<I>,
    kept: RoomEvent<I>,
)
    requires
        call_ensures(Common::event_received::<I, F>, (&room, Ok(event)), received),
        call_ensures(Common::event_received::<I, F>, (&room, Err(error)), failed),
        call_ensures(Common::event_decrypted::<I>, (event, Some(decrypted)), read),
        call_ensures(Common::event_decrypted::<I>, (event, None), kept),
    ensures
        failed is Done && failed->Done_0 == Err::<RoomEvent<I>, RoomError<F>>(
            RoomError::Http(error),
        ),
        read == decrypted,
        kept.event == event && kept.encryption_info is None,
        received is Perform ==> received->Perform_0 == event,
        received is Perform <==> is_readable(room, event),
        ({
            let fits = crate::identifiers::identifiers_fit(event.json@);
            let reads = crate::json::room_event_deserializes(event.json@);
            let written = crate::json::room_event_json(event.json@);
            &&& received == Step::<Raw, Result<RoomEvent<I>, RoomError<F>>>::Done(
                Err(RoomError::OversizedIdentifier),
            ) <==> !fits
            &&& fits && !reads ==> received is Done && received->Done_0 is Err
                && received->Done_0->Err_0 is SerdeJson
            &&& !room.spec_client().encryption && fits && reads ==> received is Done && match written {
                Some(json) => {
                    &&& received->Done_0 is Ok
                    &&& received->Done_0->Ok_0.event.json@ == json
                    &&& received->Done_0->Ok_0.encryption_info is None
                },
                None => received->Done_0 is Err && received->Done_0->Err_0 is SerdeJson,
            }
        }),
{
    reveal(is_readable);
}

/// Which event has to be decrypted or written anew, and what is made of its text.
pub proof fn law_event_is_worked_on_by_encryption<I, F>(
    room: Common,
    event: Raw,
    json: String,
    error: serde_json::Error,
    work: Result<crate::common::EventWork, RoomError<F>>,
    broken: Result<crate::common::EventWork, RoomError<F>>,
    written: Result<RoomEvent<I>, RoomError<F>>,
    unwritten: Result<RoomEvent<I>, RoomError<F>>,
)
    requires
        call_ensures(Common::event_deserialized::<F>, (&room, event, Ok(())), work),
        call_ensures(Common::event_deserialized::<F>, (&room, event, Err(error)), broken),
        call_ensures(Common::event_serialized::<I, F>, (Ok(json),), written),
        call_ensures(Common::event_serialized::<I, F>, (Err(error),), unwritten),
    ensures
        work is Ok,
        room.spec_client().encryption ==> work->Ok_0 is Decrypt && work->Ok_0->Decrypt_0 == event,
        !room.spec_client().encryption ==> work->Ok_0 is Serialize && work->Ok_0->Serialize_0
            == event,
        broken is Err && broken->Err_0 == RoomError::<F>::SerdeJson(error),
        written is Ok && written->Ok_0.event.json == json && written->Ok_0.encryption_info is None,
        unwritten is Err && unwritten->Err_0 == RoomError::<F>::SerdeJson(error),
{
}

/// A room holds what it was made from, and so does a copy of it.
pub proof fn law_room_holds_what_it_was_made_from(
    client: Client,
    base: BaseRoom,
    room: Common,
    copy: Common,
    inner: &BaseRoom,
)
    requires
        call_ensures(Common::new, (client, base), room),
        call_ensures(<Common as Clone>::clone, (&room,), copy),
        call_ensures(<Common as std::ops::Deref>::deref, (&room,), inner),
    ensures
        room.base() == base,
        room.spec_client() == client,
        copy == room,
        *inner == base,
{
}

/// Every request of a room goes to the room that it was made from, and asks for
/// what was named.
pub proof fn law_requests_are_for_the_room<'a>(
    client: Client,
    base: BaseRoom,
    room: &'a Common,
    event_id: &'a str,
    event_type: ruma::events::EventType,
    state_key: &'a str,
    leave: LeaveRoomRequest<'a>,
    join: JoinRoomRequest<'a>,
    event: GetRoomEventRequest<'a>,
    events: StateEventsQuery<'a>,
    state: StateEventQuery<'a>,
    users: UserIdsQuery<'a>,
)
    requires
        call_ensures(Common::new, (client, base), *room),
        call_ensures(Common::leave, (room,), leave),
        call_ensures(Common::join, (room,), join),
        call_ensures(Common::event, (room, event_id), event),
        call_ensures(Common::get_state_events, (room, event_type), events),
        call_ensures(Common::get_state_event, (room, event_type, state_key), state),
        call_ensures(Common::contains_only_verified_devices, (room,), users),
    ensures
        leave.room_id@ == base.room_id@,
        join.room_id@ == base.room_id@,
        event.room_id@ == base.room_id@ && event.event_id == event_id,
        events.room_id@ == base.room_id@ && events.event_type == event_type,
        state.room_id@ == base.room_id@ && state.event_type == event_type && state.state_key
            == state_key,
        users.room_id@ == base.room_id@,
{
}

/// The answer of the server or of the store is the result of what was asked, and a
/// failure is reported as it came.
pub proof fn law_answers_are_passed_on<R, T, F>(
    response: R,
    stored: T,
    error: HttpError<F>,
    failure: F,
    acknowledged: Result<(), RoomError<F>>,
    refused: Result<(), RoomError<F>>,
    loaded: Result<T, RoomError<F>>,
    failed: Result<T, RoomError<F>>,
)
    requires
        call_ensures(Common::acknowledged::<R, F>, (Ok(response),), acknowledged),
        call_ensures(Common::acknowledged::<R, F>, (Err(error),), refused),
        call_ensures(Common::state_loaded::<T, F>, (Ok(stored),), loaded),
        call_ensures(Common::state_loaded::<T, F>, (Err(failure),), failed),
    ensures
        acknowledged is Ok,
        refused is Err && refused->Err_0 == RoomError::Http(error),
        loaded is Ok && loaded->Ok_0 == stored,
        failed is Err && failed->Err_0 == RoomError::StateStore(failure),
{
}

/// The avatar of a room is got, in the format asked for, if and only if one is set.
pub proof fn law_avatar_is_got_if_set<F>(
    room: Common,
    format: MediaFormat,
    content: Vec<u8>,
    error: RoomError<F>,
    step: Step<GetMediaContent, Result<Option<Vec<u8>>, RoomError<F>>>,
    got: Result<Option<Vec<u8>>, RoomError<F>>,
    failed: Result<Option<Vec<u8>>, RoomError<F>>,
)
    requires
        call_ensures(Common::avatar::<F>, (&room, format), step),
        call_ensures(Common::avatar_loaded::<F>, (Ok(content),), got),
        call_ensures(Common::avatar_loaded::<F>, (Err(error),), failed),
    ensures
        step is Perform <==> room.base().avatar_url is Some,
        step is Perform ==> {
            let get = step->Perform_0;
            &&& get.request.media_type->Uri_0 == room.base().avatar_url->Some_0
            &&& get.request.format == format
            &&& get.use_cache
        },
        step is Done ==> step->Done_0 is Ok && step->Done_0->Ok_0 is None,
        got is Ok && got->Ok_0 == Some(content),
        failed is Err && failed->Err_0 == error,
{
}

/// The events of a room can be seen by everyone but those who are merely invited,
/// and by these if the history is world readable or can be seen by the invited.
pub proof fn law_who_can_see_events(room: Common, visible: bool)
    requires
        call_ensures(Common::are_events_visible, (&room,), visible),
    ensures
        room.base().room_type == RoomType::Joined ==> visible,
        room.base().room_type == RoomType::Left ==> visible,
        room.base().room_type == RoomType::Invited ==> (visible <==> (
        room.base().history_visibility == HistoryVisibility::WorldReadable
            || room.base().history_visibility == HistoryVisibility::Invited)),
        visible == crate::common::events_visible(room.base()),
{
}

/// A tag is put on and taken off under its own name, by the user of the client and
/// in the room itself. Without a user that is refused.
pub proof fn law_tags_are_of_the_user_and_the_room<'a, F>(
    room: &'a Common,
    tag: TagName,
    tag_info: ruma::events::tag::TagInfo,
    set: Result<CreateTagRequest<'a>, HttpError<F>>,
    removed: Result<DeleteTagRequest<'a>, HttpError<F>>,
)
    requires
        call_ensures(Common::set_tag::<F>, (room, tag, tag_info), set),
        call_ensures(Common::remove_tag::<F>, (room, tag), removed),
    ensures
        room.spec_client().user_id is None ==> {
            &&& set is Err && set->Err_0 is AuthenticationRequired
            &&& removed is Err && removed->Err_0 is AuthenticationRequired
        },
        room.spec_client().user_id is Some ==> {
            let user_id = room.spec_client().user_id->Some_0@;
            &&& set is Ok && removed is Ok
            &&& set->Ok_0.user_id@ == user_id && removed->Ok_0.user_id@ == user_id
            &&& set->Ok_0.room_id@ == room.base().room_id@
            &&& removed->Ok_0.room_id@ == room.base().room_id@
            &&& set->Ok_0.tag@ == removed->Ok_0.tag@
            &&& set->Ok_0.tag_info == tag_info
            &&& tag is Favorite ==> set->Ok_0.tag@ == "m.favourite"@
            &&& tag is LowPriority ==> set->Ok_0.tag@ == "m.lowpriority"@
            &&& tag is ServerNotice ==> set->Ok_0.tag@ == "m.server_notice"@
            &&& tag is Custom ==> set->Ok_0.tag@ == tag->Custom_0@
            &&& tag matches TagName::User(name) ==> forall|text: &str| #[trigger]
                call_ensures(UserTagName::as_str, (&name,), text) ==> set->Ok_0.tag@ == text@
        },
{
}

/// A user can make up the tags whose names start with `u.`, and no others, and they
/// keep their names.
pub proof fn law_made_up_tags_keep_their_names(
    name: &str,
    made: Result<UserTagName, crate::tag::InvalidUserTagName>,
    text: &str,
)
    requires
        call_ensures(UserTagName::new, (name,), made),
        made is Ok ==> call_ensures(UserTagName::as_str, (&made->Ok_0,), text),
    ensures
        made is Ok <==> name@.len() >= 2 && name@[0] == 'u' && name@[1] == '.',
        made is Ok ==> text@ == name@,
{
}

/// Whether a call for the members `selection` of `room` starts as it should. It
/// fetches them first if the member list is not synchronized, unless the events of
/// the room cannot be seen; it has a lock of its own for that, `mutex`, unless a
/// request is under way, which it waits for. In the end it reads those members of
/// the room.
pub open spec fn starts_as_it_should<L, P>(
    room: Common,
    before: Map<Seq<char>, Arc<L>>,
    mutex: Arc<L>,
    selection: MemberSelection,
    after: Map<Seq<char>, Arc<L>>,
    call: MembersCall<L, P>,
) -> bool {
    let base = room.base();
    let seen = !(base.room_type is Invited) || base.history_visibility is WorldReadable
        || base.history_visibility is Invited;
    match call {
        MembersCall::Request { request, query } => {
            &&& seen && !base.members_synced
            &&& query.room_id == base.room_id && query.selection == selection
            &&& match request {
                MembersRequest::Wait { lock } => {
                    &&& before.contains_key(base.room_id@)
                    &&& lock == before[base.room_id@]
                    &&& after == before
                },
                MembersRequest::Lock { room_id, lock } => {
                    &&& !before.contains_key(base.room_id@)
                    &&& room_id == base.room_id
                    &&& lock == mutex
                    &&& after == before.insert(base.room_id@, mutex)
                },
                _ => false,
            }
        },
        MembersCall::Load { query } => {
            &&& !seen || base.members_synced
            &&& query.room_id == base.room_id && query.selection == selection
            &&& after == before
        },
    }
}

/// The active members, the joined ones, all of them and a single one are asked for
/// as such, whatever the state of the room is, and are fetched where that is needed.
pub proof fn law_members_are_asked_for_as_such<L, P>(
    room: Common,
    mutex: Arc<L>,
    user_id: String,
)
    ensures
        forall|locks: &mut MembersRequestLocks<L>, call: MembersCall<L, P>| #[trigger]
            call_ensures(Common::active_members::<L, P>, (&room, locks, mutex), call) ==> starts_as_it_should(
                room,
                locks@,
                mutex,
                MemberSelection::Active,
                final(locks)@,
                call,
            ),
        forall|locks: &mut MembersRequestLocks<L>, call: MembersCall<L, P>| #[trigger]
            call_ensures(Common::joined_members::<L, P>, (&room, locks, mutex), call) ==> starts_as_it_should(
                room,
                locks@,
                mutex,
                MemberSelection::Joined,
                final(locks)@,
                call,
            ),
        forall|locks: &mut MembersRequestLocks<L>, call: MembersCall<L, P>| #[trigger]
            call_ensures(Common::members::<L, P>, (&room, locks, mutex), call) ==> starts_as_it_should(
                room,
                locks@,
                mutex,
                MemberSelection::All,
                final(locks)@,
                call,
            ),
        forall|locks: &mut MembersRequestLocks<L>, call: MembersCall<L, P>| #[trigger]
            call_ensures(Common::get_member::<L, P>, (&room, user_id, locks, mutex), call) ==> starts_as_it_should(
                room,
                locks@,
                mutex,
                MemberSelection::User(user_id),
                final(locks)@,
                call,
            ),
{
}

/// Without a request the active members, the joined ones, all of them and a single
/// one are read as such, in the room itself.
pub proof fn law_members_are_read_as_such(
    room: Common,
    user_id: String,
    active: MembersQuery,
    joined: MembersQuery,
    all: MembersQuery,
    one: MembersQuery,
)
    requires
        call_ensures(Common::active_members_no_sync, (&room,), active),
        call_ensures(Common::joined_members_no_sync, (&room,), joined),
        call_ensures(Common::members_no_sync, (&room,), all),
        call_ensures(Common::get_member_no_sync, (&room, user_id), one),
    ensures
        active.room_id == room.base().room_id && active.selection == MemberSelection::Active,
        joined.room_id == room.base().room_id && joined.selection == MemberSelection::Joined,
        all.room_id == room.base().room_id && all.selection == MemberSelection::All,
        one.room_id == room.base().room_id && one.selection == MemberSelection::User(user_id),
{
}

/// Right answers to the queries for members are those users that the docs of the
/// methods name: for all members everyone whom the store knows, for the active ones
/// those who are invited or have joined, for the joined ones those who have joined,
/// and for a single one that user, if the store knows them.
pub proof fn law_right_answers_are_complete(
    room: Common,
    stored: Map<Seq<char>, Membership>,
    user_id: String,
    user_ids: Seq<Seq<char>>,
    active: MembersQuery,
    joined: MembersQuery,
    all: MembersQuery,
    one: MembersQuery,
)
    requires
        call_ensures(Common::active_members_no_sync, (&room,), active),
        call_ensures(Common::joined_members_no_sync, (&room,), joined),
        call_ensures(Common::members_no_sync, (&room,), all),
        call_ensures(Common::get_member_no_sync, (&room, user_id), one),
    ensures
        all.is_answered(stored, user_ids) ==> (forall|id: Seq<char>| #[trigger]
            user_ids.contains(id) <==> stored.contains_key(id)),
        active.is_answered(stored, user_ids) ==> (forall|id: Seq<char>| #[trigger]
            user_ids.contains(id) <==> stored.contains_key(id) && (stored[id]
                == Membership::Invited || stored[id] == Membership::Joined)),
        joined.is_answered(stored, user_ids) ==> (forall|id: Seq<char>| #[trigger]
            user_ids.contains(id) <==> stored.contains_key(id) && stored[id]
                == Membership::Joined),
        one.is_answered(stored, user_ids) ==> (forall|id: Seq<char>| #[trigger]
            user_ids.contains(id) <==> stored.contains_key(id) && id == user_id@),
{
}

/// A call for members keeps what it asks for through everything that it waits for:
/// what it reads in the end is what it was started with.
pub proof fn law_call_keeps_what_it_asks_for<L, P, R, F>(call: MembersCall<L, P>)
    requires
        call is Request,
    ensures
        forall|next: MembersCall<L, P>| #[trigger]
            call_ensures(MembersCall::<L, P>::locked, (call,), next) ==> match next {
                MembersCall::Request { query, .. } => query == call->Request_query,
                MembersCall::Load { query } => query == call->Request_query,
            },
        forall|
            locks: &mut MembersRequestLocks<L>,
            response: Result<P, HttpError<F>>,
            next: MembersCall<L, P>,
        | #[trigger]
            call_ensures(
                MembersCall::<L, P>::sent::<F>,
                (call, locks, response),
                Ok::<MembersCall<L, P>, RoomError<F>>(next),
            ) && call->request is Send ==> next is Request && next->Request_query
                == call->Request_query,
        forall|
            locks: &mut MembersRequestLocks<L>,
            members: Result<R, F>,
            next: MembersCall<L, P>,
        | #[trigger]
            call_ensures(
                MembersCall::<L, P>::received::<R, F>,
                (call, locks, members),
                Ok::<MembersCall<L, P>, RoomError<F>>(next),
            ) && call->request is Receive ==> next is Load && next->Load_query
                == call->Request_query,
{
}

/// A call that has the lock for its request sends it to the server for its room,
/// hands on the very response that came, and reads the store when that was taken in.
/// A call that waited for another request reads the store at once. What fails ends
/// the call with that failure.
pub proof fn law_call_fetches_before_it_reads<L, P, R, F>(
    call: MembersCall<L, P>,
    response: P,
    error: HttpError<F>,
    members: R,
    failure: F,
)
    requires
        call is Request,
    ensures
        forall|next: MembersCall<L, P>| #[trigger]
            call_ensures(MembersCall::<L, P>::locked, (call,), next) ==> match call->request {
                MembersRequest::Wait { .. } => next is Load,
                MembersRequest::Lock { room_id, .. } => next is Request && next->request is Send
                    && next->request->Send_request.room_id == room_id,
                _ => true,
            },
        forall|locks: &mut MembersRequestLocks<L>, next: Result<MembersCall<L, P>, RoomError<F>>|
         #[trigger]
            call_ensures(MembersCall::<L, P>::sent::<F>, (call, locks, Ok(response)), next)
                && call->request is Send && locks.wf() ==> {
                &&& next is Ok && next->Ok_0 is Request && next->Ok_0->request is Receive
                &&& next->Ok_0->request->Receive_room_id == call->request->Send_request.room_id
                &&& next->Ok_0->request->Receive_response == response
                &&& final(locks)@ == locks@
            },
        forall|locks: &mut MembersRequestLocks<L>, next: Result<MembersCall<L, P>, RoomError<F>>|
         #[trigger]
            call_ensures(MembersCall::<L, P>::sent::<F>, (call, locks, Err(error)), next)
                && call->request is Send && locks.wf() ==> {
                &&& next is Err && next->Err_0 == RoomError::Http(error)
                &&& final(locks)@ == locks@.remove(call->request->Send_request.room_id@)
            },
        forall|locks: &mut MembersRequestLocks<L>, next: Result<MembersCall<L, P>, RoomError<F>>|
         #[trigger]
            call_ensures(MembersCall::<L, P>::received::<R, F>, (call, locks, Ok(members)), next)
                && call->request is Receive && locks.wf() ==> {
                &&& next is Ok && next->Ok_0 is Load
                &&& final(locks)@ == locks@.remove(call->request->Receive_room_id@)
            },
        forall|locks: &mut MembersRequestLocks<L>, next: Result<MembersCall<L, P>, RoomError<F>>|
         #[trigger]
            call_ensures(MembersCall::<L, P>::received::<R, F>, (call, locks, Err(failure)), next)
                && call->request is Receive && locks.wf() ==> {
                &&& next is Err && next->Err_0 == RoomError::Base(failure)
                &&& final(locks)@ == locks@.remove(call->request->Receive_room_id@)
            },
        forall|locks: &mut MembersRequestLocks<L>, over: ()| #[trigger]
            call_ensures(MembersCall::<L, P>::abandoned, (call, locks), over) && locks.wf()
                ==> match call->request {
                MembersRequest::Wait { .. } => final(locks)@ == locks@,
                MembersRequest::Lock { room_id, .. } => final(locks)@ == locks@.remove(room_id@),
                MembersRequest::Send { request } => final(locks)@ == locks@.remove(
                    request.room_id@,
                ),
                MembersRequest::Receive { room_id, .. } => final(locks)@ == locks@.remove(room_id@),
            },
{
}

/// A call for members that is carried on to its end reads what the method of the
/// same name that does no requests reads.
pub proof fn law_fetching_changes_nothing_in_what_is_read<L, P, R, F>(
    room: Common,
    mutex: Arc<L>,
    user_id: String,
    active: MembersQuery,
    joined: MembersQuery,
    all: MembersQuery,
    one: MembersQuery,
    started: MembersCall<L, P>,
    sending: MembersCall<L, P>,
    receiving: MembersCall<L, P>,
    reading: MembersCall<L, P>,
)
    requires
        call_ensures(Common::active_members_no_sync, (&room,), active),
        call_ensures(Common::joined_members_no_sync, (&room,), joined),
        call_ensures(Common::members_no_sync, (&room,), all),
        call_ensures(Common::get_member_no_sync, (&room, user_id), one),
        started is Request && started->request is Lock,
        call_ensures(MembersCall::<L, P>::locked, (started,), sending),
        exists|locks: &mut MembersRequestLocks<L>, response: P| #[trigger]
            call_ensures(
                MembersCall::<L, P>::sent::<F>,
                (sending, locks, Ok(response)),
                Ok::<MembersCall<L, P>, RoomError<F>>(receiving),
            ),
        exists|locks: &mut MembersRequestLocks<L>, members: R| #[trigger]
            call_ensures(
                MembersCall::<L, P>::received::<R, F>,
                (receiving, locks, Ok(members)),
                Ok::<MembersCall<L, P>, RoomError<F>>(reading),
            ),
    ensures
        reading is Load,
        (exists|locks: &mut MembersRequestLocks<L>| #[trigger]
            call_ensures(Common::active_members::<L, P>, (&room, locks, mutex), started))
            ==> reading->Load_query == active,
        (exists|locks: &mut MembersRequestLocks<L>| #[trigger]
            call_ensures(Common::joined_members::<L, P>, (&room, locks, mutex), started))
            ==> reading->Load_query == joined,
        (exists|locks: &mut MembersRequestLocks<L>| #[trigger]
            call_ensures(Common::members::<L, P>, (&room, locks, mutex), started))
            ==> reading->Load_query == all,
        (exists|locks: &mut MembersRequestLocks<L>| #[trigger]
            call_ensures(Common::get_member::<L, P>, (&room, user_id, locks, mutex), started))
            ==> reading->Load_query == one,
{
}

/// Syncing the member list waits for a request that is under way, with its lock, and
/// otherwise starts one with a lock of its own, for the room itself. The members are
/// ensured in the same way where they are missing and can be seen, and not otherwise.
pub proof fn law_members_are_requested_once<L, P>(room: Common, mutex: Arc<L>)
    ensures
        forall|locks: &mut MembersRequestLocks<L>, request: MembersRequest<L, P>| #[trigger]
            call_ensures(Common::sync_members::<L, P>, (&room, locks, mutex), request)
                ==> asks_once(room.base().room_id, locks@, mutex, final(locks)@, request),
        forall|locks: &mut MembersRequestLocks<L>, request: MembersRequest<L, P>| #[trigger]
            call_ensures(Common::request_members::<L, P>, (&room, locks, mutex), request)
                ==> asks_once(room.base().room_id, locks@, mutex, final(locks)@, request),
        forall|room_id: String, locks: &mut MembersRequestLocks<L>, request: MembersRequest<L, P>|
         #[trigger]
            call_ensures(MembersRequest::<L, P>::start, (&room_id, locks, mutex), request)
                ==> asks_once(room_id, locks@, mutex, final(locks)@, request),
        forall|locks: &mut MembersRequestLocks<L>, request: Option<MembersRequest<L, P>>| #[trigger]
            call_ensures(Common::ensure_members::<L, P>, (&room, locks, mutex), request) ==> {
                let base = room.base();
                let seen = !(base.room_type is Invited) || base.history_visibility is WorldReadable
                    || base.history_visibility is Invited;
                &&& request is Some <==> seen && !base.members_synced
                &&& request is Some ==> asks_once(
                    base.room_id,
                    locks@,
                    mutex,
                    final(locks)@,
                    request->Some_0,
                )
                &&& request is None ==> final(locks)@ == locks@
            },
{
}

/// Whether `request` asks for the members of the room `room_id` where they are not
/// asked for yet, and waits where they are.
pub open spec fn asks_once<L, P>(
    room_id: String,
    before: Map<Seq<char>, Arc<L>>,
    mutex: Arc<L>,
    after: Map<Seq<char>, Arc<L>>,
    request: MembersRequest<L, P>,
) -> bool {
    if before.contains_key(room_id@) {
        &&& request is Wait
        &&& request->Wait_lock == before[room_id@]
        &&& after == before
    } else {
        &&& request is Lock
        &&& request->Lock_room_id == room_id
        &&& request->Lock_lock == mutex
        &&& after == before.insert(room_id@, mutex)
    }
}

/// A request for members sends one request for its room and hands on the very
/// response that came. Its result is what was made of that response; one that waited
/// for another has none. What fails ends it with that failure, and however it ends,
/// its lock is gone and the locks of other rooms are as they were.
pub proof fn law_request_gives_its_response<L, P, R, F>(
    request: MembersRequest<L, P>,
    response: P,
    error: HttpError<F>,
    members: R,
    failure: F,
)
    ensures
        forall|step: Step<MembersRequest<L, P>, Result<Option<R>, RoomError<F>>>| #[trigger]
            call_ensures(MembersRequest::<L, P>::locked::<R, F>, (request,), step)
                ==> match request {
                MembersRequest::Wait { .. } => step is Done && step->Done_0 == Ok::<
                    Option<R>,
                    RoomError<F>,
                >(None),
                MembersRequest::Lock { room_id, .. } => step is Perform && step->Perform_0 is Send
                    && step->Perform_0->Send_request.room_id == room_id,
                _ => true,
            },
        forall|
            locks: &mut MembersRequestLocks<L>,
            step: Step<MembersRequest<L, P>, Result<Option<R>, RoomError<F>>>,
        | #[trigger]
            call_ensures(
                MembersRequest::<L, P>::sent::<R, F>,
                (request, locks, Ok(response)),
                step,
            ) && request is Send ==> {
                &&& step is Perform && step->Perform_0 is Receive
                &&& step->Perform_0->Receive_room_id == request->Send_request.room_id
                &&& step->Perform_0->Receive_response == response
                &&& final(locks)@ == locks@
            },
        forall|
            locks: &mut MembersRequestLocks<L>,
            step: Step<MembersRequest<L, P>, Result<Option<R>, RoomError<F>>>,
        | #[trigger]
            call_ensures(
                MembersRequest::<L, P>::sent::<R, F>,
                (request, locks, Err(error)),
                step,
            ) && request is Send ==> {
                &&& step is Done && step->Done_0 == Err::<Option<R>, RoomError<F>>(
                    RoomError::Http(error),
                )
                &&& final(locks)@ == locks@.remove(request->Send_request.room_id@)
            },
        forall|locks: &mut MembersRequestLocks<L>, result: Result<Option<R>, RoomError<F>>|
         #[trigger]
            call_ensures(
                MembersRequest::<L, P>::received::<R, F>,
                (request, locks, Ok(members)),
                result,
            ) && request is Receive ==> {
                &&& result == Ok::<Option<R>, RoomError<F>>(Some(members))
                &&& final(locks)@ == locks@.remove(request->Receive_room_id@)
            },
        forall|locks: &mut MembersRequestLocks<L>, result: Result<Option<R>, RoomError<F>>|
         #[trigger]
            call_ensures(
                MembersRequest::<L, P>::received::<R, F>,
                (request, locks, Err(failure)),
                result,
            ) && request is Receive ==> {
                &&& result == Err::<Option<R>, RoomError<F>>(RoomError::Base(failure))
                &&& final(locks)@ == locks@.remove(request->Receive_room_id@)
            },
        forall|locks: &mut MembersRequestLocks<L>, over: ()| #[trigger]
            call_ensures(MembersRequest::<L, P>::abandoned, (request, locks), over)
                ==> match request {
                MembersRequest::Wait { .. } => final(locks)@ == locks@,
                MembersRequest::Lock { room_id, .. } => final(locks)@ == locks@.remove(room_id@),
                MembersRequest::Send { request } => final(locks)@ == locks@.remove(
                    request.room_id@,
                ),
                MembersRequest::Receive { room_id, .. } => final(locks)@ == locks@.remove(room_id@),
            },
{
}

/// After a request for the members of a room has failed the next call fetches them
/// again.
pub proof fn law_members_are_fetched_again_after_a_failure<L, P, R, F>(
    room: Common,
    mutex: Arc<L>,
    other: Arc<L>,
    error: HttpError<F>,
    first: MembersRequest<L, P>,
    sending: MembersRequest<L, P>,
)
    requires
        first is Lock,
        call_ensures(
            MembersRequest::<L, P>::locked::<R, F>,
            (first,),
            Step::<MembersRequest<L, P>, Result<Option<R>, RoomError<F>>>::Perform(sending),
        ),
    ensures
        forall|
            start: &mut MembersRequestLocks<L>,
            fail: &mut MembersRequestLocks<L>,
            again: &mut MembersRequestLocks<L>,
            step: Step<MembersRequest<L, P>, Result<Option<R>, RoomError<F>>>,
            second: MembersRequest<L, P>,
        |
            #![trigger call_ensures(Common::sync_members::<L, P>, (&room, start, mutex), first), call_ensures(MembersRequest::<L, P>::sent::<R, F>, (sending, fail, Err(error)), step), call_ensures(Common::sync_members::<L, P>, (&room, again, other), second)]
            call_ensures(Common::sync_members::<L, P>, (&room, start, mutex), first)
                && call_ensures(
                MembersRequest::<L, P>::sent::<R, F>,
                (sending, fail, Err(error)),
                step,
            ) && call_ensures(Common::sync_members::<L, P>, (&room, again, other), second)
                && again@ == final(fail)@ ==> {
                &&& second is Lock
                &&& second->Lock_room_id == room.base().room_id
                &&& second->Lock_lock == other
            },
{
}

/// The members that the store holds come out in its order, none more and none less,
/// each with the client of the room.
pub proof fn law_stored_members_come_out<M, F>(
    room: Common,
    stored: Vec<M>,
    inner: M,
    failure: F,
    all: Result<Vec<RoomMember<M>>, RoomError<F>>,
    none: Result<Vec<RoomMember<M>>, RoomError<F>>,
    one: Result<Option<RoomMember<M>>, RoomError<F>>,
    unknown: Result<Option<RoomMember<M>>, RoomError<F>>,
    failed: Result<Option<RoomMember<M>>, RoomError<F>>,
)
    requires
        call_ensures(Common::members_loaded::<M, F>, (&room, Ok(stored)), all),
        call_ensures(Common::members_loaded::<M, F>, (&room, Err(failure)), none),
        call_ensures(Common::member_loaded::<M, F>, (&room, Ok(Some(inner))), one),
        call_ensures(Common::member_loaded::<M, F>, (&room, Ok(None)), unknown),
        call_ensures(Common::member_loaded::<M, F>, (&room, Err(failure)), failed),
    ensures
        all is Ok,
        all->Ok_0@.len() == stored@.len(),
        forall|i: int|
            0 <= i < stored@.len() ==> (#[trigger] all->Ok_0@[i]).inner == stored@[i]
                && all->Ok_0@[i].client == room.spec_client(),
        none is Err && none->Err_0 == RoomError::StateStore(failure),
        one is Ok && one->Ok_0 is Some,
        one->Ok_0->Some_0.inner == inner && one->Ok_0->Some_0.client == room.spec_client(),
        unknown is Ok && unknown->Ok_0 is None,
        failed is Err && failed->Err_0 == RoomError::StateStore(failure),
{
}

/// The locks give back what was put in, for each room on its own.
pub proof fn law_locks_are_kept_for_each_room<L>(
    room_id: String,
    other: String,
    lock: Arc<L>,
    empty: MembersRequestLocks<L>,
    none: Option<Arc<L>>,
)
    requires
        call_ensures(MembersRequestLocks::<L>::new, (), empty),
        call_ensures(MembersRequestLocks::<L>::get, (&empty, &room_id), none),
    ensures
        none is None,
        forall|locks: &mut MembersRequestLocks<L>, put: (), found: Option<Arc<L>>|
            #![trigger call_ensures(MembersRequestLocks::<L>::insert, (locks, room_id, lock), put), call_ensures(MembersRequestLocks::<L>::get, (&*final(locks), &room_id), found)]
            call_ensures(MembersRequestLocks::<L>::insert, (locks, room_id, lock), put)
                && call_ensures(MembersRequestLocks::<L>::get, (&*final(locks), &room_id), found)
                ==> found == Some(lock),
        forall|locks: &mut MembersRequestLocks<L>, gone: (), found: Option<Arc<L>>|
            #![trigger call_ensures(MembersRequestLocks::<L>::remove, (locks, &room_id), gone), call_ensures(MembersRequestLocks::<L>::get, (&*final(locks), &room_id), found)]
            call_ensures(MembersRequestLocks::<L>::remove, (locks, &room_id), gone)
                && call_ensures(MembersRequestLocks::<L>::get, (&*final(locks), &room_id), found)
                ==> found is None,
        other@ != room_id@ ==> forall|
            locks: &mut MembersRequestLocks<L>,
            put: (),
            before: Option<Arc<L>>,
            after: Option<Arc<L>>,
        |
            #![trigger call_ensures(MembersRequestLocks::<L>::insert, (locks, room_id, lock), put), call_ensures(MembersRequestLocks::<L>::get, (&*locks, &other), before), call_ensures(MembersRequestLocks::<L>::get, (&*final(locks), &other), after)]
            call_ensures(MembersRequestLocks::<L>::insert, (locks, room_id, lock), put)
                && call_ensures(MembersRequestLocks::<L>::get, (&*locks, &other), before)
                && call_ensures(MembersRequestLocks::<L>::get, (&*final(locks), &other), after)
                ==> before == after,
        other@ != room_id@ ==> forall|
            locks: &mut MembersRequestLocks<L>,
            gone: (),
            before: Option<Arc<L>>,
            after: Option<Arc<L>>,
        |
            #![trigger call_ensures(MembersRequestLocks::<L>::remove, (locks, &room_id), gone), call_ensures(MembersRequestLocks::<L>::get, (&*locks, &other), before), call_ensures(MembersRequestLocks::<L>::get, (&*final(locks), &other), after)]
            call_ensures(MembersRequestLocks::<L>::remove, (locks, &room_id), gone)
                && call_ensures(MembersRequestLocks::<L>::get, (&*locks, &other), before)
                && call_ensures(MembersRequestLocks::<L>::get, (&*final(locks), &other), after)
                ==> before == after,
{
}

/// Whether identifiers fit is told as it is.
pub proof fn law_identifiers_are_checked(json: &str, fits: bool)
    requires
        call_ensures(crate::identifiers::check_identifiers, (json,), fits),
    ensures
        fits <==> crate::identifiers::identifiers_fit(json@),
{
}

/// An event is refused for an identifier that is too long only if its text has a
/// string of more than 256 bytes.
pub proof fn law_event_without_long_strings_is_not_refused<I, F>(
    room: Common,
    event: Raw,
    received: Step<Raw, Result<RoomEvent<I>, RoomError<F>>>,
)
    requires
        call_ensures(Common::event_received::<I, F>, (&room, Ok(event)), received),
        received is Done,
        received->Done_0 is Err,
        received->Done_0->Err_0 is OversizedIdentifier,
    ensures
        ({
            let text = vstd::utf8::encode_utf8(event.json@);
            exists|at: int|
                0 <= at < text.len() && #[trigger] text[at] == 0x22 && crate::text::string_end(
                    text,
                    at + 1,
                ) - (at + 1) > 256
        }),
{
    let text = vstd::utf8::encode_utf8(event.json@);
    if !(exists|at: int|
        0 <= at < text.len() && #[trigger] text[at] == 0x22 && crate::text::string_end(
            text,
            at + 1,
        ) - (at + 1) > 256) {
        crate::identifiers::law_events_with_short_strings_fit(event.json@);
    }
}

} // verus!
