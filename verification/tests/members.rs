use std::sync::Arc;

use matrix_room::{
    BaseRoom, Client, Common, Device, DevicesCall, HistoryVisibility, HttpError, MemberSelection,
    MembersCall, MembersRequest, MembersRequestLocks, RoomError, RoomType, Step,
};

fn base(room_type: RoomType, history_visibility: HistoryVisibility, synced: bool) -> BaseRoom {
    BaseRoom {
        room_id: "!room:example.org".to_owned(),
        room_type,
        history_visibility,
        avatar_url: None,
        members_synced: synced,
    }
}

fn common(room: BaseRoom) -> Common {
    Common::new(
        Client { user_id: Some("@alice:example.org".to_owned()), encryption: true },
        room,
    )
}

fn unsynced() -> Common {
    common(base(RoomType::Joined, HistoryVisibility::Shared, false))
}

fn other_room() -> Common {
    let mut room = base(RoomType::Joined, HistoryVisibility::Shared, false);
    room.room_id = "!other:example.org".to_owned();
    common(room)
}

type Request = MembersRequest<u32, &'static str>;
type Outcome = Result<Option<u8>, RoomError<&'static str>>;

fn next(step: Step<Request, Outcome>) -> Request {
    match step {
        Step::Perform(request) => request,
        Step::Done(_) => panic!("the request is over"),
    }
}

#[test]
fn members_are_requested_and_the_lock_is_given_up() {
    let mut locks: MembersRequestLocks<u32> = MembersRequestLocks::new();
    let room = unsynced();
    let request: Request = room.sync_members(&mut locks, Arc::new(1));
    assert!(matches!(&request, MembersRequest::Lock { room_id, lock }
        if room_id == "!room:example.org" && **lock == 1));
    let request = next(request.locked::<u8, &'static str>());
    assert!(matches!(&request, MembersRequest::Send { request }
        if request.room_id == "!room:example.org"));
    let request = next(request.sent::<u8, &'static str>(&mut locks, Ok("members")));
    assert!(matches!(&request, MembersRequest::Receive { room_id, response }
        if room_id == "!room:example.org" && *response == "members"));
    assert!(locks.get(&"!room:example.org".to_owned()).is_some());
    let outcome: Outcome = request.received(&mut locks, Ok(7));
    assert!(matches!(outcome, Ok(Some(7))));
    assert!(locks.get(&"!room:example.org".to_owned()).is_none());
}

#[test]
fn second_request_waits_and_gives_none() {
    let mut locks: MembersRequestLocks<u32> = MembersRequestLocks::new();
    let room = unsynced();
    let first: Request = room.sync_members(&mut locks, Arc::new(1));
    assert!(matches!(first, MembersRequest::Lock { .. }));
    let second: Request = room.sync_members(&mut locks, Arc::new(2));
    assert!(matches!(&second, MembersRequest::Wait { lock } if **lock == 1));
    let step: Step<Request, Outcome> = second.locked();
    assert!(matches!(step, Step::Done(Ok(None))));
    let elsewhere: Request = other_room().sync_members(&mut locks, Arc::new(3));
    assert!(matches!(&elsewhere, MembersRequest::Lock { lock, .. } if **lock == 3));
}

#[test]
fn failed_request_gives_up_its_lock() {
    let mut locks: MembersRequestLocks<u32> = MembersRequestLocks::new();
    let room = unsynced();
    let elsewhere: Request = other_room().request_members(&mut locks, Arc::new(9));
    let request: Request = room.request_members(&mut locks, Arc::new(1));
    let request = next(request.locked::<u8, &'static str>());
    let step: Step<Request, Outcome> = request.sent(&mut locks, Err(HttpError::Request("down")));
    assert!(matches!(step, Step::Done(Err(RoomError::Http(HttpError::Request("down"))))));
    assert!(locks.get(&"!room:example.org".to_owned()).is_none());
    assert!(locks.get(&"!other:example.org".to_owned()).is_some());
    assert!(matches!(elsewhere, MembersRequest::Lock { .. }));
}

#[test]
fn response_that_is_not_taken_in_gives_up_the_lock() {
    let mut locks: MembersRequestLocks<u32> = MembersRequestLocks::new();
    let room = unsynced();
    let request: Request = room.request_members(&mut locks, Arc::new(1));
    let request = next(request.locked::<u8, &'static str>());
    let request = next(request.sent::<u8, &'static str>(&mut locks, Ok("members")));
    let outcome: Outcome = request.received(&mut locks, Err("full"));
    assert!(matches!(outcome, Err(RoomError::Base("full"))));
    assert!(locks.get(&"!room:example.org".to_owned()).is_none());
}

#[test]
fn members_are_fetched_again_after_a_failed_request() {
    let mut locks: MembersRequestLocks<u32> = MembersRequestLocks::new();
    let room = unsynced();
    let request: Request = room.sync_members(&mut locks, Arc::new(1));
    let request = next(request.locked::<u8, &'static str>());
    let step: Step<Request, Outcome> = request.sent(&mut locks, Err(HttpError::Request("down")));
    assert!(matches!(step, Step::Done(Err(_))));
    let request: Request = room.sync_members(&mut locks, Arc::new(2));
    assert!(matches!(&request, MembersRequest::Lock { lock, .. } if **lock == 2));
    let request = next(request.locked::<u8, &'static str>());
    assert!(matches!(&request, MembersRequest::Send { request }
        if request.room_id == "!room:example.org"));
    let request = next(request.sent::<u8, &'static str>(&mut locks, Ok("members")));
    let outcome: Outcome = request.received(&mut locks, Ok(7));
    assert!(matches!(outcome, Ok(Some(7))));
}

#[test]
fn abandoned_request_gives_up_its_lock_at_every_stage() {
    let room = unsynced();
    for stage in 0..3 {
        let mut locks: MembersRequestLocks<u32> = MembersRequestLocks::new();
        let mut request: Request = room.sync_members(&mut locks, Arc::new(1));
        if stage > 0 {
            request = next(request.locked::<u8, &'static str>());
        }
        if stage > 1 {
            request = next(request.sent::<u8, &'static str>(&mut locks, Ok("members")));
        }
        request.abandoned(&mut locks);
        let later: Request = room.sync_members(&mut locks, Arc::new(2));
        assert!(matches!(&later, MembersRequest::Lock { lock, .. } if **lock == 2));
    }
}

#[test]
fn who_waits_and_gives_up_leaves_the_lock_of_the_request() {
    let mut locks: MembersRequestLocks<u32> = MembersRequestLocks::new();
    let room = unsynced();
    let _first: Request = room.sync_members(&mut locks, Arc::new(1));
    let second: Request = room.sync_members(&mut locks, Arc::new(2));
    second.abandoned(&mut locks);
    let third: Request = room.sync_members(&mut locks, Arc::new(3));
    assert!(matches!(&third, MembersRequest::Wait { lock } if **lock == 1));
}

#[test]
fn abandoned_call_gives_up_the_lock_of_its_request() {
    let mut locks: MembersRequestLocks<u32> = MembersRequestLocks::new();
    let call: Call = unsynced().members(&mut locks, Arc::new(1));
    call.locked().abandoned(&mut locks);
    assert!(locks.get(&"!room:example.org".to_owned()).is_none());
    let _fetching: Call = unsynced().members(&mut locks, Arc::new(2));
    let synced = common(base(RoomType::Joined, HistoryVisibility::Shared, true));
    let reading: Call = synced.members(&mut locks, Arc::new(3));
    reading.abandoned(&mut locks);
    assert_eq!(locks.get(&"!room:example.org".to_owned()).as_deref(), Some(&2));
}

#[test]
fn locks_hold_one_lock_for_each_room() {
    let mut locks: MembersRequestLocks<u32> = MembersRequestLocks::new();
    for (room, lock) in [("a", 1), ("b", 2), ("c", 3), ("a", 4)] {
        locks.insert(room.to_owned(), Arc::new(lock));
    }
    assert_eq!(locks.get(&"a".to_owned()).as_deref(), Some(&4));
    assert_eq!(locks.get(&"b".to_owned()).as_deref(), Some(&2));
    locks.remove(&"b".to_owned());
    locks.remove(&"none".to_owned());
    assert_eq!(locks.get(&"a".to_owned()).as_deref(), Some(&4));
    assert!(locks.get(&"b".to_owned()).is_none());
    assert_eq!(locks.get(&"c".to_owned()).as_deref(), Some(&3));
}

#[test]
fn lock_is_shared_with_who_waits() {
    let mut locks: MembersRequestLocks<u32> = MembersRequestLocks::new();
    let mutex = Arc::new(5);
    let request: Request = unsynced().sync_members(&mut locks, Arc::clone(&mutex));
    let waiting: Request = unsynced().sync_members(&mut locks, Arc::new(6));
    match (&request, &waiting) {
        (MembersRequest::Lock { lock, .. }, MembersRequest::Wait { lock: other }) => {
            assert!(Arc::ptr_eq(lock, other));
            assert!(Arc::ptr_eq(lock, &mutex));
        }
        _ => panic!("no lock"),
    }
}

#[test]
fn events_are_visible_to_all_but_some_who_are_invited() {
    for (visibility, visible) in [
        (HistoryVisibility::Invited, true),
        (HistoryVisibility::WorldReadable, true),
        (HistoryVisibility::Joined, false),
        (HistoryVisibility::Shared, false),
        (HistoryVisibility::Custom("invited".to_owned()), false),
    ] {
        for room_type in [RoomType::Joined, RoomType::Left] {
            assert!(common(base(room_type, visibility.clone(), false)).are_events_visible());
        }
        assert_eq!(
            common(base(RoomType::Invited, visibility, false)).are_events_visible(),
            visible
        );
    }
}

#[test]
fn members_are_ensured_where_they_are_missing_and_can_be_seen() {
    for (room, needed) in [
        (base(RoomType::Joined, HistoryVisibility::Shared, false), true),
        (base(RoomType::Joined, HistoryVisibility::Shared, true), false),
        (base(RoomType::Invited, HistoryVisibility::Invited, false), true),
        (base(RoomType::Invited, HistoryVisibility::Joined, false), false),
        (base(RoomType::Invited, HistoryVisibility::Joined, true), false),
    ] {
        let mut locks: MembersRequestLocks<u32> = MembersRequestLocks::new();
        let request: Option<Request> = common(room).ensure_members(&mut locks, Arc::new(1));
        assert_eq!(request.is_some(), needed);
        assert_eq!(locks.get(&"!room:example.org".to_owned()).is_some(), needed);
    }
}

type Call = MembersCall<u32, &'static str>;

#[test]
fn synced_members_are_read_at_once() {
    let room = common(base(RoomType::Joined, HistoryVisibility::Shared, true));
    let mut locks: MembersRequestLocks<u32> = MembersRequestLocks::new();
    let calls: Vec<Call> = vec![
        room.active_members(&mut locks, Arc::new(1)),
        room.joined_members(&mut locks, Arc::new(2)),
        room.members(&mut locks, Arc::new(3)),
        room.get_member("@bob:example.org".to_owned(), &mut locks, Arc::new(4)),
    ];
    let plain = vec![
        room.active_members_no_sync(),
        room.joined_members_no_sync(),
        room.members_no_sync(),
        room.get_member_no_sync("@bob:example.org".to_owned()),
    ];
    let mut seen: Vec<String> = Vec::new();
    for (call, plain) in calls.iter().zip(plain.iter()) {
        match call {
            MembersCall::Load { query } => {
                assert_eq!(format!("{:?}", query), format!("{:?}", plain));
                assert_eq!(query.room_id, "!room:example.org");
                seen.push(format!("{:?}", query.selection));
            }
            MembersCall::Request { .. } => panic!("a request"),
        }
    }
    assert_eq!(seen, vec!["Active", "Joined", "All", "User(\"@bob:example.org\")"]);
}

#[test]
fn missing_members_are_fetched_before_they_are_read() {
    let mut locks: MembersRequestLocks<u32> = MembersRequestLocks::new();
    let call: Call = unsynced().active_members(&mut locks, Arc::new(1));
    assert!(matches!(&call, MembersCall::Request { request: MembersRequest::Lock { .. }, .. }));
    let call = call.locked();
    assert!(matches!(&call, MembersCall::Request { request: MembersRequest::Send { .. }, .. }));
    let call = call.sent::<&'static str>(&mut locks, Ok("members")).unwrap();
    let call = call.received::<u8, &'static str>(&mut locks, Ok(1)).unwrap();
    assert!(matches!(&call, MembersCall::Load { query }
        if matches!(query.selection, MemberSelection::Active)));
    assert!(locks.get(&"!room:example.org".to_owned()).is_none());
}

#[test]
fn call_waits_for_a_request_under_way_and_then_reads() {
    let mut locks: MembersRequestLocks<u32> = MembersRequestLocks::new();
    let _first: Call = unsynced().members(&mut locks, Arc::new(1));
    let second: Call = unsynced().joined_members(&mut locks, Arc::new(2));
    assert!(matches!(&second, MembersCall::Request { request: MembersRequest::Wait { .. }, .. }));
    assert!(matches!(second.locked(), MembersCall::Load { query }
        if matches!(query.selection, MemberSelection::Joined)));
}

#[test]
fn call_fails_where_its_request_fails() {
    let mut locks: MembersRequestLocks<u32> = MembersRequestLocks::new();
    let call: Call = unsynced().members(&mut locks, Arc::new(1));
    let failed = call.locked().sent(&mut locks, Err(HttpError::Request("down")));
    assert!(matches!(failed, Err(RoomError::Http(HttpError::Request("down")))));
    assert!(locks.get(&"!room:example.org".to_owned()).is_none());
    let call: Call = other_room().members(&mut locks, Arc::new(2));
    let call = call.locked().sent::<&'static str>(&mut locks, Ok("members")).unwrap();
    let failed = call.received::<u8, &'static str>(&mut locks, Err("full"));
    assert!(matches!(failed, Err(RoomError::Base("full"))));
    assert!(locks.get(&"!other:example.org".to_owned()).is_none());
}

#[test]
fn stored_members_get_the_client() {
    let members: Vec<_> = unsynced().members_loaded::<u8, &'static str>(Ok(vec![4, 2, 9])).unwrap();
    let inner: Vec<u8> = members.iter().map(|m| m.inner).collect();
    assert_eq!(inner, vec![4, 2, 9]);
    assert!(members
        .iter()
        .all(|m| m.client.user_id.as_deref() == Some("@alice:example.org") && m.client.encryption));
    assert!(matches!(
        unsynced().members_loaded::<u8, &'static str>(Err("gone")),
        Err(RoomError::StateStore("gone"))
    ));
}

#[test]
fn joined_members_are_active_and_active_members_are_members() {
    let room = unsynced();
    let loaded = |stored: &[u8]| -> Vec<u8> {
        let members = room.members_loaded::<u8, &'static str>(Ok(stored.to_vec())).unwrap();
        members.iter().map(|member| member.inner).collect()
    };
    let joined = loaded(&[4, 2]);
    let active = loaded(&[2, 9, 4]);
    let all = loaded(&[9, 2, 4, 1]);
    assert_eq!(joined.len(), 2);
    assert!(joined.iter().all(|member| active.contains(member)));
    assert!(active.iter().all(|member| all.contains(member)));
    assert!(!active.contains(&1));
}

#[test]
fn stored_member_gets_the_client() {
    let member = unsynced().member_loaded::<u8, &'static str>(Ok(Some(4))).unwrap().unwrap();
    assert_eq!(member.inner, 4);
    assert_eq!(member.client.user_id.as_deref(), Some("@alice:example.org"));
    assert!(unsynced().member_loaded::<u8, &'static str>(Ok(None)).unwrap().is_none());
    assert!(matches!(
        unsynced().member_loaded::<u8, &'static str>(Err("gone")),
        Err(RoomError::StateStore("gone"))
    ));
}

fn device(verified: bool) -> Device {
    Device { device_id: "DEVICE".to_owned(), verified }
}

type Look = Step<DevicesCall, Result<bool, RoomError<&'static str>>>;

fn users(names: &[&str]) -> Result<Vec<String>, &'static str> {
    Ok(names.iter().map(|name| name.to_string()).collect())
}

fn look(step: Look) -> DevicesCall {
    match step {
        Step::Perform(call) => call,
        Step::Done(_) => panic!("the look is over"),
    }
}

#[test]
fn users_are_asked_for_in_the_room() {
    assert_eq!(unsynced().contains_only_verified_devices().room_id, "!room:example.org");
}

#[test]
fn room_without_users_has_only_verified_devices() {
    assert!(matches!(DevicesCall::begin(users(&[])), Step::Done(Ok(true))));
}

#[test]
fn all_devices_of_all_users_are_looked_at() {
    let call = look(DevicesCall::begin(users(&["@a", "@b", "@c"])));
    assert_eq!(call.user_id(), "@a");
    let call = look(call.devices_loaded::<&'static str>(Ok(vec![device(true), device(true)])));
    assert_eq!(call.user_id(), "@b");
    let call = look(call.devices_loaded::<&'static str>(Ok(vec![])));
    assert_eq!(call.user_id(), "@c");
    let end: Look = call.devices_loaded(Ok(vec![device(true)]));
    assert!(matches!(end, Step::Done(Ok(true))));
}

#[test]
fn look_ends_at_a_device_that_is_not_verified() {
    let call = look(DevicesCall::begin(users(&["@a", "@b", "@c"])));
    let call = look(call.devices_loaded::<&'static str>(Ok(vec![device(true)])));
    let end: Look = call.devices_loaded(Ok(vec![device(true), device(false)]));
    assert!(matches!(end, Step::Done(Ok(false))));
}

#[test]
fn failing_stores_end_the_look() {
    let end: Look = DevicesCall::begin(Err("gone"));
    assert!(matches!(end, Step::Done(Err(RoomError::StateStore("gone")))));
    let call = look(DevicesCall::begin(users(&["@a"])));
    let end: Look = call.devices_loaded(Err("locked"));
    assert!(matches!(end, Step::Done(Err(RoomError::CryptoStore("locked")))));
}
