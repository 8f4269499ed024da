use matrix_room::{
    BaseRoom, Client, Common, EventWork, HistoryVisibility, HttpError, Messages, MessagesCall,
    MessagesResponse, Raw, RoomError, RoomEvent, RoomType, Step,
};

const GOOD: &str = "{ \"type\": \"m.room.message\", \"event_id\": \"$one:example.org\", \
    \"room_id\": \"!room:example.org\", \"sender\": \"@alice:example.org\", \
    \"origin_server_ts\": 1432735824653, \"unknown\": true, \
    \"content\": { \"msgtype\": \"m.text\", \"body\": \"hi\" } }";

const OTHER: &str = "{\"type\":\"m.room.message\",\"event_id\":\"$two:example.org\",\
    \"room_id\":\"!room:example.org\",\"sender\":\"@bob:example.org\",\
    \"origin_server_ts\":1432735824654,\"content\":{\"msgtype\":\"m.text\",\"body\":\"ho\"}}";

const NO_SENDER: &str = "{\"type\":\"m.room.message\",\"event_id\":\"$three:example.org\"}";

const NO_JSON: &str = "{\"type\":";

fn common(encryption: bool) -> Common {
    Common::new(
        Client { user_id: None, encryption },
        BaseRoom {
            room_id: "!room:example.org".to_owned(),
            room_type: RoomType::Joined,
            history_visibility: HistoryVisibility::Shared,
            avatar_url: None,
            members_synced: false,
        },
    )
}

fn raw(json: &str) -> Raw {
    Raw { json: json.to_owned() }
}

fn page(chunk: Vec<Raw>) -> MessagesResponse {
    MessagesResponse {
        start: "t1".to_owned(),
        end: Some("t2".to_owned()),
        chunk,
        state: vec![raw("{\"state\":1}")],
    }
}

fn received(encryption: bool, chunk: Vec<Raw>) -> Step<MessagesCall<u8>, Messages<u8>> {
    let res: Result<_, RoomError<String>> = common(encryption).messages_received(Ok(page(chunk)));
    res.unwrap()
}

fn waiting(step: Step<MessagesCall<u8>, Messages<u8>>) -> MessagesCall<u8> {
    match step {
        Step::Perform(call) => call,
        Step::Done(_) => panic!("the call is over"),
    }
}

fn over(step: Step<MessagesCall<u8>, Messages<u8>>) -> Messages<u8> {
    match step {
        Step::Perform(_) => panic!("the call is not over"),
        Step::Done(messages) => messages,
    }
}

#[test]
fn empty_page_is_done_at_once() {
    let messages = over(received(true, vec![]));
    assert_eq!(messages.start, "t1");
    assert_eq!(messages.end.as_deref(), Some("t2"));
    assert!(messages.chunk.is_empty());
    assert_eq!(messages.state.len(), 1);
    assert_eq!(messages.state[0].json, "{\"state\":1}");
}

#[test]
fn without_encryption_events_stay_as_they_are() {
    let messages = over(received(false, vec![raw(GOOD), raw(NO_JSON), raw(OTHER)]));
    let texts: Vec<&str> = messages.chunk.iter().map(|e| e.event.json.as_str()).collect();
    assert_eq!(texts, vec![GOOD, NO_JSON, OTHER]);
    assert!(messages.chunk.iter().all(|e| e.encryption_info.is_none()));
}

#[test]
fn broken_messages_are_returned_unchanged() {
    let messages = over(received(true, vec![raw(NO_SENDER), raw(NO_JSON), raw("[]")]));
    let texts: Vec<&str> = messages.chunk.iter().map(|e| e.event.json.as_str()).collect();
    assert_eq!(texts, vec![NO_SENDER, NO_JSON, "[]"]);
}

#[test]
fn messages_are_decrypted_one_by_one() {
    let chunk = vec![raw(NO_JSON), raw(GOOD), raw(NO_SENDER), raw(OTHER), raw("7")];
    let call = waiting(received(true, chunk));
    assert_eq!(call.event().json, GOOD);
    let clear = RoomEvent { event: raw("clear"), encryption_info: Some(3) };
    let call = waiting(call.decrypted(Some(clear)));
    assert_eq!(call.event().json, OTHER);
    let messages = over(call.decrypted(None));
    let texts: Vec<&str> = messages.chunk.iter().map(|e| e.event.json.as_str()).collect();
    assert_eq!(texts, vec![NO_JSON, "clear", NO_SENDER, OTHER, "7"]);
    let infos: Vec<Option<u8>> = messages.chunk.iter().map(|e| e.encryption_info).collect();
    assert_eq!(infos, vec![None, Some(3), None, None, None]);
    assert_eq!(messages.start, "t1");
    assert_eq!(messages.end.as_deref(), Some("t2"));
}

#[test]
fn marked_events_are_asked_for() {
    let call: MessagesCall<u8> =
        match MessagesCall::begin(page(vec![raw("a"), raw("b")]), vec![true, false]) {
            Step::Perform(call) => call,
            Step::Done(_) => panic!("the call is over"),
        };
    assert_eq!(call.event().json, "a");
    let messages = over(call.decrypted(None));
    assert_eq!(messages.chunk.len(), 2);
    assert_eq!(messages.chunk[0].event.json, "a");
    assert_eq!(messages.chunk[1].event.json, "b");
}

#[test]
fn failed_request_for_messages_is_reported() {
    let res: Result<Step<MessagesCall<u8>, Messages<u8>>, RoomError<String>> =
        common(true).messages_received(Err(HttpError::Request("down".to_owned())));
    match res {
        Err(RoomError::Http(HttpError::Request(failure))) => assert_eq!(failure, "down"),
        _ => panic!("no failure"),
    }
}

#[test]
fn event_is_asked_for_in_its_room() {
    let room = common(true);
    let request = room.event("$one:example.org");
    assert_eq!(request.room_id, "!room:example.org");
    assert_eq!(request.event_id, "$one:example.org");
}

#[test]
fn event_is_decrypted_with_encryption() {
    let step: Step<Raw, Result<RoomEvent<u8>, RoomError<String>>> =
        common(true).event_received(Ok(raw(GOOD)));
    let event = match step {
        Step::Perform(event) => event,
        Step::Done(_) => panic!("the call is over"),
    };
    assert_eq!(event.json, GOOD);
    let kept: RoomEvent<u8> = Common::event_decrypted(event, None);
    assert_eq!(kept.event.json, GOOD);
    assert_eq!(kept.encryption_info, None);
    let clear = RoomEvent { event: raw("clear"), encryption_info: Some(3) };
    let decrypted: RoomEvent<u8> = Common::event_decrypted(raw(GOOD), Some(clear));
    assert_eq!(decrypted.event.json, "clear");
    assert_eq!(decrypted.encryption_info, Some(3));
}

#[test]
fn event_is_written_anew_without_encryption() {
    let step: Step<Raw, Result<RoomEvent<u8>, RoomError<String>>> =
        common(false).event_received(Ok(raw(GOOD)));
    let event = match step {
        Step::Done(Ok(event)) => event,
        _ => panic!("no event"),
    };
    assert!(event.encryption_info.is_none());
    assert_ne!(event.event.json, GOOD);
    let written: serde_json::Value = serde_json::from_str(&event.event.json).unwrap();
    let read: serde_json::Value = serde_json::from_str(GOOD).unwrap();
    assert_eq!(read["unknown"], true);
    assert!(written.get("unknown").is_none());
    for field in ["type", "event_id", "room_id", "sender", "origin_server_ts", "content"] {
        assert_eq!(written[field], read[field]);
    }
}

#[test]
fn broken_event_is_an_error() {
    for encryption in [false, true] {
        for json in [NO_SENDER, NO_JSON, "", "[]"] {
            let step: Step<Raw, Result<RoomEvent<u8>, RoomError<String>>> =
                common(encryption).event_received(Ok(raw(json)));
            assert!(matches!(step, Step::Done(Err(RoomError::SerdeJson(_)))));
        }
    }
}

#[test]
fn failed_request_for_an_event_is_reported() {
    let step: Step<Raw, Result<RoomEvent<u8>, RoomError<String>>> =
        common(true).event_received(Err(HttpError::AuthenticationRequired));
    assert!(matches!(
        step,
        Step::Done(Err(RoomError::Http(HttpError::AuthenticationRequired)))
    ));
}

#[test]
fn work_on_an_event_depends_on_encryption() {
    let work: Result<EventWork, RoomError<String>> =
        common(true).event_deserialized(raw("a"), Ok(()));
    assert!(matches!(work, Ok(EventWork::Decrypt(event)) if event.json == "a"));
    let work: Result<EventWork, RoomError<String>> =
        common(false).event_deserialized(raw("a"), Ok(()));
    assert!(matches!(work, Ok(EventWork::Serialize(event)) if event.json == "a"));
    let error = serde_json::from_str::<bool>("1").unwrap_err();
    let work: Result<EventWork, RoomError<String>> =
        common(true).event_deserialized(raw("a"), Err(error));
    assert!(matches!(work, Err(RoomError::SerdeJson(_))));
}

#[test]
fn serialized_event_is_the_result() {
    let event: Result<RoomEvent<u8>, RoomError<String>> =
        Common::event_serialized(Ok("text".to_owned()));
    let event = event.unwrap();
    assert_eq!(event.event.json, "text");
    assert_eq!(event.encryption_info, None);
    let error = serde_json::from_str::<bool>("1").unwrap_err();
    let event: Result<RoomEvent<u8>, RoomError<String>> = Common::event_serialized(Err(error));
    assert!(matches!(event, Err(RoomError::SerdeJson(_))));
}
