use matrix_room::identifiers::check_identifiers;
use matrix_room::{
    BaseRoom, Client, Common, HistoryVisibility, MessagesCall, MessagesResponse, Raw, RoomError,
    RoomEvent, RoomType, Step,
};

fn common(encryption: bool) -> Common {
    Common::new(
        Client { user_id: None, encryption },
        BaseRoom {
            room_id: "!room:example.org".to_owned(),
            room_type: RoomType::Joined,
            history_visibility: HistoryVisibility::Shared,
            avatar_url: None,
            members_synced: false,
        },
    )
}

fn raw(json: &str) -> Raw {
    Raw { json: json.to_owned() }
}

/// An event of the type `kind` with the members `rest`.
fn event(kind: &str, rest: &str) -> String {
    format!(
        " {{ \"type\" : \"{}\", \"event_id\":\"$one:example.org\",\
        \"room_id\":\"!room:example.org\",\"sender\":\"@alice:example.org\",\
        \"origin_server_ts\":1432735824653, {} }}",
        kind, rest
    )
}

fn message(content: &str) -> String {
    event("m.room.message", &format!("\"content\":{{\"body\":\"b\",{}}}", content))
}

fn image(url: &str) -> String {
    message(&format!("\"msgtype\":\"m.image\",\"url\":\"{}\"", url))
}

fn state(kind: &str, content: &str) -> String {
    event(kind, &format!("\"state_key\":\"@alice:example.org\",\"content\":{}", content))
}

fn invite(signatures: &str) -> String {
    format!(
        "{{\"membership\":\"invite\",\"third_party_invite\":{{\
        \"display_name\":\"alice\",\"signed\":{{\"mxid\":\"@alice:example.org\",\
        \"signatures\":{},\"token\":\"abc\"}}}}}}",
        signatures
    )
}

fn signed(key: &str) -> String {
    let signatures = format!("{{ \"example.org\" : {{ \"{}\" : \"c2ln\" }} }}", key);
    state("m.room.member", &invite(&signatures))
}

fn name(length: usize) -> String {
    "a".repeat(length)
}

/// A URI that is too long.
fn uri() -> String {
    format!("mxc://{}/m", name(250))
}

fn key_id() -> String {
    format!("a\u{00e9}{}:1", name(254))
}

type Received = Step<Raw, Result<RoomEvent<u8>, RoomError<String>>>;

fn received(encryption: bool, json: &str) -> Received {
    common(encryption).event_received(Ok(raw(json)))
}

/// The event fits, and is read.
fn is_read(json: &str) {
    assert!(check_identifiers(json), "{}", json);
    assert!(matches!(received(true, json), Step::Perform(_)), "{}", json);
    assert!(matches!(received(false, json), Step::Done(Ok(_))), "{}", json);
}

/// The event does not fit, and is not read.
fn is_oversized(json: &str) {
    assert!(!check_identifiers(json), "{}", json);
    for encryption in [false, true] {
        let step = received(encryption, json);
        assert!(matches!(step, Step::Done(Err(RoomError::OversizedIdentifier))), "{}", json);
    }
}

/// The event fits, but is none.
fn is_broken(json: &str) {
    assert!(check_identifiers(json), "{}", json);
    assert!(matches!(received(true, json), Step::Done(Err(RoomError::SerdeJson(_)))), "{}", json);
}

#[test]
fn uri_with_its_delimiter_at_a_multiple_of_256_is_oversized() {
    for (length, fits) in [(1, true), (249, true), (250, false), (251, true), (506, false)] {
        for url in [
            format!("mxc://{}/media-1", name(length)),
            format!("mxc://{}/", name(length)),
            format!("\\u006dxc:\\/\\u002F{}\\/media-1", name(length)),
        ] {
            if fits {
                is_read(&image(&url));
            } else {
                is_oversized(&image(&url));
            }
        }
    }
}

#[test]
fn text_that_is_no_uri_is_read() {
    for url in [
        format!("mxc://{}", name(250)),
        format!("mxc:/{}/media", name(251)),
        format!("mxc://{}/me dia", name(250)),
        format!("mxc://{}/media\\n", name(250)),
        format!("see mxc://{}/media", name(250)),
        format!("mxc://\\\"{}/media", name(249)),
    ] {
        is_read(&image(&url));
    }
}

#[test]
fn uri_with_a_server_name_that_is_not_valid_is_read() {
    for server in [
        format!("{} ", name(249)),
        format!("{}_", name(249)),
        format!("{}:99999", name(244)),
        format!("{}:", name(249)),
        format!("[{}]", name(248)),
        format!("\u{00e9}{}", name(248)),
        format!("\\u00e9{}", name(248)),
    ] {
        is_read(&image(&format!("mxc://{}/media", server)));
    }
}

#[test]
fn uri_with_a_long_server_name_of_any_form_is_oversized() {
    for server in [
        format!("{}.-9", name(247)),
        format!("{}:8448", name(245)),
        format!("{}:+844", name(245)),
        format!("[::1]:{}80", "0".repeat(242)),
    ] {
        is_oversized(&image(&format!("mxc://{}/media", server)));
    }
}

#[test]
fn text_message_may_be_like_an_oversized_uri() {
    let uri = uri();
    let body = event(
        "m.room.message",
        &format!("\"content\":{{\"msgtype\":\"m.text\",\"body\":\"{}\"}}", uri),
    );
    is_read(&body);
    for kind in ["m.text", "m.notice", "m.emote", "org.example.custom"] {
        is_read(&message(&format!(
            "\"msgtype\":\"{}\",\"url\":\"{}\",\"file\":{{\"url\":\"{}\"}},\
            \"info\":{{\"thumbnail_url\":\"{}\"}}",
            kind, uri, uri, uri
        )));
    }
}

#[test]
fn text_message_like_an_oversized_uri_is_decrypted() {
    let text = event(
        "m.room.message",
        &format!("\"content\":{{\"msgtype\":\"m.text\",\"body\":\"{}\"}}", uri()),
    );
    let call = page(vec![raw(&text)]);
    assert_eq!(call.event().json, text);
    let clear = RoomEvent { event: raw("clear"), encryption_info: Some(3) };
    match call.decrypted(Some(clear)) {
        Step::Done(messages) => {
            assert_eq!(messages.chunk[0].event.json, "clear");
            assert_eq!(messages.chunk[0].encryption_info, Some(3));
        }
        Step::Perform(_) => panic!("the call is not over"),
    }
}

fn page(chunk: Vec<Raw>) -> MessagesCall<u8> {
    let page = MessagesResponse { start: "t1".to_owned(), end: None, chunk, state: vec![] };
    match common(true).messages_received::<u8, String>(Ok(page)) {
        Ok(Step::Perform(call)) => call,
        _ => panic!("the call is over"),
    }
}

#[test]
fn message_with_an_oversized_identifier_is_returned_unchanged() {
    let text = image(&uri());
    let good = image("mxc://example.org/media");
    let call = page(vec![raw(&text), raw(&good)]);
    assert_eq!(call.event().json, good);
    match call.decrypted(None) {
        Step::Done(messages) => {
            assert_eq!(messages.chunk[0].event.json, text);
            assert!(messages.chunk[0].encryption_info.is_none());
        }
        Step::Perform(_) => panic!("the call is not over"),
    }
}

#[test]
fn encrypted_event_may_hold_what_is_like_an_oversized_uri() {
    is_read(&event(
        "m.room.encrypted",
        &format!(
            "\"content\":{{\"algorithm\":\"m.megolm.v1.aes-sha2\",\"ciphertext\":\"c\",\
            \"sender_key\":\"k\",\"device_id\":\"D\",\"session_id\":\"s\",\"url\":\"{}\",\
            \"{}\":1}}",
            uri(),
            key_id()
        ),
    ));
}

const KEY: &str = "{\"kty\":\"oct\",\"key_ops\":[],\"alg\":\"A256CTR\",\"k\":\"k\",\"ext\":true}";

fn file(url: &str) -> String {
    format!("{{\"url\":\"{}\",\"key\":{},\"iv\":\"i\",\"hashes\":{{}},\"v\":\"v2\"}}", url, KEY)
}

fn file_array(url: &str) -> String {
    format!("[\"{}\",{},\"i\",{{}},\"v2\"]", url, KEY)
}

const GOOD: &str = "mxc://example.org/media";

/// With a URI that fits the event is read, and with one that does not it is
/// oversized.
fn reads_uri(json: fn(&str) -> String) {
    is_read(&json(GOOD));
    is_oversized(&json(&uri()));
}

#[test]
fn uris_of_media_are_read() {
    for kind in ["m.audio", "m.file", "m.image", "m.video"] {
        for (content, fits) in [
            (format!("\"url\":\"{}\"", GOOD), true),
            (format!("\"url\":\"{}\"", uri()), false),
            (format!("\"file\" : {}", file(GOOD)), true),
            (format!("\"file\" : {}", file(&uri())), false),
            (format!("\"file\":{}", file_array(GOOD)), true),
            (format!("\"file\":{}", file_array(&uri())), false),
            ("\"url\":null,\"file\":null,\"info\":null".to_owned(), true),
        ] {
            let json = message(&format!("{},\"msgtype\":\"{}\"", content, kind));
            if fits {
                is_read(&json);
            } else {
                is_oversized(&json);
            }
        }
    }
}

#[test]
fn uris_of_thumbnails_are_read() {
    for (kind, before, after) in [
        ("m.file", "null,null,null,", ""),
        ("m.image", "null,null,null,null,null,", ""),
        ("m.video", "null,null,null,null,null,null,", ""),
        ("m.location", "", ",null"),
    ] {
        for (url, fits) in [(GOOD.to_owned(), true), (uri(), false)] {
            for info in [
                format!("{{\"thumbnail_url\":\"{}\"}}", url),
                format!("{{\"thumbnail_file\":{}}}", file(&url)),
                format!("{{\"thumbnail_file\":{}}}", file_array(&url)),
                format!("[{}\"{}\",null{}]", before, url, after),
                format!("[{}null,{}{}]", before, file(&url), after),
            ] {
                let json = message(&format!(
                    "\"msgtype\":\"{}\",\"geo_uri\":\"geo:1,1\",\"info\":{}",
                    kind, info
                ));
                if fits {
                    is_read(&json);
                } else {
                    is_oversized(&json);
                }
            }
        }
    }
}

#[test]
fn other_fields_of_media_may_be_like_an_oversized_uri() {
    is_read(&message(&format!(
        "\"msgtype\":\"m.audio\",\"info\":{{\"thumbnail_url\":\"{}\"}}",
        uri()
    )));
    is_read(&message(&format!(
        "\"msgtype\":\"m.location\",\"geo_uri\":\"{}\",\"url\":\"{}\"",
        uri(),
        uri()
    )));
    is_read(&message(&format!(
        "\"msgtype\":\"m.image\",\"x\":{{\"url\":\"{}\"}},\"y\":[{{\"url\":\"{}\"}}],\
        \"info\":{{\"mimetype\":\"{}\",\"url\":\"{}\"}}",
        uri(),
        uri(),
        uri(),
        uri()
    )));
}

#[test]
fn uris_of_stickers_are_read() {
    reads_uri(|url| {
        event(
            "m.sticker",
            &format!("\"content\":{{\"body\":\"b\",\"info\":{{}},\"url\":\"{}\"}}", url),
        )
    });
    reads_uri(|url| {
        event(
            "m.sticker",
            &format!(
                "\"content\":{{\"body\":\"b\",\"info\":{{\"thumbnail_url\":\"{}\"}},\
                \"url\":\"mxc://e/m\"}}",
                url
            ),
        )
    });
    reads_uri(|url| event("m.sticker", &format!("\"content\":[\"b\",{{}},\"{}\"]", url)));
    is_read(&event(
        "m.sticker",
        &format!("\"content\":{{\"body\":\"{}\",\"info\":{{}},\"url\":\"mxc://e/m\"}}", uri()),
    ));
}

#[test]
fn uris_of_avatars_are_read() {
    reads_uri(|url| state("m.room.avatar", &format!("{{\"url\":\"{}\"}}", url)));
    reads_uri(|url| state("m.room.avatar", &format!("[null,\"{}\"]", url)));
    reads_uri(|url| {
        state(
            "m.room.avatar",
            &format!("{{\"url\":\"mxc://e/m\",\"info\":{{\"thumbnail_url\":\"{}\"}}}}", url),
        )
    });
    reads_uri(|url| {
        state(
            "m.room.avatar",
            &format!("{{\"url\":\"mxc://e/m\"}},\"prev_content\":{{\"url\":\"{}\"}}", url),
        )
    });
}

#[test]
fn uris_of_members_are_read() {
    reads_uri(|url| {
        state("m.room.member", &format!("{{\"membership\":\"join\",\"avatar_url\":\"{}\"}}", url))
    });
    reads_uri(|url| state("m.room.member", &format!("[\"{}\",null,null,\"join\",null]", url)));
    reads_uri(|url| {
        state(
            "m.room.member",
            &format!(
                "{{\"membership\":\"join\"}},\
                \"prev_content\":{{\"membership\":\"leave\",\"avatar_url\":\"{}\"}}",
                url
            ),
        )
    });
    is_read(&state(
        "m.room.member",
        &format!("{{\"membership\":\"join\",\"displayname\":\"{}\"}}", uri()),
    ));
}

#[test]
fn uri_is_read_by_what_kind_of_event_it_is_in() {
    let content = format!("\"content\":{{\"msgtype\":\"m.image\",\"body\":\"b\",\"url\":\"{}\"}}", uri());
    // A state event of a type that messages have, and the other way round.
    is_read(&event("m.room.message", &format!("\"state_key\":\"\",{}", content)));
    is_oversized(&event("m.room.message", &format!("\"state_key\":null,{}", content)));
    is_read(&event("m.room.avatar", &content));
    is_read(&event("m.room.avatar", &format!("\"state_key\": null,{}", content)));
    is_oversized(&event("m.room.avatar", &format!("\"state_key\":\"\",{}", content)));
    // Types that are not known.
    is_read(&event("m.room.messages", &content));
    is_read(&event("m.room.avata", &format!("\"state_key\":\"\",{}", content)));
    // The previous content of what is no state event.
    is_read(&event(
        "m.room.message",
        &format!("\"content\":{{\"msgtype\":\"m.text\",\"body\":\"b\"}},\"prev_{}", &content[1..]),
    ));
    // The names of members written with escapes.
    is_oversized(&image(&uri()).replace("\"url\"", "\"\\u0075rl\""));
    is_oversized(&image(&uri()).replace("\"content\"", "\"conten\\u0074\""));
}

#[test]
fn no_uri_is_read_from_a_redacted_event() {
    let because = "{\"type\":\"m.room.redaction\",\"content\":{},\"redacts\":\"$a:b\",\
        \"event_id\":\"$c:d\",\"sender\":\"@e:f\",\"origin_server_ts\":1}";
    let content = format!("\"content\":{{\"msgtype\":\"m.image\",\"body\":\"b\",\"url\":\"{}\"}}", uri());
    for (unsigned, fits) in [
        (format!("{{\"redacted_because\":{}}}", because), true),
        (format!("[{}]", because), true),
        ("{\"redacted_because\":null}".to_owned(), false),
        ("{}".to_owned(), false),
    ] {
        let json = event("m.room.message", &format!("\"unsigned\":{},{}", unsigned, content));
        if fits {
            is_read(&json);
        } else {
            is_oversized(&json);
        }
    }
}

#[test]
fn repeated_member_counts_though_the_event_is_none() {
    let json = message(&format!(
        "\"msgtype\":\"m.image\",\"url\":\"{}\",\"url\":\"{}\"",
        uri(),
        GOOD
    ));
    is_oversized(&json);
    is_broken(&message(&format!("\"msgtype\":\"m.image\",\"url\":\"{}\",\"url\":\"{}\"", GOOD, GOOD)));
}

#[test]
fn key_ids_are_read() {
    is_read(&signed("ed25519:1"));
    is_broken(&signed("ed25519"));
}

#[test]
fn key_id_without_a_character_behind_its_delimiter_is_oversized() {
    for key in [
        // The delimiter is at 257, and the second byte of a character at 2.
        format!("a\u{00e9}{}:1", name(254)),
        format!("a\\u00e9{}:1", name(254)),
        // Four bytes, of which the third is at 2.
        format!("\u{1f600}{}:1", name(253)),
        format!("\\ud83d\\ude00{}:1", name(253)),
    ] {
        is_oversized(&signed(&key));
    }
    for key in [
        // Of each the delimiter is elsewhere.
        format!("a\u{00e9}{}:1", name(255)),
        format!("a\u{00e9}{}:1", name(252)),
        format!("a\u{00e9}{}:1", name(253)),
        format!("{}:1", name(257)),
    ] {
        assert!(check_identifiers(&signed(&key)));
        // What comes of it is for the deserialization to say.
        assert!(!matches!(
            received(true, &signed(&key)),
            Step::Done(Err(RoomError::OversizedIdentifier))
        ));
    }
}

#[test]
fn key_ids_are_read_in_their_place() {
    let key = key_id();
    let signatures = format!("{{\"e\":{{}},\"example.org\":{{\"ed25519:1\":\"s\",\"{}\":\"s\"}}}}", key);
    is_oversized(&state("m.room.member", &invite(&signatures)));
    is_oversized(&state(
        "m.room.member",
        &format!(
            "[null,null,null,\"invite\",[\"alice\",[\"@alice:example.org\",{},\"abc\"]]]",
            signatures
        ),
    ));
    is_oversized(&state(
        "m.room.member",
        &format!("{{\"membership\":\"join\"}},\"prev_content\":{}", invite(&signatures)),
    ));
    // Any other key may be as it likes.
    is_read(&state("m.room.member", &format!("{{\"membership\":\"join\",\"{}\":1}}", key)));
    is_read(&state("m.room.member", &format!("{{\"membership\":\"join\"}},\"{}\":1", key)));
    is_read(&state("m.room.name", &format!("{{\"name\":\"n\",\"signatures\":{}}}", signatures)));
    is_read(&message(&format!("\"msgtype\":\"m.text\",\"{}\":1", key)));
}

#[test]
fn text_that_is_no_json_fits() {
    for text in ["", " ", "[", "{", "{\"type\"", "{\"type\":", "{\"type\":\"m.room.message\",", "\"\\"] {
        is_broken(text);
    }
}
