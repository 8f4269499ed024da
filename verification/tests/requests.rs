use std::ops::Deref;

use matrix_room::{
    BaseRoom, Client, Common, Direction, HistoryVisibility, HttpError, InvalidUserTagName,
    MediaFormat, MediaThumbnailSize, MediaType, MessagesOptions, RoomError, RoomType, Step,
    TagName, ThumbnailMethod, UInt, UserTagName,
};
use ruma::api::client::r0::filter::RoomEventFilter;
use ruma::events::tag::TagInfo;
use ruma::events::EventType;

fn room(avatar_url: Option<&str>) -> BaseRoom {
    BaseRoom {
        room_id: "!roomid:example.com".to_owned(),
        room_type: RoomType::Joined,
        history_visibility: HistoryVisibility::Shared,
        avatar_url: avatar_url.map(|url| url.to_owned()),
        members_synced: true,
    }
}

fn common(user_id: Option<&str>) -> Common {
    let client = Client { user_id: user_id.map(|id| id.to_owned()), encryption: false };
    Common::new(client, room(None))
}

#[test]
fn common_derefs_to_its_room() {
    let common = Common::new(
        Client { user_id: None, encryption: false },
        room(Some("mxc://example.com/a")),
    );
    assert_eq!(common.deref().room_id, "!roomid:example.com");
    assert_eq!(common.avatar_url.as_deref(), Some("mxc://example.com/a"));
    assert!(common.clone().members_synced);
    assert_eq!(common.clone().room_type, RoomType::Joined);
}

#[test]
fn room_is_left_and_joined() {
    let common = common(None);
    assert_eq!(common.leave().room_id, "!roomid:example.com");
    assert_eq!(common.join().room_id, "!roomid:example.com");
    let done: Result<(), RoomError<String>> = Common::acknowledged(Ok("ignored"));
    assert!(done.is_ok());
    let failed: Result<(), RoomError<&str>> =
        Common::acknowledged::<u8, &str>(Err(HttpError::Request("down")));
    assert!(matches!(failed, Err(RoomError::Http(HttpError::Request("down")))));
}

#[test]
fn avatar_that_is_not_set_is_none() {
    let step: Step<_, Result<_, RoomError<String>>> = common(None).avatar(MediaFormat::File);
    assert!(matches!(step, Step::Done(Ok(None))));
}

#[test]
fn avatar_that_is_set_is_got_from_its_uri() {
    let common = Common::new(
        Client { user_id: None, encryption: false },
        room(Some("mxc://example.com/avatar")),
    );
    let size = MediaThumbnailSize {
        method: ThumbnailMethod::Crop,
        width: UInt::from_u32(30),
        height: UInt::from_u32(40),
    };
    let step: Step<_, Result<_, RoomError<String>>> = common.avatar(MediaFormat::Thumbnail(size));
    match step {
        Step::Perform(get) => {
            assert!(get.use_cache);
            assert!(matches!(&get.request.media_type,
                MediaType::Uri(uri) if uri == "mxc://example.com/avatar"));
            assert!(matches!(get.request.format, MediaFormat::Thumbnail(size)
                if size.width.get() == 30 && size.height.get() == 40
                    && size.method == ThumbnailMethod::Crop));
        }
        Step::Done(_) => panic!("nothing to get"),
    }
    let loaded: Result<_, RoomError<&str>> = Common::avatar_loaded(Ok(vec![1, 2]));
    assert_eq!(loaded.unwrap(), Some(vec![1, 2]));
    let failed: Result<_, RoomError<&str>> =
        Common::avatar_loaded(Err(RoomError::StateStore("gone")));
    assert!(matches!(failed, Err(RoomError::StateStore("gone"))));
}

#[test]
fn options_have_defaults() {
    let options = MessagesOptions::new("t1", Direction::Forward);
    assert_eq!(options.from, "t1");
    assert_eq!(options.dir, Direction::Forward);
    assert_eq!(options.to, None);
    assert_eq!(options.limit.get(), 10);
    assert!(options.filter.is_none());
}

#[test]
fn backward_and_forward_differ_in_direction_alone() {
    let backward = MessagesOptions::backward("t47429-4392820_219380_26003_2265");
    let forward = MessagesOptions::forward("t47429-4392820_219380_26003_2265");
    assert_eq!(backward.dir, Direction::Backward);
    assert_eq!(forward.dir, Direction::Forward);
    assert_eq!(backward.from, forward.from);
    assert_eq!(backward.to, forward.to);
    assert_eq!(backward.limit.get(), 10);
    assert_eq!(forward.limit.get(), 10);
    assert!(backward.filter.is_none() && forward.filter.is_none());
}

#[test]
fn options_go_into_the_request() {
    let common = common(None);
    let mut options = MessagesOptions::backward("t1");
    options.to = Some("t2");
    options.limit = UInt::new(25).unwrap();
    let types = vec!["m.room.message".to_owned()];
    let mut filter = RoomEventFilter::default();
    filter.types = Some(&types);
    options.filter = Some(filter);
    let request = common.messages(options);
    assert_eq!(request.room_id, "!roomid:example.com");
    assert_eq!(request.from, "t1");
    assert_eq!(request.to, Some("t2"));
    assert_eq!(request.dir, Direction::Backward);
    assert_eq!(request.limit.get(), 25);
    assert_eq!(request.filter.unwrap().types.unwrap()[0], "m.room.message");
}

#[test]
fn uint_is_bounded() {
    assert_eq!(UInt::new(9_007_199_254_740_991).unwrap().get(), 9_007_199_254_740_991);
    assert!(UInt::new(9_007_199_254_740_992).is_none());
    assert!(ruma::UInt::new(9_007_199_254_740_992).is_none());
    assert_eq!(UInt::from_u32(4_294_967_295).get(), 4_294_967_295);
}

#[test]
fn tag_is_set_for_the_user() {
    let common = common(Some("@alice:example.com"));
    let mut tag_info = TagInfo::new();
    tag_info.order = Some(0.9);
    let user_tag = UserTagName::new("u.work").unwrap();
    let request = common.set_tag::<String>(TagName::User(user_tag), tag_info).unwrap();
    assert_eq!(request.user_id, "@alice:example.com");
    assert_eq!(request.room_id, "!roomid:example.com");
    assert_eq!(request.tag, "u.work");
    assert_eq!(request.tag_info.order, Some(0.9));
}

#[test]
fn tags_have_their_names() {
    let common = common(Some("@alice:example.com"));
    for (tag, name) in [
        (TagName::Favorite, "m.favourite"),
        (TagName::LowPriority, "m.lowpriority"),
        (TagName::ServerNotice, "m.server_notice"),
        (TagName::User(UserTagName::new("u.").unwrap()), "u."),
        (TagName::Custom("rs.conduit.rules".to_owned()), "rs.conduit.rules"),
        (TagName::Custom("m.favourite".to_owned()), "m.favourite"),
        (TagName::Custom("u.other".to_owned()), "u.other"),
        (TagName::Custom(String::new()), ""),
    ] {
        assert_eq!(common.remove_tag::<String>(tag).unwrap().tag, name);
    }
}

#[test]
fn tag_is_removed_where_it_was_set() {
    let common = common(Some("@alice:example.com"));
    let set = common.set_tag::<String>(TagName::Favorite, TagInfo::new()).unwrap();
    let removed = common.remove_tag::<String>(TagName::Favorite).unwrap();
    assert_eq!(set.user_id, removed.user_id);
    assert_eq!(set.room_id, removed.room_id);
    assert_eq!(set.tag, removed.tag);
}

#[test]
fn tags_need_a_login() {
    let common = common(None);
    assert!(matches!(
        common.set_tag::<String>(TagName::Favorite, TagInfo::new()),
        Err(HttpError::AuthenticationRequired)
    ));
    assert!(matches!(
        common.remove_tag::<String>(TagName::Favorite),
        Err(HttpError::AuthenticationRequired)
    ));
}

#[test]
fn user_tags_have_their_prefix() {
    assert_eq!(UserTagName::new("u.Work").unwrap().as_str(), "u.Work");
    for name in ["", "u", "work", "U.work", " u.work", "m.favourite"] {
        assert!(matches!(UserTagName::new(name), Err(InvalidUserTagName)));
    }
}

#[test]
fn state_events_are_read_from_the_room() {
    let common = common(None);
    let query = common.get_state_events(EventType::RoomName);
    assert_eq!(query.room_id, "!roomid:example.com");
    assert_eq!(query.event_type, EventType::RoomName);
    let query = common.get_state_event(EventType::RoomMember, "@bob:example.com");
    assert_eq!(query.room_id, "!roomid:example.com");
    assert_eq!(query.event_type, EventType::RoomMember);
    assert_eq!(query.state_key, "@bob:example.com");
    let loaded: Result<_, RoomError<&str>> = Common::state_loaded(Ok(vec![1, 2]));
    assert_eq!(loaded.unwrap(), vec![1, 2]);
    let failed: Result<u8, RoomError<&str>> = Common::state_loaded(Err("gone"));
    assert!(matches!(failed, Err(RoomError::StateStore("gone"))));
}

#[test]
fn http_errors_become_room_errors() {
    let error: RoomError<&str> = RoomError::from(HttpError::Request("down"));
    assert!(matches!(error, RoomError::Http(HttpError::Request("down"))));
}
