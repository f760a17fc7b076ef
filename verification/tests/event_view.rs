use neutrino::event::{base_version, Event, RedactionKeys, RoomVersion};
use neutrino::event_view::{
    checked_strip_state_event, checked_stripped_state_event, checked_sync_state_event,
    checked_timeline_view, redacted_for_client, strip_state_event, stripped_state_event,
    sync_state_event, sync_timeline_event, sync_timeline_view, timeline_event, timeline_view,
    IncludeRoomId, StateEventConversionError,
};
use serde_json::Value;

fn build_event(event_type: &str, state_key: Option<&str>, sender: &str, raw: &str) -> Event {
    let v: Value = serde_json::from_str(raw).expect("the text is JSON");
    let event_id = "$Fw7pQdLu79h74bsZabn1UKXoXo7-q5M-cOwQxQxfh2c".to_string();
    let room_id = if event_type == "m.room.create" {
        format!("!{}", &event_id[1..])
    } else {
        v["room_id"].as_str().expect("a room").to_string()
    };
    Event {
        event_id,
        room_id,
        sender: sender.to_string(),
        event_type: event_type.to_string(),
        state_key: state_key.map(String::from),
        origin_server_ts: 1_000,
        content: v["content"].to_string(),
        prev_events: Vec::new(),
        prev_state_events: Vec::new(),
        auth_events: Vec::new(),
        rejected: false,
        soft_failed: false,
        raw: raw.to_string(),
    }
}

fn create_event() -> Event {
    build_event(
        "m.room.create",
        Some(""),
        "@alice:hs1",
        r#"{"type":"m.room.create","sender":"@alice:hs1","state_key":"","origin_server_ts":1000,
            "content":{"room_version":"org.matrix.msc4242.12"},"hashes":{"sha256":"AAAA"},
            "prev_events":[],"prev_state_events":[]}"#,
    )
}

fn in_room(room_id: &str, text: &str) -> String {
    text.replace("ROOM", room_id)
}

fn message_event(room_id: &str) -> Event {
    build_event(
        "m.room.message",
        None,
        "@alice:hs1",
        &in_room(
            room_id,
            r#"{"type":"m.room.message","sender":"@alice:hs1","room_id":"ROOM",
                "origin_server_ts":1001,"content":{"msgtype":"m.text","body":"hi"},
                "hashes":{"sha256":"BBBB"},"prev_events":[],"prev_state_events":[]}"#,
        ),
    )
}

fn name_state_event(room_id: &str) -> Event {
    build_event(
        "m.room.name",
        Some(""),
        "@alice:hs1",
        &in_room(
            room_id,
            r#"{"type":"m.room.name","sender":"@alice:hs1","state_key":"","room_id":"ROOM",
                "origin_server_ts":1002,"content":{"name":"My Room"},
                "hashes":{"sha256":"CCCC"},"prev_events":[],"prev_state_events":[]}"#,
        ),
    )
}

fn parse_raw(raw: &str) -> Value {
    serde_json::from_str(raw).expect("a view is JSON")
}

fn keys(v: &Value) -> Vec<String> {
    let mut keys: Vec<String> = v.as_object().expect("object").keys().cloned().collect();
    keys.sort();
    keys
}

#[test]
fn from_event_for_sync_timeline_injects_event_id() {
    let create = create_event();
    let v = parse_raw(&sync_timeline_event(&create));
    assert_eq!(v["event_id"].as_str(), Some(create.event_id.as_str()));
}

#[test]
fn from_event_for_sync_timeline_create_event_carries_room_id() {
    let create = create_event();
    let v = parse_raw(&sync_timeline_event(&create));
    assert_eq!(v["room_id"].as_str(), Some(create.room_id.as_str()));
}

#[test]
fn from_event_for_sync_timeline_non_create_strips_room_id() {
    let create = create_event();
    let msg = message_event(&create.room_id);
    let v = parse_raw(&sync_timeline_event(&msg));
    assert!(v.get("room_id").is_none());
    assert_eq!(v["event_id"].as_str(), Some(msg.event_id.as_str()));
}

#[test]
fn try_from_event_for_sync_state_err_when_no_state_key() {
    let create = create_event();
    let msg = message_event(&create.room_id);
    let err = sync_state_event(&msg).unwrap_err();
    let StateEventConversionError::NotAStateEvent { event_type } = &err;
    assert_eq!(event_type, "m.room.message");
    assert_eq!(
        err.message(),
        "event of type m.room.message has no state_key \u{2014} cannot represent as a state event"
    );
}

#[test]
fn try_from_event_for_sync_state_ok_when_state_key_present() {
    let create = create_event();
    let name = name_state_event(&create.room_id);
    let v = parse_raw(&sync_state_event(&name).expect("name event is a state event"));
    assert_eq!(v["event_id"].as_str(), Some(name.event_id.as_str()));
    assert_eq!(v["type"].as_str(), Some("m.room.name"));
    assert_eq!(v["state_key"].as_str(), Some(""));
}

#[test]
fn try_from_event_for_stripped_state_keeps_only_four_canonical_fields() {
    let create = create_event();
    let v = parse_raw(&stripped_state_event(&create).expect("create event is a state event"));
    assert_eq!(keys(&v), vec!["content", "sender", "state_key", "type"]);
    assert_eq!(v["type"].as_str(), Some("m.room.create"));
    assert_eq!(v["state_key"].as_str(), Some(""));
    assert_eq!(v["sender"].as_str(), Some("@alice:hs1"));
    assert_eq!(
        v["content"]["room_version"].as_str(),
        Some("org.matrix.msc4242.12")
    );
}

#[test]
fn try_from_event_for_stripped_state_err_when_no_state_key() {
    let create = create_event();
    let msg = message_event(&create.room_id);
    let err = stripped_state_event(&msg).unwrap_err();
    assert!(matches!(
        err,
        StateEventConversionError::NotAStateEvent { event_type } if event_type == "m.room.message"
    ));
}

#[test]
fn from_event_for_room_event_carries_both_ids() {
    let create = create_event();
    let msg = message_event(&create.room_id);
    let v = parse_raw(&timeline_event(&msg));
    assert_eq!(v["event_id"].as_str(), Some(msg.event_id.as_str()));
    assert_eq!(v["room_id"].as_str(), Some(msg.room_id.as_str()));
}

#[test]
fn from_event_for_room_event_create_event_also_carries_both_ids() {
    let create = create_event();
    let v = parse_raw(&timeline_event(&create));
    assert_eq!(v["event_id"].as_str(), Some(create.event_id.as_str()));
    assert_eq!(v["room_id"].as_str(), Some(create.room_id.as_str()));
}

#[test]
fn from_event_for_sync_timeline_preserves_unsigned() {
    let create = create_event();
    let msg = build_event(
        "m.room.message",
        None,
        "@alice:hs1",
        &in_room(
            &create.room_id,
            r#"{"type":"m.room.message","sender":"@alice:hs1","room_id":"ROOM",
                "origin_server_ts":1001,"content":{"msgtype":"m.text","body":"hi"},
                "unsigned":{"age":17,"transaction_id":"txn-42"},
                "hashes":{"sha256":"BBBB"},"prev_events":[],"prev_state_events":[]}"#,
        ),
    );
    let v = parse_raw(&sync_timeline_event(&msg));
    assert_eq!(v["unsigned"]["age"].as_u64(), Some(17));
    assert_eq!(v["unsigned"]["transaction_id"].as_str(), Some("txn-42"));
}

#[test]
fn try_from_event_for_sync_state_preserves_unsigned_and_prev_content() {
    let create = create_event();
    let name = build_event(
        "m.room.name",
        Some(""),
        "@alice:hs1",
        &in_room(
            &create.room_id,
            r#"{"type":"m.room.name","state_key":"","sender":"@alice:hs1","room_id":"ROOM",
                "origin_server_ts":1002,"content":{"name":"New"},"prev_content":{"name":"Old"},
                "unsigned":{"age":99},"hashes":{"sha256":"CCCC"},
                "prev_events":[],"prev_state_events":[]}"#,
        ),
    );
    let v = parse_raw(&sync_state_event(&name).expect("name event is a state event"));
    assert_eq!(v["unsigned"]["age"].as_u64(), Some(99));
    assert_eq!(v["prev_content"]["name"].as_str(), Some("Old"));
    assert_eq!(v["content"]["name"].as_str(), Some("New"));
}

#[test]
fn strip_state_event_drops_non_canonical_fields() {
    let stripped = strip_state_event(
        r#"{"type":"m.room.name","state_key":"","sender":"@u:example.org","content":{"name":"X"},
            "event_id":"$evt:example.org","origin_server_ts":1700000000000,"unsigned":{"age":17},
            "prev_content":{"name":"Old"},"room_id":"!r:example.org"}"#,
    );
    let v = parse_raw(&stripped);
    assert_eq!(keys(&v), vec!["content", "sender", "state_key", "type"]);
    for dropped in [
        "event_id",
        "origin_server_ts",
        "unsigned",
        "prev_content",
        "room_id",
    ] {
        assert!(v.get(dropped).is_none(), "{dropped}");
    }
    assert_eq!(
        stripped,
        r#"{"content":{"name":"X"},"sender":"@u:example.org","state_key":"","type":"m.room.name"}"#
    );
}

#[test]
fn strip_state_event_returns_empty_for_non_object_input() {
    for raw in ["[1,2,3]", "\"not an event\"", "null", "{}"] {
        assert_eq!(strip_state_event(raw), "{}");
    }
}

#[test]
fn build_event_helper_smoke_test() {
    let create = create_event();
    assert_eq!(create.event_type, "m.room.create");
    assert!(create.event_id.starts_with('$'));
    assert!(create.room_id.starts_with('!'));
    ruma::OwnedEventId::try_from(create.event_id.as_str()).expect("valid event_id");
}

#[test]
fn texts_that_hold_nothing_have_no_view() {
    let version = base_version();
    let mut msg = message_event("!r:x");
    assert!(checked_timeline_view(&msg, None, &version, false).is_some());
    msg.raw = "[]".to_string();
    assert!(checked_timeline_view(&msg, None, &version, false).is_none());
    assert!(checked_timeline_view(&msg, None, &version, true).is_none());
    let mut name = name_state_event("!r:x");
    assert!(matches!(checked_sync_state_event(&name), Some(Ok(_))));
    assert!(matches!(checked_stripped_state_event(&name), Some(Ok(_))));
    name.raw = "{".to_string();
    name.content = "{".to_string();
    assert!(checked_sync_state_event(&name).is_none());
    assert!(checked_stripped_state_event(&name).is_none());
    assert!(checked_strip_state_event("{").is_none());
    assert_eq!(checked_strip_state_event("7").as_deref(), Some("{}"));
}

fn redaction(room_id: &str) -> Event {
    build_event(
        "m.room.redaction",
        None,
        "@mod:hs1",
        &in_room(
            room_id,
            r#"{"type":"m.room.redaction","sender":"@mod:hs1","room_id":"ROOM",
                "origin_server_ts":1003,"content":{"redacts":"$x","reason":"spam"},
                "hashes":{"sha256":"DDDD"},"prev_events":[],"prev_state_events":[]}"#,
        ),
    )
}

#[test]
fn a_redacted_event_is_shown_without_its_content() {
    let msg = message_event("!r:x");
    let because = redaction("!r:x");
    let version = base_version();
    let v = parse_raw(&sync_timeline_view(&msg, Some(&because), &version));
    assert_eq!(v["content"].to_string(), "{}");
    assert_eq!(v["event_id"].as_str(), Some(msg.event_id.as_str()));
    assert!(v.get("room_id").is_none());
    assert_eq!(
        v["unsigned"]["redacted_because"]["content"]["reason"].as_str(),
        Some("spam")
    );
    let v = parse_raw(&timeline_view(&msg, Some(&because), &version));
    assert_eq!(v["room_id"].as_str(), Some("!r:x"));
    assert!(v["unsigned"]["redacted_because"].is_object());
    // Without a redaction the event is shown as it is.
    let v = parse_raw(&timeline_view(&msg, None, &version));
    assert_eq!(v["content"]["body"].as_str(), Some("hi"));
}

#[test]
fn a_version_keeps_and_drops_fields_of_its_own() {
    let mut msg = message_event("!r:x");
    msg.raw = msg.raw.replace("\"hashes\"", "\"extra\":1,\"hashes\"");
    let because = redaction("!r:x");
    let version = RoomVersion {
        id: "test".to_string(),
        redaction_keys: RedactionKeys {
            added: vec!["extra".to_string()],
            removed: vec!["hashes".to_string()],
        },
    };
    let v = parse_raw(&redacted_for_client(
        &msg,
        &because,
        &version,
        IncludeRoomId::OnlyOnCreate,
    ));
    assert_eq!(v["extra"].as_u64(), Some(1));
    assert!(v.get("hashes").is_none());
    let base = parse_raw(&redacted_for_client(
        &msg,
        &because,
        &base_version(),
        IncludeRoomId::OnlyOnCreate,
    ));
    assert!(base.get("extra").is_none());
    assert_eq!(base["hashes"]["sha256"].as_str(), Some("BBBB"));
    assert!(base["prev_state_events"].is_array());
}

#[test]
fn the_last_value_of_a_key_is_what_counts_for_a_redaction() {
    let mut msg = message_event("!r:x");
    msg.raw = msg.raw.replace("\"hashes\"", "\"a\":1.5,\"a\":1,\"hashes\"");
    let because = redaction("!r:x");
    let version = base_version();
    let shown = checked_timeline_view(&msg, Some(&because), &version, true);
    let v = parse_raw(&shown.expect("the event can be redacted"));
    assert!(v.get("a").is_none());
    assert_eq!(v["content"].to_string(), "{}");
    assert_eq!(
        Some(sync_timeline_view(&msg, Some(&because), &version)),
        checked_timeline_view(&msg, Some(&because), &version, false)
    );
    // A number that is no integer, and counts, has no canonical form.
    msg.raw = msg.raw.replace("\"a\":1,", "\"a\":2.5,");
    assert!(checked_timeline_view(&msg, Some(&because), &version, true).is_none());
    assert!(checked_timeline_view(&msg, None, &version, true).is_some());
}

#[test]
fn an_event_without_a_state_key_is_named_by_its_type() {
    let msg = message_event("!r:x");
    let words = "event of type m.room.message has no state_key — cannot represent as a state event";
    match checked_sync_state_event(&msg) {
        Some(Err(e)) => assert_eq!(e.message(), words),
        _ => panic!("no state event"),
    }
    match checked_stripped_state_event(&msg) {
        Some(Err(e)) => assert_eq!(e.message(), words),
        _ => panic!("no state event"),
    }
}
