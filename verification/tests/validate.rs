use neutrino::event::{base_version, Event, ROOM_VERSION_ID};
use neutrino::validate::{
    parse_event, semantic_verdict, validate_pdu, FormatError, SemanticVerdict,
};
use serde_json::Value;

fn j(text: &str) -> Value {
    serde_json::from_str(text).expect("the text is JSON")
}

fn raw(v: Value) -> String {
    serde_json::to_string(&v).expect("test fixture")
}

fn eid(s: &str) -> String {
    s.to_string()
}

/// Minimal non-create event with every required PDU field populated.
fn base_event() -> Value {
    j(r#"{
        "type": "m.room.message",
        "sender": "@alice:example.org",
        "room_id": "!room123:example.org",
        "content": { "msgtype": "m.text", "body": "hi" },
        "prev_events": ["$prev1:example.org"],
        "prev_state_events": [],
        "depth": 1,
        "origin_server_ts": 1700000000000,
        "hashes": { "sha256": "abc123" }
    }"#)
}

/// Minimal v12 create event.
fn base_create() -> Value {
    let mut v = j(r#"{
        "type": "m.room.create",
        "sender": "@alice:example.org",
        "content": {},
        "prev_events": [],
        "depth": 0,
        "origin_server_ts": 1700000000000,
        "hashes": { "sha256": "abc123" },
        "state_key": ""
    }"#);
    v["content"]["room_version"] = Value::from(ROOM_VERSION_ID);
    v
}

fn parsed(v: Value, id: &str) -> Event {
    parse_event(raw(v), eid(id), vec![]).expect("wire ok")
}

#[test]
fn semantic_verdict_classification_is_pinned_per_variant() {
    let io_err = || serde_json::from_str::<Value>("{").unwrap_err();
    let cases: Vec<(FormatError, SemanticVerdict)> = vec![
        (FormatError::InvalidJson(io_err()), SemanticVerdict::Drop),
        (FormatError::MissingField("type"), SemanticVerdict::Drop),
        (
            FormatError::InvalidFieldType {
                field: "content",
                expected: "object",
            },
            SemanticVerdict::Drop,
        ),
        (
            FormatError::MalformedId {
                field: "sender",
                value: "x".into(),
            },
            SemanticVerdict::Drop,
        ),
        (FormatError::EventTooLarge, SemanticVerdict::Drop),
        (FormatError::FieldTooLong("type"), SemanticVerdict::Drop),
        (FormatError::AuthEventsPresent, SemanticVerdict::Drop),
        (FormatError::TooManyPrevEvents, SemanticVerdict::Drop),
        (FormatError::TooManyPrevStateEvents, SemanticVerdict::Drop),
        (FormatError::CreateHasPrevEvents, SemanticVerdict::Drop),
        (FormatError::CreateHasPrevStateEvents, SemanticVerdict::Drop),
        (FormatError::CreateHasRoomId, SemanticVerdict::Drop),
        (FormatError::CreateBadStateKey, SemanticVerdict::Drop),
        (FormatError::UnrecognisedRoomVersion("9".into()), SemanticVerdict::Drop),
        (FormatError::InvalidAdditionalCreators, SemanticVerdict::Drop),
        // The rules that do not depend on state: the event is rejected.
        (FormatError::StateKeyAtSignSenderMismatch, SemanticVerdict::Reject),
        (FormatError::MemberMissingStateKey, SemanticVerdict::Reject),
        (FormatError::MemberMissingMembership, SemanticVerdict::Reject),
        (FormatError::PowerLevelsBadIntField("ban"), SemanticVerdict::Reject),
        (FormatError::PowerLevelsBadObjectField("events"), SemanticVerdict::Reject),
        (FormatError::PowerLevelsBadUsers, SemanticVerdict::Reject),
    ];
    for (i, (err, want)) in cases.into_iter().enumerate() {
        assert_eq!(semantic_verdict(&err), want, "misclassified: {i}");
    }
}

#[test]
fn rule_9_exempts_create_and_third_party_invite() {
    let id = "$Fw7pQdLu79h74bsZabn1UKXoXo7-q5M-cOwQxQxfh2c";
    let mut ev = base_event();
    ev["type"] = Value::from("m.room.third_party_invite");
    ev["state_key"] = Value::from("@opaque-token");
    let event = parse_event(raw(ev), eid(id), vec![]).expect("parses");
    assert!(!matches!(
        validate_pdu(&event, &base_version()),
        Err(FormatError::StateKeyAtSignSenderMismatch)
    ));
    let mut ev = base_event();
    ev["type"] = Value::from("m.example.custom");
    ev["state_key"] = Value::from("@bob:example.org");
    let event = parse_event(raw(ev), eid(id), vec![]).expect("parses");
    assert!(matches!(
        validate_pdu(&event, &base_version()),
        Err(FormatError::StateKeyAtSignSenderMismatch)
    ));
}

#[test]
fn happy_path_message() {
    let ev =
        parse_event(raw(base_event()), eid("$ev1:example.org"), vec![]).expect("valid message");
    assert_eq!(ev.event_type, "m.room.message");
    assert_eq!(ev.prev_events.len(), 1);
    assert!(ev.state_key.is_none());
}

#[test]
fn happy_path_create() {
    let ev = parse_event(raw(base_create()), eid("$create:example.org"), vec![])
        .expect("valid create");
    assert_eq!(ev.event_type, "m.room.create");
    // room_id is derived from the event_id via sigil swap.
    assert_eq!(ev.room_id.as_str(), "!create:example.org");
}

#[test]
fn rejects_auth_events_on_wire() {
    let mut v = base_event();
    v["auth_events"] = j(r#"["$a:example.org"]"#);
    assert!(matches!(
        parse_event(raw(v), eid("$e:example.org"), vec![]),
        Err(FormatError::AuthEventsPresent)
    ));
}

#[test]
fn validate_pdu_rejects_prev_events_over_20() {
    let mut v = base_event();
    v["prev_events"] = Value::from((0..21).map(|i| format!("$p{i}:example.org")).collect::<Vec<_>>());
    let ev = parsed(v, "$e:example.org");
    assert!(matches!(
        validate_pdu(&ev, &base_version()),
        Err(FormatError::TooManyPrevEvents)
    ));
}

#[test]
fn validate_pdu_rejects_prev_state_events_over_20() {
    let mut v = base_event();
    v["prev_state_events"] = Value::from((0..21).map(|i| format!("$p{i}:example.org")).collect::<Vec<_>>());
    let ev = parsed(v, "$e:example.org");
    assert!(matches!(
        validate_pdu(&ev, &base_version()),
        Err(FormatError::TooManyPrevStateEvents)
    ));
}

#[test]
fn validate_pdu_rejects_create_with_prev_events() {
    let mut v = base_create();
    v["prev_events"] = j(r#"["$prev:example.org"]"#);
    let ev = parsed(v, "$create:example.org");
    assert!(matches!(
        validate_pdu(&ev, &base_version()),
        Err(FormatError::CreateHasPrevEvents)
    ));
}

#[test]
fn validate_pdu_rejects_create_with_prev_state_events() {
    let mut v = base_create();
    v["prev_state_events"] = j(r#"["$prev:example.org"]"#);
    let ev = parsed(v, "$create:example.org");
    assert!(matches!(
        validate_pdu(&ev, &base_version()),
        Err(FormatError::CreateHasPrevStateEvents)
    ));
}

#[test]
fn validate_pdu_rejects_create_with_non_empty_state_key() {
    let mut v = base_create();
    v["state_key"] = Value::from("@evil:example.org");
    let ev = parsed(v, "$create:example.org");
    assert!(matches!(
        validate_pdu(&ev, &base_version()),
        Err(FormatError::CreateBadStateKey)
    ));
}

#[test]
fn validate_pdu_rejects_create_with_missing_state_key() {
    let mut v = base_create();
    v.as_object_mut().expect("obj").remove("state_key");
    let ev = parsed(v, "$create:example.org");
    assert!(matches!(
        validate_pdu(&ev, &base_version()),
        Err(FormatError::CreateBadStateKey)
    ));
}

#[test]
fn rejects_create_with_room_id() {
    let mut v = base_create();
    v["room_id"] = Value::from("!fake:example.org");
    assert!(matches!(
        parse_event(raw(v), eid("$create:example.org"), vec![]),
        Err(FormatError::CreateHasRoomId)
    ));
}

#[test]
fn validate_pdu_rejects_unrecognised_room_version() {
    let mut v = base_create();
    v["content"] = j(r#"{ "room_version": "11" }"#);
    let ev = parsed(v, "$create:example.org");
    assert!(matches!(
        validate_pdu(&ev, &base_version()),
        Err(FormatError::UnrecognisedRoomVersion(_))
    ));
}

#[test]
fn validate_pdu_accepts_create_without_room_version_field() {
    let mut v = base_create();
    v["content"] = j(r#"{}"#);
    let ev = parsed(v, "$create:example.org");
    validate_pdu(&ev, &base_version()).expect("absent room_version is permitted");
}

#[test]
fn validate_pdu_rejects_additional_creators_non_array() {
    let mut v = base_create();
    v["content"] =
        j(r#"{ "room_version": "org.matrix.msc4242.12", "additional_creators": "@bob:example.org" }"#);
    let ev = parsed(v, "$create:example.org");
    assert!(matches!(
        validate_pdu(&ev, &base_version()),
        Err(FormatError::InvalidAdditionalCreators)
    ));
}

#[test]
fn validate_pdu_rejects_additional_creators_with_bad_user_id() {
    let mut v = base_create();
    v["content"] =
        j(r#"{ "room_version": "org.matrix.msc4242.12", "additional_creators": ["not-a-user-id"] }"#);
    let ev = parsed(v, "$create:example.org");
    assert!(matches!(
        validate_pdu(&ev, &base_version()),
        Err(FormatError::InvalidAdditionalCreators)
    ));
}

#[test]
fn validate_pdu_accepts_additional_creators_valid() {
    let mut v = base_create();
    v["content"] = j(r#"{
        "room_version": "org.matrix.msc4242.12",
        "additional_creators": ["@bob:example.org", "@carol:example.org"]
    }"#);
    let ev = parsed(v, "$create:example.org");
    validate_pdu(&ev, &base_version()).expect("valid additional_creators");
}

#[test]
fn validate_pdu_rejects_member_without_state_key() {
    let mut v = base_event();
    v["type"] = Value::from("m.room.member");
    v["content"] = j(r#"{ "membership": "join" }"#);
    let ev = parsed(v, "$e:example.org");
    assert!(matches!(
        validate_pdu(&ev, &base_version()),
        Err(FormatError::MemberMissingStateKey)
    ));
}

#[test]
fn validate_pdu_rejects_member_without_membership() {
    let mut v = base_event();
    v["type"] = Value::from("m.room.member");
    v["state_key"] = Value::from("@alice:example.org");
    v["content"] = j(r#"{}"#);
    let ev = parsed(v, "$e:example.org");
    assert!(matches!(
        validate_pdu(&ev, &base_version()),
        Err(FormatError::MemberMissingMembership)
    ));
}

#[test]
fn validate_pdu_rejects_at_state_key_mismatch() {
    let mut v = base_event();
    v["type"] = Value::from("m.some.thing");
    v["state_key"] = Value::from("@bob:example.org");
    let ev = parsed(v, "$e:example.org");
    assert!(matches!(
        validate_pdu(&ev, &base_version()),
        Err(FormatError::StateKeyAtSignSenderMismatch)
    ));
}

#[test]
fn validate_pdu_accepts_at_state_key_matching_sender() {
    let mut v = base_event();
    v["type"] = Value::from("m.something");
    v["state_key"] = Value::from("@alice:example.org");
    let ev = parsed(v, "$e:example.org");
    validate_pdu(&ev, &base_version()).expect("state_key matches sender");
}

#[test]
fn validate_pdu_accepts_non_at_state_key() {
    let mut v = base_event();
    v["type"] = Value::from("m.room.topic");
    v["state_key"] = Value::from("");
    let ev = parsed(v, "$e:example.org");
    validate_pdu(&ev, &base_version()).expect("empty state_key ok");
}

#[test]
fn validate_pdu_rule_9_does_not_apply_to_m_room_member() {
    let mut v = base_event();
    v["type"] = Value::from("m.room.member");
    v["state_key"] = Value::from("@bob:example.org");
    v["content"] = j(r#"{ "membership": "invite" }"#);
    let ev = parsed(v, "$e:example.org");
    validate_pdu(&ev, &base_version())
        .expect("m.room.member with different state_key/sender is valid");
}

#[test]
fn validate_pdu_rejects_power_levels_non_integer_int_field() {
    let mut v = base_event();
    v["type"] = Value::from("m.room.power_levels");
    v["state_key"] = Value::from("");
    v["content"] = j(r#"{ "users_default": "high" }"#);
    let ev = parsed(v, "$e:example.org");
    assert!(matches!(
        validate_pdu(&ev, &base_version()),
        Err(FormatError::PowerLevelsBadIntField("users_default"))
    ));
}

#[test]
fn validate_pdu_rejects_power_levels_events_non_int_value() {
    let mut v = base_event();
    v["type"] = Value::from("m.room.power_levels");
    v["state_key"] = Value::from("");
    v["content"] = j(r#"{ "events": { "m.room.name": "yes" } }"#);
    let ev = parsed(v, "$e:example.org");
    assert!(matches!(
        validate_pdu(&ev, &base_version()),
        Err(FormatError::PowerLevelsBadObjectField("events"))
    ));
}

#[test]
fn validate_pdu_rejects_power_levels_users_bad_user_id() {
    let mut v = base_event();
    v["type"] = Value::from("m.room.power_levels");
    v["state_key"] = Value::from("");
    v["content"] = j(r#"{ "users": { "not-a-user-id": 50 } }"#);
    let ev = parsed(v, "$e:example.org");
    assert!(matches!(
        validate_pdu(&ev, &base_version()),
        Err(FormatError::PowerLevelsBadUsers)
    ));
}

#[test]
fn validate_pdu_rejects_power_levels_users_non_int_value() {
    let mut v = base_event();
    v["type"] = Value::from("m.room.power_levels");
    v["state_key"] = Value::from("");
    v["content"] = j(r#"{ "users": { "@alice:example.org": "boss" } }"#);
    let ev = parsed(v, "$e:example.org");
    assert!(matches!(
        validate_pdu(&ev, &base_version()),
        Err(FormatError::PowerLevelsBadUsers)
    ));
}

#[test]
fn validate_pdu_accepts_valid_power_levels() {
    let mut v = base_event();
    v["type"] = Value::from("m.room.power_levels");
    v["state_key"] = Value::from("");
    v["content"] = j(r#"{
        "users_default": 0,
        "events_default": 0,
        "state_default": 50,
        "ban": 50,
        "redact": 50,
        "kick": 50,
        "invite": 50,
        "users": { "@alice:example.org": 100 },
        "events": { "m.room.name": 50 },
        "notifications": { "room": 50 }
    }"#);
    let ev = parsed(v, "$e:example.org");
    validate_pdu(&ev, &base_version()).expect("valid power_levels");
}

#[test]
fn rejects_malformed_sender() {
    let mut v = base_event();
    v["sender"] = Value::from("not-a-user-id");
    assert!(matches!(
        parse_event(raw(v), eid("$e:example.org"), vec![]),
        Err(FormatError::MalformedId {
            field: "sender",
            ..
        })
    ));
}

#[test]
fn rejects_malformed_room_id_on_non_create() {
    let mut v = base_event();
    v["room_id"] = Value::from("not-a-room-id");
    assert!(matches!(
        parse_event(raw(v), eid("$e:example.org"), vec![]),
        Err(FormatError::MalformedId {
            field: "room_id",
            ..
        })
    ));
}

#[test]
fn rejects_malformed_prev_event_id() {
    let mut v = base_event();
    v["prev_events"] = j(r#"["not-an-id"]"#);
    assert!(matches!(
        parse_event(raw(v), eid("$e:example.org"), vec![]),
        Err(FormatError::MalformedId {
            field: "prev_events",
            ..
        })
    ));
}

#[test]
fn rejects_missing_type() {
    let mut v = base_event();
    v.as_object_mut().unwrap().remove("type");
    assert!(matches!(
        parse_event(raw(v), eid("$e:example.org"), vec![]),
        Err(FormatError::MissingField("type"))
    ));
}

#[test]
fn rejects_missing_sender() {
    let mut v = base_event();
    v.as_object_mut().unwrap().remove("sender");
    assert!(matches!(
        parse_event(raw(v), eid("$e:example.org"), vec![]),
        Err(FormatError::MissingField("sender"))
    ));
}

#[test]
fn rejects_missing_content() {
    let mut v = base_event();
    v.as_object_mut().unwrap().remove("content");
    assert!(matches!(
        parse_event(raw(v), eid("$e:example.org"), vec![]),
        Err(FormatError::MissingField("content"))
    ));
}

#[test]
fn ignores_depth_field_when_present() {
    let mut with_depth = base_event();
    with_depth["depth"] = Value::from(42);
    let mut without_depth = base_event();
    without_depth.as_object_mut().unwrap().remove("depth");

    parse_event(raw(with_depth), eid("$e:example.org"), vec![]).expect("depth tolerated");
    parse_event(raw(without_depth), eid("$e:example.org"), vec![]).expect("missing depth ok");
}

#[test]
fn accepts_missing_hashes() {
    let mut v = base_event();
    v.as_object_mut().unwrap().remove("hashes");
    parse_event(raw(v), eid("$e:example.org"), vec![]).expect("missing hashes is well-formed");
}

#[test]
fn rejects_hashes_non_string_value() {
    let mut v = base_event();
    v["hashes"] = j(r#"{ "sha256": 123 }"#);
    assert!(matches!(
        parse_event(raw(v), eid("$e:example.org"), vec![]),
        Err(FormatError::InvalidFieldType {
            field: "hashes",
            ..
        })
    ));
}

#[test]
fn rejects_missing_origin_server_ts() {
    let mut v = base_event();
    v.as_object_mut().unwrap().remove("origin_server_ts");
    assert!(matches!(
        parse_event(raw(v), eid("$e:example.org"), vec![]),
        Err(FormatError::MissingField("origin_server_ts"))
    ));
}

#[test]
fn rejects_non_integer_origin_server_ts() {
    let mut v = base_event();
    v["origin_server_ts"] = Value::from("yesterday");
    assert!(matches!(
        parse_event(raw(v), eid("$e:example.org"), vec![]),
        Err(FormatError::InvalidFieldType {
            field: "origin_server_ts",
            ..
        })
    ));
}

#[test]
fn rejects_state_key_null() {
    let mut v = base_event();
    v["type"] = Value::from("m.room.topic");
    v["state_key"] = Value::Null;
    assert!(matches!(
        parse_event(raw(v), eid("$e:example.org"), vec![]),
        Err(FormatError::InvalidFieldType {
            field: "state_key",
            ..
        })
    ));
}

#[test]
fn rejects_missing_prev_events() {
    let mut v = base_event();
    v.as_object_mut().unwrap().remove("prev_events");
    assert!(matches!(
        parse_event(raw(v), eid("$e:example.org"), vec![]),
        Err(FormatError::MissingField("prev_events"))
    ));
}

#[test]
fn rejects_missing_prev_state_events_on_non_create() {
    let mut v = base_event();
    v.as_object_mut().unwrap().remove("prev_state_events");
    assert!(matches!(
        parse_event(raw(v), eid("$e:example.org"), vec![]),
        Err(FormatError::MissingField("prev_state_events"))
    ));
}

#[test]
fn rejects_non_create_without_room_id() {
    let mut v = base_event();
    v.as_object_mut().unwrap().remove("room_id");
    assert!(matches!(
        parse_event(raw(v), eid("$e:example.org"), vec![]),
        Err(FormatError::MissingField("room_id"))
    ));
}


fn canonical_len(v: &Value) -> usize {
    let obj: ruma::canonical_json::CanonicalJsonObject =
        serde_json::from_value(v.clone()).expect("test fixture is canonical-encodable");
    serde_json::to_string(&obj).expect("test fixture").len()
}

fn event_with_canonical_size(target: usize) -> Value {
    let mut v = base_event();
    v["content"]["pad"] = Value::from("");
    let without_pad = canonical_len(&v);
    v["content"]["pad"] = Value::from("a".repeat(target - without_pad));
    assert_eq!(canonical_len(&v), target, "pad math");
    v
}

#[test]
fn validate_pdu_accepts_event_at_exactly_max_pdu_bytes() {
    let v = event_with_canonical_size(65536);
    let ev = parsed(v, "$e:example.org");
    validate_pdu(&ev, &base_version())
        .expect("event at exactly 65536 canonical bytes is accepted");
}

#[test]
fn validate_pdu_rejects_event_one_byte_over_max_pdu_bytes() {
    let v = event_with_canonical_size(65537);
    let ev = parsed(v, "$e:example.org");
    assert!(matches!(
        validate_pdu(&ev, &base_version()),
        Err(FormatError::EventTooLarge)
    ));
}

#[test]
fn validate_pdu_accepts_type_at_255_bytes() {
    let mut v = base_event();
    v["type"] = Value::from("a".repeat(255));
    let ev = parsed(v, "$e:example.org");
    validate_pdu(&ev, &base_version()).expect("255-byte type is accepted");
}

#[test]
fn validate_pdu_rejects_type_over_255_bytes() {
    let mut v = base_event();
    v["type"] = Value::from("a".repeat(256));
    let ev = parsed(v, "$e:example.org");
    assert!(matches!(
        validate_pdu(&ev, &base_version()),
        Err(FormatError::FieldTooLong("type"))
    ));
}

#[test]
fn validate_pdu_accepts_state_key_at_255_bytes() {
    let mut v = base_event();
    v["type"] = Value::from("m.room.topic");
    v["state_key"] = Value::from("s".repeat(255));
    let ev = parsed(v, "$e:example.org");
    validate_pdu(&ev, &base_version()).expect("255-byte state_key is accepted");
}

#[test]
fn validate_pdu_rejects_state_key_over_255_bytes() {
    let mut v = base_event();
    v["type"] = Value::from("m.room.topic");
    v["state_key"] = Value::from("s".repeat(256));
    let ev = parsed(v, "$e:example.org");
    assert!(matches!(
        validate_pdu(&ev, &base_version()),
        Err(FormatError::FieldTooLong("state_key"))
    ));
}

#[test]
fn validate_pdu_field_limits_measure_utf8_bytes_not_codepoints() {
    let mut v = base_event();
    v["type"] = Value::from("é".repeat(128));
    let ev = parsed(v, "$e:example.org");
    assert!(matches!(
        validate_pdu(&ev, &base_version()),
        Err(FormatError::FieldTooLong("type"))
    ));

    let mut v = base_event();
    v["type"] = Value::from(format!("{}a", "é".repeat(127)));
    let ev = parsed(v, "$e:example.org");
    validate_pdu(&ev, &base_version()).expect("255-byte multibyte type is accepted");
}

#[test]
fn ignores_signatures_field_present() {
    let mut v = base_event();
    v["signatures"] = j(r#"{ "example.org": { "ed25519:key": "sig" } }"#);
    parse_event(raw(v), eid("$e:example.org"), vec![])
        .expect("signatures field accepted but not verified");
}

#[test]
fn ignores_signatures_field_absent() {
    parse_event(raw(base_event()), eid("$e:example.org"), vec![])
        .expect("missing signatures accepted under trusted-network policy");
}

#[test]
fn what_the_parser_complains_of_is_told() {
    let e = parse_event("{".to_string(), "$e".to_string(), vec![]).expect_err("no object");
    assert_eq!(e.message(), "invalid JSON: EOF while parsing an object at line 1 column 1");
    let e = FormatError::NonCanonical(ruma::canonical_json::CanonicalJsonError::IntConvert);
    assert_eq!(
        e.message(),
        "event JSON is not canonical-JSON encodable: number found is not a valid `js_int::Int`"
    );
}
