use std::time::Duration;

use neutrino::codec;
use neutrino::engine::StorageError;
use neutrino::json::Json;
use neutrino::legacy_sync::{
    after_sync, merge_memberships, parse_legacy_query, sync_reply, synthesize_v5_request,
    translate_response, AfterSync, LegacyQuery, Membership, SyncError, SyncResponse, SyncRoom,
    LEGACY_CONN_ID, RANGE_END,
};
use neutrino::strmap::StrMap;

fn query(pairs: &[(&str, &str)]) -> StrMap<String> {
    let mut m = StrMap::new();
    for (k, v) in pairs {
        m.insert(k.to_string(), v.to_string());
    }
    m
}

fn value(text: &str) -> Json {
    codec::parse(text).expect("the text is JSON")
}

fn same(v: &Json, text: &str) {
    assert_eq!(codec::print(v), codec::print(&value(text)));
}

fn at<'a>(v: &'a Json, path: &[&str]) -> Option<&'a Json> {
    let mut here = v;
    for key in path {
        here = here.get(key)?;
    }
    Some(here)
}

fn count(v: &Json, path: &[&str]) -> Option<usize> {
    at(v, path).and_then(|x| x.as_array()).map(|a| a.len())
}

fn text<'a>(v: &'a Json, path: &[&str]) -> Option<&'a str> {
    at(v, path).and_then(|x| x.as_str())
}

// ----- parse_legacy_query --------------------------------------------------

#[test]
fn parse_query_empty() {
    let q = parse_legacy_query(&query(&[]));
    assert_eq!(q.since, None);
    assert_eq!(q.timeout, Duration::ZERO);
    assert!(!q.use_state_after);
}

#[test]
fn parse_query_since_passthrough() {
    let q = parse_legacy_query(&query(&[("since", "s_token_42")]));
    assert_eq!(q.since.as_deref(), Some("s_token_42"));
}

#[test]
fn parse_query_timeout_custom_ms() {
    let q = parse_legacy_query(&query(&[("timeout", "30000")]));
    assert_eq!(q.timeout, Duration::from_millis(30_000));
}

#[test]
fn parse_query_timeout_unparseable_falls_back_to_zero() {
    let q = parse_legacy_query(&query(&[("timeout", "not-a-number")]));
    assert_eq!(q.timeout, Duration::ZERO);
}

#[test]
fn parse_query_use_state_after_plain() {
    let q = parse_legacy_query(&query(&[("use_state_after", "true")]));
    assert!(q.use_state_after);
}

#[test]
fn parse_query_use_state_after_prefixed() {
    let q = parse_legacy_query(&query(&[("org.matrix.msc4222.use_state_after", "true")]));
    assert!(q.use_state_after);
}

#[test]
fn parse_query_use_state_after_either_form_truthy() {
    let q = parse_legacy_query(&query(&[
        ("use_state_after", "true"),
        ("org.matrix.msc4222.use_state_after", "true"),
    ]));
    assert!(q.use_state_after);
}

#[test]
fn parse_query_use_state_after_false_when_absent_or_off() {
    let q = parse_legacy_query(&query(&[("use_state_after", "false")]));
    assert!(!q.use_state_after);
    let q = parse_legacy_query(&query(&[("use_state_after", "")]));
    assert!(!q.use_state_after);
}

#[test]
fn parse_query_empty_since_treated_as_none() {
    let q = parse_legacy_query(&query(&[("since", "")]));
    assert_eq!(q.since, None);
    let q = parse_legacy_query(&query(&[("since", "abc")]));
    assert_eq!(q.since.as_deref(), Some("abc"));
}

#[test]
fn parse_query_filter_full_state_set_presence_ignored() {
    let q = parse_legacy_query(&query(&[
        ("filter", "0"),
        ("full_state", "true"),
        ("set_presence", "offline"),
    ]));
    assert_eq!(q.since, None);
    assert_eq!(q.timeout, Duration::ZERO);
    assert!(!q.use_state_after);
}

#[test]
fn switches_are_read_in_capitals_too() {
    for on in ["TRUE", "True", "tRuE"] {
        assert!(parse_legacy_query(&query(&[("use_state_after", on)])).use_state_after);
    }
    for off in ["truee", "tru", "yes", "1"] {
        assert!(!parse_legacy_query(&query(&[("use_state_after", off)])).use_state_after);
    }
}

#[test]
fn a_wait_is_a_number_of_64_bits() {
    let longest = parse_legacy_query(&query(&[("timeout", "18446744073709551615")]));
    assert_eq!(longest.timeout, Duration::from_millis(u64::MAX));
    let longer = parse_legacy_query(&query(&[("timeout", "18446744073709551616")]));
    assert_eq!(longer.timeout, Duration::ZERO);
    let signed = parse_legacy_query(&query(&[("timeout", "+7")]));
    assert_eq!(signed.timeout, Duration::from_millis(7));
    let negative = parse_legacy_query(&query(&[("timeout", "-7")]));
    assert_eq!(negative.timeout, Duration::ZERO);
}

// ----- synthesize_v5_request -----------------------------------------------

#[test]
fn synthesize_uses_legacy_conn_id() {
    let req = synthesize_v5_request(&LegacyQuery::default());
    assert_eq!(req.conn_id.as_deref(), Some(LEGACY_CONN_ID));
}

#[test]
fn synthesize_has_single_list_named_all() {
    let req = synthesize_v5_request(&LegacyQuery::default());
    assert_eq!(req.lists.len(), 1);
    assert!(req.lists.contains_key("all"));
}

#[test]
fn synthesize_list_ranges_and_timeline_limit() {
    let req = synthesize_v5_request(&LegacyQuery::default());
    let list = req.lists.get("all").expect("list \"all\" present");
    assert_eq!(list.ranges, vec![(0, u64::from(ruma::UInt::MAX))]);
    assert_eq!(RANGE_END, u64::from(ruma::UInt::MAX));
    assert_eq!(list.room_details.timeline_limit, 50);
}

#[test]
fn synthesize_required_state_wildcard() {
    let req = synthesize_v5_request(&LegacyQuery::default());
    let list = req.lists.get("all").expect("list present");
    assert_eq!(list.room_details.required_state.len(), 1);
    let (evt_type, state_key) = &list.room_details.required_state[0];
    assert_eq!(evt_type, "*");
    assert_eq!(state_key, "*");
}

#[test]
fn synthesize_passes_pos_through() {
    let q = LegacyQuery {
        since: Some("xyz".to_string()),
        ..Default::default()
    };
    let req = synthesize_v5_request(&q);
    assert_eq!(req.pos.as_deref(), Some("xyz"));
}

#[test]
fn synthesize_timeout_none_when_zero() {
    let req = synthesize_v5_request(&LegacyQuery::default());
    assert_eq!(req.timeout, None);
}

#[test]
fn synthesize_timeout_some_when_nonzero() {
    let q = LegacyQuery {
        timeout: Duration::from_millis(12_345),
        ..Default::default()
    };
    let req = synthesize_v5_request(&q);
    assert_eq!(req.timeout, Some(Duration::from_millis(12_345)));
}

#[test]
fn synthesize_room_subscriptions_empty() {
    let req = synthesize_v5_request(&LegacyQuery::default());
    assert_eq!(req.room_subscriptions.len(), 0);
}

#[test]
fn synthesize_asks_for_notices_and_keys() {
    let req = synthesize_v5_request(&LegacyQuery::default());
    assert_eq!(req.typing_enabled, Some(true));
    assert_eq!(req.receipts_enabled, Some(true));
    assert_eq!(req.e2ee_enabled, Some(true));
}

// ----- translate_response --------------------------------------------------

fn make_response(pos: &str, rooms: Vec<(&str, SyncRoom)>) -> SyncResponse {
    let mut map = StrMap::new();
    for (id, room) in rooms {
        map.insert(id.to_string(), room);
    }
    SyncResponse {
        pos: pos.to_string(),
        rooms: map,
        typing: StrMap::new(),
        receipts: StrMap::new(),
        changed: Vec::new(),
        left: Vec::new(),
        one_time_keys: StrMap::new(),
    }
}

fn joined_room() -> SyncRoom {
    SyncRoom {
        timeline: vec![value(
            r#"{"type":"m.room.message","event_id":"$msg:example.org","content":{"body":"hi"}}"#,
        )],
        required_state: vec![value(
            r#"{"type":"m.room.name","state_key":"","content":{"name":"Room"}}"#,
        )],
        invite_state: None,
    }
}

fn invite_room() -> SyncRoom {
    SyncRoom {
        timeline: Vec::new(),
        required_state: Vec::new(),
        invite_state: Some(vec![value(
            r#"{"type":"m.room.member","state_key":"@u:example.org",
                "sender":"@inviter:example.org","content":{"membership":"invite"}}"#,
        )]),
    }
}

fn members(pairs: &[(&str, Membership)]) -> StrMap<Membership> {
    let mut m = StrMap::new();
    for (room, membership) in pairs {
        m.insert(room.to_string(), *membership);
    }
    m
}

#[test]
fn translate_empty_response_has_only_stubs() {
    let v = translate_response(make_response("pos1", vec![]), &members(&[]));
    assert_eq!(text(&v, &["next_batch"]), Some("pos1"));
    for bucket in ["join", "invite", "leave", "knock"] {
        same(at(&v, &["rooms", bucket]).unwrap(), "{}");
    }
    same(at(&v, &["presence"]).unwrap(), r#"{"events":[]}"#);
    same(at(&v, &["account_data"]).unwrap(), r#"{"events":[]}"#);
    same(at(&v, &["to_device"]).unwrap(), r#"{"events":[]}"#);
    same(
        at(&v, &["device_lists"]).unwrap(),
        r#"{"changed":[],"left":[]}"#,
    );
    same(at(&v, &["device_one_time_keys_count"]).unwrap(), "{}");
}

#[test]
fn translate_next_batch_equals_pos() {
    let v = translate_response(make_response("opaque-cursor-xyz", vec![]), &members(&[]));
    assert_eq!(text(&v, &["next_batch"]), Some("opaque-cursor-xyz"));
}

#[test]
fn translate_joined_room_buckets_to_join_with_dual_state() {
    let r = "!joined:example.org";
    let resp = make_response("p", vec![(r, joined_room())]);
    let v = translate_response(resp, &members(&[(r, Membership::Join)]));
    let room = at(&v, &["rooms", "join", r]).expect("room landed in rooms.join");
    assert!(at(&v, &["rooms", "invite", r]).is_none());
    assert!(at(&v, &["rooms", "leave", r]).is_none());

    let state = at(room, &["state", "events"]).unwrap();
    let after = at(room, &["org.matrix.msc4222.state_after", "events"]).unwrap();
    assert_eq!(codec::print(state), codec::print(after));
    assert_eq!(state.as_array().map(|a| a.len()), Some(1));

    assert_eq!(at(room, &["timeline", "limited"]).unwrap().as_bool(), Some(false));
    assert_eq!(text(room, &["timeline", "prev_batch"]), Some(""));
    assert_eq!(count(room, &["timeline", "events"]), Some(1));
    same(at(room, &["ephemeral"]).unwrap(), r#"{"events":[]}"#);
    same(at(room, &["account_data"]).unwrap(), r#"{"events":[]}"#);
}

#[test]
fn translate_knock_buckets_to_knock() {
    let r = "!knocked:example.org";
    let room = SyncRoom {
        timeline: Vec::new(),
        required_state: vec![value(
            r#"{"type":"m.room.member","state_key":"@knocker:example.org",
                "sender":"@knocker:example.org","content":{"membership":"knock"},
                "event_id":"$knock-evt:example.org","origin_server_ts":1700000000000,
                "unsigned":{"age":42},"prev_content":{"membership":"leave"},
                "room_id":"!knocked:example.org"}"#,
        )],
        invite_state: None,
    };
    let resp = make_response("p", vec![(r, room)]);
    let v = translate_response(resp, &members(&[(r, Membership::Knock)]));
    let room = at(&v, &["rooms", "knock", r]).expect("knock room landed in rooms.knock");
    for other in ["join", "invite", "leave"] {
        assert!(at(&v, &["rooms", other, r]).is_none());
    }
    let events = at(room, &["knock_state", "events"])
        .and_then(|x| x.as_array())
        .expect("knock_state.events is an array");
    assert_eq!(events.len(), 1);
    let evt = &events[0];
    let obj = evt.as_object().expect("event is a JSON object");
    let keys: Vec<String> = (0..obj.len()).map(|i| obj.key_at(i).clone()).collect();
    assert_eq!(keys, vec!["content", "sender", "state_key", "type"]);
    assert_eq!(text(evt, &["type"]), Some("m.room.member"));
    assert_eq!(text(evt, &["state_key"]), Some("@knocker:example.org"));
    assert_eq!(text(evt, &["sender"]), Some("@knocker:example.org"));
    same(at(evt, &["content"]).unwrap(), r#"{"membership":"knock"}"#);
    for dropped in [
        "event_id",
        "origin_server_ts",
        "unsigned",
        "prev_content",
        "room_id",
    ] {
        assert!(evt.get(dropped).is_none(), "{dropped}");
    }
}

#[test]
fn translate_unknown_membership_falling_back_does_not_land_in_knock() {
    let r_join = "!stray-join:example.org";
    let r_invite = "!stray-invite:example.org";
    let resp = make_response("p", vec![(r_join, joined_room()), (r_invite, invite_room())]);
    let v = translate_response(resp, &members(&[]));
    assert_eq!(
        at(&v, &["rooms", "knock"]).and_then(|x| x.as_object()).map(|o| o.len()),
        Some(0)
    );
    assert!(at(&v, &["rooms", "knock", r_join]).is_none());
    assert!(at(&v, &["rooms", "knock", r_invite]).is_none());
    assert!(at(&v, &["rooms", "join", r_join]).is_some());
    assert!(at(&v, &["rooms", "invite", r_invite]).is_some());
}

#[test]
fn translate_invite_room_lifts_invite_state() {
    let r = "!invited:example.org";
    let resp = make_response("p", vec![(r, invite_room())]);
    let v = translate_response(resp, &members(&[(r, Membership::Invite)]));
    let room = at(&v, &["rooms", "invite", r]).expect("room landed in rooms.invite");
    assert!(at(&v, &["rooms", "join", r]).is_none());
    assert!(at(&v, &["rooms", "leave", r]).is_none());
    let events = at(room, &["invite_state", "events"])
        .and_then(|x| x.as_array())
        .expect("invite_state.events is an array");
    assert_eq!(events.len(), 1);
    assert_eq!(text(&events[0], &["type"]), Some("m.room.member"));
    assert_eq!(text(&events[0], &["content", "membership"]), Some("invite"));
}

#[test]
fn translate_leave_room_buckets_to_leave() {
    let r = "!left:example.org";
    let resp = make_response("p", vec![(r, joined_room())]);
    let v = translate_response(resp, &members(&[(r, Membership::Leave)]));
    assert!(at(&v, &["rooms", "leave", r]).is_some());
    assert!(at(&v, &["rooms", "join", r]).is_none());
    assert!(at(&v, &["rooms", "invite", r]).is_none());
}

#[test]
fn translate_ban_buckets_to_leave() {
    let r = "!banned:example.org";
    let resp = make_response("p", vec![(r, joined_room())]);
    let v = translate_response(resp, &members(&[(r, Membership::Ban)]));
    assert!(at(&v, &["rooms", "leave", r]).is_some());
}

#[test]
fn translate_multiple_rooms_correctly_bucketed() {
    let resp = make_response(
        "p",
        vec![
            ("!join:example.org", joined_room()),
            ("!invite:example.org", invite_room()),
            ("!leave:example.org", joined_room()),
        ],
    );
    let v = translate_response(
        resp,
        &members(&[
            ("!join:example.org", Membership::Join),
            ("!invite:example.org", Membership::Invite),
            ("!leave:example.org", Membership::Leave),
        ]),
    );
    for bucket in ["join", "invite", "leave"] {
        let rooms = at(&v, &["rooms", bucket]).and_then(|x| x.as_object()).unwrap();
        assert_eq!(rooms.len(), 1);
        assert!(rooms.contains_key(&format!("!{bucket}:example.org")));
    }
}

#[test]
fn translate_unknown_membership_defaults_to_join() {
    let r = "!stray:example.org";
    let v = translate_response(make_response("p", vec![(r, joined_room())]), &members(&[]));
    assert!(at(&v, &["rooms", "join", r]).is_some());
}

#[test]
fn translate_unknown_membership_with_invite_state_buckets_to_invite() {
    let r = "!race-invite:example.org";
    let v = translate_response(make_response("p", vec![(r, invite_room())]), &members(&[]));
    let room = at(&v, &["rooms", "invite", r]).expect("room landed in rooms.invite");
    assert!(at(&v, &["rooms", "join", r]).is_none());
    assert!(at(&v, &["rooms", "leave", r]).is_none());
    let events = at(room, &["invite_state", "events"])
        .and_then(|x| x.as_array())
        .expect("invite_state.events is an array");
    assert_eq!(events.len(), 1, "stripped event preserved");
    assert_eq!(text(&events[0], &["type"]), Some("m.room.member"));
    assert_eq!(text(&events[0], &["content", "membership"]), Some("invite"));
}

#[test]
fn translate_stubs_always_present_and_well_shaped() {
    let v = translate_response(make_response("p", vec![]), &members(&[]));
    for path in [["presence", "events"], ["account_data", "events"], ["to_device", "events"]] {
        same(at(&v, &path).unwrap(), "[]");
    }
    same(at(&v, &["device_lists", "changed"]).unwrap(), "[]");
    same(at(&v, &["device_lists", "left"]).unwrap(), "[]");
    same(at(&v, &["device_one_time_keys_count"]).unwrap(), "{}");
}

#[test]
fn notices_are_folded_into_joined_rooms() {
    let mut resp = make_response("p", vec![("!a:x", joined_room()), ("!left:x", joined_room())]);
    let typing = r#"{"type":"m.typing","content":{"user_ids":["@u:x"]}}"#;
    let receipt = r#"{"type":"m.receipt","content":{}}"#;
    for room in ["!a:x", "!bare:x", "!left:x", "!unknown:x"] {
        resp.typing.insert(room.to_string(), typing.to_string());
        resp.receipts.insert(room.to_string(), receipt.to_string());
    }
    resp.typing.insert("!broken:x".to_string(), "{".to_string());
    let v = translate_response(
        resp,
        &members(&[
            ("!a:x", Membership::Join),
            ("!bare:x", Membership::Join),
            ("!broken:x", Membership::Join),
            ("!left:x", Membership::Leave),
        ]),
    );
    let both = format!("[{typing},{receipt}]");
    same(at(&v, &["rooms", "join", "!a:x", "ephemeral", "events"]).unwrap(), &both);
    assert_eq!(count(&v, &["rooms", "join", "!a:x", "timeline", "events"]), Some(1));
    // A room with a notice and no event has a bare entry.
    same(at(&v, &["rooms", "join", "!bare:x", "ephemeral", "events"]).unwrap(), &both);
    assert_eq!(count(&v, &["rooms", "join", "!bare:x", "timeline", "events"]), Some(0));
    // A notice that is no JSON, of a room that was left, or of an unknown room is dropped.
    assert!(at(&v, &["rooms", "join", "!broken:x"]).is_none());
    assert!(at(&v, &["rooms", "join", "!unknown:x"]).is_none());
    same(at(&v, &["rooms", "leave", "!left:x", "ephemeral", "events"]).unwrap(), "[]");
}

#[test]
fn keys_and_messages_ride_along() {
    let mut resp = make_response("p", vec![]);
    resp.changed.push("@b:x".to_string());
    resp.left.push("@c:x".to_string());
    resp.one_time_keys.insert("signed_curve25519".to_string(), 7);
    let pending = vec![value(r#"{"type":"m.room_key"}"#)];
    let reply = sync_reply(Ok(resp), &members(&[]), pending);
    assert_eq!(reply.status, 200);
    same(
        at(&reply.body, &["device_lists"]).unwrap(),
        r#"{"changed":["@b:x"],"left":["@c:x"]}"#,
    );
    same(
        at(&reply.body, &["device_one_time_keys_count"]).unwrap(),
        r#"{"signed_curve25519":7}"#,
    );
    same(
        at(&reply.body, &["to_device", "events"]).unwrap(),
        r#"[{"type":"m.room_key"}]"#,
    );
}

#[test]
fn each_failed_sync_has_its_answer() {
    let cases = vec![
        (SyncError::UnknownPos, 400, "M_UNKNOWN_POS", "Unknown position"),
        (SyncError::BadRequest("no"), 400, "M_INVALID_PARAM", "no"),
        (
            SyncError::Storage(StorageError { message: "disk".to_string() }),
            500,
            "M_UNKNOWN",
            "disk",
        ),
        (SyncError::EventConversion("bad".to_string()), 500, "M_UNKNOWN", "bad"),
    ];
    for (e, status, errcode, message) in cases {
        let reply = sync_reply(Err(e), &members(&[]), Vec::new());
        assert_eq!(reply.status, status);
        assert_eq!(text(&reply.body, &["errcode"]), Some(errcode));
        assert_eq!(text(&reply.body, &["error"]), Some(message));
    }
}

#[test]
fn a_stale_token_starts_over() {
    let q = parse_legacy_query(&query(&[("since", "old"), ("timeout", "5")]));
    match after_sync(&q, Err(SyncError::UnknownPos)) {
        AfterSync::Again(req) => {
            assert_eq!(req.pos, None);
            assert_eq!(req.timeout, Some(Duration::from_millis(5)));
            assert_eq!(req.conn_id.as_deref(), Some(LEGACY_CONN_ID));
        }
        AfterSync::Answer(_) => panic!("the sync is asked for once more"),
    }
    assert!(matches!(
        after_sync(&q, Err(SyncError::BadRequest("no"))),
        AfterSync::Answer(Err(SyncError::BadRequest("no")))
    ));
    assert!(matches!(
        after_sync(&q, Ok(make_response("p", vec![]))),
        AfterSync::Answer(Ok(_))
    ));
}

#[test]
fn the_token_of_an_answer_is_the_position_of_the_next_sync() {
    let v = translate_response(make_response("17", vec![]), &members(&[]));
    let token = text(&v, &["next_batch"]).unwrap();
    let req = synthesize_v5_request(&parse_legacy_query(&query(&[("since", token)])));
    assert_eq!(req.pos.as_deref(), Some("17"));
}

#[test]
fn invitations_from_elsewhere_are_memberships() {
    let rows = members(&[("!in:x", Membership::Join)]);
    let merged = merge_memberships(rows, &vec!["!in:x".to_string(), "!out:y".to_string()]);
    assert_eq!(merged.len(), 2);
    assert_eq!(merged.get("!in:x"), Some(&Membership::Join));
    assert_eq!(merged.get("!out:y"), Some(&Membership::Invite));
}
