use neutrino::codec;
use neutrino::engine::{StorageError, VersionError};
use neutrino::event::Event;
use neutrino::reply::{co_sign_if_signed, map_apply_err, CoSigned, FedError, RoomActorError};

fn fault() -> StorageError {
    StorageError {
        message: "disk".to_string(),
    }
}

#[test]
fn each_error_has_its_answer_and_its_words() {
    let cases = vec![
        (FedError::BadRequest("b"), 400, "M_INVALID_PARAM", "b", "bad request: b"),
        (FedError::Unauthorized("u"), 401, "M_UNAUTHORIZED", "u", "unauthorized: u"),
        (FedError::Forbidden("f"), 403, "M_FORBIDDEN", "f", "forbidden: f"),
        (
            FedError::IncompatibleRoomVersion("12".to_string()),
            400,
            "M_INCOMPATIBLE_ROOM_VERSION",
            "room version not supported by the requester",
            "incompatible room version (supported: 12)",
        ),
        (FedError::RoomNotFound, 404, "M_NOT_FOUND", "room not found", "room not found"),
        (FedError::Internal("i"), 500, "M_UNKNOWN", "i", "internal: i"),
        (FedError::Storage(fault()), 500, "M_UNKNOWN", "disk", "storage: disk"),
    ];
    for (e, status, errcode, message, words) in cases {
        assert_eq!(e.message(), words);
        let versioned = matches!(e, FedError::IncompatibleRoomVersion(_));
        let r = e.into_response();
        assert_eq!(r.status, status);
        assert_eq!(r.body.get("errcode").unwrap().as_str(), Some(errcode));
        assert_eq!(r.body.get("error").unwrap().as_str(), Some(message));
        assert_eq!(r.body.get("room_version").is_some(), versioned);
    }
}

#[test]
fn an_unknown_version_is_not_the_senders_fault() {
    let version = |e| FedError::from_version(e).into_response().status;
    assert_eq!(version(VersionError::UnknownRoom), 404);
    assert_eq!(version(VersionError::Unsupported("9".to_string())), 500);
    assert_eq!(version(VersionError::Fault(fault())), 500);
}

#[test]
fn each_failure_to_apply_has_its_answer() {
    let status = |e| map_apply_err(e).into_response().status;
    assert_eq!(status(RoomActorError::Rejected), 403);
    assert_eq!(status(RoomActorError::UnknownRoom), 404);
    assert_eq!(status(RoomActorError::Storage(fault())), 500);
    assert_eq!(status(RoomActorError::Build(String::new())), 400);
    assert_eq!(status(RoomActorError::Apply(String::new())), 400);
    assert_eq!(status(RoomActorError::NotApplied), 500);
    assert_eq!(status(RoomActorError::ActorGone), 500);
    assert_eq!(status(RoomActorError::UnsupportedRoomVersion(String::new())), 500);
}

fn event(id: &str) -> Event {
    Event {
        event_id: id.to_string(),
        room_id: "!r:x".to_string(),
        sender: "@a:x".to_string(),
        event_type: "m.room.member".to_string(),
        state_key: None,
        origin_server_ts: 1,
        content: "{}".to_string(),
        prev_events: vec![],
        prev_state_events: vec![],
        auth_events: vec![],
        rejected: false,
        soft_failed: false,
        raw: "{}".to_string(),
    }
}

#[test]
fn events_are_signed_where_there_is_a_signer() {
    let kept = co_sign_if_signed(event("$1"), CoSigned::NoSigner).expect("kept");
    assert_eq!(kept.event_id, "$1");
    let signed = CoSigned::Signed("{\"signatures\":{}}".to_string());
    let kept = co_sign_if_signed(event("$1"), signed).expect("signed");
    assert_eq!(kept.raw, "{\"signatures\":{}}");
    assert_eq!(kept.event_id, "$1");
    assert_eq!(kept.content, event("$1").content);
    match co_sign_if_signed(event("$1"), CoSigned::Failed) {
        Err(e) => assert_eq!(
            codec::print(&e.into_response().body),
            r#"{"errcode":"M_INVALID_PARAM","error":"event cannot be co-signed"}"#
        ),
        Ok(_) => panic!("it could not be signed"),
    }
}
