use neutrino::codec;
use neutrino::e2ee::E2eeState;
use neutrino::edus::deliver_edus;
use neutrino::engine::{stage_order, ForwardExtremities, Staging, StagingStep, StorageError};
use neutrino::ephemeral::EphemeralState;
use neutrino::event::{Event, RoomVersions, ROOM_VERSION_ID};
use neutrino::inbound::{Action, Inbound};
use neutrino::reception::{accept, Reception};
use neutrino::reply::FedError;
use neutrino::send::{
    check_origin, check_size, duplicate_response, response, strip_known, Progress, Transaction,
};
use neutrino::strmap::{StrMap, StrSet};

fn transaction(pdus: usize, origin: Option<&str>) -> Transaction {
    Transaction {
        origin: origin.map(str::to_string),
        pdus: vec!["{}".to_string(); pdus],
        edus: vec![],
        forward_extremities: StrMap::new(),
    }
}

fn event(id: &str, room: &str, sender: &str) -> Event {
    Event {
        event_id: id.to_string(),
        room_id: room.to_string(),
        sender: sender.to_string(),
        event_type: "m.room.message".to_string(),
        state_key: None,
        origin_server_ts: 1,
        content: "{}".to_string(),
        prev_events: vec!["$prev:o".to_string()],
        prev_state_events: vec!["$state:o".to_string()],
        auth_events: vec![],
        rejected: false,
        soft_failed: false,
        raw: "{}".to_string(),
    }
}

fn fault() -> StorageError {
    StorageError {
        message: "disk".to_string(),
    }
}

fn pdu(room: &str) -> String {
    format!("{{\"type\":\"m.room.message\",\"room_id\":\"{room}\"}}")
}

#[test]
fn a_transaction_has_at_most_fifty_events() {
    assert!(check_size(&transaction(50, None)).is_ok());
    assert!(matches!(
        check_size(&transaction(51, None)),
        Err(FedError::BadRequest("transaction exceeds 50 PDUs"))
    ));
}

#[test]
fn a_transaction_is_from_who_sends_it() {
    assert!(check_origin(&transaction(0, None), "o").is_ok());
    assert!(check_origin(&transaction(0, Some("o")), "o").is_ok());
    assert!(matches!(
        check_origin(&transaction(0, Some("p")), "o"),
        Err(FedError::Unauthorized(_))
    ));
}

#[test]
fn events_are_named_staged_and_answered_for() {
    let versions = RoomVersions::base_only();
    let pdus = vec![pdu("!r:x"), pdu("!r:x"), pdu("!other:x"), "[]".to_string()];
    let (mut inbound, action) = Inbound::begin("o".to_string(), pdus);
    assert!(matches!(&action, Action::AskVersion { room_id: Some(r) } if r == "!r:x"));
    let action = inbound.on_version(Ok(Some(ROOM_VERSION_ID.to_string())), &versions);
    assert!(matches!(&action, Action::Name { index: 0, version } if version == ROOM_VERSION_ID));
    let action = inbound.on_named(Some(&event("$1:o", "!r:x", "@a:o")));
    assert!(matches!(action, Action::Stage { index: 0 }));
    // The version of the room is known by now.
    let action = inbound.on_staged(Ok(()));
    assert!(matches!(&action, Action::Name { index: 1, version } if version == ROOM_VERSION_ID));
    let action = inbound.on_named(Some(&event("$2:o", "!r:x", "@a:o")));
    assert!(matches!(action, Action::Stage { index: 1 }));
    let action = inbound.on_staged(Err(fault()));
    assert!(matches!(&action, Action::AskVersion { room_id: Some(r) } if r == "!other:x"));
    // A room that is not known here: its event is dropped.
    let action = inbound.on_version(Ok(None), &versions);
    assert!(matches!(&action, Action::AskVersion { room_id: None }));
    let action = inbound.on_version(Ok(None), &versions);
    assert!(matches!(&action, Action::Name { index: 3, .. }));
    let action = inbound.on_named(None);
    assert!(matches!(action, Action::Finish));
    // One event failed to be staged, so the transaction is to be sent again.
    assert!(!inbound.progress.must_record());
    assert_eq!(
        codec::print(&response(&inbound.progress, &StrMap::new())),
        r#"{"pdus":{"$1:o":{},"$2:o":{"error":"disk"}}}"#
    );
    assert_eq!(
        inbound.progress.response_rooms(&StrMap::new()),
        vec!["!r:x".to_string()]
    );
}

#[test]
fn a_failure_of_the_store_leaves_the_transaction_undone() {
    let versions = RoomVersions::base_only();
    let (mut inbound, _) = Inbound::begin("o".to_string(), vec![pdu("!r:x"), pdu("!r:x")]);
    let action = inbound.on_version(Err(fault()), &versions);
    // Nothing is decided for the room, so it is asked for again.
    assert!(matches!(&action, Action::AskVersion { room_id: Some(r) } if r == "!r:x"));
    let action = inbound.on_version(Ok(Some("99".to_string())), &versions);
    assert!(matches!(action, Action::Finish));
    assert!(!inbound.progress.must_record());
}

#[test]
fn an_event_that_occurs_twice_is_staged_once() {
    let versions = RoomVersions::base_only();
    let (mut inbound, _) = Inbound::begin("o".to_string(), vec![pdu("!r:x"), pdu("!r:x")]);
    let known = Ok(Some(ROOM_VERSION_ID.to_string()));
    inbound.on_version(known, &versions);
    inbound.on_named(Some(&event("$1:o", "!r:x", "@a:o")));
    inbound.on_staged(Ok(()));
    let action = inbound.on_named(Some(&event("$1:o", "!r:x", "@a:o")));
    assert!(matches!(action, Action::Finish));
    assert!(inbound.progress.must_record());
}

fn heads(timeline: &[&str], state: &[&str]) -> ForwardExtremities {
    ForwardExtremities {
        timeline: timeline.iter().map(|s| s.to_string()).collect(),
        state: state.iter().map(|s| s.to_string()).collect(),
    }
}

#[test]
fn only_heads_that_the_sender_lacks_are_told() {
    let mut progress = Progress::new();
    assert!(progress.note_named(&event("$1:o", "!r:x", "@a:o"), "o"));
    progress.note_staged("$1:o", "!r:x", Ok(()));
    let mut ours = StrMap::new();
    ours.insert("!r:x".to_string(), heads(&["$1:o", "$new:x"], &["$state:o"]));
    ours.insert("!s:x".to_string(), heads(&["$prev:o"], &[]));
    assert_eq!(
        codec::print(&response(&progress, &ours)),
        r#"{"forward_extremities":{"!r:x":{"state":[],"timeline":["$new:x"]}},"pdus":{"$1:o":{}}}"#
    );
    // The parents in the timeline count only where the sender's own user sent the event.
    let mut relayed = Progress::new();
    relayed.note_named(&event("$1:o", "!r:x", "@a:elsewhere"), "o");
    assert!(relayed.held.contains("$state:o"));
    assert!(!relayed.held.contains("$prev:o"));
    let mut known = StrSet::new();
    known.insert("$prev:o".to_string());
    let left = strip_known(&ours, &known);
    assert_eq!(left.len(), 1);
    assert_eq!(codec::print(&duplicate_response()), r#"{"pdus":{}}"#);
}

#[test]
fn only_events_of_the_room_are_staged() {
    let events = vec![
        event("$1:o", "!r:x", "@a:o"),
        event("$2:o", "!s:x", "@a:o"),
        event("$3:o", "!r:x", "@a:o"),
    ];
    assert_eq!(stage_order(&events, "!r:x"), vec![0, 2]);
    assert!(stage_order(&events, "!t:x").is_empty());
}

fn deliver(edus: &[&str]) -> (E2eeState, EphemeralState) {
    let mut inbox = E2eeState::new();
    let mut passing = EphemeralState::new();
    let edus: Vec<String> = edus.iter().map(|s| s.to_string()).collect();
    assert!(deliver_edus(&mut inbox, &mut passing, "own", "o", &edus, 5));
    (inbox, passing)
}

#[test]
fn messages_to_devices_reach_our_users() {
    let (mut inbox, _) = deliver(&[
        r#"{"edu_type":"m.direct_to_device","content":{"type":"m.room_key","sender":"@s:o",
            "messages":{"@u:own":{"A":{"k":1}},"@v:elsewhere":{"B":{"k":2}}}}}"#,
        "no JSON",
        r#"{"edu_type":"m.presence"}"#,
    ]);
    let events = inbox.drain_to_device("@u:own");
    assert_eq!(events.len(), 1);
    assert_eq!(
        codec::print(&events[0]),
        r#"{"content":{"k":1},"sender":"@s:o","type":"m.room_key"}"#
    );
    assert_eq!(inbox.pending_to_device("@v:elsewhere"), 0);
}

#[test]
fn typing_is_taken_for_users_of_the_sender() {
    let (_, mut passing) = deliver(&[
        r#"{"edu_type":"m.typing","content":{"room_id":"!r:x","user_id":"@a:o","typing":true}}"#,
        r#"{"edu_type":"m.typing","content":{"room_id":"!r:x","user_id":"@b:own","typing":true}}"#,
    ]);
    assert_eq!(passing.typing_in("!r:x", 5), vec!["@a:o".to_string()]);
}

#[test]
fn receipts_are_taken() {
    let (_, passing) = deliver(&[
        r#"{"edu_type":"m.receipt","content":{"!r:x":{"m.read":{
            "@a:o":{"event_ids":["$e:o"],"data":{"ts":7}}}}}}"#,
    ]);
    let held = passing.receipts_in("!r:x");
    assert_eq!(held.get("@a:o").unwrap().event_id, "$e:o");
    assert_eq!(held.get("@a:o").unwrap().ts, 7);
}

fn origin(name: &str) -> Result<String, FedError> {
    Ok(name.to_string())
}

#[test]
fn a_repeated_transaction_is_answered_and_nothing_else_is_done() {
    let versions = RoomVersions::base_only();
    let mut record: Vec<(String, String)> = Vec::new();
    let mut txn = transaction(0, None);
    txn.pdus = vec![pdu("!r:x")];
    txn.edus = vec!["{}".to_string()];
    let accepted = accept(txn, origin("o"), "dup".to_string()).expect("it is taken");
    assert_eq!((accepted.key.origin.as_str(), accepted.key.txn_id.as_str()), ("o", "dup"));
    let Ok(Reception::Fresh { key, work }) = accepted.on_record(Ok(false)) else {
        panic!("it is new");
    };
    assert_eq!((work.pdus.len(), work.edus.len(), work.advertised.len()), (1, 1, 0));
    let (mut inbound, _) = Inbound::begin(key.origin.clone(), work.pdus);
    inbound.on_version(Ok(Some(ROOM_VERSION_ID.to_string())), &versions);
    inbound.on_named(Some(&event("$1:o", "!r:x", "@a:o")));
    inbound.on_staged(Ok(()));
    let done = key.to_record(&inbound.progress).expect("it goes on record");
    record.push((done.origin, done.txn_id));
    // Again, with other contents and a claimed origin: what the network attests counts.
    let again = accept(transaction(50, Some("o")), origin("o"), "dup".to_string()).expect("taken");
    let key = (again.key.origin.clone(), again.key.txn_id.clone());
    let Ok(Reception::Repeated { answer }) = again.on_record(Ok(record.contains(&key))) else {
        panic!("it was handled before");
    };
    assert_eq!(codec::print(&answer), r#"{"pdus":{}}"#);
    // Another server's transaction of that name is another one.
    let other = accept(transaction(1, None), origin("p"), "dup".to_string()).expect("taken");
    let key = (other.key.origin.clone(), other.key.txn_id.clone());
    assert!(matches!(
        other.on_record(Ok(record.contains(&key))),
        Ok(Reception::Fresh { .. })
    ));
}

#[test]
fn a_transaction_that_failed_is_handled_again() {
    let versions = RoomVersions::base_only();
    let accepted = accept(transaction(1, None), origin("o"), "1".to_string()).expect("taken");
    let Ok(Reception::Fresh { key, .. }) = accepted.on_record(Ok(false)) else {
        panic!("it is new");
    };
    let (mut inbound, _) = Inbound::begin("o".to_string(), vec![pdu("!r:x")]);
    inbound.on_version(Err(fault()), &versions);
    assert!(key.to_record(&inbound.progress).is_none());
}

#[test]
fn a_transaction_is_refused_for_its_size_then_its_origin() {
    let unknown = || Err(FedError::Unauthorized("no origin"));
    assert!(matches!(
        accept(transaction(51, Some("p")), unknown(), "1".to_string()),
        Err(FedError::BadRequest("transaction exceeds 50 PDUs"))
    ));
    assert!(matches!(
        accept(transaction(50, Some("p")), unknown(), "1".to_string()),
        Err(FedError::Unauthorized("no origin"))
    ));
    assert!(matches!(
        accept(transaction(50, Some("p")), origin("o"), "1".to_string()),
        Err(FedError::Unauthorized("X-Matrix origin does not match the transaction origin"))
    ));
    let accepted = accept(transaction(50, Some("o")), origin("o"), "1".to_string()).expect("taken");
    assert!(matches!(accepted.on_record(Err(fault())), Err(FedError::Storage(_))));
}

#[test]
fn only_messages_to_devices_take_identifiers() {
    let message = r#"{"edu_type":"m.direct_to_device","content":{"type":"m.room_key",
        "sender":"@s:o","messages":{"@u:own":{"A":{"k":1}}}}}"#;
    let typing =
        r#"{"edu_type":"m.typing","content":{"room_id":"!r:x","user_id":"@a:o","typing":true}}"#;
    let receipt = r#"{"edu_type":"m.receipt","content":{"!r:x":{"m.read":{
        "@a:o":{"event_ids":["$e:o"],"data":{"ts":7}}}}}}"#;
    let edus: Vec<String> = [message, typing, receipt].iter().map(|s| s.to_string()).collect();
    let mut inbox = E2eeState::new();
    let mut passing = EphemeralState::new();
    inbox.next_inbox_id = i64::MAX - 1;
    // One identifier is left, and one message asks for one.
    assert!(deliver_edus(&mut inbox, &mut passing, "own", "o", &edus, 5));
    assert_eq!(inbox.pending_to_device("@u:own"), 1);
    assert_eq!(passing.typing_in("!r:x", 5), vec!["@a:o".to_string()]);
    assert_eq!(passing.receipts_in("!r:x").len(), 1);
    // None is left: what needs none is still done.
    assert!(deliver_edus(&mut inbox, &mut passing, "own", "o", &edus[1..].to_vec(), 6));
    assert!(!deliver_edus(&mut inbox, &mut passing, "own", "o", &edus, 7));
    assert_eq!(inbox.pending_to_device("@u:own"), 1);
}

#[test]
fn staging_stops_at_the_first_failure() {
    let events = vec![
        event("$1:o", "!r:x", "@a:o"),
        event("$2:o", "!s:x", "@a:o"),
        event("$3:o", "!r:x", "@a:o"),
    ];
    let (mut staging, step) = Staging::begin(&events, "!r:x");
    assert!(matches!(step, StagingStep::Stage { index: 0 }));
    assert!(matches!(staging.on_staged(Ok(())), StagingStep::Stage { index: 2 }));
    assert!(matches!(staging.on_staged(Ok(())), StagingStep::Poke));
    let (mut staging, _) = Staging::begin(&events, "!r:x");
    assert!(matches!(staging.on_staged(Err(fault())), StagingStep::Stop(e) if e.message == "disk"));
    let (_, step) = Staging::begin(&events, "!t:x");
    assert!(matches!(step, StagingStep::Poke));
}
