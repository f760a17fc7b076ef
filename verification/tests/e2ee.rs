use neutrino::codec;
use neutrino::e2ee::{E2eeSnapshot, E2eeState};
use neutrino::fed_keys;
use neutrino::json::{Json, JsonObject};
use neutrino::key_store::{KeyStore, Op};
use neutrino::reply::FedError;

fn value(text: &str) -> Json {
    codec::parse(text).expect("the text is JSON")
}

fn object(text: &str) -> JsonObject {
    match codec::parse_object(text) {
        Ok(m) => m,
        Err(e) => panic!("{e}"),
    }
}

fn shown(m: JsonObject) -> String {
    codec::print(&Json::object(m))
}

fn with_keys() -> KeyStore {
    let mut s = KeyStore::new();
    s.put_one_time_keys(
        "@u:x",
        "DEV",
        &object(r#"{"signed_curve25519:AAB":2,"signed_curve25519:AAA":1,"other:Z":9}"#),
    );
    s
}

#[test]
fn keys_are_claimed_in_the_order_of_their_upload_and_once() {
    let mut s = KeyStore::new();
    s.put_one_time_keys("@u:x", "DEV", &object(r#"{"alg:2":2}"#));
    s.put_one_time_keys("@u:x", "DEV", &object(r#"{"alg:1":1}"#));
    let (id, key) = s.claim_one_time_key("@u:x", "DEV", "alg").expect("a key");
    assert_eq!((id.as_str(), codec::print(&key).as_str()), ("alg:2", "2"));
    let (id, _) = s.claim_one_time_key("@u:x", "DEV", "alg").expect("a key");
    assert_eq!(id, "alg:1");
    assert!(s.claim_one_time_key("@u:x", "DEV", "alg").is_none());
    assert!(s.claim_one_time_key("@u:x", "OTHER", "alg").is_none());
}

#[test]
fn a_key_that_is_uploaded_again_keeps_its_value() {
    let mut s = with_keys();
    s.put_one_time_keys("@u:x", "DEV", &object(r#"{"other:Z":10}"#));
    let (_, key) = s.claim_one_time_key("@u:x", "DEV", "other").expect("a key");
    assert_eq!(codec::print(&key), "9");
}

#[test]
fn keys_are_counted_by_algorithm() {
    let mut s = with_keys();
    assert_eq!(
        shown(s.one_time_key_counts("@u:x", "DEV")),
        r#"{"other":1,"signed_curve25519":2}"#
    );
    // What is reported for a user is the least that any of the devices has.
    s.put_device("@u:x", "DEV", value("{}"));
    s.put_device("@u:x", "POOR", value("{}"));
    s.put_one_time_keys("@u:x", "POOR", &object(r#"{"signed_curve25519:Q":1}"#));
    let least = s.one_time_key_counts_for_user("@u:x");
    assert_eq!(least.get("signed_curve25519").unwrap().as_u64(), Some(1));
    assert_eq!(least.get("other").unwrap().as_u64(), Some(0));
    assert_eq!(shown(s.one_time_key_counts_for_user("@nobody:x")), "{}");
}

#[test]
fn devices_are_listed_as_asked() {
    let mut s = KeyStore::new();
    s.put_device("@u:x", "A", value(r#"{"device_id":"A"}"#));
    s.put_device("@u:x", "B", value(r#"{"device_id":"B"}"#));
    let all = s.device_keys_for(&object(r#"{"@u:x":[],"@nobody:x":[]}"#));
    assert_eq!(
        shown(all),
        r#"{"@u:x":{"A":{"device_id":"A"},"B":{"device_id":"B"}}}"#
    );
    let one = s.device_keys_for(&object(r#"{"@u:x":["B","C"]}"#));
    assert_eq!(shown(one), r#"{"@u:x":{"B":{"device_id":"B"}}}"#);
}

#[test]
fn signatures_are_merged_into_the_keys_of_a_device() {
    let mut s = KeyStore::new();
    s.put_device(
        "@u:x",
        "A",
        value(r#"{"signatures":{"@u:x":{"ed25519:A":"old"}}}"#),
    );
    s.merge_device_signatures(
        "@u:x",
        "A",
        object(r#"{"ed25519:master":"new"}"#),
    );
    assert_eq!(
        shown(s.device_keys_for(&object(r#"{"@u:x":[]}"#))),
        r#"{"@u:x":{"A":{"signatures":{"@u:x":{"ed25519:A":"old","ed25519:master":"new"}}}}}"#
    );
}

#[test]
fn changes_are_written_to_the_journal_once_it_is_attached() {
    let mut s = KeyStore::new();
    s.put_device("@u:x", "A", value("1"));
    assert!(s.take_journal().is_empty());
    s.attach_journal();
    s.put_device("@u:x", "B", value("2"));
    s.put_one_time_keys("@u:x", "B", &object(r#"{"alg:1":1}"#));
    assert!(s.claim_one_time_key("@u:x", "B", "alg").is_some());
    let ops = s.take_journal();
    assert_eq!(ops.len(), 3);
    assert!(matches!(&ops[0], Op::PutDevice { device, .. } if device == "B"));
    assert!(matches!(&ops[1], Op::PutOneTimeKeys { one_time, .. } if one_time.len() == 1));
    assert!(matches!(&ops[2], Op::RemoveOneTimeKey { key_id, .. } if key_id == "alg:1"));
    assert!(s.take_journal().is_empty());
}

#[test]
fn messages_are_delivered_once_and_in_order() {
    let mut s = E2eeState::new();
    let before = s.changed;
    s.push_to_device("@u:x", "m.room_key", "@s:y", value("1"));
    s.push_to_device("@u:x", "m.room_key", "@s:y", value("2"));
    assert_ne!(s.changed, before);
    assert_eq!(s.pending_to_device("@u:x"), 2);
    assert_eq!(s.pending_to_device("@v:x"), 0);
    let events = s.drain_to_device("@u:x");
    assert_eq!(
        codec::print(&events[0]),
        r#"{"content":1,"sender":"@s:y","type":"m.room_key"}"#
    );
    assert_eq!(events.len(), 2);
    assert!(s.drain_to_device("@u:x").is_empty());
}

#[test]
fn a_restart_restores_everything() {
    let mut s = E2eeState::new();
    s.load(&E2eeSnapshot {
        devices: vec![("@u:x".to_string(), "A".to_string(), "{\"k\":1}".to_string())],
        one_time_keys: vec![
            (
                "@u:x".to_string(),
                "A".to_string(),
                "alg:9".to_string(),
                "9".to_string(),
            ),
            (
                "@u:x".to_string(),
                "A".to_string(),
                "alg:1".to_string(),
                "1".to_string(),
            ),
        ],
        cross_signing: vec![("master_key".to_string(), "{\"m\":1}".to_string())],
        to_device: vec![
            (4, "@u:x".to_string(), "{\"type\":\"a\"}".to_string()),
            (7, "@u:x".to_string(), "no JSON".to_string()),
        ],
    });
    assert_eq!(
        shown(s.keys.device_keys_for(&object(r#"{"@u:x":[]}"#))),
        r#"{"@u:x":{"A":{"k":1}}}"#
    );
    let (id, _) = s.keys.claim_one_time_key("@u:x", "A", "alg").expect("a key");
    assert_eq!(id, "alg:9");
    assert_eq!(s.pending_to_device("@u:x"), 1);
    // The next identifier comes behind every stored one, read or not.
    assert_eq!(s.next_inbox_id, 8);
    assert_eq!(
        codec::print(s.keys.cross_signing().get("master_key").unwrap()),
        r#"{"m":1}"#
    );
}

#[test]
fn other_servers_are_told_of_our_users_alone() {
    let mut s = KeyStore::new();
    s.put_device("@u:x", "A", value("1"));
    s.put_device("@v:y", "B", value("2"));
    s.put_one_time_keys("@v:y", "B", &object(r#"{"alg:1":1}"#));
    s.put_cross_signing("master_keys", value("{}"));
    let body = value(r#"{"device_keys":{"@u:x":[],"@v:y":[],"nobody":[]}}"#);
    assert_eq!(
        codec::print(&fed_keys::query(&s, "x", &body)),
        r#"{"device_keys":{"@u:x":{"A":1}},"master_keys":{}}"#
    );
    let body = value(r#"{"one_time_keys":{"@v:y":{"B":"alg"}}}"#);
    assert_eq!(
        codec::print(&fed_keys::claim(&mut s, "x", &body)),
        r#"{"one_time_keys":{}}"#
    );
    assert_eq!(
        codec::print(&fed_keys::claim(&mut s, "y", &body)),
        r#"{"one_time_keys":{"@v:y":{"B":{"alg:1":1}}}}"#
    );
    assert_eq!(
        codec::print(&fed_keys::claim(&mut s, "y", &value("{}"))),
        r#"{"one_time_keys":{}}"#
    );
}

#[test]
fn devices_of_a_user_are_listed_to_other_servers() {
    let mut s = KeyStore::new();
    s.put_device("@u:x", "A", value("1"));
    assert_eq!(
        codec::print(&fed_keys::devices(&s, "x", "@u:x").expect("a user of ours")),
        r#"{"devices":[{"device_id":"A","keys":1}],"stream_id":1,"user_id":"@u:x"}"#
    );
    assert!(matches!(
        fed_keys::devices(&s, "x", "u"),
        Err(FedError::BadRequest("user id is not a valid Matrix user id"))
    ));
    assert!(matches!(
        fed_keys::devices(&s, "x", "@u:y"),
        Err(FedError::BadRequest("user does not belong to this server"))
    ));
}
