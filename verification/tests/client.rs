use neutrino::client::{
    check_declared_length, check_status, claimed_keys, logged_body, media_of, transaction_body,
    FederationClient, FederationClientError, Request, Verb,
};
use neutrino::codec;
use neutrino::engine::{ForwardExtremities, MissingEventsQuery, TransportError};
use neutrino::json::JsonObject;
use neutrino::send::{response, Progress};
use neutrino::strmap::StrMap;
use serde_json::Value;

fn client(proxied: bool) -> FederationClient {
    FederationClient {
        origin: "local.test".to_string(),
        proxied,
    }
}

fn body(r: &Request) -> Value {
    serde_json::from_str(r.body.as_deref().expect("a body")).expect("the body is JSON")
}

fn strings(items: &[&str]) -> Vec<String> {
    items.iter().map(|s| s.to_string()).collect()
}

fn object(text: &str) -> JsonObject {
    match codec::parse_object(text) {
        Ok(m) => m,
        Err(e) => panic!("{e}"),
    }
}

#[test]
fn url_authority_suffixes_the_host_only_when_proxied() {
    let proxied = client(true);
    let direct = client(false);
    assert_eq!(proxied.url_authority("0104"), "0104~");
    assert_eq!(proxied.url_authority("0104:5683"), "0104~:5683");
    assert_eq!(proxied.url_authority("localhost:8448"), "localhost~:8448");
    assert_eq!(
        proxied.url_authority("[2001:db8::1]:8448"),
        "[2001:db8::1]:8448"
    );
    assert_eq!(direct.url_authority("0104"), "0104");
    assert_eq!(direct.url_authority("localhost:8448"), "localhost:8448");
}

#[test]
fn sentinel_defeats_whatwg_ipv4_reinterpretation() {
    let mangled = reqwest::Url::parse("http://0104/x").unwrap();
    assert_eq!(mangled.host_str(), Some("0.0.0.68"));
    let kept = reqwest::Url::parse("http://0104~/x").unwrap();
    assert_eq!(kept.host_str(), Some("0104~"));
    assert!(reqwest::Url::parse("http://0189/x").is_err());
    assert_eq!(
        reqwest::Url::parse("http://0189~/x").unwrap().host_str(),
        Some("0189~")
    );
}

#[test]
fn ports_are_written_as_plain_numbers() {
    assert_eq!(client(true).url_authority("host:00080"), "host~:80");
    assert_eq!(client(true).url_authority("host:+80"), "host~:80");
    assert_eq!(client(false).url_authority("host:00080"), "host:00080");
}

#[test]
fn requests_say_who_sends_them_to_whom() {
    assert_eq!(
        client(false).x_matrix("peer.test:8448"),
        "X-Matrix origin=\"local.test\",destination=\"peer.test:8448\""
    );
    let r = client(true).media_download("0104", "abc");
    assert_eq!(
        r.authorization,
        "X-Matrix origin=\"local.test\",destination=\"0104\""
    );
}

#[test]
fn send_transaction_puts_to_correct_path_and_body() {
    let pdus = strings(&[r#"{"n":1}"#, r#"{"n":2}"#]);
    let r = client(false).send_transaction("peer.test", "txn-1", &pdus, &vec![], &StrMap::new());
    assert_eq!(r.verb, Verb::Put);
    assert_eq!(r.url, "http://peer.test/_matrix/federation/v1/send/txn-1");
    // The events are sent as they are, in their order, and nothing else is.
    assert_eq!(r.body.as_deref(), Some(r#"{"pdus":[{"n":1},{"n":2}]}"#));
    let keys: Vec<String> = body(&r).as_object().unwrap().keys().cloned().collect();
    assert_eq!(keys, vec!["pdus"]);
}

#[test]
fn messages_and_heads_are_sent_where_there_are_any() {
    let mut heads = StrMap::new();
    heads.insert(
        "!r:x".to_string(),
        ForwardExtremities {
            timeline: strings(&["$t:x"]),
            state: strings(&["$s:x", "$u:x"]),
        },
    );
    let edus = strings(&[r#"{"edu_type":"a"}"#, r#"{ "edu_type" : "b" }"#]);
    let text = transaction_body(&vec![], &edus, &heads);
    assert_eq!(
        text,
        concat(&[
            r#"{"pdus":[],"edus":[{"edu_type":"a"},{ "edu_type" : "b" }],"#,
            r#""forward_extremities":{"!r:x":{"state":["$s:x","$u:x"],"timeline":["$t:x"]}}}"#,
        ])
    );
}

fn concat(parts: &[&str]) -> String {
    parts.iter().map(|s| s.to_string()).collect()
}

#[test]
fn outbound_bodies_round_trip_through_inbound_parsers() {
    let pdus = strings(&[r#"{"type":"m.room.message"}"#]);
    let text = transaction_body(&pdus, &vec![], &StrMap::new());
    let v: Value = serde_json::from_str(&text).expect("the body is JSON");
    assert_eq!(v["pdus"][0]["type"], "m.room.message");
    assert!(v.get("edus").is_none());
    assert!(v.get("forward_extremities").is_none());

    let r = client(false)
        .get_missing_events(
            "peer.test",
            "!r:example.org",
            &strings(&["$l:example.org"]),
            &strings(&["$e:example.org"]),
            7,
            true,
            true,
        )
        .expect("the address is one");
    let v = body(&r);
    assert_eq!(v["latest_events"][0], "$l:example.org");
    assert_eq!(v["earliest_events"][0], "$e:example.org");
    assert_eq!(v["limit"], 7);
    assert_eq!(v["state_dag"], true);
    assert_eq!(v["include_latest_events"], true);
    assert_eq!(v.as_object().unwrap().len(), 5);
}

#[test]
fn forward_extremities_round_trip_through_both_send_halves() {
    let mut heads = StrMap::new();
    heads.insert(
        "!r:example.org".to_string(),
        ForwardExtremities {
            timeline: strings(&["$t:example.org"]),
            state: strings(&["$s:example.org"]),
        },
    );
    let pdus = strings(&[r#"{"type":"m.room.message"}"#]);
    let text = transaction_body(&pdus, &vec![], &heads);
    let request: Value = serde_json::from_str(&text).expect("the body is JSON");
    assert_eq!(
        request["forward_extremities"]["!r:example.org"]["state"][0],
        "$s:example.org"
    );
    // The answer to a transaction tells heads in the same form.
    let answer = codec::print(&response(&Progress::new(), &heads));
    let answer: Value = serde_json::from_str(&answer).expect("the answer is JSON");
    assert_eq!(
        answer["forward_extremities"],
        request["forward_extremities"]
    );
    // Without heads the answer has no such field.
    let plain = codec::print(&response(&Progress::new(), &StrMap::new()));
    assert_eq!(plain, r#"{"pdus":{}}"#);
}

#[test]
fn keys_are_asked_for_and_claimed() {
    let requested = object(r#"{"@u:peer.test":["DEV"]}"#);
    let r = client(false).keys_query("peer.test", &requested);
    assert_eq!(r.verb, Verb::Post);
    assert_eq!(
        r.url,
        "http://peer.test/_matrix/federation/v1/user/keys/query"
    );
    assert_eq!(
        r.body.as_deref(),
        Some(r#"{"device_keys":{"@u:peer.test":["DEV"]}}"#)
    );
    let r = client(false).keys_claim("peer.test", &requested);
    assert_eq!(r.verb, Verb::Post);
    assert_eq!(
        r.url,
        "http://peer.test/_matrix/federation/v1/user/keys/claim"
    );
    assert_eq!(
        r.body.as_deref(),
        Some(r#"{"one_time_keys":{"@u:peer.test":["DEV"]}}"#)
    );
}

#[test]
fn a_claim_without_keys_is_answered_by_none() {
    let cases = [
        (r#"{"one_time_keys":{"@u:x":{}}}"#, r#"{"@u:x":{}}"#),
        (r#"{}"#, "{}"),
        (r#"{"one_time_keys":7}"#, "{}"),
        (r#"[]"#, "{}"),
    ];
    for (answer, keys) in cases {
        let v = codec::parse(answer).expect("the text is JSON");
        assert_eq!(codec::print(&claimed_keys(&v)), keys);
    }
}

#[test]
fn backfill_builds_url_and_parses_pdus() {
    let r = client(false)
        .backfill(
            "peer.test",
            "!room:example.org",
            &strings(&["$seed1:example.org", "$seed2:example.org"]),
            10,
        )
        .expect("the address is one");
    assert_eq!(r.verb, Verb::Get);
    assert_eq!(r.body, None);
    assert_eq!(
        r.url,
        concat(&[
            "http://peer.test/_matrix/federation/v1/backfill/!room:example.org",
            "?v=%24seed1%3Aexample.org&v=%24seed2%3Aexample.org&limit=10",
        ])
    );
}

#[test]
fn path_segments_are_encoded() {
    let r = client(true)
        .make_join("0104:8448", "!a/b?c#d", "@u:x", &strings(&["11", "12"]))
        .expect("the address is one");
    assert_eq!(r.verb, Verb::Get);
    assert_eq!(
        r.url,
        "http://0104~:8448/_matrix/federation/v1/make_join/!a%2Fb%3Fc%23d/@u:x?ver=11&ver=12"
    );
    let r = client(false)
        .make_leave("peer.test", "!r:x", "@u:x", &strings(&[]))
        .expect("the address is one");
    assert_eq!(
        r.url,
        "http://peer.test/_matrix/federation/v1/make_leave/!r:x/@u:x"
    );
    let r = client(false)
        .query_directory("peer.test", "#a b:peer.test")
        .expect("the address is one");
    assert_eq!(
        r.url,
        "http://peer.test/_matrix/federation/v1/query/directory?room_alias=%23a+b%3Apeer.test"
    );
}

#[test]
fn memberships_are_sent_as_they_are() {
    let pdu = r#"{ "type" : "m.room.member" }"#;
    let c = client(false);
    let join = c.send_join("peer.test", "!r:x", "$e:x", pdu).expect("an address");
    assert_eq!(join.verb, Verb::Put);
    assert_eq!(
        join.url,
        "http://peer.test/_matrix/federation/v2/send_join/!r:x/$e:x"
    );
    assert_eq!(join.body.as_deref(), Some(pdu));
    let leave = c.send_leave("peer.test", "!r:x", "$e:x", pdu).expect("an address");
    assert_eq!(
        leave.url,
        "http://peer.test/_matrix/federation/v2/send_leave/!r:x/$e:x"
    );
    assert_eq!(leave.body.as_deref(), Some(pdu));
    let state = vec![codec::parse(r#"{"type":"m.room.name"}"#).expect("JSON")];
    let invite = c
        .invite("peer.test", "!r:x", "$e:x", pdu, "12", state)
        .expect("an address");
    assert_eq!(
        invite.url,
        "http://peer.test/_matrix/federation/v2/invite/!r:x/$e:x"
    );
    assert_eq!(
        invite.body.as_deref(),
        Some(concat(&[
            r#"{"event":{ "type" : "m.room.member" },"room_version":"12","#,
            r#""invite_room_state":[{"type":"m.room.name"}]}"#,
        ]))
        .as_deref()
    );
}

#[test]
fn what_is_no_address_is_an_error() {
    // An all-digit host that is no number is refused without a proxy.
    let q = MissingEventsQuery {
        origin: "0189".to_string(),
        room_id: "!r:x".to_string(),
        latest: vec![],
        earliest: vec![],
        limit: 1,
        state_dag: true,
        include_latest_events: false,
    };
    match client(false).fetch(&q) {
        Err(TransportError::Transient(s)) => assert_eq!(s, "could not build federation URL"),
        _ => panic!("the address was built"),
    }
    let r = client(true).fetch(&q).expect("behind a proxy it is one");
    assert_eq!(
        r.url,
        "http://0189~/_matrix/federation/v1/get_missing_events/!r:x"
    );
}

#[test]
fn errors_are_told_in_words() {
    let cases = vec![
        (
            FederationClientError::Transport("refused".to_string()),
            "federation transport error: refused",
        ),
        (FederationClientError::Status(502), "peer returned HTTP 502"),
        (
            FederationClientError::InvalidUrl,
            "could not build federation URL",
        ),
        (
            FederationClientError::Malformed("no content part"),
            "malformed federation response: no content part",
        ),
    ];
    for (e, words) in cases {
        assert_eq!(e.message(), words);
        let is_status = matches!(e, FederationClientError::Status(_));
        match e.into_transport() {
            TransportError::Status(code) => assert!(is_status && code == 502),
            TransportError::Transient(s) => assert_eq!(s, words),
        }
    }
}

#[test]
fn statuses_below_200_and_from_300_on_are_errors() {
    for ok in [200, 201, 299] {
        assert!(check_status(ok).is_ok());
    }
    for bad in [100, 199, 300, 403, 404, 500] {
        match check_status(bad) {
            Err(FederationClientError::Status(code)) => assert_eq!(code, bad),
            _ => panic!("{bad} is no success"),
        }
    }
}

#[test]
fn what_is_logged_is_cut() {
    assert_eq!(logged_body("short"), "short");
    let long = "\u{e9}".repeat(1025);
    assert_eq!(logged_body(&long), "\u{e9}".repeat(1024));
}

fn fault(r: Result<neutrino::client::StoredMedia, FederationClientError>) -> &'static str {
    match r {
        Err(FederationClientError::Malformed(m)) => m,
        _ => panic!("the media was taken"),
    }
}

#[test]
fn media_is_taken_up_to_the_cap() {
    let content = |n: usize| Some(("text/plain".to_string(), vec![0u8; n]));
    let media = media_of(10, Some(1034), true, 1034, content(10)).expect("at the cap");
    assert_eq!(media.content_type, "text/plain");
    assert_eq!(media.bytes.len(), 10);
    assert_eq!(media.filename, None);
    assert_eq!(
        fault(media_of(10, Some(1035), true, 0, content(1))),
        "media over the cap"
    );
    assert_eq!(
        fault(media_of(10, None, false, 0, content(1))),
        "not multipart/mixed"
    );
    assert_eq!(
        fault(media_of(10, None, true, 1035, content(1))),
        "media over the cap"
    );
    assert_eq!(fault(media_of(10, None, true, 0, None)), "no content part");
    assert_eq!(
        fault(media_of(10, None, true, 1034, content(11))),
        "media over the cap"
    );
    assert!(check_declared_length(usize::MAX, Some(u64::MAX)).is_ok());
    assert!(check_declared_length(0, Some(1024)).is_ok());
    assert!(check_declared_length(0, Some(1025)).is_err());
    assert!(check_declared_length(0, None).is_ok());
}
