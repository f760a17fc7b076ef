use std::time::Duration;

use neutrino::ephemeral::{EphemeralState, ReadReceipt};

#[test]
fn typing_starts_stops_and_expires() {
    let mut s = EphemeralState::new();
    let room = "!r:x";
    let alice = "@alice:x";
    let v0 = s.version;
    s.set_typing(room, alice, true, None, 0);
    assert_eq!(s.typing_in(room, 0), vec![alice.to_string()]);
    assert!(s.version > v0, "a start wakes");
    let v1 = s.version;
    s.set_typing(room, alice, true, None, 0);
    assert_eq!(s.version, v1, "a refresh does not");
    s.set_typing(room, alice, false, None, 0);
    assert!(s.typing_in(room, 0).is_empty());
    assert!(s.version > v1, "a stop wakes");

    s.set_typing(room, alice, true, Some(Duration::ZERO), 0);
    assert!(
        s.typing_in(room, 0).is_empty(),
        "expired notices are dropped on read"
    );
}

#[test]
fn receipts_only_move_forward() {
    let mut s = EphemeralState::new();
    let room = "!r:x";
    let alice = "@alice:x";
    let newer = ReadReceipt {
        event_id: "$b:x".to_string(),
        ts: 20,
    };
    let older = ReadReceipt {
        event_id: "$a:x".to_string(),
        ts: 10,
    };
    s.set_receipt(room, alice, newer.duplicate());
    let v = s.version;
    s.set_receipt(room, alice, older);
    let held = s.receipts_in(room);
    assert_eq!(held.get(alice).unwrap().event_id, "$b:x");
    assert_eq!(held.get(alice).unwrap().ts, 20);
    assert_eq!(s.version, v, "an older receipt changes nothing");
    s.set_receipt(room, alice, newer);
    assert_eq!(s.version, v, "a repeat changes nothing");
}

#[test]
fn notices_end_by_themselves() {
    let mut s = EphemeralState::new();
    s.set_typing("!r:x", "@a:x", true, Some(Duration::from_nanos(10)), 100);
    s.set_typing("!s:x", "@b:x", true, None, 100);
    assert_eq!(s.typing_in("!r:x", 109), vec!["@a:x".to_string()]);
    assert!(s.typing_in("!r:x", 110).is_empty());
    assert_eq!(s.rooms_with_typing(110), vec!["!s:x".to_string()]);
}

#[test]
fn rooms_with_receipts_are_listed() {
    let mut s = EphemeralState::new();
    assert!(s.rooms_with_receipts().is_empty());
    s.set_receipt(
        "!r:x",
        "@a:x",
        ReadReceipt {
            event_id: "$e:x".to_string(),
            ts: 1,
        },
    );
    assert_eq!(s.rooms_with_receipts(), vec!["!r:x".to_string()]);
    assert_eq!(s.receipts_in("!other:x").len(), 0);
}

#[test]
fn a_start_after_an_ended_notice_wakes() {
    let mut s = EphemeralState::new();
    s.set_typing("!r:x", "@a:x", true, Some(Duration::from_nanos(10)), 100);
    s.set_typing("!r:x", "@b:x", true, None, 100);
    assert_eq!(s.version, 2);
    // A notice that lasts is renewed.
    s.set_typing("!r:x", "@a:x", true, Some(Duration::from_nanos(10)), 109);
    assert_eq!(s.version, 2);
    // It ended and nobody has looked since: this is a start, not a renewal.
    s.set_typing("!r:x", "@a:x", true, Some(Duration::from_nanos(10)), 119);
    assert_eq!(s.version, 3);
    // Nor is there anything to stop once it ended again.
    s.set_typing("!r:x", "@a:x", false, None, 129);
    assert_eq!(s.version, 3);
    assert_eq!(s.typing_in("!r:x", 129), vec!["@b:x".to_string()]);
}
