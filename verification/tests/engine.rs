use std::time::Duration;

use neutrino::engine::{
    backoff_base, epoch_ms, jitter, jitter_ceiling, jitter_from, next_backoff, now_ms, room_version, room_version_for_wire,
    room_version_keys, ForwardExtremities, StorageError, TransportError, TxnIdGen, VersionError,
};
use neutrino::event::{RedactionKeys, RegistryError, RoomVersion, RoomVersions, ROOM_VERSION_ID};

#[test]
fn txn_id_gen_is_monotonic_and_prefixed() {
    let mut g = TxnIdGen::new(42);
    assert_eq!(g.next_id(), "42-0");
    assert_eq!(g.next_id(), "42-1");
    assert_eq!(g.next_id(), "42-2");
}

fn other_version() -> RoomVersion {
    RoomVersion {
        id: "org.matrix.neutrino.test.other".to_string(),
        redaction_keys: RedactionKeys {
            added: vec!["prev_state_events".to_string()],
            removed: vec![],
        },
    }
}

fn both() -> RoomVersions {
    RoomVersions::new(Some(other_version())).expect("distinct ids")
}

#[test]
fn resolves_a_room_of_a_known_version() {
    let versions = RoomVersions::base_only();
    let got = room_version(Ok(Some(ROOM_VERSION_ID.to_string())), &versions)
        .expect("base version resolves");
    assert_eq!(got.id, ROOM_VERSION_ID);
}

#[test]
fn a_room_we_do_not_have_is_terminal() {
    let versions = RoomVersions::base_only();
    let err = room_version(Ok(None), &versions).expect_err("unknown room");
    assert!(matches!(err, VersionError::UnknownRoom));
    assert!(!err.is_retryable(), "must not be retried");
    assert_eq!(err.message(), "no version on record for this room");
}

#[test]
fn a_room_of_an_unsupported_version_is_terminal() {
    let stored = || Ok(Some(other_version().id));
    let base = RoomVersions::base_only();
    let err = room_version(stored(), &base).expect_err("unsupported version");
    assert!(matches!(&err, VersionError::Unsupported(v) if *v == other_version().id));
    assert!(!err.is_retryable(), "must not be retried");
    assert_eq!(
        err.message(),
        "unsupported room version org.matrix.neutrino.test.other"
    );
    let versions = both();
    assert_eq!(
        room_version(stored(), &versions).expect("resolves").id,
        other_version().id
    );
}

#[test]
fn one_store_holds_rooms_of_several_versions() {
    let versions = both();
    for id in [ROOM_VERSION_ID.to_string(), other_version().id] {
        assert_eq!(
            room_version(Ok(Some(id.clone())), &versions).expect("resolves").id,
            id
        );
    }
    assert_eq!(
        versions.ids(),
        vec![ROOM_VERSION_ID.to_string(), other_version().id]
    );
}

#[test]
fn a_failed_read_can_be_retried() {
    let versions = RoomVersions::base_only();
    let fault = StorageError {
        message: "disk".to_string(),
    };
    let err = room_version(Err(fault), &versions).expect_err("the store failed");
    assert!(err.is_retryable());
    assert_eq!(err.message(), "reading room version: disk");
}

#[test]
fn the_base_version_is_registered_once() {
    let again = RoomVersion {
        id: ROOM_VERSION_ID.to_string(),
        redaction_keys: RedactionKeys {
            added: vec![],
            removed: vec![],
        },
    };
    assert!(matches!(
        RoomVersions::new(Some(again)),
        Err(RegistryError::DuplicateId(id)) if id == ROOM_VERSION_ID
    ));
    assert_eq!(RoomVersions::base_only().base().id, ROOM_VERSION_ID);
}

#[test]
fn an_event_is_named_by_its_room_or_by_what_it_declares() {
    let versions = both();
    let in_room = room_version_keys(r#"{"type":"m.room.create","room_id":"!r:x"}"#);
    assert!(matches!(
        room_version_for_wire(in_room, Ok(None), &versions),
        Err(VersionError::UnknownRoom)
    ));
    let declared = room_version_keys(
        r#"{"type":"m.room.create","content":{"room_version":"org.matrix.neutrino.test.other"}}"#,
    );
    assert_eq!(
        room_version_for_wire(declared, Ok(None), &versions).expect("resolves").id,
        other_version().id
    );
    let unspoken =
        room_version_keys(r#"{"type":"m.room.create","content":{"room_version":"11"}}"#);
    assert!(matches!(
        room_version_for_wire(unspoken, Ok(None), &versions),
        Err(VersionError::Unsupported(v)) if v == "11"
    ));
    for silent in [r#"{"type":"m.room.create","content":{}}"#, "[]", "{"] {
        let keys = room_version_keys(silent);
        assert_eq!(
            room_version_for_wire(keys, Ok(None), &versions).expect("resolves").id,
            ROOM_VERSION_ID
        );
    }
}

#[test]
fn waits_double_up_to_a_cap() {
    let mut wait = backoff_base();
    let mut last = Duration::ZERO;
    for _ in 0..64 {
        assert!(wait >= last);
        last = wait;
        wait = next_backoff(wait);
    }
    assert_eq!(wait, last);
    assert_eq!(next_backoff(backoff_base()), backoff_base() * 2);
}

#[test]
fn a_jittered_wait_stays_below_its_ceiling() {
    let ceiling = Duration::from_millis(20);
    let waits: Vec<Duration> = (0..200).map(|_| jitter(ceiling)).collect();
    assert!(waits.iter().all(|w| *w <= ceiling));
    assert!(waits.iter().any(|w| *w != waits[0]));
    assert_eq!(jitter(Duration::ZERO), Duration::ZERO);
}

#[test]
fn the_clock_goes_on_from_the_epoch() {
    let first = now_ms();
    assert!(first > 1_600_000_000_000);
    assert!(now_ms() >= first);
}

#[test]
fn heads_are_empty_without_any() {
    let none = ForwardExtremities {
        timeline: vec![],
        state: vec![],
    };
    assert!(none.is_empty());
    let some = ForwardExtremities {
        timeline: vec![],
        state: vec!["$e:x".to_string()],
    };
    assert!(!some.is_empty());
}

#[test]
fn transport_errors_are_told_in_words() {
    assert_eq!(TransportError::Status(404).message(), "peer returned HTTP 404");
    assert_eq!(
        TransportError::Transient("refused".to_string()).message(),
        "federation transport error: refused"
    );
}

#[test]
fn every_draw_up_to_the_ceiling_stands_for_its_wait() {
    let ceiling = Duration::from_micros(20_900);
    assert_eq!(jitter_ceiling(ceiling), 20);
    assert_eq!(jitter_from(ceiling, 0), Duration::ZERO);
    assert_eq!(jitter_from(ceiling, 7), Duration::from_millis(7));
    assert_eq!(jitter_from(ceiling, 20), Duration::from_millis(20));
    assert_eq!(jitter_ceiling(Duration::from_micros(999)), 0);
    assert_eq!(jitter(Duration::from_micros(999)), Duration::ZERO);
}

#[test]
fn a_random_wait_reaches_both_ends() {
    let ceiling = Duration::from_millis(2);
    let waits: Vec<Duration> = (0..400).map(|_| jitter(ceiling)).collect();
    assert!(waits.contains(&Duration::ZERO));
    assert!(waits.contains(&ceiling));
}

#[test]
fn a_clock_before_the_epoch_says_nothing() {
    assert_eq!(epoch_ms(None), 0);
    assert_eq!(epoch_ms(Some(Duration::from_micros(1_234_999))), 1_234);
    assert_eq!(epoch_ms(Some(Duration::MAX)), (Duration::MAX.as_millis() % (1 << 64)) as u64);
}

#[test]
fn the_base_version_keeps_the_state_parents() {
    for versions in [RoomVersions::base_only(), both()] {
        let keys = &versions.base().redaction_keys;
        assert_eq!(keys.added, vec!["prev_state_events".to_string()]);
        assert!(keys.removed.is_empty());
    }
    assert_eq!(RoomVersions::base_only().ids(), vec![ROOM_VERSION_ID.to_string()]);
}
