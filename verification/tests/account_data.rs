use neutrino::account_data::AccountDataState;
use neutrino::codec;
use neutrino::json::{Json, JsonObject};
use neutrino::strmap::StrMap;

fn value(text: &str) -> Json {
    codec::parse(text).expect("the text is JSON")
}

#[test]
fn writes_replace_and_are_reported_once_since_a_version() {
    let mut s = AccountDataState::new();
    s.set_global("@a:x", "m.direct", value(r#"{"@b:x":["!r:x"]}"#));
    let v1 = s.version();
    s.set_room("@a:x", "!r:x", "m.tag", value(r#"{"tags":{}}"#));
    s.set_global("@a:x", "m.direct", value(r#"{"@b:x":["!r:x","!s:x"]}"#));
    s.set_global("@other:x", "m.direct", value("{}"));

    let (global, rooms) = s.changed_since("@a:x", 0);
    assert_eq!(global.len(), 1, "everything held, once");
    assert_eq!(
        codec::print(global[0].1.get("@b:x").unwrap()),
        r#"["!r:x","!s:x"]"#
    );
    assert_eq!(rooms.get("!r:x").unwrap()[0].0, "m.tag");

    let (global, rooms) = s.changed_since("@a:x", v1);
    assert_eq!(global.len(), 1, "the later m.direct write, current content");
    assert_eq!(
        codec::print(global[0].1.get("@b:x").unwrap()),
        r#"["!r:x","!s:x"]"#
    );
    assert_eq!(rooms.len(), 1);

    let (global, rooms) = s.changed_since("@a:x", s.version());
    assert!(global.is_empty() && rooms.len() == 0, "nothing since now");
    assert_eq!(
        codec::print(s.get_room("@a:x", "!r:x", "m.tag").unwrap().get("tags").unwrap()),
        "{}"
    );
    assert!(s.get_global("@nobody:x", "m.direct").is_none());
}

#[test]
fn what_is_loaded_is_held_and_old() {
    let mut s = AccountDataState::new();
    s.load(vec![
        ("@a:x".to_string(), None, "m.direct".to_string(), value("1")),
        (
            "@a:x".to_string(),
            Some("!r:x".to_string()),
            "m.tag".to_string(),
            value("2"),
        ),
    ]);
    assert_eq!(codec::print(s.get_global("@a:x", "m.direct").unwrap()), "1");
    assert_eq!(codec::print(s.get_room("@a:x", "!r:x", "m.tag").unwrap()), "2");
    assert!(s.get_room("@a:x", "!other:x", "m.tag").is_none());
    // Nothing is stamped, so who has seen nothing is told everything.
    assert_eq!(s.version(), 0);
    let (global, rooms) = s.changed_since("@a:x", 0);
    assert_eq!(global.len(), 1);
    assert_eq!(rooms.len(), 1);
    s.set_global("@a:x", "m.other", value("3"));
    let now = s.version();
    let (global, rooms) = s.changed_since("@a:x", now);
    assert!(global.is_empty() && rooms.len() == 0);
}

#[test]
fn a_room_without_entries_is_not_listed() {
    let mut s = AccountDataState::new();
    let mut rooms = StrMap::new();
    rooms.insert("!bare:x".to_string(), JsonObject::new());
    s.rooms.insert("@a:x".to_string(), rooms);
    s.set_room("@a:x", "!r:x", "m.tag", value("{}"));
    let (_, rooms) = s.changed_since("@a:x", 0);
    assert_eq!(rooms.len(), 1);
    assert!(rooms.get("!r:x").is_some());
}
