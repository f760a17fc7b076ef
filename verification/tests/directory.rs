use neutrino::codec;
use neutrino::directory::{get_alias, put_alias, resolve_for_join};
use neutrino::engine::StorageError;
use neutrino::json::Json;
use neutrino::query_directory;
use neutrino::reply::Reply;

fn value(text: &str) -> Json {
    codec::parse(text).expect("the text is JSON")
}

fn fault() -> StorageError {
    StorageError {
        message: "disk".to_string(),
    }
}

fn told(r: Reply) -> (u16, String) {
    (r.status, codec::print(&r.body))
}

fn error(status: u16, errcode: &str, message: &str) -> (u16, String) {
    (
        status,
        format!("{{\"errcode\":\"{errcode}\",\"error\":\"{message}\"}}"),
    )
}

#[test]
fn an_alias_of_ours_is_looked_up_here() {
    let none = || Err("not asked".to_string());
    assert_eq!(
        told(get_alias("#a:x", "x", Ok(Some("!r:x".to_string())), none())),
        (200, r#"{"room_id":"!r:x","servers":["x"]}"#.to_string())
    );
    assert_eq!(
        told(get_alias("#a:x", "x", Ok(None), none())),
        error(404, "M_NOT_FOUND", "Room alias not found")
    );
    assert_eq!(
        told(get_alias("#a:x", "x", Err(fault()), none())),
        error(500, "M_UNKNOWN", "resolving alias: disk")
    );
}

#[test]
fn another_alias_is_looked_up_at_its_server() {
    assert_eq!(
        told(get_alias("#a:y:8448", "x", Ok(None), Ok("!r".to_string()))),
        (
            200,
            r#"{"room_id":"!r","servers":["y:8448"]}"#.to_string()
        )
    );
    assert_eq!(
        told(get_alias("#a:y", "x", Ok(None), Err("gone".to_string()))),
        error(404, "M_NOT_FOUND", "could not resolve #a:y at y: gone")
    );
}

#[test]
fn what_is_no_alias_is_refused() {
    let r = get_alias("a:x", "x", Ok(None), Err(String::new()));
    assert_eq!(r.status, 400);
}

#[test]
fn an_alias_is_claimed_once_and_by_its_server() {
    let body = value(r#"{"room_id":"!r:x"}"#);
    assert_eq!(told(put_alias("#a:x", "x", &body, Ok(true))), (200, "{}".to_string()));
    assert_eq!(
        told(put_alias("#a:x", "x", &body, Ok(false))),
        error(409, "M_ROOM_IN_USE", "Room alias is already taken")
    );
    assert_eq!(
        told(put_alias("#a:x", "x", &body, Err(fault()))),
        error(500, "M_UNKNOWN", "claiming alias: disk")
    );
    assert_eq!(
        told(put_alias("#a:y", "x", &body, Ok(true))),
        error(
            403,
            "M_EXCLUSIVE",
            "Cannot create an alias in another server's namespace"
        )
    );
    assert_eq!(
        told(put_alias("#a:x", "x", &value("{}"), Ok(true))),
        error(400, "M_MISSING_PARAM", "Missing room_id")
    );
    assert_eq!(
        told(put_alias("#a:x", "x", &value(r#"{"room_id":"r"}"#), Ok(true))),
        error(400, "M_INVALID_PARAM", "Malformed room_id")
    );
    assert_eq!(put_alias("a", "x", &body, Ok(true)).status, 400);
}

#[test]
fn an_alias_is_resolved_for_a_join() {
    let room = || "!r:x".to_string();
    assert_eq!(
        resolve_for_join("#a:x", "x", Ok(Some(room())), Err(String::new())),
        Some((room(), None))
    );
    assert_eq!(
        resolve_for_join("#a:y", "x", Ok(None), Ok(room())),
        Some((room(), Some("y".to_string())))
    );
    assert_eq!(resolve_for_join("#a:y", "x", Ok(None), Ok("r".to_string())), None);
    assert_eq!(resolve_for_join("#a:y", "x", Ok(None), Err("e".to_string())), None);
    assert_eq!(resolve_for_join("#a:x", "x", Ok(None), Ok(room())), None);
    assert_eq!(resolve_for_join("#a:x", "x", Err(fault()), Ok(room())), None);
    assert_eq!(resolve_for_join("a", "x", Ok(Some(room())), Ok(room())), None);
}

#[test]
fn other_servers_are_answered_for_our_aliases() {
    assert_eq!(
        told(query_directory::answer("#a:x", "x", Ok(Some("!r:x".to_string())))),
        (200, r#"{"room_id":"!r:x","servers":["x"]}"#.to_string())
    );
    assert_eq!(query_directory::answer("#a:x", "x", Ok(None)).status, 404);
    assert_ne!(
        query_directory::answer("#a:y", "x", Ok(Some("!r:x".to_string()))).status,
        200
    );
    assert_ne!(query_directory::answer("a", "x", Ok(None)).status, 200);
}
