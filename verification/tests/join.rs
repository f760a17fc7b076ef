use neutrino::client::FederationClientError;
use neutrino::codec;
use neutrino::engine::StorageError;
use neutrino::event::{Event, RoomVersions};
use neutrino::join::{
    complete_membership_template, founding_event, from_client_err, gateway, join_event, join_reply,
    keep_admitted, membership_is_join, parse_server_names, registered, resident_version,
    route_by_hosting, route_by_invite, staged, wait_for_join, Admitted, Dance, DanceAction, Hosting,
    JoinFailure, JoinRoute, RunningJoins, WaitAction, WaitEvent,
};

fn event(id: &str, kind: &str, room: &str) -> Event {
    Event {
        event_id: id.to_string(),
        room_id: room.to_string(),
        sender: "@a:x".to_string(),
        event_type: kind.to_string(),
        state_key: Some(String::new()),
        origin_server_ts: 1,
        content: "{}".to_string(),
        prev_events: vec!["$p:x".to_string()],
        prev_state_events: vec!["$q:x".to_string(), "$r:x".to_string()],
        auth_events: vec![],
        rejected: false,
        soft_failed: false,
        raw: "{}".to_string(),
    }
}

fn fault() -> StorageError {
    StorageError {
        message: "disk".to_string(),
    }
}

fn told(f: JoinFailure) -> (u16, String, String) {
    (f.status, f.errcode.to_string(), f.reason)
}

fn refusal() -> JoinFailure {
    from_client_err(FederationClientError::Status(403), "make_join request failed")
}

#[test]
fn parse_server_names_accepts_via_and_server_name() {
    assert_eq!(
        parse_server_names(Some("via=127.0.0.1%3A8008&via=other.example")),
        vec!["127.0.0.1:8008".to_string(), "other.example".to_string()]
    );
    assert_eq!(
        parse_server_names(Some("server_name=legacy.example")),
        vec!["legacy.example".to_string()]
    );
}

#[test]
fn parse_server_names_handles_repeats_and_encoded_colon() {
    assert_eq!(
        parse_server_names(Some(
            "server_name=127.0.0.1%3A8008&server_name=other.example&x=y"
        )),
        vec!["127.0.0.1:8008".to_string(), "other.example".to_string()]
    );
    assert!(parse_server_names(None).is_empty());
}

#[test]
fn parse_server_names_lowercase_colon_and_drops_garbage() {
    assert_eq!(
        parse_server_names(Some(
            "server_name=127.0.0.1%3a8008&server_name=!!!bad&server_name=ok.example"
        )),
        vec!["127.0.0.1:8008".to_string(), "ok.example".to_string()]
    );
}

#[test]
fn names_without_a_value_are_left_out() {
    assert!(parse_server_names(Some("")).is_empty());
    assert!(parse_server_names(Some("via")).is_empty());
    assert!(parse_server_names(Some("via=&VIA=a.example&&=b.example")).is_empty());
    assert_eq!(
        parse_server_names(Some("via=a.example&via=a.example")),
        vec!["a.example", "a.example"]
    );
}

#[test]
fn a_refusal_is_a_refusal_and_all_else_a_gateway_failure() {
    assert_eq!(
        told(refusal()),
        (
            403,
            "M_FORBIDDEN".to_string(),
            "resident refused the join".to_string()
        )
    );
    for e in [
        FederationClientError::Status(500),
        FederationClientError::InvalidUrl,
        FederationClientError::Transport("x".to_string()),
    ] {
        assert_eq!(
            told(from_client_err(e, "send_join request failed")),
            (
                502,
                "M_UNKNOWN".to_string(),
                "send_join request failed".to_string()
            )
        );
    }
}

fn run(attempts: Vec<Result<(), JoinFailure>>) -> (Vec<usize>, DanceAction) {
    let (mut dance, mut action) = Dance::begin(attempts.len());
    let mut tried = Vec::new();
    for attempt in attempts {
        match action {
            DanceAction::Try(i) => tried.push(i),
            other => return (tried, other),
        }
        action = dance.on_attempt(attempt);
    }
    (tried, action)
}

#[test]
fn candidates_are_asked_in_order_until_one_succeeds() {
    let (tried, action) = run(vec![Err(gateway("a")), Ok(()), Err(gateway("b"))]);
    assert_eq!(tried, vec![0, 1]);
    assert!(matches!(action, DanceAction::Wait));
}

#[test]
fn a_refusal_is_not_hidden_by_a_later_failure() {
    let (tried, action) = run(vec![
        Err(gateway("first")),
        Err(refusal()),
        Err(gateway("last")),
    ]);
    assert_eq!(tried, vec![0, 1, 2]);
    match action {
        DanceAction::Done(Err(f)) => assert_eq!(f.status, 403),
        _ => panic!("the join failed"),
    }
    match run(vec![Err(gateway("first")), Err(gateway("last"))]).1 {
        DanceAction::Done(Err(f)) => assert_eq!(f.reason, "last"),
        _ => panic!("the join failed"),
    }
}

#[test]
fn without_candidates_no_server_is_reached() {
    match Dance::begin(0).1 {
        DanceAction::Done(Err(f)) => assert_eq!(
            told(f),
            (
                502,
                "M_UNKNOWN".to_string(),
                "no resident server could be reached".to_string()
            )
        ),
        _ => panic!("there is nobody to ask"),
    }
}

#[test]
fn a_grounded_join_succeeds_though_its_invite_stays() {
    let (dance, _) = Dance::begin(1);
    assert!(matches!(dance.on_waited(Ok(())), DanceAction::ClearInvite));
    assert!(matches!(
        dance.on_cleared(Err(fault())),
        DanceAction::Done(Ok(()))
    ));
    match dance.on_waited(Err(gateway("late"))) {
        DanceAction::Done(Err(f)) => assert_eq!(f.reason, "late"),
        _ => panic!("the wait failed"),
    }
}

#[test]
fn only_spoken_versions_are_joined() {
    let versions = RoomVersions::base_only();
    let spoken = versions.ids();
    assert_eq!(spoken, vec!["org.matrix.msc4242.12"]);
    assert!(resident_version(&versions, &spoken[0]).is_ok());
    match resident_version(&versions, "11") {
        Err(f) => assert_eq!(f.reason, "resident room version is unsupported"),
        Ok(_) => panic!("the version is not spoken"),
    }
}

#[test]
fn a_template_gives_nothing_but_its_place() {
    let mut template = event("$t:evil", "m.room.power_levels", "!other:evil");
    template.sender = "@evil:evil".to_string();
    template.state_key = Some("@victim:x".to_string());
    template.content = r#"{"membership":"ban"}"#.to_string();
    let d = complete_membership_template(Some(&template), "!r:x", "@me:x", "join", "Me")
        .expect("the template was read");
    assert_eq!(d.event_type, "m.room.member");
    assert_eq!(d.room_id, "!r:x");
    assert_eq!(d.sender, "@me:x");
    assert_eq!(d.state_key, "@me:x");
    assert_eq!(
        codec::print(&d.content),
        r#"{"displayname":"Me","membership":"join"}"#
    );
    assert_eq!(d.prev_events, template.prev_events);
    assert_eq!(d.prev_state_events, template.prev_state_events);
    assert!(complete_membership_template(None, "!r:x", "@me:x", "join", "Me").is_none());
    match join_event(None) {
        Err(f) => assert_eq!(f.reason, "could not complete the join template"),
        Ok(_) => panic!("nothing was built"),
    }
}

#[test]
fn rejected_events_are_kept_and_unreadable_ones_are_not() {
    let events = keep_admitted(vec![
        Admitted::Valid(event("$1:x", "a", "!r:x")),
        Admitted::Dropped,
        Admitted::Rejected(event("$2:x", "b", "!r:x")),
        Admitted::Valid(event("$3:x", "c", "!r:x")),
    ]);
    let order: Vec<&str> = events.iter().map(|e| e.event_id.as_str()).collect();
    assert_eq!(order, vec!["$1:x", "$2:x", "$3:x"]);
}

fn reason<T>(r: Result<T, JoinFailure>) -> String {
    match r {
        Err(f) => f.reason,
        Ok(_) => panic!("it succeeded"),
    }
}

#[test]
fn a_room_is_founded_on_its_creation() {
    let other = event("$m:x", "m.room.member", "!r:x");
    let create = event("$c:x", "m.room.create", "!r:x");
    let events = vec![other, create];
    assert_eq!(
        founding_event(&events, "!r:x", Ok(false)).expect("there is one"),
        Some(1)
    );
    assert_eq!(
        founding_event(&vec![], "!r:x", Ok(true)).expect("it is hosted"),
        None
    );
    assert_eq!(
        reason(founding_event(&vec![], "!r:x", Ok(false))),
        "state DAG is missing the create event"
    );
    assert_eq!(
        reason(founding_event(&events, "!s:x", Ok(false))),
        "create event is for a different room"
    );
    assert_eq!(
        reason(founding_event(&events, "!r:x", Err(fault()))),
        "storage error checking room"
    );
    let mut condemned = event("$c:x", "m.room.create", "!r:x");
    condemned.rejected = true;
    assert_eq!(
        reason(founding_event(&vec![condemned], "!r:x", Ok(false))),
        "create event in the send_join response is invalid"
    );
    let mut keyed = event("$c:x", "m.room.create", "!r:x");
    keyed.state_key = Some("x".to_string());
    assert_eq!(
        reason(founding_event(&vec![keyed], "!r:x", Ok(false))),
        "state DAG is missing the create event"
    );
    assert!(registered(Ok(())).is_ok());
    assert_eq!(reason(registered(Err(fault()))), "could not register the room");
    assert!(staged(Ok(())).is_ok());
    assert_eq!(reason(staged(Err(fault()))), "could not stage room state");
}

fn member(membership: &str) -> Event {
    let mut e = event("$m:x", "m.room.member", "!r:x");
    e.content = format!("{{\"membership\":\"{membership}\"}}");
    e
}

#[test]
fn a_membership_is_a_join_when_it_says_so() {
    assert!(membership_is_join(&member("join")));
    assert!(!membership_is_join(&member("invite")));
    let mut e = member("join");
    e.content = "[]".to_string();
    assert!(!membership_is_join(&e));
    e.content = "{".to_string();
    assert!(!membership_is_join(&e));
}

#[test]
fn a_join_is_waited_for_until_it_is_there_or_the_time_is_over() {
    let read = |member, expired| wait_for_join(WaitEvent::Read { member, expired });
    assert!(matches!(
        read(Ok(Some(member("join"))), true),
        WaitAction::Done(Ok(()))
    ));
    assert!(matches!(read(Ok(Some(member("leave"))), false), WaitAction::Sleep));
    assert!(matches!(read(Ok(None), false), WaitAction::Sleep));
    assert!(matches!(wait_for_join(WaitEvent::Persisted), WaitAction::Read));
    let failed = |action| match action {
        WaitAction::Done(Err(f)) => told(f),
        _ => panic!("the wait goes on"),
    };
    let late = (
        504,
        "M_UNKNOWN".to_string(),
        "timed out applying room state; the join is still being processed".to_string(),
    );
    assert_eq!(failed(read(Ok(None), true)), late);
    assert_eq!(failed(wait_for_join(WaitEvent::Elapsed)), late);
    assert_eq!(
        failed(read(Err(fault()), false)),
        (500, "M_UNKNOWN".to_string(), "disk".to_string())
    );
    assert_eq!(
        failed(wait_for_join(WaitEvent::Closed)),
        (
            500,
            "M_UNKNOWN".to_string(),
            "store closed while joining".to_string()
        )
    );
}

#[test]
fn the_client_is_told_how_a_join_ended() {
    let ok = join_reply("!r:x", &Some(Ok(())));
    assert_eq!(ok.status, 200);
    assert_eq!(codec::print(&ok.body), r#"{"room_id":"!r:x"}"#);
    let refused = join_reply("!r:x", &Some(Err(refusal())));
    assert_eq!(refused.status, 403);
    assert_eq!(
        codec::print(&refused.body),
        r#"{"errcode":"M_FORBIDDEN","error":"resident refused the join"}"#
    );
    let died = join_reply("!r:x", &None);
    assert_eq!(died.status, 500);
    assert_eq!(
        codec::print(&died.body),
        r#"{"errcode":"M_UNKNOWN","error":"join task terminated unexpectedly"}"#
    );
}

#[test]
fn a_second_request_joins_the_first() {
    let mut joins = RunningJoins::new();
    assert!(joins.start("!r:x", "@a:x"));
    assert!(!joins.start("!r:x", "@a:x"));
    assert!(joins.start("!r:x", "@b:x"));
    assert!(joins.start("!s:x", "@a:x"));
    joins.finish("!r:x", "@a:x");
    assert!(joins.start("!r:x", "@a:x"));
    assert!(!joins.start("!r:x", "@b:x"));
}

fn names(items: &[&str]) -> Vec<String> {
    items.iter().map(|s| s.to_string()).collect()
}

fn through(r: JoinRoute) -> Vec<String> {
    match r {
        JoinRoute::Remote(servers) => servers,
        _ => panic!("the join goes through no other server"),
    }
}

#[test]
fn a_live_copy_is_joined_locally_and_a_stale_one_is_not() {
    let hints = names(&["hint.test"]);
    let live = Hosting::Hosted(Ok(names(&["@b:other.test", "@a:own.test"])));
    assert!(matches!(
        route_by_hosting("own.test", &hints, live),
        JoinRoute::Local
    ));
    let stale = Hosting::Hosted(Ok(names(&["@b:other.test:8448", "@c:hint.test", "@d:other.test:8448"])));
    assert_eq!(
        through(route_by_hosting("own.test", &hints, stale)),
        vec!["hint.test", "other.test:8448"]
    );
    assert_eq!(
        through(route_by_hosting("own.test", &hints, Hosting::NotHosted)),
        hints
    );
    assert!(matches!(
        route_by_hosting("own.test", &hints, Hosting::Unknown),
        JoinRoute::Local
    ));
    match route_by_hosting("own.test", &hints, Hosting::Hosted(Err(fault()))) {
        JoinRoute::Answer(r) => {
            assert_eq!(r.status, 500);
            assert_eq!(
                codec::print(&r.body),
                r#"{"errcode":"M_UNKNOWN","error":"disk"}"#
            );
        }
        _ => panic!("the store failed"),
    }
}

#[test]
fn the_inviter_is_asked_and_we_are_not() {
    let inviter = Ok(Some("@i:inviter.test".to_string()));
    assert_eq!(
        through(route_by_invite(
            "own.test",
            names(&["own.test", "hint.test"]),
            inviter
        )),
        vec!["hint.test", "inviter.test"]
    );
    assert!(matches!(
        route_by_invite("own.test", names(&["own.test"]), Ok(None)),
        JoinRoute::Local
    ));
    assert!(matches!(
        route_by_invite("own.test", names(&[]), Ok(None)),
        JoinRoute::Local
    ));
    assert!(matches!(
        route_by_invite("own.test", names(&["hint.test"]), Err(fault())),
        JoinRoute::Answer(_)
    ));
}
