//! Joining a room through another server: which servers to ask, what to send them, what to make
//! of their answers, and how the attempt ends.
use crate::client;
use crate::client::FederationClientError;
use crate::codec;
use crate::engine::StorageError;
use crate::event;
use crate::event::{Event, RoomVersion, RoomVersions};
use crate::ids;
use crate::json;
use crate::json::{Json, JsonObject, JsonView};
use crate::lists;
use crate::names;
use crate::reply;
use crate::reply::{error_response, Reply, ReplyView};
use crate::text;
use vstd::prelude::*;

verus! {

/// Why a join failed, and how the client is told.
#[derive(Debug)]
pub struct JoinFailure {
    pub reason: String,
    pub status: u16,
    pub errcode: &'static str,
}

/// Why a join failed, as mathematics.
pub struct FailureView {
    pub reason: Seq<char>,
    pub status: u16,
    pub errcode: Seq<char>,
}

impl View for JoinFailure {
    type V = FailureView;

    open spec fn view(&self) -> FailureView {
        FailureView { reason: self.reason@, status: self.status, errcode: self.errcode@ }
    }
}

impl JoinFailure {
    /// The same failure once more, for another waiter.
    pub fn duplicate(&self) -> (f: JoinFailure)
        ensures
            f@ == self@,
    {
        JoinFailure {
            reason: self.reason.clone(),
            status: self.status,
            errcode: self.errcode,
        }
    }
}

/// A failure with the given status, code and reason.
pub open spec fn failed(status: u16, errcode: Seq<char>, reason: Seq<char>) -> FailureView {
    FailureView { reason, status, errcode }
}

fn failure(status: u16, errcode: &'static str, reason: &str) -> (f: JoinFailure)
    ensures
        f@ == failed(status, errcode@, reason@),
{
    JoinFailure { reason: reason.to_owned(), status, errcode }
}

/// A failure on the way to the other server.
pub open spec fn gateway_failure(reason: Seq<char>) -> FailureView {
    failed(reply::BAD_GATEWAY, "M_UNKNOWN"@, reason)
}

/// A failure on the way to the other server: another candidate may do better.
pub fn gateway(reason: &str) -> (f: JoinFailure)
    ensures
        f@ == gateway_failure(reason@),
{
    failure(reply::BAD_GATEWAY, "M_UNKNOWN", reason)
}

/// The failure that an error of a request is: a refusal stays one, all else is a failure on the
/// way.
pub open spec fn client_failure(e: FederationClientError, reason: Seq<char>) -> FailureView {
    if e == FederationClientError::Status(reply::FORBIDDEN) {
        failed(reply::FORBIDDEN, "M_FORBIDDEN"@, "resident refused the join"@)
    } else {
        gateway_failure(reason)
    }
}

/// The failure that an error of a request is.
pub fn from_client_err(e: FederationClientError, reason: &str) -> (f: JoinFailure)
    ensures
        f@ == client_failure(e, reason@),
{
    match e {
        FederationClientError::Status(code) => if code == reply::FORBIDDEN {
            failure(reply::FORBIDDEN, "M_FORBIDDEN", "resident refused the join")
        } else {
            gateway(reason)
        },
        _ => gateway(reason),
    }
}

/// The failure that counts when all candidates failed: the first refusal, or else the last
/// failure.
pub open spec fn verdict(failures: Seq<FailureView>) -> Option<FailureView>
    decreases failures.len(),
{
    if failures.len() == 0 {
        None
    } else {
        let before = verdict(failures.drop_last());
        if (before matches Some(f) && f.status == reply::FORBIDDEN) {
            before
        } else {
            Some(failures.last())
        }
    }
}

/// How a join ends when every candidate failed.
pub open spec fn dance_failure(failures: Seq<FailureView>) -> FailureView {
    match verdict(failures) {
        Some(f) => f,
        None => gateway_failure("no resident server could be reached"@),
    }
}

/// What is done next in a join.
pub enum DanceAction {
    /// Ask this candidate.
    Try(usize),
    /// The state of the room is staged: wait for the join to be applied.
    Wait,
    /// The join is applied: drop the invitation that it came from.
    ClearInvite,
    /// The join ended.
    Done(Result<(), JoinFailure>),
}

/// A join under way: the candidates are asked one after the other until one succeeds.
pub struct Dance {
    pub candidates: usize,
    pub next: usize,
    pub terminal: Option<JoinFailure>,
    pub failures: Ghost<Seq<FailureView>>,
}

/// A failure that may be absent.
pub open spec fn failure_view(f: Option<JoinFailure>) -> Option<FailureView> {
    match f {
        Some(f) => Some(f@),
        None => None,
    }
}

impl Dance {
    /// The candidates before the next one have failed, and the failure that counts is kept.
    pub open spec fn wf(&self) -> bool {
        &&& self.failures@.len() == self.next
        &&& self.next < self.candidates
        &&& failure_view(self.terminal) == verdict(self.failures@)
    }

    /// Starts a join with so many candidates.
    pub fn begin(candidates: usize) -> (r: (Dance, DanceAction))
        ensures
            r.0.candidates == candidates,
            r.0.failures@ == Seq::<FailureView>::empty(),
            candidates > 0 ==> r.0.wf() && r.1 == DanceAction::Try(0),
            candidates == 0 ==> (r.1 matches DanceAction::Done(Err(f)) && f@ == dance_failure(seq![])),
    {
        let dance = Dance {
            candidates,
            next: 0,
            terminal: None,
            failures: Ghost(Seq::empty()),
        };
        if candidates == 0 {
            (dance, DanceAction::Done(Err(gateway("no resident server could be reached"))))
        } else {
            (dance, DanceAction::Try(0))
        }
    }

    /// A candidate was asked: when it answered, its state is waited for, and when it failed, the
    /// next one is asked, or the join ends with the failure that counts.
    pub fn on_attempt(&mut self, attempt: Result<(), JoinFailure>) -> (action: DanceAction)
        requires
            old(self).wf(),
        ensures
            final(self).candidates == old(self).candidates,
            match attempt {
                Ok(_) => action == DanceAction::Wait && *final(self) == *old(self),
                Err(f) => {
                    let failures = old(self).failures@.push(f@);
                    &&& final(self).failures@ == failures
                    &&& if failures.len() < old(self).candidates {
                        final(self).wf() && action == DanceAction::Try(failures.len() as usize)
                    } else {
                        action matches DanceAction::Done(Err(g)) && g@ == dance_failure(failures)
                    }
                },
            },
    {
        match attempt {
            Ok(_) => DanceAction::Wait,
            Err(f) => {
                let ghost before = self.failures@;
                assert(before.push(f@).drop_last() =~= before);
                proof {
                    self.failures@ = before.push(f@);
                }
                let refused: bool = match &self.terminal {
                    Some(t) => t.status == reply::FORBIDDEN,
                    None => false,
                };
                if !refused {
                    self.terminal = Some(f);
                }
                self.next = self.next + 1;
                if self.next < self.candidates {
                    DanceAction::Try(self.next)
                } else {
                    match &self.terminal {
                        Some(t) => DanceAction::Done(Err(t.duplicate())),
                        None => vstd::pervasive::unreached(),
                    }
                }
            },
        }
    }

    /// The wait for the join ended: a failure ends the join, whatever candidates are left.
    pub fn on_waited(&self, waited: Result<(), JoinFailure>) -> (action: DanceAction)
        ensures
            match waited {
                Ok(_) => action == DanceAction::ClearInvite,
                Err(f) => action == DanceAction::Done(Err(f)),
            },
    {
        match waited {
            Ok(_) => DanceAction::ClearInvite,
            Err(f) => DanceAction::Done(Err(f)),
        }
    }

    /// The invitation was dropped, or could not be: the join succeeded either way.
    pub fn on_cleared(&self, cleared: Result<(), StorageError>) -> (action: DanceAction)
        ensures
            action == DanceAction::Done(Ok(())),
    {
        DanceAction::Done(Ok(()))
    }
}

/// The version of the room, as the other server states it; one that is not spoken is a failure.
pub fn resident_version<'a>(versions: &'a RoomVersions, stated: &str) -> (r: Result<
    &'a RoomVersion,
    JoinFailure,
>)
    ensures
        match versions.get_spec(stated@) {
            Some(v) => r matches Ok(w) && *w == v,
            None => r matches Err(f) && f@ == gateway_failure("resident room version is unsupported"@),
        },
{
    match versions.get(stated) {
        Some(v) => Ok(v),
        None => Err(gateway("resident room version is unsupported")),
    }
}

/// A membership event before it is built: what we say, and where it stands among the events of
/// the room.
pub struct MembershipDraft {
    pub event_type: String,
    pub room_id: String,
    pub sender: String,
    pub state_key: String,
    pub content: Json,
    pub prev_events: Vec<String>,
    pub prev_state_events: Vec<String>,
}

/// The content of a membership event of one of our users.
pub open spec fn membership_content(membership: Seq<char>, display_name: Seq<char>) -> JsonView {
    JsonView::Object(
        Map::empty().insert("membership"@, JsonView::Text(membership)).insert(
            "displayname"@,
            JsonView::Text(display_name),
        ),
    )
}

fn strings(items: &Vec<String>) -> (r: Vec<String>)
    ensures
        event::views(r@) == event::views(items@),
{
    let mut r: Vec<String> = Vec::new();
    let mut i: usize = 0;
    while i < items.len()
        invariant
            i <= items@.len(),
            r@.len() == i,
            forall|j: int| 0 <= j < i ==> (#[trigger] r@[j])@ == items@[j]@,
        decreases items.len() - i,
    {
        r.push(items[i].clone());
        i = i + 1;
    }
    assert(event::views(r@) =~= event::views(items@));
    r
}

/// Whether a draft is our user's membership in the room, and says nothing else of the other
/// server's than where it stands.
pub open spec fn drafts(
    d: MembershipDraft,
    template: event::EventView,
    room_id: Seq<char>,
    user: Seq<char>,
    membership: Seq<char>,
    display_name: Seq<char>,
) -> bool {
    &&& d.event_type@ == "m.room.member"@
    &&& d.room_id@ == room_id
    &&& d.sender@ == user
    &&& d.state_key@ == user
    &&& d.content@ == membership_content(membership, display_name)
    &&& event::views(d.prev_events@) == template.prev_events
    &&& event::views(d.prev_state_events@) == template.prev_state_events
}

/// Completes the template that another server gave for a membership of our user. Of the
/// template only its place among the events of the room is taken; a template that could not be
/// read gives nothing.
pub fn complete_membership_template(
    template: Option<&Event>,
    room_id: &str,
    user: &str,
    membership: &str,
    display_name: &str,
) -> (r: Option<MembershipDraft>)
    ensures
        match template {
            Some(t) => r matches Some(d) && drafts(
                d,
                t@,
                room_id@,
                user@,
                membership@,
                display_name@,
            ),
            None => r is None,
        },
{
    match template {
        Some(t) => {
            let mut content: JsonObject = JsonObject::new();
            content.insert("membership".to_owned(), Json::text(membership.to_owned()));
            content.insert("displayname".to_owned(), Json::text(display_name.to_owned()));
            Some(
                MembershipDraft {
                    event_type: "m.room.member".to_owned(),
                    room_id: room_id.to_owned(),
                    sender: user.to_owned(),
                    state_key: user.to_owned(),
                    content: Json::object(content),
                    prev_events: strings(&t.prev_events),
                    prev_state_events: strings(&t.prev_state_events),
                },
            )
        },
        None => None,
    }
}

/// The event to send, when the template could be completed and built.
pub fn join_event(built: Option<Event>) -> (r: Result<Event, JoinFailure>)
    ensures
        match built {
            Some(e) => r == Ok::<Event, JoinFailure>(e),
            None => r matches Err(f) && f@ == gateway_failure(
                "could not complete the join template"@,
            ),
        },
{
    match built {
        Some(e) => Ok(e),
        None => Err(gateway("could not complete the join template")),
    }
}

/// What became of an event of an answer: it is valid, it is kept although it breaks a rule, or
/// it is no event.
pub enum Admitted {
    Valid(Event),
    Rejected(Event),
    Dropped,
}

/// The events that are kept, in order.
pub open spec fn admitted_events(items: Seq<Admitted>) -> Seq<Event>
    decreases items.len(),
{
    if items.len() == 0 {
        seq![]
    } else {
        let front = admitted_events(items.drop_last());
        match items.last() {
            Admitted::Valid(e) => front.push(e),
            Admitted::Rejected(e) => front.push(e),
            Admitted::Dropped => front,
        }
    }
}

/// The events of an answer that are kept: a rejected one too, so that what refers to it is
/// rejected as well.
pub fn keep_admitted(items: Vec<Admitted>) -> (events: Vec<Event>)
    ensures
        events@ == admitted_events(items@),
{
    let ghost all = items@;
    let mut rest: Vec<Admitted> = items;
    let mut kept: Vec<Event> = Vec::new();
    let n: usize = rest.len();
    let mut i: usize = n;
    assert(all.take(n as int) =~= all);
    assert(admitted_events(all) + kept@.reverse() =~= admitted_events(all));
    while i > 0
        invariant
            i <= all.len(),
            rest@ == all.take(i as int),
            admitted_events(all.take(i as int)) + kept@.reverse() == admitted_events(all),
        decreases i,
    {
        i = i - 1;
        let ghost before = kept@;
        let ghost front = admitted_events(all.take(i as int));
        assert(all.take(i + 1).drop_last() =~= all.take(i as int));
        match rest.pop() {
            Some(Admitted::Valid(e)) => {
                kept.push(e);
                assert(front + kept@.reverse() =~= front.push(e) + before.reverse());
            },
            Some(Admitted::Rejected(e)) => {
                kept.push(e);
                assert(front + kept@.reverse() =~= front.push(e) + before.reverse());
            },
            _ => {},
        }
        assert(rest@ =~= all.take(i as int));
    }
    assert(all.take(0) =~= Seq::empty());
    assert(kept@.reverse() =~= admitted_events(all));
    let ghost reversed = kept@;
    let mut events: Vec<Event> = Vec::new();
    while kept.len() > 0
        invariant
            events@ + kept@.reverse() == reversed.reverse(),
        decreases kept.len(),
    {
        let ghost done = events@;
        let ghost left = kept@;
        match kept.pop() {
            Some(e) => {
                events.push(e);
                assert(events@ + kept@.reverse() =~= done + left.reverse());
            },
            None => {},
        }
    }
    assert(events@ =~= reversed.reverse());
    events
}

/// Whether an event is the creation of a room.
pub open spec fn is_create() -> spec_fn(Event) -> bool {
    |e: Event| e.event_type@ == "m.room.create"@ && event::option_view(e.state_key) == Some(""@)
}

/// Why no room can be founded on the events of an answer.
pub open spec fn founding_fault(events: Seq<Event>, room_id: Seq<char>) -> Option<Seq<char>> {
    let at = lists::first_where(events, is_create());
    if at >= events.len() {
        Some("state DAG is missing the create event"@)
    } else if events[at].room_id@ != room_id {
        Some("create event is for a different room"@)
    } else if events[at].rejected {
        Some("create event in the send_join response is invalid"@)
    } else {
        None
    }
}

/// The position of the event that a room is founded on, when the room is not hosted yet: the
/// first creation among the events, which must be of that room and valid.
pub fn founding_event(events: &Vec<Event>, room_id: &str, hosted: Result<bool, StorageError>) -> (r: Result<
    Option<usize>,
    JoinFailure,
>)
    ensures
        match hosted {
            Err(_) => r matches Err(f) && f@ == gateway_failure("storage error checking room"@),
            Ok(true) => r == Ok::<Option<usize>, JoinFailure>(None),
            Ok(false) => match founding_fault(events@, room_id@) {
                Some(reason) => r matches Err(f) && f@ == gateway_failure(reason),
                None => r == Ok::<Option<usize>, JoinFailure>(
                    Some(lists::first_where(events@, is_create()) as usize),
                ) && lists::first_where(events@, is_create()) < events@.len(),
            },
        },
{
    match hosted {
        Err(_) => {
            return Err(gateway("storage error checking room"));
        },
        Ok(true) => {
            return Ok(None);
        },
        Ok(false) => {},
    }
    let mut i: usize = 0;
    while i < events.len()
        invariant
            i <= events@.len(),
            forall|j: int| 0 <= j < i ==> !(is_create())(#[trigger] events@[j]),
            hosted == Ok::<bool, StorageError>(false),
        decreases events.len() - i,
    {
        let e: &Event = &events[i];
        let empty_key: bool = match &e.state_key {
            Some(k) => text::str_eq(k.as_str(), ""),
            None => false,
        };
        if text::str_eq(e.event_type.as_str(), "m.room.create") && empty_key {
            proof {
                assert((is_create())(events@[i as int]));
                lists::lemma_first_where(events@, is_create(), i as int);
            }
            if !text::str_eq(e.room_id.as_str(), room_id) {
                return Err(gateway("create event is for a different room"));
            }
            if e.rejected {
                return Err(gateway("create event in the send_join response is invalid"));
            }
            return Ok(Some(i));
        }
        i = i + 1;
    }
    proof {
        lists::lemma_first_where(events@, is_create(), i as int);
    }
    Err(gateway("state DAG is missing the create event"))
}

/// What registering the room came to.
pub fn registered(outcome: Result<(), StorageError>) -> (r: Result<(), JoinFailure>)
    ensures
        match outcome {
            Ok(_) => r == Ok::<(), JoinFailure>(()),
            Err(_) => r matches Err(f) && f@ == gateway_failure("could not register the room"@),
        },
{
    match outcome {
        Ok(_) => Ok(()),
        Err(_) => Err(gateway("could not register the room")),
    }
}

/// What staging the events came to.
pub fn staged(outcome: Result<(), StorageError>) -> (r: Result<(), JoinFailure>)
    ensures
        match outcome {
            Ok(_) => r == Ok::<(), JoinFailure>(()),
            Err(_) => r matches Err(f) && f@ == gateway_failure("could not stage room state"@),
        },
{
    match outcome {
        Ok(_) => Ok(()),
        Err(_) => Err(gateway("could not stage room state")),
    }
}

/// Whether the content of an event says that its user joined.
pub open spec fn joins(content: Seq<char>) -> bool {
    match codec::parsed_json(content) {
        Some(v) => match v.field("membership"@) {
            Some(m) => m.text() == Some("join"@),
            None => false,
        },
        None => false,
    }
}

/// Whether a membership event says that its user joined.
pub fn membership_is_join(event: &Event) -> (yes: bool)
    ensures
        yes == joins(event.content@),
{
    match codec::parse(event.content.as_str()) {
        Ok(v) => match v.get("membership") {
            Some(m) => match m.as_str() {
                Some(s) => text::str_eq(s, "join"),
                None => false,
            },
            None => false,
        },
        Err(_) => false,
    }
}

/// What happened while a join is waited for.
pub enum WaitEvent {
    /// The membership of the user was read; `expired` when no time is left.
    Read { member: Result<Option<Event>, StorageError>, expired: bool },
    /// Something was persisted.
    Persisted,
    /// No more will be persisted.
    Closed,
    /// The time is over.
    Elapsed,
}

/// What is done next while a join is waited for.
pub enum WaitAction {
    /// Read the membership of the user.
    Read,
    /// Wait until something is persisted, or the time is over.
    Sleep,
    /// The wait ended.
    Done(Result<(), JoinFailure>),
}

/// The failure of a join that took too long.
pub open spec fn timed_out() -> FailureView {
    failed(
        reply::GATEWAY_TIMEOUT,
        "M_UNKNOWN"@,
        "timed out applying room state; the join is still being processed"@,
    )
}

/// The failure of a join because of our store.
pub open spec fn store_failure(reason: Seq<char>) -> FailureView {
    failed(reply::INTERNAL_SERVER_ERROR, "M_UNKNOWN"@, reason)
}

/// How the wait for a join ends on an event, where it does: `None` inside means success.
pub open spec fn wait_end(event: WaitEvent) -> Option<Option<FailureView>> {
    match event {
        WaitEvent::Read { member, expired } => match member {
            Err(e) => Some(Some(store_failure(e.message@))),
            Ok(m) => if (m matches Some(e) && joins(e.content@)) {
                Some(None)
            } else if expired {
                Some(Some(timed_out()))
            } else {
                None
            },
        },
        WaitEvent::Persisted => None,
        WaitEvent::Closed => Some(Some(store_failure("store closed while joining"@))),
        WaitEvent::Elapsed => Some(Some(timed_out())),
    }
}

/// One step of the wait for a join: the membership is read after each persist until it is a
/// join, the store fails or closes, or the time is over.
pub fn wait_for_join(event: WaitEvent) -> (action: WaitAction)
    ensures
        match wait_end(event) {
            Some(None) => action == WaitAction::Done(Ok(())),
            Some(Some(g)) => action matches WaitAction::Done(Err(f)) && f@ == g,
            None => action == (if event is Persisted {
                WaitAction::Read
            } else {
                WaitAction::Sleep
            }),
        },
{
    match event {
        WaitEvent::Read { member, expired } => {
            match member {
                Err(e) => {
                    return WaitAction::Done(
                        Err(
                            failure(
                                reply::INTERNAL_SERVER_ERROR,
                                "M_UNKNOWN",
                                e.message.as_str(),
                            ),
                        ),
                    );
                },
                Ok(Some(e)) => {
                    if membership_is_join(&e) {
                        return WaitAction::Done(Ok(()));
                    }
                },
                Ok(None) => {},
            }
            if expired {
                WaitAction::Done(Err(time_failure()))
            } else {
                WaitAction::Sleep
            }
        },
        WaitEvent::Persisted => WaitAction::Read,
        WaitEvent::Closed => WaitAction::Done(
            Err(failure(reply::INTERNAL_SERVER_ERROR, "M_UNKNOWN", "store closed while joining")),
        ),
        WaitEvent::Elapsed => WaitAction::Done(Err(time_failure())),
    }
}

fn time_failure() -> (f: JoinFailure)
    ensures
        f@ == timed_out(),
{
    failure(
        reply::GATEWAY_TIMEOUT,
        "M_UNKNOWN",
        "timed out applying room state; the join is still being processed",
    )
}

/// What the client is told of a join; `None` when the join died without an outcome.
pub open spec fn join_view(room_id: Seq<char>, outcome: Option<Option<FailureView>>) -> ReplyView {
    match outcome {
        Some(None) => ReplyView {
            status: 200,
            body: JsonView::Object(Map::empty().insert("room_id"@, JsonView::Text(room_id))),
        },
        Some(Some(f)) => reply::error_view(f.status, f.errcode, f.reason),
        None => reply::error_view(
            reply::INTERNAL_SERVER_ERROR,
            "M_UNKNOWN"@,
            "join task terminated unexpectedly"@,
        ),
    }
}

/// The outcome of a join as mathematics: a failure, or none.
pub open spec fn outcome_view(outcome: Result<(), JoinFailure>) -> Option<FailureView> {
    match outcome {
        Ok(_) => None,
        Err(f) => Some(f@),
    }
}

/// What the client is told of a join: its outcome, or that it died without one.
pub fn join_reply(room_id: &str, outcome: &Option<Result<(), JoinFailure>>) -> (r: Reply)
    ensures
        r@ == join_view(
            room_id@,
            match *outcome {
                Some(o) => Some(outcome_view(o)),
                None => None,
            },
        ),
{
    match outcome {
        Some(Ok(_)) => {
            let mut body: JsonObject = JsonObject::new();
            body.insert("room_id".to_owned(), Json::text(room_id.to_owned()));
            Reply { status: reply::OK, body: Json::object(body) }
        },
        Some(Err(f)) => error_response(f.status, f.errcode, f.reason.as_str()),
        None => error_response(
            reply::INTERNAL_SERVER_ERROR,
            "M_UNKNOWN",
            "join task terminated unexpectedly",
        ),
    }
}

/// The joins that are under way, by room and user.
pub struct RunningJoins {
    pub running: Vec<(String, String)>,
}

impl View for RunningJoins {
    type V = Set<(Seq<char>, Seq<char>)>;

    open spec fn view(&self) -> Set<(Seq<char>, Seq<char>)> {
        client::pairs_of(self.running@).to_set()
    }
}

/// Tells whether a join is another one than the given.
pub open spec fn is_another(key: (Seq<char>, Seq<char>)) -> spec_fn((Seq<char>, Seq<char>)) -> bool {
    |k: (Seq<char>, Seq<char>)| k != key
}

proof fn lemma_kept_another(keys: Seq<(Seq<char>, Seq<char>)>, key: (Seq<char>, Seq<char>))
    ensures
        lists::kept(keys, is_another(key)).to_set() == keys.to_set().remove(key),
    decreases keys.len(),
{
    let p = is_another(key);
    if keys.len() > 0 {
        let front = keys.drop_last();
        lemma_kept_another(front, key);
        json::lemma_take_push(keys, keys.len() - 1);
        assert(keys.take(keys.len() - 1) =~= front);
        assert(keys.take(keys.len() as int) =~= keys);
        let kept = lists::kept(front, p);
        let pushed = kept.push(keys.last());
        json::lemma_take_push(pushed, kept.len() as int);
        assert(pushed.take(kept.len() as int) =~= kept);
        assert(pushed.take(pushed.len() as int) =~= pushed);
        assert(lists::kept(keys, p).to_set() =~= keys.to_set().remove(key));
    } else {
        assert(lists::kept(keys, p).to_set() =~= keys.to_set().remove(key));
    }
}

impl RunningJoins {
    /// No joins.
    pub fn new() -> (s: Self)
        ensures
            s@ == Set::<(Seq<char>, Seq<char>)>::empty(),
    {
        let s = RunningJoins { running: Vec::new() };
        assert(s@ =~= Set::<(Seq<char>, Seq<char>)>::empty());
        s
    }

    fn is_running(&self, room_id: &str, user: &str) -> (yes: bool)
        ensures
            yes == self@.contains((room_id@, user@)),
    {
        let ghost keys = client::pairs_of(self.running@);
        let mut i: usize = 0;
        while i < self.running.len()
            invariant
                i <= self.running@.len(),
                keys == client::pairs_of(self.running@),
                forall|j: int| 0 <= j < i ==> #[trigger] keys[j] != (room_id@, user@),
            decreases self.running.len() - i,
        {
            if text::str_eq(self.running[i].0.as_str(), room_id) && text::str_eq(
                self.running[i].1.as_str(),
                user,
            ) {
                assert(keys[i as int] == (room_id@, user@));
                return true;
            }
            i = i + 1;
        }
        false
    }

    /// Asks for a join of a user to a room: `true` when it is to be started, `false` when one
    /// is under way, which the caller then waits for.
    pub fn start(&mut self, room_id: &str, user: &str) -> (fresh: bool)
        ensures
            fresh == !old(self)@.contains((room_id@, user@)),
            final(self)@ == old(self)@.insert((room_id@, user@)),
    {
        if self.is_running(room_id, user) {
            assert(self@ =~= self@.insert((room_id@, user@)));
            return false;
        }
        let ghost before = client::pairs_of(self.running@);
        self.running.push((room_id.to_owned(), user.to_owned()));
        proof {
            let after = client::pairs_of(self.running@);
            assert(after =~= before.push((room_id@, user@)));
            json::lemma_take_push(after, before.len() as int);
            assert(after.take(before.len() as int) =~= before);
            assert(after.take(after.len() as int) =~= after);
            assert(self@ =~= old(self)@.insert((room_id@, user@)));
        }
        true
    }

    /// A join ended: the next one starts afresh.
    pub fn finish(&mut self, room_id: &str, user: &str)
        ensures
            final(self)@ == old(self)@.remove((room_id@, user@)),
    {
        let ghost keys = client::pairs_of(self.running@);
        let ghost p = is_another((room_id@, user@));
        let mut left: Vec<(String, String)> = Vec::new();
        let mut i: usize = 0;
        assert(keys.take(0) =~= Seq::empty());
        assert(client::pairs_of(left@) =~= lists::kept(keys.take(0), p));
        while i < self.running.len()
            invariant
                i <= self.running@.len(),
                keys == client::pairs_of(self.running@),
                p == is_another((room_id@, user@)),
                client::pairs_of(left@) == lists::kept(keys.take(i as int), p),
            decreases self.running.len() - i,
        {
            assert(keys.take(i + 1).drop_last() =~= keys.take(i as int));
            let ghost before = left@;
            let here: bool = text::str_eq(self.running[i].0.as_str(), room_id) && text::str_eq(
                self.running[i].1.as_str(),
                user,
            );
            if !here {
                left.push((self.running[i].0.clone(), self.running[i].1.clone()));
                assert(client::pairs_of(left@) =~= client::pairs_of(before).push(keys[i as int]));
            }
            i = i + 1;
        }
        assert(keys.take(i as int) =~= keys);
        self.running = left;
        proof {
            lemma_kept_another(keys, (room_id@, user@));
        }
    }
}

/// What is known of our copy of a room.
pub enum Hosting {
    /// We have none.
    NotHosted,
    /// We have one, with these joined members, or they could not be read.
    Hosted(Result<Vec<String>, StorageError>),
    /// The store could not say.
    Unknown,
}

/// How a user is to join a room.
pub enum JoinRoute {
    /// Within our server.
    Local,
    /// Not at all: this is answered.
    Answer(Reply),
    /// Through one of these servers.
    Remote(Vec<String>),
}

/// The servers with one more, unless it is among them.
pub open spec fn with_server(servers: Seq<Seq<char>>, server: Seq<char>) -> Seq<Seq<char>> {
    if servers.contains(server) {
        servers
    } else {
        servers.push(server)
    }
}

/// The servers, and those of the members that are on other servers than ours.
pub open spec fn with_members(
    servers: Seq<Seq<char>>,
    members: Seq<Seq<char>>,
    own_server: Seq<char>,
) -> Seq<Seq<char>>
    decreases members.len(),
{
    if members.len() == 0 {
        servers
    } else {
        let front = with_members(servers, members.drop_last(), own_server);
        let server = ids::server_part(members.last());
        if server == own_server {
            front
        } else {
            with_server(front, server)
        }
    }
}

/// Whether one of the members is on the server.
pub open spec fn has_member(members: Seq<Seq<char>>, server: Seq<char>) -> bool {
    exists|i: int| 0 <= i < members.len() && ids::server_part(#[trigger] members[i]) == server
}

fn server_of(id: &str) -> (s: String)
    requires
        id@.contains(':'),
    ensures
        s@ == ids::server_part(id@),
{
    match text::split_once(id, ':') {
        Some((_, server)) => server.to_owned(),
        None => vstd::pervasive::unreached(),
    }
}

fn add_server(servers: &mut Vec<String>, server: String)
    ensures
        event::views(final(servers)@) == with_server(event::views(old(servers)@), server@),
{
    let mut i: usize = 0;
    while i < servers.len()
        invariant
            i <= servers@.len(),
            servers@ == old(servers)@,
            forall|j: int| 0 <= j < i ==> (#[trigger] servers@[j])@ != server@,
        decreases servers.len() - i,
    {
        if text::str_eq(servers[i].as_str(), server.as_str()) {
            assert(event::views(servers@)[i as int] == server@);
            return;
        }
        i = i + 1;
    }
    let ghost before = servers@;
    assert(!event::views(before).contains(server@)) by {
        if event::views(before).contains(server@) {
            let j = event::views(before).index_of(server@);
            assert(before[j]@ == server@);
        }
    }
    servers.push(server);
    assert(event::views(servers@) =~= event::views(before).push(server@));
}

/// The route of a join as far as our copy of the room decides it: the servers are the given
/// ones, and those of the members that we last knew of.
pub open spec fn hosted_route(
    own_server: Seq<char>,
    hints: Seq<Seq<char>>,
    hosting: Hosting,
) -> Result<Seq<Seq<char>>, Option<ReplyView>> {
    match hosting {
        Hosting::NotHosted => Ok(hints),
        Hosting::Hosted(Ok(members)) => if has_member(event::views(members@), own_server) {
            Err(None)
        } else {
            Ok(with_members(hints, event::views(members@), own_server))
        },
        Hosting::Hosted(Err(e)) => Err(
            Some(reply::error_view(reply::INTERNAL_SERVER_ERROR, "M_UNKNOWN"@, e.message@)),
        ),
        Hosting::Unknown => Err(None),
    }
}

/// Whether a route is the given one: an error without an answer is the local one.
pub open spec fn is_route(r: JoinRoute, route: Result<Seq<Seq<char>>, Option<ReplyView>>) -> bool {
    match route {
        Ok(servers) => r matches JoinRoute::Remote(v) && event::views(v@) == servers,
        Err(Some(answer)) => r matches JoinRoute::Answer(a) && a@ == answer,
        Err(None) => r is Local,
    }
}

/// Decides by our copy of the room how a user is to join it. A copy with a member of ours is
/// kept up to date, so the join is local. A copy without one is stale, so the join goes through
/// the servers of those that were joined.
pub fn route_by_hosting(own_server: &str, hints: &Vec<String>, hosting: Hosting) -> (r: JoinRoute)
    requires
        hosting matches Hosting::Hosted(Ok(members)) ==> forall|i: int|
            0 <= i < members@.len() ==> (#[trigger] members@[i])@.contains(':'),
    ensures
        is_route(r, hosted_route(own_server@, event::views(hints@), hosting)),
{
    match hosting {
        Hosting::NotHosted => JoinRoute::Remote(strings(hints)),
        Hosting::Hosted(Ok(members)) => {
            let mut servers: Vec<String> = strings(hints);
            let mut local: bool = false;
            let mut i: usize = 0;
            let ghost all = event::views(members@);
            assert(all.take(0) =~= Seq::empty());
            while i < members.len()
                invariant
                    i <= members@.len(),
                    all == event::views(members@),
                    forall|j: int|
                        0 <= j < members@.len() ==> (#[trigger] members@[j])@.contains(':'),
                    event::views(servers@) == with_members(
                        event::views(hints@),
                        all.take(i as int),
                        own_server@,
                    ),
                    local == has_member(all.take(i as int), own_server@),
                decreases members.len() - i,
            {
                let ghost before = all.take(i as int);
                let ghost after = all.take(i + 1);
                assert(after.drop_last() =~= before);
                assert(members@[i as int]@.contains(':'));
                let server: String = server_of(members[i].as_str());
                proof {
                    assert(after[i as int] == all[i as int]);
                    if has_member(before, own_server@) {
                        let j = choose|j: int|
                            0 <= j < before.len() && ids::server_part(#[trigger] before[j])
                                == own_server@;
                        assert(after[j] == before[j]);
                    }
                    if has_member(after, own_server@) {
                        let j = choose|j: int|
                            0 <= j < after.len() && ids::server_part(#[trigger] after[j])
                                == own_server@;
                        if j < i {
                            assert(before[j] == after[j]);
                        }
                    }
                }
                if text::str_eq(server.as_str(), own_server) {
                    local = true;
                } else {
                    add_server(&mut servers, server);
                }
                i = i + 1;
            }
            assert(all.take(i as int) =~= all);
            if local {
                JoinRoute::Local
            } else {
                JoinRoute::Remote(servers)
            }
        },
        Hosting::Hosted(Err(e)) => JoinRoute::Answer(
            error_response(reply::INTERNAL_SERVER_ERROR, "M_UNKNOWN", e.message.as_str()),
        ),
        Hosting::Unknown => JoinRoute::Local,
    }
}

/// Tells whether a server is another one than ours.
pub open spec fn is_other(own_server: Seq<char>) -> spec_fn(Seq<char>) -> bool {
    |s: Seq<char>| s != own_server
}

/// The route of a join through the given servers: the server of whoever invited the user is one
/// more of them, ours is none, and without any the join is local.
pub open spec fn invited_route(
    own_server: Seq<char>,
    servers: Seq<Seq<char>>,
    inviter: Result<Option<Seq<char>>, Seq<char>>,
) -> Result<Seq<Seq<char>>, Option<ReplyView>> {
    match inviter {
        Err(message) => Err(
            Some(reply::error_view(reply::INTERNAL_SERVER_ERROR, "M_UNKNOWN"@, message)),
        ),
        Ok(sender) => {
            let all = match sender {
                Some(s) => with_server(servers, ids::server_part(s)),
                None => servers,
            };
            let others = lists::kept(all, is_other(own_server));
            if others.len() == 0 {
                Err(None)
            } else {
                Ok(others)
            }
        },
    }
}

/// Who invited a user, as mathematics.
pub open spec fn inviter_view(inviter: Result<Option<String>, StorageError>) -> Result<
    Option<Seq<char>>,
    Seq<char>,
> {
    match inviter {
        Ok(s) => Ok(event::option_view(s)),
        Err(e) => Err(e.message@),
    }
}

/// Completes the servers to join through by the one of whoever invited the user, and never asks
/// ourselves.
pub fn route_by_invite(
    own_server: &str,
    servers: Vec<String>,
    inviter: Result<Option<String>, StorageError>,
) -> (r: JoinRoute)
    requires
        inviter matches Ok(Some(s)) ==> s@.contains(':'),
    ensures
        is_route(
            r,
            invited_route(own_server@, event::views(servers@), inviter_view(inviter)),
        ),
{
    let mut all: Vec<String> = servers;
    match inviter {
        Err(e) => {
            return JoinRoute::Answer(
                error_response(reply::INTERNAL_SERVER_ERROR, "M_UNKNOWN", e.message.as_str()),
            );
        },
        Ok(Some(sender)) => {
            add_server(&mut all, server_of(sender.as_str()));
        },
        Ok(None) => {},
    }
    let mut others: Vec<String> = Vec::new();
    let ghost everyone = event::views(all@);
    let mut i: usize = 0;
    assert(everyone.take(0) =~= Seq::empty());
    assert(event::views(others@) =~= Seq::empty());
    while i < all.len()
        invariant
            i <= all@.len(),
            everyone == event::views(all@),
            event::views(others@) == lists::kept(everyone.take(i as int), is_other(own_server@)),
        decreases all.len() - i,
    {
        assert(everyone.take(i + 1).drop_last() =~= everyone.take(i as int));
        let ghost before = others@;
        if !text::str_eq(all[i].as_str(), own_server) {
            others.push(all[i].clone());
            assert(event::views(others@) =~= event::views(before).push(all@[i as int]@));
        }
        i = i + 1;
    }
    assert(everyone.take(i as int) =~= everyone);
    if others.len() == 0 {
        JoinRoute::Local
    } else {
        JoinRoute::Remote(others)
    }
}

/// The server that one pair of a query names as a candidate.
pub open spec fn named_server(pair: Seq<char>) -> Option<Seq<char>> {
    match text::split_once_at(pair, '=') {
        Some((key, value)) => {
            let name = text::replaced(text::replaced(value, "%3A"@, ':'), "%3a"@, ':');
            if (key == "via"@ || key == "server_name"@) && ids::server_name_valid(name) {
                Some(name)
            } else {
                None
            }
        },
        None => None,
    }
}

/// The servers that the pairs of a query name, in order.
pub open spec fn named_servers(pairs: Seq<Seq<char>>) -> Seq<Seq<char>>
    decreases pairs.len(),
{
    if pairs.len() == 0 {
        seq![]
    } else {
        let front = named_servers(pairs.drop_last());
        match named_server(pairs.last()) {
            Some(s) => front.push(s),
            None => front,
        }
    }
}

/// The servers that a query names as candidates for a join, under either name of the parameter;
/// an encoded colon is decoded, and what is no server name is left out.
pub fn parse_server_names(raw: Option<&str>) -> (servers: Vec<String>)
    ensures
        event::views(servers@) == match raw {
            Some(s) => named_servers(text::parts_of(s@, '&')),
            None => seq![],
        },
{
    let mut servers: Vec<String> = Vec::new();
    assert(event::views(servers@) =~= seq![]);
    let query: &str = match raw {
        Some(s) => s,
        None => {
            return servers;
        },
    };
    let pairs: Vec<String> = text::split(query, '&');
    let ghost all = text::parts_of(query@, '&');
    let mut i: usize = 0;
    assert(all.take(0) =~= Seq::empty());
    while i < pairs.len()
        invariant
            i <= pairs@.len(),
            pairs@.map_values(|p: String| p@) == all,
            event::views(servers@) == named_servers(all.take(i as int)),
        decreases pairs.len() - i,
    {
        assert(all.take(i + 1).drop_last() =~= all.take(i as int));
        assert(all.take(i + 1).last() == pairs@[i as int]@) by {
            assert(pairs@.map_values(|p: String| p@)[i as int] == pairs@[i as int]@);
        }
        let ghost before = servers@;
        match text::split_once(pairs[i].as_str(), '=') {
            Some((key, value)) => {
                if text::str_eq(key, "via") || text::str_eq(key, "server_name") {
                    let upper: String = text::replace(value, "%3A", ':');
                    let name: String = text::replace(upper.as_str(), "%3a", ':');
                    if ids::is_server_name(name.as_str()) {
                        servers.push(name);
                        assert(event::views(servers@) =~= event::views(before).push(name@));
                    }
                }
            },
            None => {},
        }
        i = i + 1;
    }
    assert(all.take(i as int) =~= all);
    servers
}

/// Once a server has refused a join, no later failure hides that: the first refusal is what the
/// client is told. Without a refusal it is the last failure.
pub proof fn law_a_refusal_is_told(failures: Seq<FailureView>, i: int)
    requires
        0 <= i < failures.len(),
        forall|j: int| 0 <= j < i ==> (#[trigger] failures[j]).status != reply::FORBIDDEN,
        failures[i].status == reply::FORBIDDEN || i == failures.len() - 1,
    ensures
        dance_failure(failures) == failures[i],
    decreases failures.len(),
{
    let front = failures.drop_last();
    if i < front.len() {
        assert forall|j: int| 0 <= j < i implies (#[trigger] front[j]).status != reply::FORBIDDEN by {
            assert(front[j] == failures[j]);
        }
        law_a_refusal_is_told(front, i);
        lemma_verdict_is_one(front);
    } else if front.len() > 0 {
        assert forall|j: int| 0 <= j < front.len() - 1 implies (#[trigger] front[j]).status
            != reply::FORBIDDEN by {
            assert(front[j] == failures[j]);
        }
        law_a_refusal_is_told(front, front.len() - 1);
        lemma_verdict_is_one(front);
        assert(front.last() == failures[i - 1]);
    }
}

proof fn lemma_verdict_is_one(failures: Seq<FailureView>)
    requires
        failures.len() > 0,
    ensures
        verdict(failures) is Some,
    decreases failures.len(),
{
    if failures.len() > 1 {
        lemma_verdict_is_one(failures.drop_last());
    }
}

/// A join never goes through our own server, and goes through at least one.
pub proof fn law_we_never_ask_ourselves(
    own_server: Seq<char>,
    servers: Seq<Seq<char>>,
    inviter: Result<Option<Seq<char>>, Seq<char>>,
)
    ensures
        invited_route(own_server, servers, inviter) matches Ok(through) ==> through.len() > 0
            && !through.contains(own_server),
{
    if let Ok(sender) = inviter {
        let all = match sender {
            Some(s) => with_server(servers, ids::server_part(s)),
            None => servers,
        };
        lemma_kept_others(all, own_server);
    }
}

proof fn lemma_kept_others(all: Seq<Seq<char>>, own_server: Seq<char>)
    ensures
        !lists::kept(all, is_other(own_server)).contains(own_server),
    decreases all.len(),
{
    if all.len() > 0 {
        lemma_kept_others(all.drop_last(), own_server);
        let front = lists::kept(all.drop_last(), is_other(own_server));
        let whole = lists::kept(all, is_other(own_server));
        if whole.contains(own_server) {
            let i = whole.index_of(own_server);
            if i < front.len() {
                assert(front[i] == own_server);
            }
        }
    }
}

/// A room in which one of our users is joined is joined locally, whatever servers are named; in
/// one that has none of them left, the servers of the members are asked after those named.
pub proof fn law_a_live_copy_is_joined_locally(
    own_server: Seq<char>,
    hints: Seq<Seq<char>>,
    members: Vec<String>,
)
    ensures
        has_member(event::views(members@), own_server) ==> hosted_route(
            own_server,
            hints,
            Hosting::Hosted(Ok(members)),
        ) == Err::<Seq<Seq<char>>, Option<ReplyView>>(None),
        !has_member(event::views(members@), own_server) ==> (hosted_route(
            own_server,
            hints,
            Hosting::Hosted(Ok(members)),
        ) matches Ok(servers) && hints.is_prefix_of(servers) && forall|i: int|
            0 <= i < members@.len() ==> servers.contains(ids::server_part((#[trigger] members@[i])@))),
{
    let all = event::views(members@);
    lemma_with_members(hints, all, own_server);
    if !has_member(all, own_server) {
        let servers = with_members(hints, all, own_server);
        assert forall|i: int| 0 <= i < members@.len() implies servers.contains(
            ids::server_part((#[trigger] members@[i])@),
        ) by {
            assert(all[i] == members@[i]@);
            assert(ids::server_part(all[i]) != own_server);
        }
    }
}

proof fn lemma_with_members(hints: Seq<Seq<char>>, members: Seq<Seq<char>>, own_server: Seq<char>)
    ensures
        hints.is_prefix_of(with_members(hints, members, own_server)),
        forall|i: int|
            0 <= i < members.len() && ids::server_part(#[trigger] members[i]) != own_server
                ==> with_members(hints, members, own_server).contains(
                ids::server_part(members[i]),
            ),
    decreases members.len(),
{
    if members.len() > 0 {
        let before = members.drop_last();
        lemma_with_members(hints, before, own_server);
        let front = with_members(hints, before, own_server);
        let whole = with_members(hints, members, own_server);
        let server = ids::server_part(members.last());
        assert forall|i: int|
            0 <= i < members.len() && ids::server_part(#[trigger] members[i]) != own_server implies whole.contains(
            ids::server_part(members[i]),
        ) by {
            if i < before.len() {
                assert(before[i] == members[i]);
                let at = front.index_of(ids::server_part(members[i]));
                assert(whole[at] == front[at]);
            } else if !front.contains(server) {
                assert(whole[front.len() as int] == server);
            }
        }
        assert(hints =~= whole.take(hints.len() as int));
    }
}

/// An error of a request ends a join as a refusal exactly when the other server answered that it
/// is forbidden; every other error is a failure on the way, for the given reason.
pub proof fn law_only_a_refusal_is_final(e: FederationClientError, reason: Seq<char>)
    ensures
        ({
            let f = client_failure(e, reason);
            &&& e == FederationClientError::Status(403) ==> f.status == 403 && f.errcode
                == "M_FORBIDDEN"@ && f.reason == "resident refused the join"@
            &&& e != FederationClientError::Status(403) ==> f.status == 502 && f.errcode
                == "M_UNKNOWN"@ && f.reason == reason
        }),
{
}

/// A join without candidates fails on the way, and says that no server could be reached.
pub proof fn law_no_candidates_is_a_failure()
    ensures
        dance_failure(seq![]).status == 502,
        dance_failure(seq![]).errcode == "M_UNKNOWN"@,
        dance_failure(seq![]).reason == "no resident server could be reached"@,
{
}

/// A draft of a membership is an event of our user about themselves, in the room that was asked
/// for, with the membership and the name that were given. Of the template it takes the parents,
/// and nothing else.
pub proof fn law_drafts_say_what_we_say(
    d: MembershipDraft,
    template: event::EventView,
    room_id: Seq<char>,
    user: Seq<char>,
    membership: Seq<char>,
    display_name: Seq<char>,
    key: Seq<char>,
    i: int,
)
    requires
        drafts(d, template, room_id, user, membership, display_name),
    ensures
        d.event_type@ == "m.room.member"@,
        d.room_id@ == room_id,
        d.sender@ == user,
        d.state_key@ == user,
        d.content@.field("membership"@) == Some(JsonView::Text(membership)),
        d.content@.field("displayname"@) == Some(JsonView::Text(display_name)),
        key != "membership"@ && key != "displayname"@ ==> d.content@.field(key) is None,
        d.prev_events@.len() == template.prev_events.len(),
        d.prev_state_events@.len() == template.prev_state_events.len(),
        0 <= i < template.prev_events.len() ==> d.prev_events@[i]@ == template.prev_events[i],
        0 <= i < template.prev_state_events.len() ==> d.prev_state_events@[i]@
            == template.prev_state_events[i],
{
    names::lemma_member_names();
    assert(event::views(d.prev_events@).len() == d.prev_events@.len());
    assert(event::views(d.prev_state_events@).len() == d.prev_state_events@.len());
    if 0 <= i < template.prev_events.len() {
        assert(event::views(d.prev_events@)[i] == d.prev_events@[i]@);
    }
    if 0 <= i < template.prev_state_events.len() {
        assert(event::views(d.prev_state_events@)[i] == d.prev_state_events@[i]@);
    }
}

/// Valid events and rejected ones are kept, in order, and what is no event is not.
pub proof fn law_events_of_an_answer_are_kept(items: Seq<Admitted>, e: Event)
    ensures
        admitted_events(seq![]) == Seq::<Event>::empty(),
        admitted_events(items.push(Admitted::Valid(e))) == admitted_events(items).push(e),
        admitted_events(items.push(Admitted::Rejected(e))) == admitted_events(items).push(e),
        admitted_events(items.push(Admitted::Dropped)) == admitted_events(items),
{
    assert(items.push(Admitted::Valid(e)).drop_last() =~= items);
    assert(items.push(Admitted::Rejected(e)).drop_last() =~= items);
    assert(items.push(Admitted::Dropped).drop_last() =~= items);
}

/// Whether an event says that it creates a room.
pub open spec fn says_create(e: Event) -> bool {
    e.event_type@ == "m.room.create"@ && (e.state_key matches Some(k) && k@ == ""@)
}

/// A room is founded on the first creation among the events, when that is of the room and valid;
/// the failure says which of these it is not.
pub proof fn law_rooms_are_founded_on_their_creation(events: Seq<Event>, room_id: Seq<char>, at: int)
    requires
        0 <= at <= events.len(),
        forall|j: int| 0 <= j < at ==> !says_create(#[trigger] events[j]),
        at < events.len() ==> says_create(events[at]),
    ensures
        lists::first_where(events, is_create()) == at,
        ({
            let fault = founding_fault(events, room_id);
            &&& at == events.len() ==> fault == Some("state DAG is missing the create event"@)
            &&& at < events.len() && events[at].room_id@ != room_id ==> fault == Some(
                "create event is for a different room"@,
            )
            &&& at < events.len() && events[at].room_id@ == room_id && events[at].rejected ==> fault
                == Some("create event in the send_join response is invalid"@)
            &&& at < events.len() && events[at].room_id@ == room_id && !events[at].rejected
                ==> fault is None
        }),
{
    assert forall|j: int| 0 <= j < at implies !(is_create())(#[trigger] events[j]) by {
        assert(!says_create(events[j]));
    }
    lists::lemma_first_where(events, is_create(), at);
}

/// A membership event says that its user joined exactly when its content is JSON whose membership
/// is `join`.
pub proof fn law_who_joined(content: Seq<char>)
    ensures
        joins(content) <==> (codec::parsed_json(content) matches Some(v) && v.field("membership"@)
            == Some(JsonView::Text("join"@))),
{
}

/// How the wait for a join ends: with success once the user's membership is a join, with a failure
/// of ours once the store fails or closes, and with a timeout once the time is over. Until then it
/// goes on.
pub proof fn law_how_the_wait_ends(event: WaitEvent)
    ensures
        match event {
            WaitEvent::Read { member: Err(e), .. } => wait_end(event) matches Some(Some(f)) && f.status
                == 500 && f.errcode == "M_UNKNOWN"@ && f.reason == e.message@,
            WaitEvent::Read { member: Ok(m), expired } => {
                let joined = m matches Some(e) && joins(e.content@);
                &&& joined ==> wait_end(event) == Some(None::<FailureView>)
                &&& !joined && expired ==> (wait_end(event) matches Some(Some(f)) && f.status == 504)
                &&& !joined && !expired ==> wait_end(event) is None
            },
            WaitEvent::Persisted => wait_end(event) is None,
            WaitEvent::Closed => wait_end(event) matches Some(Some(f)) && f.status == 500 && f.reason
                == "store closed while joining"@,
            WaitEvent::Elapsed => wait_end(event) matches Some(Some(f)) && f.status == 504 && f.errcode
                == "M_UNKNOWN"@ && f.reason
                == "timed out applying room state; the join is still being processed"@,
        },
{
}

/// A client whose join succeeded is told the room, and one whose join failed the status, the code
/// and the reason of the failure.
pub proof fn law_the_client_is_told_the_outcome(room_id: Seq<char>, f: FailureView)
    ensures
        join_view(room_id, Some(None)).status == 200,
        join_view(room_id, Some(None)).body.field("room_id"@) == Some(JsonView::Text(room_id)),
        join_view(room_id, Some(Some(f))).status == f.status,
        join_view(room_id, Some(Some(f))).body.field("errcode"@) == Some(JsonView::Text(f.errcode)),
        join_view(room_id, Some(Some(f))).body.field("error"@) == Some(JsonView::Text(f.reason)),
        join_view(room_id, None).status == 500,
        join_view(room_id, None).body.field("errcode"@) == Some(JsonView::Text("M_UNKNOWN"@)),
        join_view(room_id, None).body.field("error"@) == Some(
            JsonView::Text("join task terminated unexpectedly"@),
        ),
{
    names::lemma_error_names();
}

/// Where our copy of a room does not say, a join goes the way that it says: through the servers
/// that are named where there is no copy, within our server where nothing is known, and not at all
/// where the members could not be read.
pub proof fn law_how_a_join_is_routed(own_server: Seq<char>, hints: Seq<Seq<char>>, e: StorageError)
    ensures
        hosted_route(own_server, hints, Hosting::NotHosted) == Ok::<
            Seq<Seq<char>>,
            Option<ReplyView>,
        >(hints),
        hosted_route(own_server, hints, Hosting::Unknown) == Err::<Seq<Seq<char>>, Option<ReplyView>>(
            None,
        ),
        hosted_route(own_server, hints, Hosting::Hosted(Err(e))) matches Err(Some(r)) && r.status == 500
            && r.body.field("errcode"@) == Some(JsonView::Text("M_UNKNOWN"@)) && r.body.field("error"@)
            == Some(JsonView::Text(e.message@)),
{
    names::lemma_error_names();
}

/// A server is asked in a join that goes by a stale copy exactly when it was named, or is that of a
/// member and not ours; none is asked for a member twice.
pub proof fn law_members_name_their_servers(
    hints: Seq<Seq<char>>,
    members: Seq<Seq<char>>,
    own_server: Seq<char>,
    server: Seq<char>,
)
    ensures
        with_members(hints, members, own_server).contains(server) <==> hints.contains(server) || (server
            != own_server && exists|i: int|
            0 <= i < members.len() && ids::server_part(#[trigger] members[i]) == server),
        hints.no_duplicates() ==> with_members(hints, members, own_server).no_duplicates(),
    decreases members.len(),
{
    if members.len() > 0 {
        let before = members.drop_last();
        law_members_name_their_servers(hints, before, own_server, server);
        let front = with_members(hints, before, own_server);
        let whole = with_members(hints, members, own_server);
        let last = ids::server_part(members.last());
        assert(members[members.len() - 1] == members.last());
        assert(whole.contains(server) <==> front.contains(server) || (server == last && last
            != own_server)) by {
            if front.contains(server) {
                assert(whole[front.index_of(server)] == server);
            }
            if last != own_server && !front.contains(last) {
                assert(whole[front.len() as int] == last);
            }
            if whole.contains(server) && !front.contains(server) {
                let i = whole.index_of(server);
                if i < front.len() {
                    assert(front[i] == server);
                }
            }
        }
        if exists|i: int| 0 <= i < before.len() && ids::server_part(#[trigger] before[i]) == server {
            let i = choose|i: int| 0 <= i < before.len() && ids::server_part(#[trigger] before[i]) == server;
            assert(members[i] == before[i]);
        }
        if exists|i: int| 0 <= i < members.len() && ids::server_part(#[trigger] members[i]) == server {
            let i = choose|i: int|
                0 <= i < members.len() && ids::server_part(#[trigger] members[i]) == server;
            if i < before.len() {
                assert(before[i] == members[i]);
            }
        }
    }
}

/// The server of whoever invited the user is asked too, behind those that are named, unless it is
/// among them or ours; ours is asked in no case. Without any server the join is local, and where
/// the invitation could not be read the client is told.
pub proof fn law_inviters_name_their_server(
    own_server: Seq<char>,
    servers: Seq<Seq<char>>,
    inviter: Seq<char>,
    message: Seq<char>,
    server: Seq<char>,
)
    ensures
        ({
            let asked = invited_route(own_server, servers, Ok(Some(inviter)));
            let named = invited_route(own_server, servers, Ok(None));
            let from = ids::server_part(inviter);
            &&& asked matches Ok(through) ==> (through.contains(server) <==> server != own_server && (
            servers.contains(server) || server == from))
            &&& asked is Ok <==> from != own_server || exists|s: Seq<char>| #[trigger]
                servers.contains(s) && s != own_server
            &&& named matches Ok(through) ==> (through.contains(server) <==> server != own_server
                && servers.contains(server))
            &&& named is Ok <==> exists|s: Seq<char>| #[trigger] servers.contains(s) && s != own_server
            &&& asked is Err ==> asked == Err::<Seq<Seq<char>>, Option<ReplyView>>(None)
            &&& named is Err ==> named == Err::<Seq<Seq<char>>, Option<ReplyView>>(None)
            &&& invited_route(own_server, servers, Err(message)) matches Err(Some(r)) && r.status == 500
                && r.body.field("errcode"@) == Some(JsonView::Text("M_UNKNOWN"@)) && r.body.field(
                "error"@,
            ) == Some(JsonView::Text(message))
        }),
{
    names::lemma_error_names();
    let from = ids::server_part(inviter);
    let all = with_server(servers, from);
    assert forall|s: Seq<char>| all.contains(s) <==> servers.contains(s) || s == from by {
        if servers.contains(s) {
            assert(all[servers.index_of(s)] == s);
        }
        if !servers.contains(from) {
            assert(all[servers.len() as int] == from);
        }
        if all.contains(s) && !servers.contains(s) {
            let i = all.index_of(s);
            if i < servers.len() {
                assert(servers[i] == s);
            }
        }
    }
    lemma_kept_members(all, own_server);
    lemma_kept_members(servers, own_server);
    let p = lists::kept(all, is_other(own_server));
    let q = lists::kept(servers, is_other(own_server));
    if p.len() > 0 {
        assert(p.contains(p[0]));
        assert(all.contains(p[0]));
        if p[0] != from {
            assert(servers.contains(p[0]) && p[0] != own_server);
        }
    }
    if q.len() > 0 {
        assert(q.contains(q[0]));
        assert(servers.contains(q[0]) && q[0] != own_server);
    }
    if exists|s: Seq<char>| #[trigger] servers.contains(s) && s != own_server {
        let s = choose|s: Seq<char>| #[trigger] servers.contains(s) && s != own_server;
        assert(all.contains(s));
        assert(p.contains(s));
        assert(q.contains(s));
    }
    if from != own_server {
        assert(all.contains(from));
        assert(p.contains(from));
    }
}

proof fn lemma_kept_members(all: Seq<Seq<char>>, own_server: Seq<char>)
    ensures
        forall|s: Seq<char>| #[trigger]
            lists::kept(all, is_other(own_server)).contains(s) <==> all.contains(s) && s != own_server,
    decreases all.len(),
{
    if all.len() > 0 {
        let rest = all.drop_last();
        lemma_kept_members(rest, own_server);
        let front = lists::kept(rest, is_other(own_server));
        let whole = lists::kept(all, is_other(own_server));
        assert forall|s: Seq<char>| #[trigger] whole.contains(s) <==> all.contains(s) && s
            != own_server by {
            if front.contains(s) {
                assert(whole[front.index_of(s)] == s);
                assert(all[rest.index_of(s)] == s);
            }
            if all.contains(s) && s != own_server {
                let i = all.index_of(s);
                if i < rest.len() {
                    assert(rest[i] == s);
                    assert(front.contains(s));
                } else {
                    assert(whole[front.len() as int] == s);
                }
            }
            if whole.contains(s) {
                let i = whole.index_of(s);
                if i < front.len() {
                    assert(front[i] == s);
                } else {
                    assert(all[all.len() - 1] == s);
                }
            }
        }
    }
}

/// A pair of a query names a server exactly when its key is `via` or `server_name` and its value,
/// with encoded colons decoded, is the name of a server. The servers come in the order of the
/// pairs.
pub proof fn law_which_servers_are_named(
    pairs: Seq<Seq<char>>,
    key: Seq<char>,
    value: Seq<char>,
)
    requires
        !key.contains('='),
    ensures
        ({
            let pair = key + seq!['='] + value;
            let name = text::replaced(text::replaced(value, "%3A"@, ':'), "%3a"@, ':');
            let named = (key == "via"@ || key == "server_name"@) && ids::server_name_valid(name);
            &&& named_servers(seq![]).len() == 0
            &&& named_servers(pairs.push(pair)) == if named {
                named_servers(pairs).push(name)
            } else {
                named_servers(pairs)
            }
        }),
{
    let pair = key + seq!['='] + value;
    let n = key.len() as int;
    assert(pair[n] == '=');
    assert forall|j: int| 0 <= j < n implies pair[j] != '=' by {
        assert(pair[j] == key[j]);
        assert(key.contains(key[j]));
    }
    text::lemma_upto(pair, '=', n);
    assert(pair.contains('='));
    assert(pair.take(n) =~= key);
    assert(pair.skip(n + 1) =~= value);
    assert(pairs.push(pair).drop_last() =~= pairs);
}

/// What the client is told is the outcome, and whoever invited the user is who the store says.
pub proof fn law_outcomes_are_what_came(f: JoinFailure, sender: String, e: StorageError)
    ensures
        outcome_view(Ok(())) is None,
        outcome_view(Err(f)) == Some(f@),
        inviter_view(Ok(Some(sender))) == Ok::<Option<Seq<char>>, Seq<char>>(Some(sender@)),
        inviter_view(Ok(None)) == Ok::<Option<Seq<char>>, Seq<char>>(None),
        inviter_view(Err(e)) == Err::<Option<Seq<char>>, Seq<char>>(e.message@),
{
}

/// A route through servers is through those, in order; one with an answer is answered so; every
/// other is the local one.
pub proof fn law_routes_are_taken_as_decided(
    r: JoinRoute,
    servers: Seq<Seq<char>>,
    answer: ReplyView,
    i: int,
)
    ensures
        is_route(r, Ok(servers)) ==> (r matches JoinRoute::Remote(v) && v@.len() == servers.len() && (0
            <= i < v@.len() ==> v@[i]@ == servers[i])),
        is_route(r, Err(Some(answer))) ==> (r matches JoinRoute::Answer(a) && a.status as int
            == answer.status && a.body@ == answer.body),
        is_route(r, Err(None)) ==> r is Local,
{
}

/// A room of which we have a stale copy is joined through the servers that were named and those of
/// its members, and no others.
pub proof fn law_stale_rooms_are_joined_through_members(
    own_server: Seq<char>,
    hints: Seq<Seq<char>>,
    members: Vec<String>,
    server: Seq<char>,
)
    ensures
        ({
            let route = hosted_route(own_server, hints, Hosting::Hosted(Ok(members)));
            &&& route is Ok <==> !exists|i: int|
                0 <= i < members@.len() && ids::server_part((#[trigger] members@[i])@) == own_server
            &&& route matches Ok(servers) ==> (servers.contains(server) <==> hints.contains(server)
                || exists|i: int|
                0 <= i < members@.len() && ids::server_part((#[trigger] members@[i])@) == server)
            &&& route matches Ok(servers) ==> (hints.no_duplicates() ==> servers.no_duplicates())
            &&& route matches Err(answer) ==> answer is None
        }),
{
    let texts = event::views(members@);
    law_members_name_their_servers(hints, texts, own_server, server);
    assert forall|s: Seq<char>| #[trigger] has_member(texts, s) <==> exists|i: int|
        0 <= i < members@.len() && ids::server_part((#[trigger] members@[i])@) == s by {
        if has_member(texts, s) {
            let i = choose|i: int| 0 <= i < texts.len() && ids::server_part(#[trigger] texts[i]) == s;
            assert(texts[i] == members@[i]@);
        }
        if exists|i: int| 0 <= i < members@.len() && ids::server_part((#[trigger] members@[i])@) == s {
            let i = choose|i: int|
                0 <= i < members@.len() && ids::server_part((#[trigger] members@[i])@) == s;
            assert(texts[i] == members@[i]@);
        }
    }
    assert(has_member(texts, server) <==> exists|i: int|
        0 <= i < texts.len() && ids::server_part(#[trigger] texts[i]) == server);
    assert(has_member(texts, own_server) <==> exists|i: int|
        0 <= i < members@.len() && ids::server_part((#[trigger] members@[i])@) == own_server);
}

} // verus!
