//! The older form of a sync, served from the newer one: its query becomes a request for all
//! rooms, and the rooms of the answer go where their membership puts them.
use crate::codec;
use crate::engine;
use crate::engine::StorageError;
use crate::event;
use crate::event_view;
use crate::json;
use crate::json::{Json, JsonObject, JsonView};
use crate::reply;
use crate::reply::{error_response, Reply, ReplyView};
use crate::send;
use crate::strmap::StrMap;
use crate::text;
use std::time::Duration;
use vstd::prelude::*;

verus! {

/// The connection of the older syncs: no other sync has it.
pub const LEGACY_CONN_ID: &'static str = "__legacy__";

/// The name of the one list that is asked for.
pub const LEGACY_LIST_NAME: &'static str = "all";

/// How many events of the timeline of a room are asked for.
pub const LEGACY_TIMELINE_LIMIT: u64 = 50;

/// The greatest number of a range.
pub const RANGE_END: u64 = 9007199254740991;

/// The parameters of a sync in its older form.
#[derive(Debug, PartialEq, Eq)]
pub struct LegacyQuery {
    /// The token of the sync before this one.
    pub since: Option<String>,
    /// How long to wait for something new.
    pub timeout: Duration,
    /// Whether the client knows of the state after the timeline.
    pub use_state_after: bool,
}

impl Clone for LegacyQuery {
    fn clone(&self) -> (q: LegacyQuery)
        ensures
            event::option_view(q.since) == event::option_view(self.since),
            q.timeout == self.timeout,
            q.use_state_after == self.use_state_after,
    {
        let since: Option<String> = match &self.since {
            Some(s) => Some(s.clone()),
            None => None,
        };
        LegacyQuery { since, timeout: self.timeout, use_state_after: self.use_state_after }
    }
}

impl Default for LegacyQuery {
    fn default() -> (q: LegacyQuery)
        ensures
            q.since is None,
            engine::duration_nanos(q.timeout) == 0,
            !q.use_state_after,
    {
        LegacyQuery { since: None, timeout: Duration::from_millis(0), use_state_after: false }
    }
}

/// Whether a parameter is switched on, in capitals or not.
pub open spec fn truthy(s: Seq<char>) -> bool {
    &&& s.len() == 4
    &&& (s[0] == 't' || s[0] == 'T')
    &&& (s[1] == 'r' || s[1] == 'R')
    &&& (s[2] == 'u' || s[2] == 'U')
    &&& (s[3] == 'e' || s[3] == 'E')
}

/// What a query holds for a parameter.
pub open spec fn parameter(query: Map<Seq<char>, String>, key: Seq<char>) -> Option<Seq<char>> {
    if query.contains_key(key) {
        Some(query[key]@)
    } else {
        None
    }
}

/// Whether a parameter of a query is switched on.
pub open spec fn switched_on(query: Map<Seq<char>, String>, key: Seq<char>) -> bool {
    match parameter(query, key) {
        Some(s) => truthy(s),
        None => false,
    }
}

/// The token of a query; an empty one is none.
pub open spec fn since_of(query: Map<Seq<char>, String>) -> Option<Seq<char>> {
    match parameter(query, "since"@) {
        Some(s) => if s.len() > 0 {
            Some(s)
        } else {
            None
        },
        None => None,
    }
}

/// How long a query is to wait, in milliseconds; what is no number is no wait.
pub open spec fn timeout_of(query: Map<Seq<char>, String>) -> nat {
    match parameter(query, "timeout"@) {
        Some(s) => match text::parsed_number(s, u64::MAX + 1) {
            Some(n) => n,
            None => 0,
        },
        None => 0,
    }
}

fn is_truthy(value: Option<&String>) -> (yes: bool)
    ensures
        yes == (value matches Some(s) && truthy(s@)),
{
    match value {
        Some(s) => {
            let c: Vec<char> = text::to_chars(s.as_str());
            c.len() == 4 && (c[0] == 't' || c[0] == 'T') && (c[1] == 'r' || c[1] == 'R') && (c[2]
                == 'u' || c[2] == 'U') && (c[3] == 'e' || c[3] == 'E')
        },
        None => false,
    }
}

/// Reads the parameters of a sync; those that it does not know are ignored.
pub fn parse_legacy_query(query: &StrMap<String>) -> (q: LegacyQuery)
    ensures
        event::option_view(q.since) == since_of(query@),
        engine::duration_nanos(q.timeout) == timeout_of(query@) * engine::NANOS_PER_MILLI,
        q.use_state_after == (switched_on(query@, "use_state_after"@) || switched_on(
            query@,
            "org.matrix.msc4222.use_state_after"@,
        )),
{
    let since: Option<String> = match query.get("since") {
        Some(s) => {
            let c: Vec<char> = text::to_chars(s.as_str());
            if c.len() > 0 {
                Some(s.clone())
            } else {
                None
            }
        },
        None => None,
    };
    let timeout: Duration = match query.get("timeout") {
        Some(s) => match text::parse_u64(s.as_str()) {
            Some(n) => Duration::from_millis(n),
            None => Duration::from_millis(0),
        },
        None => Duration::from_millis(0),
    };
    let use_state_after: bool = is_truthy(query.get("use_state_after")) || is_truthy(
        query.get("org.matrix.msc4222.use_state_after"),
    );
    LegacyQuery { since, timeout, use_state_after }
}

/// Which events of a room are asked for.
pub struct RoomDetails {
    /// Types and keys of state events; a star stands for all.
    pub required_state: Vec<(String, String)>,
    pub timeline_limit: u64,
}

/// A list of rooms that is asked for.
pub struct SyncList {
    pub ranges: Vec<(u64, u64)>,
    pub room_details: RoomDetails,
}

/// A sync in its newer form.
pub struct SyncRequest {
    pub pos: Option<String>,
    pub timeout: Option<Duration>,
    pub conn_id: Option<String>,
    pub lists: StrMap<SyncList>,
    pub room_subscriptions: StrMap<RoomDetails>,
    pub typing_enabled: Option<bool>,
    pub receipts_enabled: Option<bool>,
    pub e2ee_enabled: Option<bool>,
}

/// Whether a request asks, on the connection of the older syncs, for all rooms with all of their
/// state, and for typing notices, receipts and keys.
pub open spec fn asks_for_all(req: SyncRequest) -> bool {
    &&& event::option_view(req.conn_id) == Some(LEGACY_CONN_ID@)
    &&& req.lists@.dom() == set![LEGACY_LIST_NAME@]
    &&& req.lists@[LEGACY_LIST_NAME@].ranges@ == seq![(0u64, RANGE_END)]
    &&& req.lists@[LEGACY_LIST_NAME@].room_details.timeline_limit == LEGACY_TIMELINE_LIMIT
    &&& req.lists@[LEGACY_LIST_NAME@].room_details.required_state@.len() == 1
    &&& req.lists@[LEGACY_LIST_NAME@].room_details.required_state@[0].0@ == "*"@
    &&& req.lists@[LEGACY_LIST_NAME@].room_details.required_state@[0].1@ == "*"@
    &&& req.room_subscriptions@ == Map::<Seq<char>, RoomDetails>::empty()
    &&& req.typing_enabled == Some(true)
    &&& req.receipts_enabled == Some(true)
    &&& req.e2ee_enabled == Some(true)
}

/// The request that serves a sync of the older form: from its token on, and with its wait where
/// it has one.
pub fn synthesize_v5_request(query: &LegacyQuery) -> (req: SyncRequest)
    ensures
        asks_for_all(req),
        event::option_view(req.pos) == event::option_view(query.since),
        req.timeout == if engine::duration_nanos(query.timeout) == 0 {
            None
        } else {
            Some(query.timeout)
        },
{
    let pos: Option<String> = match &query.since {
        Some(s) => Some(s.clone()),
        None => None,
    };
    let timeout: Option<Duration> = if query.timeout.as_nanos() == 0 {
        None
    } else {
        Some(query.timeout)
    };
    let mut ranges: Vec<(u64, u64)> = Vec::new();
    ranges.push((0, RANGE_END));
    let mut required_state: Vec<(String, String)> = Vec::new();
    required_state.push(("*".to_owned(), "*".to_owned()));
    let list = SyncList {
        ranges,
        room_details: RoomDetails { required_state, timeline_limit: LEGACY_TIMELINE_LIMIT },
    };
    let mut lists: StrMap<SyncList> = StrMap::new();
    lists.insert(LEGACY_LIST_NAME.to_owned(), list);
    assert(lists@.dom() =~= set![LEGACY_LIST_NAME@]);
    SyncRequest {
        pos,
        timeout,
        conn_id: Some(LEGACY_CONN_ID.to_owned()),
        lists,
        room_subscriptions: StrMap::new(),
        typing_enabled: Some(true),
        receipts_enabled: Some(true),
        e2ee_enabled: Some(true),
    }
}

/// How a user stands to a room.
#[derive(Debug, Clone, Copy, PartialEq, Eq, Structural)]
pub enum Membership {
    Join,
    Invite,
    Knock,
    Leave,
    Ban,
}

/// A room of an answer of the newer form.
pub struct SyncRoom {
    pub timeline: Vec<Json>,
    pub required_state: Vec<Json>,
    /// Stripped state, for a room that the user is invited to.
    pub invite_state: Option<Vec<Json>>,
}

/// An answer of the newer form.
pub struct SyncResponse {
    pub pos: String,
    pub rooms: StrMap<SyncRoom>,
    /// Typing notices by room, as JSON text.
    pub typing: StrMap<String>,
    /// Receipts by room, as JSON text.
    pub receipts: StrMap<String>,
    pub changed: Vec<String>,
    pub left: Vec<String>,
    pub one_time_keys: StrMap<u64>,
}

/// Where a room goes in an answer of the older form.
#[derive(Debug, Clone, Copy, PartialEq, Eq, Structural)]
pub enum Bucket {
    Join,
    Invite,
    Leave,
    Knock,
}

/// The membership that is known for a room.
pub open spec fn membership_in(memberships: Map<Seq<char>, Membership>, room: Seq<char>) -> Option<
    Membership,
> {
    if memberships.contains_key(room) {
        Some(memberships[room])
    } else {
        None
    }
}

/// Where a room goes: by its membership, and by what it holds where none is known.
pub open spec fn bucket_of(membership: Option<Membership>, room: SyncRoom) -> Bucket {
    match membership {
        Some(Membership::Invite) => Bucket::Invite,
        Some(Membership::Join) => Bucket::Join,
        Some(Membership::Knock) => Bucket::Knock,
        Some(Membership::Leave) => Bucket::Leave,
        Some(Membership::Ban) => Bucket::Leave,
        None => if room.invite_state is Some {
            Bucket::Invite
        } else {
            Bucket::Join
        },
    }
}

/// An object with a list of events.
pub open spec fn events_json(events: Seq<JsonView>) -> JsonView {
    JsonView::Object(Map::empty().insert("events"@, JsonView::Array(events)))
}

/// A joined or left room: its timeline, its state, twice, and its notices.
pub open spec fn joined_shape(
    timeline: Seq<JsonView>,
    state: Seq<JsonView>,
    notices: Seq<JsonView>,
) -> JsonView {
    JsonView::Object(
        Map::empty().insert(
            "timeline"@,
            JsonView::Object(
                Map::empty().insert("events"@, JsonView::Array(timeline)).insert(
                    "limited"@,
                    JsonView::Bool(false),
                ).insert("prev_batch"@, JsonView::Text(""@)),
            ),
        ).insert("state"@, events_json(state)).insert(
            "org.matrix.msc4222.state_after"@,
            events_json(state),
        ).insert("ephemeral"@, events_json(notices)).insert("account_data"@, events_json(seq![])),
    )
}

/// A room that the user is invited to: its stripped state.
pub open spec fn invite_shape(room: SyncRoom) -> JsonView {
    JsonView::Object(
        Map::empty().insert(
            "invite_state"@,
            events_json(
                match room.invite_state {
                    Some(events) => json::array_view(events@),
                    None => seq![],
                },
            ),
        ),
    )
}

/// The stripped forms of state events.
pub open spec fn stripped_all(events: Seq<Json>) -> Seq<JsonView> {
    Seq::new(events.len(), |i: int| JsonView::Object(event_view::stripped_of(events[i]@)))
}

/// A room that the user knocked at: its state, stripped.
pub open spec fn knock_shape(room: SyncRoom) -> JsonView {
    JsonView::Object(
        Map::empty().insert("knock_state"@, events_json(stripped_all(room.required_state@))),
    )
}

/// The notice that a text holds, where it is JSON.
pub open spec fn notice_in(texts: Map<Seq<char>, String>, room: Seq<char>) -> Seq<JsonView> {
    if texts.contains_key(room) {
        match codec::parsed_json(texts[room]@) {
            Some(v) => seq![v],
            None => seq![],
        }
    } else {
        seq![]
    }
}

/// The notices of a room: only one that the user has joined has any.
pub open spec fn notices_of(
    resp: SyncResponse,
    memberships: Map<Seq<char>, Membership>,
    room: Seq<char>,
) -> Seq<JsonView> {
    if membership_in(memberships, room) == Some(Membership::Join) {
        notice_in(resp.typing@, room) + notice_in(resp.receipts@, room)
    } else {
        seq![]
    }
}

/// Whether a room of the answer goes into the given bucket.
pub open spec fn goes_to(
    resp: SyncResponse,
    memberships: Map<Seq<char>, Membership>,
    room: Seq<char>,
    bucket: Bucket,
) -> bool {
    resp.rooms@.contains_key(room) && bucket_of(
        membership_in(memberships, room),
        resp.rooms@[room],
    ) == bucket
}

/// The joined rooms: those of the answer, and those of which it has but notices.
pub open spec fn join_rooms(resp: SyncResponse, memberships: Map<Seq<char>, Membership>) -> Map<
    Seq<char>,
    JsonView,
> {
    Map::new(
        |k: Seq<char>|
            goes_to(resp, memberships, k, Bucket::Join) || notices_of(resp, memberships, k).len()
                > 0,
        |k: Seq<char>|
            if goes_to(resp, memberships, k, Bucket::Join) {
                joined_shape(
                    json::array_view(resp.rooms@[k].timeline@),
                    json::array_view(resp.rooms@[k].required_state@),
                    notices_of(resp, memberships, k),
                )
            } else {
                joined_shape(seq![], seq![], notices_of(resp, memberships, k))
            },
    )
}

/// The rooms that the user is invited to.
pub open spec fn invite_rooms(resp: SyncResponse, memberships: Map<Seq<char>, Membership>) -> Map<
    Seq<char>,
    JsonView,
> {
    Map::new(
        |k: Seq<char>| goes_to(resp, memberships, k, Bucket::Invite),
        |k: Seq<char>| invite_shape(resp.rooms@[k]),
    )
}

/// The rooms that the user left.
pub open spec fn leave_rooms(resp: SyncResponse, memberships: Map<Seq<char>, Membership>) -> Map<
    Seq<char>,
    JsonView,
> {
    Map::new(
        |k: Seq<char>| goes_to(resp, memberships, k, Bucket::Leave),
        |k: Seq<char>|
            joined_shape(
                json::array_view(resp.rooms@[k].timeline@),
                json::array_view(resp.rooms@[k].required_state@),
                seq![],
            ),
    )
}

/// The rooms that the user knocked at.
pub open spec fn knock_rooms(resp: SyncResponse, memberships: Map<Seq<char>, Membership>) -> Map<
    Seq<char>,
    JsonView,
> {
    Map::new(
        |k: Seq<char>| goes_to(resp, memberships, k, Bucket::Knock),
        |k: Seq<char>| knock_shape(resp.rooms@[k]),
    )
}

/// Counts by name.
pub open spec fn counts_json(counts: Map<Seq<char>, u64>) -> Map<Seq<char>, JsonView> {
    Map::new(|k: Seq<char>| counts.contains_key(k), |k: Seq<char>| JsonView::Int(counts[k] as int))
}

/// The rooms of an answer of the older form.
pub open spec fn rooms_view(resp: SyncResponse, memberships: Map<Seq<char>, Membership>) -> JsonView {
    JsonView::Object(
        Map::empty().insert("join"@, JsonView::Object(join_rooms(resp, memberships))).insert(
            "invite"@,
            JsonView::Object(invite_rooms(resp, memberships)),
        ).insert("leave"@, JsonView::Object(leave_rooms(resp, memberships))).insert(
            "knock"@,
            JsonView::Object(knock_rooms(resp, memberships)),
        ),
    )
}

/// An answer of the older form, with the messages that wait for the device.
pub open spec fn legacy_view(
    resp: SyncResponse,
    memberships: Map<Seq<char>, Membership>,
    to_device: Seq<JsonView>,
) -> JsonView {
    JsonView::Object(
        Map::empty().insert("next_batch"@, JsonView::Text(resp.pos@)).insert(
            "rooms"@,
            rooms_view(resp, memberships),
        ).insert("presence"@, events_json(seq![])).insert(
            "account_data"@,
            events_json(seq![]),
        ).insert("to_device"@, events_json(to_device)).insert(
            "device_lists"@,
            JsonView::Object(
                Map::empty().insert("changed"@, send::strings_json(event::views(resp.changed@))).insert(
                    "left"@,
                    send::strings_json(event::views(resp.left@)),
                ),
            ),
        ).insert(
            "device_one_time_keys_count"@,
            JsonView::Object(counts_json(resp.one_time_keys@)),
        ),
    )
}

fn copies(items: &Vec<Json>) -> (r: Vec<Json>)
    ensures
        json::array_view(r@) == json::array_view(items@),
{
    let mut r: Vec<Json> = Vec::new();
    let mut i: usize = 0;
    while i < items.len()
        invariant
            i <= items@.len(),
            r@.len() == i,
            forall|j: int| 0 <= j < i ==> (#[trigger] r@[j])@ == items@[j]@,
        decreases items.len() - i,
    {
        r.push(items[i].duplicate());
        i = i + 1;
    }
    assert(json::array_view(r@) =~= json::array_view(items@));
    r
}

fn none() -> (r: Vec<Json>)
    ensures
        json::array_view(r@) == Seq::<JsonView>::empty(),
{
    let r: Vec<Json> = Vec::new();
    assert(json::array_view(r@) =~= Seq::<JsonView>::empty());
    r
}

fn events_object(events: Vec<Json>) -> (r: Json)
    ensures
        r@ == events_json(json::array_view(events@)),
{
    let mut m: JsonObject = JsonObject::new();
    m.insert("events".to_owned(), Json::array(events));
    Json::object(m)
}

fn joined_room_shape(timeline: Vec<Json>, state: Vec<Json>, notices: Vec<Json>) -> (r: Json)
    ensures
        r@ == joined_shape(
            json::array_view(timeline@),
            json::array_view(state@),
            json::array_view(notices@),
        ),
{
    let mut line: JsonObject = JsonObject::new();
    line.insert("events".to_owned(), Json::array(timeline));
    line.insert("limited".to_owned(), Json::boolean(false));
    line.insert("prev_batch".to_owned(), Json::text("".to_owned()));
    let mut m: JsonObject = JsonObject::new();
    m.insert("timeline".to_owned(), Json::object(line));
    m.insert("state".to_owned(), events_object(copies(&state)));
    m.insert("org.matrix.msc4222.state_after".to_owned(), events_object(state));
    m.insert("ephemeral".to_owned(), events_object(notices));
    m.insert("account_data".to_owned(), events_object(none()));
    Json::object(m)
}

fn invite_room_shape(room: &SyncRoom) -> (r: Json)
    ensures
        r@ == invite_shape(*room),
{
    let events: Vec<Json> = match &room.invite_state {
        Some(events) => copies(events),
        None => none(),
    };
    let mut m: JsonObject = JsonObject::new();
    m.insert("invite_state".to_owned(), events_object(events));
    Json::object(m)
}

fn knock_room_shape(room: &SyncRoom) -> (r: Json)
    ensures
        r@ == knock_shape(*room),
{
    let mut events: Vec<Json> = Vec::new();
    let mut i: usize = 0;
    while i < room.required_state.len()
        invariant
            i <= room.required_state@.len(),
            events@.len() == i,
            forall|j: int|
                0 <= j < i ==> (#[trigger] events@[j])@ == JsonView::Object(
                    event_view::stripped_of(room.required_state@[j]@),
                ),
        decreases room.required_state.len() - i,
    {
        events.push(Json::object(event_view::strip_value(&room.required_state[i])));
        i = i + 1;
    }
    assert(json::array_view(events@) =~= stripped_all(room.required_state@));
    let mut m: JsonObject = JsonObject::new();
    m.insert("knock_state".to_owned(), events_object(events));
    Json::object(m)
}

fn notice(texts: &StrMap<String>, room: &str, notices: &mut Vec<Json>)
    ensures
        json::array_view(final(notices)@) == json::array_view(old(notices)@) + notice_in(
            texts@,
            room@,
        ),
{
    match texts.get(room) {
        Some(s) => match codec::parse(s.as_str()) {
            Ok(v) => {
                notices.push(v);
            },
            Err(_) => {},
        },
        None => {},
    }
    assert(json::array_view(notices@) =~= json::array_view(old(notices)@) + notice_in(
        texts@,
        room@,
    ));
}

fn notices(resp: &SyncResponse, memberships: &StrMap<Membership>, room: &str) -> (r: Vec<Json>)
    ensures
        json::array_view(r@) == notices_of(*resp, memberships@, room@),
{
    let mut r: Vec<Json> = none();
    let joined: bool = match memberships.get(room) {
        Some(m) => *m == Membership::Join,
        None => false,
    };
    if joined {
        notice(&resp.typing, room, &mut r);
        notice(&resp.receipts, room, &mut r);
        assert(json::array_view(r@) =~= notices_of(*resp, memberships@, room@));
    }
    r
}

fn bucket(membership: Option<&Membership>, room: &SyncRoom) -> (b: Bucket)
    ensures
        b == bucket_of(
            match membership {
                Some(m) => Some(*m),
                None => None,
            },
            *room,
        ),
{
    match membership {
        Some(Membership::Invite) => Bucket::Invite,
        Some(Membership::Join) => Bucket::Join,
        Some(Membership::Knock) => Bucket::Knock,
        Some(Membership::Leave) => Bucket::Leave,
        Some(Membership::Ban) => Bucket::Leave,
        None => if room.invite_state.is_some() {
            Bucket::Invite
        } else {
            Bucket::Join
        },
    }
}

/// The rooms with a notice that the answer has no events of.
fn add_noticed(
    resp: &SyncResponse,
    memberships: &StrMap<Membership>,
    texts: &StrMap<String>,
    done: Ghost<Set<Seq<char>>>,
    join: &mut JsonObject,
)
    requires
        old(join)@ == join_rooms(*resp, memberships@).restrict(done@),
        resp.rooms@.dom().subset_of(done@),
    ensures
        final(join)@ == join_rooms(*resp, memberships@).restrict(done@.union(texts@.dom())),
{
    let ghost whole = join_rooms(*resp, memberships@);
    let n: usize = texts.len();
    let ghost order = texts.keys();
    let mut i: usize = 0;
    assert(join@ =~= whole.restrict(done@.union(order.take(0).to_set())));
    while i < n
        invariant
            i <= n,
            n == texts.keys().len(),
            order == texts.keys(),
            whole == join_rooms(*resp, memberships@),
            resp.rooms@.dom().subset_of(done@),
            join@ == whole.restrict(done@.union(order.take(i as int).to_set())),
        decreases n - i,
    {
        proof {
            json::lemma_take_push(order, i as int);
        }
        let key: &String = texts.key_at(i);
        let found: Vec<Json> = notices(resp, memberships, key.as_str());
        let ghost k = key@;
        if found.len() > 0 && !join.contains_key(key.as_str()) {
            assert(whole.contains_key(k));
            assert(!resp.rooms@.contains_key(k));
            join.insert(key.clone(), joined_room_shape(none(), none(), found));
        } else {
            proof {
                if whole.contains_key(k) && !join@.contains_key(k) {
                    assert(!resp.rooms@.dom().contains(k));
                    assert(notices_of(*resp, memberships@, k).len() > 0);
                }
            }
        }
        assert(join@ =~= whole.restrict(done@.union(order.take(i + 1).to_set())));
        i = i + 1;
    }
    assert(order.take(n as int) =~= order);
    assert(order.to_set() == texts@.dom());
}

fn counts_object(counts: &StrMap<u64>) -> (r: JsonObject)
    ensures
        r@ == counts_json(counts@),
{
    let mut r: JsonObject = JsonObject::new();
    let ghost whole = counts_json(counts@);
    let n: usize = counts.len();
    let ghost order = counts.keys();
    let mut i: usize = 0;
    assert(r@ =~= whole.restrict(order.take(0).to_set()));
    while i < n
        invariant
            i <= n,
            n == counts.keys().len(),
            order == counts.keys(),
            whole == counts_json(counts@),
            r@ == whole.restrict(order.take(i as int).to_set()),
        decreases n - i,
    {
        proof {
            json::lemma_take_push(order, i as int);
        }
        r.insert(counts.key_at(i).clone(), Json::unsigned(*counts.value_at(i)));
        assert(r@ =~= whole.restrict(order.take(i + 1).to_set()));
        i = i + 1;
    }
    assert(order.take(n as int) =~= order);
    assert(order.to_set() == counts@.dom());
    assert(r@ =~= whole);
    r
}

fn rooms_object(resp: &SyncResponse, memberships: &StrMap<Membership>) -> (r: Json)
    ensures
        r@ == rooms_view(*resp, memberships@),
{
    let mut join: JsonObject = JsonObject::new();
    let mut invite: JsonObject = JsonObject::new();
    let mut leave: JsonObject = JsonObject::new();
    let mut knock: JsonObject = JsonObject::new();
    let ghost joins = join_rooms(*resp, memberships@);
    let ghost invites = invite_rooms(*resp, memberships@);
    let ghost leaves = leave_rooms(*resp, memberships@);
    let ghost knocks = knock_rooms(*resp, memberships@);
    let n: usize = resp.rooms.len();
    let ghost order = resp.rooms.keys();
    let mut i: usize = 0;
    assert(join@ =~= joins.restrict(order.take(0).to_set()));
    assert(invite@ =~= invites.restrict(order.take(0).to_set()));
    assert(leave@ =~= leaves.restrict(order.take(0).to_set()));
    assert(knock@ =~= knocks.restrict(order.take(0).to_set()));
    while i < n
        invariant
            i <= n,
            n == resp.rooms.keys().len(),
            order == resp.rooms.keys(),
            joins == join_rooms(*resp, memberships@),
            invites == invite_rooms(*resp, memberships@),
            leaves == leave_rooms(*resp, memberships@),
            knocks == knock_rooms(*resp, memberships@),
            join@ == joins.restrict(order.take(i as int).to_set()),
            invite@ == invites.restrict(order.take(i as int).to_set()),
            leave@ == leaves.restrict(order.take(i as int).to_set()),
            knock@ == knocks.restrict(order.take(i as int).to_set()),
        decreases n - i,
    {
        proof {
            json::lemma_take_push(order, i as int);
        }
        let key: &String = resp.rooms.key_at(i);
        let room: &SyncRoom = resp.rooms.value_at(i);
        let ghost k = key@;
        let b: Bucket = bucket(memberships.get(key.as_str()), room);
        assert(b == bucket_of(membership_in(memberships@, k), resp.rooms@[k]));
        assert(!(b is Join) ==> notices_of(*resp, memberships@, k).len() == 0);
        match b {
            Bucket::Invite => {
                invite.insert(key.clone(), invite_room_shape(room));
            },
            Bucket::Join => {
                let found: Vec<Json> = notices(resp, memberships, key.as_str());
                join.insert(
                    key.clone(),
                    joined_room_shape(copies(&room.timeline), copies(&room.required_state), found),
                );
            },
            Bucket::Leave => {
                leave.insert(
                    key.clone(),
                    joined_room_shape(copies(&room.timeline), copies(&room.required_state), none()),
                );
            },
            Bucket::Knock => {
                knock.insert(key.clone(), knock_room_shape(room));
            },
        }
        assert(join@ =~= joins.restrict(order.take(i + 1).to_set()));
        assert(invite@ =~= invites.restrict(order.take(i + 1).to_set()));
        assert(leave@ =~= leaves.restrict(order.take(i + 1).to_set()));
        assert(knock@ =~= knocks.restrict(order.take(i + 1).to_set()));
        i = i + 1;
    }
    assert(order.take(n as int) =~= order);
    assert(order.to_set() == resp.rooms@.dom());
    assert(invite@ =~= invites);
    assert(leave@ =~= leaves);
    assert(knock@ =~= knocks);
    let ghost seen = resp.rooms@.dom();
    add_noticed(resp, memberships, &resp.typing, Ghost(seen), &mut join);
    let ghost typed = seen.union(resp.typing@.dom());
    add_noticed(resp, memberships, &resp.receipts, Ghost(typed), &mut join);
    assert(join@ =~= joins);
    let mut m: JsonObject = JsonObject::new();
    m.insert("join".to_owned(), Json::object(join));
    m.insert("invite".to_owned(), Json::object(invite));
    m.insert("leave".to_owned(), Json::object(leave));
    m.insert("knock".to_owned(), Json::object(knock));
    Json::object(m)
}

fn legacy_object(resp: &SyncResponse, memberships: &StrMap<Membership>, to_device: Vec<Json>) -> (r:
    Json)
    ensures
        r@ == legacy_view(*resp, memberships@, json::array_view(to_device@)),
{
    let mut lists: JsonObject = JsonObject::new();
    lists.insert("changed".to_owned(), send::json_strings(&resp.changed));
    lists.insert("left".to_owned(), send::json_strings(&resp.left));
    let mut m: JsonObject = JsonObject::new();
    m.insert("next_batch".to_owned(), Json::text(resp.pos.clone()));
    m.insert("rooms".to_owned(), rooms_object(resp, memberships));
    m.insert("presence".to_owned(), events_object(none()));
    m.insert("account_data".to_owned(), events_object(none()));
    m.insert("to_device".to_owned(), events_object(to_device));
    m.insert("device_lists".to_owned(), Json::object(lists));
    m.insert(
        "device_one_time_keys_count".to_owned(),
        Json::object(counts_object(&resp.one_time_keys)),
    );
    Json::object(m)
}

/// Turns an answer of the newer form into one of the older form.
pub fn translate_response(resp: SyncResponse, memberships: &StrMap<Membership>) -> (r: Json)
    ensures
        r@ == legacy_view(resp, memberships@, seq![]),
{
    legacy_object(&resp, memberships, none())
}

/// Why a sync of the newer form failed.
pub enum SyncError {
    /// The token is not the one of the last sync.
    UnknownPos,
    BadRequest(&'static str),
    Storage(StorageError),
    /// An event could not be converted: the text says why.
    EventConversion(String),
}

/// What a failed sync is answered.
pub open spec fn sync_error_view(e: SyncError) -> ReplyView {
    match e {
        SyncError::UnknownPos => reply::error_view(
            reply::BAD_REQUEST,
            "M_UNKNOWN_POS"@,
            "Unknown position"@,
        ),
        SyncError::BadRequest(m) => reply::error_view(reply::BAD_REQUEST, "M_INVALID_PARAM"@, m@),
        SyncError::Storage(e) => reply::error_view(
            reply::INTERNAL_SERVER_ERROR,
            "M_UNKNOWN"@,
            e.message@,
        ),
        SyncError::EventConversion(m) => reply::error_view(
            reply::INTERNAL_SERVER_ERROR,
            "M_UNKNOWN"@,
            m@,
        ),
    }
}

/// What a failed sync is answered.
pub fn sync_error(e: SyncError) -> (r: Reply)
    ensures
        r@ == sync_error_view(e),
{
    match e {
        SyncError::UnknownPos => error_response(
            reply::BAD_REQUEST,
            "M_UNKNOWN_POS",
            "Unknown position",
        ),
        SyncError::BadRequest(m) => error_response(reply::BAD_REQUEST, "M_INVALID_PARAM", m),
        SyncError::Storage(e) => error_response(
            reply::INTERNAL_SERVER_ERROR,
            "M_UNKNOWN",
            e.message.as_str(),
        ),
        SyncError::EventConversion(m) => error_response(
            reply::INTERNAL_SERVER_ERROR,
            "M_UNKNOWN",
            m.as_str(),
        ),
    }
}

/// What is done after a sync of the newer form.
pub enum AfterSync {
    /// Ask once more, with this request.
    Again(SyncRequest),
    /// Answer with what came.
    Answer(Result<SyncResponse, SyncError>),
}

/// The token of the older form lives on, while that of the newer one does not: where the newer
/// form does not know a token any more, all is asked for from the beginning.
pub fn after_sync(query: &LegacyQuery, outcome: Result<SyncResponse, SyncError>) -> (r: AfterSync)
    ensures
        match outcome {
            Err(SyncError::UnknownPos) => r matches AfterSync::Again(req) && asks_for_all(req)
                && req.pos is None && req.timeout == if engine::duration_nanos(query.timeout) == 0 {
                None
            } else {
                Some(query.timeout)
            },
            other => r == AfterSync::Answer(other),
        },
{
    match outcome {
        Err(SyncError::UnknownPos) => {
            let mut req: SyncRequest = synthesize_v5_request(query);
            req.pos = None;
            AfterSync::Again(req)
        },
        other => AfterSync::Answer(other),
    }
}

/// What a sync is answered: the rooms, and the messages that waited for the device.
pub fn sync_reply(
    outcome: Result<SyncResponse, SyncError>,
    memberships: &StrMap<Membership>,
    pending: Vec<Json>,
) -> (r: Reply)
    ensures
        match outcome {
            Ok(resp) => r@.status == 200 && r@.body == legacy_view(
                resp,
                memberships@,
                json::array_view(pending@),
            ),
            Err(e) => r@ == sync_error_view(e),
        },
{
    match outcome {
        Ok(resp) => Reply { status: reply::OK, body: legacy_object(&resp, memberships, pending) },
        Err(e) => sync_error(e),
    }
}

/// The memberships in rooms, and the invitations to rooms that we do not host.
pub open spec fn all_memberships(rows: Map<Seq<char>, Membership>, invited: Seq<Seq<char>>) -> Map<
    Seq<char>,
    Membership,
> {
    Map::new(
        |k: Seq<char>| rows.contains_key(k) || invited.contains(k),
        |k: Seq<char>|
            if rows.contains_key(k) {
                rows[k]
            } else {
                Membership::Invite
            },
    )
}

/// Adds the invitations to rooms that we do not host to the memberships in rooms, which win.
pub fn merge_memberships(rows: StrMap<Membership>, invited: &Vec<String>) -> (m: StrMap<Membership>)
    ensures
        m@ == all_memberships(rows@, event::views(invited@)),
{
    let ghost before = rows@;
    let ghost all = event::views(invited@);
    let mut m: StrMap<Membership> = rows;
    let mut i: usize = 0;
    assert(m@ =~= all_memberships(before, all.take(0)));
    while i < invited.len()
        invariant
            i <= invited@.len(),
            all == event::views(invited@),
            m@ == all_memberships(before, all.take(i as int)),
        decreases invited.len() - i,
    {
        let ghost held = m@;
        proof {
            json::lemma_take_push(all, i as int);
            assert forall|k: Seq<char>| all.take(i + 1).contains(k) <==> all.take(i as int).contains(
                k,
            ) || k == all[i as int] by {
                assert(all.take(i + 1).to_set().contains(k) == all.take(i + 1).contains(k));
                assert(all.take(i as int).to_set().contains(k) == all.take(i as int).contains(k));
            }
        }
        if !m.contains_key(invited[i].as_str()) {
            m.insert(invited[i].clone(), Membership::Invite);
        }
        assert(m@ =~= all_memberships(before, all.take(i + 1)));
        i = i + 1;
    }
    assert(all.take(i as int) =~= all);
    m
}

/// Every room of an answer stands in exactly one place, and a room that stands nowhere is not of
/// the answer.
pub proof fn law_rooms_stand_in_one_place(
    resp: SyncResponse,
    memberships: Map<Seq<char>, Membership>,
    room: Seq<char>,
)
    ensures
        resp.rooms@.contains_key(room) ==> {
            let b = bucket_of(membership_in(memberships, room), resp.rooms@[room]);
            &&& join_rooms(resp, memberships).contains_key(room) == (b is Join)
            &&& invite_rooms(resp, memberships).contains_key(room) == (b is Invite)
            &&& leave_rooms(resp, memberships).contains_key(room) == (b is Leave)
            &&& knock_rooms(resp, memberships).contains_key(room) == (b is Knock)
        },
        !resp.rooms@.contains_key(room) ==> {
            &&& !invite_rooms(resp, memberships).contains_key(room)
            &&& !leave_rooms(resp, memberships).contains_key(room)
            &&& !knock_rooms(resp, memberships).contains_key(room)
            &&& join_rooms(resp, memberships).contains_key(room) ==> membership_in(
                memberships,
                room,
            ) == Some(Membership::Join)
        },
{
}

/// The state of a joined room stands twice in an answer, the same both times, and so does that
/// of a left room.
pub proof fn law_state_stands_twice(
    resp: SyncResponse,
    memberships: Map<Seq<char>, Membership>,
    room: Seq<char>,
)
    ensures
        join_rooms(resp, memberships).contains_key(room) ==> ({
            let shape = join_rooms(resp, memberships)[room];
            shape.field("state"@) is Some && shape.field("state"@) == shape.field(
                "org.matrix.msc4222.state_after"@,
            )
        }),
        leave_rooms(resp, memberships).contains_key(room) ==> ({
            let shape = leave_rooms(resp, memberships)[room];
            shape.field("state"@) is Some && shape.field("state"@) == shape.field(
                "org.matrix.msc4222.state_after"@,
            )
        }),
{
    reveal_strlit("timeline");
    reveal_strlit("state");
    reveal_strlit("org.matrix.msc4222.state_after");
    reveal_strlit("ephemeral");
    reveal_strlit("account_data");
    let name = "state"@;
    assert(name.len() != "ephemeral"@.len());
    assert(name.len() != "account_data"@.len());
    assert(name.len() != "org.matrix.msc4222.state_after"@.len());
    assert("org.matrix.msc4222.state_after"@.len() != "ephemeral"@.len());
    assert("org.matrix.msc4222.state_after"@.len() != "account_data"@.len());
}

/// The events of a room that the user knocked at are stripped: no field but the four is in them.
pub proof fn law_knocked_state_is_stripped(room: SyncRoom, i: int, key: Seq<char>)
    requires
        0 <= i < room.required_state@.len(),
    ensures
        stripped_all(room.required_state@)[i].field(key) == if event_view::stripped_field(key) {
            room.required_state@[i]@.field(key)
        } else {
            None
        },
{
    event_view::law_stripping_keeps_four_fields(room.required_state@[i]@, key);
}

/// The token of an answer, sent back as the token of the next sync, is the position that the
/// newer form is asked from.
pub proof fn law_tokens_come_back(
    resp: SyncResponse,
    memberships: Map<Seq<char>, Membership>,
    query: Map<Seq<char>, String>,
    token: Seq<char>,
)
    requires
        legacy_view(resp, memberships, seq![]).field("next_batch"@) == Some(JsonView::Text(token)),
        parameter(query, "since"@) == Some(token),
        resp.pos@.len() > 0,
    ensures
        since_of(query) == Some(resp.pos@),
{
    reveal_strlit("next_batch");
    reveal_strlit("rooms");
    reveal_strlit("presence");
    reveal_strlit("account_data");
    reveal_strlit("to_device");
    reveal_strlit("device_lists");
    reveal_strlit("device_one_time_keys_count");
    let name = "next_batch"@;
    assert(name.len() != "rooms"@.len());
    assert(name.len() != "presence"@.len());
    assert(name.len() != "account_data"@.len());
    assert(name.len() != "to_device"@.len());
    assert(name.len() != "device_lists"@.len());
    assert(name.len() != "device_one_time_keys_count"@.len());
}

} // verus!
