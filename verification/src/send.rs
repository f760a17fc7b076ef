//! An inbound federation transaction: what is checked before it is taken, what becomes of each
//! of its events, when it counts as done, and what is answered.
//!
//! Events are only staged here, durably, and judged later. The transaction is recorded as done
//! only when every event that could be named is staged: else the sender sends it again, and
//! nothing is lost.
use crate::engine;
use crate::engine::{ForwardExtremities, RoomVersionKeys, StorageError, VersionError};
use crate::event;
use crate::event::{Event, EventView, RoomVersion};
use crate::ids;
use crate::json;
use crate::json::{Json, JsonObject, JsonView};
use crate::lists;
use crate::names;
use crate::reply::FedError;
use crate::strmap;
use crate::strmap::{StrMap, StrSet};
use crate::text;
use vstd::prelude::*;

verus! {

/// The body of a transaction, each event and message as JSON text.
pub struct Transaction {
    pub origin: Option<String>,
    pub pdus: Vec<String>,
    pub edus: Vec<String>,
    pub forward_extremities: StrMap<ForwardExtremities>,
}

/// The heads of a room as mathematics.
#[verifier::ext_equal]
pub struct HeadsView {
    pub timeline: Seq<Seq<char>>,
    pub state: Seq<Seq<char>>,
}

impl View for ForwardExtremities {
    type V = HeadsView;

    open spec fn view(&self) -> HeadsView {
        HeadsView { timeline: event::views(self.timeline@), state: event::views(self.state@) }
    }
}

/// Refuses a transaction of too many events.
pub fn check_size(txn: &Transaction) -> (r: Result<(), FedError>)
    ensures
        r == if txn.pdus@.len() > engine::MAX_PDUS_PER_TXN {
            Err::<(), FedError>(FedError::BadRequest("transaction exceeds 50 PDUs"))
        } else {
            Ok::<(), FedError>(())
        },
{
    if txn.pdus.len() > engine::MAX_PDUS_PER_TXN {
        Err(FedError::BadRequest("transaction exceeds 50 PDUs"))
    } else {
        Ok(())
    }
}

/// Refuses a transaction that claims another origin than the network attests. One that claims
/// none is taken.
pub fn check_origin(txn: &Transaction, origin: &str) -> (r: Result<(), FedError>)
    ensures
        r == if (txn.origin matches Some(claimed) && claimed@ != origin@) {
            Err::<(), FedError>(
                FedError::Unauthorized("X-Matrix origin does not match the transaction origin"),
            )
        } else {
            Ok::<(), FedError>(())
        },
{
    match &txn.origin {
        Some(claimed) => if text::str_eq(claimed.as_str(), origin) {
            Ok(())
        } else {
            Err(FedError::Unauthorized("X-Matrix origin does not match the transaction origin"))
        },
        None => Ok(()),
    }
}

/// What has become of a transaction so far, as mathematics: for each event that was staged or
/// failed to be, the error if there was one; the events that were seen; the rooms with staged
/// events; the events that the sender is known to hold; whether every event that could be named
/// is staged; and for each room whose version was asked for, the version, or that its events
/// can never be named.
#[verifier::ext_equal]
pub struct ProgressView {
    pub results: Map<Seq<char>, Option<Seq<char>>>,
    pub seen: Set<Seq<char>>,
    pub touched: Set<Seq<char>>,
    pub held: Set<Seq<char>>,
    pub all_staged: bool,
    pub versions: Map<Seq<char>, Option<Seq<char>>>,
}

/// What has become of a transaction so far.
pub struct Progress {
    pub results: StrMap<Option<String>>,
    pub seen: StrSet,
    pub touched: StrSet,
    pub held: StrSet,
    pub all_staged: bool,
    pub versions: StrMap<Option<String>>,
}

/// Strings that may be absent, found by a string.
pub open spec fn options_view(m: Map<Seq<char>, Option<String>>) -> Map<Seq<char>, Option<Seq<char>>> {
    Map::new(|k: Seq<char>| m.contains_key(k), |k: Seq<char>| event::option_view(m[k]))
}

impl View for Progress {
    type V = ProgressView;

    open spec fn view(&self) -> ProgressView {
        ProgressView {
            results: options_view(self.results@),
            seen: self.seen@,
            touched: self.touched@,
            held: self.held@,
            all_staged: self.all_staged,
            versions: options_view(self.versions@),
        }
    }
}

/// The start of a transaction.
pub open spec fn started() -> ProgressView {
    ProgressView {
        results: Map::empty(),
        seen: Set::empty(),
        touched: Set::empty(),
        held: Set::empty(),
        all_staged: true,
        versions: Map::empty(),
    }
}

/// What is known of the version that names an event.
pub enum VersionStep {
    /// The version with this identifier names it.
    Known(String),
    /// No version that is spoken here names it: the event is dropped.
    Never,
    /// The version has to be asked for.
    Ask,
}

/// What a decision on a version means: the version, that the event is dropped, or that the
/// store failed and nothing is decided.
pub open spec fn decided(resolved: Result<&RoomVersion, VersionError>) -> Option<Option<Seq<char>>> {
    match resolved {
        Ok(v) => Some(Some(v.id@)),
        Err(e) => if e is Fault {
            None
        } else {
            Some(None)
        },
    }
}

/// The progress once the version for an event was asked for. A decision is kept for the room;
/// a failure of the store is not, and leaves the transaction undone.
pub open spec fn with_version(
    p: ProgressView,
    room: Option<Seq<char>>,
    resolved: Option<Option<Seq<char>>>,
) -> ProgressView {
    match resolved {
        None => ProgressView { all_staged: false, ..p },
        Some(decision) => match room {
            Some(r) => ProgressView { versions: p.versions.insert(r, decision), ..p },
            None => p,
        },
    }
}

/// The events that a sender is known to hold by an event that it sent: the event and its state
/// parents, and its timeline parents when a user of the sender sent it.
pub open spec fn proves_held(ev: EventView, origin: Seq<char>) -> Set<Seq<char>> {
    let base = ev.prev_state_events.to_set().insert(ev.event_id);
    if ids::on_server(ev.sender, origin) {
        base.union(ev.prev_events.to_set())
    } else {
        base
    }
}

/// The progress once an event was named.
pub open spec fn with_named(p: ProgressView, ev: EventView, origin: Seq<char>) -> ProgressView {
    ProgressView {
        held: p.held.union(proves_held(ev, origin)),
        seen: p.seen.insert(ev.event_id),
        ..p
    }
}

/// The progress once the store was asked to stage an event: `error` is why it did not.
pub open spec fn with_staged(
    p: ProgressView,
    event_id: Seq<char>,
    room_id: Seq<char>,
    error: Option<Seq<char>>,
) -> ProgressView {
    match error {
        None => ProgressView {
            touched: p.touched.insert(room_id),
            results: p.results.insert(event_id, None),
            ..p
        },
        Some(e) => ProgressView {
            all_staged: false,
            results: p.results.insert(event_id, Some(e)),
            ..p
        },
    }
}

fn insert_all(set: &mut StrSet, items: &Vec<String>)
    ensures
        final(set)@ == old(set)@.union(event::views(items@).to_set()),
{
    let ghost all = event::views(items@);
    let ghost start = set@;
    let mut i: usize = 0;
    assert(set@ =~= start.union(all.take(0).to_set()));
    while i < items.len()
        invariant
            i <= items@.len(),
            all == event::views(items@),
            set@ == start.union(all.take(i as int).to_set()),
        decreases items.len() - i,
    {
        proof {
            json::lemma_take_push(all, i as int);
        }
        set.insert(items[i].clone());
        assert(set@ =~= start.union(all.take(i + 1).to_set()));
        i = i + 1;
    }
    assert(all.take(i as int) =~= all);
}

impl Progress {
    /// The start of a transaction.
    pub fn new() -> (p: Self)
        ensures
            p@ == started(),
    {
        let p = Progress {
            results: StrMap::new(),
            seen: StrSet::new(),
            touched: StrSet::new(),
            held: StrSet::new(),
            all_staged: true,
            versions: StrMap::new(),
        };
        assert(p@.results =~= started().results);
        assert(p@.versions =~= started().versions);
        p
    }

    /// What is known of the version that names an event. It is asked for once per room; a
    /// creation declares its own and is asked for each time.
    pub fn version_step(&self, keys: &RoomVersionKeys) -> (step: VersionStep)
        ensures
            match keys.room_id {
                Some(room) => if self@.versions.contains_key(room@) {
                    match self@.versions[room@] {
                        Some(v) => step matches VersionStep::Known(id) && id@ == v,
                        None => step is Never,
                    }
                } else {
                    step is Ask
                },
                None => step is Ask,
            },
    {
        match &keys.room_id {
            Some(room) => match self.versions.get(room.as_str()) {
                Some(Some(v)) => VersionStep::Known(v.clone()),
                Some(None) => VersionStep::Never,
                None => VersionStep::Ask,
            },
            None => VersionStep::Ask,
        }
    }

    /// Takes note of the version that names an event; says which one it is. Without one the
    /// event is passed over.
    pub fn note_version(
        &mut self,
        keys: &RoomVersionKeys,
        resolved: Result<&RoomVersion, VersionError>,
    ) -> (version: Option<String>)
        ensures
            final(self)@ == with_version(
                old(self)@,
                event::option_view(keys.room_id),
                decided(resolved),
            ),
            event::option_view(version) == match resolved {
                Ok(v) => Some(v.id@),
                Err(_) => None,
            },
    {
        match resolved {
            Ok(v) => {
                if let Some(room) = &keys.room_id {
                    self.versions.insert(room.clone(), Some(v.id.clone()));
                    assert(self@.versions =~= old(self)@.versions.insert(room@, Some(v.id@)));
                }
                Some(v.id.clone())
            },
            Err(e) => {
                if e.is_retryable() {
                    self.all_staged = false;
                } else if let Some(room) = &keys.room_id {
                    self.versions.insert(room.clone(), None);
                    assert(self@.versions =~= old(self)@.versions.insert(room@, None));
                }
                None
            },
        }
    }

    /// Takes note of an event that was named; says whether it has to be staged, which it has
    /// the first time that it occurs.
    pub fn note_named(&mut self, ev: &Event, origin: &str) -> (stage: bool)
        ensures
            final(self)@ == with_named(old(self)@, ev@, origin@),
            stage == !old(self)@.seen.contains(ev.event_id@),
    {
        self.held.insert(ev.event_id.clone());
        insert_all(&mut self.held, &ev.prev_state_events);
        if ids::is_on_server(ev.sender.as_str(), origin) {
            insert_all(&mut self.held, &ev.prev_events);
        }
        assert(self@.held =~= with_named(old(self)@, ev@, origin@).held);
        self.seen.insert(ev.event_id.clone())
    }

    /// Takes note of whether the store staged an event.
    pub fn note_staged(&mut self, event_id: &str, room_id: &str, outcome: Result<(), StorageError>)
        ensures
            final(self)@ == with_staged(
                old(self)@,
                event_id@,
                room_id@,
                match outcome {
                    Ok(_) => None,
                    Err(e) => Some(e.message@),
                },
            ),
    {
        match outcome {
            Ok(_) => {
                self.touched.insert(room_id.to_owned());
                self.results.insert(event_id.to_owned(), None);
                assert(self@.results =~= old(self)@.results.insert(event_id@, None));
            },
            Err(e) => {
                self.all_staged = false;
                let ghost message = e.message@;
                self.results.insert(event_id.to_owned(), Some(e.message));
                assert(self@.results =~= old(self)@.results.insert(event_id@, Some(message)));
            },
        }
    }

    /// Whether the transaction is recorded as done: only when nothing is left to be sent again.
    pub fn must_record(&self) -> (yes: bool)
        ensures
            yes == self@.all_staged,
    {
        self.all_staged
    }

    /// The rooms whose heads are told to the sender: those with staged events, and those of
    /// which the sender told its own.
    pub fn response_rooms(&self, advertised: &StrMap<ForwardExtremities>) -> (rooms: Vec<String>)
        ensures
            event::views(rooms@) == strmap::sorted_keys(self@.touched.union(advertised@.dom())),
    {
        let mut all: StrSet = StrSet::new();
        let touched: Vec<String> = self.touched.to_vec();
        let n: usize = self.touched.len();
        insert_all(&mut all, &touched);
        assert(event::views(touched@) =~= self.touched.members());
        let m: usize = advertised.len();
        let ghost order = advertised.keys();
        let mut i: usize = 0;
        assert(all@ =~= self@.touched.union(order.take(0).to_set()));
        while i < m
            invariant
                i <= m,
                m == advertised.keys().len(),
                order == advertised.keys(),
                all@ == self@.touched.union(order.take(i as int).to_set()),
            decreases m - i,
        {
            proof {
                json::lemma_take_push(order, i as int);
            }
            all.insert(advertised.key_at(i).clone());
            assert(all@ =~= self@.touched.union(order.take(i + 1).to_set()));
            i = i + 1;
        }
        assert(order.take(m as int) =~= order);
        assert(all@ =~= self@.touched.union(advertised@.dom()));
        let rooms: Vec<String> = all.to_vec();
        assert(event::views(rooms@) =~= strmap::sorted_keys(all@));
        rooms
    }
}

/// Those of a list that are not in a set, in order.
pub open spec fn not_in(items: Seq<Seq<char>>, known: Set<Seq<char>>) -> Seq<Seq<char>>
    decreases items.len(),
{
    if items.len() == 0 {
        seq![]
    } else {
        let front = not_in(items.drop_last(), known);
        if known.contains(items.last()) {
            front
        } else {
            front.push(items.last())
        }
    }
}

fn unknown(items: &Vec<String>, known: &StrSet) -> (r: Vec<String>)
    ensures
        event::views(r@) == not_in(event::views(items@), known@),
{
    let mut r: Vec<String> = Vec::new();
    let ghost all = event::views(items@);
    let mut i: usize = 0;
    assert(event::views(r@) =~= not_in(all.take(0), known@));
    while i < items.len()
        invariant
            i <= items@.len(),
            all == event::views(items@),
            event::views(r@) == not_in(all.take(i as int), known@),
        decreases items.len() - i,
    {
        assert(all.take(i + 1).drop_last() =~= all.take(i as int));
        if !known.contains(items[i].as_str()) {
            let ghost before = r@;
            r.push(items[i].clone());
            assert(event::views(r@) =~= event::views(before).push(items@[i as int]@));
        }
        i = i + 1;
    }
    assert(all.take(i as int) =~= all);
    r
}

/// The heads of a room that are not known to the sender.
pub open spec fn stripped(heads: HeadsView, known: Set<Seq<char>>) -> HeadsView {
    HeadsView { timeline: not_in(heads.timeline, known), state: not_in(heads.state, known) }
}

/// The heads of rooms, as mathematics.
pub open spec fn heads_view(m: Map<Seq<char>, ForwardExtremities>) -> Map<Seq<char>, HeadsView> {
    Map::new(|k: Seq<char>| m.contains_key(k), |k: Seq<char>| m[k]@)
}

/// The heads of rooms that are not known to the sender: rooms without any are left out.
pub open spec fn stripped_rooms(ours: Map<Seq<char>, HeadsView>, known: Set<Seq<char>>) -> Map<
    Seq<char>,
    HeadsView,
> {
    Map::new(
        |r: Seq<char>|
            ours.contains_key(r) && (stripped(ours[r], known).timeline.len() > 0 || stripped(
                ours[r],
                known,
            ).state.len() > 0),
        |r: Seq<char>| stripped(ours[r], known),
    )
}

/// Leaves out of the heads of rooms what the sender is known to hold.
pub fn strip_known(ours: &StrMap<ForwardExtremities>, known: &StrSet) -> (r: StrMap<ForwardExtremities>)
    ensures
        heads_view(r@) == stripped_rooms(heads_view(ours@), known@),
{
    let mut r: StrMap<ForwardExtremities> = StrMap::new();
    let ghost whole = stripped_rooms(heads_view(ours@), known@);
    let n: usize = ours.len();
    let ghost order = ours.keys();
    let mut i: usize = 0;
    assert(heads_view(r@) =~= whole.restrict(order.take(0).to_set()));
    while i < n
        invariant
            i <= n,
            n == ours.keys().len(),
            order == ours.keys(),
            whole == stripped_rooms(heads_view(ours@), known@),
            heads_view(r@) == whole.restrict(order.take(i as int).to_set()),
        decreases n - i,
    {
        proof {
            json::lemma_take_push(order, i as int);
        }
        let heads: &ForwardExtremities = ours.value_at(i);
        let left = ForwardExtremities {
            timeline: unknown(&heads.timeline, known),
            state: unknown(&heads.state, known),
        };
        assert(event::views(left.timeline@).len() == left.timeline@.len());
        assert(event::views(left.state@).len() == left.state@.len());
        let ghost before = r@;
        let ghost room = order[i as int];
        proof {
            assert(left@ =~= stripped(heads@, known@));
            assert(heads_view(ours@)[room] == heads@);
            assert(whole.contains_key(room) <==> left.timeline@.len() > 0 || left.state@.len() > 0);
        }
        if !left.is_empty() {
            r.insert(ours.key_at(i).clone(), left);
            assert(heads_view(r@) =~= heads_view(before).insert(room, left@));
        }
        assert(heads_view(r@) =~= whole.restrict(order.take(i + 1).to_set()));
        i = i + 1;
    }
    assert(order.take(n as int) =~= order);
    assert(order.to_set() == ours@.dom());
    assert(heads_view(r@) =~= whole);
    r
}

/// Strings as a JSON list.
pub open spec fn strings_json(items: Seq<Seq<char>>) -> JsonView {
    JsonView::Array(Seq::new(items.len(), |i: int| JsonView::Text(items[i])))
}

/// Strings as a JSON list.
pub fn json_strings(items: &Vec<String>) -> (v: Json)
    ensures
        v@ == strings_json(event::views(items@)),
{
    let mut list: Vec<Json> = Vec::new();
    let mut i: usize = 0;
    while i < items.len()
        invariant
            i <= items@.len(),
            list@.len() == i,
            forall|j: int| 0 <= j < i ==> (#[trigger] list@[j])@ == JsonView::Text(items@[j]@),
        decreases items.len() - i,
    {
        list.push(Json::text(items[i].clone()));
        i = i + 1;
    }
    assert(json::array_view(list@) =~= strings_json(event::views(items@))->Array_0);
    Json::array(list)
}

/// The result for one event: an empty object, or one with the error.
pub open spec fn result_json(error: Option<Seq<char>>) -> JsonView {
    match error {
        None => JsonView::Object(Map::empty()),
        Some(e) => JsonView::Object(Map::empty().insert("error"@, JsonView::Text(e))),
    }
}

/// The results for all events.
pub open spec fn results_json(results: Map<Seq<char>, Option<Seq<char>>>) -> Map<Seq<char>, JsonView> {
    Map::new(|k: Seq<char>| results.contains_key(k), |k: Seq<char>| result_json(results[k]))
}

/// The heads of a room.
pub open spec fn heads_json(heads: HeadsView) -> JsonView {
    JsonView::Object(
        Map::empty().insert("timeline"@, strings_json(heads.timeline)).insert(
            "state"@,
            strings_json(heads.state),
        ),
    )
}

/// The heads of rooms.
pub open spec fn rooms_json(rooms: Map<Seq<char>, HeadsView>) -> Map<Seq<char>, JsonView> {
    Map::new(|k: Seq<char>| rooms.contains_key(k), |k: Seq<char>| heads_json(rooms[k]))
}

/// The answer to a transaction: the result for each event, and our heads where there are any to
/// tell.
pub open spec fn answer(
    results: Map<Seq<char>, Option<Seq<char>>>,
    heads: Map<Seq<char>, HeadsView>,
) -> JsonView {
    let base = Map::empty().insert("pdus"@, JsonView::Object(results_json(results)));
    if heads.is_empty() {
        JsonView::Object(base)
    } else {
        JsonView::Object(
            base.insert("forward_extremities"@, JsonView::Object(rooms_json(heads))),
        )
    }
}

fn results_object(results: &StrMap<Option<String>>) -> (r: JsonObject)
    ensures
        r@ == results_json(options_view(results@)),
{
    let mut r: JsonObject = JsonObject::new();
    let ghost whole = results_json(options_view(results@));
    let n: usize = results.len();
    let ghost order = results.keys();
    let mut i: usize = 0;
    assert(r@ =~= whole.restrict(order.take(0).to_set()));
    while i < n
        invariant
            i <= n,
            n == results.keys().len(),
            order == results.keys(),
            whole == results_json(options_view(results@)),
            r@ == whole.restrict(order.take(i as int).to_set()),
        decreases n - i,
    {
        proof {
            json::lemma_take_push(order, i as int);
        }
        let mut one: JsonObject = JsonObject::new();
        if let Some(e) = results.value_at(i) {
            one.insert("error".to_owned(), Json::text(e.clone()));
        }
        assert(JsonView::Object(one@) == whole[order[i as int]]);
        r.insert(results.key_at(i).clone(), Json::object(one));
        assert(r@ =~= whole.restrict(order.take(i + 1).to_set()));
        i = i + 1;
    }
    assert(order.take(n as int) =~= order);
    assert(order.to_set() == results@.dom());
    assert(r@ =~= whole);
    r
}

pub fn heads_object(heads: &StrMap<ForwardExtremities>) -> (r: JsonObject)
    ensures
        r@ == rooms_json(heads_view(heads@)),
{
    let mut r: JsonObject = JsonObject::new();
    let ghost whole = rooms_json(heads_view(heads@));
    let n: usize = heads.len();
    let ghost order = heads.keys();
    let mut i: usize = 0;
    assert(r@ =~= whole.restrict(order.take(0).to_set()));
    while i < n
        invariant
            i <= n,
            n == heads.keys().len(),
            order == heads.keys(),
            whole == rooms_json(heads_view(heads@)),
            r@ == whole.restrict(order.take(i as int).to_set()),
        decreases n - i,
    {
        proof {
            json::lemma_take_push(order, i as int);
        }
        let one: &ForwardExtremities = heads.value_at(i);
        let mut o: JsonObject = JsonObject::new();
        o.insert("timeline".to_owned(), json_strings(&one.timeline));
        o.insert("state".to_owned(), json_strings(&one.state));
        r.insert(heads.key_at(i).clone(), Json::object(o));
        assert(r@ =~= whole.restrict(order.take(i + 1).to_set()));
        i = i + 1;
    }
    assert(order.take(n as int) =~= order);
    assert(order.to_set() == heads@.dom());
    assert(r@ =~= whole);
    r
}

/// The answer to a transaction that was handled: `ours` are our heads of the rooms to tell of,
/// from which those are left out that the sender is known to hold.
pub fn response(progress: &Progress, ours: &StrMap<ForwardExtremities>) -> (r: Json)
    ensures
        r@ == answer(progress@.results, stripped_rooms(heads_view(ours@), progress@.held)),
{
    let heads: StrMap<ForwardExtremities> = strip_known(ours, &progress.held);
    let mut body: JsonObject = JsonObject::new();
    body.insert("pdus".to_owned(), Json::object(results_object(&progress.results)));
    let n: usize = heads.len();
    if n > 0 {
        proof {
            let k = heads.keys()[0];
            assert(heads.keys().to_set().contains(k));
            assert(heads_view(heads@).contains_key(k));
        }
        body.insert("forward_extremities".to_owned(), Json::object(heads_object(&heads)));
    } else {
        assert forall|k: Seq<char>| !heads_view(heads@).contains_key(k) by {
            if heads@.contains_key(k) {
                assert(heads.keys().to_set().contains(k));
            }
        }
        assert(heads_view(heads@) =~= Map::empty());
    }
    Json::object(body)
}

/// The answer to a transaction that was handled before: nothing is staged again.
pub fn duplicate_response() -> (r: Json)
    ensures
        r@ == answer(Map::empty(), Map::empty()),
{
    let mut body: JsonObject = JsonObject::new();
    let none: JsonObject = JsonObject::new();
    assert(none@ =~= results_json(Map::empty()));
    body.insert("pdus".to_owned(), Json::object(none));
    Json::object(body)
}

/// What comes of one event of a transaction.
pub enum PduOutcome {
    /// The store failed when the version for the event was asked for.
    VersionFault { room: Option<Seq<char>> },
    /// There is no version for the event, or it is not an event: it can never be named.
    Dropped { room: Option<Seq<char>>, decision: Option<Option<Seq<char>>> },
    /// The event was named; `error` is why the store did not stage it, when it was asked to.
    Named {
        room: Option<Seq<char>>,
        decision: Option<Option<Seq<char>>>,
        ev: EventView,
        error: Option<Seq<char>>,
    },
}

/// The progress with a decision on a version, where one was made.
pub open spec fn with_decision(
    p: ProgressView,
    room: Option<Seq<char>>,
    decision: Option<Option<Seq<char>>>,
) -> ProgressView {
    match decision {
        Some(d) => with_version(p, room, Some(d)),
        None => p,
    }
}

/// The progress after one event.
pub open spec fn after_pdu(p: ProgressView, origin: Seq<char>, outcome: PduOutcome) -> ProgressView {
    match outcome {
        PduOutcome::VersionFault { room } => with_version(p, room, None),
        PduOutcome::Dropped { room, decision } => with_decision(p, room, decision),
        PduOutcome::Named { room, decision, ev, error } => {
            let q = with_decision(p, room, decision);
            let named = with_named(q, ev, origin);
            if q.seen.contains(ev.event_id) {
                named
            } else {
                with_staged(named, ev.event_id, ev.room_id, error)
            }
        },
    }
}

/// The progress after events in their order.
pub open spec fn after_pdus(origin: Seq<char>, outcomes: Seq<PduOutcome>) -> ProgressView
    decreases outcomes.len(),
{
    if outcomes.len() == 0 {
        started()
    } else {
        after_pdu(after_pdus(origin, outcomes.drop_last()), origin, outcomes.last())
    }
}

/// Whether an event was named before the given place.
pub open spec fn named_before(outcomes: Seq<PduOutcome>, i: int, event_id: Seq<char>) -> bool {
    exists|j: int|
        0 <= j < i && ((#[trigger] outcomes[j]) matches PduOutcome::Named { ev, .. } && ev.event_id
            == event_id)
}

/// Whether the event in the given place is left for the sender to send again: the store failed
/// for it.
pub open spec fn is_lost(outcomes: Seq<PduOutcome>, i: int) -> bool {
    match outcomes[i] {
        PduOutcome::VersionFault { .. } => true,
        PduOutcome::Dropped { .. } => false,
        PduOutcome::Named { ev, error, .. } => error is Some && !named_before(
            outcomes,
            i,
            ev.event_id,
        ),
    }
}

/// Nothing is lost: a transaction counts as done exactly when the store failed for none of its
/// events. An event that can never be named does not stand in the way.
pub proof fn law_nothing_is_lost(origin: Seq<char>, outcomes: Seq<PduOutcome>)
    ensures
        after_pdus(origin, outcomes).all_staged <==> forall|i: int|
            0 <= i < outcomes.len() ==> !#[trigger] is_lost(outcomes, i),
        forall|id: Seq<char>| #[trigger]
            after_pdus(origin, outcomes).seen.contains(id) <==> named_before(
                outcomes,
                outcomes.len() as int,
                id,
            ),
    decreases outcomes.len(),
{
    let p = after_pdus(origin, outcomes);
    if outcomes.len() > 0 {
        let front = outcomes.drop_last();
        let n = outcomes.len() - 1;
        law_nothing_is_lost(origin, front);
        let q = after_pdus(origin, front);
        assert forall|i: int, id: Seq<char>| 0 <= i <= n implies named_before(front, i, id)
            == named_before(outcomes, i, id) by {
            if named_before(front, i, id) {
                let j = choose|j: int|
                    0 <= j < i && ((#[trigger] front[j]) matches PduOutcome::Named { ev, .. }
                        && ev.event_id == id);
                assert(outcomes[j] == front[j]);
            }
            if named_before(outcomes, i, id) {
                let j = choose|j: int|
                    0 <= j < i && ((#[trigger] outcomes[j]) matches PduOutcome::Named { ev, .. }
                        && ev.event_id == id);
                assert(outcomes[j] == front[j]);
            }
        }
        assert forall|i: int| 0 <= i < n implies #[trigger] is_lost(outcomes, i) == is_lost(front, i) by {
            assert(outcomes[i] == front[i]);
        }
        assert(outcomes[n] == outcomes.last());
        assert forall|id: Seq<char>| #[trigger] p.seen.contains(id) <==> named_before(
            outcomes,
            outcomes.len() as int,
            id,
        ) by {
            if named_before(outcomes, outcomes.len() as int, id) && !named_before(outcomes, n, id) {
                let j = choose|j: int|
                    0 <= j < outcomes.len() && ((#[trigger] outcomes[j]) matches PduOutcome::Named {
                        ev,
                        ..
                    } && ev.event_id == id);
                assert(j == n);
            }
            if named_before(outcomes, n, id) {
                let j = choose|j: int|
                    0 <= j < n && ((#[trigger] outcomes[j]) matches PduOutcome::Named { ev, .. }
                        && ev.event_id == id);
                assert(named_before(outcomes, outcomes.len() as int, id));
            }
            if let PduOutcome::Named { ev, .. } = outcomes.last() {
                if ev.event_id == id {
                    assert(named_before(outcomes, outcomes.len() as int, id));
                }
            }
        }
        if p.all_staged {
            assert forall|i: int| 0 <= i < outcomes.len() implies !#[trigger] is_lost(outcomes, i) by {
                if i < n {
                    assert(!is_lost(front, i));
                }
            }
        } else if forall|i: int| 0 <= i < outcomes.len() ==> !#[trigger] is_lost(outcomes, i) {
            assert forall|i: int| 0 <= i < front.len() implies !#[trigger] is_lost(front, i) by {
                assert(!is_lost(outcomes, i));
            }
            assert(!is_lost(outcomes, n));
        }
    }
}

/// An event is answered for exactly when it was named, and is staged at most once however often
/// it occurs.
pub proof fn law_every_named_event_is_answered_for(
    origin: Seq<char>,
    outcomes: Seq<PduOutcome>,
    id: Seq<char>,
)
    ensures
        after_pdus(origin, outcomes).results.contains_key(id) <==> after_pdus(
            origin,
            outcomes,
        ).seen.contains(id),
    decreases outcomes.len(),
{
    if outcomes.len() > 0 {
        law_every_named_event_is_answered_for(origin, outcomes.drop_last(), id);
    }
}

/// An advertised head was not among those that the sender is known to hold, and a head that the
/// sender is not known to hold is advertised.
pub proof fn law_unknown_heads_are_told(items: Seq<Seq<char>>, known: Set<Seq<char>>, head: Seq<char>)
    ensures
        not_in(items, known).contains(head) <==> items.contains(head) && !known.contains(head),
    decreases items.len(),
{
    let all = not_in(items, known);
    if items.len() > 0 {
        let front = not_in(items.drop_last(), known);
        law_unknown_heads_are_told(items.drop_last(), known, head);
        if items.contains(head) {
            let i = items.index_of(head);
            if i < items.len() - 1 {
                assert(items.drop_last()[i] == head);
            }
        }
        if items.drop_last().contains(head) {
            assert(items[items.drop_last().index_of(head)] == head);
        }
        if front.contains(head) {
            assert(all[front.index_of(head)] == head);
        }
        if !known.contains(items.last()) {
            assert(all[front.len() as int] == items.last());
            if all.contains(head) {
                let i = all.index_of(head);
                if i < front.len() {
                    assert(front[i] == head);
                } else {
                    assert(items[items.len() - 1] == head);
                }
            }
        }
    }
}

/// A list of strings holds each in its place.
pub proof fn law_strings_are_listed_in_order(items: Seq<Seq<char>>, i: int)
    ensures
        strings_json(items) matches JsonView::Array(list) && list.len() == items.len() && (0 <= i
            < items.len() ==> list[i] == JsonView::Text(items[i])),
{
}

/// The answer to a transaction holds, for each event that was staged, an empty object, for each
/// that the store failed on its error, and nothing for any other. It tells the heads of each room
/// that there are any of, and has no field for them where there are none.
pub proof fn law_answers_tell_results_and_heads(
    results: Map<Seq<char>, Option<Seq<char>>>,
    heads: Map<Seq<char>, HeadsView>,
    id: Seq<char>,
    room: Seq<char>,
    key: Seq<char>,
    i: int,
)
    ensures
        ({
            let body = answer(results, heads);
            let result = body.field("pdus"@)->0.field(id);
            let told = body.field("forward_extremities"@);
            &&& result is Some <==> results.contains_key(id)
            &&& results.contains_key(id) ==> result->0 is Object && result->0.field("error"@)
                == match results[id] {
                Some(e) => Some(JsonView::Text(e)),
                None => None,
            }
            &&& results.contains_key(id) && key != "error"@ ==> result->0.field(key) is None
            &&& told is Some <==> exists|r: Seq<char>| #[trigger] heads.contains_key(r)
            &&& told is Some ==> (told->0.field(room) is Some <==> heads.contains_key(room))
            &&& heads.contains_key(room) ==> {
                &&& told->0.field(room)->0.field("timeline"@) matches Some(JsonView::Array(timeline))
                &&& told->0.field(room)->0.field("state"@) matches Some(JsonView::Array(state))
                &&& timeline.len() == heads[room].timeline.len()
                &&& state.len() == heads[room].state.len()
                &&& 0 <= i < timeline.len() ==> timeline[i] == JsonView::Text(heads[room].timeline[i])
                &&& 0 <= i < state.len() ==> state[i] == JsonView::Text(heads[room].state[i])
            }
        }),
{
    names::lemma_answer_names();
    names::lemma_head_names();
    if heads.is_empty() {
        assert forall|r: Seq<char>| !#[trigger] heads.contains_key(r) by {}
    } else {
        if forall|r: Seq<char>| !#[trigger] heads.contains_key(r) {
            assert(heads =~= Map::empty());
        }
    }
}

/// The heads of a room that are told are those that the sender is not known to hold, in order, and
/// a room is told of when there is one.
pub proof fn law_heads_are_told_by_room(
    ours: Map<Seq<char>, HeadsView>,
    known: Set<Seq<char>>,
    room: Seq<char>,
    head: Seq<char>,
)
    ensures
        ({
            let told = stripped_rooms(ours, known);
            let fresh = |h: Seq<char>| !known.contains(h);
            &&& told.contains_key(room) ==> ours.contains_key(room)
            &&& told.contains_key(room) ==> told[room].timeline == lists::kept(
                ours[room].timeline,
                fresh,
            ) && told[room].state == lists::kept(ours[room].state, fresh)
            &&& ours.contains_key(room) && ours[room].timeline.contains(head) && !known.contains(head)
                ==> told.contains_key(room) && told[room].timeline.contains(head)
            &&& ours.contains_key(room) && ours[room].state.contains(head) && !known.contains(head)
                ==> told.contains_key(room) && told[room].state.contains(head)
            &&& told.contains_key(room) ==> told[room].timeline.len() + told[room].state.len() > 0
        }),
{
    if ours.contains_key(room) {
        law_unknown_heads_are_told(ours[room].timeline, known, head);
        law_unknown_heads_are_told(ours[room].state, known, head);
        lemma_not_in_is_kept(ours[room].timeline, known);
        lemma_not_in_is_kept(ours[room].state, known);
    }
}

proof fn lemma_not_in_is_kept(items: Seq<Seq<char>>, known: Set<Seq<char>>)
    ensures
        not_in(items, known) == lists::kept(items, |h: Seq<char>| !known.contains(h)),
    decreases items.len(),
{
    if items.len() > 0 {
        lemma_not_in_is_kept(items.drop_last(), known);
    }
}

/// What a sender is known to hold by an event: the event, its state parents, and its timeline
/// parents when the sender's own user sent it.
pub proof fn law_what_a_sender_holds(ev: EventView, origin: Seq<char>, id: Seq<char>)
    ensures
        proves_held(ev, origin).contains(id) <==> {
            ||| id == ev.event_id
            ||| ev.prev_state_events.contains(id)
            ||| (ids::user_id_valid(ev.sender) && ids::server_part(ev.sender) == origin
                && ev.prev_events.contains(id))
        },
{
}

/// What comes of an event that was named: the first time it is answered for, with the error where
/// the store failed, and its room is touched where it did not; when it comes again nothing more is
/// answered. What the sender holds by it is noted each time.
pub proof fn law_what_comes_of_an_event(
    p: ProgressView,
    origin: Seq<char>,
    ev: EventView,
    error: Option<Seq<char>>,
    id: Seq<char>,
    room: Seq<char>,
)
    ensures
        ({
            let after = after_pdu(
                p,
                origin,
                (PduOutcome::Named { room: None, decision: None, ev, error }),
            );
            let again = p.seen.contains(ev.event_id);
            &&& after.seen.contains(id) <==> p.seen.contains(id) || id == ev.event_id
            &&& after.held.contains(id) <==> p.held.contains(id) || proves_held(ev, origin).contains(id)
            &&& after.versions == p.versions
            &&& again ==> after.results == p.results && after.touched == p.touched && after.all_staged
                == p.all_staged
            &&& !again ==> {
                &&& after.results.contains_key(ev.event_id) && after.results[ev.event_id] == error
                &&& id != ev.event_id ==> (after.results.contains_key(id) <==> p.results.contains_key(
                    id,
                ))
                &&& id != ev.event_id && p.results.contains_key(id) ==> after.results[id] == p.results[id]
                &&& after.touched.contains(room) <==> p.touched.contains(room) || (room == ev.room_id
                    && error is None)
                &&& after.all_staged <==> p.all_staged && error is None
            }
        }),
{
}

/// A decision on the version of a room is kept for that room, and a failure of the store leaves
/// the transaction undone and nothing decided.
pub proof fn law_what_comes_of_a_version(
    p: ProgressView,
    origin: Seq<char>,
    room: Seq<char>,
    decision: Option<Seq<char>>,
    other: Seq<char>,
)
    ensures
        ({
            let dropped = after_pdu(
                p,
                origin,
                (PduOutcome::Dropped { room: Some(room), decision: Some(decision) }),
            );
            let failed = after_pdu(p, origin, (PduOutcome::VersionFault { room: Some(room) }));
            &&& dropped.versions.contains_key(room) && dropped.versions[room] == decision
            &&& other != room ==> (dropped.versions.contains_key(other) <==> p.versions.contains_key(
                other,
            ))
            &&& dropped.all_staged == p.all_staged && dropped.results == p.results
            &&& !failed.all_staged && failed.versions == p.versions && failed.results == p.results
            &&& after_pdu(p, origin, (PduOutcome::Dropped { room: Some(room), decision: None })) == p
        }),
{
}

/// A version that was found is decided on, one that is not spoken or a room that is not known
/// decides that there is none, and a failure of the store decides nothing.
pub proof fn law_what_a_version_decides(v: &RoomVersion, id: String, e: StorageError)
    ensures
        decided(Ok(v)) == Some(Some(v.id@)),
        decided(Err(VersionError::UnknownRoom)) == Some(None::<Seq<char>>),
        decided(Err(VersionError::Unsupported(id))) == Some(None::<Seq<char>>),
        decided(Err(VersionError::Fault(e))) is None,
{
}

} // verus!
