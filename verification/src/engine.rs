//! The running of the server: retries, transaction identifiers, the version of a room, and the
//! events that may be staged.
use crate::codec;
use crate::event;
use crate::event::{Event, RoomVersion, RoomVersions};
use crate::ids;
use crate::json;
use crate::json::{JsonObject, JsonView};
use crate::text;
use rand::Rng;
use std::time::Duration;
use vstd::prelude::*;

verus! {

/// The most events that one federation transaction carries.
pub const MAX_PDUS_PER_TXN: usize = 50;

/// The most ephemeral messages that one federation transaction carries.
pub const MAX_EDUS_PER_TXN: usize = 100;

/// The first wait after a failure, in seconds.
pub const BACKOFF_BASE_SECS: u64 = 1;

/// The longest wait after a failure, in seconds.
pub const BACKOFF_CAP_SECS: u64 = 900;

/// The nanoseconds of a second.
pub const NANOS_PER_SEC: u64 = 1_000_000_000;

/// The nanoseconds of a millisecond.
pub const NANOS_PER_MILLI: u64 = 1_000_000;

/// How many nanoseconds a span of time has.
pub uninterp spec fn duration_nanos(d: std::time::Duration) -> nat;

/// The longest span of time, in nanoseconds.
pub open spec fn max_nanos() -> nat {
    (u64::MAX * NANOS_PER_SEC + 999_999_999) as nat
}

/// `Duration::from_secs`: so many whole seconds.
pub assume_specification[ std::time::Duration::from_secs ](secs: u64) -> (d: std::time::Duration)
    ensures
        duration_nanos(d) == secs * NANOS_PER_SEC,
;

/// `Duration::from_millis`: so many whole milliseconds.
pub assume_specification[ std::time::Duration::from_millis ](millis: u64) -> (d: std::time::Duration)
    ensures
        duration_nanos(d) == millis * NANOS_PER_MILLI,
;

/// `Duration::as_nanos`: the span in nanoseconds.
pub assume_specification[ std::time::Duration::as_nanos ](d: &std::time::Duration) -> (n: u128)
    ensures
        n == duration_nanos(*d),
;

/// `Duration::as_millis`: the span in whole milliseconds.
pub assume_specification[ std::time::Duration::as_millis ](d: &std::time::Duration) -> (n: u128)
    ensures
        n == duration_nanos(*d) / (NANOS_PER_MILLI as nat),
;

/// `Duration::saturating_mul`: the multiple, or the longest span where that is longer.
pub assume_specification[ std::time::Duration::saturating_mul ](
    d: std::time::Duration,
    factor: u32,
) -> (r: std::time::Duration)
    ensures
        duration_nanos(r) == if duration_nanos(d) * factor <= max_nanos() {
            duration_nanos(d) * factor
        } else {
            max_nanos() as int
        },
;

/// The first wait after a failure.
pub fn backoff_base() -> (d: Duration)
    ensures
        duration_nanos(d) == BACKOFF_BASE_SECS * NANOS_PER_SEC,
{
    Duration::from_secs(BACKOFF_BASE_SECS)
}

/// The wait that follows a wait of `n` nanoseconds: twice as long, up to the cap.
pub open spec fn backoff_after(n: nat) -> nat {
    if 2 * n <= BACKOFF_CAP_SECS * NANOS_PER_SEC {
        2 * n
    } else {
        (BACKOFF_CAP_SECS * NANOS_PER_SEC) as nat
    }
}

/// Doubles the wait, up to the cap.
pub fn next_backoff(current: Duration) -> (next: Duration)
    ensures
        duration_nanos(next) == backoff_after(duration_nanos(current)),
{
    let doubled: Duration = current.saturating_mul(2);
    let cap: Duration = Duration::from_secs(BACKOFF_CAP_SECS);
    if doubled.as_nanos() <= cap.as_nanos() {
        doubled
    } else {
        cap
    }
}

/// Waits never shrink and never pass the cap, once they start at or below it.
pub proof fn law_backoff_grows_to_the_cap(n: nat)
    requires
        n <= BACKOFF_CAP_SECS * NANOS_PER_SEC,
    ensures
        n <= backoff_after(n) <= BACKOFF_CAP_SECS * NANOS_PER_SEC,
        0 < n < BACKOFF_CAP_SECS * NANOS_PER_SEC ==> n < backoff_after(n),
{
}

/// The low 64 bits of a number.
pub fn low_u64(n: u128) -> (r: u64)
    ensures
        r == n % 0x1_0000_0000_0000_0000,
{
    assert(n as u64 == n % 0x1_0000_0000_0000_0000u128) by (bit_vector);
    #[verifier::truncate]
    (n as u64)
}

/// `rand::rng().random_range(0..=max)`: a number that is at most `max`. Which one it is rests on
/// chance.
#[verifier::external_body]
fn random_up_to(max: u64) -> (n: u64)
    ensures
        n <= max,
{
    rand::rng().random_range(0..=max)
}

/// The whole milliseconds of the span below which a jittered wait stays, in 64 bits.
pub open spec fn jitter_millis(ceiling: nat) -> int {
    (ceiling / (NANOS_PER_MILLI as nat)) as int % 0x1_0000_0000_0000_0000
}

/// How long the wait is that a draw stands for, in nanoseconds.
pub open spec fn drawn_nanos(draw: u64) -> nat {
    (draw * NANOS_PER_MILLI) as nat
}

/// The largest draw for a wait below the ceiling: its whole milliseconds.
pub fn jitter_ceiling(ceiling: Duration) -> (ms: u64)
    ensures
        ms == jitter_millis(duration_nanos(ceiling)),
{
    low_u64(ceiling.as_millis())
}

/// The wait that a draw stands for: so many milliseconds.
pub fn jitter_from(ceiling: Duration, draw: u64) -> (wait: Duration)
    requires
        draw <= jitter_millis(duration_nanos(ceiling)),
    ensures
        duration_nanos(wait) == drawn_nanos(draw),
        duration_nanos(wait) <= duration_nanos(ceiling),
{
    proof {
        law_draws_span_the_ceiling(duration_nanos(ceiling), draw);
    }
    Duration::from_millis(draw)
}

/// A random wait of whole milliseconds from nothing to the ceiling: that of a draw from all that
/// are in reach. Which draw it is rests on chance.
pub fn jitter(ceiling: Duration) -> (wait: Duration)
    ensures
        exists|draw: u64|
            draw <= jitter_millis(duration_nanos(ceiling)) && duration_nanos(wait) == #[trigger] drawn_nanos(
                draw,
            ),
        duration_nanos(wait) <= duration_nanos(ceiling),
        duration_nanos(wait) % (NANOS_PER_MILLI as nat) == 0,
{
    let max_ms: u64 = jitter_ceiling(ceiling);
    let draw: u64 = if max_ms == 0 {
        0
    } else {
        random_up_to(max_ms)
    };
    jitter_from(ceiling, draw)
}

/// The draws reach from no wait at all to the ceiling: none stands for a longer wait, the largest
/// falls short of the ceiling by less than a millisecond, and below a millisecond there is no
/// wait. Only a ceiling whose milliseconds do not fit in 64 bits is not reached.
pub proof fn law_draws_span_the_ceiling(ceiling: nat, draw: u64)
    ensures
        draw <= jitter_millis(ceiling) ==> drawn_nanos(draw) <= ceiling,
        drawn_nanos(0) == 0,
        draw == jitter_millis(ceiling) && ceiling / (NANOS_PER_MILLI as nat) <= u64::MAX ==> ceiling
            < drawn_nanos(draw) + NANOS_PER_MILLI,
        ceiling < NANOS_PER_MILLI ==> jitter_millis(ceiling) == 0,
{
    let whole = ceiling / (NANOS_PER_MILLI as nat);
    vstd::arithmetic::div_mod::lemma_mod_decreases(whole, 0x1_0000_0000_0000_0000nat);
}

/// The identifier of the transaction with the given number.
pub open spec fn txn_id(prefix: nat, n: nat) -> Seq<char> {
    text::decimal(prefix) + seq!['-'] + text::decimal(n)
}

/// A source of transaction identifiers: a prefix that tells runs apart, and a counter.
pub struct TxnIdGen {
    pub prefix: u64,
    pub counter: u64,
}

impl TxnIdGen {
    /// A source that counts from zero.
    pub fn new(prefix: u64) -> (g: Self)
        ensures
            g.prefix == prefix,
            g.counter == 0,
    {
        TxnIdGen { prefix, counter: 0 }
    }

    /// The next identifier.
    pub fn next_id(&mut self) -> (id: String)
        ensures
            id@ == txn_id(old(self).prefix as nat, old(self).counter as nat),
            final(self).prefix == old(self).prefix,
            final(self).counter == (old(self).counter + 1) % 0x1_0000_0000_0000_0000,
    {
        let n: u64 = self.counter;
        self.counter = n.wrapping_add(1);
        let mut id: String = text::to_decimal(self.prefix);
        id.push('-');
        id.append(text::to_decimal(n).as_str());
        assert(id@ =~= txn_id(self.prefix as nat, n as nat));
        id
    }
}

/// Two transaction identifiers are equal only when prefix and number are.
pub proof fn law_txn_ids_distinct(p: nat, i: nat, q: nat, j: nat)
    requires
        txn_id(p, i) == txn_id(q, j),
    ensures
        p == q,
        i == j,
{
    let a = txn_id(p, i);
    let b = txn_id(q, j);
    let dp = text::decimal(p);
    let dq = text::decimal(q);
    text::lemma_decimal(p);
    text::lemma_decimal(q);
    assert(a[dp.len() as int] == '-');
    assert(b[dq.len() as int] == '-');
    assert(forall|k: int| 0 <= k < dp.len() ==> a[k] == dp[k]);
    assert(forall|k: int| 0 <= k < dq.len() ==> b[k] == dq[k]);
    if dp.len() < dq.len() {
        assert('0' <= dq[dp.len() as int] <= '9');
    }
    if dq.len() < dp.len() {
        assert('0' <= dp[dq.len() as int] <= '9');
    }
    assert(dp =~= a.take(dp.len() as int));
    assert(dq =~= b.take(dq.len() as int));
    text::lemma_decimal_injective(p, q);
    assert(text::decimal(i) =~= a.skip(dp.len() as int + 1));
    assert(text::decimal(j) =~= b.skip(dq.len() as int + 1));
    text::lemma_decimal_injective(i, j);
}

/// The time since the Unix epoch, `None` when the clock stands before it:
/// `SystemTime::now().duration_since(UNIX_EPOCH)`. What it is rests on the clock.
#[verifier::external_body]
fn since_epoch() -> (d: Option<Duration>) {
    std::time::SystemTime::now().duration_since(std::time::UNIX_EPOCH).ok()
}

/// Milliseconds of a time since the Unix epoch, in 64 bits: none for a clock that stands before
/// it.
pub open spec fn epoch_millis(since: Option<Duration>) -> int {
    match since {
        Some(d) => (duration_nanos(d) / (NANOS_PER_MILLI as nat)) as int % 0x1_0000_0000_0000_0000,
        None => 0,
    }
}

/// Milliseconds of a time since the Unix epoch: none for a clock that stands before it.
pub fn epoch_ms(since: Option<Duration>) -> (ms: u64)
    ensures
        ms == epoch_millis(since),
{
    match since {
        Some(d) => low_u64(d.as_millis()),
        None => 0,
    }
}

/// Milliseconds since the Unix epoch by the system's clock: those of what the clock says, which
/// rests on the clock alone.
pub fn now_ms() -> (ms: u64)
    ensures
        exists|since: Option<Duration>| ms == #[trigger] epoch_millis(since),
{
    epoch_ms(since_epoch())
}

/// A failure to deliver something to another server.
#[derive(Debug)]
pub enum TransportError {
    /// The server answered with this HTTP status.
    Status(u16),
    /// The server was not reached or its answer was not understood.
    Transient(String),
}

impl TransportError {
    /// The error in words.
    pub fn message(&self) -> (s: String)
        ensures
            s@ == match *self {
                TransportError::Status(code) => "peer returned HTTP "@ + text::decimal(
                    code as nat,
                ),
                TransportError::Transient(e) => "federation transport error: "@ + e@,
            },
    {
        match self {
            TransportError::Status(code) => text::concat(
                "peer returned HTTP ",
                text::to_decimal(*code as u64).as_str(),
            ),
            TransportError::Transient(e) => text::concat(
                "federation transport error: ",
                e.as_str(),
            ),
        }
    }
}

/// The heads of a room: of its timeline and of its state graph.
#[derive(Debug)]
pub struct ForwardExtremities {
    pub timeline: Vec<String>,
    pub state: Vec<String>,
}

impl ForwardExtremities {
    /// Whether there is no head of either kind.
    pub fn is_empty(&self) -> (empty: bool)
        ensures
            empty == (self.timeline@.len() == 0 && self.state@.len() == 0),
    {
        self.timeline.len() == 0 && self.state.len() == 0
    }
}

/// The store could not be read or written.
#[derive(Debug)]
pub struct StorageError {
    pub message: String,
}

/// Why the version of a room could not be told.
#[derive(Debug)]
pub enum VersionError {
    /// The room is not on record.
    UnknownRoom,
    /// The room has a version that is not spoken here.
    Unsupported(String),
    /// The record could not be read.
    Fault(StorageError),
}

impl VersionError {
    /// The error in words.
    pub fn message(&self) -> (s: String)
        ensures
            s@ == match *self {
                VersionError::UnknownRoom => "no version on record for this room"@,
                VersionError::Unsupported(id) => "unsupported room version "@ + id@,
                VersionError::Fault(e) => "reading room version: "@ + e.message@,
            },
    {
        match self {
            VersionError::UnknownRoom => "no version on record for this room".to_owned(),
            VersionError::Unsupported(id) => text::concat("unsupported room version ", id.as_str()),
            VersionError::Fault(e) => text::concat("reading room version: ", e.message.as_str()),
        }
    }

    /// Whether trying again can help: only where the record could not be read.
    pub fn is_retryable(&self) -> (yes: bool)
        ensures
            yes == self is Fault,
    {
        match self {
            VersionError::Fault(_) => true,
            _ => false,
        }
    }
}

/// The version of a room, from what the store has on record for it.
pub fn room_version<'a>(
    stored: Result<Option<String>, StorageError>,
    versions: &'a RoomVersions,
) -> (r: Result<&'a RoomVersion, VersionError>)
    ensures
        stored matches Err(e) ==> r == Err::<&RoomVersion, VersionError>(VersionError::Fault(e)),
        stored matches Ok(None) ==> r == Err::<&RoomVersion, VersionError>(VersionError::UnknownRoom),
        stored matches Ok(Some(id)) ==> match versions.get_spec(id@) {
            Some(v) => r matches Ok(w) && *w == v,
            None => r == Err::<&RoomVersion, VersionError>(VersionError::Unsupported(id)),
        },
{
    match stored {
        Err(e) => Err(VersionError::Fault(e)),
        Ok(None) => Err(VersionError::UnknownRoom),
        Ok(Some(id)) => match versions.get(id.as_str()) {
            Some(v) => Ok(v),
            None => Err(VersionError::Unsupported(id)),
        },
    }
}

/// A walk back from `latest` through events that another server holds, up to those of
/// `earliest`, which the caller holds.
pub struct MissingEventsQuery {
    pub origin: String,
    pub room_id: String,
    pub latest: Vec<String>,
    pub earliest: Vec<String>,
    pub limit: u32,
    /// Whether the walk follows the state events that an event refers to.
    pub state_dag: bool,
    /// Whether the events of `latest` are returned too.
    pub include_latest_events: bool,
}

/// What an event says of the version that names it: the room it is in, or the version that a
/// creation declares.
pub struct RoomVersionKeys {
    pub room_id: Option<String>,
    pub declared: Option<String>,
}

/// The room that an event's text names.
pub open spec fn keyed_room(m: Map<Seq<char>, JsonView>) -> Option<Seq<char>> {
    match json::text_field(m, "room_id"@) {
        Some(s) => if ids::room_id_valid(s) {
            Some(s)
        } else {
            None
        },
        None => None,
    }
}

/// The version that the creation of a room declares.
pub open spec fn keyed_version(m: Map<Seq<char>, JsonView>) -> Option<Seq<char>> {
    if json::text_field(m, "type"@) == Some("m.room.create"@) {
        match json::lookup(m, "content"@) {
            Some(content) => match content.field("room_version"@) {
                Some(v) => v.text(),
                None => None,
            },
            None => None,
        }
    } else {
        None
    }
}

/// Reads what an event, as an object, says of the version that names it.
pub fn version_keys(m: &JsonObject) -> (keys: RoomVersionKeys)
    ensures
        event::option_view(keys.room_id) == keyed_room(m@),
        event::option_view(keys.declared) == keyed_version(m@),
{
    let room_id: Option<String> = match m.get_str("room_id") {
        Some(s) => if ids::is_room_id(s) {
            Some(s.to_owned())
        } else {
            None
        },
        None => None,
    };
    let is_create: bool = match m.get_str("type") {
        Some(t) => text::str_eq(t, "m.room.create"),
        None => false,
    };
    let declared: Option<String> = if is_create {
        match m.get("content") {
            Some(content) => match content.get("room_version") {
                Some(v) => match v.as_str() {
                    Some(s) => Some(s.to_owned()),
                    None => None,
                },
                None => None,
            },
            None => None,
        }
    } else {
        None
    };
    RoomVersionKeys { room_id, declared }
}

/// Reads what an event's text says of the version that names it; a text that is no object says
/// nothing.
pub fn room_version_keys(raw: &str) -> (keys: RoomVersionKeys)
    ensures
        codec::parsed_object(raw@) matches Some(m) ==> event::option_view(keys.room_id) == keyed_room(m)
            && event::option_view(keys.declared) == keyed_version(m),
        codec::parsed_object(raw@) is None ==> keys.room_id is None && keys.declared is None,
{
    match codec::parse_object(raw) {
        Ok(m) => version_keys(&m),
        Err(_) => RoomVersionKeys { room_id: None, declared: None },
    }
}

/// The version that names an inbound event: that of its room, which `stored` has on record, or
/// the one that a creation declares, or the base version where it declares none.
pub fn room_version_for_wire<'a>(
    keys: RoomVersionKeys,
    stored: Result<Option<String>, StorageError>,
    versions: &'a RoomVersions,
) -> (r: Result<&'a RoomVersion, VersionError>)
    ensures
        keys.room_id is Some ==> {
            &&& stored matches Err(e) ==> r == Err::<&RoomVersion, VersionError>(VersionError::Fault(e))
            &&& stored matches Ok(None) ==> r == Err::<&RoomVersion, VersionError>(
                VersionError::UnknownRoom,
            )
            &&& stored matches Ok(Some(id)) ==> match versions.get_spec(id@) {
                Some(v) => r matches Ok(w) && *w == v,
                None => r == Err::<&RoomVersion, VersionError>(VersionError::Unsupported(id)),
            }
        },
        keys.room_id is None ==> (keys.declared matches Some(id) ==> match versions.get_spec(id@) {
            Some(v) => r matches Ok(w) && *w == v,
            None => r == Err::<&RoomVersion, VersionError>(VersionError::Unsupported(id)),
        }),
        keys.room_id is None && keys.declared is None ==> (r matches Ok(w) && *w == versions.base_spec()),
{
    if keys.room_id.is_some() {
        return room_version(stored, versions);
    }
    match keys.declared {
        Some(id) => match versions.get(id.as_str()) {
            Some(v) => Ok(v),
            None => Err(VersionError::Unsupported(id)),
        },
        None => Ok(versions.base()),
    }
}

/// Which of the events belong to the room: the positions, in order.
pub open spec fn staged(events: Seq<Event>, room: Seq<char>) -> Seq<int>
    decreases events.len(),
{
    if events.len() == 0 {
        seq![]
    } else {
        let front = staged(events.drop_last(), room);
        if events.last().room_id@ == room {
            front.push(events.len() - 1)
        } else {
            front
        }
    }
}

/// The positions of the events that are staged for a room: those that belong to it, in order.
/// An event of another room is left out.
pub fn stage_order(events: &Vec<Event>, room_id: &str) -> (order: Vec<usize>)
    ensures
        order@.map_values(|i: usize| i as int) == staged(events@, room_id@),
{
    let mut order: Vec<usize> = Vec::new();
    let mut i: usize = 0;
    assert(order@.map_values(|i: usize| i as int) =~= staged(events@.take(0), room_id@));
    while i < events.len()
        invariant
            i <= events@.len(),
            order@.map_values(|i: usize| i as int) == staged(events@.take(i as int), room_id@),
        decreases events.len() - i,
    {
        assert(events@.take(i + 1).drop_last() =~= events@.take(i as int));
        let ghost before = order@;
        if text::str_eq(events[i].room_id.as_str(), room_id) {
            order.push(i);
            assert(order@.map_values(|i: usize| i as int) =~= before.map_values(
                |i: usize| i as int,
            ).push(i as int));
        }
        i = i + 1;
    }
    assert(events@.take(events@.len() as int) =~= events@);
    order
}

/// What is to be done next when events of a room are staged.
pub enum StagingStep {
    /// Stage the event in the given place.
    Stage { index: usize },
    /// All are staged: tell the worker of the room.
    Poke,
    /// The store failed: stop, and tell nobody.
    Stop(StorageError),
}

/// Whether a step goes on with the first of the places that are left.
pub open spec fn goes_to_first(step: StagingStep, left: Seq<int>) -> bool {
    if left.len() > 0 {
        step matches StagingStep::Stage { index } && index == left[0]
    } else {
        step is Poke
    }
}

/// The staging of the events of a room, one after the other.
pub struct Staging {
    order: Vec<usize>,
    at: usize,
}

impl View for Staging {
    type V = Seq<int>;

    /// The places of the events that are not staged yet, the one at hand first.
    closed spec fn view(&self) -> Seq<int> {
        self.order@.map_values(|i: usize| i as int).skip(self.at as int)
    }
}

impl Staging {
    #[verifier::type_invariant]
    spec fn wf(self) -> bool {
        self.at <= self.order@.len()
    }

    fn step(&self) -> (step: StagingStep)
        ensures
            goes_to_first(step, self@),
    {
        proof {
            use_type_invariant(self);
        }
        if self.at < self.order.len() {
            StagingStep::Stage { index: self.order[self.at] }
        } else {
            StagingStep::Poke
        }
    }

    /// Begins with the first event of the room.
    pub fn begin(events: &Vec<Event>, room_id: &str) -> (r: (Staging, StagingStep))
        ensures
            r.0@ == staged(events@, room_id@),
            goes_to_first(r.1, r.0@),
    {
        let s = Staging { order: stage_order(events, room_id), at: 0 };
        assert(s@ =~= staged(events@, room_id@));
        let step: StagingStep = s.step();
        (s, step)
    }

    /// What came of staging the event at hand: goes to the next, or stops.
    pub fn on_staged(&mut self, outcome: Result<(), StorageError>) -> (step: StagingStep)
        requires
            old(self)@.len() > 0,
        ensures
            match outcome {
                Ok(_) => final(self)@ == old(self)@.skip(1) && goes_to_first(step, final(self)@),
                Err(e) => final(self)@ == old(self)@ && step == StagingStep::Stop(e),
            },
    {
        proof {
            use_type_invariant(&*self);
        }
        match outcome {
            Ok(_) => {
                let n: usize = self.order.len();
                assert(self.at < n);
                self.at = self.at + 1;
                assert(self@ =~= old(self)@.skip(1));
                self.step()
            },
            Err(e) => StagingStep::Stop(e),
        }
    }
}

/// What is left to be staged, from the given places, after events were staged or failed to be in
/// their order; `None` once one failed.
pub open spec fn left_after(order: Seq<int>, outcomes: Seq<bool>) -> Option<Seq<int>>
    decreases outcomes.len(),
{
    if outcomes.len() == 0 {
        Some(order)
    } else {
        match left_after(order, outcomes.drop_last()) {
            Some(left) => if outcomes.last() {
                Some(left.skip(1))
            } else {
                None
            },
            None => None,
        }
    }
}

/// Staging goes on, in order, for as long as no event fails, and stops at the first that does:
/// nothing behind it is staged, and the worker is told only when all events of the room are.
pub proof fn law_staging_stops_at_the_first_failure(order: Seq<int>, outcomes: Seq<bool>)
    requires
        outcomes.len() <= order.len(),
    ensures
        left_after(order, outcomes) is Some <==> forall|i: int|
            0 <= i < outcomes.len() ==> #[trigger] outcomes[i],
        left_after(order, outcomes) matches Some(left) ==> left == order.skip(outcomes.len() as int),
    decreases outcomes.len(),
{
    if outcomes.len() > 0 {
        let front = outcomes.drop_last();
        law_staging_stops_at_the_first_failure(order, front);
        assert(forall|i: int| 0 <= i < front.len() ==> front[i] == outcomes[i]);
        assert(outcomes[outcomes.len() - 1] == outcomes.last());
        if left_after(order, outcomes) is Some {
            assert(order.skip(front.len() as int).skip(1) =~= order.skip(outcomes.len() as int));
        }
        if forall|i: int| 0 <= i < outcomes.len() ==> #[trigger] outcomes[i] {
            assert forall|i: int| 0 <= i < front.len() implies #[trigger] front[i] by {
                assert(outcomes[i]);
            }
        }
    } else {
        assert(order.skip(0) =~= order);
    }
}

/// Every staged position is that of an event of the room, and every event of the room is
/// staged.
pub proof fn law_only_the_room_is_staged(events: Seq<Event>, room: Seq<char>, i: int)
    requires
        0 <= i < events.len(),
    ensures
        staged(events, room).contains(i) <==> events[i].room_id@ == room,
    decreases events.len(),
{
    let front = staged(events.drop_last(), room);
    lemma_staged_range(events.drop_last(), room);
    let all = staged(events, room);
    if i < events.len() - 1 {
        law_only_the_room_is_staged(events.drop_last(), room, i);
        if front.contains(i) {
            assert(all[front.index_of(i)] == i);
        }
        if all.contains(i) {
            let p = all.index_of(i);
            assert(front[p] == i);
        }
    } else {
        if events.last().room_id@ == room {
            assert(all[front.len() as int] == i);
        } else if all.contains(i) {
            assert(front[all.index_of(i)] == i);
        }
    }
}

proof fn lemma_staged_range(events: Seq<Event>, room: Seq<char>)
    ensures
        forall|p: int|
            0 <= p < staged(events, room).len() ==> 0 <= #[trigger] staged(events, room)[p] < events.len(),
    decreases events.len(),
{
    if events.len() > 0 {
        let front = staged(events.drop_last(), room);
        lemma_staged_range(events.drop_last(), room);
        assert forall|p: int| 0 <= p < staged(events, room).len() implies 0 <= #[trigger] staged(
            events,
            room,
        )[p] < events.len() by {
            if p < front.len() {
                assert(staged(events, room)[p] == front[p]);
            }
        }
    }
}

/// A wait doubles until it reaches fifteen minutes, and the first is a second.
pub proof fn law_waits_double(n: nat)
    ensures
        BACKOFF_BASE_SECS * NANOS_PER_SEC == 1_000_000_000,
        n <= 450_000_000_000 ==> backoff_after(n) == 2 * n,
        n >= 450_000_000_000 ==> backoff_after(n) == 900_000_000_000,
{
}

/// A transaction is named by the prefix of its source and its number, in decimal, with a hyphen
/// between them.
pub proof fn law_transactions_are_named_by_number(prefix: nat, n: nat)
    ensures
        txn_id(prefix, n) == text::decimal(prefix) + seq!['-'] + text::decimal(n),
{
}

/// The time of a clock is its milliseconds, and none before the epoch.
pub proof fn law_clocks_count_milliseconds(d: Duration)
    ensures
        epoch_millis(None) == 0,
        duration_nanos(d) / 1_000_000 <= u64::MAX ==> epoch_millis(Some(d)) == duration_nanos(d)
            / 1_000_000,
{
}

/// The room of an event is the one that it names, where that is a room; the version is the one
/// that the creation of a room declares, where it declares one.
pub proof fn law_what_an_event_says_of_its_version(m: Map<Seq<char>, JsonView>, room: Seq<char>, id: Seq<char>)
    ensures
        keyed_room(m) == Some(room) <==> m.contains_key("room_id"@) && m["room_id"@] == JsonView::Text(
            room,
        ) && ids::room_id_valid(room),
        keyed_version(m) == Some(id) <==> m.contains_key("type"@) && m["type"@] == JsonView::Text(
            "m.room.create"@,
        ) && m.contains_key("content"@) && m["content"@].field("room_version"@) == Some(
            JsonView::Text(id),
        ),
{
}

/// A staging that goes on stages the first event that is left, and one with none left tells the
/// worker.
pub proof fn law_staging_goes_on_in_order(step: StagingStep, left: Seq<int>)
    requires
        goes_to_first(step, left),
    ensures
        left.len() > 0 ==> (step matches StagingStep::Stage { index } && index == left[0]),
        left.len() == 0 ==> step is Poke,
{
}

} // verus!
