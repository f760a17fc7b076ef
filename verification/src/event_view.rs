//! Events as clients see them. The text of an event does not hold its identifier, nor does that
//! of a creation hold its room: here they are put in. Servers are sent the text as it is.
use crate::codec;
use crate::event;
use crate::event::{Event, EventView, RedactionKeys, RoomVersion};
use crate::json;
use crate::json::{Json, JsonObject, JsonView};
use crate::names;
use crate::text;
use vstd::prelude::*;

verus! {

/// Why an event has no view as state.
#[derive(Debug)]
pub enum StateEventConversionError {
    /// The event has no state key.
    NotAStateEvent { event_type: String },
}

impl StateEventConversionError {
    /// The error in words.
    pub fn message(&self) -> (s: String)
        ensures
            self matches StateEventConversionError::NotAStateEvent { event_type } && s@
                == "event of type "@ + event_type@
                + " has no state_key — cannot represent as a state event"@,
    {
        match self {
            StateEventConversionError::NotAStateEvent { event_type } => {
                let mut s: String = text::concat("event of type ", event_type.as_str());
                s.append(" has no state_key — cannot represent as a state event");
                s
            },
        }
    }
}

/// Where the room of an event is put in: on creations alone, as the rest of a sync is listed by
/// room, or on every event.
#[derive(Copy, Clone)]
pub enum IncludeRoomId {
    OnlyOnCreate,
    Always,
}

/// The object of an event with its identifier, and with its room where the policy asks for it.
pub open spec fn enriched(
    m: Map<Seq<char>, JsonView>,
    ev: EventView,
    policy: IncludeRoomId,
) -> Map<Seq<char>, JsonView> {
    let named = m.insert("event_id"@, JsonView::Text(ev.event_id));
    if policy is Always || ev.event_type == "m.room.create"@ {
        named.insert("room_id"@, JsonView::Text(ev.room_id))
    } else {
        named.remove("room_id"@)
    }
}

/// Puts the identifier of an event into its object, and its room where the policy asks for it.
pub fn enrich_object(m: JsonObject, ev: &Event, policy: IncludeRoomId) -> (r: JsonObject)
    ensures
        r@ == enriched(m@, ev@, policy),
{
    let mut m: JsonObject = m;
    m.insert("event_id".to_owned(), Json::text(ev.event_id.clone()));
    let always: bool = match policy {
        IncludeRoomId::Always => true,
        IncludeRoomId::OnlyOnCreate => false,
    };
    if always || text::str_eq(ev.event_type.as_str(), "m.room.create") {
        m.insert("room_id".to_owned(), Json::text(ev.room_id.clone()));
    } else {
        m.remove("room_id");
    }
    m
}

/// Whether the text of an event holds an object, as that of every event does that was read.
pub open spec fn holds_object(ev: EventView) -> bool {
    codec::parsed_object(ev.raw) is Some
}

/// The view of an event, as a value.
pub open spec fn client_value(ev: EventView, policy: IncludeRoomId) -> JsonView {
    JsonView::Object(enriched(codec::parsed_object(ev.raw)->0, ev, policy))
}

/// The view of an event, as an object.
fn client_object(ev: &Event, policy: IncludeRoomId) -> (r: JsonObject)
    requires
        holds_object(ev@),
    ensures
        JsonView::Object(r@) == client_value(ev@, policy),
{
    match codec::parse_object(ev.raw.as_str()) {
        Ok(m) => enrich_object(m, ev, policy),
        Err(_) => vstd::pervasive::unreached(),
    }
}

/// The view of an event, as text.
pub fn enrich_for_client(ev: &Event, policy: IncludeRoomId) -> (r: String)
    requires
        holds_object(ev@),
    ensures
        r@ == codec::printed(client_value(ev@, policy)),
{
    codec::print(&Json::object(client_object(ev, policy)))
}

/// Whether a text holds an object for which canonical JSON has a form.
pub open spec fn canonical_text(text: Seq<char>) -> bool {
    codec::parsed_object(text) matches Some(m) && codec::canonical(JsonView::Object(m))
}

/// `ruma::CanonicalJsonValue`, carried from reading to redaction.
#[verifier::external_type_specification]
#[verifier::external_body]
pub struct ExCanonicalJsonValue(ruma::CanonicalJsonValue);

/// What a `ruma::CanonicalJsonValue` holds.
pub uninterp spec fn canonical_view(v: ruma::CanonicalJsonValue) -> JsonView;

/// What `ruma` leaves of an event by the redaction rules of room version 12; `None` when it
/// refuses the event.
pub uninterp spec fn redacted_v12(m: Map<Seq<char>, JsonView>) -> Option<Map<Seq<char>, JsonView>>;

/// `<ruma::CanonicalJsonValue as TryFrom<serde_json::Value>>::try_from`: the same value. One for
/// which canonical JSON has no form is refused.
#[verifier::external_body]
fn canonical_of_value(v: serde_json::Value) -> (r: Option<ruma::CanonicalJsonValue>)
    ensures
        r is Some == codec::canonical(codec::value_view(v)),
        r matches Some(c) ==> canonical_view(c) == codec::value_view(v),
{
    ruma::CanonicalJsonValue::try_from(v).ok()
}

/// The object that a text holds, as canonical JSON; `None` where the text holds none, or one for
/// which canonical JSON has no form.
fn canonical_object_of(text: &str) -> (r: Option<ruma::CanonicalJsonValue>)
    ensures
        r is Some == canonical_text(text@),
        r matches Some(c) ==> canonical_view(c) == JsonView::Object(codec::parsed_object(text@)->0),
{
    match codec::map_from_str(text) {
        Ok(v) => canonical_of_value(v),
        Err(_) => None,
    }
}

/// The keys of an event that outlast its redaction by the rules of room version 12.
pub open spec fn outlasts_redaction(key: Seq<char>) -> bool {
    ||| key == "event_id"@
    ||| key == "type"@
    ||| key == "room_id"@
    ||| key == "sender"@
    ||| key == "state_key"@
    ||| key == "content"@
    ||| key == "hashes"@
    ||| key == "signatures"@
    ||| key == "depth"@
    ||| key == "prev_events"@
    ||| key == "auth_events"@
    ||| key == "origin_server_ts"@
}

/// `ruma::canonical_json::redact` with the rules of room version 12 and no redacting event: it
/// leaves the keys that outlast redaction, with their values as they were but for the content.
/// It refuses an event without a string for a type. What it leaves of the content rests on the
/// type, and is named with the rest of the result.
#[verifier::external_body]
fn redact_canonical(event: ruma::CanonicalJsonValue) -> (r: Option<ruma::CanonicalJsonValue>)
    requires
        canonical_view(event) is Object,
    ensures
        match redacted_v12(canonical_view(event)->Object_0) {
            None => r is None,
            Some(left) => r matches Some(v) && canonical_view(v) == JsonView::Object(left),
        },
        r is Some ==> json::text_field(canonical_view(event)->Object_0, "type"@) is Some,
        r matches Some(v) ==> ({
            let m = canonical_view(event)->Object_0;
            let left = canonical_view(v)->Object_0;
            &&& forall|k: Seq<char>| #[trigger]
                left.contains_key(k) <==> m.contains_key(k) && outlasts_redaction(k)
            &&& forall|k: Seq<char>| left.contains_key(k) && k != "content"@ ==> #[trigger] left[k] == m[k]
        }),
{
    let ruma::CanonicalJsonValue::Object(object) = event else { return None };
    let rules = ruma::room_version_rules::RoomVersionRules::V12.redaction;
    let left = ruma::canonical_json::redact(object, &rules, None).ok()?;
    Some(ruma::CanonicalJsonValue::Object(left))
}

/// `<serde_json::Value as From<ruma::CanonicalJsonValue>>::from`: the same value.
#[verifier::external_body]
fn value_of_canonical(v: ruma::CanonicalJsonValue) -> (r: serde_json::Value)
    ensures
        codec::value_view(r) == canonical_view(v),
{
    v.into()
}

/// What a room version leaves of an event of which version 12 leaves `left`.
pub open spec fn version_left(
    left: Map<Seq<char>, JsonView>,
    m: Map<Seq<char>, JsonView>,
    added: Seq<Seq<char>>,
    removed: Seq<Seq<char>>,
) -> Map<Seq<char>, JsonView> {
    left.union_prefer_right(m.restrict(added.to_set())).remove_keys(removed.to_set())
}

/// Keeps and drops the keys by which a room version differs from version 12: `left` is what
/// version 12 leaves of the event `whole`.
pub fn apply_redaction_keys(left: JsonObject, whole: &JsonObject, keys: &RedactionKeys) -> (r: JsonObject)
    ensures
        r@ == version_left(left@, whole@, event::views(keys.added@), event::views(keys.removed@)),
{
    let mut r: JsonObject = left;
    let ghost added = event::views(keys.added@);
    let ghost removed = event::views(keys.removed@);
    let mut i: usize = 0;
    assert(r@ =~= left@.union_prefer_right(whole@.restrict(added.take(0).to_set())));
    while i < keys.added.len()
        invariant
            i <= keys.added@.len(),
            added == event::views(keys.added@),
            r@ == left@.union_prefer_right(whole@.restrict(added.take(i as int).to_set())),
        decreases keys.added.len() - i,
    {
        proof {
            json::lemma_take_push(added, i as int);
        }
        let key: &str = keys.added[i].as_str();
        if let Some(v) = whole.get(key) {
            r.insert(key.to_owned(), v.duplicate());
        }
        assert(r@ =~= left@.union_prefer_right(whole@.restrict(added.take(i + 1).to_set())));
        i = i + 1;
    }
    assert(added.take(i as int) =~= added);
    let ghost kept = r@;
    let mut j: usize = 0;
    assert(r@ =~= kept.remove_keys(removed.take(0).to_set()));
    while j < keys.removed.len()
        invariant
            j <= keys.removed@.len(),
            removed == event::views(keys.removed@),
            r@ == kept.remove_keys(removed.take(j as int).to_set()),
        decreases keys.removed.len() - j,
    {
        proof {
            json::lemma_take_push(removed, j as int);
        }
        r.remove(keys.removed[j].as_str());
        assert(r@ =~= kept.remove_keys(removed.take(j + 1).to_set()));
        j = j + 1;
    }
    assert(removed.take(j as int) =~= removed);
    r
}

/// What a room version leaves of an event.
pub open spec fn redacted_by(m: Map<Seq<char>, JsonView>, version: RoomVersion) -> Option<
    Map<Seq<char>, JsonView>,
> {
    match redacted_v12(m) {
        None => None,
        Some(left) => Some(
            version_left(
                left,
                m,
                event::views(version.redaction_keys.added@),
                event::views(version.redaction_keys.removed@),
            ),
        ),
    }
}

/// Whether the text of an event holds an object for which canonical JSON has a form.
pub open spec fn holds_canonical_object(ev: EventView) -> bool {
    canonical_text(ev.raw)
}

/// What the version of the room leaves of an event; `None` when the event cannot be redacted.
pub fn redact_for_hash(ev: &Event, version: &RoomVersion) -> (r: Option<JsonObject>)
    requires
        holds_canonical_object(ev@),
    ensures
        match redacted_by(codec::parsed_object(ev.raw@)->0, *version) {
            None => r is None,
            Some(left) => r matches Some(m) && m@ == left,
        },
{
    let whole: JsonObject = match codec::parse_object(ev.raw.as_str()) {
        Ok(m) => m,
        Err(_) => return None,
    };
    let event: ruma::CanonicalJsonValue = match canonical_object_of(ev.raw.as_str()) {
        Some(v) => v,
        None => return None,
    };
    match redact_canonical(event) {
        None => None,
        Some(left) => match codec::json_of_value(value_of_canonical(left)).into_object() {
            Some(m) => Some(apply_redaction_keys(m, &whole, &version.redaction_keys)),
            None => None,
        },
    }
}

/// The view of a redacted event: what is left of it, with its identifier, its room where the
/// policy asks for it, and the redacting event as the reason.
pub open spec fn redacted_view(
    left: Map<Seq<char>, JsonView>,
    ev: EventView,
    because: JsonView,
    policy: IncludeRoomId,
) -> Map<Seq<char>, JsonView> {
    enriched(left, ev, policy).insert(
        "unsigned"@,
        JsonView::Object(Map::empty().insert("redacted_because"@, because)),
    )
}

/// Puts the identifiers and the redacting event into what is left of a redacted event.
pub fn redacted_object(left: JsonObject, ev: &Event, because: Json, policy: IncludeRoomId) -> (r:
    JsonObject)
    ensures
        r@ == redacted_view(left@, ev@, because@, policy),
{
    let mut r: JsonObject = enrich_object(left, ev, policy);
    let mut unsigned: JsonObject = JsonObject::new();
    unsigned.insert("redacted_because".to_owned(), because);
    r.insert("unsigned".to_owned(), Json::object(unsigned));
    r
}

/// The view of an event that `because` redacts. An event that cannot be redacted is shown as it
/// is.
pub open spec fn redacted_value(
    ev: EventView,
    because: EventView,
    version: RoomVersion,
    policy: IncludeRoomId,
) -> JsonView {
    match redacted_by(codec::parsed_object(ev.raw)->0, version) {
        None => client_value(ev, policy),
        Some(left) => JsonView::Object(
            redacted_view(left, ev, client_value(because, IncludeRoomId::Always), policy),
        ),
    }
}

/// The view of an event that `because` redacts, as text.
pub fn redacted_for_client(
    ev: &Event,
    because: &Event,
    version: &RoomVersion,
    policy: IncludeRoomId,
) -> (r: String)
    requires
        holds_canonical_object(ev@),
        holds_object(because@),
    ensures
        r@ == codec::printed(redacted_value(ev@, because@, *version, policy)),
{
    match redact_for_hash(ev, version) {
        None => enrich_for_client(ev, policy),
        Some(left) => {
            let reason: Json = Json::object(client_object(because, IncludeRoomId::Always));
            codec::print(&Json::object(redacted_object(left, ev, reason, policy)))
        },
    }
}

/// The view of an event that may be redacted, as a value.
pub open spec fn maybe_redacted_value(
    ev: EventView,
    because: Option<EventView>,
    version: RoomVersion,
    policy: IncludeRoomId,
) -> JsonView {
    match because {
        Some(b) => redacted_value(ev, b, version, policy),
        None => client_value(ev, policy),
    }
}

/// The events that a view needs hold what it reads.
pub open spec fn viewable(ev: EventView, because: Option<EventView>) -> bool {
    match because {
        Some(b) => holds_canonical_object(ev) && holds_object(b),
        None => holds_object(ev),
    }
}

/// An event that may be absent, as mathematics.
pub open spec fn option_event(ev: Option<&Event>) -> Option<EventView> {
    match ev {
        Some(e) => Some(e@),
        None => None,
    }
}

/// The view of an event in the timeline of a sync, redacted when `because` redacts it.
pub fn sync_timeline_view(ev: &Event, because: Option<&Event>, version: &RoomVersion) -> (r: String)
    requires
        viewable(ev@, option_event(because)),
    ensures
        r@ == codec::printed(
            maybe_redacted_value(ev@, option_event(because), *version, IncludeRoomId::OnlyOnCreate),
        ),
{
    match because {
        Some(b) => redacted_for_client(ev, b, version, IncludeRoomId::OnlyOnCreate),
        None => sync_timeline_event(ev),
    }
}

/// The view of an event that is delivered by itself, redacted when `because` redacts it.
pub fn timeline_view(ev: &Event, because: Option<&Event>, version: &RoomVersion) -> (r: String)
    requires
        viewable(ev@, option_event(because)),
    ensures
        r@ == codec::printed(
            maybe_redacted_value(ev@, option_event(because), *version, IncludeRoomId::Always),
        ),
{
    match because {
        Some(b) => redacted_for_client(ev, b, version, IncludeRoomId::Always),
        None => timeline_event(ev),
    }
}

/// The view of an event in the timeline of a sync.
pub fn sync_timeline_event(ev: &Event) -> (r: String)
    requires
        holds_object(ev@),
    ensures
        r@ == codec::printed(client_value(ev@, IncludeRoomId::OnlyOnCreate)),
{
    enrich_for_client(ev, IncludeRoomId::OnlyOnCreate)
}

/// The view of an event that is delivered by itself.
pub fn timeline_event(ev: &Event) -> (r: String)
    requires
        holds_object(ev@),
    ensures
        r@ == codec::printed(client_value(ev@, IncludeRoomId::Always)),
{
    enrich_for_client(ev, IncludeRoomId::Always)
}

/// The view of an event in the state of a sync: an event without a state key has none.
pub fn sync_state_event(ev: &Event) -> (r: Result<String, StateEventConversionError>)
    requires
        holds_object(ev@),
    ensures
        r is Ok == ev.state_key is Some,
        r matches Ok(s) ==> s@ == codec::printed(client_value(ev@, IncludeRoomId::OnlyOnCreate)),
        r matches Err(StateEventConversionError::NotAStateEvent { event_type }) ==> event_type@
            == ev.event_type@,
{
    if ev.state_key.is_none() {
        return Err(
            StateEventConversionError::NotAStateEvent { event_type: ev.event_type.clone() },
        );
    }
    Ok(enrich_for_client(ev, IncludeRoomId::OnlyOnCreate))
}

/// The stripped form of a state event: its type, state key, sender and content.
pub open spec fn stripped_value(ev: EventView, content: JsonView) -> Map<Seq<char>, JsonView> {
    Map::empty().insert("type"@, JsonView::Text(ev.event_type)).insert(
        "state_key"@,
        JsonView::Text(ev.state_key->0),
    ).insert("sender"@, JsonView::Text(ev.sender)).insert("content"@, content)
}

/// The stripped form of a state event with the given content; an event without a state key has
/// none.
pub fn stripped_object(ev: &Event, content: Json) -> (r: Result<JsonObject, StateEventConversionError>)
    ensures
        r is Ok == ev.state_key is Some,
        r matches Ok(m) ==> m@ == stripped_value(ev@, content@),
        r matches Ok(m) ==> ({
            &&& m@["type"@] == JsonView::Text(ev.event_type@)
            &&& m@["state_key"@] == JsonView::Text(ev.state_key->0@)
            &&& m@["sender"@] == JsonView::Text(ev.sender@)
            &&& m@["content"@] == content@
        }),
        r matches Err(StateEventConversionError::NotAStateEvent { event_type }) ==> event_type@
            == ev.event_type@,
{
    proof {
        names::lemma_stripped_names();
    }
    match &ev.state_key {
        None => Err(StateEventConversionError::NotAStateEvent { event_type: ev.event_type.clone() }),
        Some(state_key) => {
            let mut m: JsonObject = JsonObject::new();
            m.insert("type".to_owned(), Json::text(ev.event_type.clone()));
            m.insert("state_key".to_owned(), Json::text(state_key.clone()));
            m.insert("sender".to_owned(), Json::text(ev.sender.clone()));
            m.insert("content".to_owned(), content);
            Ok(m)
        },
    }
}

/// The stripped form of a state event, as text; an event without a state key has none.
pub fn stripped_state_event(ev: &Event) -> (r: Result<String, StateEventConversionError>)
    requires
        codec::parsed_json(ev.content@) is Some,
    ensures
        r is Ok == ev.state_key is Some,
        r matches Ok(s) ==> s@ == codec::printed(
            JsonView::Object(stripped_value(ev@, codec::parsed_json(ev.content@)->0)),
        ),
        r matches Err(StateEventConversionError::NotAStateEvent { event_type }) ==> event_type@
            == ev.event_type@,
{
    match codec::parse(ev.content.as_str()) {
        Ok(content) => match stripped_object(ev, content) {
            Ok(m) => Ok(codec::print(&Json::object(m))),
            Err(e) => Err(e),
        },
        Err(_) => vstd::pervasive::unreached(),
    }
}

/// The fields of the stripped form.
pub open spec fn stripped_field(key: Seq<char>) -> bool {
    key == "type"@ || key == "state_key"@ || key == "sender"@ || key == "content"@
}

/// Those of the four stripped fields that a value holds; a value that is no object holds none.
pub open spec fn stripped_of(v: JsonView) -> Map<Seq<char>, JsonView> {
    Map::new(
        |k: Seq<char>| stripped_field(k) && v.field(k) is Some,
        |k: Seq<char>| v.field(k)->0,
    )
}

fn keep_field(v: &Json, kept: &mut JsonObject, key: &str)
    ensures
        final(kept)@ == match v@.field(key@) {
            Some(x) => old(kept)@.insert(key@, x),
            None => old(kept)@,
        },
{
    if let Some(x) = v.get(key) {
        kept.insert(key.to_owned(), x.duplicate());
    }
}

/// Keeps those of the four stripped fields that a value holds.
pub fn strip_value(v: &Json) -> (r: JsonObject)
    ensures
        r@ == stripped_of(v@),
{
    let mut kept: JsonObject = JsonObject::new();
    keep_field(v, &mut kept, "type");
    keep_field(v, &mut kept, "state_key");
    keep_field(v, &mut kept, "sender");
    keep_field(v, &mut kept, "content");
    assert(kept@ =~= stripped_of(v@));
    kept
}

/// The stripped form of the text of a state event.
pub fn strip_state_event(raw: &str) -> (r: String)
    requires
        codec::parsed_json(raw@) is Some,
    ensures
        r@ == codec::printed(JsonView::Object(stripped_of(codec::parsed_json(raw@)->0))),
{
    match codec::parse(raw) {
        Ok(v) => codec::print(&Json::object(strip_value(&v))),
        Err(_) => vstd::pervasive::unreached(),
    }
}

/// The view of an event, in the timeline of a sync or by itself, where the texts of the events
/// hold what it needs; `None` where they do not.
pub fn checked_timeline_view(
    ev: &Event,
    because: Option<&Event>,
    version: &RoomVersion,
    standalone: bool,
) -> (r: Option<String>)
    ensures
        r is Some == viewable(ev@, option_event(because)),
        r matches Some(s) ==> s@ == codec::printed(
            maybe_redacted_value(
                ev@,
                option_event(because),
                *version,
                if standalone {
                    IncludeRoomId::Always
                } else {
                    IncludeRoomId::OnlyOnCreate
                },
            ),
        ),
{
    if codec::parse_object(ev.raw.as_str()).is_err() {
        return None;
    }
    if let Some(b) = because {
        if canonical_object_of(ev.raw.as_str()).is_none() || codec::parse_object(
            b.raw.as_str(),
        ).is_err() {
            return None;
        }
    }
    if standalone {
        Some(timeline_view(ev, because, version))
    } else {
        Some(sync_timeline_view(ev, because, version))
    }
}

/// The view of an event in the state of a sync, where its text holds an object; `None` where it
/// does not.
pub fn checked_sync_state_event(ev: &Event) -> (r: Option<Result<String, StateEventConversionError>>)
    ensures
        r is Some == holds_object(ev@),
        r matches Some(x) ==> (x is Ok == ev.state_key is Some),
        r matches Some(Ok(s)) ==> s@ == codec::printed(
            client_value(ev@, IncludeRoomId::OnlyOnCreate),
        ),
        r matches Some(Err(StateEventConversionError::NotAStateEvent { event_type })) ==> event_type@
            == ev.event_type@,
{
    if codec::parse_object(ev.raw.as_str()).is_err() {
        None
    } else {
        Some(sync_state_event(ev))
    }
}

/// The stripped form of a state event, where its content is JSON; `None` where it is not.
pub fn checked_stripped_state_event(ev: &Event) -> (r: Option<
    Result<String, StateEventConversionError>,
>)
    ensures
        r is Some == codec::parsed_json(ev.content@) is Some,
        r matches Some(x) ==> (x is Ok == ev.state_key is Some),
        r matches Some(Ok(s)) ==> s@ == codec::printed(
            JsonView::Object(stripped_value(ev@, codec::parsed_json(ev.content@)->0)),
        ),
        r matches Some(Err(StateEventConversionError::NotAStateEvent { event_type })) ==> event_type@
            == ev.event_type@,
{
    if codec::parse(ev.content.as_str()).is_err() {
        None
    } else {
        Some(stripped_state_event(ev))
    }
}

/// The stripped form of the text of a state event, where the text is JSON; `None` where it is
/// not.
pub fn checked_strip_state_event(raw: &str) -> (r: Option<String>)
    ensures
        r is Some == codec::parsed_json(raw@) is Some,
        r matches Some(s) ==> s@ == codec::printed(
            JsonView::Object(stripped_of(codec::parsed_json(raw@)->0)),
        ),
{
    if codec::parse(raw).is_err() {
        None
    } else {
        Some(strip_state_event(raw))
    }
}

/// Every view carries the identifier of the event, keeps every other field of its text but the
/// room, and carries the room exactly where the policy asks for it.
pub proof fn law_views_carry_the_identifiers(
    m: Map<Seq<char>, JsonView>,
    ev: EventView,
    policy: IncludeRoomId,
    key: Seq<char>,
)
    ensures
        json::text_field(enriched(m, ev, policy), "event_id"@) == Some(ev.event_id),
        policy is Always || ev.event_type == "m.room.create"@ ==> json::text_field(
            enriched(m, ev, policy),
            "room_id"@,
        ) == Some(ev.room_id),
        !(policy is Always || ev.event_type == "m.room.create"@) ==> !enriched(
            m,
            ev,
            policy,
        ).contains_key("room_id"@),
        key != "event_id"@ && key != "room_id"@ ==> json::lookup(enriched(m, ev, policy), key)
            == json::lookup(m, key),
{
    reveal_strlit("event_id");
    reveal_strlit("room_id");
    assert("event_id"@.len() == 8);
    assert("room_id"@.len() == 7);
}

/// The view of a redacted event keeps only fields that the version leaves, next to its
/// identifiers, and names the redacting event as the reason.
pub proof fn law_redacted_views_hold_nothing_else(
    left: Map<Seq<char>, JsonView>,
    ev: EventView,
    because: JsonView,
    policy: IncludeRoomId,
    key: Seq<char>,
)
    ensures
        redacted_view(left, ev, because, policy).contains_key(key) ==> left.contains_key(key) || key
            == "event_id"@ || key == "room_id"@ || key == "unsigned"@,
        redacted_view(left, ev, because, policy)["unsigned"@].field("redacted_because"@) == Some(because),
        redacted_view(left, ev, because, policy)["unsigned"@] == JsonView::Object(
            Map::empty().insert("redacted_because"@, because),
        ),
{
}

/// The stripped form holds the four fields and nothing else, each as it was.
pub proof fn law_stripping_keeps_four_fields(v: JsonView, key: Seq<char>)
    ensures
        json::lookup(stripped_of(v), key) == if stripped_field(key) {
            v.field(key)
        } else {
            None
        },
        !(v is Object) ==> stripped_of(v) == Map::<Seq<char>, JsonView>::empty(),
        stripped_of(JsonView::Object(stripped_of(v))) == stripped_of(v),
{
    if !(v is Object) {
        assert(stripped_of(v) =~= Map::<Seq<char>, JsonView>::empty());
    }
    assert(stripped_of(JsonView::Object(stripped_of(v))) =~= stripped_of(v));
}

} // verus!
