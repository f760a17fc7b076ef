//! What holds of events, field by field: which texts are events, what is read from them, which
//! rules they meet, and how clients are shown them.
use crate::codec;
use crate::event;
use crate::event::{EventView, RoomVersion};
use crate::event_view;
use crate::event_view::IncludeRoomId;
use crate::ids;
use crate::json;
use crate::json::JsonView;
use crate::names;
use crate::validate;
use crate::validate::FormatFault;
use vstd::prelude::*;

verus! {

/// Whether a field holds a string.
pub open spec fn holds_text(m: Map<Seq<char>, JsonView>, field: Seq<char>) -> bool {
    m.contains_key(field) && m[field] is Text
}

/// Whether a field holds a list of event identifiers.
pub open spec fn holds_event_ids(m: Map<Seq<char>, JsonView>, field: Seq<char>) -> bool {
    &&& m.contains_key(field)
    &&& m[field] matches JsonView::Array(items)
    &&& forall|i: int|
        0 <= i < items.len() ==> ((#[trigger] items[i]) matches JsonView::Text(s) && ids::event_id_valid(
            s,
        ))
}

/// Whether the object of an event says that it creates a room.
pub open spec fn says_create(m: Map<Seq<char>, JsonView>) -> bool {
    m.contains_key("type"@) && m["type"@] == JsonView::Text("m.room.create"@)
}

/// Whether the sender of an event is a user.
pub open spec fn sender_ok(m: Map<Seq<char>, JsonView>) -> bool {
    m.contains_key("sender"@) && (m["sender"@] matches JsonView::Text(s) && ids::user_id_valid(s))
}

/// Whether the time of an event is an integer of at least zero that fits in 64 bits.
pub open spec fn time_ok(m: Map<Seq<char>, JsonView>) -> bool {
    m.contains_key("origin_server_ts"@) && (m["origin_server_ts"@] matches JsonView::Int(n) && 0 <= n
        <= u64::MAX)
}

/// Whether the hashes of an event are absent, or strings by name.
pub open spec fn hashes_ok(m: Map<Seq<char>, JsonView>) -> bool {
    m.contains_key("hashes"@) ==> (m["hashes"@] matches JsonView::Object(h) && forall|k: Seq<char>|
        h.contains_key(k) ==> (#[trigger] h[k]) is Text)
}

/// Whether the content of an event is an object.
pub open spec fn content_ok(m: Map<Seq<char>, JsonView>) -> bool {
    m.contains_key("content"@) && m["content"@] is Object
}

/// Whether the state parents of an event are events; only a creation may leave them out.
pub open spec fn state_parents_ok(m: Map<Seq<char>, JsonView>) -> bool {
    holds_event_ids(m, "prev_state_events"@) || (says_create(m) && !m.contains_key(
        "prev_state_events"@,
    ))
}

/// Whether an event is in a room: a creation names none and makes one of its own identifier,
/// every other event names one.
pub open spec fn room_ok(m: Map<Seq<char>, JsonView>, event_id: Seq<char>) -> bool {
    if says_create(m) {
        &&& !m.contains_key("room_id"@)
        &&& event_id.len() > 0
        &&& event_id[0] == '$'
        &&& ids::room_id_valid(seq!['!'] + event_id.skip(1))
    } else {
        m.contains_key("room_id"@) && (m["room_id"@] matches JsonView::Text(s) && ids::room_id_valid(s))
    }
}

/// Whether the state key of an event is absent, or a string.
pub open spec fn state_key_ok(m: Map<Seq<char>, JsonView>) -> bool {
    m.contains_key("state_key"@) ==> m["state_key"@] is Text
}

proof fn lemma_event_ids(items: Seq<JsonView>, field: Seq<char>)
    ensures
        validate::event_ids_fault(items, field) is None <==> forall|i: int|
            0 <= i < items.len() ==> ((#[trigger] items[i]) matches JsonView::Text(s)
                && ids::event_id_valid(s)),
    decreases items.len(),
{
    if items.len() > 0 {
        let front = items.drop_last();
        lemma_event_ids(front, field);
        assert(items[items.len() - 1] == items.last());
        assert forall|i: int| 0 <= i < front.len() implies front[i] == items[i] by {}
        if validate::event_ids_fault(items, field) is None {
            assert forall|i: int| 0 <= i < items.len() implies ((#[trigger] items[i]) matches JsonView::Text(
                s,
            ) && ids::event_id_valid(s)) by {
                if i < front.len() {
                    assert(front[i] == items[i]);
                }
            }
        } else if validate::event_ids_fault(front, field) is Some {
            if forall|i: int|
                0 <= i < items.len() ==> ((#[trigger] items[i]) matches JsonView::Text(s)
                    && ids::event_id_valid(s)) {
                assert forall|i: int| 0 <= i < front.len() implies ((#[trigger] front[i]) matches JsonView::Text(
                    s,
                ) && ids::event_id_valid(s)) by {
                    assert(front[i] == items[i]);
                }
            }
        }
    }
}

proof fn lemma_event_id_array(m: Map<Seq<char>, JsonView>, field: Seq<char>)
    ensures
        validate::event_id_array_fault(m, field) is None <==> holds_event_ids(m, field),
{
    if m.contains_key(field) {
        if let JsonView::Array(items) = m[field] {
            lemma_event_ids(items, field);
        }
    }
}

/// Which objects are events: those with a type, a sender that is a user, a time, a content,
/// parents that are events and a room, with hashes and a state key of the right kind where there
/// are any, and without `auth_events`.
pub proof fn law_which_objects_are_events(m: Map<Seq<char>, JsonView>, event_id: Seq<char>)
    ensures
        validate::parse_fault(m, event_id) is None <==> {
            &&& !m.contains_key("auth_events"@)
            &&& holds_text(m, "type"@)
            &&& sender_ok(m)
            &&& time_ok(m)
            &&& hashes_ok(m)
            &&& content_ok(m)
            &&& holds_event_ids(m, "prev_events"@)
            &&& state_parents_ok(m)
            &&& room_ok(m, event_id)
            &&& state_key_ok(m)
        },
{
    lemma_event_id_array(m, "prev_events"@);
    lemma_event_id_array(m, "prev_state_events"@);
    if m.contains_key("hashes"@) {
        if let JsonView::Object(h) = m["hashes"@] {
            if hashes_ok(m) {
                assert forall|k: Seq<char>| h.contains_key(k) implies #[trigger] h[k].text() is Some by {
                    assert(h[k] is Text);
                }
            } else {
                let k = choose|k: Seq<char>| h.contains_key(k) && !((#[trigger] h[k]) is Text);
                assert(h[k].text() is None);
            }
        }
    }
}

/// What an object is refused for as an event: the first thing that is wrong with it.
pub proof fn law_faults_name_what_is_wrong(m: Map<Seq<char>, JsonView>, event_id: Seq<char>)
    ensures
        ({
            let fault = validate::parse_fault(m, event_id);
            let typed = !m.contains_key("auth_events"@) && holds_text(m, "type"@);
            let sent = typed && sender_ok(m);
            let timed = sent && time_ok(m);
            let hashed = timed && hashes_ok(m);
            let filled = hashed && content_ok(m);
            let rooted = filled && holds_event_ids(m, "prev_events"@);
            let placed = rooted && state_parents_ok(m);
            &&& m.contains_key("auth_events"@) ==> fault == Some(FormatFault::AuthEventsPresent)
            &&& !m.contains_key("auth_events"@) && !m.contains_key("type"@) ==> fault == Some(
                FormatFault::MissingField("type"@),
            )
            &&& !m.contains_key("auth_events"@) && m.contains_key("type"@) && !(m["type"@] is Text)
                ==> fault == Some(
                (FormatFault::InvalidFieldType { field: "type"@, expected: "string"@ }),
            )
            &&& typed && !m.contains_key("sender"@) ==> fault == Some(
                FormatFault::MissingField("sender"@),
            )
            &&& typed && m.contains_key("sender"@) && !(m["sender"@] is Text) ==> fault == Some(
                (FormatFault::InvalidFieldType { field: "sender"@, expected: "string"@ }),
            )
            &&& typed && holds_text(m, "sender"@) && !sender_ok(m) ==> fault == Some(
                (FormatFault::MalformedId { field: "sender"@, value: m["sender"@]->Text_0 }),
            )
            &&& sent && !m.contains_key("origin_server_ts"@) ==> fault == Some(
                FormatFault::MissingField("origin_server_ts"@),
            )
            &&& sent && m.contains_key("origin_server_ts"@) && !time_ok(m) ==> fault == Some(
                (FormatFault::InvalidFieldType {
                    field: "origin_server_ts"@,
                    expected: "unsigned integer"@,
                }),
            )
            &&& timed && m.contains_key("hashes"@) && !(m["hashes"@] is Object) ==> fault == Some(
                (FormatFault::InvalidFieldType { field: "hashes"@, expected: "object"@ }),
            )
            &&& timed && m.contains_key("hashes"@) && m["hashes"@] is Object && !hashes_ok(m) ==> fault
                == Some(
                (FormatFault::InvalidFieldType { field: "hashes"@, expected: "{string: string}"@ }),
            )
            &&& hashed && !m.contains_key("content"@) ==> fault == Some(
                FormatFault::MissingField("content"@),
            )
            &&& hashed && m.contains_key("content"@) && !content_ok(m) ==> fault == Some(
                (FormatFault::InvalidFieldType { field: "content"@, expected: "object"@ }),
            )
            &&& filled && !m.contains_key("prev_events"@) ==> fault == Some(
                FormatFault::MissingField("prev_events"@),
            )
            &&& filled && m.contains_key("prev_events"@) && !(m["prev_events"@] is Array) ==> fault
                == Some(
                (FormatFault::InvalidFieldType { field: "prev_events"@, expected: "array"@ }),
            )
            &&& rooted && !says_create(m) && !m.contains_key("prev_state_events"@) ==> fault == Some(
                FormatFault::MissingField("prev_state_events"@),
            )
            &&& rooted && m.contains_key("prev_state_events"@) && !(m["prev_state_events"@] is Array)
                ==> fault == Some(
                (FormatFault::InvalidFieldType { field: "prev_state_events"@, expected: "array"@ }),
            )
            &&& placed && says_create(m) && m.contains_key("room_id"@) ==> fault == Some(
                FormatFault::CreateHasRoomId,
            )
            &&& placed && !says_create(m) && !m.contains_key("room_id"@) ==> fault == Some(
                FormatFault::MissingField("room_id"@),
            )
            &&& placed && !says_create(m) && m.contains_key("room_id"@) && !(m["room_id"@] is Text)
                ==> fault == Some(
                (FormatFault::InvalidFieldType { field: "room_id"@, expected: "string"@ }),
            )
            &&& placed && !says_create(m) && holds_text(m, "room_id"@) && !room_ok(m, event_id)
                ==> fault == Some(
                (FormatFault::MalformedId { field: "room_id"@, value: m["room_id"@]->Text_0 }),
            )
            &&& placed && room_ok(m, event_id) && !state_key_ok(m) ==> fault == Some(
                (FormatFault::InvalidFieldType { field: "state_key"@, expected: "string"@ }),
            )
        }),
{
    law_which_objects_are_events(m, event_id);
    lemma_event_id_array(m, "prev_events"@);
    lemma_event_id_array(m, "prev_state_events"@);
    lemma_hashes(m);
}

proof fn lemma_hashes(m: Map<Seq<char>, JsonView>)
    ensures
        validate::hashes_fault(m) is None <==> hashes_ok(m),
{
    if m.contains_key("hashes"@) {
        if let JsonView::Object(h) = m["hashes"@] {
            if hashes_ok(m) {
                assert forall|k: Seq<char>| h.contains_key(k) implies #[trigger] h[k].text() is Some by {
                    assert(h[k] is Text);
                }
            } else {
                let k = choose|k: Seq<char>| h.contains_key(k) && !((#[trigger] h[k]) is Text);
                assert(h[k].text() is None);
            }
        }
    }
}

/// A list of parents is refused for its first item that is no event identifier.
pub proof fn law_the_first_bad_parent_is_named(items: Seq<JsonView>, field: Seq<char>, i: int)
    requires
        0 <= i < items.len(),
        forall|j: int|
            0 <= j < i ==> ((#[trigger] items[j]) matches JsonView::Text(s) && ids::event_id_valid(s)),
        !(items[i] matches JsonView::Text(s) && ids::event_id_valid(s)),
    ensures
        validate::event_id_array_fault(Map::empty().insert(field, JsonView::Array(items)), field)
            == Some(
            match items[i] {
                JsonView::Text(s) => FormatFault::MalformedId { field, value: s },
                _ => FormatFault::InvalidFieldType { field, expected: "array of strings"@ },
            },
        ),
    decreases items.len(),
{
    let front = items.drop_last();
    if i < front.len() {
        assert forall|j: int| 0 <= j < i implies ((#[trigger] front[j]) matches JsonView::Text(s)
            && ids::event_id_valid(s)) by {
            assert(front[j] == items[j]);
        }
        law_the_first_bad_parent_is_named(front, field, i);
    } else {
        lemma_event_ids(front, field);
        assert forall|j: int| 0 <= j < front.len() implies ((#[trigger] front[j]) matches JsonView::Text(s)
            && ids::event_id_valid(s)) by {
            assert(front[j] == items[j]);
        }
    }
}

/// Whether a field holds the list of the given strings, each in its place.
pub open spec fn holds_list(m: Map<Seq<char>, JsonView>, field: Seq<char>, items: Seq<Seq<char>>) -> bool {
    &&& m.contains_key(field)
    &&& m[field] matches JsonView::Array(found)
    &&& found.len() == items.len()
    &&& forall|i: int| 0 <= i < items.len() ==> #[trigger] found[i] == JsonView::Text(items[i])
}

/// What is read from an object is what its fields hold: the type, the sender, the time, the state
/// key, the parents and the room of the event are those of the object, and its content is the
/// text of the object's. The identifier and the text are those that were given.
pub proof fn law_events_are_read_as_written(
    m: Map<Seq<char>, JsonView>,
    raw: Seq<char>,
    event_id: Seq<char>,
    auth_events: Seq<Seq<char>>,
)
    requires
        validate::parse_fault(m, event_id) is None,
    ensures
        ({
            let ev = validate::parsed_event(m, raw, event_id, auth_events);
            &&& m.contains_key("type"@) && m["type"@] == JsonView::Text(ev.event_type)
            &&& m.contains_key("sender"@) && m["sender"@] == JsonView::Text(ev.sender)
            &&& m.contains_key("origin_server_ts"@) && m["origin_server_ts"@] == JsonView::Int(
                ev.origin_server_ts,
            )
            &&& m.contains_key("state_key"@) ==> (ev.state_key matches Some(k) && m["state_key"@]
                == JsonView::Text(k))
            &&& !m.contains_key("state_key"@) ==> ev.state_key is None
            &&& holds_list(m, "prev_events"@, ev.prev_events)
            &&& m.contains_key("prev_state_events"@) ==> holds_list(
                m,
                "prev_state_events"@,
                ev.prev_state_events,
            )
            &&& !m.contains_key("prev_state_events"@) ==> ev.prev_state_events.len() == 0
            &&& m["type"@] != JsonView::Text("m.room.create"@) ==> m.contains_key("room_id"@)
                && m["room_id"@] == JsonView::Text(ev.room_id)
            &&& m["type"@] == JsonView::Text("m.room.create"@) ==> ev.room_id == seq!['!']
                + event_id.skip(1)
            &&& m.contains_key("content"@) && ev.content == codec::printed(m["content"@])
            &&& ev.event_id == event_id
            &&& ev.auth_events == auth_events
            &&& ev.raw == raw
            &&& !ev.rejected
            &&& !ev.soft_failed
        }),
{
    law_which_objects_are_events(m, event_id);
}

/// Which events meet the rules that rest on the event alone. `size` is that of the event in
/// canonical JSON, in bytes.
pub open spec fn meets_rules(ev: EventView, size: nat) -> bool {
    &&& size <= 65536
    &&& vstd::utf8::encode_utf8(ev.event_type).len() <= 255
    &&& ev.state_key matches Some(key) ==> vstd::utf8::encode_utf8(key).len() <= 255
    &&& ev.prev_events.len() <= 20
    &&& ev.prev_state_events.len() <= 20
    &&& ev.event_type == "m.room.create"@ ==> ev.prev_events.len() == 0 && ev.prev_state_events.len()
        == 0 && ev.state_key == Some(""@)
    &&& ev.event_type != "m.room.create"@ && ev.event_type != "m.room.member"@ && ev.event_type
        != "m.room.third_party_invite"@ ==> (ev.state_key matches Some(key) ==> (key.len() > 0 && key[0]
        == '@' ==> key == ev.sender))
}

/// Whether the content of the creation of a room is in order: it declares the version that the
/// event is read under, or none, and names further creators by their identifiers, or none.
pub open spec fn create_in_order(content: Map<Seq<char>, JsonView>, version_id: Seq<char>) -> bool {
    &&& content.contains_key("room_version"@) ==> content["room_version"@] == JsonView::Text(version_id)
    &&& content.contains_key("additional_creators"@) ==> {
        &&& content["additional_creators"@] matches JsonView::Array(users)
        &&& forall|i: int|
            0 <= i < users.len() ==> ((#[trigger] users[i]) matches JsonView::Text(u)
                && ids::user_id_valid(u))
    }
}

/// Whether a value is an integer of 64 bits.
pub open spec fn is_integer(v: JsonView) -> bool {
    v matches JsonView::Int(n) && -0x8000_0000_0000_0000 <= n <= 0x7fff_ffff_ffff_ffff
}

/// Whether a field is absent, or an integer.
pub open spec fn integer_or_absent(content: Map<Seq<char>, JsonView>, field: Seq<char>) -> bool {
    content.contains_key(field) ==> is_integer(content[field])
}

/// Whether a field is absent, or an object of integers.
pub open spec fn integers_or_absent(content: Map<Seq<char>, JsonView>, field: Seq<char>) -> bool {
    content.contains_key(field) ==> (content[field] matches JsonView::Object(m) && forall|k: Seq<char>|
        m.contains_key(k) ==> is_integer(#[trigger] m[k]))
}

/// Whether the content of power levels is in order: every level is an integer, and those of users
/// are by user.
pub open spec fn levels_in_order(content: Map<Seq<char>, JsonView>) -> bool {
    &&& integer_or_absent(content, "users_default"@)
    &&& integer_or_absent(content, "events_default"@)
    &&& integer_or_absent(content, "state_default"@)
    &&& integer_or_absent(content, "ban"@)
    &&& integer_or_absent(content, "redact"@)
    &&& integer_or_absent(content, "kick"@)
    &&& integer_or_absent(content, "invite"@)
    &&& integers_or_absent(content, "events"@)
    &&& integers_or_absent(content, "notifications"@)
    &&& integers_or_absent(content, "users"@)
    &&& content.contains_key("users"@) ==> forall|k: Seq<char>|
        (content["users"@]->Object_0).contains_key(k) ==> #[trigger] ids::user_id_valid(k)
}

proof fn lemma_level(content: Map<Seq<char>, JsonView>, field: Seq<char>)
    ensures
        validate::level_fault(content, field) is None <==> integer_or_absent(content, field),
{
}

proof fn lemma_table(content: Map<Seq<char>, JsonView>, field: Seq<char>)
    ensures
        validate::table_fault(content, field) is None <==> integers_or_absent(content, field),
        content.contains_key(field) ==> (validate::levels_table(content[field]) <==> integers_or_absent(
            content,
            field,
        )),
{
    if content.contains_key(field) {
        if let JsonView::Object(m) = content[field] {
            if integers_or_absent(content, field) {
                assert forall|k: Seq<char>| m.contains_key(k) implies validate::is_level(
                    #[trigger] m[k],
                ) by {
                    assert(is_integer(m[k]));
                }
            }
            if validate::levels_table(content[field]) {
                assert forall|k: Seq<char>| m.contains_key(k) implies is_integer(#[trigger] m[k]) by {
                    assert(validate::is_level(m[k]));
                }
            }
        }
    }
}

proof fn lemma_levels(content: Map<Seq<char>, JsonView>)
    ensures
        validate::power_levels_fault(content) is None <==> levels_in_order(content),
{
    lemma_table(content, "events"@);
    lemma_table(content, "notifications"@);
    lemma_table(content, "users"@);
    lemma_level(content, "users_default"@);
    lemma_level(content, "events_default"@);
    lemma_level(content, "state_default"@);
    lemma_level(content, "ban"@);
    lemma_level(content, "redact"@);
    lemma_level(content, "kick"@);
    lemma_level(content, "invite"@);
}

proof fn lemma_create(content: Map<Seq<char>, JsonView>, version_id: Seq<char>)
    ensures
        validate::create_content_fault(content, version_id) is None <==> create_in_order(
            content,
            version_id,
        ),
{
    if content.contains_key("additional_creators"@) {
        if let JsonView::Array(users) = content["additional_creators"@] {
            if create_in_order(content, version_id) {
                assert forall|i: int| 0 <= i < users.len() implies ((#[trigger] users[i]).text() matches Some(
                    s,
                ) && ids::user_id_valid(s)) by {
                    assert(users[i] is Text);
                }
            }
            if validate::users_list(content["additional_creators"@]) {
                assert forall|i: int| 0 <= i < users.len() implies ((#[trigger] users[i]) matches JsonView::Text(
                    u,
                ) && ids::user_id_valid(u)) by {
                    assert(users[i].text() is Some);
                }
            }
        }
    }
}

/// Which events are valid under a room version: those whose text is an object in canonical JSON,
/// that are not too large and meet the rules on parents and state keys, and whose content is in
/// order where their type has rules for it.
pub proof fn law_which_events_are_valid(ev: EventView, version_id: Seq<char>)
    ensures
        validate::pdu_fault(ev, version_id) is None <==> {
            &&& codec::parsed_json(ev.raw) matches Some(wire)
            &&& wire is Object
            &&& codec::canonical(wire)
            &&& meets_rules(ev, vstd::utf8::encode_utf8(codec::printed(wire)).len())
            &&& ev.event_type == "m.room.create"@ ==> (codec::parsed_json(ev.content) matches Some(
                JsonView::Object(content),
            ) && create_in_order(content, version_id))
            &&& ev.event_type == "m.room.member"@ ==> (codec::parsed_json(ev.content) matches Some(
                JsonView::Object(content),
            ) && ev.state_key is Some && holds_text(content, "membership"@))
            &&& ev.event_type == "m.room.power_levels"@ ==> (codec::parsed_json(ev.content) matches Some(
                JsonView::Object(content),
            ) && levels_in_order(content))
        },
{
    if let Some(JsonView::Object(content)) = codec::parsed_json(ev.content) {
        lemma_levels(content);
        lemma_create(content, version_id);
    }
    lemma_ruled_types();
}

proof fn lemma_ruled_types()
    ensures
        "m.room.create"@ != "m.room.member"@,
        "m.room.create"@ != "m.room.power_levels"@,
        "m.room.member"@ != "m.room.power_levels"@,
{
    reveal_strlit("m.room.create");
    reveal_strlit("m.room.member");
    reveal_strlit("m.room.power_levels");
    assert("m.room.create"@[7] != "m.room.member"@[7]);
    assert("m.room.create"@.len() != "m.room.power_levels"@.len());
    assert("m.room.member"@.len() != "m.room.power_levels"@.len());
}

/// What an event is refused for that breaks one rule on its size, parents or state key and none
/// before it.
pub proof fn law_broken_rules_are_named(ev: EventView, size: nat)
    ensures
        ({
            let fault = validate::shape_fault(ev, size);
            let small = size <= 65536;
            let named = small && vstd::utf8::encode_utf8(ev.event_type).len() <= 255;
            let keyed = named && (ev.state_key matches Some(key) ==> vstd::utf8::encode_utf8(key).len()
                <= 255);
            let sized = keyed && ev.prev_events.len() <= 20 && ev.prev_state_events.len() <= 20;
            let creates = ev.event_type == "m.room.create"@;
            &&& !small ==> fault == Some(FormatFault::EventTooLarge)
            &&& small && !named ==> fault == Some(FormatFault::FieldTooLong("type"@))
            &&& named && !keyed ==> fault == Some(FormatFault::FieldTooLong("state_key"@))
            &&& keyed && ev.prev_events.len() > 20 ==> fault == Some(FormatFault::TooManyPrevEvents)
            &&& keyed && ev.prev_events.len() <= 20 && ev.prev_state_events.len() > 20 ==> fault == Some(
                FormatFault::TooManyPrevStateEvents,
            )
            &&& sized && creates && ev.prev_events.len() > 0 ==> fault == Some(
                FormatFault::CreateHasPrevEvents,
            )
            &&& sized && creates && ev.prev_events.len() == 0 && ev.prev_state_events.len() > 0 ==> fault
                == Some(FormatFault::CreateHasPrevStateEvents)
            &&& sized && creates && ev.prev_events.len() == 0 && ev.prev_state_events.len() == 0
                && ev.state_key != Some(""@) ==> fault == Some(FormatFault::CreateBadStateKey)
            &&& sized && !creates && fault is Some ==> fault == Some(
                FormatFault::StateKeyAtSignSenderMismatch,
            )
        }),
{
}

/// What an event whose content breaks a rule is refused for: the first field that is wrong.
pub proof fn law_broken_content_is_named(
    ev: EventView,
    content: Map<Seq<char>, JsonView>,
    version_id: Seq<char>,
    field: Seq<char>,
)
    ensures
        ({
            let create = validate::create_content_fault(content, version_id);
            let member = validate::member_fault(content, ev.state_key);
            let declared = content["room_version"@];
            &&& content.contains_key("room_version"@) && !(declared is Text) ==> create == Some(
                (FormatFault::InvalidFieldType {
                    field: "content.room_version"@,
                    expected: "string"@,
                }),
            )
            &&& content.contains_key("room_version"@) && (declared matches JsonView::Text(v) && v
                != version_id) ==> create == Some(
                FormatFault::UnrecognisedRoomVersion(declared->Text_0),
            )
            &&& (content.contains_key("room_version"@) ==> declared == JsonView::Text(version_id))
                && create is Some ==> create == Some(FormatFault::InvalidAdditionalCreators)
            &&& ev.state_key is None ==> member == Some(FormatFault::MemberMissingStateKey)
            &&& ev.state_key is Some && !holds_text(content, "membership"@) ==> member == Some(
                FormatFault::MemberMissingMembership,
            )
            &&& !integer_or_absent(content, field) ==> validate::level_fault(content, field) == Some(
                FormatFault::PowerLevelsBadIntField(field),
            )
            &&& !integers_or_absent(content, field) ==> validate::table_fault(content, field) == Some(
                FormatFault::PowerLevelsBadObjectField(field),
            )
            &&& validate::content_rule_fault(ev, content, version_id) == if ev.event_type
                == "m.room.create"@ {
                create
            } else if ev.event_type == "m.room.member"@ {
                member
            } else if ev.event_type == "m.room.power_levels"@ {
                validate::power_levels_fault(content)
            } else {
                None
            }
        }),
{
    lemma_create(content, version_id);
    lemma_level(content, field);
    lemma_table(content, field);
}

/// An event is kept as rejected, and not dropped, exactly for a state key that names another user
/// than the sender, a membership without a state key or without a membership, and power levels
/// that are not integers.
pub proof fn law_which_faults_reject(fault: FormatFault)
    ensures
        validate::breaks_auth_rule(fault) <==> {
            ||| fault is StateKeyAtSignSenderMismatch
            ||| fault is MemberMissingStateKey
            ||| fault is MemberMissingMembership
            ||| fault is PowerLevelsBadIntField
            ||| fault is PowerLevelsBadObjectField
            ||| fault is PowerLevelsBadUsers
        },
{
}

/// What stands under a key of the object that the text of an event holds.
pub open spec fn raw_field(ev: EventView, key: Seq<char>) -> Option<JsonView> {
    match codec::parsed_object(ev.raw) {
        Some(m) => if m.contains_key(key) {
            Some(m[key])
        } else {
            None
        },
        None => None,
    }
}

/// A view of an event carries its identifier, and its room where every event is to carry it or
/// the event creates the room, and else no room. Every other field is that of its text.
pub proof fn law_views_show_the_event(ev: EventView, policy: IncludeRoomId, key: Seq<char>)
    requires
        event_view::holds_object(ev),
    ensures
        codec::parsed_object(ev.raw) is Some,
        ({
            let shown = event_view::client_value(ev, policy);
            &&& shown.field("event_id"@) == Some(JsonView::Text(ev.event_id))
            &&& shown.field("room_id"@) == if policy is Always || ev.event_type == "m.room.create"@ {
                Some(JsonView::Text(ev.room_id))
            } else {
                None
            }
            &&& key != "event_id"@ && key != "room_id"@ ==> shown.field(key) == raw_field(ev, key)
        }),
{
    names::lemma_view_names();
}

/// A view of an event that was redacted says so: it carries the redacting event, with its
/// identifier and room, as the reason, and nothing else under `unsigned`. Of its own fields it
/// carries those that version 12 leaves, with those that its room version keeps beside them and
/// without those that it drops.
pub proof fn law_redacted_views_show_what_is_left(
    ev: EventView,
    because: EventView,
    version: RoomVersion,
    policy: IncludeRoomId,
    left: Map<Seq<char>, JsonView>,
    key: Seq<char>,
)
    requires
        event_view::holds_canonical_object(ev),
        event_view::holds_object(because),
        event_view::redacted_v12(codec::parsed_object(ev.raw)->0) == Some(left),
    ensures
        ({
            let shown = event_view::maybe_redacted_value(ev, Some(because), version, policy);
            let reason = shown.field("unsigned"@)->0.field("redacted_because"@)->0;
            let added = exists|i: int|
                0 <= i < version.redaction_keys.added@.len()
                    && (#[trigger] version.redaction_keys.added@[i])@ == key;
            let removed = exists|i: int|
                0 <= i < version.redaction_keys.removed@.len()
                    && (#[trigger] version.redaction_keys.removed@[i])@ == key;
            &&& shown.field("event_id"@) == Some(JsonView::Text(ev.event_id))
            &&& shown.field("room_id"@) == if policy is Always || ev.event_type == "m.room.create"@ {
                Some(JsonView::Text(ev.room_id))
            } else {
                None
            }
            &&& reason.field("event_id"@) == Some(JsonView::Text(because.event_id))
            &&& reason.field("room_id"@) == Some(JsonView::Text(because.room_id))
            &&& key != "event_id"@ && key != "room_id"@ ==> reason.field(key) == raw_field(
                because,
                key,
            )
            &&& key != "redacted_because"@ ==> shown.field("unsigned"@)->0.field(key) is None
            &&& key != "event_id"@ && key != "room_id"@ && key != "unsigned"@ ==> shown.field(key)
                == if removed {
                None
            } else if added && raw_field(ev, key) is Some {
                raw_field(ev, key)
            } else if left.contains_key(key) {
                Some(left[key])
            } else {
                None
            }
        }),
{
    names::lemma_view_names();
    let added = event::views(version.redaction_keys.added@);
    let removed = event::views(version.redaction_keys.removed@);
    assert(added.to_set().contains(key) <==> exists|i: int|
        0 <= i < version.redaction_keys.added@.len() && (#[trigger] version.redaction_keys.added@[i])@
            == key) by {
        if added.contains(key) {
            let i = added.index_of(key);
            assert(version.redaction_keys.added@[i]@ == key);
        }
        if exists|i: int|
            0 <= i < version.redaction_keys.added@.len()
                && (#[trigger] version.redaction_keys.added@[i])@ == key {
            let i = choose|i: int|
                0 <= i < version.redaction_keys.added@.len()
                    && (#[trigger] version.redaction_keys.added@[i])@ == key;
            assert(added[i] == key);
        }
    }
    assert(removed.to_set().contains(key) <==> exists|i: int|
        0 <= i < version.redaction_keys.removed@.len()
            && (#[trigger] version.redaction_keys.removed@[i])@ == key) by {
        if removed.contains(key) {
            let i = removed.index_of(key);
            assert(version.redaction_keys.removed@[i]@ == key);
        }
        if exists|i: int|
            0 <= i < version.redaction_keys.removed@.len()
                && (#[trigger] version.redaction_keys.removed@[i])@ == key {
            let i = choose|i: int|
                0 <= i < version.redaction_keys.removed@.len()
                    && (#[trigger] version.redaction_keys.removed@[i])@ == key;
            assert(removed[i] == key);
        }
    }
    law_views_show_the_event(because, IncludeRoomId::Always, key);
}

/// An event that nothing redacts, or that cannot be redacted, is shown as it is.
pub proof fn law_other_events_are_shown_as_they_are(
    ev: EventView,
    because: EventView,
    version: RoomVersion,
    policy: IncludeRoomId,
    key: Seq<char>,
)
    requires
        event_view::holds_object(ev),
    ensures
        ({
            let plain = event_view::maybe_redacted_value(ev, None, version, policy);
            let kept = event_view::maybe_redacted_value(ev, Some(because), version, policy);
            &&& plain.field("event_id"@) == Some(JsonView::Text(ev.event_id))
            &&& key != "event_id"@ && key != "room_id"@ ==> plain.field(key) == raw_field(ev, key)
            &&& event_view::redacted_v12(codec::parsed_object(ev.raw)->0) is None ==> kept == plain
        }),
{
    law_views_show_the_event(ev, policy, key);
}

/// The stripped form of a state event holds the type, the state key and the sender of the event
/// and the content that is given, and nothing else.
pub proof fn law_stripped_events_show_the_event(
    ev: EventView,
    state_key: Seq<char>,
    content: JsonView,
    key: Seq<char>,
)
    requires
        ev.state_key == Some(state_key),
    ensures
        ({
            let shown = JsonView::Object(event_view::stripped_value(ev, content));
            &&& shown.field("type"@) == Some(JsonView::Text(ev.event_type))
            &&& shown.field("state_key"@) == Some(JsonView::Text(state_key))
            &&& shown.field("sender"@) == Some(JsonView::Text(ev.sender))
            &&& shown.field("content"@) == Some(content)
            &&& key != "type"@ && key != "state_key"@ && key != "sender"@ && key != "content"@
                ==> shown.field(key) is None
        }),
{
    names::lemma_stripped_names();
}

/// To strip a value keeps its type, state key, sender and content, each as it was and only where
/// it has them, and nothing else.
pub proof fn law_stripping_keeps_what_it_names(v: JsonView, key: Seq<char>)
    ensures
        JsonView::Object(event_view::stripped_of(v)).field(key) == if key == "type"@ || key
            == "state_key"@ || key == "sender"@ || key == "content"@ {
            v.field(key)
        } else {
            None
        },
{
}

/// The first power level that is out of order is named, the tables behind the single levels, and
/// those of users last.
pub proof fn law_the_first_bad_level_is_named(content: Map<Seq<char>, JsonView>)
    ensures
        ({
            let fault = validate::power_levels_fault(content);
            let a = integer_or_absent(content, "users_default"@);
            let b = a && integer_or_absent(content, "events_default"@);
            let c = b && integer_or_absent(content, "state_default"@);
            let d = c && integer_or_absent(content, "ban"@);
            let e = d && integer_or_absent(content, "redact"@);
            let f = e && integer_or_absent(content, "kick"@);
            let g = f && integer_or_absent(content, "invite"@);
            let h = g && integers_or_absent(content, "events"@);
            let i = h && integers_or_absent(content, "notifications"@);
            &&& !a ==> fault == Some(FormatFault::PowerLevelsBadIntField("users_default"@))
            &&& a && !b ==> fault == Some(FormatFault::PowerLevelsBadIntField("events_default"@))
            &&& b && !c ==> fault == Some(FormatFault::PowerLevelsBadIntField("state_default"@))
            &&& c && !d ==> fault == Some(FormatFault::PowerLevelsBadIntField("ban"@))
            &&& d && !e ==> fault == Some(FormatFault::PowerLevelsBadIntField("redact"@))
            &&& e && !f ==> fault == Some(FormatFault::PowerLevelsBadIntField("kick"@))
            &&& f && !g ==> fault == Some(FormatFault::PowerLevelsBadIntField("invite"@))
            &&& g && !h ==> fault == Some(FormatFault::PowerLevelsBadObjectField("events"@))
            &&& h && !i ==> fault == Some(FormatFault::PowerLevelsBadObjectField("notifications"@))
            &&& i && !levels_in_order(content) ==> fault == Some(FormatFault::PowerLevelsBadUsers)
        }),
{
    lemma_levels(content);
    lemma_table(content, "events"@);
    lemma_table(content, "notifications"@);
    lemma_level(content, "users_default"@);
    lemma_level(content, "events_default"@);
    lemma_level(content, "state_default"@);
    lemma_level(content, "ban"@);
    lemma_level(content, "redact"@);
    lemma_level(content, "kick"@);
    lemma_level(content, "invite"@);
}

/// A text that is not JSON, or that canonical JSON has no form for, is refused as JSON, and one
/// that holds no object for its kind, before any other rule; behind these come the rules on the
/// event, and those on its content last.
pub proof fn law_texts_are_judged_first(ev: EventView, version_id: Seq<char>)
    ensures
        ({
            let fault = validate::pdu_fault(ev, version_id);
            let wire = codec::parsed_json(ev.raw);
            let sound = wire matches Some(v) && codec::canonical(v);
            let shape = validate::shape_fault(
                ev,
                vstd::utf8::encode_utf8(codec::printed(wire->0)).len(),
            );
            let ruled = ev.event_type == "m.room.create"@ || ev.event_type == "m.room.member"@
                || ev.event_type == "m.room.power_levels"@;
            &&& !sound ==> fault == Some(FormatFault::InvalidJson)
            &&& sound && !(wire->0 is Object) ==> fault == Some(
                (FormatFault::InvalidFieldType { field: "<root>"@, expected: "object"@ }),
            )
            &&& sound && wire->0 is Object && shape is Some ==> fault == shape
            &&& sound && wire->0 is Object && shape is None && !ruled ==> fault is None
            &&& sound && wire->0 is Object && shape is None && ruled ==> match codec::parsed_json(
                ev.content,
            ) {
                None => fault == Some(FormatFault::InvalidJson),
                Some(JsonView::Object(content)) => fault == validate::content_rule_fault(
                    ev,
                    content,
                    version_id,
                ),
                Some(_) => fault == Some(
                    (FormatFault::InvalidFieldType { field: "content"@, expected: "object"@ }),
                ),
            }
        }),
{
}

/// A creation makes the room of its own identifier, with an exclamation mark in place of the
/// dollar sign; one whose identifier makes none is refused for it.
pub proof fn law_creations_make_their_room(m: Map<Seq<char>, JsonView>, event_id: Seq<char>)
    requires
        says_create(m),
        !m.contains_key("room_id"@),
    ensures
        ({
            let fault = validate::room_fault(m, event_id);
            let room = seq!['!'] + event_id.skip(1);
            &&& event_id.len() == 0 || event_id[0] != '$' ==> fault == Some(
                (FormatFault::MalformedId {
                    field: "event_id (for room_id derivation)"@,
                    value: event_id,
                }),
            )
            &&& event_id.len() > 0 && event_id[0] == '$' ==> fault == if ids::room_id_valid(room) {
                None
            } else {
                Some((FormatFault::MalformedId { field: "room_id (derived)"@, value: room }))
            }
        }),
{
}

/// An event can be shown when its text is an object; to be shown redacted, the object has to have
/// a form in canonical JSON, and the text of the redacting event has to be an object too.
pub proof fn law_which_events_can_be_shown(ev: EventView, because: EventView)
    ensures
        event_view::viewable(ev, None) <==> codec::parsed_object(ev.raw) is Some,
        event_view::viewable(ev, Some(because)) <==> (codec::parsed_object(ev.raw) matches Some(m)
            && codec::canonical(JsonView::Object(m))) && codec::parsed_object(because.raw) is Some,
{
}

} // verus!
