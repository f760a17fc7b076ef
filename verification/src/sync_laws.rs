//! What holds of a sync of the older form, field by field.
use crate::codec;
use crate::event;
use crate::json::{Json, JsonView};
use crate::legacy_sync;
use crate::legacy_sync::{Membership, SyncError, SyncRequest, SyncResponse};
use crate::names;
use crate::text;
use vstd::prelude::*;

verus! {

/// Whether a value is the list of the given values, each in its place.
pub open spec fn lists_values(v: Option<JsonView>, items: Seq<Json>) -> bool {
    &&& v matches Some(JsonView::Array(found))
    &&& found.len() == items.len()
    &&& forall|i: int| 0 <= i < items.len() ==> #[trigger] found[i] == items[i].view()
}

/// Whether a value is the list of the given strings, each in its place.
pub open spec fn lists_strings(v: Option<JsonView>, items: Seq<String>) -> bool {
    &&& v matches Some(JsonView::Array(found))
    &&& found.len() == items.len()
    &&& forall|i: int| 0 <= i < items.len() ==> #[trigger] found[i] == JsonView::Text(items[i]@)
}

/// Whether a value is a list of nothing.
pub open spec fn lists_nothing(v: Option<JsonView>) -> bool {
    v matches Some(JsonView::Array(found)) && found.len() == 0
}

/// The entry of a joined room carries the timeline of the room as its timeline and the state of
/// the room as its state, in order, the state under both of its names. A room of which no
/// membership is known and that is no invitation is taken for joined. The room has no other
/// entry.
pub proof fn law_joined_rooms_carry_their_events(
    resp: SyncResponse,
    memberships: Map<Seq<char>, Membership>,
    to_device: Seq<JsonView>,
    room: Seq<char>,
)
    requires
        resp.rooms@.contains_key(room),
        memberships.contains_key(room) ==> memberships[room] == Membership::Join,
        !memberships.contains_key(room) ==> resp.rooms@[room].invite_state is None,
    ensures
        ({
            let rooms = legacy_sync::legacy_view(resp, memberships, to_device).field("rooms"@)->0;
            let entry = rooms.field("join"@)->0.field(room)->0;
            let timeline = entry.field("timeline"@)->0;
            &&& lists_values(timeline.field("events"@), resp.rooms@[room].timeline@)
            &&& timeline.field("limited"@) == Some(JsonView::Bool(false))
            &&& timeline.field("prev_batch"@) == Some(JsonView::Text(seq![]))
            &&& lists_values(
                entry.field("state"@)->0.field("events"@),
                resp.rooms@[room].required_state@,
            )
            &&& lists_values(
                entry.field("org.matrix.msc4222.state_after"@)->0.field("events"@),
                resp.rooms@[room].required_state@,
            )
            &&& lists_nothing(entry.field("account_data"@)->0.field("events"@))
            &&& rooms.field("invite"@)->0.field(room) is None
            &&& rooms.field("leave"@)->0.field(room) is None
            &&& rooms.field("knock"@)->0.field(room) is None
        }),
{
    names::lemma_sync_names();
    names::lemma_bucket_names();
    names::lemma_room_names();
    names::lemma_timeline_names();
    names::lemma_device_list_names();
    reveal_strlit("");
    assert(""@ =~= seq![]);
}

/// The entry of a room that the user left, or was banned from, carries the timeline of the room
/// and its state as that of a joined one does, and no notices. The room has no other entry.
pub proof fn law_left_rooms_carry_their_events(
    resp: SyncResponse,
    memberships: Map<Seq<char>, Membership>,
    to_device: Seq<JsonView>,
    room: Seq<char>,
)
    requires
        resp.rooms@.contains_key(room),
        memberships.contains_key(room),
        memberships[room] == Membership::Leave || memberships[room] == Membership::Ban,
    ensures
        ({
            let rooms = legacy_sync::legacy_view(resp, memberships, to_device).field("rooms"@)->0;
            let entry = rooms.field("leave"@)->0.field(room)->0;
            let timeline = entry.field("timeline"@)->0;
            &&& lists_values(timeline.field("events"@), resp.rooms@[room].timeline@)
            &&& timeline.field("limited"@) == Some(JsonView::Bool(false))
            &&& timeline.field("prev_batch"@) == Some(JsonView::Text(seq![]))
            &&& lists_values(
                entry.field("state"@)->0.field("events"@),
                resp.rooms@[room].required_state@,
            )
            &&& lists_values(
                entry.field("org.matrix.msc4222.state_after"@)->0.field("events"@),
                resp.rooms@[room].required_state@,
            )
            &&& lists_nothing(entry.field("ephemeral"@)->0.field("events"@))
            &&& lists_nothing(entry.field("account_data"@)->0.field("events"@))
            &&& rooms.field("join"@)->0.field(room) is None
            &&& rooms.field("invite"@)->0.field(room) is None
            &&& rooms.field("knock"@)->0.field(room) is None
        }),
{
    names::lemma_sync_names();
    names::lemma_bucket_names();
    names::lemma_room_names();
    names::lemma_timeline_names();
    names::lemma_device_list_names();
    reveal_strlit("");
    assert(""@ =~= seq![]);
}

/// The entry of a room that the user is invited to carries the stripped state that came with the
/// invitation, as it came, and nothing else. A room of which no membership is known and that came
/// with such state is taken for an invitation. The room has no other entry.
pub proof fn law_invitations_carry_their_state(
    resp: SyncResponse,
    memberships: Map<Seq<char>, Membership>,
    to_device: Seq<JsonView>,
    room: Seq<char>,
    other: Seq<char>,
)
    requires
        resp.rooms@.contains_key(room),
        memberships.contains_key(room) ==> memberships[room] == Membership::Invite,
        !memberships.contains_key(room) ==> resp.rooms@[room].invite_state is Some,
    ensures
        ({
            let rooms = legacy_sync::legacy_view(resp, memberships, to_device).field("rooms"@)->0;
            let entry = rooms.field("invite"@)->0.field(room)->0;
            let events = entry.field("invite_state"@)->0.field("events"@);
            &&& resp.rooms@[room].invite_state matches Some(state) ==> lists_values(events, state@)
            &&& resp.rooms@[room].invite_state is None ==> lists_nothing(events)
            &&& other != "invite_state"@ ==> entry.field(other) is None
            &&& rooms.field("join"@)->0.field(room) is None
            &&& rooms.field("leave"@)->0.field(room) is None
            &&& rooms.field("knock"@)->0.field(room) is None
        }),
{
    names::lemma_sync_names();
    names::lemma_bucket_names();
    names::lemma_room_names();
    names::lemma_timeline_names();
    names::lemma_device_list_names();
    reveal_strlit("");
    assert(""@ =~= seq![]);
}

/// The entry of a room that the user knocked at carries the state of the room, in order: of each
/// event its type, state key, sender and content, each as it was, and nothing else. The room has
/// no other entry.
pub proof fn law_knocked_rooms_carry_their_state(
    resp: SyncResponse,
    memberships: Map<Seq<char>, Membership>,
    to_device: Seq<JsonView>,
    room: Seq<char>,
    i: int,
    key: Seq<char>,
)
    requires
        resp.rooms@.contains_key(room),
        memberships.contains_key(room),
        memberships[room] == Membership::Knock,
    ensures
        ({
            let rooms = legacy_sync::legacy_view(resp, memberships, to_device).field("rooms"@)->0;
            let entry = rooms.field("knock"@)->0.field(room)->0;
            let state = resp.rooms@[room].required_state@;
            &&& entry.field("knock_state"@)->0.field("events"@) matches Some(JsonView::Array(events))
            &&& events.len() == state.len()
            &&& 0 <= i < state.len() ==> events[i] is Object && events[i].field(key) == if key
                == "type"@ || key == "state_key"@ || key == "sender"@ || key == "content"@ {
                state[i].view().field(key)
            } else {
                None
            }
            &&& rooms.field("join"@)->0.field(room) is None
            &&& rooms.field("invite"@)->0.field(room) is None
            &&& rooms.field("leave"@)->0.field(room) is None
        }),
{
    names::lemma_sync_names();
    names::lemma_bucket_names();
    names::lemma_room_names();
    names::lemma_timeline_names();
    names::lemma_device_list_names();
    reveal_strlit("");
    assert(""@ =~= seq![]);
}

/// The notices of a joined room are its typing notice and then its receipts, each as its text
/// says, where there is one and it is JSON. A room with a notice has an entry even when nothing
/// else is known of it, and then one without events.
pub proof fn law_joined_rooms_carry_their_notices(
    resp: SyncResponse,
    memberships: Map<Seq<char>, Membership>,
    to_device: Seq<JsonView>,
    room: Seq<char>,
)
    requires
        memberships.contains_key(room),
        memberships[room] == Membership::Join,
    ensures
        ({
            let joins = legacy_sync::legacy_view(resp, memberships, to_device).field(
                "rooms"@,
            )->0.field("join"@)->0;
            let entry = joins.field(room)->0;
            let events = entry.field("ephemeral"@)->0.field("events"@);
            let typing = if resp.typing@.contains_key(room) {
                codec::parsed_json(resp.typing@[room]@)
            } else {
                None
            };
            let receipts = if resp.receipts@.contains_key(room) {
                codec::parsed_json(resp.receipts@[room]@)
            } else {
                None
            };
            &&& typing matches Some(t) ==> (receipts matches Some(r) ==> events == Some(
                JsonView::Array(seq![t, r]),
            ))
            &&& typing matches Some(t) ==> (receipts is None ==> events == Some(
                JsonView::Array(seq![t]),
            ))
            &&& receipts matches Some(r) ==> (typing is None ==> events == Some(
                JsonView::Array(seq![r]),
            ))
            &&& typing is None && receipts is None && resp.rooms@.contains_key(room) ==> lists_nothing(
                events,
            )
            &&& joins.field(room) is Some <==> resp.rooms@.contains_key(room) || typing is Some
                || receipts is Some
            &&& !resp.rooms@.contains_key(room) && joins.field(room) is Some ==> {
                &&& lists_nothing(entry.field("timeline"@)->0.field("events"@))
                &&& lists_nothing(entry.field("state"@)->0.field("events"@))
                &&& lists_nothing(
                    entry.field("org.matrix.msc4222.state_after"@)->0.field("events"@),
                )
            }
        }),
{
    names::lemma_sync_names();
    names::lemma_bucket_names();
    names::lemma_room_names();
    names::lemma_timeline_names();
    names::lemma_device_list_names();
    reveal_strlit("");
    assert(""@ =~= seq![]);
    let typing = legacy_sync::notice_in(resp.typing@, room);
    let receipts = legacy_sync::notice_in(resp.receipts@, room);
    if typing.len() > 0 && receipts.len() > 0 {
        assert(typing + receipts =~= seq![typing[0], receipts[0]]);
    } else if typing.len() > 0 {
        assert(typing + receipts =~= seq![typing[0]]);
    } else if receipts.len() > 0 {
        assert(typing + receipts =~= seq![receipts[0]]);
    }
}

/// A room that the user has not joined carries no notices, and one that is not of the answer has
/// no entry then.
pub proof fn law_notices_are_for_joined_rooms(
    resp: SyncResponse,
    memberships: Map<Seq<char>, Membership>,
    to_device: Seq<JsonView>,
    room: Seq<char>,
)
    requires
        memberships.contains_key(room) ==> memberships[room] != Membership::Join,
    ensures
        ({
            let rooms = legacy_sync::legacy_view(resp, memberships, to_device).field("rooms"@)->0;
            &&& rooms.field("join"@)->0.field(room) matches Some(entry) ==> lists_nothing(
                entry.field("ephemeral"@)->0.field("events"@),
            )
            &&& !resp.rooms@.contains_key(room) ==> {
                &&& rooms.field("join"@)->0.field(room) is None
                &&& rooms.field("invite"@)->0.field(room) is None
                &&& rooms.field("leave"@)->0.field(room) is None
                &&& rooms.field("knock"@)->0.field(room) is None
            }
        }),
{
    names::lemma_sync_names();
    names::lemma_bucket_names();
    names::lemma_room_names();
    names::lemma_timeline_names();
    names::lemma_device_list_names();
    reveal_strlit("");
    assert(""@ =~= seq![]);
}

/// Beside the rooms, a sync carries its position as the token of the next, the messages that wait
/// for the device, the users whose devices changed and those that left, and the counts of keys by
/// algorithm. It carries no presence and no account data.
pub proof fn law_a_sync_carries_what_came(
    resp: SyncResponse,
    memberships: Map<Seq<char>, Membership>,
    to_device: Seq<JsonView>,
    algorithm: Seq<char>,
)
    ensures
        ({
            let body = legacy_sync::legacy_view(resp, memberships, to_device);
            let devices = body.field("device_lists"@)->0;
            &&& body.field("next_batch"@) == Some(JsonView::Text(resp.pos@))
            &&& body.field("to_device"@)->0.field("events"@) == Some(JsonView::Array(to_device))
            &&& lists_strings(devices.field("changed"@), resp.changed@)
            &&& lists_strings(devices.field("left"@), resp.left@)
            &&& body.field("device_one_time_keys_count"@)->0.field(algorithm) == if resp.one_time_keys@.contains_key(
                algorithm,
            ) {
                Some(JsonView::Int(resp.one_time_keys@[algorithm] as int))
            } else {
                None
            }
            &&& lists_nothing(body.field("presence"@)->0.field("events"@))
            &&& lists_nothing(body.field("account_data"@)->0.field("events"@))
        }),
{
    names::lemma_sync_names();
    names::lemma_bucket_names();
    names::lemma_room_names();
    names::lemma_timeline_names();
    names::lemma_device_list_names();
    reveal_strlit("");
    assert(""@ =~= seq![]);
}

/// A failed sync is answered with an error: a position that is not known and a bad request are
/// the client's fault, all else is ours. The body has the code, and says what went wrong.
pub proof fn law_failed_syncs_are_told(e: SyncError)
    ensures
        ({
            let r = legacy_sync::sync_error_view(e);
            let code = r.body.field("errcode"@);
            let words = r.body.field("error"@);
            match e {
                SyncError::UnknownPos => r.status == 400 && code == Some(
                    JsonView::Text("M_UNKNOWN_POS"@),
                ) && words == Some(JsonView::Text("Unknown position"@)),
                SyncError::BadRequest(m) => r.status == 400 && code == Some(
                    JsonView::Text("M_INVALID_PARAM"@),
                ) && words == Some(JsonView::Text(m@)),
                SyncError::Storage(s) => r.status == 500 && code == Some(JsonView::Text("M_UNKNOWN"@))
                    && words == Some(JsonView::Text(s.message@)),
                SyncError::EventConversion(m) => r.status == 500 && code == Some(
                    JsonView::Text("M_UNKNOWN"@),
                ) && words == Some(JsonView::Text(m@)),
            }
        }),
{
    names::lemma_error_names();
}

/// What a request for all rooms asks for: every room from the first to the last, all of its
/// state, its latest events, and typing notices, receipts and keys. It goes over the connection of
/// the older syncs.
pub proof fn law_all_rooms_are_asked_for(req: SyncRequest, name: Seq<char>)
    requires
        legacy_sync::asks_for_all(req),
    ensures
        req.conn_id matches Some(c) && c@ == "__legacy__"@,
        req.lists@.contains_key(name) <==> name == "all"@,
        req.lists@["all"@].ranges@ == seq![(0u64, 9007199254740991u64)],
        req.lists@["all"@].room_details.timeline_limit == 50,
        req.lists@["all"@].room_details.required_state@.len() == 1,
        req.lists@["all"@].room_details.required_state@[0].0@ == "*"@,
        req.lists@["all"@].room_details.required_state@[0].1@ == "*"@,
        !req.room_subscriptions@.contains_key(name),
        req.typing_enabled == Some(true),
        req.receipts_enabled == Some(true),
        req.e2ee_enabled == Some(true),
{
    assert(req.lists@.dom().contains(name) <==> name == legacy_sync::LEGACY_LIST_NAME@);
}

/// The token of a query is its `since`, unless that is empty; its wait is the number of
/// milliseconds that its `timeout` writes in decimal, and none where it writes none that fits.
pub proof fn law_queries_are_read(query: Map<Seq<char>, String>, n: nat)
    ensures
        !query.contains_key("since"@) ==> legacy_sync::since_of(query) is None,
        query.contains_key("since"@) ==> legacy_sync::since_of(query) == if query["since"@]@.len() > 0 {
            Some(query["since"@]@)
        } else {
            None
        },
        !query.contains_key("timeout"@) ==> legacy_sync::timeout_of(query) == 0,
        query.contains_key("timeout"@) && query["timeout"@]@ == text::decimal(n) && n <= u64::MAX
            ==> legacy_sync::timeout_of(query) == n,
        query.contains_key("timeout"@) && text::parsed_number(query["timeout"@]@, u64::MAX + 1) is None
            ==> legacy_sync::timeout_of(query) == 0,
{
    text::lemma_decimal(n);
    assert(text::decimal(n)[0] != '+') by {
        assert('0' <= text::decimal(n)[0] <= '9');
    }
}

/// A letter in lower case; every other character as it is.
pub open spec fn lower(c: char) -> char {
    if 'A' <= c <= 'Z' {
        ((c as u32) + 32) as char
    } else {
        c
    }
}

/// A switch is on exactly when it says `true`, whatever the case of its letters.
pub proof fn law_switches_say_true(s: Seq<char>)
    ensures
        legacy_sync::truthy(s) <==> s.map_values(|c: char| lower(c)) == seq!['t', 'r', 'u', 'e'],
{
    let l = s.map_values(|c: char| lower(c));
    if legacy_sync::truthy(s) {
        assert(l =~= seq!['t', 'r', 'u', 'e']);
    }
    if l == seq!['t', 'r', 'u', 'e'] {
        assert(l.len() == 4);
        assert(l[0] == 't' && l[1] == 'r' && l[2] == 'u' && l[3] == 'e');
        assert(lower(s[0]) == 't' && lower(s[1]) == 'r' && lower(s[2]) == 'u' && lower(s[3]) == 'e');
    }
}

/// A membership on record counts; without one an invitation from elsewhere does, and without
/// either nothing is known.
pub proof fn law_memberships_on_record_win(
    rows: Map<Seq<char>, Membership>,
    invited: Seq<Seq<char>>,
    room: Seq<char>,
)
    ensures
        ({
            let all = legacy_sync::all_memberships(rows, invited);
            &&& rows.contains_key(room) ==> all.contains_key(room) && all[room] == rows[room]
            &&& !rows.contains_key(room) && invited.contains(room) ==> all.contains_key(room)
                && all[room] == Membership::Invite
            &&& !rows.contains_key(room) && !invited.contains(room) ==> !all.contains_key(room)
        }),
{
}

/// A switch of a query is on when the query has it, and it says so.
pub proof fn law_absent_switches_are_off(query: Map<Seq<char>, String>, key: Seq<char>)
    ensures
        legacy_sync::switched_on(query, key) <==> query.contains_key(key) && legacy_sync::truthy(
            query[key]@,
        ),
{
}

} // verus!
