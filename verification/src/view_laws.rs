//! The mathematical view of a value says what the value holds, part by part.
use crate::account_data;
use crate::account_data::{AccountDataState, Change};
use crate::codec;
use crate::e2ee;
use crate::e2ee::{E2eeSnapshot, E2eeState, ParsedSnapshot};
use crate::edus;
use crate::edus::{EduAction, EduActionView};
use crate::engine::ForwardExtremities;
use crate::ephemeral::{EphemeralState, ReadReceipt};
use crate::event;
use crate::event::Event;
use crate::join;
use crate::join::{JoinFailure, RunningJoins};
use crate::json;
use crate::json::{Json, JsonView};
use crate::key_store;
use crate::key_store::{Op, OpView};
use crate::names;
use crate::reception::TxnKey;
use crate::reply::Reply;
use crate::send;
use crate::send::Progress;
use crate::validate;
use crate::validate::{FormatError, FormatFault};
use vstd::prelude::*;

verus! {

/// Lists of strings, of values and of pairs are what their items are, each in its place, and what
/// may be absent is what it is where it is there.
pub proof fn law_lists_are_their_items(
    strings: Seq<String>,
    values: Seq<Json>,
    pairs: Seq<(String, Json)>,
    s: Option<String>,
    i: int,
)
    ensures
        event::views(strings).len() == strings.len(),
        json::array_view(values).len() == values.len(),
        key_store::pairs_view(pairs).len() == pairs.len(),
        0 <= i < strings.len() ==> event::views(strings)[i] == strings[i]@,
        0 <= i < values.len() ==> json::array_view(values)[i] == values[i].view(),
        0 <= i < pairs.len() ==> key_store::pairs_view(pairs)[i] == (pairs[i].0@, pairs[i].1.view()),
        s matches Some(t) ==> event::option_view(s) == Some(t@),
        s is None ==> event::option_view(s) is None,
{
}

/// An event is its fields.
pub proof fn law_events_are_their_fields(ev: Event, i: int)
    ensures
        ev@.event_id == ev.event_id@,
        ev@.room_id == ev.room_id@,
        ev@.sender == ev.sender@,
        ev@.event_type == ev.event_type@,
        ev.state_key matches Some(k) ==> ev@.state_key == Some(k@),
        ev.state_key is None ==> ev@.state_key is None,
        ev@.origin_server_ts == ev.origin_server_ts,
        ev@.content == ev.content@,
        ev@.prev_events.len() == ev.prev_events@.len(),
        0 <= i < ev.prev_events@.len() ==> ev@.prev_events[i] == ev.prev_events@[i]@,
        ev@.prev_state_events.len() == ev.prev_state_events@.len(),
        0 <= i < ev.prev_state_events@.len() ==> ev@.prev_state_events[i] == ev.prev_state_events@[i]@,
        ev@.auth_events.len() == ev.auth_events@.len(),
        0 <= i < ev.auth_events@.len() ==> ev@.auth_events[i] == ev.auth_events@[i]@,
        ev@.rejected == ev.rejected,
        ev@.soft_failed == ev.soft_failed,
        ev@.raw == ev.raw@,
{
}

/// A fault of format is its kind, and names what the error names.
pub proof fn law_faults_are_their_errors(e: FormatError)
    ensures
        match e {
            FormatError::InvalidJson(_) => e@ is InvalidJson,
            FormatError::MissingField(f) => e@ == FormatFault::MissingField(f@),
            FormatError::InvalidFieldType { field, expected } => e@ == (FormatFault::InvalidFieldType {
                field: field@,
                expected: expected@,
            }),
            FormatError::MalformedId { field, value } => e@ == (FormatFault::MalformedId {
                field: field@,
                value: value@,
            }),
            FormatError::NonCanonical(_) => e@ is NonCanonical,
            FormatError::EventTooLarge => e@ is EventTooLarge,
            FormatError::FieldTooLong(f) => e@ == FormatFault::FieldTooLong(f@),
            FormatError::AuthEventsPresent => e@ is AuthEventsPresent,
            FormatError::TooManyPrevEvents => e@ is TooManyPrevEvents,
            FormatError::TooManyPrevStateEvents => e@ is TooManyPrevStateEvents,
            FormatError::CreateHasPrevEvents => e@ is CreateHasPrevEvents,
            FormatError::CreateHasPrevStateEvents => e@ is CreateHasPrevStateEvents,
            FormatError::CreateHasRoomId => e@ is CreateHasRoomId,
            FormatError::CreateBadStateKey => e@ is CreateBadStateKey,
            FormatError::UnrecognisedRoomVersion(v) => e@ == FormatFault::UnrecognisedRoomVersion(v@),
            FormatError::InvalidAdditionalCreators => e@ is InvalidAdditionalCreators,
            FormatError::MemberMissingStateKey => e@ is MemberMissingStateKey,
            FormatError::MemberMissingMembership => e@ is MemberMissingMembership,
            FormatError::StateKeyAtSignSenderMismatch => e@ is StateKeyAtSignSenderMismatch,
            FormatError::PowerLevelsBadIntField(f) => e@ == FormatFault::PowerLevelsBadIntField(f@),
            FormatError::PowerLevelsBadObjectField(f) => e@ == FormatFault::PowerLevelsBadObjectField(
                f@,
            ),
            FormatError::PowerLevelsBadUsers => e@ is PowerLevelsBadUsers,
            FormatError::SignatureCheck(m) => e@ == FormatFault::SignatureCheck(m@),
            FormatError::EventId(m) => e@ == FormatFault::EventId(m@),
        },
{
}

/// What each fault of format is called.
pub proof fn law_faults_are_told_in_words(fault: FormatFault)
    ensures
        validate::fault_words(fault) == match fault {
            FormatFault::InvalidJson => "invalid JSON: "@,
            FormatFault::MissingField(f) => "missing required field: "@ + f,
            FormatFault::InvalidFieldType { field, expected } => "field `"@ + field
                + "` has wrong shape, expected "@ + expected,
            FormatFault::MalformedId { field, value } => "field `"@ + field
                + "` contains malformed id: "@ + value,
            FormatFault::NonCanonical => "event JSON is not canonical-JSON encodable: "@,
            FormatFault::EventTooLarge => "event exceeds 65536 bytes as canonical JSON"@,
            FormatFault::FieldTooLong(f) => "field `"@ + f + "` exceeds 255 bytes"@,
            FormatFault::AuthEventsPresent =>
                "auth_events field is not permitted on the wire under MSC4242"@,
            FormatFault::TooManyPrevEvents => "prev_events exceeds 20 entries"@,
            FormatFault::TooManyPrevStateEvents => "prev_state_events exceeds 20 entries"@,
            FormatFault::CreateHasPrevEvents => "m.room.create event has prev_events"@,
            FormatFault::CreateHasPrevStateEvents => "m.room.create event has prev_state_events"@,
            FormatFault::CreateHasRoomId => "m.room.create event has a room_id field"@,
            FormatFault::CreateBadStateKey =>
                "m.room.create event has a non-empty or missing state_key"@,
            FormatFault::UnrecognisedRoomVersion(v) => "unrecognised room_version: "@ + v,
            FormatFault::InvalidAdditionalCreators =>
                "additional_creators is not an array of valid user ids"@,
            FormatFault::MemberMissingStateKey => "m.room.member event missing state_key"@,
            FormatFault::MemberMissingMembership => "m.room.member event missing content.membership"@,
            FormatFault::StateKeyAtSignSenderMismatch =>
                "state_key starts with @ but does not match sender"@,
            FormatFault::PowerLevelsBadIntField(f) => "power_levels field `"@ + f
                + "` is not an integer"@,
            FormatFault::PowerLevelsBadObjectField(f) => "power_levels field `"@ + f
                + "` is not an object of integer values"@,
            FormatFault::PowerLevelsBadUsers =>
                "power_levels users field is not {valid-user-id: int}"@,
            FormatFault::SignatureCheck(m) => "signature check failed: "@ + m,
            FormatFault::EventId(m) => "cannot derive event id: "@ + m,
        },
{
}

/// A change of the journal is what it names.
pub proof fn law_changes_are_what_they_name(op: Op, i: int)
    ensures
        match op {
            Op::PutDevice { user, device, keys } => op@ == (OpView::PutDevice {
                user: user@,
                device: device@,
                keys: keys.view(),
            }),
            Op::PutOneTimeKeys { user, device, one_time } => {
                &&& op@ matches OpView::PutOneTimeKeys { user: u, device: d, one_time: keys }
                &&& u == user@
                &&& d == device@
                &&& keys.len() == one_time@.len()
                &&& 0 <= i < keys.len() ==> keys[i] == (one_time@[i].0@, one_time@[i].1.view())
            },
            Op::RemoveOneTimeKey { user, device, key_id } => op@ == (OpView::RemoveOneTimeKey {
                user: user@,
                device: device@,
                key_id: key_id@,
            }),
            Op::PutCrossSigning { name, value } => op@ == (OpView::PutCrossSigning {
                name: name@,
                value: value.view(),
            }),
            Op::PushToDevice { id, user, event } => op@ == (OpView::PushToDevice {
                id: id as int,
                user: user@,
                event: event.view(),
            }),
            Op::RemoveToDevice { ids } => op@ matches OpView::RemoveToDevice { ids: n } && n.len()
                == ids@.len() && (0 <= i < n.len() ==> n[i] == ids@[i]),
        },
{
}

/// The rows of a store are what they hold: each is by its user, device and identifier, and its
/// value is what its text says.
pub proof fn law_rows_are_what_they_hold(rows: E2eeSnapshot, parsed: ParsedSnapshot, i: int)
    ensures
        rows@.devices.len() == rows.devices@.len(),
        rows@.one_time_keys.len() == rows.one_time_keys@.len(),
        rows@.cross_signing.len() == rows.cross_signing@.len(),
        rows@.to_device.len() == rows.to_device@.len(),
        0 <= i < rows.devices@.len() ==> rows@.devices[i] == (
            rows.devices@[i].0@,
            rows.devices@[i].1@,
            codec::parsed_json(rows.devices@[i].2@),
        ),
        0 <= i < rows.one_time_keys@.len() ==> rows@.one_time_keys[i] == (
            rows.one_time_keys@[i].0@,
            rows.one_time_keys@[i].1@,
            rows.one_time_keys@[i].2@,
            codec::parsed_json(rows.one_time_keys@[i].3@),
        ),
        0 <= i < rows.cross_signing@.len() ==> rows@.cross_signing[i] == (
            rows.cross_signing@[i].0@,
            codec::parsed_json(rows.cross_signing@[i].1@),
        ),
        0 <= i < rows.to_device@.len() ==> rows@.to_device[i] == (
            rows.to_device@[i].0 as int,
            rows.to_device@[i].1@,
            codec::parsed_json(rows.to_device@[i].2@),
        ),
        0 <= i < parsed.devices@.len() ==> parsed@.devices[i].0 == parsed.devices@[i].0@
            && parsed@.devices[i].1 == parsed.devices@[i].1@,
        0 <= i < parsed.one_time_keys@.len() ==> parsed@.one_time_keys[i].0
            == parsed.one_time_keys@[i].0@ && parsed@.one_time_keys[i].1
            == parsed.one_time_keys@[i].1@ && parsed@.one_time_keys[i].2
            == parsed.one_time_keys@[i].2@,
{
}

/// The messages that wait for a user are those of their queue, each with its identifier; to take
/// them gives each message, in order.
pub proof fn law_messages_are_their_queue(state: E2eeState, user: Seq<char>, i: int)
    ensures
        state@.next_id == state.next_inbox_id,
        state@.changed == state.changed,
        state@.keys == state.keys@,
        state@.inbox.contains_key(user),
        state.to_device@.contains_key(user) ==> {
            let queue = state.to_device@[user]@;
            &&& state@.inbox[user].len() == queue.len()
            &&& 0 <= i < queue.len() ==> state@.inbox[user][i] == (queue[i].0 as int, queue[i].1.view())
        },
        !state.to_device@.contains_key(user) ==> state@.inbox[user].len() == 0,
        e2ee::events_of(state@.inbox[user]).len() == state@.inbox[user].len(),
        e2ee::ids_of(state@.inbox[user]).len() == state@.inbox[user].len(),
        0 <= i < state@.inbox[user].len() ==> e2ee::events_of(state@.inbox[user])[i]
            == state@.inbox[user][i].1 && e2ee::ids_of(state@.inbox[user])[i]
            == state@.inbox[user][i].0,
{
}

/// A message to a device is its type, its sender and its content, and nothing else.
pub proof fn law_messages_hold_three_fields(
    event_type: Seq<char>,
    sender: Seq<char>,
    content: JsonView,
    key: Seq<char>,
)
    ensures
        ({
            let m = e2ee::message(event_type, sender, content);
            &&& m.field("type"@) == Some(JsonView::Text(event_type))
            &&& m.field("sender"@) == Some(JsonView::Text(sender))
            &&& m.field("content"@) == Some(content)
            &&& key != "type"@ && key != "sender"@ && key != "content"@ ==> m.field(key) is None
        }),
{
    names::lemma_stripped_names();
}

/// An action is what it names, and so is a list of them.
pub proof fn law_actions_are_what_they_name(action: EduAction, actions: Seq<EduAction>, i: int)
    ensures
        match action {
            EduAction::ToDevice { user, event_type, sender, content } => action@
                == (EduActionView::ToDevice {
                user: user@,
                event_type: event_type@,
                sender: sender@,
                content: content.view(),
            }),
            EduAction::Typing { room, typist, typing } => action@ == (EduActionView::Typing {
                room: room@,
                typist: typist@,
                typing,
            }),
            EduAction::Receipt { room, reader, receipt } => {
                &&& action@ matches EduActionView::Receipt { room: r, reader: u, receipt: x }
                &&& r == room@
                &&& u == reader@
                &&& x.event_id == receipt.event_id@
                &&& x.ts == receipt.ts
            },
        },
        edus::actions_view(actions).len() == actions.len(),
        0 <= i < actions.len() ==> edus::actions_view(actions)[i] == actions[i]@,
{
}

/// What passes by is what its tables hold, by room and user.
pub proof fn law_what_passes_by_is_what_is_kept(
    state: EphemeralState,
    receipt: ReadReceipt,
    room: Seq<char>,
    user: Seq<char>,
)
    ensures
        state@.version == state.version,
        state@.typing.contains_key((room, user)) <==> state.typing@.contains_key(room)
            && state.typing@[room]@.contains_key(user),
        state@.typing.contains_key((room, user)) ==> state@.typing[(room, user)]
            == state.typing@[room]@[user],
        state@.receipts.contains_key((room, user)) <==> state.receipts@.contains_key(room)
            && state.receipts@[room]@.contains_key(user),
        state@.receipts.contains_key((room, user)) ==> state@.receipts[(room, user)].event_id
            == state.receipts@[room]@[user].event_id@ && state@.receipts[(room, user)].ts
            == state.receipts@[room]@[user].ts,
        receipt@.event_id == receipt.event_id@,
        receipt@.ts == receipt.ts,
{
}

/// Account data is what its tables hold, by user, room and type, and a write is what it names.
pub proof fn law_account_data_is_what_is_kept(
    state: AccountDataState,
    change: Change,
    user: Seq<char>,
    room: Seq<char>,
)
    ensures
        state@.global.contains_key(user) <==> state.global@.contains_key(user),
        state@.global.contains_key(user) ==> state@.global[user] == state.global@[user]@,
        state@.rooms.contains_key((user, room)) <==> state.rooms@.contains_key(user)
            && state.rooms@[user]@.contains_key(room),
        state@.rooms.contains_key((user, room)) ==> state@.rooms[(user, room)]
            == state.rooms@[user]@[room]@,
        state@.changes == state.log.changes_spec(),
        state@.version == state.log.version_spec(),
        change@.stamp == change.stamp,
        change@.user == change.user@,
        change.room matches Some(r) ==> change@.room == Some(r@),
        change.room is None ==> change@.room is None,
        change@.event_type == change.event_type@,
{
}

/// The rows of account data are what they hold.
pub proof fn law_account_rows_are_what_they_hold(
    rows: Seq<(String, Option<String>, String, Json)>,
    i: int,
)
    requires
        0 <= i < rows.len(),
    ensures
        account_data::rows_view(rows).len() == rows.len(),
        account_data::rows_view(rows)[i].0 == rows[i].0@,
        rows[i].1 matches Some(r) ==> account_data::rows_view(rows)[i].1 == Some(r@),
        rows[i].1 is None ==> account_data::rows_view(rows)[i].1 is None,
        account_data::rows_view(rows)[i].2 == rows[i].2@,
        account_data::rows_view(rows)[i].3 == rows[i].3.view(),
{
}

/// The heads of a room are its heads, of either kind, each in its place.
pub proof fn law_heads_are_their_lists(
    heads: ForwardExtremities,
    rooms: Map<Seq<char>, ForwardExtremities>,
    room: Seq<char>,
    i: int,
)
    ensures
        heads@.timeline.len() == heads.timeline@.len(),
        heads@.state.len() == heads.state@.len(),
        0 <= i < heads.timeline@.len() ==> heads@.timeline[i] == heads.timeline@[i]@,
        0 <= i < heads.state@.len() ==> heads@.state[i] == heads.state@[i]@,
        send::heads_view(rooms).contains_key(room) <==> rooms.contains_key(room),
        rooms.contains_key(room) ==> send::heads_view(rooms)[room] == rooms[room]@,
{
}

/// The progress of a transaction is what it has noted.
pub proof fn law_progress_is_what_was_noted(p: Progress, id: Seq<char>)
    ensures
        p@.results.contains_key(id) <==> p.results@.contains_key(id),
        p@.results.contains_key(id) ==> p@.results[id] == event::option_view(p.results@[id]),
        p@.versions.contains_key(id) <==> p.versions@.contains_key(id),
        p@.versions.contains_key(id) ==> p@.versions[id] == event::option_view(p.versions@[id]),
        p@.seen == p.seen@,
        p@.touched == p.touched@,
        p@.held == p.held@,
        p@.all_staged == p.all_staged,
{
}

/// An answer, a key of the record and a failure are their parts.
pub proof fn law_answers_are_their_parts(r: Reply, key: TxnKey, f: JoinFailure)
    ensures
        r@.status == r.status,
        r@.body == r.body.view(),
        key@.origin == key.origin@,
        key@.txn_id == key.txn_id@,
        f@.reason == f.reason@,
        f@.status == f.status,
        f@.errcode == f.errcode@,
{
}

/// The joins that are under way are those of the list.
pub proof fn law_joins_are_those_listed(joins: RunningJoins, room: Seq<char>, user: Seq<char>)
    ensures
        joins@.contains((room, user)) <==> exists|i: int|
            0 <= i < joins.running@.len() && (#[trigger] joins.running@[i]).0@ == room
                && joins.running@[i].1@ == user,
{
    let pairs = crate::client::pairs_of(joins.running@);
    if pairs.contains((room, user)) {
        let i = pairs.index_of((room, user));
        assert(joins.running@[i].0@ == room);
    }
    if exists|i: int|
        0 <= i < joins.running@.len() && (#[trigger] joins.running@[i]).0@ == room
            && joins.running@[i].1@ == user {
        let i = choose|i: int|
            0 <= i < joins.running@.len() && (#[trigger] joins.running@[i]).0@ == room
                && joins.running@[i].1@ == user;
        assert(pairs[i] == (room, user));
    }
}

/// A route is what was decided: through those servers, with that answer, or within our server.
pub proof fn law_routes_are_what_was_decided(r: join::JoinRoute, servers: Seq<Seq<char>>, i: int)
    ensures
        join::is_route(r, Ok(servers)) ==> (r matches join::JoinRoute::Remote(v) && v@.len()
            == servers.len() && (0 <= i < servers.len() ==> v@[i]@ == servers[i])),
        join::is_route(r, Err(None)) ==> r is Local,
{
    if join::is_route(r, Ok(servers)) {
        let v = r->Remote_0;
        assert(event::views(v@).len() == v@.len());
        if 0 <= i < servers.len() {
            assert(event::views(v@)[i] == v@[i]@);
        }
    }
}

} // verus!
