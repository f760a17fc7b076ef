//! What holds of the ephemeral messages of a transaction: who is sent what, who types where, and
//! who has read what.
use crate::codec;
use crate::e2ee;
use crate::e2ee::E2eeView;
use crate::edus;
use crate::edus::EduActionView;
use crate::ephemeral;
use crate::ephemeral::{EphemeralView, ReceiptView};
use crate::ids;
use crate::json::JsonView;
use crate::key_store;
use crate::names;
use crate::strmap;
use vstd::prelude::*;

verus! {

/// The string under a key of a value; empty where there is none.
pub open spec fn text_under(v: JsonView, key: Seq<char>) -> Seq<char> {
    match v.field(key) {
        Some(JsonView::Text(s)) => s,
        _ => seq![],
    }
}

proof fn lemma_device_message(
    user: Seq<char>,
    event_type: Seq<char>,
    sender: Seq<char>,
    devices: Map<Seq<char>, JsonView>,
    order: Seq<Seq<char>>,
    i: int,
)
    ensures
        edus::device_messages(user, event_type, sender, devices, order).len() == order.len(),
        0 <= i < order.len() ==> edus::device_messages(user, event_type, sender, devices, order)[i]
            == (EduActionView::ToDevice { user, event_type, sender, content: devices[order[i]] }),
    decreases order.len(),
{
    if order.len() > 0 {
        lemma_device_message(user, event_type, sender, devices, order.drop_last(), i);
    }
}

proof fn lemma_user_message(
    own_server: Seq<char>,
    event_type: Seq<char>,
    sender: Seq<char>,
    messages: Map<Seq<char>, JsonView>,
    order: Seq<Seq<char>>,
    user: Seq<char>,
    device: Seq<char>,
)
    requires
        order.contains(user),
        ids::on_server(user, own_server),
        messages[user] matches JsonView::Object(devices) && devices.dom().finite()
            && devices.contains_key(device),
    ensures
        edus::user_messages(own_server, event_type, sender, messages, order).contains(
            (EduActionView::ToDevice {
                user,
                event_type,
                sender,
                content: (messages[user]->Object_0)[device],
            }),
        ),
    decreases order.len(),
{
    let rest = order.drop_last();
    let front = edus::user_messages(own_server, event_type, sender, messages, rest);
    let whole = edus::user_messages(own_server, event_type, sender, messages, order);
    let devices = messages[user]->Object_0;
    let wanted = EduActionView::ToDevice { user, event_type, sender, content: devices[device] };
    if order.last() == user {
        let sorted = strmap::sorted_keys(devices.dom());
        strmap::lemma_sorted(devices.dom());
        assert(sorted.to_set().contains(device));
        let i = sorted.index_of(device);
        lemma_device_message(user, event_type, sender, devices, sorted, i);
        assert(whole[front.len() + i] == wanted);
    } else {
        let p = order.index_of(user);
        assert(rest[p] == user);
        lemma_user_message(own_server, event_type, sender, messages, rest, user, device);
        assert(whole[front.index_of(wanted)] == wanted);
    }
}

/// Every device of a user of ours that a message names is sent what the message holds for it,
/// under the type and the sender of the message.
pub proof fn law_every_device_is_sent_its_message(
    edu: JsonView,
    content: JsonView,
    messages: Map<Seq<char>, JsonView>,
    devices: Map<Seq<char>, JsonView>,
    own_server: Seq<char>,
    origin: Seq<char>,
    user: Seq<char>,
    device: Seq<char>,
)
    requires
        edu.field("edu_type"@) == Some(JsonView::Text("m.direct_to_device"@)),
        edu.field("content"@) == Some(content),
        content.field("messages"@) == Some(JsonView::Object(messages)),
        messages.dom().finite(),
        messages.contains_key(user),
        messages[user] == JsonView::Object(devices),
        devices.dom().finite(),
        devices.contains_key(device),
        ids::on_server(user, own_server),
    ensures
        edus::edu_actions(edu, own_server, origin).contains(
            (EduActionView::ToDevice {
                user,
                event_type: text_under(content, "type"@),
                sender: text_under(content, "sender"@),
                content: devices[device],
            }),
        ),
{
    strmap::lemma_sorted(messages.dom());
    let order = strmap::sorted_keys(messages.dom());
    assert(order.to_set().contains(user));
    lemma_user_message(
        own_server,
        text_under(content, "type"@),
        text_under(content, "sender"@),
        messages,
        order,
        user,
        device,
    );
}

/// How many devices of our users a message names.
pub open spec fn devices_named(
    messages: Map<Seq<char>, JsonView>,
    users: Seq<Seq<char>>,
    own_server: Seq<char>,
) -> nat
    decreases users.len(),
{
    if users.len() == 0 {
        0
    } else {
        devices_named(messages, users.drop_last(), own_server) + match messages[users.last()] {
            JsonView::Object(devices) => if ids::on_server(users.last(), own_server) {
                devices.dom().len()
            } else {
                0
            },
            _ => 0,
        }
    }
}

proof fn lemma_user_messages_only(
    own_server: Seq<char>,
    event_type: Seq<char>,
    sender: Seq<char>,
    messages: Map<Seq<char>, JsonView>,
    order: Seq<Seq<char>>,
    i: int,
)
    requires
        forall|u: Seq<char>| #[trigger]
            order.contains(u) ==> (messages[u] matches JsonView::Object(d) ==> d.dom().finite()),
    ensures
        ({
            let all = edus::user_messages(own_server, event_type, sender, messages, order);
            &&& all.len() == devices_named(messages, order, own_server)
            &&& 0 <= i < all.len() ==> {
                &&& all[i] matches EduActionView::ToDevice { user, event_type: t, sender: s, content }
                &&& t == event_type
                &&& s == sender
                &&& ids::on_server(user, own_server)
                &&& order.contains(user)
                &&& messages[user] matches JsonView::Object(devices)
                &&& exists|d: Seq<char>| #[trigger] devices.contains_key(d) && devices[d] == content
            }
        }),
    decreases order.len(),
{
    if order.len() > 0 {
        let rest = order.drop_last();
        let user = order.last();
        assert forall|u: Seq<char>| #[trigger] rest.contains(u) implies (messages[u] matches JsonView::Object(
            d,
        ) ==> d.dom().finite()) by {
            assert(order[rest.index_of(u)] == u);
            assert(order.contains(u));
        }
        let front = edus::user_messages(own_server, event_type, sender, messages, rest);
        let all = edus::user_messages(own_server, event_type, sender, messages, order);
        lemma_user_messages_only(own_server, event_type, sender, messages, rest, i);
        assert(order[order.len() - 1] == user);
        assert(order.contains(user));
        if let JsonView::Object(devices) = messages[user] {
            let sorted = strmap::sorted_keys(devices.dom());
            strmap::lemma_sorted(devices.dom());
            sorted.unique_seq_to_set();
            lemma_device_message(user, event_type, sender, devices, sorted, i - front.len());
            if ids::on_server(user, own_server) && front.len() <= i < all.len() {
                let d = sorted[i - front.len()];
                assert(sorted.to_set().contains(d));
                assert(devices.contains_key(d) && devices[d] == all[i]->ToDevice_content);
            }
        }
        if 0 <= i < front.len() {
            assert(all[i] == front[i]);
            let u = front[i]->ToDevice_user;
            assert(order[rest.index_of(u)] == u);
        }
    }
}

/// Nothing else is sent: there is one message for each device of our users that is named, and
/// each is what the message holds for a device of its user.
pub proof fn law_nothing_else_is_sent(
    edu: JsonView,
    content: JsonView,
    messages: Map<Seq<char>, JsonView>,
    own_server: Seq<char>,
    origin: Seq<char>,
    i: int,
)
    requires
        edu.field("edu_type"@) == Some(JsonView::Text("m.direct_to_device"@)),
        edu.field("content"@) == Some(content),
        content.field("messages"@) == Some(JsonView::Object(messages)),
        messages.dom().finite(),
        forall|u: Seq<char>| #[trigger]
            messages.contains_key(u) ==> (messages[u] matches JsonView::Object(d) ==> d.dom().finite()),
    ensures
        ({
            let all = edus::edu_actions(edu, own_server, origin);
            &&& all.len() == devices_named(
                messages,
                strmap::sorted_keys(messages.dom()),
                own_server,
            )
            &&& 0 <= i < all.len() ==> {
                &&& all[i] matches EduActionView::ToDevice { user, event_type, sender, content: sent }
                &&& event_type == text_under(content, "type"@)
                &&& sender == text_under(content, "sender"@)
                &&& ids::on_server(user, own_server)
                &&& messages.contains_key(user)
                &&& messages[user] matches JsonView::Object(devices)
                &&& exists|d: Seq<char>| #[trigger] devices.contains_key(d) && devices[d] == sent
            }
        }),
{
    let order = strmap::sorted_keys(messages.dom());
    strmap::lemma_sorted(messages.dom());
    assert forall|u: Seq<char>| #[trigger] order.contains(u) implies messages.contains_key(u) && (
    messages[u] matches JsonView::Object(d) ==> d.dom().finite()) by {
        assert(order.to_set().contains(u));
        assert(messages.contains_key(u));
    }
    lemma_user_messages_only(
        own_server,
        text_under(content, "type"@),
        text_under(content, "sender"@),
        messages,
        order,
        i,
    );
}

/// A typing notice is taken for a user of the sending server in a room, and says whether the user
/// types: only a `typing` that is true says so. Every other notice is dropped.
pub proof fn law_typing_notices_are_read(
    edu: JsonView,
    content: JsonView,
    own_server: Seq<char>,
    origin: Seq<char>,
)
    requires
        edu.field("edu_type"@) == Some(JsonView::Text("m.typing"@)),
        edu.field("content"@) == Some(content),
    ensures
        ({
            let room = text_under(content, "room_id"@);
            let user = text_under(content, "user_id"@);
            let typing = content.field("typing"@) == Some(JsonView::Bool(true));
            let all = edus::edu_actions(edu, own_server, origin);
            if ids::room_id_valid(room) && ids::user_id_valid(user) && ids::server_part(user) == origin {
                all == seq![EduActionView::Typing { room, typist: user, typing }]
            } else {
                all.len() == 0
            }
        }),
{
    names::lemma_edu_names();
}

/// The event that a receipt is for: the first that it lists.
pub open spec fn read_event(receipt: JsonView, event_id: Seq<char>) -> bool {
    &&& receipt.field("event_ids"@) matches Some(JsonView::Array(events))
    &&& events.len() > 0
    &&& events[0] == JsonView::Text(event_id)
    &&& ids::event_id_valid(event_id)
}

/// The time that a receipt states; zero where it states none.
pub open spec fn read_time(receipt: JsonView) -> int {
    match receipt.field("data"@) {
        Some(data) => match data.field("ts"@) {
            Some(JsonView::Int(n)) => if 0 <= n <= u64::MAX {
                n
            } else {
                0
            },
            _ => 0,
        },
        None => 0,
    }
}

proof fn lemma_receipt_ts(receipt: JsonView)
    ensures
        edus::receipt_ts(receipt) == read_time(receipt),
{
}

proof fn lemma_reader_receipts(
    room: Seq<char>,
    readers: Map<Seq<char>, JsonView>,
    order: Seq<Seq<char>>,
    reader: Seq<char>,
    event_id: Seq<char>,
)
    requires
        order.contains(reader),
        ids::user_id_valid(reader),
        read_event(readers[reader], event_id),
    ensures
        edus::reader_receipts(room, readers, order).contains(
            (EduActionView::Receipt {
                room,
                reader,
                receipt: ReceiptView { event_id, ts: read_time(readers[reader]) },
            }),
        ),
    decreases order.len(),
{
    let rest = order.drop_last();
    let front = edus::reader_receipts(room, readers, rest);
    let all = edus::reader_receipts(room, readers, order);
    let wanted = EduActionView::Receipt {
        room,
        reader,
        receipt: ReceiptView { event_id, ts: read_time(readers[reader]) },
    };
    lemma_receipt_ts(readers[reader]);
    if order.last() == reader {
        assert(all[front.len() as int] == wanted);
    } else {
        assert(rest[order.index_of(reader)] == reader);
        lemma_reader_receipts(room, readers, rest, reader, event_id);
        assert(all[front.index_of(wanted)] == wanted);
    }
}

proof fn lemma_room_receipts(
    rooms: Map<Seq<char>, JsonView>,
    order: Seq<Seq<char>>,
    room: Seq<char>,
    readers: Map<Seq<char>, JsonView>,
    reader: Seq<char>,
    event_id: Seq<char>,
)
    requires
        order.contains(room),
        ids::room_id_valid(room),
        rooms[room].field("m.read"@) == Some(JsonView::Object(readers)),
        readers.dom().finite(),
        readers.contains_key(reader),
        ids::user_id_valid(reader),
        read_event(readers[reader], event_id),
    ensures
        edus::room_receipts(rooms, order).contains(
            (EduActionView::Receipt {
                room,
                reader,
                receipt: ReceiptView { event_id, ts: read_time(readers[reader]) },
            }),
        ),
    decreases order.len(),
{
    let rest = order.drop_last();
    let front = edus::room_receipts(rooms, rest);
    let all = edus::room_receipts(rooms, order);
    let wanted = EduActionView::Receipt {
        room,
        reader,
        receipt: ReceiptView { event_id, ts: read_time(readers[reader]) },
    };
    if order.last() == room {
        let sorted = strmap::sorted_keys(readers.dom());
        strmap::lemma_sorted(readers.dom());
        assert(sorted.to_set().contains(reader));
        lemma_reader_receipts(room, readers, sorted, reader, event_id);
        let mine = edus::reader_receipts(room, readers, sorted);
        assert(all[front.len() + mine.index_of(wanted)] == wanted);
    } else {
        assert(rest[order.index_of(room)] == room);
        lemma_room_receipts(rooms, rest, room, readers, reader, event_id);
        assert(all[front.index_of(wanted)] == wanted);
    }
}

/// A receipt moves its reader, in its room, to the first event that it lists, at the time that it
/// states.
pub proof fn law_receipts_are_read(
    edu: JsonView,
    rooms: Map<Seq<char>, JsonView>,
    readers: Map<Seq<char>, JsonView>,
    own_server: Seq<char>,
    origin: Seq<char>,
    room: Seq<char>,
    reader: Seq<char>,
    event_id: Seq<char>,
)
    requires
        edu.field("edu_type"@) == Some(JsonView::Text("m.receipt"@)),
        edu.field("content"@) == Some(JsonView::Object(rooms)),
        rooms.dom().finite(),
        rooms.contains_key(room),
        ids::room_id_valid(room),
        rooms[room].field("m.read"@) == Some(JsonView::Object(readers)),
        readers.dom().finite(),
        readers.contains_key(reader),
        ids::user_id_valid(reader),
        read_event(readers[reader], event_id),
    ensures
        edus::edu_actions(edu, own_server, origin).contains(
            (EduActionView::Receipt {
                room,
                reader,
                receipt: ReceiptView { event_id, ts: read_time(readers[reader]) },
            }),
        ),
{
    names::lemma_edu_names();
    let order = strmap::sorted_keys(rooms.dom());
    strmap::lemma_sorted(rooms.dom());
    assert(order.to_set().contains(room));
    lemma_room_receipts(rooms, order, room, readers, reader, event_id);
}

proof fn lemma_reader_receipts_only(
    room: Seq<char>,
    readers: Map<Seq<char>, JsonView>,
    order: Seq<Seq<char>>,
    i: int,
)
    requires
        0 <= i < edus::reader_receipts(room, readers, order).len(),
    ensures
        ({
            &&& edus::reader_receipts(room, readers, order)[i] matches EduActionView::Receipt {
                room: r,
                reader,
                receipt,
            }
            &&& r == room
            &&& order.contains(reader)
            &&& ids::user_id_valid(reader)
            &&& read_event(readers[reader], receipt.event_id)
            &&& receipt.ts == read_time(readers[reader])
        }),
    decreases order.len(),
{
    if order.len() > 0 {
        let rest = order.drop_last();
        let front = edus::reader_receipts(room, readers, rest);
        let all = edus::reader_receipts(room, readers, order);
        if i < front.len() {
            lemma_reader_receipts_only(room, readers, rest, i);
            assert(all[i] == front[i]);
            let u = front[i]->Receipt_reader;
            assert(order[rest.index_of(u)] == u);
        } else {
            lemma_receipt_ts(readers[order.last()]);
            assert(order[order.len() - 1] == order.last());
        }
    }
}

proof fn lemma_room_receipts_only(rooms: Map<Seq<char>, JsonView>, order: Seq<Seq<char>>, i: int)
    requires
        0 <= i < edus::room_receipts(rooms, order).len(),
        forall|r: Seq<char>| #[trigger]
            order.contains(r) ==> (rooms[r].field("m.read"@) matches Some(JsonView::Object(readers))
                ==> readers.dom().finite()),
    ensures
        ({
            &&& edus::room_receipts(rooms, order)[i] matches EduActionView::Receipt {
                room,
                reader,
                receipt,
            }
            &&& order.contains(room)
            &&& ids::room_id_valid(room)
            &&& rooms[room].field("m.read"@) matches Some(JsonView::Object(readers))
            &&& readers.contains_key(reader)
            &&& ids::user_id_valid(reader)
            &&& read_event(readers[reader], receipt.event_id)
            &&& receipt.ts == read_time(readers[reader])
        }),
    decreases order.len(),
{
    if order.len() > 0 {
        let rest = order.drop_last();
        let front = edus::room_receipts(rooms, rest);
        let all = edus::room_receipts(rooms, order);
        let room = order.last();
        assert(order[order.len() - 1] == room);
        assert(order.contains(room));
        if i < front.len() {
            assert forall|r: Seq<char>| #[trigger] rest.contains(r) implies (rooms[r].field("m.read"@) matches Some(
                JsonView::Object(readers),
            ) ==> readers.dom().finite()) by {
                assert(order[rest.index_of(r)] == r);
                assert(order.contains(r));
            }
            lemma_room_receipts_only(rooms, rest, i);
            assert(all[i] == front[i]);
            let r = front[i]->Receipt_room;
            assert(order[rest.index_of(r)] == r);
        } else if let Some(JsonView::Object(readers)) = rooms[room].field("m.read"@) {
            let sorted = strmap::sorted_keys(readers.dom());
            strmap::lemma_sorted(readers.dom());
            lemma_reader_receipts_only(room, readers, sorted, i - front.len());
            let u = edus::reader_receipts(room, readers, sorted)[i - front.len()]->Receipt_reader;
            assert(sorted.to_set().contains(u));
        }
    }
}

/// No other receipts are taken: each is of a user in a room, as the message lists it.
pub proof fn law_no_other_receipts_are_read(
    edu: JsonView,
    rooms: Map<Seq<char>, JsonView>,
    own_server: Seq<char>,
    origin: Seq<char>,
    i: int,
)
    requires
        edu.field("edu_type"@) == Some(JsonView::Text("m.receipt"@)),
        edu.field("content"@) == Some(JsonView::Object(rooms)),
        rooms.dom().finite(),
        forall|r: Seq<char>| #[trigger]
            rooms.contains_key(r) ==> (rooms[r].field("m.read"@) matches Some(JsonView::Object(readers))
                ==> readers.dom().finite()),
        0 <= i < edus::edu_actions(edu, own_server, origin).len(),
    ensures
        ({
            &&& edus::edu_actions(edu, own_server, origin)[i] matches EduActionView::Receipt {
                room,
                reader,
                receipt,
            }
            &&& rooms.contains_key(room)
            &&& ids::room_id_valid(room)
            &&& rooms[room].field("m.read"@) matches Some(JsonView::Object(readers))
            &&& readers.contains_key(reader)
            &&& ids::user_id_valid(reader)
            &&& read_event(readers[reader], receipt.event_id)
            &&& receipt.ts == read_time(readers[reader])
        }),
{
    names::lemma_edu_names();
    let order = strmap::sorted_keys(rooms.dom());
    strmap::lemma_sorted(rooms.dom());
    assert forall|r: Seq<char>| #[trigger] order.contains(r) implies rooms.contains_key(r) && (
    rooms[r].field("m.read"@) matches Some(JsonView::Object(readers)) ==> readers.dom().finite()) by {
        assert(order.to_set().contains(r));
        assert(rooms.contains_key(r));
    }
    lemma_room_receipts_only(rooms, order, i);
}

/// A message of another type, or without content, asks for nothing.
pub proof fn law_other_messages_ask_for_nothing(edu: JsonView, own_server: Seq<char>, origin: Seq<char>)
    requires
        edu.field("content"@) is None || !(edu.field("edu_type"@) matches Some(JsonView::Text(t)) && (t
            == "m.direct_to_device"@ || t == "m.typing"@ || t == "m.receipt"@)),
    ensures
        edus::edu_actions(edu, own_server, origin).len() == 0,
{
}

/// The messages of a transaction are read in their order, and a text that is not JSON asks for
/// nothing.
pub proof fn law_messages_are_read_in_order(
    edus: Seq<Option<JsonView>>,
    edu: JsonView,
    own_server: Seq<char>,
    origin: Seq<char>,
)
    ensures
        edus::all_actions(seq![], own_server, origin).len() == 0,
        edus::all_actions(edus.push(Some(edu)), own_server, origin) == edus::all_actions(
            edus,
            own_server,
            origin,
        ) + edus::edu_actions(edu, own_server, origin),
        edus::all_actions(edus.push(None), own_server, origin) == edus::all_actions(
            edus,
            own_server,
            origin,
        ),
{
    assert(edus.push(Some(edu)).drop_last() =~= edus);
    assert(edus.push(None).drop_last() =~= edus);
}

/// What is sent to a user by actions, in order: the type, the sender and the content of each.
pub open spec fn sent_to(actions: Seq<EduActionView>, user: Seq<char>) -> Seq<
    (Seq<char>, Seq<char>, JsonView),
>
    decreases actions.len(),
{
    if actions.len() == 0 {
        seq![]
    } else {
        let front = sent_to(actions.drop_last(), user);
        match actions.last() {
            EduActionView::ToDevice { user: u, event_type, sender, content } => if u == user {
                front.push((event_type, sender, content))
            } else {
                front
            },
            _ => front,
        }
    }
}

/// The messages that wait for a user once actions are done are those that waited before and then
/// those that the actions send to the user, in order, each with its type, sender and content.
pub proof fn law_messages_wait_for_their_user(
    state: (E2eeView, EphemeralView),
    actions: Seq<EduActionView>,
    now: int,
    user: Seq<char>,
    i: int,
)
    requires
        forall|u: Seq<char>| #[trigger] state.0.inbox.contains_key(u),
    ensures
        ({
            let before = state.0.inbox[user];
            let after = edus::acted_all(state, actions, now).0.inbox[user];
            let sent = sent_to(actions, user);
            &&& after.len() == before.len() + sent.len()
            &&& 0 <= i < before.len() ==> after[i] == before[i]
            &&& 0 <= i < sent.len() ==> {
                let event = after[before.len() + i].1;
                &&& event.field("type"@) == Some(JsonView::Text(sent[i].0))
                &&& event.field("sender"@) == Some(JsonView::Text(sent[i].1))
                &&& event.field("content"@) == Some(sent[i].2)
            }
            &&& edus::acted_all(state, actions, now).0.keys == state.0.keys
            &&& edus::acted_all(state, actions, now).0.inbox.contains_key(user)
        }),
    decreases actions.len(),
{
    names::lemma_stripped_names();
    if actions.len() > 0 {
        law_messages_wait_for_their_user(state, actions.drop_last(), now, user, i);
    }
}

/// An action on typing or receipts leaves the inbox alone, and one on the inbox leaves typing and
/// receipts alone. A notice from elsewhere lasts thirty seconds.
pub proof fn law_actions_keep_to_their_part(
    state: (E2eeView, EphemeralView),
    action: EduActionView,
    now: int,
    other: (Seq<char>, Seq<char>),
)
    ensures
        ({
            let after = edus::acted(state, action, now);
            &&& !(action is ToDevice) ==> after.0 == state.0
            &&& action is ToDevice ==> after.1 == state.1
            &&& action matches EduActionView::Typing { room, typist, typing } ==> {
                &&& after.1.receipts == state.1.receipts
                &&& typing ==> after.1.typing.contains_key((room, typist)) && after.1.typing[(room, typist)]
                    == now + 30_000_000_000
                &&& !typing ==> !after.1.typing.contains_key((room, typist))
                &&& other != (room, typist) ==> (after.1.typing.contains_key(other)
                    <==> state.1.typing.contains_key(other))
                &&& other != (room, typist) && state.1.typing.contains_key(other)
                    ==> after.1.typing[other] == state.1.typing[other]
            }
            &&& action matches EduActionView::Receipt { room, reader, receipt } ==> {
                &&& after.1.typing == state.1.typing
                &&& after.1.receipts.contains_key((room, reader))
                &&& after.1.receipts[(room, reader)] == if state.1.receipts.contains_key((room, reader))
                    && state.1.receipts[(room, reader)].ts > receipt.ts {
                    state.1.receipts[(room, reader)]
                } else {
                    receipt
                }
                &&& other != (room, reader) ==> (after.1.receipts.contains_key(other)
                    <==> state.1.receipts.contains_key(other))
                &&& other != (room, reader) && state.1.receipts.contains_key(other)
                    ==> after.1.receipts[other] == state.1.receipts[other]
            }
        }),
{
}

/// Every message to a device is written to the journal, in order and under the identifiers from
/// the next one on, with what it is delivered as; nothing else is written.
pub proof fn law_messages_are_journaled(
    next: int,
    actions: Seq<EduActionView>,
    user: Seq<char>,
    event_type: Seq<char>,
    sender: Seq<char>,
    content: JsonView,
    other: EduActionView,
)
    ensures
        ({
            let before = edus::journaled(next, actions);
            let sent = EduActionView::ToDevice { user, event_type, sender, content };
            &&& edus::journaled(next, seq![]).len() == 0
            &&& edus::journaled(next, actions.push(sent)) == before.push(
                (key_store::OpView::PushToDevice {
                    id: next + before.len(),
                    user,
                    event: e2ee::message(event_type, sender, content),
                }),
            )
            &&& !(other is ToDevice) ==> edus::journaled(next, actions.push(other)) == before
            &&& edus::message_count(actions.push(sent)) == edus::message_count(actions) + 1
            &&& !(other is ToDevice) ==> edus::message_count(actions.push(other))
                == edus::message_count(actions)
            &&& edus::message_count(seq![]) == 0
        }),
{
    assert(actions.push(EduActionView::ToDevice { user, event_type, sender, content }).drop_last()
        =~= actions);
    assert(actions.push(other).drop_last() =~= actions);
}

/// What texts hold is what each of them says.
pub proof fn law_texts_are_read_one_by_one(texts: Seq<String>, i: int)
    ensures
        edus::parsed_texts(texts).len() == texts.len(),
        0 <= i < texts.len() ==> edus::parsed_texts(texts)[i] == codec::parsed_json(texts[i]@),
{
}

} // verus!
