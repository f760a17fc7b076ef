//! The ephemeral messages of a federation transaction: messages to devices, typing notices and
//! read receipts. Everything else is dropped.
use crate::codec;
use crate::e2ee;
use crate::e2ee::{E2eeState, E2eeView};
use crate::ephemeral;
use crate::ephemeral::{EphemeralState, EphemeralView, ReadReceipt, ReceiptView};
use crate::ids;
use crate::json;
use crate::json::{Json, JsonObject, JsonView};
use crate::key_store;
use crate::key_store::OpView;
use crate::strmap;
use crate::text;
use crate::validate;
use vstd::prelude::*;

verus! {

/// What an ephemeral message asks for.
pub enum EduAction {
    /// A message for a user of ours.
    ToDevice { user: String, event_type: String, sender: String, content: Json },
    /// A user of the sending server starts or stops typing.
    Typing { room: String, typist: String, typing: bool },
    /// A user has read up to an event.
    Receipt { room: String, reader: String, receipt: ReadReceipt },
}

/// What an ephemeral message asks for, as mathematics.
#[verifier::ext_equal]
pub enum EduActionView {
    ToDevice { user: Seq<char>, event_type: Seq<char>, sender: Seq<char>, content: JsonView },
    Typing { room: Seq<char>, typist: Seq<char>, typing: bool },
    Receipt { room: Seq<char>, reader: Seq<char>, receipt: ReceiptView },
}

impl View for EduAction {
    type V = EduActionView;

    open spec fn view(&self) -> EduActionView {
        match *self {
            EduAction::ToDevice { user, event_type, sender, content } => EduActionView::ToDevice {
                user: user@,
                event_type: event_type@,
                sender: sender@,
                content: content@,
            },
            EduAction::Typing { room, typist, typing } => EduActionView::Typing {
                room: room@,
                typist: typist@,
                typing,
            },
            EduAction::Receipt { room, reader, receipt } => EduActionView::Receipt {
                room: room@,
                reader: reader@,
                receipt: receipt@,
            },
        }
    }
}

/// What a list of actions asks for, as mathematics.
pub open spec fn actions_view(actions: Seq<EduAction>) -> Seq<EduActionView> {
    Seq::new(actions.len(), |i: int| actions[i]@)
}

/// The string under a key of a value that may be absent; empty where there is none.
pub open spec fn text_or_empty(v: Option<JsonView>, key: Seq<char>) -> Seq<char> {
    match v {
        Some(v) => match v.field(key) {
            Some(x) => match x.text() {
                Some(s) => s,
                None => seq![],
            },
            None => seq![],
        },
        None => seq![],
    }
}

/// The messages for the given devices of a user, in order. Which device they are for is not told
/// apart.
pub open spec fn device_messages(
    user: Seq<char>,
    event_type: Seq<char>,
    sender: Seq<char>,
    devices: Map<Seq<char>, JsonView>,
    order: Seq<Seq<char>>,
) -> Seq<EduActionView>
    decreases order.len(),
{
    if order.len() == 0 {
        seq![]
    } else {
        device_messages(user, event_type, sender, devices, order.drop_last()).push(
            (EduActionView::ToDevice { user, event_type, sender, content: devices[order.last()] }),
        )
    }
}

/// The messages for the given users, in order: those of other servers are passed over.
pub open spec fn user_messages(
    own_server: Seq<char>,
    event_type: Seq<char>,
    sender: Seq<char>,
    messages: Map<Seq<char>, JsonView>,
    order: Seq<Seq<char>>,
) -> Seq<EduActionView>
    decreases order.len(),
{
    if order.len() == 0 {
        seq![]
    } else {
        let front = user_messages(own_server, event_type, sender, messages, order.drop_last());
        let user = order.last();
        match messages[user] {
            JsonView::Object(devices) => if ids::on_server(user, own_server) {
                front + device_messages(
                    user,
                    event_type,
                    sender,
                    devices,
                    strmap::sorted_keys(devices.dom()),
                )
            } else {
                front
            },
            _ => front,
        }
    }
}

/// What a message to devices asks for.
pub open spec fn to_device_actions(content: Option<JsonView>, own_server: Seq<char>) -> Seq<EduActionView> {
    match content {
        Some(c) => match c.field("messages"@) {
            Some(JsonView::Object(messages)) => user_messages(
                own_server,
                text_or_empty(content, "type"@),
                text_or_empty(content, "sender"@),
                messages,
                strmap::sorted_keys(messages.dom()),
            ),
            _ => seq![],
        },
        None => seq![],
    }
}

/// What a typing notice asks for: it counts for a user of the sending server alone.
pub open spec fn typing_actions(content: Option<JsonView>, origin: Seq<char>) -> Seq<EduActionView> {
    let room = text_or_empty(content, "room_id"@);
    let user = text_or_empty(content, "user_id"@);
    if ids::room_id_valid(room) && ids::on_server(user, origin) {
        seq![
            EduActionView::Typing {
                room,
                typist: user,
                typing: (content->0).field("typing"@) == Some(JsonView::Bool(true)),
            },
        ]
    } else {
        seq![]
    }
}

/// The first of a list of event identifiers.
pub open spec fn first_event(receipt: JsonView) -> Option<Seq<char>> {
    match receipt.field("event_ids"@) {
        Some(JsonView::Array(items)) => if items.len() > 0 {
            match items[0].text() {
                Some(s) => if ids::event_id_valid(s) {
                    Some(s)
                } else {
                    None
                },
                None => None,
            }
        } else {
            None
        },
        _ => None,
    }
}

/// The time of a receipt; zero where it says none.
pub open spec fn receipt_ts(receipt: JsonView) -> int {
    match receipt.field("data"@) {
        Some(JsonView::Object(data)) => match validate::u64_field(data, "ts"@) {
            Some(n) => n,
            None => 0,
        },
        _ => 0,
    }
}

/// The receipts of the given readers of a room, in order.
pub open spec fn reader_receipts(
    room: Seq<char>,
    readers: Map<Seq<char>, JsonView>,
    order: Seq<Seq<char>>,
) -> Seq<EduActionView>
    decreases order.len(),
{
    if order.len() == 0 {
        seq![]
    } else {
        let front = reader_receipts(room, readers, order.drop_last());
        let user = order.last();
        match first_event(readers[user]) {
            Some(event_id) => if ids::user_id_valid(user) {
                front.push(
                    (EduActionView::Receipt {
                        room,
                        reader: user,
                        receipt: ReceiptView { event_id, ts: receipt_ts(readers[user]) },
                    }),
                )
            } else {
                front
            },
            None => front,
        }
    }
}

/// The receipts of the given rooms, in order.
pub open spec fn room_receipts(rooms: Map<Seq<char>, JsonView>, order: Seq<Seq<char>>) -> Seq<EduActionView>
    decreases order.len(),
{
    if order.len() == 0 {
        seq![]
    } else {
        let front = room_receipts(rooms, order.drop_last());
        let room = order.last();
        match rooms[room].field("m.read"@) {
            Some(JsonView::Object(readers)) => if ids::room_id_valid(room) {
                front + reader_receipts(room, readers, strmap::sorted_keys(readers.dom()))
            } else {
                front
            },
            _ => front,
        }
    }
}

/// What a message of receipts asks for: read positions move to the first event listed.
pub open spec fn receipt_actions(content: Option<JsonView>) -> Seq<EduActionView> {
    match content {
        Some(JsonView::Object(rooms)) => room_receipts(rooms, strmap::sorted_keys(rooms.dom())),
        _ => seq![],
    }
}

/// What an ephemeral message asks for.
pub open spec fn edu_actions(edu: JsonView, own_server: Seq<char>, origin: Seq<char>) -> Seq<EduActionView> {
    let content = edu.field("content"@);
    let kind = match edu.field("edu_type"@) {
        Some(v) => v.text(),
        None => None,
    };
    if kind == Some("m.direct_to_device"@) {
        to_device_actions(content, own_server)
    } else if kind == Some("m.typing"@) {
        typing_actions(content, origin)
    } else if kind == Some("m.receipt"@) {
        receipt_actions(content)
    } else {
        seq![]
    }
}

fn str_or_empty<'a>(v: Option<&'a Json>, key: &str) -> (s: &'a str)
    ensures
        s@ == text_or_empty(
            match v {
                Some(x) => Some(x@),
                None => None,
            },
            key@,
        ),
{
    proof {
        reveal_strlit("");
    }
    match v {
        Some(v) => match v.get(key) {
            Some(x) => match x.as_str() {
                Some(s) => s,
                None => {
                    assert(""@ =~= seq![]);
                    ""
                },
            },
            None => {
                assert(""@ =~= seq![]);
                ""
            },
        },
        None => {
            assert(""@ =~= seq![]);
            ""
        },
    }
}

/// A value that may be absent, as mathematics.
pub open spec fn option_json(v: Option<&Json>) -> Option<JsonView> {
    match v {
        Some(x) => Some(x@),
        None => None,
    }
}

fn push_device_messages(
    actions: &mut Vec<EduAction>,
    user: &str,
    event_type: &str,
    sender: &str,
    devices: &JsonObject,
)
    ensures
        actions_view(final(actions)@) == actions_view(old(actions)@) + device_messages(
            user@,
            event_type@,
            sender@,
            devices@,
            strmap::sorted_keys(devices@.dom()),
        ),
{
    let n: usize = devices.len();
    let ghost order = devices.keys();
    let ghost start = actions_view(actions@);
    let mut i: usize = 0;
    assert(start =~= start + device_messages(user@, event_type@, sender@, devices@, order.take(0)));
    while i < n
        invariant
            i <= n,
            n == devices.keys().len(),
            order == devices.keys(),
            actions_view(actions@) == start + device_messages(
                user@,
                event_type@,
                sender@,
                devices@,
                order.take(i as int),
            ),
        decreases n - i,
    {
        let ghost before = actions@;
        actions.push(
            EduAction::ToDevice {
                user: user.to_owned(),
                event_type: event_type.to_owned(),
                sender: sender.to_owned(),
                content: devices.value_at(i).duplicate(),
            },
        );
        proof {
            assert(order.take(i + 1).drop_last() =~= order.take(i as int));
            assert(actions_view(actions@) =~= actions_view(before).push(actions@.last()@));
            assert(actions_view(actions@) =~= start + device_messages(
                user@,
                event_type@,
                sender@,
                devices@,
                order.take(i + 1),
            ));
        }
        i = i + 1;
    }
    assert(order.take(n as int) =~= order);
}

fn to_device(content: Option<&Json>, own_server: &str) -> (actions: Vec<EduAction>)
    ensures
        actions_view(actions@) == to_device_actions(option_json(content), own_server@),
{
    let mut actions: Vec<EduAction> = Vec::new();
    assert(actions_view(actions@) =~= seq![]);
    let sender: &str = str_or_empty(content, "sender");
    let event_type: &str = str_or_empty(content, "type");
    let messages: &JsonObject = match content {
        None => return actions,
        Some(c) => match c.get("messages") {
            None => return actions,
            Some(v) => match v.as_object() {
                None => return actions,
                Some(m) => m,
            },
        },
    };
    let n: usize = messages.len();
    let ghost order = messages.keys();
    let mut i: usize = 0;
    assert(order.take(0) =~= Seq::empty());
    while i < n
        invariant
            i <= n,
            n == messages.keys().len(),
            order == messages.keys(),
            actions_view(actions@) == user_messages(
                own_server@,
                event_type@,
                sender@,
                messages@,
                order.take(i as int),
            ),
        decreases n - i,
    {
        let user: &String = messages.key_at(i);
        assert(order.take(i + 1).drop_last() =~= order.take(i as int));
        if ids::is_on_server(user.as_str(), own_server) {
            if let Some(devices) = messages.value_at(i).as_object() {
                push_device_messages(&mut actions, user.as_str(), event_type, sender, devices);
            }
        }
        i = i + 1;
    }
    assert(order.take(n as int) =~= order);
    actions
}

/// What a typing notice asks for.
pub fn apply_typing(content: Option<&Json>, origin: &str) -> (actions: Vec<EduAction>)
    ensures
        actions_view(actions@) == typing_actions(option_json(content), origin@),
{
    let mut actions: Vec<EduAction> = Vec::new();
    assert(actions_view(actions@) =~= seq![]);
    let room: &str = str_or_empty(content, "room_id");
    let user: &str = str_or_empty(content, "user_id");
    if ids::is_room_id(room) && ids::is_on_server(user, origin) {
        if let Some(c) = content {
            let typing: bool = match c.get("typing") {
                Some(v) => match v.as_bool() {
                    Some(b) => b,
                    None => false,
                },
                None => false,
            };
            actions.push(
                EduAction::Typing { room: room.to_owned(), typist: user.to_owned(), typing },
            );
            assert(actions_view(actions@) =~= typing_actions(option_json(content), origin@));
        }
    }
    actions
}

fn first_event_id(receipt: &Json) -> (id: Option<&str>)
    ensures
        id is Some == first_event(receipt@) is Some,
        id matches Some(s) ==> first_event(receipt@) == Some(s@),
{
    match receipt.get("event_ids") {
        None => None,
        Some(v) => match v.as_array() {
            None => None,
            Some(items) => if items.len() > 0 {
                assert(json::array_view(items@)[0] == items@[0]@);
                match items[0].as_str() {
                    Some(s) => if ids::is_event_id(s) {
                        Some(s)
                    } else {
                        None
                    },
                    None => None,
                }
            } else {
                None
            },
        },
    }
}

fn ts_of(receipt: &Json) -> (ts: u64)
    ensures
        ts == receipt_ts(receipt@),
{
    match receipt.get("data") {
        None => 0,
        Some(data) => match data.get("ts") {
            None => 0,
            Some(v) => match v.as_u64() {
                Some(n) => n,
                None => 0,
            },
        },
    }
}

fn push_receipts(actions: &mut Vec<EduAction>, room: &str, readers: &JsonObject)
    ensures
        actions_view(final(actions)@) == actions_view(old(actions)@) + reader_receipts(
            room@,
            readers@,
            strmap::sorted_keys(readers@.dom()),
        ),
{
    let n: usize = readers.len();
    let ghost order = readers.keys();
    let ghost start = actions_view(actions@);
    let mut i: usize = 0;
    assert(start =~= start + reader_receipts(room@, readers@, order.take(0)));
    while i < n
        invariant
            i <= n,
            n == readers.keys().len(),
            order == readers.keys(),
            actions_view(actions@) == start + reader_receipts(room@, readers@, order.take(i as int)),
        decreases n - i,
    {
        let ghost before = actions@;
        let user: &String = readers.key_at(i);
        let receipt: &Json = readers.value_at(i);
        if ids::is_user_id(user.as_str()) {
            if let Some(event_id) = first_event_id(receipt) {
                actions.push(
                    EduAction::Receipt {
                        room: room.to_owned(),
                        reader: user.clone(),
                        receipt: ReadReceipt { event_id: event_id.to_owned(), ts: ts_of(receipt) },
                    },
                );
                assert(actions_view(actions@) =~= actions_view(before).push(actions@.last()@));
            }
        }
        proof {
            assert(order.take(i + 1).drop_last() =~= order.take(i as int));
            assert(actions_view(actions@) =~= start + reader_receipts(
                room@,
                readers@,
                order.take(i + 1),
            ));
        }
        i = i + 1;
    }
    assert(order.take(n as int) =~= order);
}

/// What a message of receipts asks for.
pub fn apply_receipts(content: Option<&Json>) -> (actions: Vec<EduAction>)
    ensures
        actions_view(actions@) == receipt_actions(option_json(content)),
{
    let mut actions: Vec<EduAction> = Vec::new();
    assert(actions_view(actions@) =~= seq![]);
    let rooms: &JsonObject = match content {
        None => return actions,
        Some(c) => match c.as_object() {
            None => return actions,
            Some(m) => m,
        },
    };
    let n: usize = rooms.len();
    let ghost order = rooms.keys();
    let mut i: usize = 0;
    assert(order.take(0) =~= Seq::empty());
    while i < n
        invariant
            i <= n,
            n == rooms.keys().len(),
            order == rooms.keys(),
            actions_view(actions@) == room_receipts(rooms@, order.take(i as int)),
        decreases n - i,
    {
        let room: &String = rooms.key_at(i);
        assert(order.take(i + 1).drop_last() =~= order.take(i as int));
        if ids::is_room_id(room.as_str()) {
            if let Some(read) = rooms.value_at(i).get("m.read") {
                if let Some(readers) = read.as_object() {
                    push_receipts(&mut actions, room.as_str(), readers);
                }
            }
        }
        i = i + 1;
    }
    assert(order.take(n as int) =~= order);
    actions
}

/// What an ephemeral message asks for.
pub fn read_edu(edu: &Json, own_server: &str, origin: &str) -> (actions: Vec<EduAction>)
    ensures
        actions_view(actions@) == edu_actions(edu@, own_server@, origin@),
{
    let kind: &str = match edu.get("edu_type") {
        Some(v) => match v.as_str() {
            Some(s) => s,
            None => return no_actions(),
        },
        None => return no_actions(),
    };
    let content: Option<&Json> = edu.get("content");
    assert(option_json(content) == edu@.field("content"@));
    if text::str_eq(kind, "m.direct_to_device") {
        to_device(content, own_server)
    } else if text::str_eq(kind, "m.typing") {
        apply_typing(content, origin)
    } else if text::str_eq(kind, "m.receipt") {
        apply_receipts(content)
    } else {
        no_actions()
    }
}

fn no_actions() -> (actions: Vec<EduAction>)
    ensures
        actions_view(actions@) == Seq::<EduActionView>::empty(),
{
    let actions: Vec<EduAction> = Vec::new();
    assert(actions_view(actions@) =~= Seq::<EduActionView>::empty());
    actions
}

/// What the given messages ask for, in order; a text that is not JSON asks for nothing.
pub open spec fn all_actions(
    edus: Seq<Option<JsonView>>,
    own_server: Seq<char>,
    origin: Seq<char>,
) -> Seq<EduActionView>
    decreases edus.len(),
{
    if edus.len() == 0 {
        seq![]
    } else {
        let front = all_actions(edus.drop_last(), own_server, origin);
        match edus.last() {
            Some(edu) => front + edu_actions(edu, own_server, origin),
            None => front,
        }
    }
}

/// What texts hold as JSON.
pub open spec fn parsed_texts(texts: Seq<String>) -> Seq<Option<JsonView>> {
    Seq::new(texts.len(), |i: int| codec::parsed_json(texts[i]@))
}

/// What the ephemeral messages of a transaction ask for, in order.
pub fn read_edus(edus: &Vec<String>, own_server: &str, origin: &str) -> (actions: Vec<EduAction>)
    ensures
        actions_view(actions@) == all_actions(parsed_texts(edus@), own_server@, origin@),
{
    let mut actions: Vec<EduAction> = Vec::new();
    let ghost all = parsed_texts(edus@);
    let mut i: usize = 0;
    assert(actions_view(actions@) =~= all_actions(all.take(0), own_server@, origin@));
    while i < edus.len()
        invariant
            i <= edus@.len(),
            all == parsed_texts(edus@),
            actions_view(actions@) == all_actions(all.take(i as int), own_server@, origin@),
        decreases edus.len() - i,
    {
        assert(all.take(i + 1).drop_last() =~= all.take(i as int));
        if let Ok(edu) = codec::parse(edus[i].as_str()) {
            let ghost before = actions@;
            let mut more: Vec<EduAction> = read_edu(&edu, own_server, origin);
            let ghost added = more@;
            actions.append(&mut more);
            assert(actions_view(actions@) =~= actions_view(before) + actions_view(added));
        }
        i = i + 1;
    }
    assert(all.take(i as int) =~= all);
    actions
}

/// What the inbox and the passing state are after an action. `now` is the time on the clock of
/// the passing state.
pub open spec fn acted(
    state: (E2eeView, EphemeralView),
    action: EduActionView,
    now: int,
) -> (E2eeView, EphemeralView) {
    match action {
        EduActionView::ToDevice { user, event_type, sender, content } => (
            e2ee::pushed(state.0, user, e2ee::message(event_type, sender, content)),
            state.1,
        ),
        EduActionView::Typing { room, typist, typing } => (
            state.0,
            ephemeral::with_typing(
                state.1,
                room,
                typist,
                typing,
                now + ephemeral::typing_nanos(None),
                now,
            ),
        ),
        EduActionView::Receipt { room, reader, receipt } => (
            state.0,
            ephemeral::with_receipt(state.1, room, reader, receipt),
        ),
    }
}

/// What the inbox and the passing state are after actions in their order.
pub open spec fn acted_all(
    state: (E2eeView, EphemeralView),
    actions: Seq<EduActionView>,
    now: int,
) -> (E2eeView, EphemeralView)
    decreases actions.len(),
{
    if actions.len() == 0 {
        state
    } else {
        acted(acted_all(state, actions.drop_last(), now), actions.last(), now)
    }
}

/// The changes that actions write to the journal of keys and messages, when the next message has
/// the given identifier.
pub open spec fn journaled(next: int, actions: Seq<EduActionView>) -> Seq<OpView>
    decreases actions.len(),
{
    if actions.len() == 0 {
        seq![]
    } else {
        let front = journaled(next, actions.drop_last());
        match actions.last() {
            EduActionView::ToDevice { user, event_type, sender, content } => front.push(
                (OpView::PushToDevice {
                    id: next + front.len(),
                    user,
                    event: e2ee::message(event_type, sender, content),
                }),
            ),
            _ => front,
        }
    }
}

/// How many of the actions are messages to devices: each of them takes an identifier.
pub open spec fn message_count(actions: Seq<EduActionView>) -> nat
    decreases actions.len(),
{
    if actions.len() == 0 {
        0
    } else {
        message_count(actions.drop_last()) + if actions.last() is ToDevice {
            1nat
        } else {
            0
        }
    }
}

/// How many of the actions are messages to devices.
fn count_messages(actions: &Vec<EduAction>) -> (n: usize)
    ensures
        n == message_count(actions_view(actions@)),
{
    let ghost views = actions_view(actions@);
    let mut n: usize = 0;
    let mut i: usize = 0;
    assert(views.take(0) =~= Seq::empty());
    while i < actions.len()
        invariant
            i <= actions@.len(),
            n <= i,
            views == actions_view(actions@),
            n == message_count(views.take(i as int)),
        decreases actions.len() - i,
    {
        assert(views.take(i + 1).drop_last() =~= views.take(i as int));
        if let EduAction::ToDevice { .. } = &actions[i] {
            n = n + 1;
        }
        i = i + 1;
    }
    assert(views.take(i as int) =~= views);
    n
}

proof fn lemma_next_id(state: (E2eeView, EphemeralView), actions: Seq<EduActionView>, now: int)
    ensures
        acted_all(state, actions, now).0.next_id == state.0.next_id + message_count(actions),
        journaled(state.0.next_id, actions).len() == message_count(actions),
    decreases actions.len(),
{
    if actions.len() > 0 {
        lemma_next_id(state, actions.drop_last(), now);
    }
}

proof fn lemma_message_count_grows(actions: Seq<EduActionView>, n: int)
    requires
        0 <= n <= actions.len(),
    ensures
        message_count(actions.take(n)) <= message_count(actions),
    decreases actions.len(),
{
    if n < actions.len() {
        lemma_message_count_grows(actions.drop_last(), n);
        assert(actions.drop_last().take(n) =~= actions.take(n));
    } else {
        assert(actions.take(n) =~= actions);
    }
}

/// Does what actions ask for, in their order.
pub fn perform(
    inbox: &mut E2eeState,
    passing: &mut EphemeralState,
    actions: Vec<EduAction>,
    now: u128,
)
    requires
        old(inbox)@.next_id + message_count(actions_view(actions@)) <= i64::MAX,
        now + ephemeral::MAX_TYPING_SECS * crate::engine::NANOS_PER_SEC <= u128::MAX,
    ensures
        (final(inbox)@, final(passing)@) == acted_all(
            (old(inbox)@, old(passing)@),
            actions_view(actions@),
            now as int,
        ),
        final(inbox).keys.journal_view() == key_store::logged_all(
            old(inbox).keys.journal_view(),
            journaled(old(inbox)@.next_id, actions_view(actions@)),
        ),
{
    let ghost all = actions@;
    let ghost views = actions_view(all);
    let ghost start = (inbox@, passing@);
    proof {
        assert(views.take(0) =~= Seq::empty());
        if let Some(j) = inbox.keys.journal_view() {
            assert(j =~= j + journaled(start.0.next_id, views.take(0)));
        }
    }
    for action in it: actions
        invariant
            it.seq() == all,
            views == actions_view(all),
            start == (old(inbox)@, old(passing)@),
            start.0.next_id + message_count(views) <= i64::MAX,
            now + ephemeral::MAX_TYPING_SECS * crate::engine::NANOS_PER_SEC <= u128::MAX,
            (inbox@, passing@) == acted_all(start, views.take(it.index() as int), now as int),
            inbox.keys.journal_view() == key_store::logged_all(
                old(inbox).keys.journal_view(),
                journaled(start.0.next_id, views.take(it.index() as int)),
            ),
    {
        let ghost i = it.index() as int;
        proof {
            assert(action == all[i]);
            assert(views.take(i + 1).drop_last() =~= views.take(i));
            assert(views.take(i + 1).last() == action@);
            lemma_next_id(start, views.take(i), now as int);
            lemma_message_count_grows(views, i + 1);
            if let Some(j) = old(inbox).keys.journal_view() {
                let before = journaled(start.0.next_id, views.take(i));
                let after = journaled(start.0.next_id, views.take(i + 1));
                if after.len() > before.len() {
                    assert((j + before).push(after.last()) =~= j + after);
                }
            }
        }
        match action {
            EduAction::ToDevice { user, event_type, sender, content } => {
                inbox.push_to_device(user.as_str(), event_type.as_str(), sender.as_str(), content);
            },
            EduAction::Typing { room, typist, typing } => {
                passing.set_typing(room.as_str(), typist.as_str(), typing, None, now);
            },
            EduAction::Receipt { room, reader, receipt } => {
                passing.set_receipt(room.as_str(), reader.as_str(), receipt);
            },
        }
    }
    assert(views.take(views.len() as int) =~= views);
}

/// Reads the ephemeral messages of a transaction and does what they ask for, when the inbox has
/// an identifier for each message to a device among them; says whether it had.
pub fn deliver_edus(
    inbox: &mut E2eeState,
    passing: &mut EphemeralState,
    own_server: &str,
    origin: &str,
    edus: &Vec<String>,
    now: u128,
) -> (delivered: bool)
    requires
        now + ephemeral::MAX_TYPING_SECS * crate::engine::NANOS_PER_SEC <= u128::MAX,
    ensures
        ({
            let actions = all_actions(parsed_texts(edus@), own_server@, origin@);
            &&& delivered == (old(inbox)@.next_id + message_count(actions) <= i64::MAX)
            &&& delivered ==> (final(inbox)@, final(passing)@) == acted_all(
                (old(inbox)@, old(passing)@),
                actions,
                now as int,
            )
            &&& delivered ==> final(inbox).keys.journal_view() == key_store::logged_all(
                old(inbox).keys.journal_view(),
                journaled(old(inbox)@.next_id, actions),
            )
            &&& !delivered ==> final(inbox)@ == old(inbox)@ && final(passing)@ == old(passing)@
                && final(inbox).keys.journal_view() == old(inbox).keys.journal_view()
        }),
{
    let actions: Vec<EduAction> = read_edus(edus, own_server, origin);
    let room: i128 = i64::MAX as i128 - inbox.next_inbox_id as i128;
    if count_messages(&actions) as i128 <= room {
        perform(inbox, passing, actions, now);
        true
    } else {
        false
    }
}

proof fn lemma_device_messages_ours(
    own_server: Seq<char>,
    user: Seq<char>,
    event_type: Seq<char>,
    sender: Seq<char>,
    devices: Map<Seq<char>, JsonView>,
    order: Seq<Seq<char>>,
    i: int,
)
    requires
        ids::on_server(user, own_server),
        0 <= i < device_messages(user, event_type, sender, devices, order).len(),
    ensures
        device_messages(user, event_type, sender, devices, order)[i] matches EduActionView::ToDevice {
            user: u,
            ..
        } && ids::on_server(u, own_server),
    decreases order.len(),
{
    if order.len() > 0 {
        let front = device_messages(user, event_type, sender, devices, order.drop_last());
        if i < front.len() {
            lemma_device_messages_ours(
                own_server,
                user,
                event_type,
                sender,
                devices,
                order.drop_last(),
                i,
            );
        }
    }
}

proof fn lemma_user_messages_ours(
    own_server: Seq<char>,
    event_type: Seq<char>,
    sender: Seq<char>,
    messages: Map<Seq<char>, JsonView>,
    order: Seq<Seq<char>>,
    i: int,
)
    requires
        0 <= i < user_messages(own_server, event_type, sender, messages, order).len(),
    ensures
        user_messages(own_server, event_type, sender, messages, order)[i] matches EduActionView::ToDevice {
            user: u,
            ..
        } && ids::on_server(u, own_server),
    decreases order.len(),
{
    if order.len() > 0 {
        let front = user_messages(own_server, event_type, sender, messages, order.drop_last());
        if i < front.len() {
            lemma_user_messages_ours(
                own_server,
                event_type,
                sender,
                messages,
                order.drop_last(),
                i,
            );
        } else if let JsonView::Object(devices) = messages[order.last()] {
            lemma_device_messages_ours(
                own_server,
                order.last(),
                event_type,
                sender,
                devices,
                strmap::sorted_keys(devices.dom()),
                i - front.len(),
            );
        }
    }
}

/// A message to devices reaches users of this server alone: nothing is passed on.
pub proof fn law_messages_reach_our_users_alone(content: Option<JsonView>, own_server: Seq<char>, i: int)
    requires
        0 <= i < to_device_actions(content, own_server).len(),
    ensures
        to_device_actions(content, own_server)[i] matches EduActionView::ToDevice { user, .. }
            && ids::on_server(user, own_server),
{
    let messages = (content->0).field("messages"@)->0;
    if let JsonView::Object(m) = messages {
        lemma_user_messages_ours(
            own_server,
            text_or_empty(content, "type"@),
            text_or_empty(content, "sender"@),
            m,
            strmap::sorted_keys(m.dom()),
            i,
        );
    }
}

/// A server cannot make a user of another server look as if they were typing.
pub proof fn law_typing_is_for_the_senders_users(content: Option<JsonView>, origin: Seq<char>, i: int)
    requires
        0 <= i < typing_actions(content, origin).len(),
    ensures
        typing_actions(content, origin)[i] matches EduActionView::Typing { room, typist, .. }
            && ids::on_server(typist, origin) && ids::room_id_valid(room),
{
}

} // verus!
