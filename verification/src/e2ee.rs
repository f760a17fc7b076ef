//! The server's share of end-to-end encryption: the directory of keys, and an inbox of messages
//! to devices, rebuilt at the start from what the store holds.
use crate::codec;
use crate::ephemeral;
use crate::json;
use crate::json::{Json, JsonObject, JsonView};
use crate::key_store;
use crate::key_store::{KeyStore, KeysView, Op, OpView};
use crate::strmap::StrMap;
use vstd::prelude::*;

verus! {

/// What the store holds, each value as JSON text: the keys of devices by user and device, the
/// one-time keys by user, device and identifier, the cross-signing sections by name, and the
/// messages with their identifiers and recipients.
pub struct E2eeSnapshot {
    pub devices: Vec<(String, String, String)>,
    pub one_time_keys: Vec<(String, String, String, String)>,
    pub cross_signing: Vec<(String, String)>,
    pub to_device: Vec<(i64, String, String)>,
}

/// What the store holds, each value parsed: `None` stands for a text that is not JSON.
pub struct ParsedSnapshot {
    pub devices: Vec<(String, String, Option<Json>)>,
    pub one_time_keys: Vec<(String, String, String, Option<Json>)>,
    pub cross_signing: Vec<(String, Option<Json>)>,
    pub to_device: Vec<(i64, String, Option<Json>)>,
}

/// A parsed value, as mathematics.
pub open spec fn parsed_view(v: Option<Json>) -> Option<JsonView> {
    match v {
        Some(j) => Some(j@),
        None => None,
    }
}

/// What the store holds, as mathematics.
#[verifier::ext_equal]
pub struct SnapshotView {
    pub devices: Seq<(Seq<char>, Seq<char>, Option<JsonView>)>,
    pub one_time_keys: Seq<(Seq<char>, Seq<char>, Seq<char>, Option<JsonView>)>,
    pub cross_signing: Seq<(Seq<char>, Option<JsonView>)>,
    pub to_device: Seq<(int, Seq<char>, Option<JsonView>)>,
}

impl View for E2eeSnapshot {
    type V = SnapshotView;

    open spec fn view(&self) -> SnapshotView {
        SnapshotView {
            devices: Seq::new(
                self.devices@.len(),
                |i: int|
                    {
                        let r = self.devices@[i];
                        (r.0@, r.1@, codec::parsed_json(r.2@))
                    },
            ),
            one_time_keys: Seq::new(
                self.one_time_keys@.len(),
                |i: int|
                    {
                        let r = self.one_time_keys@[i];
                        (r.0@, r.1@, r.2@, codec::parsed_json(r.3@))
                    },
            ),
            cross_signing: Seq::new(
                self.cross_signing@.len(),
                |i: int|
                    {
                        let r = self.cross_signing@[i];
                        (r.0@, codec::parsed_json(r.1@))
                    },
            ),
            to_device: Seq::new(
                self.to_device@.len(),
                |i: int|
                    {
                        let r = self.to_device@[i];
                        (r.0 as int, r.1@, codec::parsed_json(r.2@))
                    },
            ),
        }
    }
}

impl View for ParsedSnapshot {
    type V = SnapshotView;

    open spec fn view(&self) -> SnapshotView {
        SnapshotView {
            devices: Seq::new(
                self.devices@.len(),
                |i: int|
                    {
                        let r = self.devices@[i];
                        (r.0@, r.1@, parsed_view(r.2))
                    },
            ),
            one_time_keys: Seq::new(
                self.one_time_keys@.len(),
                |i: int|
                    {
                        let r = self.one_time_keys@[i];
                        (r.0@, r.1@, r.2@, parsed_view(r.3))
                    },
            ),
            cross_signing: Seq::new(
                self.cross_signing@.len(),
                |i: int|
                    {
                        let r = self.cross_signing@[i];
                        (r.0@, parsed_view(r.1))
                    },
            ),
            to_device: Seq::new(
                self.to_device@.len(),
                |i: int|
                    {
                        let r = self.to_device@[i];
                        (r.0 as int, r.1@, parsed_view(r.2))
                    },
            ),
        }
    }
}

/// The directory and the inbox, as mathematics, with a counter for those who wait. A user of whom
/// nothing is known has no messages.
#[verifier::ext_equal]
pub struct E2eeView {
    pub keys: KeysView,
    pub inbox: Map<Seq<char>, Seq<(int, JsonView)>>,
    pub next_id: int,
    pub changed: int,
}

/// The directory and the inbox.
pub struct E2eeState {
    /// The directory of keys.
    pub keys: KeyStore,
    /// The messages that wait for each user, with their identifiers, the oldest first.
    pub to_device: StrMap<Vec<(i64, Json)>>,
    /// The identifier of the next message.
    pub next_inbox_id: i64,
    /// Changes whenever a message comes in, for those who wait for one.
    pub changed: u64,
}

/// The messages of a list, as mathematics.
pub open spec fn messages_view(messages: Seq<(i64, Json)>) -> Seq<(int, JsonView)> {
    Seq::new(messages.len(), |i: int| (messages[i].0 as int, messages[i].1@))
}

/// The messages of a user.
pub open spec fn messages_of(m: Map<Seq<char>, Vec<(i64, Json)>>, user: Seq<char>) -> Seq<
    (int, JsonView),
> {
    if m.contains_key(user) {
        messages_view(m[user]@)
    } else {
        seq![]
    }
}

/// The messages of every user.
pub open spec fn inbox_view(m: Map<Seq<char>, Vec<(i64, Json)>>) -> Map<
    Seq<char>,
    Seq<(int, JsonView)>,
> {
    Map::new(|u: Seq<char>| true, |u: Seq<char>| messages_of(m, u))
}

impl View for E2eeState {
    type V = E2eeView;

    open spec fn view(&self) -> E2eeView {
        E2eeView {
            keys: self.keys@,
            inbox: inbox_view(self.to_device@),
            next_id: self.next_inbox_id as int,
            changed: self.changed as int,
        }
    }
}

/// A message to a device, as it is delivered.
pub open spec fn message(event_type: Seq<char>, sender: Seq<char>, content: JsonView) -> JsonView {
    JsonView::Object(
        Map::empty().insert("type"@, JsonView::Text(event_type)).insert(
            "sender"@,
            JsonView::Text(sender),
        ).insert("content"@, content),
    )
}

/// The devices with the rows of the store read in.
pub open spec fn loaded_devices(
    devices: Map<Seq<char>, Map<Seq<char>, JsonView>>,
    rows: Seq<(Seq<char>, Seq<char>, Option<JsonView>)>,
) -> Map<Seq<char>, Map<Seq<char>, JsonView>>
    decreases rows.len(),
{
    if rows.len() == 0 {
        devices
    } else {
        let front = loaded_devices(devices, rows.drop_last());
        let (user, device, keys) = rows.last();
        match keys {
            Some(k) => key_store::with_device(front, user, device, k),
            None => front,
        }
    }
}

/// The one-time keys with the rows of the store read in.
pub open spec fn loaded_keys(
    one_time: Map<(Seq<char>, Seq<char>), Seq<(Seq<char>, JsonView)>>,
    rows: Seq<(Seq<char>, Seq<char>, Seq<char>, Option<JsonView>)>,
) -> Map<(Seq<char>, Seq<char>), Seq<(Seq<char>, JsonView)>>
    decreases rows.len(),
{
    if rows.len() == 0 {
        one_time
    } else {
        let front = loaded_keys(one_time, rows.drop_last());
        let (user, device, key_id, key) = rows.last();
        match key {
            Some(k) => front.insert(
                (user, device),
                key_store::written(front[(user, device)], key_id, k),
            ),
            None => front,
        }
    }
}

/// The cross-signing sections with the rows of the store read in.
pub open spec fn loaded_sections(
    sections: Map<Seq<char>, JsonView>,
    rows: Seq<(Seq<char>, Option<JsonView>)>,
) -> Map<Seq<char>, JsonView>
    decreases rows.len(),
{
    if rows.len() == 0 {
        sections
    } else {
        let front = loaded_sections(sections, rows.drop_last());
        let (name, value) = rows.last();
        match value {
            Some(v) => front.insert(name, v),
            None => front,
        }
    }
}

/// The inbox with the rows of the store read in.
pub open spec fn loaded_inbox(
    inbox: Map<Seq<char>, Seq<(int, JsonView)>>,
    rows: Seq<(int, Seq<char>, Option<JsonView>)>,
) -> Map<Seq<char>, Seq<(int, JsonView)>>
    decreases rows.len(),
{
    if rows.len() == 0 {
        inbox
    } else {
        let front = loaded_inbox(inbox, rows.drop_last());
        let (id, user, event) = rows.last();
        match event {
            Some(e) => front.insert(user, front[user].push((id, e))),
            None => front,
        }
    }
}

/// The next identifier once the rows of the store are read in: past every identifier of theirs.
pub open spec fn next_after(next: int, rows: Seq<(int, Seq<char>, Option<JsonView>)>) -> int
    decreases rows.len(),
{
    if rows.len() == 0 {
        next
    } else {
        let front = next_after(next, rows.drop_last());
        if rows.last().0 >= front {
            rows.last().0 + 1
        } else {
            front
        }
    }
}

/// The state with the rows of the store read in.
pub open spec fn loaded(state: E2eeView, rows: SnapshotView) -> E2eeView {
    E2eeView {
        keys: KeysView {
            devices: loaded_devices(state.keys.devices, rows.devices),
            one_time: loaded_keys(state.keys.one_time, rows.one_time_keys),
            cross_signing: loaded_sections(state.keys.cross_signing, rows.cross_signing),
        },
        inbox: loaded_inbox(state.inbox, rows.to_device),
        next_id: next_after(state.next_id, rows.to_device),
        changed: if rows.to_device.len() > 0 {
            ephemeral::bumped(state.changed)
        } else {
            state.changed
        },
    }
}

/// The value that a text holds; `None` when it is not JSON.
fn parse_row(text: &str) -> (v: Option<Json>)
    ensures
        parsed_view(v) == codec::parsed_json(text@),
{
    match codec::parse(text) {
        Ok(v) => Some(v),
        Err(_) => None,
    }
}

/// Parses the values that the store holds.
pub fn parse_snapshot(snapshot: &E2eeSnapshot) -> (parsed: ParsedSnapshot)
    ensures
        parsed@ == snapshot@,
{
    let mut devices: Vec<(String, String, Option<Json>)> = Vec::new();
    let mut i: usize = 0;
    while i < snapshot.devices.len()
        invariant
            i <= snapshot.devices@.len(),
            devices@.len() == i,
            forall|j: int|
                0 <= j < i ==> (#[trigger] devices@[j]).0@ == snapshot.devices@[j].0@ && devices@[j].1@
                    == snapshot.devices@[j].1@ && parsed_view(devices@[j].2) == codec::parsed_json(
                    snapshot.devices@[j].2@,
                ),
        decreases snapshot.devices.len() - i,
    {
        let row: &(String, String, String) = &snapshot.devices[i];
        devices.push((row.0.clone(), row.1.clone(), parse_row(row.2.as_str())));
        i = i + 1;
    }
    let mut one_time_keys: Vec<(String, String, String, Option<Json>)> = Vec::new();
    let mut i: usize = 0;
    while i < snapshot.one_time_keys.len()
        invariant
            i <= snapshot.one_time_keys@.len(),
            one_time_keys@.len() == i,
            forall|j: int|
                0 <= j < i ==> (#[trigger] one_time_keys@[j]).0@ == snapshot.one_time_keys@[j].0@
                    && one_time_keys@[j].1@ == snapshot.one_time_keys@[j].1@ && one_time_keys@[j].2@
                    == snapshot.one_time_keys@[j].2@ && parsed_view(one_time_keys@[j].3)
                    == codec::parsed_json(snapshot.one_time_keys@[j].3@),
        decreases snapshot.one_time_keys.len() - i,
    {
        let row: &(String, String, String, String) = &snapshot.one_time_keys[i];
        one_time_keys.push(
            (row.0.clone(), row.1.clone(), row.2.clone(), parse_row(row.3.as_str())),
        );
        i = i + 1;
    }
    let mut cross_signing: Vec<(String, Option<Json>)> = Vec::new();
    let mut i: usize = 0;
    while i < snapshot.cross_signing.len()
        invariant
            i <= snapshot.cross_signing@.len(),
            cross_signing@.len() == i,
            forall|j: int|
                0 <= j < i ==> (#[trigger] cross_signing@[j]).0@ == snapshot.cross_signing@[j].0@
                    && parsed_view(cross_signing@[j].1) == codec::parsed_json(
                    snapshot.cross_signing@[j].1@,
                ),
        decreases snapshot.cross_signing.len() - i,
    {
        let row: &(String, String) = &snapshot.cross_signing[i];
        cross_signing.push((row.0.clone(), parse_row(row.1.as_str())));
        i = i + 1;
    }
    let mut to_device: Vec<(i64, String, Option<Json>)> = Vec::new();
    let mut i: usize = 0;
    while i < snapshot.to_device.len()
        invariant
            i <= snapshot.to_device@.len(),
            to_device@.len() == i,
            forall|j: int|
                0 <= j < i ==> (#[trigger] to_device@[j]).0 == snapshot.to_device@[j].0
                    && to_device@[j].1@ == snapshot.to_device@[j].1@ && parsed_view(to_device@[j].2)
                    == codec::parsed_json(snapshot.to_device@[j].2@),
        decreases snapshot.to_device.len() - i,
    {
        let row: &(i64, String, String) = &snapshot.to_device[i];
        to_device.push((row.0, row.1.clone(), parse_row(row.2.as_str())));
        i = i + 1;
    }
    let parsed = ParsedSnapshot { devices, one_time_keys, cross_signing, to_device };
    assert(parsed@.devices =~= snapshot@.devices);
    assert(parsed@.one_time_keys =~= snapshot@.one_time_keys);
    assert(parsed@.cross_signing =~= snapshot@.cross_signing);
    assert(parsed@.to_device =~= snapshot@.to_device);
    parsed
}

impl E2eeState {
    /// A directory and an inbox that hold nothing.
    pub fn new() -> (s: Self)
        ensures
            s@.keys.devices == Map::<Seq<char>, Map<Seq<char>, JsonView>>::empty(),
            forall|p: (Seq<char>, Seq<char>)| #[trigger] s@.keys.one_time.contains_key(p)
                && s@.keys.one_time[p] == Seq::<(Seq<char>, JsonView)>::empty(),
            s@.keys.cross_signing == Map::<Seq<char>, JsonView>::empty(),
            forall|u: Seq<char>| #[trigger] s@.inbox.contains_key(u) && s@.inbox[u] == Seq::<
                (int, JsonView),
            >::empty(),
            s@.next_id == 0,
            s.keys.journal_view() is None,
            s@.changed == 0,
    {
        E2eeState { keys: KeyStore::new(), to_device: StrMap::new(), next_inbox_id: 0, changed: 0 }
    }

    /// Queues a message under the given identifier, behind those that wait.
    fn queue(&mut self, user: &str, id: i64, event: Json)
        ensures
            final(self)@ == (E2eeView {
                inbox: old(self)@.inbox.insert(
                    user@,
                    old(self)@.inbox[user@].push((id as int, event@)),
                ),
                ..old(self)@
            }),
            final(self).keys == old(self).keys,
    {
        let mut waiting: Vec<(i64, Json)> = match self.to_device.remove(user) {
            Some(w) => w,
            None => Vec::new(),
        };
        let ghost before = waiting@;
        waiting.push((id, event));
        assert(messages_view(waiting@) =~= messages_view(before).push((id as int, event@)));
        assert(messages_view(before) =~= old(self)@.inbox[user@]);
        self.to_device.insert(user.to_owned(), waiting);
        assert(self@.inbox =~= old(self)@.inbox.insert(
            user@,
            old(self)@.inbox[user@].push((id as int, event@)),
        ));
    }

    /// Reads in what the store holds. Nothing of it is written to the journal.
    pub fn load_rows(&mut self, rows: ParsedSnapshot)
        requires
            forall|i: int|
                0 <= i < rows.to_device@.len() ==> (#[trigger] rows.to_device@[i]).0 < i64::MAX,
        ensures
            final(self)@ == loaded(old(self)@, rows@),
            final(self).keys.journal_view() == old(self).keys.journal_view(),
    {
        let ghost all = rows@;
        let ghost start = self@;
        let ParsedSnapshot { devices, one_time_keys, cross_signing, to_device } = rows;
        let ghost device_rows = devices@;
        let any: bool = to_device.len() > 0;
        assert(all.devices.take(0) =~= Seq::empty());
        for row in it: devices
            invariant
                it.seq() == device_rows,
                all.devices.len() == device_rows.len(),
                forall|j: int|
                    0 <= j < device_rows.len() ==> all.devices[j] == (
                        (#[trigger] device_rows[j]).0@,
                        device_rows[j].1@,
                        parsed_view(device_rows[j].2),
                    ),
                start == old(self)@,
                self@ == (E2eeView {
                    keys: KeysView {
                        devices: loaded_devices(
                            start.keys.devices,
                            all.devices.take(it.index() as int),
                        ),
                        ..start.keys
                    },
                    ..start
                }),
                self.keys.journal_view() == old(self).keys.journal_view(),
        {
            let ghost i = it.index() as int;
            proof {
                assert(row == device_rows[i]);
                assert(all.devices.take(i + 1).drop_last() =~= all.devices.take(i));
            }
            let (user, device, keys): (String, String, Option<Json>) = row;
            if let Some(keys) = keys {
                self.keys.set_device(user.as_str(), device.as_str(), keys);
            }
        }
        assert(all.devices.take(all.devices.len() as int) =~= all.devices);
        let ghost key_rows = one_time_keys@;
        let ghost middle = self@;
        assert(all.one_time_keys.take(0) =~= Seq::empty());
        for row in it: one_time_keys
            invariant
                it.seq() == key_rows,
                all.one_time_keys.len() == key_rows.len(),
                forall|j: int|
                    0 <= j < key_rows.len() ==> all.one_time_keys[j] == (
                        (#[trigger] key_rows[j]).0@,
                        key_rows[j].1@,
                        key_rows[j].2@,
                        parsed_view(key_rows[j].3),
                    ),
                self@ == (E2eeView {
                    keys: KeysView {
                        one_time: loaded_keys(
                            middle.keys.one_time,
                            all.one_time_keys.take(it.index() as int),
                        ),
                        ..middle.keys
                    },
                    ..middle
                }),
                self.keys.journal_view() == old(self).keys.journal_view(),
        {
            let ghost i = it.index() as int;
            proof {
                assert(row == key_rows[i]);
                assert(all.one_time_keys.take(i + 1).drop_last() =~= all.one_time_keys.take(i));
            }
            let (user, device, key_id, key): (String, String, String, Option<Json>) = row;
            if let Some(key) = key {
                self.keys.set_one_time_key(user.as_str(), device.as_str(), key_id, key);
            }
        }
        assert(all.one_time_keys.take(all.one_time_keys.len() as int) =~= all.one_time_keys);
        let ghost section_rows = cross_signing@;
        let ghost later = self@;
        assert(all.cross_signing.take(0) =~= Seq::empty());
        for row in it: cross_signing
            invariant
                it.seq() == section_rows,
                all.cross_signing.len() == section_rows.len(),
                forall|j: int|
                    0 <= j < section_rows.len() ==> all.cross_signing[j] == (
                        (#[trigger] section_rows[j]).0@,
                        parsed_view(section_rows[j].1),
                    ),
                self@ == (E2eeView {
                    keys: KeysView {
                        cross_signing: loaded_sections(
                            later.keys.cross_signing,
                            all.cross_signing.take(it.index() as int),
                        ),
                        ..later.keys
                    },
                    ..later
                }),
                self.keys.journal_view() == old(self).keys.journal_view(),
        {
            let ghost i = it.index() as int;
            proof {
                assert(row == section_rows[i]);
                assert(all.cross_signing.take(i + 1).drop_last() =~= all.cross_signing.take(i));
            }
            let (name, value): (String, Option<Json>) = row;
            if let Some(value) = value {
                self.keys.set_cross_signing(name.as_str(), value);
            }
        }
        assert(all.cross_signing.take(all.cross_signing.len() as int) =~= all.cross_signing);
        let ghost message_rows = to_device@;
        let ghost last = self@;
        assert(all.to_device.take(0) =~= Seq::empty());
        for row in it: to_device
            invariant
                it.seq() == message_rows,
                all.to_device.len() == message_rows.len(),
                forall|j: int|
                    0 <= j < message_rows.len() ==> all.to_device[j] == (
                        (#[trigger] message_rows[j]).0 as int,
                        message_rows[j].1@,
                        parsed_view(message_rows[j].2),
                    ),
                forall|j: int| 0 <= j < message_rows.len() ==> (#[trigger] message_rows[j]).0 < i64::MAX,
                self@ == (E2eeView {
                    inbox: loaded_inbox(last.inbox, all.to_device.take(it.index() as int)),
                    next_id: next_after(last.next_id, all.to_device.take(it.index() as int)),
                    ..last
                }),
                self.keys.journal_view() == old(self).keys.journal_view(),
        {
            let ghost i = it.index() as int;
            proof {
                assert(row == message_rows[i]);
                assert(all.to_device.take(i + 1).drop_last() =~= all.to_device.take(i));
            }
            let (id, user, event): (i64, String, Option<Json>) = row;
            if let Some(event) = event {
                self.queue(user.as_str(), id, event);
            }
            if id >= self.next_inbox_id {
                self.next_inbox_id = id + 1;
            }
        }
        assert(all.to_device.take(all.to_device.len() as int) =~= all.to_device);
        if any {
            self.changed = self.changed.wrapping_add(1);
        }
    }

    /// Parses what the store holds and reads it in; a value that is not JSON is passed over.
    pub fn load(&mut self, snapshot: &E2eeSnapshot)
        requires
            forall|i: int|
                0 <= i < snapshot.to_device@.len() ==> (#[trigger] snapshot.to_device@[i]).0 < i64::MAX,
        ensures
            final(self)@ == loaded(old(self)@, snapshot@),
            final(self).keys.journal_view() == old(self).keys.journal_view(),
    {
        let rows: ParsedSnapshot = parse_snapshot(snapshot);
        proof {
            assert(rows@.to_device.len() == snapshot@.to_device.len());
            assert forall|i: int| 0 <= i < rows.to_device@.len() implies (#[trigger] rows.to_device@[i]).0
                < i64::MAX by {
                assert(rows@.to_device[i].0 == snapshot@.to_device[i].0);
                assert(snapshot.to_device@[i].0 < i64::MAX);
            }
        }
        self.load_rows(rows);
    }

    /// Queues a message for a user.
    pub fn push_to_device(&mut self, user: &str, event_type: &str, sender: &str, content: Json)
        requires
            old(self)@.next_id < i64::MAX,
        ensures
            ({
                let event = message(event_type@, sender@, content@);
                &&& final(self)@ == pushed(old(self)@, user@, event)
                &&& final(self).keys.journal_view() == key_store::logged(
                    old(self).keys.journal_view(),
                    (OpView::PushToDevice { id: old(self)@.next_id, user: user@, event }),
                )
            }),
    {
        let mut event: JsonObject = JsonObject::new();
        event.insert("type".to_owned(), Json::text(event_type.to_owned()));
        event.insert("sender".to_owned(), Json::text(sender.to_owned()));
        event.insert("content".to_owned(), content);
        let event: Json = Json::object(event);
        let id: i64 = self.next_inbox_id;
        self.next_inbox_id = id + 1;
        self.keys.log(Op::PushToDevice { id, user: user.to_owned(), event: event.duplicate() });
        self.queue(user, id, event);
        self.changed = self.changed.wrapping_add(1);
    }

    /// Takes all messages that wait for a user, the oldest first.
    pub fn drain_to_device(&mut self, user: &str) -> (events: Vec<Json>)
        ensures
            json::array_view(events@) == events_of(old(self)@.inbox[user@]),
            final(self)@ == drained(old(self)@, user@),
            old(self)@.inbox[user@].len() > 0 ==> final(self).keys.journal_view() == key_store::logged(
                old(self).keys.journal_view(),
                (OpView::RemoveToDevice { ids: ids_of(old(self)@.inbox[user@]) }),
            ),
            old(self)@.inbox[user@].len() == 0 ==> final(self).keys.journal_view()
                == old(self).keys.journal_view(),
    {
        let waiting: Vec<(i64, Json)> = match self.to_device.remove(user) {
            Some(w) => w,
            None => Vec::new(),
        };
        let ghost all = waiting@;
        let ghost queue = old(self)@.inbox[user@];
        assert(messages_view(all) =~= queue);
        assert(self@.inbox =~= old(self)@.inbox.insert(user@, Seq::<(int, JsonView)>::empty()));
        let mut ids: Vec<i64> = Vec::new();
        let mut events: Vec<Json> = Vec::new();
        for entry in it: waiting
            invariant
                it.seq() == all,
                ids@.len() == it.index(),
                events@.len() == it.index(),
                forall|j: int| 0 <= j < ids@.len() ==> #[trigger] ids@[j] == all[j].0,
                forall|j: int| 0 <= j < events@.len() ==> (#[trigger] events@[j])@ == all[j].1@,
        {
            assert(entry == all[it.index() as int]);
            ids.push(entry.0);
            events.push(entry.1);
        }
        assert(queue.len() == all.len());
        assert forall|j: int| 0 <= j < all.len() implies #[trigger] queue[j] == (
            all[j].0 as int,
            all[j].1@,
        ) by {
            assert(messages_view(all)[j] == queue[j]);
        }
        assert(json::array_view(events@) =~= events_of(queue));
        assert(key_store::ids_view(ids@) =~= ids_of(queue));
        if events.len() > 0 {
            self.keys.log(Op::RemoveToDevice { ids });
        }
        events
    }

    /// How many messages wait for a user.
    pub fn pending_to_device(&self, user: &str) -> (n: usize)
        ensures
            n == self@.inbox[user@].len(),
    {
        match self.to_device.get(user) {
            Some(w) => w.len(),
            None => 0,
        }
    }

    /// The counts of the one-time keys of a user, as a sync reports them.
    pub fn one_time_key_counts_for_user(&self, user: &str) -> (counts: JsonObject)
        ensures
            counts@ == key_store::least_counts(self@.keys, user@),
    {
        self.keys.one_time_key_counts_for_user(user)
    }
}

/// The state with a message queued.
pub open spec fn pushed(state: E2eeView, user: Seq<char>, event: JsonView) -> E2eeView {
    E2eeView {
        inbox: state.inbox.insert(user, state.inbox[user].push((state.next_id, event))),
        next_id: state.next_id + 1,
        changed: ephemeral::bumped(state.changed),
        ..state
    }
}

/// The state once the messages of a user are taken.
pub open spec fn drained(state: E2eeView, user: Seq<char>) -> E2eeView {
    E2eeView { inbox: state.inbox.insert(user, seq![]), ..state }
}

/// The contents of messages.
pub open spec fn events_of(queue: Seq<(int, JsonView)>) -> Seq<JsonView> {
    Seq::new(queue.len(), |i: int| queue[i].1)
}

/// The identifiers of messages.
pub open spec fn ids_of(queue: Seq<(int, JsonView)>) -> Seq<int> {
    Seq::new(queue.len(), |i: int| queue[i].0)
}

} // verus!
