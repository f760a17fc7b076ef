//! The directory of device keys and one-time keys.
//!
//! The cryptography is in the clients. The server remembers which devices there are, and hands
//! out one one-time key per device that is asked for, the oldest first and none of them twice.
//! What is held in memory is what counts; every change is also written to a journal, in order,
//! from which the store follows.
use crate::event;
use crate::json;
use crate::json::{Json, JsonObject, JsonView};
use crate::lists;
use crate::strmap;
use crate::strmap::StrMap;
use crate::text;
use vstd::prelude::*;

verus! {

/// `indexmap::IndexMap`: a map that is walked in the order in which its keys came.
#[verifier::external_type_specification]
#[verifier::external_body]
#[verifier::reject_recursive_types(K)]
#[verifier::reject_recursive_types(V)]
#[verifier::reject_recursive_types(S)]
pub struct ExIndexMap<K, V, S>(indexmap::IndexMap<K, V, S>);

/// The keys and values of an `indexmap::IndexMap`, in its order.
pub uninterp spec fn index_entries(m: indexmap::IndexMap<String, Json>) -> Seq<(Seq<char>, JsonView)>;

/// Whether a key stands among entries.
pub open spec fn holds(entries: Seq<(Seq<char>, JsonView)>, key: Seq<char>) -> bool {
    exists|i: int| 0 <= i < entries.len() && (#[trigger] entries[i]).0 == key
}

/// Whether no key stands twice among entries.
pub open spec fn distinct(entries: Seq<(Seq<char>, JsonView)>) -> bool {
    forall|i: int, j: int|
        0 <= i < j < entries.len() ==> (#[trigger] entries[i]).0 != (#[trigger] entries[j]).0
}

/// The condition that an entry has the given key.
pub open spec fn has_key(key: Seq<char>) -> spec_fn((Seq<char>, JsonView)) -> bool {
    |e: (Seq<char>, JsonView)| e.0 == key
}

/// Where a key stands among entries; their number when it is absent.
pub open spec fn place(entries: Seq<(Seq<char>, JsonView)>, key: Seq<char>) -> int {
    lists::first_where(entries, has_key(key))
}

/// The keys of entries, in order.
pub open spec fn keys_of(entries: Seq<(Seq<char>, JsonView)>) -> Seq<Seq<char>> {
    Seq::new(entries.len(), |i: int| entries[i].0)
}

/// Entries with a value written for a key: in place of the value there, or behind the others.
pub open spec fn written(
    entries: Seq<(Seq<char>, JsonView)>,
    key: Seq<char>,
    value: JsonView,
) -> Seq<(Seq<char>, JsonView)> {
    if holds(entries, key) {
        entries.update(place(entries, key), (key, value))
    } else {
        entries.push((key, value))
    }
}

/// `IndexMap::new`: a map that holds nothing.
#[verifier::external_body]
fn index_new() -> (m: indexmap::IndexMap<String, Json>)
    ensures
        index_entries(m) == Seq::<(Seq<char>, JsonView)>::empty(),
{
    indexmap::IndexMap::new()
}

/// `IndexMap::contains_key`: whether the map holds the key.
#[verifier::external_body]
fn index_contains(m: &indexmap::IndexMap<String, Json>, key: &str) -> (held: bool)
    ensures
        held == holds(index_entries(*m), key@),
{
    m.contains_key(key)
}

/// `IndexMap::insert`: the value takes the place of the one for the key, or comes behind the
/// others with a new key.
#[verifier::external_body]
fn index_insert(m: &mut indexmap::IndexMap<String, Json>, key: String, value: Json)
    ensures
        index_entries(*final(m)) == written(index_entries(*old(m)), key@, value@),
{
    m.insert(key, value);
}

/// `IndexMap::shift_remove`: takes out the key and its value, and keeps the order of the others.
#[verifier::external_body]
fn index_remove(m: &mut indexmap::IndexMap<String, Json>, key: &str) -> (value: Option<Json>)
    ensures
        value is Some == holds(index_entries(*old(m)), key@),
        value matches Some(v) ==> index_entries(*old(m))[place(index_entries(*old(m)), key@)].1 == v@
            && index_entries(*final(m)) == index_entries(*old(m)).remove(
            place(index_entries(*old(m)), key@),
        ),
        value is None ==> index_entries(*final(m)) == index_entries(*old(m)),
{
    m.shift_remove(key)
}

/// `IndexMap::keys`: the keys in order, each once.
#[verifier::external_body]
fn index_keys(m: &indexmap::IndexMap<String, Json>) -> (keys: Vec<String>)
    ensures
        event::views(keys@) == keys_of(index_entries(*m)),
        event::views(keys@).no_duplicates(),
{
    m.keys().cloned().collect()
}

/// A change that the store has to follow, in the order of the journal.
pub enum Op {
    PutDevice { user: String, device: String, keys: Json },
    PutOneTimeKeys { user: String, device: String, one_time: Vec<(String, Json)> },
    RemoveOneTimeKey { user: String, device: String, key_id: String },
    PutCrossSigning { name: String, value: Json },
    PushToDevice { id: i64, user: String, event: Json },
    RemoveToDevice { ids: Vec<i64> },
}

/// A change as mathematics.
#[verifier::ext_equal]
pub enum OpView {
    PutDevice { user: Seq<char>, device: Seq<char>, keys: JsonView },
    PutOneTimeKeys { user: Seq<char>, device: Seq<char>, one_time: Seq<(Seq<char>, JsonView)> },
    RemoveOneTimeKey { user: Seq<char>, device: Seq<char>, key_id: Seq<char> },
    PutCrossSigning { name: Seq<char>, value: JsonView },
    PushToDevice { id: int, user: Seq<char>, event: JsonView },
    RemoveToDevice { ids: Seq<int> },
}

/// Pairs of a key and a value, as mathematics.
pub open spec fn pairs_view(pairs: Seq<(String, Json)>) -> Seq<(Seq<char>, JsonView)> {
    Seq::new(pairs.len(), |i: int| (pairs[i].0@, pairs[i].1@))
}

/// Numbers, as mathematics.
pub open spec fn ids_view(ids: Seq<i64>) -> Seq<int> {
    Seq::new(ids.len(), |i: int| ids[i] as int)
}

impl View for Op {
    type V = OpView;

    open spec fn view(&self) -> OpView {
        match *self {
            Op::PutDevice { user, device, keys } => OpView::PutDevice {
                user: user@,
                device: device@,
                keys: keys@,
            },
            Op::PutOneTimeKeys { user, device, one_time } => OpView::PutOneTimeKeys {
                user: user@,
                device: device@,
                one_time: pairs_view(one_time@),
            },
            Op::RemoveOneTimeKey { user, device, key_id } => OpView::RemoveOneTimeKey {
                user: user@,
                device: device@,
                key_id: key_id@,
            },
            Op::PutCrossSigning { name, value } => OpView::PutCrossSigning {
                name: name@,
                value: value@,
            },
            Op::PushToDevice { id, user, event } => OpView::PushToDevice {
                id: id as int,
                user: user@,
                event: event@,
            },
            Op::RemoveToDevice { ids } => OpView::RemoveToDevice { ids: ids_view(ids@) },
        }
    }
}

/// The directory as mathematics: the devices of each user, the one-time keys of each device in
/// the order in which they came, and the cross-signing keys. A device of which nothing is known
/// has no one-time keys.
#[verifier::ext_equal]
pub struct KeysView {
    pub devices: Map<Seq<char>, Map<Seq<char>, JsonView>>,
    pub one_time: Map<(Seq<char>, Seq<char>), Seq<(Seq<char>, JsonView)>>,
    pub cross_signing: Map<Seq<char>, JsonView>,
}

/// The directory.
pub struct KeyStore {
    devices: StrMap<JsonObject>,
    one_time_keys: OneTimeKeys,
    cross_signing: JsonObject,
    journal: Option<Vec<Op>>,
}

/// Whether no device has a one-time key twice.
pub open spec fn all_distinct(
    one_time: Map<(Seq<char>, Seq<char>), Seq<(Seq<char>, JsonView)>>,
) -> bool {
    forall|p: (Seq<char>, Seq<char>)| #[trigger]
        one_time.contains_key(p) && distinct(one_time[p])
}

/// The one-time keys of a device.
pub open spec fn held_keys(
    m: Map<Seq<char>, StrMap<indexmap::IndexMap<String, Json>>>,
    user: Seq<char>,
    device: Seq<char>,
) -> Seq<(Seq<char>, JsonView)> {
    if m.contains_key(user) && m[user]@.contains_key(device) {
        index_entries(m[user]@[device])
    } else {
        seq![]
    }
}

/// The one-time keys of every device.
pub open spec fn held_view(m: Map<Seq<char>, StrMap<indexmap::IndexMap<String, Json>>>) -> Map<
    (Seq<char>, Seq<char>),
    Seq<(Seq<char>, JsonView)>,
> {
    Map::new(|p: (Seq<char>, Seq<char>)| true, |p: (Seq<char>, Seq<char>)| held_keys(m, p.0, p.1))
}

/// The one-time keys of all devices. No device has a key twice.
struct OneTimeKeys {
    slots: StrMap<StrMap<indexmap::IndexMap<String, Json>>>,
}

impl View for OneTimeKeys {
    type V = Map<(Seq<char>, Seq<char>), Seq<(Seq<char>, JsonView)>>;

    closed spec fn view(&self) -> Map<(Seq<char>, Seq<char>), Seq<(Seq<char>, JsonView)>> {
        held_view(self.slots@)
    }
}

impl OneTimeKeys {
    #[verifier::type_invariant]
    spec fn wf(self) -> bool {
        all_distinct(held_view(self.slots@))
    }

    /// No device has a key.
    fn new() -> (s: Self)
        ensures
            forall|p: (Seq<char>, Seq<char>)| #[trigger] s@.contains_key(p) && s@[p] == Seq::<
                (Seq<char>, JsonView),
            >::empty(),
    {
        OneTimeKeys { slots: StrMap::new() }
    }

    /// The identifiers of the keys of a device, the oldest first.
    fn ids(&self, user: &str, device: &str) -> (ids: Vec<String>)
        ensures
            event::views(ids@) == keys_of(self@[(user@, device@)]),
            all_distinct(self@),
    {
        proof {
            use_type_invariant(self);
        }
        let ids: Vec<String> = match self.slots.get(user) {
            Some(devices) => match devices.get(device) {
                Some(keys) => index_keys(keys),
                None => Vec::new(),
            },
            None => Vec::new(),
        };
        assert(event::views(ids@) =~= keys_of(self@[(user@, device@)]));
        ids
    }

    /// Takes out the keys of a device.
    fn take(&mut self, user: &str, device: &str) -> (keys: indexmap::IndexMap<String, Json>)
        ensures
            index_entries(keys) == old(self)@[(user@, device@)],
            final(self)@ == old(self)@.insert((user@, device@), seq![]),
            all_distinct(old(self)@),
            all_distinct(final(self)@),
    {
        proof {
            use_type_invariant(&*self);
        }
        let ghost before = self@;
        let mut slots: StrMap<StrMap<indexmap::IndexMap<String, Json>>> = StrMap::new();
        std::mem::swap(&mut self.slots, &mut slots);
        let mut devices: StrMap<indexmap::IndexMap<String, Json>> = match slots.remove(user) {
            Some(m) => m,
            None => StrMap::new(),
        };
        let keys: indexmap::IndexMap<String, Json> = match devices.remove(device) {
            Some(m) => m,
            None => index_new(),
        };
        slots.insert(user.to_owned(), devices);
        proof {
            assert(before.contains_key((user@, device@)));
            assert(held_view(slots@) =~= before.insert((user@, device@), seq![]));
        }
        self.slots = slots;
        keys
    }

    /// Puts keys in the place of those of a device.
    fn put(&mut self, user: &str, device: &str, keys: indexmap::IndexMap<String, Json>)
        requires
            distinct(index_entries(keys)),
        ensures
            final(self)@ == old(self)@.insert((user@, device@), index_entries(keys)),
            all_distinct(final(self)@),
    {
        proof {
            use_type_invariant(&*self);
        }
        let ghost before = self@;
        let mut slots: StrMap<StrMap<indexmap::IndexMap<String, Json>>> = StrMap::new();
        std::mem::swap(&mut self.slots, &mut slots);
        let mut devices: StrMap<indexmap::IndexMap<String, Json>> = match slots.remove(user) {
            Some(m) => m,
            None => StrMap::new(),
        };
        devices.insert(device.to_owned(), keys);
        slots.insert(user.to_owned(), devices);
        proof {
            assert(before.contains_key((user@, device@)));
            assert(held_view(slots@) =~= before.insert((user@, device@), index_entries(keys)));
        }
        self.slots = slots;
    }
}

/// The contents of objects that are found by a string.
pub open spec fn objects_view(m: Map<Seq<char>, JsonObject>) -> Map<
    Seq<char>,
    Map<Seq<char>, JsonView>,
> {
    Map::new(|k: Seq<char>| m.contains_key(k), |k: Seq<char>| m[k]@)
}

/// A journal with one more change; without a journal nothing is written.
pub open spec fn logged(journal: Option<Seq<OpView>>, op: OpView) -> Option<Seq<OpView>> {
    match journal {
        Some(j) => Some(j.push(op)),
        None => None,
    }
}

/// A journal with more changes.
pub open spec fn logged_all(journal: Option<Seq<OpView>>, ops: Seq<OpView>) -> Option<Seq<OpView>> {
    match journal {
        Some(j) => Some(j + ops),
        None => None,
    }
}

/// The changes of a journal, as mathematics.
pub open spec fn ops_view(ops: Seq<Op>) -> Seq<OpView> {
    Seq::new(ops.len(), |i: int| ops[i]@)
}

/// What stands under a key of a map of maps; nothing where the key is absent.
pub open spec fn inner_map(m: Map<Seq<char>, Map<Seq<char>, JsonView>>, key: Seq<char>) -> Map<
    Seq<char>,
    JsonView,
> {
    if m.contains_key(key) {
        m[key]
    } else {
        Map::empty()
    }
}

/// The devices with the keys of one device written.
pub open spec fn with_device(
    devices: Map<Seq<char>, Map<Seq<char>, JsonView>>,
    user: Seq<char>,
    device: Seq<char>,
    keys: JsonView,
) -> Map<Seq<char>, Map<Seq<char>, JsonView>> {
    devices.insert(user, inner_map(devices, user).insert(device, keys))
}

/// The keys of a device with further signatures of its user: they are added where the keys have
/// a table of signatures by that user.
pub open spec fn with_signatures(
    keys: JsonView,
    user: Seq<char>,
    signatures: Map<Seq<char>, JsonView>,
) -> JsonView {
    match keys.field("signatures"@) {
        Some(all) => match all.field(user) {
            Some(JsonView::Object(mine)) => JsonView::Object(
                (keys->Object_0).insert(
                    "signatures"@,
                    JsonView::Object(
                        (all->Object_0).insert(
                            user,
                            JsonView::Object(mine.union_prefer_right(signatures)),
                        ),
                    ),
                ),
            ),
            _ => keys,
        },
        None => keys,
    }
}

/// Those of the given keys that are not held yet, in the given order.
pub open spec fn fresh(
    held: Seq<(Seq<char>, JsonView)>,
    keys: Map<Seq<char>, JsonView>,
    order: Seq<Seq<char>>,
) -> Seq<(Seq<char>, JsonView)>
    decreases order.len(),
{
    if order.len() == 0 {
        seq![]
    } else {
        let front = fresh(held, keys, order.drop_last());
        if holds(held, order.last()) {
            front
        } else {
            front.push((order.last(), keys[order.last()]))
        }
    }
}

/// Those of the given keys that are not held yet, in the order of their identifiers.
pub open spec fn fresh_keys(
    held: Seq<(Seq<char>, JsonView)>,
    keys: Map<Seq<char>, JsonView>,
) -> Seq<(Seq<char>, JsonView)> {
    fresh(held, keys, strmap::sorted_keys(keys.dom()))
}

/// The algorithm of a key: what comes before the first colon of its identifier.
pub open spec fn algorithm_of(key_id: Seq<char>) -> Seq<char> {
    key_id.take(text::upto(key_id, ':'))
}

/// Whether a key can be claimed for an algorithm: its identifier has a colon, and the algorithm
/// before it.
pub open spec fn claimable(key_id: Seq<char>, algorithm: Seq<char>) -> bool {
    key_id.contains(':') && algorithm_of(key_id) == algorithm
}

/// The condition that an entry can be claimed for the given algorithm.
pub open spec fn claimable_for(algorithm: Seq<char>) -> spec_fn((Seq<char>, JsonView)) -> bool {
    |e: (Seq<char>, JsonView)| claimable(e.0, algorithm)
}

/// Where the oldest key for an algorithm stands; the number of keys when there is none.
pub open spec fn oldest(entries: Seq<(Seq<char>, JsonView)>, algorithm: Seq<char>) -> int {
    lists::first_where(entries, claimable_for(algorithm))
}

/// The key that a claim hands out.
pub open spec fn claimed(entries: Seq<(Seq<char>, JsonView)>, algorithm: Seq<char>) -> Option<
    (Seq<char>, JsonView),
> {
    let i = oldest(entries, algorithm);
    if 0 <= i < entries.len() {
        Some(entries[i])
    } else {
        None
    }
}

/// The keys that a claim leaves.
pub open spec fn after_claim(
    entries: Seq<(Seq<char>, JsonView)>,
    algorithm: Seq<char>,
) -> Seq<(Seq<char>, JsonView)> {
    let i = oldest(entries, algorithm);
    if 0 <= i < entries.len() {
        entries.remove(i)
    } else {
        entries
    }
}

/// How many keys of an algorithm there are.
pub open spec fn count_of(entries: Seq<(Seq<char>, JsonView)>, algorithm: Seq<char>) -> nat
    decreases entries.len(),
{
    if entries.len() == 0 {
        0
    } else {
        count_of(entries.drop_last(), algorithm) + if algorithm_of(entries.last().0) == algorithm {
            1nat
        } else {
            0
        }
    }
}

/// The counts of keys by algorithm, for the algorithms of which there are any.
pub open spec fn counts_of(entries: Seq<(Seq<char>, JsonView)>) -> Map<Seq<char>, JsonView> {
    Map::new(
        |a: Seq<char>| count_of(entries, a) > 0,
        |a: Seq<char>| JsonView::Int(count_of(entries, a) as int),
    )
}

/// Whether a request for the devices of a user asks for a device: a list that is not empty asks
/// for those that it names, everything else for all.
pub open spec fn asks_for(wanted: JsonView, device: Seq<char>) -> bool {
    match wanted {
        JsonView::Array(items) => items.len() == 0 || exists|i: int|
            0 <= i < items.len() && (#[trigger] items[i]).text() == Some(device),
        _ => true,
    }
}

/// The answer to a request for device keys: for each user of whom devices are held, those that
/// are asked for. A user of whom nothing is held is absent.
pub open spec fn devices_answer(
    devices: Map<Seq<char>, Map<Seq<char>, JsonView>>,
    requested: Map<Seq<char>, JsonView>,
) -> Map<Seq<char>, JsonView> {
    Map::new(
        |u: Seq<char>| requested.contains_key(u) && devices.contains_key(u),
        |u: Seq<char>|
            JsonView::Object(
                Map::new(
                    |d: Seq<char>| devices[u].contains_key(d) && asks_for(requested[u], d),
                    |d: Seq<char>| devices[u][d],
                ),
            ),
    )
}

/// The devices of a user for which a request asks for keys, with the algorithm for each.
pub open spec fn devices_asked(requested: Map<Seq<char>, JsonView>, user: Seq<char>) -> Map<
    Seq<char>,
    JsonView,
> {
    match json::lookup(requested, user) {
        Some(JsonView::Object(devices)) => devices,
        _ => Map::empty(),
    }
}

/// The key that is given for one device of a user, when `devices` names the algorithms.
pub open spec fn given(
    one_time: Map<(Seq<char>, Seq<char>), Seq<(Seq<char>, JsonView)>>,
    devices: Map<Seq<char>, JsonView>,
    user: Seq<char>,
    device: Seq<char>,
) -> Option<(Seq<char>, JsonView)> {
    match json::text_field(devices, device) {
        Some(algorithm) => claimed(one_time[(user, device)], algorithm),
        None => None,
    }
}

/// The keys that are left for one device of a user, when `devices` names the algorithms.
pub open spec fn left(
    one_time: Map<(Seq<char>, Seq<char>), Seq<(Seq<char>, JsonView)>>,
    devices: Map<Seq<char>, JsonView>,
    user: Seq<char>,
    device: Seq<char>,
) -> Seq<(Seq<char>, JsonView)> {
    match json::text_field(devices, device) {
        Some(algorithm) => after_claim(one_time[(user, device)], algorithm),
        None => one_time[(user, device)],
    }
}

/// What one user's devices are given.
pub open spec fn user_answer(
    one_time: Map<(Seq<char>, Seq<char>), Seq<(Seq<char>, JsonView)>>,
    devices: Map<Seq<char>, JsonView>,
    user: Seq<char>,
) -> Map<Seq<char>, JsonView> {
    Map::new(
        |d: Seq<char>| given(one_time, devices, user, d) is Some,
        |d: Seq<char>|
            {
                let (id, key) = given(one_time, devices, user, d)->0;
                JsonView::Object(Map::empty().insert(id, key))
            },
    )
}

/// The answer to a request for one-time keys: users whose devices are given nothing are absent.
pub open spec fn claim_answer(
    one_time: Map<(Seq<char>, Seq<char>), Seq<(Seq<char>, JsonView)>>,
    requested: Map<Seq<char>, JsonView>,
) -> Map<Seq<char>, JsonView> {
    Map::new(
        |u: Seq<char>|
            exists|d: Seq<char>| #[trigger]
                given(one_time, devices_asked(requested, u), u, d) is Some,
        |u: Seq<char>| JsonView::Object(user_answer(one_time, devices_asked(requested, u), u)),
    )
}

/// The one-time keys that a request for keys leaves.
pub open spec fn after_claims(
    one_time: Map<(Seq<char>, Seq<char>), Seq<(Seq<char>, JsonView)>>,
    requested: Map<Seq<char>, JsonView>,
) -> Map<(Seq<char>, Seq<char>), Seq<(Seq<char>, JsonView)>> {
    Map::new(
        |p: (Seq<char>, Seq<char>)| one_time.contains_key(p),
        |p: (Seq<char>, Seq<char>)| left(one_time, devices_asked(requested, p.0), p.0, p.1),
    )
}

/// The changes that a claim for the given devices of a user writes to the journal.
pub open spec fn user_claim_ops(
    one_time: Map<(Seq<char>, Seq<char>), Seq<(Seq<char>, JsonView)>>,
    devices: Map<Seq<char>, JsonView>,
    user: Seq<char>,
    order: Seq<Seq<char>>,
) -> Seq<OpView>
    decreases order.len(),
{
    if order.len() == 0 {
        seq![]
    } else {
        let front = user_claim_ops(one_time, devices, user, order.drop_last());
        match given(one_time, devices, user, order.last()) {
            Some((id, _)) => front.push(
                (OpView::RemoveOneTimeKey { user, device: order.last(), key_id: id }),
            ),
            None => front,
        }
    }
}

/// The changes that a request for keys writes to the journal, for the given users.
pub open spec fn claim_ops(
    one_time: Map<(Seq<char>, Seq<char>), Seq<(Seq<char>, JsonView)>>,
    requested: Map<Seq<char>, JsonView>,
    users: Seq<Seq<char>>,
) -> Seq<OpView>
    decreases users.len(),
{
    if users.len() == 0 {
        seq![]
    } else {
        let devices = devices_asked(requested, users.last());
        claim_ops(one_time, requested, users.drop_last()) + user_claim_ops(
            one_time,
            devices,
            users.last(),
            strmap::sorted_keys(devices.dom()),
        )
    }
}

/// The one-time keys after those devices of a user are served that are `done`.
spec fn partly_claimed(
    one_time: Map<(Seq<char>, Seq<char>), Seq<(Seq<char>, JsonView)>>,
    devices: Map<Seq<char>, JsonView>,
    user: Seq<char>,
    done: Set<Seq<char>>,
) -> Map<(Seq<char>, Seq<char>), Seq<(Seq<char>, JsonView)>> {
    Map::new(
        |p: (Seq<char>, Seq<char>)| one_time.contains_key(p),
        |p: (Seq<char>, Seq<char>)|
            if p.0 == user && done.contains(p.1) {
                left(one_time, devices, user, p.1)
            } else {
                one_time[p]
            },
    )
}

/// The one-time keys after those users are served that are `done`.
spec fn users_claimed(
    one_time: Map<(Seq<char>, Seq<char>), Seq<(Seq<char>, JsonView)>>,
    requested: Map<Seq<char>, JsonView>,
    done: Set<Seq<char>>,
) -> Map<(Seq<char>, Seq<char>), Seq<(Seq<char>, JsonView)>> {
    Map::new(
        |p: (Seq<char>, Seq<char>)| one_time.contains_key(p),
        |p: (Seq<char>, Seq<char>)|
            if done.contains(p.0) {
                left(one_time, devices_asked(requested, p.0), p.0, p.1)
            } else {
                one_time[p]
            },
    )
}

/// The least number that a table of counts has for an algorithm, of two tables: an algorithm
/// that only one of them has counts as none in the other.
pub open spec fn lesser(a: Map<Seq<char>, JsonView>, b: Map<Seq<char>, JsonView>) -> Map<
    Seq<char>,
    JsonView,
> {
    Map::new(
        |k: Seq<char>| a.contains_key(k) || b.contains_key(k),
        |k: Seq<char>|
            {
                let x = count_in(a, k);
                let y = count_in(b, k);
                JsonView::Int(
                    if x <= y {
                        x
                    } else {
                        y
                    },
                )
            },
    )
}

/// The count that a table has for an algorithm; none when it has no such algorithm.
pub open spec fn count_in(counts: Map<Seq<char>, JsonView>, algorithm: Seq<char>) -> int {
    match json::lookup(counts, algorithm) {
        Some(JsonView::Int(n)) => n,
        _ => 0,
    }
}

/// For every algorithm of which one of the given devices has keys, the least number that any of
/// them has.
pub open spec fn least_of(
    one_time: Map<(Seq<char>, Seq<char>), Seq<(Seq<char>, JsonView)>>,
    user: Seq<char>,
    devices: Seq<Seq<char>>,
) -> Map<Seq<char>, JsonView>
    decreases devices.len(),
{
    if devices.len() == 0 {
        Map::empty()
    } else if devices.len() == 1 {
        counts_of(one_time[(user, devices[0])])
    } else {
        lesser(
            least_of(one_time, user, devices.drop_last()),
            counts_of(one_time[(user, devices.last())]),
        )
    }
}

/// For every algorithm of which a device of the user has keys, the least number that any of the
/// user's devices has.
pub open spec fn least_counts(keys: KeysView, user: Seq<char>) -> Map<Seq<char>, JsonView> {
    if keys.devices.contains_key(user) {
        least_of(keys.one_time, user, strmap::sorted_keys(keys.devices[user].dom()))
    } else {
        Map::empty()
    }
}

impl View for KeyStore {
    type V = KeysView;

    closed spec fn view(&self) -> KeysView {
        KeysView {
            devices: objects_view(self.devices@),
            one_time: self.one_time_keys@,
            cross_signing: self.cross_signing@,
        }
    }
}

impl KeyStore {
    /// The journal; `None` when no store follows.
    pub closed spec fn journal_view(&self) -> Option<Seq<OpView>> {
        match self.journal {
            Some(j) => Some(ops_view(j@)),
            None => None,
        }
    }

    /// A directory that holds nothing, and that no store follows.
    pub fn new() -> (s: Self)
        ensures
            s@.devices == Map::<Seq<char>, Map<Seq<char>, JsonView>>::empty(),
            forall|p: (Seq<char>, Seq<char>)| #[trigger] s@.one_time.contains_key(p) && s@.one_time[p]
                == Seq::<(Seq<char>, JsonView)>::empty(),
            all_distinct(s@.one_time),
            s@.cross_signing == Map::<Seq<char>, JsonView>::empty(),
            s.journal_view() is None,
    {
        let s = KeyStore {
            devices: StrMap::new(),
            one_time_keys: OneTimeKeys::new(),
            cross_signing: JsonObject::new(),
            journal: None,
        };
        proof {
            use_type_invariant(&s.one_time_keys);
        }
        assert(s@.devices =~= Map::<Seq<char>, Map<Seq<char>, JsonView>>::empty());
        s
    }

    /// From here on every change is written to a journal, which starts out empty.
    pub fn attach_journal(&mut self)
        ensures
            final(self)@ == old(self)@,
            final(self).journal_view() == Some(Seq::<OpView>::empty()),
    {
        self.journal = Some(Vec::new());
        assert(self.journal_view()->0 =~= Seq::<OpView>::empty());
    }

    /// Takes what the journal holds, for the store to follow, and leaves it empty.
    pub fn take_journal(&mut self) -> (ops: Vec<Op>)
        ensures
            final(self)@ == old(self)@,
            old(self).journal_view() matches Some(j) ==> ops_view(ops@) == j,
            old(self).journal_view() is Some ==> final(self).journal_view() == Some(Seq::<OpView>::empty()),
            old(self).journal_view() is None ==> ops@.len() == 0 && final(self).journal_view() is None,
    {
        if self.journal.is_some() {
            let mut taken: Option<Vec<Op>> = Some(Vec::new());
            std::mem::swap(&mut self.journal, &mut taken);
            assert(self.journal_view()->0 =~= Seq::<OpView>::empty());
            match taken {
                Some(ops) => ops,
                None => Vec::new(),
            }
        } else {
            Vec::new()
        }
    }

    /// Writes a change to the journal.
    pub fn log(&mut self, op: Op)
        ensures
            final(self)@ == old(self)@,
            final(self).journal_view() == logged(old(self).journal_view(), op@),
    {
        let mut taken: Option<Vec<Op>> = None;
        std::mem::swap(&mut self.journal, &mut taken);
        match taken {
            Some(ops) => {
                let mut ops: Vec<Op> = ops;
                let ghost before = ops@;
                ops.push(op);
                assert(ops_view(ops@) =~= ops_view(before).push(op@));
                self.journal = Some(ops);
            },
            None => {},
        }
    }

    /// Stores the keys of a device, without a word to the journal.
    pub(crate) fn set_device(&mut self, user: &str, device: &str, keys: Json)
        ensures
            final(self)@ == (KeysView {
                devices: with_device(old(self)@.devices, user@, device@, keys@),
                ..old(self)@
            }),
            final(self).journal_view() == old(self).journal_view(),
    {
        let mut held: JsonObject = match self.devices.remove(user) {
            Some(m) => m,
            None => JsonObject::new(),
        };
        held.insert(device.to_owned(), keys);
        self.devices.insert(user.to_owned(), held);
        assert(self@.devices =~= with_device(old(self)@.devices, user@, device@, keys@));
    }

    /// Stores the keys of a device, under the identifier that the device itself has.
    pub fn put_device(&mut self, user: &str, device: &str, keys: Json)
        ensures
            final(self)@ == (KeysView {
                devices: with_device(old(self)@.devices, user@, device@, keys@),
                ..old(self)@
            }),
            final(self).journal_view() == logged(
                old(self).journal_view(),
                (OpView::PutDevice { user: user@, device: device@, keys: keys@ }),
            ),
    {
        self.log(
            Op::PutDevice { user: user.to_owned(), device: device.to_owned(), keys: keys.duplicate() },
        );
        self.set_device(user, device, keys);
    }

    /// Stores a cross-signing section, without a word to the journal.
    pub(crate) fn set_cross_signing(&mut self, name: &str, value: Json)
        ensures
            final(self)@ == (KeysView {
                cross_signing: old(self)@.cross_signing.insert(name@, value@),
                ..old(self)@
            }),
            final(self).journal_view() == old(self).journal_view(),
    {
        self.cross_signing.insert(name.to_owned(), value);
    }

    /// Stores a cross-signing section as it was uploaded.
    pub fn put_cross_signing(&mut self, name: &str, value: Json)
        ensures
            final(self)@ == (KeysView {
                cross_signing: old(self)@.cross_signing.insert(name@, value@),
                ..old(self)@
            }),
            final(self).journal_view() == logged(
                old(self).journal_view(),
                (OpView::PutCrossSigning { name: name@, value: value@ }),
            ),
    {
        self.log(Op::PutCrossSigning { name: name.to_owned(), value: value.duplicate() });
        self.set_cross_signing(name, value);
    }

    /// Adds signatures to the keys of a device that they sign. A device that is not held is left
    /// alone.
    pub fn merge_device_signatures(&mut self, user: &str, device: &str, signatures: JsonObject)
        ensures
            inner_map(old(self)@.devices, user@).contains_key(device@) ==> {
                let keys = with_signatures(old(self)@.devices[user@][device@], user@, signatures@);
                &&& final(self)@ == (KeysView {
                    devices: with_device(old(self)@.devices, user@, device@, keys),
                    ..old(self)@
                })
                &&& final(self).journal_view() == logged(
                    old(self).journal_view(),
                    (OpView::PutDevice { user: user@, device: device@, keys }),
                )
            },
            !inner_map(old(self)@.devices, user@).contains_key(device@) ==> final(self)@ == old(self)@
                && final(self).journal_view() == old(self).journal_view(),
    {
        let held: Json = match self.devices.get(user) {
            None => return,
            Some(devices) => match devices.get(device) {
                None => return,
                Some(keys) => keys.duplicate(),
            },
        };
        let merged: Json = add_signatures(held, user, signatures);
        self.put_device(user, device, merged);
    }

    /// Writes one one-time key, without a word to the journal.
    pub(crate) fn set_one_time_key(&mut self, user: &str, device: &str, key_id: String, key: Json)
        ensures
            final(self)@ == (KeysView {
                one_time: old(self)@.one_time.insert(
                    (user@, device@),
                    written(old(self)@.one_time[(user@, device@)], key_id@, key@),
                ),
                ..old(self)@
            }),
            final(self).journal_view() == old(self).journal_view(),
            all_distinct(final(self)@.one_time),
    {
        let mut keys: indexmap::IndexMap<String, Json> = self.one_time_keys.take(user, device);
        proof {
            assert(old(self)@.one_time.contains_key((user@, device@)));
            lemma_written_distinct(index_entries(keys), key_id@, key@);
        }
        index_insert(&mut keys, key_id, key);
        self.one_time_keys.put(user, device, keys);
        assert(self@.one_time =~= old(self)@.one_time.insert(
            (user@, device@),
            written(old(self)@.one_time[(user@, device@)], key_id@, key@),
        ));
    }

    /// Adds uploaded one-time keys behind those that are held. A key that is held stays as it
    /// is.
    pub fn put_one_time_keys(&mut self, user: &str, device: &str, keys: &JsonObject)
        ensures
            ({
                let held = old(self)@.one_time[(user@, device@)];
                let added = fresh_keys(held, keys@);
                &&& final(self)@ == (KeysView {
                    one_time: old(self)@.one_time.insert((user@, device@), held + added),
                    ..old(self)@
                })
                &&& final(self).journal_view() == logged(
                    old(self).journal_view(),
                    (OpView::PutOneTimeKeys { user: user@, device: device@, one_time: added }),
                )
            }),
            all_distinct(old(self)@.one_time),
            all_distinct(final(self)@.one_time),
    {
        let mut slot: indexmap::IndexMap<String, Json> = self.one_time_keys.take(user, device);
        assert(old(self)@.one_time.contains_key((user@, device@)));
        let ghost held = old(self)@.one_time[(user@, device@)];
        let mut added: Vec<(String, Json)> = Vec::new();
        let n: usize = keys.len();
        let ghost order = keys.keys();
        let mut i: usize = 0;
        assert(pairs_view(added@) =~= fresh(held, keys@, order.take(0)));
        assert(held + pairs_view(added@) =~= held);
        while i < n
            invariant
                i <= n,
                n == keys.keys().len(),
                order == keys.keys(),
                order.no_duplicates(),
                pairs_view(added@) == fresh(held, keys@, order.take(i as int)),
                index_entries(slot) == held + pairs_view(added@),
                distinct(index_entries(slot)),
            decreases n - i,
        {
            let key_id: &String = keys.key_at(i);
            let ghost done = pairs_view(added@);
            proof {
                assert(order.take(i + 1).drop_last() =~= order.take(i as int));
                assert(order.take(i + 1).last() == key_id@);
                lemma_fresh_keys(held, keys@, order.take(i as int), key_id@);
                lemma_holds_concat(held, done, key_id@);
                if order.take(i as int).contains(key_id@) {
                    let p = order.take(i as int).index_of(key_id@);
                    assert(order[p] == order[i as int]);
                }
            }
            if !index_contains(&slot, key_id.as_str()) {
                proof {
                    lemma_written_distinct(index_entries(slot), key_id@, keys@[key_id@]);
                }
                added.push((key_id.clone(), keys.value_at(i).duplicate()));
                index_insert(&mut slot, key_id.clone(), keys.value_at(i).duplicate());
                assert(pairs_view(added@) =~= done.push((key_id@, keys@[key_id@])));
                assert(index_entries(slot) =~= held + pairs_view(added@));
            }
            i = i + 1;
        }
        assert(order.take(n as int) =~= order);
        self.one_time_keys.put(user, device, slot);
        assert(self@.one_time =~= old(self)@.one_time.insert(
            (user@, device@),
            held + fresh_keys(held, keys@),
        ));
        self.log(Op::PutOneTimeKeys { user: user.to_owned(), device: device.to_owned(), one_time: added });
    }

    /// The counts of the one-time keys of a device by algorithm.
    pub fn one_time_key_counts(&self, user: &str, device: &str) -> (counts: JsonObject)
        ensures
            counts@ == counts_of(self@.one_time[(user@, device@)]),
            all_counts(counts@),
            all_distinct(self@.one_time),
    {
        let mut counts: JsonObject = JsonObject::new();
        let ghost entries = self@.one_time[(user@, device@)];
        let keys: Vec<String> = self.one_time_keys.ids(user, device);
        assert(keys_of(entries).len() == event::views(keys@).len());
        let mut i: usize = 0;
        assert(counts@ =~= counts_of(entries.take(0)));
        while i < keys.len()
            invariant
                i <= keys@.len(),
                event::views(keys@) == keys_of(entries),
                keys@.len() == entries.len(),
                counts@ == counts_of(entries.take(i as int)),
                all_counts(counts@),
            decreases keys.len() - i,
        {
            let key_id: &str = keys[i].as_str();
            proof {
                assert(event::views(keys@)[i as int] == entries[i as int].0);
                assert(entries.take(i + 1).drop_last() =~= entries.take(i as int));
                text::lemma_upto_bounds(key_id@, ':');
            }
            let algorithm: &str = match text::split_once(key_id, ':') {
                Some((a, _)) => a,
                None => key_id,
            };
            assert(algorithm@ =~= algorithm_of(key_id@));
            let n: u64 = match counts.get(algorithm) {
                Some(v) => match v.as_u64() {
                    Some(n) => n,
                    None => 0,
                },
                None => 0,
            };
            proof {
                lemma_count_bounds(entries.take(i as int), algorithm@);
            }
            counts.insert(algorithm.to_owned(), Json::unsigned(n + 1));
            assert(counts@ =~= counts_of(entries.take(i + 1)));
            i = i + 1;
        }
        assert(entries.take(i as int) =~= entries);
        counts
    }

    /// The device keys for a request of devices by user. A list of devices that is empty asks
    /// for every device of the user; a user of whom nothing is held is absent from the answer.
    pub fn device_keys_for(&self, requested: &JsonObject) -> (answer: JsonObject)
        ensures
            answer@ == devices_answer(self@.devices, requested@),
    {
        let mut answer: JsonObject = JsonObject::new();
        let n: usize = requested.len();
        let ghost users = requested.keys();
        let ghost whole = devices_answer(self@.devices, requested@);
        let mut i: usize = 0;
        assert(answer@ =~= whole.restrict(users.take(0).to_set()));
        while i < n
            invariant
                i <= n,
                n == requested.keys().len(),
                users == requested.keys(),
                whole == devices_answer(self@.devices, requested@),
                answer@ == whole.restrict(users.take(i as int).to_set()),
            decreases n - i,
        {
            let user: &String = requested.key_at(i);
            proof {
                json::lemma_take_push(users, i as int);
            }
            if let Some(devices) = self.devices.get(user.as_str()) {
                let wanted: &Json = requested.value_at(i);
                let asked: JsonObject = asked_devices(devices, wanted);
                assert(JsonView::Object(asked@) == whole[user@]);
                answer.insert(user.clone(), Json::object(asked));
            }
            assert(answer@ =~= whole.restrict(users.take(i + 1).to_set()));
            i = i + 1;
        }
        assert(users.take(n as int) =~= users);
        assert(users.to_set() == requested@.dom());
        assert(answer@ =~= whole);
        answer
    }

    /// Takes the oldest one-time key of a device for an algorithm out of the directory.
    pub fn claim_one_time_key(&mut self, user: &str, device: &str, algorithm: &str) -> (key: Option<
        (String, Json),
    >)
        ensures
            ({
                let held = old(self)@.one_time[(user@, device@)];
                &&& key is Some == claimed(held, algorithm@) is Some
                &&& key matches Some((id, k)) ==> claimed(held, algorithm@) == Some((id@, k@))
                &&& final(self)@ == (KeysView {
                    one_time: old(self)@.one_time.insert(
                        (user@, device@),
                        after_claim(held, algorithm@),
                    ),
                    ..old(self)@
                })
                &&& key matches Some((id, k)) ==> final(self).journal_view() == logged(
                    old(self).journal_view(),
                    (OpView::RemoveOneTimeKey { user: user@, device: device@, key_id: id@ }),
                )
                &&& key is None ==> final(self).journal_view() == old(self).journal_view()
            }),
            all_distinct(old(self)@.one_time),
            all_distinct(final(self)@.one_time),
    {
        let mut slot: indexmap::IndexMap<String, Json> = self.one_time_keys.take(user, device);
        assert(old(self)@.one_time.contains_key((user@, device@)));
        let ghost held = old(self)@.one_time[(user@, device@)];
        let ids: Vec<String> = index_keys(&slot);
        let ghost p = claimable_for(algorithm@);
        assert(event::views(ids@).len() == held.len());
        let mut i: usize = 0;
        let mut found: bool = false;
        while i < ids.len() && !found
            invariant
                i <= ids@.len(),
                event::views(ids@) == keys_of(held),
                ids@.len() == held.len(),
                p == claimable_for(algorithm@),
                forall|j: int| 0 <= j < i ==> !p(#[trigger] held[j]),
                found ==> i < ids@.len() && p(held[i as int]),
            decreases ids.len() - i + (if found { 0int } else { 1 }),
        {
            assert(event::views(ids@)[i as int] == held[i as int].0);
            if is_claimable(ids[i].as_str(), algorithm) {
                found = true;
            } else {
                i = i + 1;
            }
        }
        proof {
            lists::lemma_first_where(held, p, i as int);
        }
        let mut key: Option<(String, Json)> = None;
        if found {
            let id: String = ids[i].clone();
            proof {
                assert(event::views(ids@)[i as int] == held[i as int].0);
                lemma_place(held, ids@, i as int);
                lemma_remove_distinct(held, i as int);
            }
            match index_remove(&mut slot, id.as_str()) {
                Some(k) => {
                    key = Some((id, k));
                },
                None => {},
            }
        }
        self.one_time_keys.put(user, device, slot);
        assert(self@.one_time =~= old(self)@.one_time.insert(
            (user@, device@),
            after_claim(held, algorithm@),
        ));
        if let Some((id, _)) = &key {
            self.log(
                Op::RemoveOneTimeKey {
                    user: user.to_owned(),
                    device: device.to_owned(),
                    key_id: id.clone(),
                },
            );
        }
        key
    }

    /// The view says of every device which one-time keys it has.
    pub proof fn lemma_total(&self)
        ensures
            forall|p: (Seq<char>, Seq<char>)| #[trigger] self@.one_time.contains_key(p),
    {
    }

    /// The cross-signing sections.
    pub fn cross_signing(&self) -> (m: &JsonObject)
        ensures
            m@ == self@.cross_signing,
    {
        &self.cross_signing
    }

    /// The devices of a user, with their keys.
    pub fn devices_of(&self, user: &str) -> (m: Option<&JsonObject>)
        ensures
            m is Some == self@.devices.contains_key(user@),
            m matches Some(d) ==> d@ == self@.devices[user@],
    {
        self.devices.get(user)
    }

    fn claim_user(&mut self, user: &str, devices: &JsonObject) -> (answer: JsonObject)
        ensures
            answer@ == user_answer(old(self)@.one_time, devices@, user@),
            final(self)@ == (KeysView {
                one_time: partly_claimed(old(self)@.one_time, devices@, user@, devices@.dom()),
                ..old(self)@
            }),
            final(self).journal_view() == logged_all(
                old(self).journal_view(),
                user_claim_ops(
                    old(self)@.one_time,
                    devices@,
                    user@,
                    strmap::sorted_keys(devices@.dom()),
                ),
            ),
    {
        let ghost before = self@.one_time;
        let ghost whole = user_answer(before, devices@, user@);
        let mut answer: JsonObject = JsonObject::new();
        let n: usize = devices.len();
        let ghost order = devices.keys();
        let mut i: usize = 0;
        proof {
            self.lemma_total();
            assert(answer@ =~= whole.restrict(order.take(0).to_set()));
            assert(self@.one_time =~= partly_claimed(before, devices@, user@, order.take(0).to_set()));
            if let Some(j) = self.journal_view() {
                assert(j =~= j + user_claim_ops(before, devices@, user@, order.take(0)));
            }
        }
        while i < n
            invariant
                i <= n,
                n == devices.keys().len(),
                order == devices.keys(),
                order.no_duplicates(),
                before == old(self)@.one_time,
                forall|p: (Seq<char>, Seq<char>)| #[trigger] before.contains_key(p),
                whole == user_answer(before, devices@, user@),
                answer@ == whole.restrict(order.take(i as int).to_set()),
                self@ == (KeysView {
                    one_time: partly_claimed(before, devices@, user@, order.take(i as int).to_set()),
                    ..old(self)@
                }),
                self.journal_view() == logged_all(
                    old(self).journal_view(),
                    user_claim_ops(before, devices@, user@, order.take(i as int)),
                ),
            decreases n - i,
        {
            let device: &String = devices.key_at(i);
            let ghost now = self@.one_time;
            let ghost journal = self.journal_view();
            proof {
                json::lemma_take_push(order, i as int);
                assert(order.take(i + 1).drop_last() =~= order.take(i as int));
                if order.take(i as int).contains(device@) {
                    let p = order.take(i as int).index_of(device@);
                    assert(order[p] == order[i as int]);
                }
                assert(now[(user@, device@)] == before[(user@, device@)]);
            }
            let ghost ops = user_claim_ops(before, devices@, user@, order.take(i as int));
            if let Some(algorithm) = devices.value_at(i).as_str() {
                if let Some((id, key)) = self.claim_one_time_key(user, device.as_str(), algorithm) {
                    let mut one: JsonObject = JsonObject::new();
                    one.insert(id, key);
                    answer.insert(device.clone(), Json::object(one));
                    proof {
                        if let Some(j) = old(self).journal_view() {
                            let op = OpView::RemoveOneTimeKey { user: user@, device: device@, key_id: id@ };
                            assert((j + ops).push(op) =~= j + ops.push(op));
                        }
                    }
                }
            }
            assert(answer@ =~= whole.restrict(order.take(i + 1).to_set()));
            assert(self@.one_time =~= partly_claimed(
                before,
                devices@,
                user@,
                order.take(i + 1).to_set(),
            ));
            i = i + 1;
        }
        assert(order.take(n as int) =~= order);
        assert(order.to_set() == devices@.dom());
        assert(answer@ =~= whole);
        answer
    }

    /// Claims one one-time key for each device that a request names, with its algorithm, by
    /// user.
    pub fn claim_for(&mut self, requested: &JsonObject) -> (answer: JsonObject)
        ensures
            answer@ == claim_answer(old(self)@.one_time, requested@),
            final(self)@ == (KeysView {
                one_time: after_claims(old(self)@.one_time, requested@),
                ..old(self)@
            }),
            final(self).journal_view() == logged_all(
                old(self).journal_view(),
                claim_ops(
                    old(self)@.one_time,
                    requested@,
                    strmap::sorted_keys(requested@.dom()),
                ),
            ),
            all_distinct(old(self)@.one_time),
            all_distinct(final(self)@.one_time),
    {
        let ghost before = self@.one_time;
        let ghost whole = claim_answer(before, requested@);
        let mut answer: JsonObject = JsonObject::new();
        let n: usize = requested.len();
        let ghost users = requested.keys();
        let mut i: usize = 0;
        proof {
            use_type_invariant(&self.one_time_keys);
            self.lemma_total();
            assert(answer@ =~= whole.restrict(users.take(0).to_set()));
            assert(self@.one_time =~= users_claimed(before, requested@, users.take(0).to_set()));
            if let Some(j) = self.journal_view() {
                assert(j =~= j + claim_ops(before, requested@, users.take(0)));
            }
        }
        while i < n
            invariant
                i <= n,
                n == requested.keys().len(),
                users == requested.keys(),
                users.no_duplicates(),
                before == old(self)@.one_time,
                forall|p: (Seq<char>, Seq<char>)| #[trigger] before.contains_key(p),
                whole == claim_answer(before, requested@),
                answer@ == whole.restrict(users.take(i as int).to_set()),
                self@ == (KeysView {
                    one_time: users_claimed(before, requested@, users.take(i as int).to_set()),
                    ..old(self)@
                }),
                self.journal_view() == logged_all(
                    old(self).journal_view(),
                    claim_ops(before, requested@, users.take(i as int)),
                ),
            decreases n - i,
        {
            let user: &String = requested.key_at(i);
            let ghost now = self@.one_time;
            let ghost asked = devices_asked(requested@, user@);
            let ghost ops = claim_ops(before, requested@, users.take(i as int));
            let ghost order = strmap::sorted_keys(asked.dom());
            proof {
                json::lemma_take_push(users, i as int);
                assert(users.take(i + 1).drop_last() =~= users.take(i as int));
                if users.take(i as int).contains(user@) {
                    let p = users.take(i as int).index_of(user@);
                    assert(users[p] == users[i as int]);
                }
                assert forall|d: Seq<char>| now[(user@, d)] == before[(user@, d)] by {
                    assert(before.contains_key((user@, d)));
                }
                lemma_user_claim_frame(now, before, asked, user@, order);
                assert(user_answer(now, asked, user@) =~= user_answer(before, asked, user@));
            }
            let mut served: bool = false;
            if let Some(devices) = requested.value_at(i).as_object() {
                let per_device: JsonObject = self.claim_user(user.as_str(), devices);
                let m: usize = per_device.len();
                if m > 0 {
                    proof {
                        let d = per_device.keys()[0];
                        assert(per_device.keys().to_set().contains(d));
                        assert(given(before, asked, user@, d) is Some);
                    }
                    answer.insert(user.clone(), Json::object(per_device));
                } else {
                    proof {
                        assert forall|d: Seq<char>| given(before, asked, user@, d) is None by {
                            if given(before, asked, user@, d) is Some {
                                assert(per_device@.contains_key(d));
                                assert(per_device.keys().to_set().contains(d));
                            }
                        }
                    }
                }
                proof {
                    if let Some(j) = old(self).journal_view() {
                        let more = user_claim_ops(before, asked, user@, order);
                        assert((j + ops) + more =~= j + (ops + more));
                    }
                }
            } else {
                proof {
                    assert(asked =~= Map::<Seq<char>, JsonView>::empty());
                    let none = Seq::<Seq<char>>::empty();
                    assert(none.to_set() =~= asked.dom());
                    strmap::lemma_sorted_keys(none);
                    assert(order =~= none);
                    assert(ops =~= ops + user_claim_ops(before, asked, user@, order));
                    assert forall|d: Seq<char>| given(before, asked, user@, d) is None by {}
                }
            }
            assert(answer@ =~= whole.restrict(users.take(i + 1).to_set()));
            assert(self@.one_time =~= users_claimed(before, requested@, users.take(i + 1).to_set()));
            i = i + 1;
        }
        proof {
            assert(users.take(n as int) =~= users);
            assert(users.to_set() == requested@.dom());
            assert forall|u: Seq<char>| whole.contains_key(u) implies requested@.contains_key(u) by {
                let d = choose|d: Seq<char>| #[trigger]
                    given(before, devices_asked(requested@, u), u, d) is Some;
                assert(json::text_field(devices_asked(requested@, u), d) is Some);
            }
            assert(answer@ =~= whole);
            assert(self@.one_time =~= after_claims(before, requested@));
            use_type_invariant(&self.one_time_keys);
        }
        answer
    }

    /// The counts of the one-time keys of a user by algorithm: over all devices of the user, the
    /// least that any of them has.
    pub fn one_time_key_counts_for_user(&self, user: &str) -> (counts: JsonObject)
        ensures
            counts@ == least_counts(self@, user@),
    {
        let devices: &JsonObject = match self.devices.get(user) {
            Some(d) => d,
            None => {
                let none: JsonObject = JsonObject::new();
                assert(none@ =~= least_counts(self@, user@));
                return none;
            },
        };
        let n: usize = devices.len();
        let ghost order = devices.keys();
        let ghost one_time = self@.one_time;
        let mut counts: JsonObject = JsonObject::new();
        let mut i: usize = 0;
        assert(counts@ =~= least_of(one_time, user@, order.take(0)));
        while i < n
            invariant
                i <= n,
                n == devices.keys().len(),
                order == devices.keys(),
                one_time == self@.one_time,
                counts@ == least_of(one_time, user@, order.take(i as int)),
                all_counts(counts@),
            decreases n - i,
        {
            proof {
                assert(order.take(i + 1).drop_last() =~= order.take(i as int));
            }
            let more: JsonObject = self.one_time_key_counts(user, devices.key_at(i).as_str());
            counts = if i == 0 {
                let r: JsonObject = more;
                assert(r@ =~= least_of(one_time, user@, order.take(1)));
                r
            } else {
                least(&counts, &more)
            };
            i = i + 1;
            proof {
                if i > 1 {
                    let a = least_of(one_time, user@, order.take(i - 1));
                    let b = counts_of(one_time[(user@, order[i - 1])]);
                    assert(counts@ =~= least_of(one_time, user@, order.take(i as int)));
                }
            }
        }
        assert(order.take(n as int) =~= order);
        counts
    }
}

fn count_at(counts: &JsonObject, algorithm: &str) -> (n: u64)
    ensures
        (json::lookup(counts@, algorithm@) matches Some(v) && v matches JsonView::Int(k) && 0 <= k
            <= u64::MAX) ==> n == count_in(counts@, algorithm@),
        json::lookup(counts@, algorithm@) is None ==> n == 0,
{
    match counts.get(algorithm) {
        Some(v) => match v.as_u64() {
            Some(n) => n,
            None => 0,
        },
        None => 0,
    }
}

/// Whether all values of a table are counts.
pub open spec fn all_counts(m: Map<Seq<char>, JsonView>) -> bool {
    forall|k: Seq<char>|
        m.contains_key(k) ==> ((#[trigger] m[k]) matches JsonView::Int(n) && 0 <= n <= u64::MAX)
}

/// The least number that either of two tables of counts has for each algorithm.
fn least(a: &JsonObject, b: &JsonObject) -> (r: JsonObject)
    requires
        all_counts(a@),
        all_counts(b@),
    ensures
        r@ == lesser(a@, b@),
        all_counts(r@),
{
    let mut r: JsonObject = JsonObject::new();
    let ghost whole = lesser(a@, b@);
    let n: usize = a.len();
    let mut i: usize = 0;
    assert(r@ =~= whole.restrict(a.keys().take(0).to_set()));
    while i < n
        invariant
            i <= n,
            n == a.keys().len(),
            whole == lesser(a@, b@),
            all_counts(a@),
            all_counts(b@),
            a.keys().to_set() == a@.dom(),
            r@ == whole.restrict(a.keys().take(i as int).to_set()),
        decreases n - i,
    {
        let k: &String = a.key_at(i);
        let x: u64 = count_at(a, k.as_str());
        let y: u64 = count_at(b, k.as_str());
        proof {
            json::lemma_take_push(a.keys(), i as int);
            assert(a@.contains_key(k@));
            assert(b@.contains_key(k@) || !b@.contains_key(k@));
        }
        r.insert(k.clone(), Json::unsigned(if x <= y { x } else { y }));
        assert(r@ =~= whole.restrict(a.keys().take(i + 1).to_set()));
        i = i + 1;
    }
    assert(a.keys().take(n as int) =~= a.keys());
    let m: usize = b.len();
    let mut j: usize = 0;
    assert(r@ =~= whole.restrict(a@.dom().union(b.keys().take(0).to_set())));
    while j < m
        invariant
            j <= m,
            m == b.keys().len(),
            whole == lesser(a@, b@),
            all_counts(a@),
            all_counts(b@),
            b.keys().to_set() == b@.dom(),
            r@ == whole.restrict(a@.dom().union(b.keys().take(j as int).to_set())),
        decreases m - j,
    {
        let k: &String = b.key_at(j);
        let x: u64 = count_at(a, k.as_str());
        let y: u64 = count_at(b, k.as_str());
        proof {
            json::lemma_take_push(b.keys(), j as int);
            assert(b@.contains_key(k@));
            assert(a@.contains_key(k@) || !a@.contains_key(k@));
        }
        r.insert(k.clone(), Json::unsigned(if x <= y { x } else { y }));
        assert(r@ =~= whole.restrict(a@.dom().union(b.keys().take(j + 1).to_set())));
        j = j + 1;
    }
    assert(b.keys().take(m as int) =~= b.keys());
    assert(r@ =~= whole);
    r
}

/// Whether the key with the given identifier can be claimed for an algorithm.
fn is_claimable(key_id: &str, algorithm: &str) -> (yes: bool)
    ensures
        yes == claimable(key_id@, algorithm@),
{
    match text::split_once(key_id, ':') {
        Some((a, _)) => text::str_eq(a, algorithm),
        None => false,
    }
}

/// Those of the devices of a user that a request asks for.
fn asked_devices(devices: &JsonObject, wanted: &Json) -> (asked: JsonObject)
    ensures
        asked@ == Map::new(
            |d: Seq<char>| devices@.contains_key(d) && asks_for(wanted@, d),
            |d: Seq<char>| devices@[d],
        ),
{
    let mut asked: JsonObject = JsonObject::new();
    let ghost whole = Map::new(
        |d: Seq<char>| devices@.contains_key(d) && asks_for(wanted@, d),
        |d: Seq<char>| devices@[d],
    );
    let n: usize = devices.len();
    let ghost order = devices.keys();
    let mut i: usize = 0;
    assert(asked@ =~= whole.restrict(order.take(0).to_set()));
    while i < n
        invariant
            i <= n,
            n == devices.keys().len(),
            order == devices.keys(),
            whole == Map::new(
                |d: Seq<char>| devices@.contains_key(d) && asks_for(wanted@, d),
                |d: Seq<char>| devices@[d],
            ),
            asked@ == whole.restrict(order.take(i as int).to_set()),
        decreases n - i,
    {
        let device: &String = devices.key_at(i);
        proof {
            json::lemma_take_push(order, i as int);
        }
        if asks(wanted, device.as_str()) {
            asked.insert(device.clone(), devices.value_at(i).duplicate());
        }
        assert(asked@ =~= whole.restrict(order.take(i + 1).to_set()));
        i = i + 1;
    }
    assert(order.take(n as int) =~= order);
    assert(order.to_set() == devices@.dom());
    assert(asked@ =~= whole);
    asked
}

/// Whether a request for the devices of a user asks for a device.
fn asks(wanted: &Json, device: &str) -> (yes: bool)
    ensures
        yes == asks_for(wanted@, device@),
{
    let items: &Vec<Json> = match wanted.as_array() {
        None => return true,
        Some(items) => items,
    };
    let ghost all = json::array_view(items@);
    if items.len() == 0 {
        return true;
    }
    let mut i: usize = 0;
    while i < items.len()
        invariant
            i <= items@.len(),
            all == json::array_view(items@),
            wanted@ == JsonView::Array(all),
            forall|j: int| 0 <= j < i ==> (#[trigger] all[j]).text() != Some(device@),
        decreases items.len() - i,
    {
        assert(all[i as int] == items@[i as int]@);
        if let Some(s) = items[i].as_str() {
            if text::str_eq(s, device) {
                return true;
            }
        }
        i = i + 1;
    }
    assert(all.len() > 0);
    false
}

/// Adds signatures of a user to the keys of a device.
fn add_signatures(keys: Json, user: &str, signatures: JsonObject) -> (r: Json)
    ensures
        r@ == with_signatures(keys@, user@, signatures@),
{
    let mine: JsonObject = match keys.get("signatures") {
        None => return keys,
        Some(all) => match all.get(user) {
            None => return keys,
            Some(v) => match v.as_object() {
                None => return keys,
                Some(mine) => extend(mine.duplicate(), &signatures),
            },
        },
    };
    let mut all: JsonObject = match keys.get("signatures") {
        Some(all) => match all.as_object() {
            Some(m) => m.duplicate(),
            None => return keys,
        },
        None => return keys,
    };
    all.insert(user.to_owned(), Json::object(mine));
    let mut object: JsonObject = match keys.into_object() {
        Some(m) => m,
        None => vstd::pervasive::unreached(),
    };
    object.insert("signatures".to_owned(), Json::object(all));
    Json::object(object)
}

/// An object with the fields of another written over its own.
pub fn extend(object: JsonObject, more: &JsonObject) -> (r: JsonObject)
    ensures
        r@ == object@.union_prefer_right(more@),
{
    let mut r: JsonObject = object;
    let n: usize = more.len();
    let ghost order = more.keys();
    let mut i: usize = 0;
    assert(r@ =~= object@.union_prefer_right(more@.restrict(order.take(0).to_set())));
    while i < n
        invariant
            i <= n,
            n == more.keys().len(),
            order == more.keys(),
            r@ == object@.union_prefer_right(more@.restrict(order.take(i as int).to_set())),
        decreases n - i,
    {
        proof {
            json::lemma_take_push(order, i as int);
        }
        r.insert(more.key_at(i).clone(), more.value_at(i).duplicate());
        assert(r@ =~= object@.union_prefer_right(more@.restrict(order.take(i + 1).to_set())));
        i = i + 1;
    }
    assert(order.take(n as int) =~= order);
    assert(order.to_set() == more@.dom());
    assert(r@ =~= object@.union_prefer_right(more@));
    r
}

pub proof fn lemma_user_claim_frame(
    a: Map<(Seq<char>, Seq<char>), Seq<(Seq<char>, JsonView)>>,
    b: Map<(Seq<char>, Seq<char>), Seq<(Seq<char>, JsonView)>>,
    devices: Map<Seq<char>, JsonView>,
    user: Seq<char>,
    order: Seq<Seq<char>>,
)
    requires
        forall|d: Seq<char>| #[trigger] a[(user, d)] == b[(user, d)],
    ensures
        user_claim_ops(a, devices, user, order) == user_claim_ops(b, devices, user, order),
        forall|d: Seq<char>| #[trigger] given(a, devices, user, d) == given(b, devices, user, d),
        forall|d: Seq<char>| #[trigger] left(a, devices, user, d) == left(b, devices, user, d),
    decreases order.len(),
{
    if order.len() > 0 {
        lemma_user_claim_frame(a, b, devices, user, order.drop_last());
    }
}

/// A written key stands once.
pub proof fn lemma_written_distinct(
    entries: Seq<(Seq<char>, JsonView)>,
    key: Seq<char>,
    value: JsonView,
)
    requires
        distinct(entries),
    ensures
        distinct(written(entries, key, value)),
{
    let all = written(entries, key, value);
    let place = place(entries, key);
    lists::lemma_first_where_bounds(entries, has_key(key));
    assert forall|i: int, j: int| 0 <= i < j < all.len() implies (#[trigger] all[i]).0 != (
    #[trigger] all[j]).0 by {
        if holds(entries, key) {
            let p = has_key(key);
            let k = choose|k: int| 0 <= k < entries.len() && (#[trigger] entries[k]).0 == key;
            assert(p(entries[k]));
            assert(p(entries[place]));
            assert(all[i].0 == entries[i].0 && all[j].0 == entries[j].0);
        } else if j < entries.len() {
            assert(all[i] == entries[i] && all[j] == entries[j]);
        } else {
            assert(all[i] == entries[i]);
        }
    }
}

/// Keys that stand once still do when one is taken out.
pub proof fn lemma_remove_distinct(entries: Seq<(Seq<char>, JsonView)>, i: int)
    requires
        distinct(entries),
        0 <= i < entries.len(),
    ensures
        distinct(entries.remove(i)),
{
    let left = entries.remove(i);
    assert forall|j: int, k: int| 0 <= j < k < left.len() implies (#[trigger] left[j]).0 != (
    #[trigger] left[k]).0 by {
        let a = if j < i {
            j
        } else {
            j + 1
        };
        let b = if k < i {
            k
        } else {
            k + 1
        };
        assert(left[j] == entries[a]);
        assert(left[k] == entries[b]);
    }
}

proof fn lemma_fresh_keys(
    held: Seq<(Seq<char>, JsonView)>,
    keys: Map<Seq<char>, JsonView>,
    order: Seq<Seq<char>>,
    key: Seq<char>,
)
    ensures
        holds(fresh(held, keys, order), key) ==> order.contains(key),
    decreases order.len(),
{
    let all = fresh(held, keys, order);
    if order.len() > 0 && holds(all, key) {
        let front = fresh(held, keys, order.drop_last());
        lemma_fresh_keys(held, keys, order.drop_last(), key);
        let i = choose|i: int| 0 <= i < all.len() && (#[trigger] all[i]).0 == key;
        if i < front.len() {
            assert(front[i] == all[i]);
            assert(holds(front, key));
            let p = order.drop_last().index_of(key);
            assert(order[p] == key);
        } else {
            assert(order[order.len() - 1] == key);
        }
    }
}

proof fn lemma_holds_concat(
    a: Seq<(Seq<char>, JsonView)>,
    b: Seq<(Seq<char>, JsonView)>,
    key: Seq<char>,
)
    ensures
        holds(a + b, key) <==> holds(a, key) || holds(b, key),
{
    if holds(a, key) {
        let i = choose|i: int| 0 <= i < a.len() && (#[trigger] a[i]).0 == key;
        assert((a + b)[i].0 == key);
    }
    if holds(b, key) {
        let i = choose|i: int| 0 <= i < b.len() && (#[trigger] b[i]).0 == key;
        assert((a + b)[a.len() + i].0 == key);
    }
    if holds(a + b, key) {
        let i = choose|i: int| 0 <= i < (a + b).len() && (#[trigger] (a + b)[i]).0 == key;
        if i < a.len() {
            assert(a[i].0 == key);
        } else {
            assert(b[i - a.len()].0 == key);
        }
    }
}

proof fn lemma_count_bounds(entries: Seq<(Seq<char>, JsonView)>, algorithm: Seq<char>)
    ensures
        count_of(entries, algorithm) <= entries.len(),
    decreases entries.len(),
{
    if entries.len() > 0 {
        lemma_count_bounds(entries.drop_last(), algorithm);
    }
}

proof fn lemma_place(entries: Seq<(Seq<char>, JsonView)>, ids: Seq<String>, i: int)
    requires
        event::views(ids) == keys_of(entries),
        event::views(ids).no_duplicates(),
        0 <= i < entries.len(),
    ensures
        place(entries, entries[i].0) == i,
        holds(entries, entries[i].0),
{
    let key = entries[i].0;
    assert forall|j: int| 0 <= j < i implies (#[trigger] entries[j]).0 != key by {
        assert(keys_of(entries)[j] != keys_of(entries)[i]);
    }
    lists::lemma_first_where(entries, has_key(key), i);
}

/// A change is written behind the others of the journal, and nowhere without a journal.
pub proof fn law_changes_are_written_in_order(
    journal: Seq<OpView>,
    op: OpView,
    more: Seq<OpView>,
    ops: Seq<Op>,
    i: int,
)
    ensures
        logged(Some(journal), op) == Some(journal.push(op)),
        logged_all(Some(journal), more) == Some(journal + more),
        logged(None, op) is None,
        logged_all(None, more) is None,
        ops_view(ops).len() == ops.len(),
        0 <= i < ops.len() ==> ops_view(ops)[i] == ops[i]@,
{
}

/// What is reported of a user's keys is over all devices of the user, and nothing where no device
/// is known.
pub proof fn law_counts_are_over_all_devices(keys: KeysView, user: Seq<char>, device: Seq<char>)
    requires
        keys.devices.contains_key(user) ==> keys.devices[user].dom().finite(),
    ensures
        !keys.devices.contains_key(user) ==> least_counts(keys, user) == Map::<
            Seq<char>,
            JsonView,
        >::empty(),
        keys.devices.contains_key(user) ==> exists|order: Seq<Seq<char>>|
            #![trigger least_of(keys.one_time, user, order)]
            least_counts(keys, user) == least_of(keys.one_time, user, order) && (order.contains(device)
                <==> keys.devices[user].contains_key(device)),
{
    if keys.devices.contains_key(user) {
        let order = strmap::sorted_keys(keys.devices[user].dom());
        strmap::lemma_sorted(keys.devices[user].dom());
        assert(order.to_set().contains(device) <==> order.contains(device));
        assert(least_counts(keys, user) == least_of(keys.one_time, user, order));
    }
}

} // verus!
