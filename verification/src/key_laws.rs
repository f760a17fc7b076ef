//! What holds of the directory of keys: what was uploaded is found again under its own name, each
//! one-time key is handed out to who asks for it, and other servers are told of our users.
use crate::fed_keys;
use crate::ids;
use crate::json;
use crate::json::JsonView;
use crate::key_store;
use crate::key_store::KeysView;
use crate::lists;
use crate::names;
use crate::strmap;
use crate::text;
use vstd::prelude::*;

verus! {

/// Whether a list of keys has one with the given identifier.
pub open spec fn has_id(entries: Seq<(Seq<char>, JsonView)>, id: Seq<char>) -> bool {
    exists|i: int| 0 <= i < entries.len() && (#[trigger] entries[i]).0 == id
}

proof fn lemma_fresh_entries(
    held: Seq<(Seq<char>, JsonView)>,
    keys: Map<Seq<char>, JsonView>,
    order: Seq<Seq<char>>,
)
    ensures
        forall|j: int|
            0 <= j < key_store::fresh(held, keys, order).len() ==> {
                let e = #[trigger] key_store::fresh(held, keys, order)[j];
                order.contains(e.0) && !has_id(held, e.0) && e.1 == keys[e.0]
            },
        forall|id: Seq<char>| #[trigger]
            order.contains(id) && !has_id(held, id) ==> key_store::fresh(held, keys, order).contains(
                (id, keys[id]),
            ),
    decreases order.len(),
{
    let all = key_store::fresh(held, keys, order);
    if order.len() > 0 {
        let rest = order.drop_last();
        let front = key_store::fresh(held, keys, rest);
        let last = order.last();
        lemma_fresh_entries(held, keys, rest);
        assert(key_store::holds(held, last) == has_id(held, last));
        assert forall|j: int| 0 <= j < all.len() implies {
            let e = #[trigger] all[j];
            order.contains(e.0) && !has_id(held, e.0) && e.1 == keys[e.0]
        } by {
            if j < front.len() {
                assert(all[j] == front[j]);
                assert(order[rest.index_of(front[j].0)] == front[j].0);
            } else {
                assert(order[order.len() - 1] == last);
            }
        }
        assert forall|id: Seq<char>| #[trigger] order.contains(id) && !has_id(held, id) implies all.contains(
            (id, keys[id]),
        ) by {
            if id == last {
                assert(all[front.len() as int] == (id, keys[id]));
            } else {
                assert(rest[order.index_of(id)] == id);
                assert(rest.contains(id));
                let p = front.index_of((id, keys[id]));
                assert(all[p] == front[p]);
            }
        }
    }
}

proof fn lemma_fresh_order(
    held: Seq<(Seq<char>, JsonView)>,
    keys: Map<Seq<char>, JsonView>,
    order: Seq<Seq<char>>,
)
    requires
        strmap::ascending(order),
    ensures
        forall|i: int, j: int|
            0 <= i < j < key_store::fresh(held, keys, order).len() ==> text::precedes(
                (#[trigger] key_store::fresh(held, keys, order)[i]).0,
                (#[trigger] key_store::fresh(held, keys, order)[j]).0,
            ),
    decreases order.len(),
{
    if order.len() > 0 {
        let rest = order.drop_last();
        let front = key_store::fresh(held, keys, rest);
        let all = key_store::fresh(held, keys, order);
        assert(strmap::ascending(rest)) by {
            assert forall|i: int, j: int| 0 <= i < j < rest.len() implies text::precedes(
                #[trigger] rest[i],
                #[trigger] rest[j],
            ) by {
                assert(rest[i] == order[i] && rest[j] == order[j]);
            }
        }
        lemma_fresh_order(held, keys, rest);
        lemma_fresh_entries(held, keys, rest);
        assert forall|i: int, j: int| 0 <= i < j < all.len() implies text::precedes(
            (#[trigger] all[i]).0,
            (#[trigger] all[j]).0,
        ) by {
            assert(all[i] == front[i]);
            if j < front.len() {
                assert(all[j] == front[j]);
            } else {
                let p = rest.index_of(front[i].0);
                assert(order[p] == front[i].0);
                assert(order[order.len() - 1] == all[j].0);
            }
        }
    }
}

/// After an upload the device has the keys that it had, in their places, and then every uploaded
/// key whose identifier it had not, with the value that was uploaded for that identifier, in the
/// order of the identifiers. Nothing else is added.
pub proof fn law_uploaded_keys_are_held(
    held: Seq<(Seq<char>, JsonView)>,
    keys: Map<Seq<char>, JsonView>,
    id: Seq<char>,
    i: int,
    j: int,
)
    requires
        keys.dom().finite(),
    ensures
        ({
            let all = held + key_store::fresh_keys(held, keys);
            let n = held.len() as int;
            &&& 0 <= i < n ==> all[i] == held[i]
            &&& keys.contains_key(id) && !has_id(held, id) ==> all.contains((id, keys[id]))
            &&& n <= i < all.len() ==> keys.contains_key(all[i].0) && !has_id(held, all[i].0)
                && all[i].1 == keys[all[i].0]
            &&& n <= i < j < all.len() ==> text::precedes(all[i].0, all[j].0)
        }),
{
    let order = strmap::sorted_keys(keys.dom());
    let added = key_store::fresh_keys(held, keys);
    let all = held + added;
    strmap::lemma_sorted(keys.dom());
    lemma_fresh_entries(held, keys, order);
    lemma_fresh_order(held, keys, order);
    if keys.contains_key(id) && !has_id(held, id) {
        assert(order.to_set().contains(id));
        assert(order.contains(id));
        let p = added.index_of((id, keys[id]));
        assert(all[held.len() + p] == (id, keys[id]));
    }
    if held.len() <= i < all.len() {
        assert(all[i] == added[i - held.len()]);
        assert(order.to_set().contains(all[i].0));
        if i < j < all.len() {
            assert(all[j] == added[j - held.len()]);
        }
    }
}

/// A key that is written, where it was uploaded before or not, is found under its identifier, and
/// every other key stays as it was.
pub proof fn law_a_written_key_is_found(
    entries: Seq<(Seq<char>, JsonView)>,
    id: Seq<char>,
    key: JsonView,
    other: (Seq<char>, JsonView),
)
    requires
        key_store::distinct(entries),
    ensures
        key_store::written(entries, id, key).contains((id, key)),
        other.0 != id ==> (key_store::written(entries, id, key).contains(other) <==> entries.contains(
            other,
        )),
        other.0 == id && other.1 != key ==> !key_store::written(entries, id, key).contains(other),
        !has_id(entries, id) ==> key_store::written(entries, id, key) == entries.push((id, key)),
{
    let all = key_store::written(entries, id, key);
    let p = key_store::place(entries, id);
    lists::lemma_first_where_bounds(entries, key_store::has_key(id));
    key_store::lemma_written_distinct(entries, id, key);
    assert(key_store::holds(entries, id) == has_id(entries, id));
    if has_id(entries, id) {
        let k = choose|k: int| 0 <= k < entries.len() && (#[trigger] entries[k]).0 == id;
        assert((key_store::has_key(id))(entries[k]));
        assert((key_store::has_key(id))(entries[p]));
        assert(all[p] == (id, key));
    } else {
        assert(all[entries.len() as int] == (id, key));
    }
    if other.0 != id {
        if entries.contains(other) {
            let q = entries.index_of(other);
            assert(all[q] == other);
        }
        if all.contains(other) {
            let q = all.index_of(other);
            assert(entries[q] == other);
        }
    } else if other.1 != key && all.contains(other) {
        let q = all.index_of(other);
        let r = all.index_of((id, key));
        assert(all[q].0 == all[r].0);
        if q < r {
            assert(all[q].0 != all[r].0);
        } else {
            assert(all[r].0 != all[q].0);
        }
    }
}

/// Whether an identifier is of an algorithm: the algorithm, a colon, and anything.
pub open spec fn is_of(id: Seq<char>, algorithm: Seq<char>) -> bool {
    &&& !algorithm.contains(':')
    &&& id.len() > algorithm.len()
    &&& id.take(algorithm.len() as int) == algorithm
    &&& id[algorithm.len() as int] == ':'
}

proof fn lemma_is_of(id: Seq<char>, algorithm: Seq<char>)
    ensures
        key_store::claimable(id, algorithm) <==> is_of(id, algorithm),
{
    text::lemma_upto_bounds(id, ':');
    let n = algorithm.len() as int;
    if is_of(id, algorithm) {
        assert forall|j: int| 0 <= j < n implies id[j] != ':' by {
            assert(id.take(n)[j] == id[j]);
            assert(algorithm.contains(algorithm[j]));
        }
        text::lemma_upto(id, ':', n);
        assert(id.contains(':'));
    }
    if key_store::claimable(id, algorithm) {
        let k = text::upto(id, ':');
        assert(id.take(k) == algorithm);
        assert(k == n);
        if algorithm.contains(':') {
            let j = algorithm.index_of(':');
            assert(id.take(k)[j] == id[j]);
        }
    }
}

/// A claim hands out the oldest key of the algorithm, with its value, and takes out that one and
/// no other. Where there is none, nothing is handed out and nothing changes.
pub proof fn law_claims_hand_out_the_oldest(
    entries: Seq<(Seq<char>, JsonView)>,
    algorithm: Seq<char>,
    i: int,
)
    requires
        0 <= i <= entries.len(),
        forall|j: int| 0 <= j < i ==> !is_of((#[trigger] entries[j]).0, algorithm),
        i < entries.len() ==> is_of(entries[i].0, algorithm),
    ensures
        i < entries.len() ==> key_store::claimed(entries, algorithm) == Some(entries[i])
            && key_store::after_claim(entries, algorithm) == entries.remove(i),
        i == entries.len() ==> key_store::claimed(entries, algorithm) is None
            && key_store::after_claim(entries, algorithm) == entries,
{
    let p = key_store::claimable_for(algorithm);
    assert forall|j: int| 0 <= j < i implies !p(#[trigger] entries[j]) by {
        lemma_is_of(entries[j].0, algorithm);
    }
    if i < entries.len() {
        lemma_is_of(entries[i].0, algorithm);
        assert(p(entries[i]));
    }
    lists::lemma_first_where(entries, p, i);
}

/// Each device that a request names with an algorithm is given the key that a claim of that
/// algorithm hands out for it, and that one alone; a device that has none is given nothing.
pub proof fn law_requests_are_given_their_keys(
    one_time: Map<(Seq<char>, Seq<char>), Seq<(Seq<char>, JsonView)>>,
    requested: Map<Seq<char>, JsonView>,
    user: Seq<char>,
    device: Seq<char>,
    id: Seq<char>,
)
    requires
        one_time.contains_key((user, device)),
    ensures
        ({
            let answer = JsonView::Object(key_store::claim_answer(one_time, requested));
            let after = key_store::after_claims(one_time, requested);
            let asked = if requested.contains_key(user) {
                requested[user].field(device)
            } else {
                None
            };
            let entries = one_time[(user, device)];
            &&& asked matches Some(JsonView::Text(algorithm)) ==> {
                &&& key_store::claimed(entries, algorithm) matches Some(given) ==> {
                    &&& answer.field(user)->0.field(device)->0.field(given.0) == Some(given.1)
                    &&& id != given.0 ==> answer.field(user)->0.field(device)->0.field(id) is None
                    &&& answer.field(user)->0.field(device) is Some
                }
                &&& key_store::claimed(entries, algorithm) is None && answer.field(user) is Some
                    ==> answer.field(user)->0.field(device) is None
                &&& after[(user, device)] == key_store::after_claim(entries, algorithm)
            }
            &&& !(asked matches Some(JsonView::Text(_))) ==> {
                &&& answer.field(user) is Some ==> answer.field(user)->0.field(device) is None
                &&& after[(user, device)] == entries
            }
            &&& after.contains_key((user, device))
        }),
{
    let devices = key_store::devices_asked(requested, user);
    assert(key_store::given(one_time, devices, user, device) is Some
        || key_store::given(one_time, devices, user, device) is None);
}

/// A user of whom nothing is given is absent from an answer.
pub proof fn law_users_without_keys_are_absent(
    one_time: Map<(Seq<char>, Seq<char>), Seq<(Seq<char>, JsonView)>>,
    requested: Map<Seq<char>, JsonView>,
    user: Seq<char>,
)
    requires
        requested.contains_key(user) ==> forall|d: Seq<char>|
            (#[trigger] requested[user].field(d)) matches Some(JsonView::Text(algorithm))
                ==> key_store::claimed(one_time[(user, d)], algorithm) is None,
    ensures
        !key_store::claim_answer(one_time, requested).contains_key(user),
{
    let devices = key_store::devices_asked(requested, user);
    if key_store::claim_answer(one_time, requested).contains_key(user) {
        let d = choose|d: Seq<char>| #[trigger]
            key_store::given(one_time, devices, user, d) is Some;
        assert(json::text_field(devices, d) is Some);
        assert(requested[user].field(d) is Some);
    }
}

/// The count of an algorithm goes up by one with each key whose identifier has the algorithm
/// before its first colon, or is the algorithm where it has no colon, and by nothing else.
pub proof fn law_keys_are_counted_by_algorithm(
    entries: Seq<(Seq<char>, JsonView)>,
    entry: (Seq<char>, JsonView),
    algorithm: Seq<char>,
)
    ensures
        ({
            let more = JsonView::Object(key_store::counts_of(entries.push(entry)));
            let before = key_store::count_of(entries, algorithm);
            let counts = is_of(entry.0, algorithm) || (entry.0 == algorithm && !algorithm.contains(':'));
            let after = before + if counts {
                1nat
            } else {
                0
            };
            &&& more.field(algorithm) == if after > 0 {
                Some(JsonView::Int(after as int))
            } else {
                None
            }
            &&& JsonView::Object(key_store::counts_of(entries)).field(algorithm) == if before > 0 {
                Some(JsonView::Int(before as int))
            } else {
                None
            }
            &&& key_store::count_of(seq![], algorithm) == 0
        }),
{
    let all = entries.push(entry);
    assert(all.drop_last() =~= entries);
    lemma_is_of(entry.0, algorithm);
    text::lemma_upto_bounds(entry.0, ':');
    if !entry.0.contains(':') {
        assert(entry.0.take(entry.0.len() as int) =~= entry.0);
    } else if entry.0 == algorithm {
        assert(algorithm.contains(':'));
    }
}

/// A request for devices is answered, for each user of whom any are held, with the keys of those
/// that it names, each under its identifier: a list names its strings, and an empty list, or what
/// is no list, names all.
pub proof fn law_devices_are_found_under_their_names(
    devices: Map<Seq<char>, Map<Seq<char>, JsonView>>,
    requested: Map<Seq<char>, JsonView>,
    user: Seq<char>,
    device: Seq<char>,
)
    ensures
        ({
            let answer = JsonView::Object(key_store::devices_answer(devices, requested));
            let named = match requested[user] {
                JsonView::Array(list) => list.len() == 0 || list.contains(JsonView::Text(device)),
                _ => true,
            };
            &&& answer.field(user) is Some <==> requested.contains_key(user) && devices.contains_key(
                user,
            )
            &&& requested.contains_key(user) && devices.contains_key(user) ==> answer.field(
                user,
            )->0.field(device) == if devices[user].contains_key(device) && named {
                Some(devices[user][device])
            } else {
                None
            }
        }),
{
    if let JsonView::Array(list) = requested[user] {
        if list.contains(JsonView::Text(device)) {
            let i = list.index_of(JsonView::Text(device));
            assert(list[i].text() == Some(device));
        }
        if key_store::asks_for(requested[user], device) && list.len() > 0 {
            let i = choose|i: int|
                0 <= i < list.len() && (#[trigger] list[i]).text() == Some(device);
            assert(list[i] == JsonView::Text(device));
        }
    }
}

/// The keys of a device that were put are what is found of it, and no other device changes.
pub proof fn law_a_device_that_was_put_is_found(
    devices: Map<Seq<char>, Map<Seq<char>, JsonView>>,
    user: Seq<char>,
    device: Seq<char>,
    keys: JsonView,
    other_user: Seq<char>,
    other_device: Seq<char>,
)
    ensures
        ({
            let after = key_store::with_device(devices, user, device, keys);
            &&& after.contains_key(user) && after[user].contains_key(device) && after[user][device]
                == keys
            &&& other_user != user ==> (after.contains_key(other_user) <==> devices.contains_key(
                other_user,
            ))
            &&& other_user != user && devices.contains_key(other_user) ==> after[other_user]
                == devices[other_user]
            &&& other_device != device ==> (after[user].contains_key(other_device)
                <==> devices.contains_key(user) && devices[user].contains_key(other_device))
            &&& other_device != device && devices.contains_key(user)
                && devices[user].contains_key(other_device) ==> after[user][other_device]
                == devices[user][other_device]
        }),
{
}

/// Signatures are added to those that the keys have by the same user: each new one is found,
/// those that it does not replace stay, and so does everything else of the keys. Keys without
/// signatures of the user stay as they are.
pub proof fn law_signatures_are_added(
    keys: JsonView,
    user: Seq<char>,
    signatures: Map<Seq<char>, JsonView>,
    id: Seq<char>,
    other: Seq<char>,
)
    ensures
        ({
            let after = key_store::with_signatures(keys, user, signatures);
            let mine = keys.field("signatures"@)->0.field(user);
            let signed = keys.field("signatures"@) is Some && (mine matches Some(JsonView::Object(_)));
            &&& !signed ==> after == keys
            &&& signed ==> {
                &&& after.field("signatures"@)->0.field(user)->0.field(id) == if signatures.contains_key(
                    id,
                ) {
                    Some(signatures[id])
                } else {
                    mine->0.field(id)
                }
                &&& other != user ==> after.field("signatures"@)->0.field(other) == keys.field(
                    "signatures"@,
                )->0.field(other)
                &&& other != "signatures"@ ==> after.field(other) == keys.field(other)
            }
        }),
{
}

/// Another server that asks for device keys is told those of our users that it names, and every
/// cross-signing section under its name.
pub proof fn law_other_servers_find_our_devices(
    keys: KeysView,
    own_server: Seq<char>,
    body: JsonView,
    user: Seq<char>,
    device: Seq<char>,
    name: Seq<char>,
)
    ensures
        ({
            let answer = fed_keys::query_answer(keys, own_server, body);
            let asked = body.field("device_keys"@)->0.field(user);
            let named = match asked->0 {
                JsonView::Array(list) => list.len() == 0 || list.contains(JsonView::Text(device)),
                _ => true,
            };
            let known = body.field("device_keys"@) is Some && asked is Some && ids::user_id_valid(user)
                && ids::server_part(user) == own_server && keys.devices.contains_key(user);
            &&& keys.cross_signing.contains_key(name) ==> answer.field(name) == Some(
                keys.cross_signing[name],
            )
            &&& !keys.cross_signing.contains_key(name) && name != "device_keys"@ ==> answer.field(name) is None
            &&& !keys.cross_signing.contains_key("device_keys"@) ==> {
                let found = answer.field("device_keys"@)->0.field(user);
                &&& found is Some <==> known
                &&& known ==> found->0.field(device) == if keys.devices[user].contains_key(device)
                    && named {
                    Some(keys.devices[user][device])
                } else {
                    None
                }
            }
        }),
{
    let requested = fed_keys::ours_of(fed_keys::section(body, "device_keys"@), own_server);
    law_devices_are_found_under_their_names(keys.devices, requested, user, device);
}

/// Another server claims keys of our users alone: what it asks for of others is passed over.
pub proof fn law_other_servers_claim_of_our_users(own_server: Seq<char>, body: JsonView, user: Seq<char>)
    ensures
        ({
            let asked = fed_keys::claimed_by(own_server, body);
            let wanted = body.field("one_time_keys"@)->0.field(user);
            let ours = body.field("one_time_keys"@) is Some && wanted is Some && ids::user_id_valid(user)
                && ids::server_part(user) == own_server;
            &&& asked.contains_key(user) <==> ours
            &&& ours ==> asked[user] == wanted->0
        }),
{
}

/// Another server that asks for the devices of a user is told the user, each device of theirs with
/// its identifier and keys, and their master and self-signing keys where they were uploaded, under
/// either name.
pub proof fn law_other_servers_list_our_devices(
    keys: KeysView,
    user: Seq<char>,
    device: Seq<char>,
    i: int,
)
    requires
        keys.devices.contains_key(user) ==> keys.devices[user].dom().finite(),
    ensures
        ({
            let body = fed_keys::devices_body(keys, user);
            let held = if keys.devices.contains_key(user) {
                keys.devices[user]
            } else {
                Map::empty()
            };
            let cross = keys.cross_signing;
            &&& body.field("user_id"@) == Some(JsonView::Text(user))
            &&& body.field("stream_id"@) == Some(JsonView::Int(1))
            &&& body.field("devices"@) matches Some(JsonView::Array(list))
            &&& list.len() == held.dom().len()
            &&& 0 <= i < list.len() ==> {
                &&& list[i].field("device_id"@) matches Some(JsonView::Text(d))
                &&& held.contains_key(d)
                &&& list[i].field("keys"@) == Some(held[d])
            }
            &&& held.contains_key(device) ==> exists|j: int|
                0 <= j < list.len() && (#[trigger] list[j]).field("device_id"@) == Some(
                    JsonView::Text(device),
                ) && list[j].field("keys"@) == Some(held[device])
            &&& body.field("master_key"@) == if cross.contains_key("master_keys"@) {
                Some(cross["master_keys"@])
            } else {
                json::lookup(cross, "master_key"@)
            }
            &&& body.field("self_signing_key"@) == if cross.contains_key("self_signing_keys"@) {
                Some(cross["self_signing_keys"@])
            } else {
                json::lookup(cross, "self_signing_key"@)
            }
        }),
{
    names::lemma_device_names();
    let held = key_store::inner_map(keys.devices, user);
    let order = strmap::sorted_keys(held.dom());
    let list = fed_keys::listed_devices(held);
    strmap::lemma_sorted(held.dom());
    order.unique_seq_to_set();
    if 0 <= i < list.len() {
        assert(order.to_set().contains(order[i]));
    }
    if held.contains_key(device) {
        assert(order.to_set().contains(device));
        let j = order.index_of(device);
        assert(list[j].field("device_id"@) == Some(JsonView::Text(device)));
    }
    reveal_strlit("s");
    reveal_strlit("master_key");
    reveal_strlit("master_keys");
    reveal_strlit("self_signing_key");
    reveal_strlit("self_signing_keys");
    assert("master_key"@ + "s"@ =~= "master_keys"@);
    assert("self_signing_key"@ + "s"@ =~= "self_signing_keys"@);
}

} // verus!
