//! What holds of the directory of keys and of the inbox over several calls: no one-time key is
//! handed out twice, every message is delivered once, and what is read back from a store that
//! follows the journal is what was held.
use crate::e2ee;
use crate::e2ee::{E2eeView, SnapshotView};
use crate::json::JsonView;
use crate::key_store;
use crate::key_store::{KeysView, OpView};
use crate::lists;
use crate::strmap;
use vstd::prelude::*;

verus! {

/// What is reported for an algorithm is no more than any device of the user has, and one of the
/// devices has no more than that.
pub proof fn law_reported_counts_are_the_least(
    one_time: Map<(Seq<char>, Seq<char>), Seq<(Seq<char>, JsonView)>>,
    user: Seq<char>,
    devices: Seq<Seq<char>>,
    algorithm: Seq<char>,
)
    requires
        devices.len() > 0,
    ensures
        forall|i: int|
            0 <= i < devices.len() ==> key_store::count_in(
                key_store::least_of(one_time, user, devices),
                algorithm,
            ) <= key_store::count_in(
                key_store::counts_of(one_time[(user, #[trigger] devices[i])]),
                algorithm,
            ),
        exists|i: int|
            0 <= i < devices.len() && key_store::count_in(
                key_store::least_of(one_time, user, devices),
                algorithm,
            ) == key_store::count_in(
                key_store::counts_of(one_time[(user, #[trigger] devices[i])]),
                algorithm,
            ),
    decreases devices.len(),
{
    let last = devices.len() - 1;
    let whole = key_store::count_in(key_store::least_of(one_time, user, devices), algorithm);
    if devices.len() > 1 {
        let front = devices.drop_last();
        law_reported_counts_are_the_least(one_time, user, front, algorithm);
        let before = key_store::count_in(key_store::least_of(one_time, user, front), algorithm);
        let mine = key_store::count_in(
            key_store::counts_of(one_time[(user, devices[last])]),
            algorithm,
        );
        assert(whole == if before <= mine {
            before
        } else {
            mine
        });
        assert forall|i: int| 0 <= i < devices.len() implies whole <= key_store::count_in(
            key_store::counts_of(one_time[(user, #[trigger] devices[i])]),
            algorithm,
        ) by {
            if i < last {
                assert(front[i] == devices[i]);
            }
        }
        let i = choose|i: int|
            0 <= i < front.len() && before == key_store::count_in(
                key_store::counts_of(one_time[(user, #[trigger] front[i])]),
                algorithm,
            );
        assert(devices[i] == front[i]);
        assert(whole == mine || whole == before);
    } else {
        assert(whole == key_store::count_in(
            key_store::counts_of(one_time[(user, devices[0])]),
            algorithm,
        ));
    }
}

/// A claim hands out a key of the algorithm that is asked for, and no older one is left.
pub proof fn law_claims_take_the_oldest_key(
    entries: Seq<(Seq<char>, JsonView)>,
    algorithm: Seq<char>,
    i: int,
)
    requires
        key_store::claimed(entries, algorithm) is Some,
        0 <= i < key_store::oldest(entries, algorithm),
    ensures
        key_store::claimable((key_store::claimed(entries, algorithm)->0).0, algorithm),
        !key_store::claimable(entries[i].0, algorithm),
        key_store::after_claim(entries, algorithm)[i] == entries[i],
{
    lists::lemma_first_where_bounds(entries, key_store::claimable_for(algorithm));
    let p = key_store::claimable_for(algorithm);
    assert(!p(entries[i]));
    assert(p(entries[key_store::oldest(entries, algorithm)]));
}

/// A claim fails only when no key of the algorithm is held.
pub proof fn law_claims_fail_only_without_keys(
    entries: Seq<(Seq<char>, JsonView)>,
    algorithm: Seq<char>,
    i: int,
)
    requires
        key_store::claimed(entries, algorithm) is None,
        0 <= i < entries.len(),
    ensures
        !key_store::claimable(entries[i].0, algorithm),
        key_store::after_claim(entries, algorithm) == entries,
{
    lists::lemma_first_where_bounds(entries, key_store::claimable_for(algorithm));
    let p = key_store::claimable_for(algorithm);
    assert(!p(entries[i]));
}

/// A key that was claimed is gone, so that no later claim hands it out.
pub proof fn law_claimed_keys_are_gone(
    entries: Seq<(Seq<char>, JsonView)>,
    algorithm: Seq<char>,
    later: Seq<char>,
)
    requires
        key_store::distinct(entries),
        key_store::claimed(entries, algorithm) is Some,
    ensures
        ({
            let id = (key_store::claimed(entries, algorithm)->0).0;
            let left = key_store::after_claim(entries, algorithm);
            &&& !key_store::holds(left, id)
            &&& key_store::distinct(left)
            &&& key_store::claimed(left, later) matches Some(next) ==> next.0 != id
        }),
{
    let i = key_store::oldest(entries, algorithm);
    let left = key_store::after_claim(entries, algorithm);
    let id = entries[i].0;
    lists::lemma_first_where_bounds(entries, key_store::claimable_for(algorithm));
    assert forall|j: int| 0 <= j < left.len() implies (#[trigger] left[j]).0 != id by {
        if j < i {
            assert(left[j] == entries[j]);
        } else {
            assert(left[j] == entries[j + 1]);
        }
    }
    key_store::lemma_remove_distinct(entries, i);
    lists::lemma_first_where_bounds(left, key_store::claimable_for(later));
}

/// An upload keeps every key that is held, in its place, and lets no key stand twice.
pub proof fn law_uploads_keep_what_is_held(
    held: Seq<(Seq<char>, JsonView)>,
    keys: Map<Seq<char>, JsonView>,
    i: int,
)
    requires
        key_store::distinct(held),
        keys.dom().finite(),
    ensures
        key_store::distinct(held + key_store::fresh_keys(held, keys)),
        0 <= i < held.len() ==> (held + key_store::fresh_keys(held, keys))[i] == held[i],
{
    let order = strmap::sorted_keys(keys.dom());
    strmap::lemma_sorted(keys.dom());
    lemma_fresh_distinct(held, keys, order);
}

proof fn lemma_fresh_distinct(
    held: Seq<(Seq<char>, JsonView)>,
    keys: Map<Seq<char>, JsonView>,
    order: Seq<Seq<char>>,
)
    requires
        key_store::distinct(held),
        order.no_duplicates(),
    ensures
        key_store::distinct(held + key_store::fresh(held, keys, order)),
        forall|j: int|
            0 <= j < key_store::fresh(held, keys, order).len() ==> order.contains(
                (#[trigger] key_store::fresh(held, keys, order)[j]).0,
            ) && !key_store::holds(held, key_store::fresh(held, keys, order)[j].0),
    decreases order.len(),
{
    let all = key_store::fresh(held, keys, order);
    if order.len() > 0 {
        let rest = order.drop_last();
        let front = key_store::fresh(held, keys, rest);
        let last = order.last();
        assert(rest.no_duplicates());
        lemma_fresh_distinct(held, keys, rest);
        assert forall|j: int| 0 <= j < all.len() implies order.contains((#[trigger] all[j]).0)
            && !key_store::holds(held, all[j].0) by {
            if j < front.len() {
                assert(all[j] == front[j]);
                let p = rest.index_of(front[j].0);
                assert(order[p] == front[j].0);
            } else {
                assert(order[order.len() - 1] == all[j].0);
            }
        }
        if !key_store::holds(held, last) {
            let a = held + front;
            let b = held + all;
            assert(b =~= a.push((last, keys[last])));
            assert forall|j: int, k: int| 0 <= j < k < b.len() implies (#[trigger] b[j]).0 != (
            #[trigger] b[k]).0 by {
                if k < a.len() {
                    assert(b[j] == a[j] && b[k] == a[k]);
                } else {
                    if j < held.len() {
                        assert(b[j] == held[j]);
                    } else {
                        assert(b[j] == front[j - held.len()]);
                        let p = rest.index_of(b[j].0);
                        assert(order[p] == b[j].0);
                        assert(p != order.len() - 1);
                    }
                }
            }
        }
    } else {
        assert(held + all =~= held);
    }
}

/// No device comes to have a one-time key twice: none has after keys are uploaded, after a
/// request takes keys and after the rows of a store are read in, where none had before.
pub proof fn law_no_key_stands_twice(
    one_time: Map<(Seq<char>, Seq<char>), Seq<(Seq<char>, JsonView)>>,
    user: Seq<char>,
    device: Seq<char>,
    uploaded: Map<Seq<char>, JsonView>,
    requested: Map<Seq<char>, JsonView>,
    rows: Seq<(Seq<char>, Seq<char>, Seq<char>, Option<JsonView>)>,
)
    requires
        key_store::all_distinct(one_time),
        uploaded.dom().finite(),
    ensures
        key_store::all_distinct(
            one_time.insert(
                (user, device),
                one_time[(user, device)] + key_store::fresh_keys(one_time[(user, device)], uploaded),
            ),
        ),
        key_store::all_distinct(key_store::after_claims(one_time, requested)),
        key_store::all_distinct(e2ee::loaded_keys(one_time, rows)),
    decreases rows.len(),
{
    let held = one_time[(user, device)];
    assert(one_time.contains_key((user, device)));
    law_uploads_keep_what_is_held(held, uploaded, 0);
    let more = one_time.insert((user, device), held + key_store::fresh_keys(held, uploaded));
    assert forall|p: (Seq<char>, Seq<char>)| #[trigger]
        more.contains_key(p) && key_store::distinct(more[p]) by {
        assert(one_time.contains_key(p));
    }
    let less = key_store::after_claims(one_time, requested);
    assert forall|p: (Seq<char>, Seq<char>)| #[trigger]
        less.contains_key(p) && key_store::distinct(less[p]) by {
        assert(one_time.contains_key(p));
        let asked = key_store::devices_asked(requested, p.0);
        if let Some(algorithm) = crate::json::text_field(asked, p.1) {
            let i = key_store::oldest(one_time[p], algorithm);
            if 0 <= i < one_time[p].len() {
                key_store::lemma_remove_distinct(one_time[p], i);
            }
        }
    }
    if rows.len() > 0 {
        law_no_key_stands_twice(one_time, user, device, uploaded, requested, rows.drop_last());
        let front = e2ee::loaded_keys(one_time, rows.drop_last());
        let all = e2ee::loaded_keys(one_time, rows);
        assert forall|p: (Seq<char>, Seq<char>)| #[trigger]
            all.contains_key(p) && key_store::distinct(all[p]) by {
            assert(front.contains_key(p));
            if let (u, d, id, Some(key)) = rows.last() {
                key_store::lemma_written_distinct(front[p], id, key);
            }
        }
    }
}

/// What a store holds that follows the journal.
#[verifier::ext_equal]
pub struct Durable {
    pub keys: KeysView,
    pub inbox: Map<Seq<char>, Seq<(int, JsonView)>>,
}

/// What the state holds and a store has to hold.
pub open spec fn durable(state: E2eeView) -> Durable {
    Durable { keys: state.keys, inbox: state.inbox }
}

/// The condition that an entry has another key.
pub open spec fn other_key(id: Seq<char>) -> spec_fn((Seq<char>, JsonView)) -> bool {
    |e: (Seq<char>, JsonView)| e.0 != id
}

/// The condition that a message is not among those with the given identifiers.
pub open spec fn not_among(ids: Seq<int>) -> spec_fn((int, JsonView)) -> bool {
    |m: (int, JsonView)| !ids.contains(m.0)
}

/// What a store holds once it has followed one change.
pub open spec fn followed(d: Durable, op: OpView) -> Durable {
    match op {
        OpView::PutDevice { user, device, keys } => Durable {
            keys: KeysView {
                devices: key_store::with_device(d.keys.devices, user, device, keys),
                ..d.keys
            },
            ..d
        },
        OpView::PutOneTimeKeys { user, device, one_time } => Durable {
            keys: KeysView {
                one_time: d.keys.one_time.insert(
                    (user, device),
                    d.keys.one_time[(user, device)] + one_time,
                ),
                ..d.keys
            },
            ..d
        },
        OpView::RemoveOneTimeKey { user, device, key_id } => Durable {
            keys: KeysView {
                one_time: d.keys.one_time.insert(
                    (user, device),
                    lists::kept(d.keys.one_time[(user, device)], other_key(key_id)),
                ),
                ..d.keys
            },
            ..d
        },
        OpView::PutCrossSigning { name, value } => Durable {
            keys: KeysView { cross_signing: d.keys.cross_signing.insert(name, value), ..d.keys },
            ..d
        },
        OpView::PushToDevice { id, user, event } => Durable {
            inbox: d.inbox.insert(user, d.inbox[user].push((id, event))),
            ..d
        },
        OpView::RemoveToDevice { ids } => Durable {
            inbox: Map::new(
                |u: Seq<char>| d.inbox.contains_key(u),
                |u: Seq<char>| lists::kept(d.inbox[u], not_among(ids)),
            ),
            ..d
        },
    }
}

/// What a store holds once it has followed changes in their order.
pub open spec fn followed_all(d: Durable, ops: Seq<OpView>) -> Durable
    decreases ops.len(),
{
    if ops.len() == 0 {
        d
    } else {
        followed(followed_all(d, ops.drop_last()), ops.last())
    }
}

/// Following two runs of changes is following the second after the first.
pub proof fn lemma_followed_concat(d: Durable, a: Seq<OpView>, b: Seq<OpView>)
    ensures
        followed_all(d, a + b) == followed_all(followed_all(d, a), b),
    decreases b.len(),
{
    if b.len() == 0 {
        assert(a + b =~= a);
    } else {
        lemma_followed_concat(d, a, b.drop_last());
        assert((a + b).drop_last() =~= a + b.drop_last());
        assert((a + b).last() == b.last());
    }
}

/// A store that follows the upload of one-time keys holds what the directory holds.
pub proof fn law_store_follows_uploads(
    state: E2eeView,
    user: Seq<char>,
    device: Seq<char>,
    keys: Map<Seq<char>, JsonView>,
)
    ensures
        ({
            let held = state.keys.one_time[(user, device)];
            let added = key_store::fresh_keys(held, keys);
            followed(
                durable(state),
                (OpView::PutOneTimeKeys { user, device, one_time: added }),
            ) == durable(
                (E2eeView {
                    keys: KeysView {
                        one_time: state.keys.one_time.insert((user, device), held + added),
                        ..state.keys
                    },
                    ..state
                }),
            )
        }),
{
}

proof fn lemma_removal_is_claim(entries: Seq<(Seq<char>, JsonView)>, algorithm: Seq<char>)
    requires
        key_store::distinct(entries),
        key_store::claimed(entries, algorithm) is Some,
    ensures
        lists::kept(entries, other_key((key_store::claimed(entries, algorithm)->0).0))
            == key_store::after_claim(entries, algorithm),
{
    let i = key_store::oldest(entries, algorithm);
    let id = entries[i].0;
    let p = other_key(id);
    assert forall|j: int| 0 <= j < entries.len() && j != i implies p(#[trigger] entries[j]) by {
        if j < i {
            assert(entries[j].0 != entries[i].0);
        } else {
            assert(entries[i].0 != entries[j].0);
        }
    }
    lists::lemma_kept_but_one(entries, p, i);
}

/// A store that follows a request for keys holds what the directory holds: a key that was
/// claimed stays claimed.
pub proof fn law_store_follows_claims(state: E2eeView, requested: Map<Seq<char>, JsonView>)
    requires
        key_store::all_distinct(state.keys.one_time),
        requested.dom().finite(),
        forall|u: Seq<char>| #[trigger] key_store::devices_asked(requested, u).dom().finite(),
    ensures
        followed_all(
            durable(state),
            key_store::claim_ops(
                state.keys.one_time,
                requested,
                strmap::sorted_keys(requested.dom()),
            ),
        ) == durable(
            (E2eeView {
                keys: KeysView {
                    one_time: key_store::after_claims(state.keys.one_time, requested),
                    ..state.keys
                },
                ..state
            }),
        ),
{
    let users = strmap::sorted_keys(requested.dom());
    strmap::lemma_sorted(requested.dom());
    assert forall|u: Seq<char>| #[trigger]
        strmap::ascending(
            strmap::sorted_keys(key_store::devices_asked(requested, u).dom()),
        ) && strmap::sorted_keys(key_store::devices_asked(requested, u).dom()).to_set()
            == key_store::devices_asked(requested, u).dom() by {
        strmap::lemma_sorted(key_store::devices_asked(requested, u).dom());
    }
    lemma_store_follows_users(durable(state), requested, users);
    let one_time = state.keys.one_time;
    let a = served(one_time, requested, users.to_set());
    let b = key_store::after_claims(one_time, requested);
    assert forall|p: (Seq<char>, Seq<char>)| one_time.contains_key(p) implies a[p] == b[p] by {
        if !requested.contains_key(p.0) {
            assert(key_store::devices_asked(requested, p.0) =~= Map::empty());
        }
    }
    assert(a =~= b);
}

/// The one-time keys once the given users are served.
spec fn served(
    one_time: Map<(Seq<char>, Seq<char>), Seq<(Seq<char>, JsonView)>>,
    requested: Map<Seq<char>, JsonView>,
    done: Set<Seq<char>>,
) -> Map<(Seq<char>, Seq<char>), Seq<(Seq<char>, JsonView)>> {
    Map::new(
        |p: (Seq<char>, Seq<char>)| one_time.contains_key(p),
        |p: (Seq<char>, Seq<char>)|
            if done.contains(p.0) {
                key_store::left(one_time, key_store::devices_asked(requested, p.0), p.0, p.1)
            } else {
                one_time[p]
            },
    )
}

/// The one-time keys once the given devices of a user are served.
spec fn served_devices(
    one_time: Map<(Seq<char>, Seq<char>), Seq<(Seq<char>, JsonView)>>,
    devices: Map<Seq<char>, JsonView>,
    user: Seq<char>,
    done: Set<Seq<char>>,
) -> Map<(Seq<char>, Seq<char>), Seq<(Seq<char>, JsonView)>> {
    Map::new(
        |p: (Seq<char>, Seq<char>)| one_time.contains_key(p),
        |p: (Seq<char>, Seq<char>)|
            if p.0 == user && done.contains(p.1) {
                key_store::left(one_time, devices, user, p.1)
            } else {
                one_time[p]
            },
    )
}

proof fn lemma_last_is_new(s: Seq<Seq<char>>)
    requires
        s.no_duplicates(),
        s.len() > 0,
    ensures
        s.drop_last().no_duplicates(),
        !s.drop_last().to_set().contains(s.last()),
        s.to_set() == s.drop_last().to_set().insert(s.last()),
{
    let t = s.drop_last();
    if t.contains(s.last()) {
        let p = t.index_of(s.last());
        assert(s[p] == s[s.len() - 1]);
    }
    crate::json::lemma_take_push(s, s.len() - 1);
    assert(s.take(s.len() - 1) =~= t);
    assert(s.take(s.len() as int) =~= s);
}

proof fn lemma_store_follows_devices(
    d: Durable,
    devices: Map<Seq<char>, JsonView>,
    user: Seq<char>,
    order: Seq<Seq<char>>,
)
    requires
        key_store::all_distinct(d.keys.one_time),
        order.no_duplicates(),
    ensures
        followed_all(d, key_store::user_claim_ops(d.keys.one_time, devices, user, order)) == (Durable {
            keys: KeysView {
                one_time: served_devices(d.keys.one_time, devices, user, order.to_set()),
                ..d.keys
            },
            ..d
        }),
    decreases order.len(),
{
    let one_time = d.keys.one_time;
    if order.len() == 0 {
        assert(served_devices(one_time, devices, user, order.to_set()) =~= one_time);
    } else {
        let rest = order.drop_last();
        let device = order.last();
        lemma_last_is_new(order);
        lemma_store_follows_devices(d, devices, user, rest);
        let before = served_devices(one_time, devices, user, rest.to_set());
        let after = served_devices(one_time, devices, user, order.to_set());
        assert(one_time.contains_key((user, device)));
        let held = one_time[(user, device)];
        assert(before[(user, device)] == held);
        let ops = key_store::user_claim_ops(one_time, devices, user, rest);
        match key_store::given(one_time, devices, user, device) {
            Some((id, key)) => {
                let algorithm = crate::json::text_field(devices, device)->0;
                let op = OpView::RemoveOneTimeKey { user, device, key_id: id };
                lemma_removal_is_claim(held, algorithm);
                assert(ops.push(op).drop_last() =~= ops);
                assert(before.insert((user, device), key_store::after_claim(held, algorithm)) =~= after);
            },
            None => {
                assert(before =~= after);
            },
        }
    }
}

proof fn lemma_store_follows_users(d: Durable, requested: Map<Seq<char>, JsonView>, users: Seq<Seq<char>>)
    requires
        key_store::all_distinct(d.keys.one_time),
        users.no_duplicates(),
        forall|u: Seq<char>| #[trigger]
            strmap::ascending(
                strmap::sorted_keys(key_store::devices_asked(requested, u).dom()),
            ) && strmap::sorted_keys(key_store::devices_asked(requested, u).dom()).to_set()
                == key_store::devices_asked(requested, u).dom(),
    ensures
        followed_all(d, key_store::claim_ops(d.keys.one_time, requested, users)) == (Durable {
            keys: KeysView {
                one_time: served(d.keys.one_time, requested, users.to_set()),
                ..d.keys
            },
            ..d
        }),
    decreases users.len(),
{
    let one_time = d.keys.one_time;
    if users.len() == 0 {
        assert(served(one_time, requested, users.to_set()) =~= one_time);
    } else {
        let rest = users.drop_last();
        let user = users.last();
        let devices = key_store::devices_asked(requested, user);
        let order = strmap::sorted_keys(devices.dom());
        lemma_last_is_new(users);
        lemma_store_follows_users(d, requested, rest);
        let before = served(one_time, requested, rest.to_set());
        let after = served(one_time, requested, users.to_set());
        let middle = Durable { keys: KeysView { one_time: before, ..d.keys }, ..d };
        assert forall|p: (Seq<char>, Seq<char>)| #[trigger]
            before.contains_key(p) && key_store::distinct(before[p]) by {
            assert(one_time.contains_key(p));
            if rest.to_set().contains(p.0) {
                let asked = key_store::devices_asked(requested, p.0);
                if let Some(algorithm) = crate::json::text_field(asked, p.1) {
                    if key_store::claimed(one_time[p], algorithm) is Some {
                        law_claimed_keys_are_gone(one_time[p], algorithm, algorithm);
                    }
                }
            }
        }
        assert(strmap::ascending(order));
        strmap::lemma_ascending_distinct(order);
        lemma_store_follows_devices(middle, devices, user, order);
        assert forall|x: Seq<char>| #[trigger] before[(user, x)] == one_time[(user, x)] by {
            assert(one_time.contains_key((user, x)));
        }
        key_store::lemma_user_claim_frame(before, one_time, devices, user, order);
        let a = key_store::claim_ops(one_time, requested, rest);
        let b = key_store::user_claim_ops(one_time, devices, user, order);
        lemma_followed_concat(d, a, b);
        let reached = served_devices(before, devices, user, order.to_set());
        assert forall|p: (Seq<char>, Seq<char>)| one_time.contains_key(p) implies reached[p] == after[p] by {
            if p.0 == user {
                assert(before[(user, p.1)] == one_time[(user, p.1)]);
                if !devices.contains_key(p.1) {
                    assert(key_store::left(one_time, devices, user, p.1) == one_time[(user, p.1)]);
                }
            }
        }
        assert(reached =~= after);
    }
}

/// Whether every message has an identifier of its own, below the next one.
pub open spec fn unique_ids(state: E2eeView) -> bool {
    &&& forall|u: Seq<char>, i: int|
        #![trigger state.inbox[u][i]]
        state.inbox.contains_key(u) && 0 <= i < state.inbox[u].len() ==> state.inbox[u][i].0 < state.next_id
    &&& forall|u: Seq<char>, i: int, v: Seq<char>, j: int|
        #![trigger state.inbox[u][i], state.inbox[v][j]]
        state.inbox.contains_key(u) && 0 <= i < state.inbox[u].len() && state.inbox.contains_key(v) && 0
            <= j < state.inbox[v].len() && state.inbox[u][i].0 == state.inbox[v][j].0 ==> u == v && i == j
}

/// A message is queued behind the others of its user and under an identifier that no other
/// message has; the messages of other users stay as they are.
pub proof fn law_messages_are_queued_once(
    state: E2eeView,
    user: Seq<char>,
    event: JsonView,
    other: Seq<char>,
)
    requires
        unique_ids(state),
        state.inbox.contains_key(user),
    ensures
        unique_ids(e2ee::pushed(state, user, event)),
        e2ee::events_of(e2ee::pushed(state, user, event).inbox[user]) == e2ee::events_of(
            state.inbox[user],
        ).push(event),
        other != user ==> e2ee::pushed(state, user, event).inbox[other] == state.inbox[other],
        followed(
            durable(state),
            (OpView::PushToDevice { id: state.next_id, user, event }),
        ) == durable(e2ee::pushed(state, user, event)),
{
    let after = e2ee::pushed(state, user, event);
    assert(e2ee::events_of(after.inbox[user]) =~= e2ee::events_of(state.inbox[user]).push(event));
    assert forall|u: Seq<char>, i: int|
        #![trigger after.inbox[u][i]]
        after.inbox.contains_key(u) && 0 <= i < after.inbox[u].len() implies after.inbox[u][i].0
        < after.next_id by {
        if u == user && i == state.inbox[user].len() {
        } else {
            assert(after.inbox[u][i] == state.inbox[u][i]);
        }
    }
    assert forall|u: Seq<char>, i: int, v: Seq<char>, j: int|
        #![trigger after.inbox[u][i], after.inbox[v][j]]
        after.inbox.contains_key(u) && 0 <= i < after.inbox[u].len() && after.inbox.contains_key(v) && 0
            <= j < after.inbox[v].len() && after.inbox[u][i].0 == after.inbox[v][j].0 implies u == v && i
        == j by {
        let n = state.inbox[user].len();
        if !(u == user && i == n) {
            assert(after.inbox[u][i] == state.inbox[u][i]);
        }
        if !(v == user && j == n) {
            assert(after.inbox[v][j] == state.inbox[v][j]);
        }
    }
}

/// The messages of a user are delivered once: after they are taken none waits, those of other
/// users stay, and a store that follows holds the same.
pub proof fn law_messages_are_delivered_once(state: E2eeView, user: Seq<char>, other: Seq<char>)
    requires
        unique_ids(state),
        state.inbox.contains_key(user),
    ensures
        unique_ids(e2ee::drained(state, user)),
        e2ee::drained(state, user).inbox[user].len() == 0,
        other != user ==> e2ee::drained(state, user).inbox[other] == state.inbox[other],
        e2ee::drained(e2ee::drained(state, user), user) == e2ee::drained(state, user),
        followed(
            durable(state),
            (OpView::RemoveToDevice { ids: e2ee::ids_of(state.inbox[user]) }),
        ) == durable(e2ee::drained(state, user)),
{
    let after = e2ee::drained(state, user);
    let ids = e2ee::ids_of(state.inbox[user]);
    let p = not_among(ids);
    let reached = followed(durable(state), (OpView::RemoveToDevice { ids })).inbox;
    assert(e2ee::drained(after, user).inbox =~= after.inbox);
    assert forall|u: Seq<char>| state.inbox.contains_key(u) implies reached[u] == after.inbox[u] by {
        let queue = state.inbox[u];
        if u == user {
            assert forall|i: int| 0 <= i < queue.len() implies !p(#[trigger] queue[i]) by {
                assert(ids[i] == queue[i].0);
            }
            lists::lemma_kept_none(queue, p);
        } else {
            assert forall|i: int| 0 <= i < queue.len() implies p(#[trigger] queue[i]) by {
                if ids.contains(queue[i].0) {
                    let j = ids.index_of(queue[i].0);
                    assert(state.inbox[user][j].0 == state.inbox[u][i].0);
                }
            }
            lists::lemma_kept_all(queue, p);
        }
    }
    assert(reached =~= after.inbox);
    assert forall|u: Seq<char>, i: int|
        #![trigger after.inbox[u][i]]
        after.inbox.contains_key(u) && 0 <= i < after.inbox[u].len() implies after.inbox[u][i].0
        < after.next_id by {
        assert(after.inbox[u][i] == state.inbox[u][i]);
    }
    assert forall|u: Seq<char>, i: int, v: Seq<char>, j: int|
        #![trigger after.inbox[u][i], after.inbox[v][j]]
        after.inbox.contains_key(u) && 0 <= i < after.inbox[u].len() && after.inbox.contains_key(v) && 0
            <= j < after.inbox[v].len() && after.inbox[u][i].0 == after.inbox[v][j].0 implies u == v && i
        == j by {
        assert(after.inbox[u][i] == state.inbox[u][i]);
        assert(after.inbox[v][j] == state.inbox[v][j]);
    }
}

/// The one-time keys that the rows of a store list for a device, in order.
pub open spec fn keys_in(
    rows: Seq<(Seq<char>, Seq<char>, Seq<char>, Option<JsonView>)>,
    user: Seq<char>,
    device: Seq<char>,
) -> Seq<(Seq<char>, JsonView)>
    decreases rows.len(),
{
    if rows.len() == 0 {
        seq![]
    } else {
        let front = keys_in(rows.drop_last(), user, device);
        let row = rows.last();
        if row.0 == user && row.1 == device && row.3 is Some {
            front.push((row.2, row.3->0))
        } else {
            front
        }
    }
}

/// The messages that the rows of a store list for a user, in order.
pub open spec fn messages_in(rows: Seq<(int, Seq<char>, Option<JsonView>)>, user: Seq<char>) -> Seq<
    (int, JsonView),
>
    decreases rows.len(),
{
    if rows.len() == 0 {
        seq![]
    } else {
        let front = messages_in(rows.drop_last(), user);
        let row = rows.last();
        if row.1 == user && row.2 is Some {
            front.push((row.0, row.2->0))
        } else {
            front
        }
    }
}

/// Whether the rows of a store list exactly what it holds: every device with its keys, the
/// one-time keys of each device and the messages of each user in their order, and every
/// cross-signing section.
pub open spec fn describes(rows: SnapshotView, d: Durable) -> bool {
    &&& forall|i: int|
        0 <= i < rows.devices.len() ==> {
            let (u, v, k) = #[trigger] rows.devices[i];
            k is Some && d.keys.devices.contains_key(u) && d.keys.devices[u].contains_key(v)
                && d.keys.devices[u][v] == k->0
        }
    &&& forall|u: Seq<char>|
        #![trigger d.keys.devices.contains_key(u)]
        d.keys.devices.contains_key(u) ==> exists|i: int|
            0 <= i < rows.devices.len() && (#[trigger] rows.devices[i]).0 == u
    &&& forall|u: Seq<char>, v: Seq<char>|
        #![trigger d.keys.devices[u].contains_key(v)]
        d.keys.devices.contains_key(u) && d.keys.devices[u].contains_key(v) ==> exists|i: int|
            0 <= i < rows.devices.len() && (#[trigger] rows.devices[i]).0 == u && rows.devices[i].1 == v
    &&& forall|p: (Seq<char>, Seq<char>)| #[trigger]
        d.keys.one_time.contains_key(p) && d.keys.one_time[p] == keys_in(rows.one_time_keys, p.0, p.1)
    &&& forall|i: int|
        0 <= i < rows.cross_signing.len() ==> {
            let (n, v) = #[trigger] rows.cross_signing[i];
            v is Some && d.keys.cross_signing.contains_key(n) && d.keys.cross_signing[n] == v->0
        }
    &&& forall|n: Seq<char>|
        #![trigger d.keys.cross_signing.contains_key(n)]
        d.keys.cross_signing.contains_key(n) ==> exists|i: int|
            0 <= i < rows.cross_signing.len() && (#[trigger] rows.cross_signing[i]).0 == n
    &&& forall|u: Seq<char>| #[trigger]
        d.inbox.contains_key(u) && d.inbox[u] == messages_in(rows.to_device, u)
}

/// Whether a state holds nothing.
pub open spec fn holds_nothing(state: E2eeView) -> bool {
    &&& state.keys.devices == Map::<Seq<char>, Map<Seq<char>, JsonView>>::empty()
    &&& forall|p: (Seq<char>, Seq<char>)| #[trigger]
        state.keys.one_time.contains_key(p) && state.keys.one_time[p].len() == 0
    &&& state.keys.cross_signing == Map::<Seq<char>, JsonView>::empty()
    &&& forall|u: Seq<char>| #[trigger] state.inbox.contains_key(u) && state.inbox[u].len() == 0
}

/// A restart forgets nothing: a fresh state that reads in the rows of a store holds what the
/// store holds, and gives the next message an identifier past all of theirs.
pub proof fn law_a_restart_restores_everything(fresh: E2eeView, rows: SnapshotView, d: Durable, i: int)
    requires
        holds_nothing(fresh),
        describes(rows, d),
        key_store::all_distinct(d.keys.one_time),
    ensures
        durable(e2ee::loaded(fresh, rows)) == d,
        0 <= i < rows.to_device.len() ==> rows.to_device[i].0 < e2ee::loaded(fresh, rows).next_id,
        fresh.next_id <= e2ee::loaded(fresh, rows).next_id,
{
    let state = e2ee::loaded(fresh, rows);
    lemma_loaded_devices(rows.devices, d.keys.devices);
    assert forall|u: Seq<char>| state.keys.devices.contains_key(u) implies state.keys.devices[u]
        == d.keys.devices[u] by {
        assert(state.keys.devices[u] =~= d.keys.devices[u]);
    }
    assert(state.keys.devices =~= d.keys.devices);
    assert forall|p: (Seq<char>, Seq<char>)| #[trigger] state.keys.one_time.contains_key(p)
        && state.keys.one_time[p] == d.keys.one_time[p] by {
        assert(d.keys.one_time.contains_key(p));
        lemma_loaded_keys(fresh.keys.one_time, rows.one_time_keys, p.0, p.1);
    }
    assert(state.keys.one_time =~= d.keys.one_time);
    lemma_loaded_sections(rows.cross_signing, d.keys.cross_signing);
    assert(state.keys.cross_signing =~= d.keys.cross_signing);
    assert forall|u: Seq<char>| #[trigger] state.inbox.contains_key(u) && state.inbox[u] == d.inbox[u] by {
        assert(d.inbox.contains_key(u));
        lemma_loaded_inbox(fresh.inbox, rows.to_device, u);
    }
    assert(state.inbox =~= d.inbox);
    lemma_next_after(fresh.next_id, rows.to_device, i);
}

proof fn lemma_next_after(next: int, rows: Seq<(int, Seq<char>, Option<JsonView>)>, i: int)
    ensures
        next <= e2ee::next_after(next, rows),
        0 <= i < rows.len() ==> rows[i].0 < e2ee::next_after(next, rows),
    decreases rows.len(),
{
    if rows.len() > 0 {
        lemma_next_after(next, rows.drop_last(), i);
        if 0 <= i < rows.len() - 1 {
            assert(rows.drop_last()[i] == rows[i]);
        }
    }
}

proof fn lemma_loaded_inbox(
    inbox: Map<Seq<char>, Seq<(int, JsonView)>>,
    rows: Seq<(int, Seq<char>, Option<JsonView>)>,
    user: Seq<char>,
)
    requires
        forall|u: Seq<char>| #[trigger] inbox.contains_key(u) && inbox[u].len() == 0,
    ensures
        e2ee::loaded_inbox(inbox, rows).contains_key(user),
        e2ee::loaded_inbox(inbox, rows)[user] == messages_in(rows, user),
    decreases rows.len(),
{
    if rows.len() == 0 {
        assert(inbox.contains_key(user));
        assert(inbox[user] =~= messages_in(rows, user));
    } else {
        lemma_loaded_inbox(inbox, rows.drop_last(), user);
    }
}

proof fn lemma_loaded_keys(
    one_time: Map<(Seq<char>, Seq<char>), Seq<(Seq<char>, JsonView)>>,
    rows: Seq<(Seq<char>, Seq<char>, Seq<char>, Option<JsonView>)>,
    user: Seq<char>,
    device: Seq<char>,
)
    requires
        forall|p: (Seq<char>, Seq<char>)| #[trigger] one_time.contains_key(p) && one_time[p].len() == 0,
        key_store::distinct(keys_in(rows, user, device)),
    ensures
        e2ee::loaded_keys(one_time, rows).contains_key((user, device)),
        e2ee::loaded_keys(one_time, rows)[(user, device)] == keys_in(rows, user, device),
    decreases rows.len(),
{
    if rows.len() == 0 {
        assert(one_time.contains_key((user, device)));
        assert(one_time[(user, device)] =~= keys_in(rows, user, device));
    } else {
        let front = keys_in(rows.drop_last(), user, device);
        let all = keys_in(rows, user, device);
        let row = rows.last();
        assert forall|i: int, j: int| 0 <= i < j < front.len() implies (#[trigger] front[i]).0 != (
        #[trigger] front[j]).0 by {
            assert(all[i] == front[i] && all[j] == front[j]);
        }
        lemma_loaded_keys(one_time, rows.drop_last(), user, device);
        if row.0 == user && row.1 == device && row.3 is Some {
            if key_store::holds(front, row.2) {
                let i = choose|i: int| 0 <= i < front.len() && (#[trigger] front[i]).0 == row.2;
                assert(all[i].0 == all[front.len() as int].0);
            }
        }
    }
}

proof fn lemma_loaded_devices(
    rows: Seq<(Seq<char>, Seq<char>, Option<JsonView>)>,
    held: Map<Seq<char>, Map<Seq<char>, JsonView>>,
)
    requires
        forall|i: int|
            0 <= i < rows.len() ==> {
                let (u, v, k) = #[trigger] rows[i];
                k is Some && held.contains_key(u) && held[u].contains_key(v) && held[u][v] == k->0
            },
    ensures
        ({
            let l = e2ee::loaded_devices(Map::empty(), rows);
            &&& forall|u: Seq<char>| #[trigger]
                l.contains_key(u) <==> exists|i: int| 0 <= i < rows.len() && (#[trigger] rows[i]).0 == u
            &&& forall|u: Seq<char>, v: Seq<char>|
                #![trigger l[u].contains_key(v)]
                l.contains_key(u) ==> (l[u].contains_key(v) <==> exists|i: int|
                    0 <= i < rows.len() && (#[trigger] rows[i]).0 == u && rows[i].1 == v)
            &&& forall|u: Seq<char>, v: Seq<char>|
                #![trigger l[u][v]]
                l.contains_key(u) && l[u].contains_key(v) ==> l[u][v] == held[u][v]
        }),
    decreases rows.len(),
{
    let l = e2ee::loaded_devices(Map::empty(), rows);
    if rows.len() > 0 {
        let front = rows.drop_last();
        let f = e2ee::loaded_devices(Map::empty(), front);
        let (user, device, keys) = rows.last();
        assert(rows[rows.len() - 1] == rows.last());
        assert forall|i: int| 0 <= i < front.len() implies {
            let (u, v, k) = #[trigger] front[i];
            k is Some && held.contains_key(u) && held[u].contains_key(v) && held[u][v] == k->0
        } by {
            assert(front[i] == rows[i]);
        }
        lemma_loaded_devices(front, held);
        assert(l == key_store::with_device(f, user, device, keys->0));
        assert forall|u: Seq<char>| #[trigger] l.contains_key(u) <==> exists|i: int|
            0 <= i < rows.len() && (#[trigger] rows[i]).0 == u by {
            if f.contains_key(u) {
                let i = choose|i: int| 0 <= i < front.len() && (#[trigger] front[i]).0 == u;
                assert(rows[i].0 == u);
            }
            if exists|i: int| 0 <= i < rows.len() && (#[trigger] rows[i]).0 == u {
                let i = choose|i: int| 0 <= i < rows.len() && (#[trigger] rows[i]).0 == u;
                if i < front.len() {
                    assert(front[i].0 == u);
                }
            }
        }
        assert forall|u: Seq<char>, v: Seq<char>|
            #![trigger l[u].contains_key(v)]
            l.contains_key(u) implies (l[u].contains_key(v) <==> exists|i: int|
            0 <= i < rows.len() && (#[trigger] rows[i]).0 == u && rows[i].1 == v) by {
            if f.contains_key(u) && f[u].contains_key(v) {
                let i = choose|i: int|
                    0 <= i < front.len() && (#[trigger] front[i]).0 == u && front[i].1 == v;
                assert(rows[i].0 == u && rows[i].1 == v);
            }
            if exists|i: int| 0 <= i < rows.len() && (#[trigger] rows[i]).0 == u && rows[i].1 == v {
                let i = choose|i: int|
                    0 <= i < rows.len() && (#[trigger] rows[i]).0 == u && rows[i].1 == v;
                if i < front.len() {
                    assert(front[i].0 == u && front[i].1 == v);
                    assert(f.contains_key(u));
                    assert(f[u].contains_key(v));
                }
            }
        }
        assert forall|u: Seq<char>, v: Seq<char>|
            #![trigger l[u][v]]
            l.contains_key(u) && l[u].contains_key(v) implies l[u][v] == held[u][v] by {
            if !(u == user && v == device) {
                assert(f.contains_key(u) && f[u].contains_key(v));
                assert(f[u][v] == held[u][v]);
            }
        }
    }
}

proof fn lemma_loaded_sections(
    rows: Seq<(Seq<char>, Option<JsonView>)>,
    held: Map<Seq<char>, JsonView>,
)
    requires
        forall|i: int|
            0 <= i < rows.len() ==> {
                let (n, v) = #[trigger] rows[i];
                v is Some && held.contains_key(n) && held[n] == v->0
            },
    ensures
        ({
            let l = e2ee::loaded_sections(Map::empty(), rows);
            &&& forall|n: Seq<char>| #[trigger]
                l.contains_key(n) <==> exists|i: int| 0 <= i < rows.len() && (#[trigger] rows[i]).0 == n
            &&& forall|n: Seq<char>| l.contains_key(n) ==> #[trigger] l[n] == held[n]
        }),
    decreases rows.len(),
{
    if rows.len() > 0 {
        let front = rows.drop_last();
        let f = e2ee::loaded_sections(Map::empty(), front);
        let l = e2ee::loaded_sections(Map::empty(), rows);
        assert(rows[rows.len() - 1] == rows.last());
        assert forall|i: int| 0 <= i < front.len() implies {
            let (n, v) = #[trigger] front[i];
            v is Some && held.contains_key(n) && held[n] == v->0
        } by {
            assert(front[i] == rows[i]);
        }
        lemma_loaded_sections(front, held);
        assert forall|n: Seq<char>| #[trigger] l.contains_key(n) <==> exists|i: int|
            0 <= i < rows.len() && (#[trigger] rows[i]).0 == n by {
            if f.contains_key(n) {
                let i = choose|i: int| 0 <= i < front.len() && (#[trigger] front[i]).0 == n;
                assert(rows[i].0 == n);
            }
            if exists|i: int| 0 <= i < rows.len() && (#[trigger] rows[i]).0 == n {
                let i = choose|i: int| 0 <= i < rows.len() && (#[trigger] rows[i]).0 == n;
                if i < front.len() {
                    assert(front[i].0 == n);
                }
            }
        }
    }
}

/// A sync reports every algorithm of which some device has a key, and of each the number of keys of
/// a device that has fewest; a device without any counts as none.
pub proof fn law_reports_tell_the_fewest(
    one_time: Map<(Seq<char>, Seq<char>), Seq<(Seq<char>, JsonView)>>,
    user: Seq<char>,
    devices: Seq<Seq<char>>,
    algorithm: Seq<char>,
    i: int,
)
    requires
        0 <= i < devices.len(),
    ensures
        ({
            let report = key_store::least_of(one_time, user, devices);
            let mine = key_store::count_of(one_time[(user, devices[i])], algorithm);
            &&& report.contains_key(algorithm) <==> exists|j: int|
                0 <= j < devices.len() && #[trigger] key_store::count_of(
                    one_time[(user, devices[j])],
                    algorithm,
                ) > 0
            &&& report.contains_key(algorithm) ==> (report[algorithm] matches JsonView::Int(n) && n
                <= mine && exists|j: int|
                0 <= j < devices.len() && n == #[trigger] key_store::count_of(
                    one_time[(user, devices[j])],
                    algorithm,
                ))
        }),
    decreases devices.len(),
{
    let report = key_store::least_of(one_time, user, devices);
    let last = devices.len() - 1;
    let own = key_store::counts_of(one_time[(user, devices[last])]);
    assert(key_store::count_of(one_time[(user, devices[last])], algorithm) >= 0);
    if devices.len() > 1 {
        let front = devices.drop_last();
        let before = key_store::least_of(one_time, user, front);
        let k: int = if i < last {
            i
        } else {
            0
        };
        law_reports_tell_the_fewest(one_time, user, front, algorithm, k);
        assert(report == key_store::lesser(before, own));
        assert(report.contains_key(algorithm) == (before.contains_key(algorithm) || own.contains_key(
            algorithm,
        )));
        if before.contains_key(algorithm) {
            let n = before[algorithm]->Int_0;
            let j = choose|j: int|
                0 <= j < front.len() && n == #[trigger] key_store::count_of(
                    one_time[(user, front[j])],
                    algorithm,
                );
            assert(front[j] == devices[j]);
            let p = choose|p: int|
                0 <= p < front.len() && #[trigger] key_store::count_of(
                    one_time[(user, front[p])],
                    algorithm,
                ) > 0;
            assert(front[p] == devices[p]);
            assert(key_store::count_of(one_time[(user, devices[p])], algorithm) > 0);
            assert(key_store::count_in(before, algorithm) == n);
            assert(n == key_store::count_of(one_time[(user, devices[j])], algorithm));
        } else {
            assert(front[0] == devices[0]);
            assert(key_store::count_of(one_time[(user, front[0])], algorithm) == 0);
            assert(key_store::count_of(one_time[(user, devices[0])], algorithm) == 0);
            assert(key_store::count_in(before, algorithm) == 0);
        }
        if exists|j: int|
            0 <= j < devices.len() && #[trigger] key_store::count_of(
                one_time[(user, devices[j])],
                algorithm,
            ) > 0 {
            let j = choose|j: int|
                0 <= j < devices.len() && #[trigger] key_store::count_of(
                    one_time[(user, devices[j])],
                    algorithm,
                ) > 0;
            if j < last {
                assert(front[j] == devices[j]);
                assert(key_store::count_of(one_time[(user, front[j])], algorithm) > 0);
            }
        }
        if i < last {
            assert(front[i] == devices[i]);
        }
    }
}

/// Identifiers of messages follow on: each message is given the next one, and once the rows of the
/// store are read in, the next one is that behind the greatest of theirs, or the one that it was
/// where that is past them all.
pub proof fn law_identifiers_follow_on(
    state: E2eeView,
    user: Seq<char>,
    event: JsonView,
    rows: Seq<(int, Seq<char>, Option<JsonView>)>,
    i: int,
)
    ensures
        e2ee::pushed(state, user, event).next_id == state.next_id + 1,
        e2ee::pushed(state, user, event).inbox[user].last() == (state.next_id, event),
        state.next_id <= e2ee::next_after(state.next_id, rows),
        0 <= i < rows.len() ==> rows[i].0 < e2ee::next_after(state.next_id, rows),
        e2ee::next_after(state.next_id, rows) == state.next_id || exists|j: int|
            0 <= j < rows.len() && (#[trigger] rows[j]).0 + 1 == e2ee::next_after(state.next_id, rows),
{
    lemma_next_after(state.next_id, rows, i);
    lemma_next_is_behind_one(state.next_id, rows);
}

proof fn lemma_next_is_behind_one(next: int, rows: Seq<(int, Seq<char>, Option<JsonView>)>)
    ensures
        e2ee::next_after(next, rows) == next || exists|j: int|
            0 <= j < rows.len() && (#[trigger] rows[j]).0 + 1 == e2ee::next_after(next, rows),
    decreases rows.len(),
{
    if rows.len() > 0 {
        let front = rows.drop_last();
        lemma_next_is_behind_one(next, front);
        if rows.last().0 < e2ee::next_after(next, front) && e2ee::next_after(next, front) != next {
            let j = choose|j: int|
                0 <= j < front.len() && (#[trigger] front[j]).0 + 1 == e2ee::next_after(next, front);
            assert(rows[j] == front[j]);
        } else if rows.last().0 >= e2ee::next_after(next, front) {
            assert(rows[rows.len() - 1].0 + 1 == e2ee::next_after(next, rows));
        }
    }
}

/// Rows that hold messages count as one change, and those that hold none as no change.
pub proof fn law_messages_read_in_are_a_change(state: E2eeView, rows: SnapshotView)
    ensures
        rows.to_device.len() == 0 ==> e2ee::loaded(state, rows).changed == state.changed,
        rows.to_device.len() > 0 ==> e2ee::loaded(state, rows).changed == (state.changed + 1)
            % 0x1_0000_0000_0000_0000,
{
}

} // verus!
