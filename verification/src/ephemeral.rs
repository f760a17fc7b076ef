//! What passes by in a room: who is typing, and who has read up to where. A typing notice ends
//! by itself; a read receipt is the newest position that a user has acknowledged.
use crate::engine;
use crate::event;
use crate::strmap;
use crate::strmap::StrMap;
use crate::text;
use std::time::Duration;
use vstd::prelude::*;

verus! {

/// How long a typing notice lasts that does not say so, in seconds.
pub const DEFAULT_TYPING_SECS: u64 = 30;

/// The longest that a typing notice lasts, in seconds.
pub const MAX_TYPING_SECS: u64 = 120;

/// The position up to which a user has read.
pub struct ReadReceipt {
    pub event_id: String,
    /// Milliseconds since the epoch, as reported.
    pub ts: u64,
}

/// A read position as mathematics.
#[verifier::ext_equal]
pub struct ReceiptView {
    pub event_id: Seq<char>,
    pub ts: int,
}

impl View for ReadReceipt {
    type V = ReceiptView;

    open spec fn view(&self) -> ReceiptView {
        ReceiptView { event_id: self.event_id@, ts: self.ts as int }
    }
}

impl ReadReceipt {
    /// An equal receipt.
    pub fn duplicate(&self) -> (r: ReadReceipt)
        ensures
            r@ == self@,
    {
        ReadReceipt { event_id: self.event_id.clone(), ts: self.ts }
    }
}

/// What passes by, as mathematics: when each typing notice ends, by room and user, the read
/// positions by room and user, and a counter of what is worth waking for.
#[verifier::ext_equal]
pub struct EphemeralView {
    pub typing: Map<(Seq<char>, Seq<char>), int>,
    pub receipts: Map<(Seq<char>, Seq<char>), ReceiptView>,
    pub version: int,
}

/// A counter of 64 bits, one step on.
pub open spec fn bumped(version: int) -> int {
    (version + 1) % 0x1_0000_0000_0000_0000
}

/// What passes by. Times are nanoseconds on a clock that never goes back.
pub struct EphemeralState {
    pub typing: StrMap<StrMap<u128>>,
    pub receipts: StrMap<StrMap<ReadReceipt>>,
    /// Changes with everything that is worth waking for.
    pub version: u64,
}

/// The ends of typing notices by room and user.
pub open spec fn typing_view(m: Map<Seq<char>, StrMap<u128>>) -> Map<(Seq<char>, Seq<char>), int> {
    Map::new(
        |p: (Seq<char>, Seq<char>)| m.contains_key(p.0) && m[p.0]@.contains_key(p.1),
        |p: (Seq<char>, Seq<char>)| m[p.0]@[p.1] as int,
    )
}

/// The read positions by room and user.
pub open spec fn receipts_view(m: Map<Seq<char>, StrMap<ReadReceipt>>) -> Map<
    (Seq<char>, Seq<char>),
    ReceiptView,
> {
    Map::new(
        |p: (Seq<char>, Seq<char>)| m.contains_key(p.0) && m[p.0]@.contains_key(p.1),
        |p: (Seq<char>, Seq<char>)| m[p.0]@[p.1]@,
    )
}

impl View for EphemeralState {
    type V = EphemeralView;

    open spec fn view(&self) -> EphemeralView {
        EphemeralView {
            typing: typing_view(self.typing@),
            receipts: receipts_view(self.receipts@),
            version: self.version as int,
        }
    }
}

/// How long a typing notice lasts, in nanoseconds: what was asked for or the default, and never
/// more than the longest.
pub open spec fn typing_nanos(timeout: Option<Duration>) -> nat {
    let asked = match timeout {
        Some(d) => engine::duration_nanos(d),
        None => (DEFAULT_TYPING_SECS * engine::NANOS_PER_SEC) as nat,
    };
    let most = (MAX_TYPING_SECS * engine::NANOS_PER_SEC) as nat;
    if asked <= most {
        asked
    } else {
        most
    }
}

/// The state once a user starts or stops typing at the time `now`: a start and a stop are
/// counted, a notice that is renewed before it ends is not.
pub open spec fn with_typing(
    state: EphemeralView,
    room: Seq<char>,
    user: Seq<char>,
    typing: bool,
    end: int,
    now: int,
) -> EphemeralView {
    EphemeralView {
        typing: if typing {
            state.typing.insert((room, user), end)
        } else {
            state.typing.remove((room, user))
        },
        version: if typing_now(state, room, now).contains(user) == typing {
            state.version
        } else {
            bumped(state.version)
        },
        ..state
    }
}

/// The users whose notice in a room has not ended.
pub open spec fn typing_now(state: EphemeralView, room: Seq<char>, now: int) -> Set<Seq<char>> {
    Set::new(
        |u: Seq<char>| state.typing.contains_key((room, u)) && state.typing[(room, u)] > now,
    )
}

/// The rooms in which somebody's notice has not ended.
pub open spec fn rooms_typing(state: EphemeralView, now: int) -> Set<Seq<char>> {
    Set::new(
        |r: Seq<char>|
            exists|u: Seq<char>| #[trigger]
                state.typing.contains_key((r, u)) && state.typing[(r, u)] > now,
    )
}

/// The state without the notices of a room that have ended.
pub open spec fn without_ended_in(state: EphemeralView, room: Seq<char>, now: int) -> EphemeralView {
    EphemeralView {
        typing: Map::new(
            |p: (Seq<char>, Seq<char>)|
                state.typing.contains_key(p) && (p.0 != room || state.typing[p] > now),
            |p: (Seq<char>, Seq<char>)| state.typing[p],
        ),
        ..state
    }
}

/// The state without the notices that have ended.
pub open spec fn without_ended(state: EphemeralView, now: int) -> EphemeralView {
    EphemeralView {
        typing: Map::new(
            |p: (Seq<char>, Seq<char>)| state.typing.contains_key(p) && state.typing[p] > now,
            |p: (Seq<char>, Seq<char>)| state.typing[p],
        ),
        ..state
    }
}

/// Whether a receipt says nothing new: the user has one that is later, or the same.
pub open spec fn is_stale(
    state: EphemeralView,
    room: Seq<char>,
    user: Seq<char>,
    receipt: ReceiptView,
) -> bool {
    state.receipts.contains_key((room, user)) && (state.receipts[(room, user)].ts > receipt.ts
        || state.receipts[(room, user)] == receipt)
}

/// The state with a receipt, unless it says nothing new.
pub open spec fn with_receipt(
    state: EphemeralView,
    room: Seq<char>,
    user: Seq<char>,
    receipt: ReceiptView,
) -> EphemeralView {
    if is_stale(state, room, user, receipt) {
        state
    } else {
        EphemeralView {
            receipts: state.receipts.insert((room, user), receipt),
            version: bumped(state.version),
            ..state
        }
    }
}

/// The rooms in which somebody has a read position.
pub open spec fn rooms_read(state: EphemeralView) -> Set<Seq<char>> {
    Set::new(
        |r: Seq<char>| exists|u: Seq<char>| #[trigger] state.receipts.contains_key((r, u)),
    )
}

/// The keys of a map, in order.
fn keys_of<V>(m: &StrMap<V>) -> (keys: Vec<String>)
    ensures
        event::views(keys@) == strmap::sorted_keys(m@.dom()),
{
    let n: usize = m.len();
    let mut keys: Vec<String> = Vec::new();
    let mut i: usize = 0;
    while i < n
        invariant
            i <= n,
            n == m.keys().len(),
            keys@.len() == i,
            forall|j: int| 0 <= j < i ==> (#[trigger] keys@[j])@ == m.keys()[j],
        decreases n - i,
    {
        keys.push(m.key_at(i).clone());
        i = i + 1;
    }
    assert(event::views(keys@) =~= m.keys());
    keys
}

/// The notices of a room that have not ended.
pub open spec fn live_of(users: Map<Seq<char>, u128>, now: u128) -> Map<Seq<char>, u128> {
    Map::new(
        |u: Seq<char>| users.contains_key(u) && users[u] > now,
        |u: Seq<char>| users[u],
    )
}

/// The notices of a room that have not ended.
fn live(users: &StrMap<u128>, now: u128) -> (r: StrMap<u128>)
    ensures
        r@ == live_of(users@, now),
{
    let mut r: StrMap<u128> = StrMap::new();
    let ghost whole = live_of(users@, now);
    let n: usize = users.len();
    let ghost order = users.keys();
    let mut i: usize = 0;
    assert(r@ =~= whole.restrict(order.take(0).to_set()));
    while i < n
        invariant
            i <= n,
            n == users.keys().len(),
            order == users.keys(),
            whole == live_of(users@, now),
            r@ == whole.restrict(order.take(i as int).to_set()),
        decreases n - i,
    {
        proof {
            crate::json::lemma_take_push(order, i as int);
        }
        let end: u128 = *users.value_at(i);
        if end > now {
            r.insert(users.key_at(i).clone(), end);
        }
        assert(r@ =~= whole.restrict(order.take(i + 1).to_set()));
        i = i + 1;
    }
    assert(order.take(n as int) =~= order);
    assert(order.to_set() == users@.dom());
    assert(r@ =~= whole);
    r
}

impl EphemeralState {
    /// Nobody is typing, and nobody has read anything.
    pub fn new() -> (s: Self)
        ensures
            s@.typing == Map::<(Seq<char>, Seq<char>), int>::empty(),
            s@.receipts == Map::<(Seq<char>, Seq<char>), ReceiptView>::empty(),
            s@.version == 0,
    {
        let s = EphemeralState { typing: StrMap::new(), receipts: StrMap::new(), version: 0 };
        assert(s@.typing =~= Map::<(Seq<char>, Seq<char>), int>::empty());
        assert(s@.receipts =~= Map::<(Seq<char>, Seq<char>), ReceiptView>::empty());
        s
    }

    /// Starts or stops the typing notice of a user. A start and a stop change the version; a
    /// notice that is renewed before it ends does not, nor does a stop once it has ended.
    pub fn set_typing(
        &mut self,
        room: &str,
        user: &str,
        typing: bool,
        timeout: Option<Duration>,
        now: u128,
    )
        requires
            now + MAX_TYPING_SECS * engine::NANOS_PER_SEC <= u128::MAX,
        ensures
            final(self)@ == with_typing(
                old(self)@,
                room@,
                user@,
                typing,
                now + typing_nanos(timeout),
                now as int,
            ),
    {
        let mut users: StrMap<u128> = match self.typing.remove(room) {
            Some(m) => m,
            None => StrMap::new(),
        };
        let before: bool = match users.get(user) {
            Some(end) => *end > now,
            None => false,
        };
        assert(before == typing_now(old(self)@, room@, now as int).contains(user@));
        if typing {
            let asked: u128 = match timeout {
                Some(d) => d.as_nanos(),
                None => Duration::from_secs(DEFAULT_TYPING_SECS).as_nanos(),
            };
            let most: u128 = Duration::from_secs(MAX_TYPING_SECS).as_nanos();
            let ttl: u128 = if asked <= most {
                asked
            } else {
                most
            };
            users.insert(user.to_owned(), now + ttl);
        } else {
            users.remove(user);
        }
        self.typing.insert(room.to_owned(), users);
        assert(self@.typing =~= with_typing(
            old(self)@,
            room@,
            user@,
            typing,
            now + typing_nanos(timeout),
            now as int,
        ).typing);
        if before != typing {
            self.version = self.version.wrapping_add(1);
        }
    }

    /// The users who are typing in a room, in order. Notices that have ended are dropped.
    pub fn typing_in(&mut self, room: &str, now: u128) -> (users: Vec<String>)
        ensures
            event::views(users@) == strmap::sorted_keys(typing_now(old(self)@, room@, now as int)),
            final(self)@ == without_ended_in(old(self)@, room@, now as int),
    {
        let live_users: StrMap<u128> = match self.typing.get(room) {
            Some(users) => live(users, now),
            None => StrMap::new(),
        };
        let names: Vec<String> = keys_of(&live_users);
        assert(live_users@.dom() =~= typing_now(old(self)@, room@, now as int));
        if self.typing.contains_key(room) {
            self.typing.insert(room.to_owned(), live_users);
        }
        assert(self@.typing =~= without_ended_in(old(self)@, room@, now as int).typing);
        names
    }

    /// Moves the read position of a user forward. A receipt that is older than the one that is
    /// held, or the same, is passed over.
    pub fn set_receipt(&mut self, room: &str, user: &str, receipt: ReadReceipt)
        ensures
            final(self)@ == with_receipt(old(self)@, room@, user@, receipt@),
    {
        let stale: bool = match self.receipts.get(room) {
            Some(users) => match users.get(user) {
                Some(held) => held.ts > receipt.ts || (held.ts == receipt.ts && text::str_eq(
                    held.event_id.as_str(),
                    receipt.event_id.as_str(),
                )),
                None => false,
            },
            None => false,
        };
        if stale {
            return;
        }
        let mut users: StrMap<ReadReceipt> = match self.receipts.remove(room) {
            Some(m) => m,
            None => StrMap::new(),
        };
        users.insert(user.to_owned(), receipt);
        self.receipts.insert(room.to_owned(), users);
        assert(self@.receipts =~= old(self)@.receipts.insert((room@, user@), receipt@));
        self.version = self.version.wrapping_add(1);
    }

    /// The rooms in which somebody is typing, in order. Notices that have ended are dropped.
    pub fn rooms_with_typing(&mut self, now: u128) -> (rooms: Vec<String>)
        ensures
            event::views(rooms@) == strmap::sorted_keys(rooms_typing(old(self)@, now as int)),
            final(self)@ == without_ended(old(self)@, now as int),
    {
        let n: usize = self.typing.len();
        let ghost order = self.typing.keys();
        let ghost start = self.typing@;
        let ghost state = old(self)@;
        let mut kept: StrMap<StrMap<u128>> = StrMap::new();
        let mut i: usize = 0;
        while i < n
            invariant
                i <= n,
                n == self.typing.keys().len(),
                order == self.typing.keys(),
                order.to_set() == start.dom(),
                order.no_duplicates(),
                start == self.typing@,
                *self == *old(self),
                state == old(self)@,
                forall|r: Seq<char>| #[trigger]
                    kept@.contains_key(r) ==> start.contains_key(r) && order.take(i as int).to_set().contains(r)
                        && kept@[r]@.len() > 0 && kept@[r]@ == live_of(start[r]@, now),
                forall|r: Seq<char>, u: Seq<char>|
                    #![trigger start[r]@.contains_key(u)]
                    order.take(i as int).to_set().contains(r) && start[r]@.contains_key(u) && start[r]@[u] > now
                        ==> kept@.contains_key(r),
            decreases n - i,
        {
            let ghost room = order[i as int];
            proof {
                crate::json::lemma_take_push(order, i as int);
            }
            let users: StrMap<u128> = live(self.typing.value_at(i), now);
            let count: usize = users.len();
            let ghost before = kept@;
            if count > 0 {
                kept.insert(self.typing.key_at(i).clone(), users);
                assert(kept@ == before.insert(room, users));
            } else {
                assert forall|u: Seq<char>| !(#[trigger] start[room]@.contains_key(u) && start[room]@[u]
                    > now) by {
                    if start[room]@.contains_key(u) && start[room]@[u] > now {
                        assert(users@.contains_key(u));
                        assert(users.keys().to_set().contains(u));
                    }
                }
            }
            i = i + 1;
        }
        assert(order.take(n as int) =~= order);
        let names: Vec<String> = keys_of(&kept);
        proof {
            assert forall|r: Seq<char>| kept@.dom().contains(r) <==> rooms_typing(
                state,
                now as int,
            ).contains(r) by {
                if kept@.contains_key(r) {
                    lemma_some_key(kept@[r]@);
                    let u = choose|u: Seq<char>| kept@[r]@.contains_key(u);
                    assert(state.typing.contains_key((r, u)) && state.typing[(r, u)] > now);
                }
                if rooms_typing(state, now as int).contains(r) {
                    let u = choose|u: Seq<char>| #[trigger]
                        state.typing.contains_key((r, u)) && state.typing[(r, u)] > now;
                    assert(order.to_set().contains(r));
                    assert(start[r]@.contains_key(u));
                }
            }
            assert(kept@.dom() =~= rooms_typing(state, now as int));
            let a = typing_view(kept@);
            let b = without_ended(state, now as int).typing;
            assert forall|p: (Seq<char>, Seq<char>)| a.contains_key(p) == b.contains_key(p) by {
                if b.contains_key(p) {
                    assert(order.to_set().contains(p.0));
                    assert(start[p.0]@.contains_key(p.1));
                }
            }
            assert(a =~= b);
        }
        self.typing = kept;
        names
    }

    /// The rooms in which somebody has a read position, in order.
    pub fn rooms_with_receipts(&self) -> (rooms: Vec<String>)
        ensures
            event::views(rooms@) == strmap::sorted_keys(rooms_read(self@)),
    {
        let n: usize = self.receipts.len();
        let ghost order = self.receipts.keys();
        let ghost start = self.receipts@;
        let mut read: StrMap<bool> = StrMap::new();
        let mut i: usize = 0;
        while i < n
            invariant
                i <= n,
                n == self.receipts.keys().len(),
                order == self.receipts.keys(),
                order.to_set() == start.dom(),
                start == self.receipts@,
                forall|r: Seq<char>| #[trigger]
                    read@.contains_key(r) <==> order.take(i as int).to_set().contains(r) && rooms_read(
                        self@,
                    ).contains(r),
            decreases n - i,
        {
            let ghost room = order[i as int];
            proof {
                crate::json::lemma_take_push(order, i as int);
            }
            let users: &StrMap<ReadReceipt> = self.receipts.value_at(i);
            let count: usize = users.len();
            if count > 0 {
                proof {
                    let u = users.keys()[0];
                    assert(users.keys().to_set().contains(u));
                    assert(self@.receipts.contains_key((room, u)));
                    assert(rooms_read(self@).contains(room));
                }
                read.insert(self.receipts.key_at(i).clone(), true);
            } else {
                proof {
                    assert forall|u: Seq<char>| !#[trigger] self@.receipts.contains_key((room, u)) by {
                        if self@.receipts.contains_key((room, u)) {
                            assert(users.keys().to_set().contains(u));
                        }
                    }
                    assert(!rooms_read(self@).contains(room));
                }
            }
            i = i + 1;
        }
        proof {
            assert(order.take(n as int) =~= order);
            assert forall|r: Seq<char>| rooms_read(self@).contains(r) implies read@.contains_key(r) by {
                let u = choose|u: Seq<char>| #[trigger] self@.receipts.contains_key((r, u));
                assert(order.to_set().contains(r));
            }
            assert(read@.dom() =~= rooms_read(self@));
        }
        keys_of(&read)
    }

    /// The read positions of a room, by user.
    pub fn receipts_in(&self, room: &str) -> (users: StrMap<ReadReceipt>)
        ensures
            forall|u: Seq<char>| #[trigger]
                users@.contains_key(u) <==> self@.receipts.contains_key((room@, u)),
            forall|u: Seq<char>|
                users@.contains_key(u) ==> (#[trigger] users@[u])@ == self@.receipts[(room@, u)],
    {
        let mut copy: StrMap<ReadReceipt> = StrMap::new();
        if let Some(users) = self.receipts.get(room) {
            let n: usize = users.len();
            let ghost order = users.keys();
            let mut i: usize = 0;
            while i < n
                invariant
                    i <= n,
                    n == users.keys().len(),
                    order == users.keys(),
                    order.to_set() == users@.dom(),
                    forall|u: Seq<char>| #[trigger]
                        copy@.contains_key(u) <==> order.take(i as int).to_set().contains(u),
                    forall|u: Seq<char>|
                        copy@.contains_key(u) ==> (#[trigger] copy@[u])@ == users@[u]@,
                decreases n - i,
            {
                proof {
                    crate::json::lemma_take_push(order, i as int);
                }
                copy.insert(users.key_at(i).clone(), users.value_at(i).duplicate());
                i = i + 1;
            }
            assert(order.take(n as int) =~= order);
        }
        copy
    }
}

proof fn lemma_some_key<V>(m: Map<Seq<char>, V>)
    requires
        m.len() > 0,
    ensures
        exists|k: Seq<char>| m.contains_key(k),
{
    if forall|k: Seq<char>| !m.contains_key(k) {
        assert(m.dom() =~= Set::empty());
    }
}

/// A user who starts typing is listed until the notice ends, and one who stops is not. The
/// version changes exactly when the user was listed and stops, or was not and starts. Nobody
/// else's notice is touched, and to drop notices that have ended changes no list.
pub proof fn law_typing_starts_stops_and_ends(
    state: EphemeralView,
    room: Seq<char>,
    user: Seq<char>,
    typing: bool,
    end: int,
    at: int,
    now: int,
    other: (Seq<char>, Seq<char>),
)
    ensures
        ({
            let after = with_typing(state, room, user, typing, end, at);
            &&& typing_now(after, room, now).contains(user) <==> typing && end > now
            &&& after.version == if typing_now(state, room, at).contains(user) != typing {
                bumped(state.version)
            } else {
                state.version
            }
            &&& other != (room, user) ==> (typing_now(after, other.0, now).contains(other.1)
                <==> typing_now(state, other.0, now).contains(other.1))
            &&& after.receipts == state.receipts
        }),
        typing_now(without_ended_in(state, room, now), room, now) == typing_now(state, room, now),
        typing_now(without_ended(state, now), room, now) == typing_now(state, room, now),
{
    assert(typing_now(without_ended_in(state, room, now), room, now) =~= typing_now(state, room, now));
    assert(typing_now(without_ended(state, now), room, now) =~= typing_now(state, room, now));
}

/// A read position never goes back, whatever receipts come in.
pub proof fn law_receipts_only_move_forward(
    state: EphemeralView,
    room: Seq<char>,
    user: Seq<char>,
    receipt: ReceiptView,
    other: (Seq<char>, Seq<char>),
)
    ensures
        ({
            let after = with_receipt(state, room, user, receipt);
            &&& state.receipts.contains_key(other) ==> after.receipts.contains_key(other)
                && state.receipts[other].ts <= after.receipts[other].ts
            &&& after.receipts.contains_key((room, user))
            &&& receipt.ts <= after.receipts[(room, user)].ts
            &&& with_receipt(after, room, user, receipt) == after
        }),
{
}

/// A notice is kept under its room and user until its end; a stop takes it out. A notice lasts as
/// long as was asked for, or thirty seconds, and never more than two minutes.
pub proof fn law_notices_last_as_long_as_asked(
    state: EphemeralView,
    room: Seq<char>,
    user: Seq<char>,
    end: int,
    now: int,
    asked: Duration,
)
    ensures
        ({
            let started = with_typing(state, room, user, true, end, now);
            let stopped = with_typing(state, room, user, false, end, now);
            &&& started.typing.contains_key((room, user)) && started.typing[(room, user)] == end
            &&& !stopped.typing.contains_key((room, user))
            &&& started.receipts == state.receipts && stopped.receipts == state.receipts
        }),
        typing_nanos(None) == 30_000_000_000,
        engine::duration_nanos(asked) <= 120_000_000_000 ==> typing_nanos(Some(asked))
            == engine::duration_nanos(asked),
        engine::duration_nanos(asked) >= 120_000_000_000 ==> typing_nanos(Some(asked))
            == 120_000_000_000,
{
}

/// Who is typing in a room, and in which rooms anybody is: those whose notice ends later than now.
/// Notices that have ended are dropped, and no others.
pub proof fn law_who_is_typing(
    state: EphemeralView,
    room: Seq<char>,
    user: Seq<char>,
    now: int,
    p: (Seq<char>, Seq<char>),
)
    ensures
        typing_now(state, room, now).contains(user) <==> state.typing.contains_key((room, user))
            && state.typing[(room, user)] > now,
        rooms_typing(state, now).contains(room) <==> exists|u: Seq<char>| #[trigger]
            state.typing.contains_key((room, u)) && state.typing[(room, u)] > now,
        without_ended_in(state, room, now).typing.contains_key(p) <==> state.typing.contains_key(p) && (
        p.0 != room || state.typing[p] > now),
        without_ended(state, now).typing.contains_key(p) <==> state.typing.contains_key(p)
            && state.typing[p] > now,
        without_ended_in(state, room, now).typing.contains_key(p) ==> without_ended_in(
            state,
            room,
            now,
        ).typing[p] == state.typing[p],
        without_ended(state, now).typing.contains_key(p) ==> without_ended(state, now).typing[p]
            == state.typing[p],
        without_ended_in(state, room, now).receipts == state.receipts,
        without_ended(state, now).receipts == state.receipts,
        without_ended_in(state, room, now).version == state.version,
        without_ended(state, now).version == state.version,
{
}

/// A receipt takes the place of the one that its user has in the room, unless that is later; a
/// receipt that changes nothing wakes nobody, and every other wakes those who wait. Nobody else's
/// receipt is touched.
pub proof fn law_receipts_replace_older_ones(
    state: EphemeralView,
    room: Seq<char>,
    user: Seq<char>,
    receipt: ReceiptView,
    other: (Seq<char>, Seq<char>),
)
    ensures
        ({
            let after = with_receipt(state, room, user, receipt);
            let later = state.receipts.contains_key((room, user)) && state.receipts[(room, user)].ts
                > receipt.ts;
            let same = state.receipts.contains_key((room, user)) && state.receipts[(room, user)]
                == receipt;
            &&& after.receipts.contains_key((room, user))
            &&& after.receipts[(room, user)] == if later {
                state.receipts[(room, user)]
            } else {
                receipt
            }
            &&& later || same ==> after == state
            &&& !later && !same ==> after.version == (state.version + 1) % 0x1_0000_0000_0000_0000
            &&& after.typing == state.typing
            &&& other != (room, user) ==> (after.receipts.contains_key(other)
                <==> state.receipts.contains_key(other))
            &&& other != (room, user) && state.receipts.contains_key(other) ==> after.receipts[other]
                == state.receipts[other]
            &&& rooms_read(state).contains(room) <==> exists|u: Seq<char>| #[trigger]
                state.receipts.contains_key((room, u))
        }),
{
}

} // verus!
