//! Account data: what a client keeps on its server to find again, by type, for the account as a
//! whole or for one room. A write replaces what was there and is stamped, so that a sync can ask
//! for what was written since it last looked.
use crate::event;
use crate::json;
use crate::json::{Json, JsonObject, JsonView};
use crate::key_store;
use crate::strmap;
use crate::strmap::StrMap;
use crate::text;
use vstd::prelude::*;

verus! {

/// A write: its stamp, whose it was, the room when it was for one, and the type.
pub struct Change {
    pub stamp: u64,
    pub user: String,
    pub room: Option<String>,
    pub event_type: String,
}

/// A write as mathematics.
#[verifier::ext_equal]
pub struct ChangeView {
    pub stamp: int,
    pub user: Seq<char>,
    pub room: Option<Seq<char>>,
    pub event_type: Seq<char>,
}

impl View for Change {
    type V = ChangeView;

    open spec fn view(&self) -> ChangeView {
        ChangeView {
            stamp: self.stamp as int,
            user: self.user@,
            room: event::option_view(self.room),
            event_type: self.event_type@,
        }
    }
}

/// Account data as mathematics: the entries of each account by type, those for rooms by user,
/// room and type, the writes in their order, and the number of writes.
#[verifier::ext_equal]
pub struct AccountView {
    pub global: Map<Seq<char>, Map<Seq<char>, JsonView>>,
    pub rooms: Map<(Seq<char>, Seq<char>), Map<Seq<char>, JsonView>>,
    pub changes: Seq<ChangeView>,
    pub version: int,
}

/// The writes in their order, with rising stamps, and the stamp of the last one.
pub struct ChangeLog {
    changes: Vec<Change>,
    version: u64,
}

/// Account data.
pub struct AccountDataState {
    pub global: StrMap<JsonObject>,
    pub rooms: StrMap<StrMap<JsonObject>>,
    pub log: ChangeLog,
}

/// The changes of a list, as mathematics.
pub open spec fn changes_view(changes: Seq<Change>) -> Seq<ChangeView> {
    Seq::new(changes.len(), |i: int| changes[i]@)
}

/// The entries for rooms, by user and room.
pub open spec fn rooms_view(m: Map<Seq<char>, StrMap<JsonObject>>) -> Map<
    (Seq<char>, Seq<char>),
    Map<Seq<char>, JsonView>,
> {
    Map::new(
        |p: (Seq<char>, Seq<char>)| m.contains_key(p.0) && m[p.0]@.contains_key(p.1),
        |p: (Seq<char>, Seq<char>)| m[p.0]@[p.1]@,
    )
}

/// Whether the stamps of writes rise, up to the given one.
pub open spec fn stamped(changes: Seq<ChangeView>, version: int) -> bool {
    &&& forall|i: int, j: int|
        0 <= i < j < changes.len() ==> (#[trigger] changes[i]).stamp < (#[trigger] changes[j]).stamp
    &&& forall|i: int| 0 <= i < changes.len() ==> 0 < (#[trigger] changes[i]).stamp <= version
}

impl ChangeLog {
    #[verifier::type_invariant]
    closed spec fn rising(&self) -> bool {
        stamped(changes_view(self.changes@), self.version as int)
    }

    /// The writes.
    pub closed spec fn changes_spec(&self) -> Seq<ChangeView> {
        changes_view(self.changes@)
    }

    /// The stamp of the last write.
    pub closed spec fn version_spec(&self) -> int {
        self.version as int
    }

    /// No writes.
    pub fn new() -> (log: Self)
        ensures
            log.changes_spec() == Seq::<ChangeView>::empty(),
            log.version_spec() == 0,
    {
        let log = ChangeLog { changes: Vec::new(), version: 0 };
        assert(log.changes_spec() =~= Seq::<ChangeView>::empty());
        log
    }

    /// The stamp of the last write.
    pub fn version(&self) -> (v: u64)
        ensures
            v == self.version_spec(),
            stamped(self.changes_spec(), self.version_spec()),
    {
        proof {
            use_type_invariant(self);
        }
        self.version
    }

    /// How many writes there are.
    pub fn len(&self) -> (n: usize)
        ensures
            n == self.changes_spec().len(),
    {
        self.changes.len()
    }

    /// A write.
    pub fn get(&self, i: usize) -> (change: &Change)
        requires
            i < self.changes_spec().len(),
        ensures
            change@ == self.changes_spec()[i as int],
    {
        &self.changes[i]
    }

    /// Stamps a write.
    pub fn push(&mut self, user: String, room: Option<String>, event_type: String)
        requires
            old(self).version_spec() < u64::MAX,
        ensures
            final(self).version_spec() == old(self).version_spec() + 1,
            final(self).changes_spec() == old(self).changes_spec().push(
                (ChangeView {
                    stamp: old(self).version_spec() + 1,
                    user: user@,
                    room: event::option_view(room),
                    event_type: event_type@,
                }),
            ),
    {
        proof {
            use_type_invariant(&*self);
        }
        let mut changes: Vec<Change> = Vec::new();
        std::mem::swap(&mut self.changes, &mut changes);
        let ghost before = changes@;
        let stamp: u64 = self.version + 1;
        changes.push(Change { stamp, user, room, event_type });
        assert(changes_view(changes@) =~= changes_view(before).push(changes@.last()@));
        self.version = stamp;
        self.changes = changes;
    }
}

impl View for AccountDataState {
    type V = AccountView;

    open spec fn view(&self) -> AccountView {
        AccountView {
            global: key_store::objects_view(self.global@),
            rooms: rooms_view(self.rooms@),
            changes: self.log.changes_spec(),
            version: self.log.version_spec(),
        }
    }
}

/// The entries of one user.
pub open spec fn global_of(state: AccountView, user: Seq<char>) -> Map<Seq<char>, JsonView> {
    if state.global.contains_key(user) {
        state.global[user]
    } else {
        Map::empty()
    }
}

/// The entries of one user for one room.
pub open spec fn room_of(state: AccountView, user: Seq<char>, room: Seq<char>) -> Map<
    Seq<char>,
    JsonView,
> {
    if state.rooms.contains_key((user, room)) {
        state.rooms[(user, room)]
    } else {
        Map::empty()
    }
}

/// What is held for an entry.
pub open spec fn held(
    state: AccountView,
    user: Seq<char>,
    room: Option<Seq<char>>,
    event_type: Seq<char>,
) -> Option<JsonView> {
    match room {
        None => json::lookup(global_of(state, user), event_type),
        Some(r) => json::lookup(room_of(state, user, r), event_type),
    }
}

/// The state with an entry written, and no stamp.
pub open spec fn with_entry(
    state: AccountView,
    user: Seq<char>,
    room: Option<Seq<char>>,
    event_type: Seq<char>,
    content: JsonView,
) -> AccountView {
    match room {
        None => AccountView {
            global: state.global.insert(user, global_of(state, user).insert(event_type, content)),
            ..state
        },
        Some(r) => AccountView {
            rooms: state.rooms.insert(
                (user, r),
                room_of(state, user, r).insert(event_type, content),
            ),
            ..state
        },
    }
}

/// The state with an entry written and stamped.
pub open spec fn with_write(
    state: AccountView,
    user: Seq<char>,
    room: Option<Seq<char>>,
    event_type: Seq<char>,
    content: JsonView,
) -> AccountView {
    AccountView {
        changes: state.changes.push(
            (ChangeView { stamp: state.version + 1, user, room, event_type }),
        ),
        version: state.version + 1,
        ..with_entry(state, user, room, event_type, content)
    }
}

/// The rows of a store, as mathematics.
pub open spec fn rows_view(rows: Seq<(String, Option<String>, String, Json)>) -> Seq<
    (Seq<char>, Option<Seq<char>>, Seq<char>, JsonView),
> {
    Seq::new(
        rows.len(),
        |i: int| (rows[i].0@, event::option_view(rows[i].1), rows[i].2@, rows[i].3@),
    )
}

/// The state with the rows of a store read in.
pub open spec fn with_rows(
    state: AccountView,
    rows: Seq<(Seq<char>, Option<Seq<char>>, Seq<char>, JsonView)>,
) -> AccountView
    decreases rows.len(),
{
    if rows.len() == 0 {
        state
    } else {
        let (user, room, event_type, content) = rows.last();
        with_entry(with_rows(state, rows.drop_last()), user, room, event_type, content)
    }
}

/// The entries of a user that were written after the given stamp, each once and the one that
/// was written last first: `found` are those of later writes.
pub open spec fn written_since(
    changes: Seq<ChangeView>,
    user: Seq<char>,
    since: int,
    found: Seq<(Option<Seq<char>>, Seq<char>)>,
) -> Seq<(Option<Seq<char>>, Seq<char>)>
    decreases changes.len(),
{
    if changes.len() == 0 || changes.last().stamp <= since {
        found
    } else {
        let key = (changes.last().room, changes.last().event_type);
        if changes.last().user == user && !found.contains(key) {
            written_since(changes.drop_last(), user, since, found.push(key))
        } else {
            written_since(changes.drop_last(), user, since, found)
        }
    }
}

/// Those of the given entries that are for the account as a whole, with what is held for them.
pub open spec fn global_entries(
    state: AccountView,
    user: Seq<char>,
    keys: Seq<(Option<Seq<char>>, Seq<char>)>,
) -> Seq<(Seq<char>, JsonView)>
    decreases keys.len(),
{
    if keys.len() == 0 {
        seq![]
    } else {
        let front = global_entries(state, user, keys.drop_last());
        let (room, event_type) = keys.last();
        match (room, held(state, user, room, event_type)) {
            (None, Some(content)) => front.push((event_type, content)),
            _ => front,
        }
    }
}

/// Those of the given entries that are for a room, with what is held for them.
pub open spec fn room_entries(
    state: AccountView,
    user: Seq<char>,
    keys: Seq<(Option<Seq<char>>, Seq<char>)>,
    wanted: Seq<char>,
) -> Seq<(Seq<char>, JsonView)>
    decreases keys.len(),
{
    if keys.len() == 0 {
        seq![]
    } else {
        let front = room_entries(state, user, keys.drop_last(), wanted);
        let (room, event_type) = keys.last();
        match held(state, user, room, event_type) {
            Some(content) => if room == Some(wanted) {
                front.push((event_type, content))
            } else {
                front
            },
            None => front,
        }
    }
}

/// The entries of an object, in the order of their keys.
pub open spec fn listed(m: Map<Seq<char>, JsonView>) -> Seq<(Seq<char>, JsonView)> {
    let keys = strmap::sorted_keys(m.dom());
    Seq::new(keys.len(), |i: int| (keys[i], m[keys[i]]))
}

/// The entries of a user for the account as a whole that a sync carries.
pub open spec fn sync_global(state: AccountView, user: Seq<char>, since: int) -> Seq<
    (Seq<char>, JsonView),
> {
    if since == 0 {
        listed(global_of(state, user))
    } else {
        global_entries(state, user, written_since(state.changes, user, since, seq![]))
    }
}

/// The entries of a user for a room that a sync carries.
pub open spec fn sync_room(state: AccountView, user: Seq<char>, since: int, room: Seq<char>) -> Seq<
    (Seq<char>, JsonView),
> {
    if since == 0 {
        listed(room_of(state, user, room))
    } else {
        room_entries(state, user, written_since(state.changes, user, since, seq![]), room)
    }
}

/// The entries that are listed for each room, as mathematics.
pub open spec fn entries_of(m: Map<Seq<char>, Vec<(String, Json)>>, room: Seq<char>) -> Seq<
    (Seq<char>, JsonView),
> {
    if m.contains_key(room) {
        key_store::pairs_view(m[room]@)
    } else {
        seq![]
    }
}

/// Whether a list of keys holds the given one.
fn found_key(keys: &Vec<(Option<String>, String)>, room: &Option<String>, event_type: &str) -> (yes:
    bool)
    ensures
        yes == keys_view(keys@).contains((event::option_view(*room), event_type@)),
{
    let ghost wanted = (event::option_view(*room), event_type@);
    let mut i: usize = 0;
    while i < keys.len()
        invariant
            i <= keys@.len(),
            wanted == (event::option_view(*room), event_type@),
            forall|j: int| 0 <= j < i ==> #[trigger] keys_view(keys@)[j] != wanted,
        decreases keys.len() - i,
    {
        let same_room: bool = match (&keys[i].0, room) {
            (None, None) => true,
            (Some(a), Some(b)) => text::str_eq(a.as_str(), b.as_str()),
            _ => false,
        };
        if same_room && text::str_eq(keys[i].1.as_str(), event_type) {
            assert(keys_view(keys@)[i as int] == wanted);
            return true;
        }
        assert(keys_view(keys@)[i as int] != wanted);
        i = i + 1;
    }
    false
}

/// Keys of entries, as mathematics.
pub open spec fn keys_view(keys: Seq<(Option<String>, String)>) -> Seq<
    (Option<Seq<char>>, Seq<char>),
> {
    Seq::new(keys.len(), |i: int| (event::option_view(keys[i].0), keys[i].1@))
}

/// The entries of an object, in the order of their keys.
fn list(m: &JsonObject) -> (entries: Vec<(String, Json)>)
    ensures
        key_store::pairs_view(entries@) == listed(m@),
{
    let n: usize = m.len();
    let mut entries: Vec<(String, Json)> = Vec::new();
    let mut i: usize = 0;
    while i < n
        invariant
            i <= n,
            n == m.keys().len(),
            entries@.len() == i,
            forall|j: int| 0 <= j < i ==> (#[trigger] entries@[j]).0@ == m.keys()[j],
            forall|j: int| 0 <= j < i ==> (#[trigger] entries@[j]).1@ == m@[m.keys()[j]],
        decreases n - i,
    {
        entries.push((m.key_at(i).clone(), m.value_at(i).duplicate()));
        i = i + 1;
    }
    assert(key_store::pairs_view(entries@) =~= listed(m@));
    entries
}

impl AccountDataState {
    /// No entries.
    pub fn new() -> (s: Self)
        ensures
            s@.global == Map::<Seq<char>, Map<Seq<char>, JsonView>>::empty(),
            s@.rooms == Map::<(Seq<char>, Seq<char>), Map<Seq<char>, JsonView>>::empty(),
            s@.changes == Seq::<ChangeView>::empty(),
            s@.version == 0,
    {
        let s = AccountDataState {
            global: StrMap::new(),
            rooms: StrMap::new(),
            log: ChangeLog::new(),
        };
        assert(s@.global =~= Map::<Seq<char>, Map<Seq<char>, JsonView>>::empty());
        assert(s@.rooms =~= Map::<(Seq<char>, Seq<char>), Map<Seq<char>, JsonView>>::empty());
        s
    }

    /// The stamp of the last write.
    pub fn version(&self) -> (v: u64)
        ensures
            v == self@.version,
            stamped(self@.changes, self@.version),
    {
        self.log.version()
    }

    fn put_global(&mut self, user: &str, event_type: &str, content: Json)
        ensures
            final(self)@ == with_entry(old(self)@, user@, None, event_type@, content@),
    {
        let mut entries: JsonObject = match self.global.remove(user) {
            Some(m) => m,
            None => JsonObject::new(),
        };
        entries.insert(event_type.to_owned(), content);
        self.global.insert(user.to_owned(), entries);
        assert(self@.global =~= with_entry(old(self)@, user@, None, event_type@, content@).global);
    }

    fn put_room(&mut self, user: &str, room: &str, event_type: &str, content: Json)
        ensures
            final(self)@ == with_entry(old(self)@, user@, Some(room@), event_type@, content@),
    {
        let mut rooms: StrMap<JsonObject> = match self.rooms.remove(user) {
            Some(m) => m,
            None => StrMap::new(),
        };
        let mut entries: JsonObject = match rooms.remove(room) {
            Some(m) => m,
            None => JsonObject::new(),
        };
        entries.insert(event_type.to_owned(), content);
        rooms.insert(room.to_owned(), entries);
        self.rooms.insert(user.to_owned(), rooms);
        assert(self@.rooms =~= with_entry(
            old(self)@,
            user@,
            Some(room@),
            event_type@,
            content@,
        ).rooms);
    }

    /// Reads in the rows of the store. Nothing is stamped: who has never looked is sent
    /// everything.
    pub fn load(&mut self, rows: Vec<(String, Option<String>, String, Json)>)
        ensures
            final(self)@ == with_rows(old(self)@, rows_view(rows@)),
    {
        let ghost all = rows@;
        let ghost view = rows_view(all);
        assert(view.take(0) =~= Seq::empty());
        for row in it: rows
            invariant
                it.seq() == all,
                view == rows_view(all),
                self@ == with_rows(old(self)@, view.take(it.index() as int)),
        {
            let ghost i = it.index() as int;
            proof {
                assert(row == all[i]);
                assert(view.take(i + 1).drop_last() =~= view.take(i));
                assert(view.take(i + 1).last() == view[i]);
            }
            let (user, room, event_type, content): (String, Option<String>, String, Json) = row;
            match room {
                None => self.put_global(user.as_str(), event_type.as_str(), content),
                Some(room) => self.put_room(
                    user.as_str(),
                    room.as_str(),
                    event_type.as_str(),
                    content,
                ),
            }
        }
        assert(view.take(view.len() as int) =~= view);
    }

    /// Writes an entry for the account as a whole.
    pub fn set_global(&mut self, user: &str, event_type: &str, content: Json)
        requires
            old(self)@.version < u64::MAX,
        ensures
            final(self)@ == with_write(old(self)@, user@, None, event_type@, content@),
    {
        self.put_global(user, event_type, content);
        self.log.push(user.to_owned(), None, event_type.to_owned());
    }

    /// Writes an entry for a room.
    pub fn set_room(&mut self, user: &str, room: &str, event_type: &str, content: Json)
        requires
            old(self)@.version < u64::MAX,
        ensures
            final(self)@ == with_write(old(self)@, user@, Some(room@), event_type@, content@),
    {
        self.put_room(user, room, event_type, content);
        self.log.push(user.to_owned(), Some(room.to_owned()), event_type.to_owned());
    }

    /// The entry of a type for the account as a whole.
    pub fn get_global(&self, user: &str, event_type: &str) -> (content: Option<&Json>)
        ensures
            content is Some == held(self@, user@, None, event_type@) is Some,
            content matches Some(c) ==> held(self@, user@, None, event_type@) == Some(c@),
    {
        match self.global.get(user) {
            Some(entries) => entries.get(event_type),
            None => None,
        }
    }

    /// The entry of a type for a room.
    pub fn get_room(&self, user: &str, room: &str, event_type: &str) -> (content: Option<&Json>)
        ensures
            content is Some == held(self@, user@, Some(room@), event_type@) is Some,
            content matches Some(c) ==> held(self@, user@, Some(room@), event_type@) == Some(c@),
    {
        match self.rooms.get(user) {
            Some(rooms) => match rooms.get(room) {
                Some(entries) => entries.get(event_type),
                None => None,
            },
            None => None,
        }
    }

    /// The keys of the entries of a user that were written after the given stamp, the one that
    /// was written last first.
    fn keys_since(&self, user: &str, since: u64) -> (keys: Vec<(Option<String>, String)>)
        ensures
            keys_view(keys@) == written_since(self@.changes, user@, since as int, seq![]),
    {
        let mut keys: Vec<(Option<String>, String)> = Vec::new();
        let ghost changes = self@.changes;
        let mut n: usize = self.log.len();
        let mut done: bool = false;
        assert(changes.take(n as int) =~= changes);
        assert(keys_view(keys@) =~= seq![]);
        while n > 0 && !done
            invariant
                n <= changes.len(),
                changes == self@.changes,
                written_since(changes, user@, since as int, seq![]) == if done {
                    keys_view(keys@)
                } else {
                    written_since(changes.take(n as int), user@, since as int, keys_view(keys@))
                },
            decreases n, (if done { 0int } else { 1 }),
        {
            let change: &Change = self.log.get(n - 1);
            proof {
                assert(changes.take(n as int).drop_last() =~= changes.take(n - 1));
                assert(changes.take(n as int).last() == change@);
            }
            if change.stamp <= since {
                done = true;
            } else {
                if text::str_eq(change.user.as_str(), user) && !found_key(
                    &keys,
                    &change.room,
                    change.event_type.as_str(),
                ) {
                    let ghost before = keys_view(keys@);
                    let room: Option<String> = match &change.room {
                        Some(r) => Some(r.clone()),
                        None => None,
                    };
                    keys.push((room, change.event_type.clone()));
                    assert(keys_view(keys@) =~= before.push((change@.room, change@.event_type)));
                }
                n = n - 1;
            }
        }
        keys
    }

    /// What a sync carries for a user: everything that is held when the user has seen nothing
    /// (`since` is zero), else what was written after the given stamp, each entry once and with
    /// what is held for it now.
    pub fn changed_since(&self, user: &str, since: u64) -> (r: (
        Vec<(String, Json)>,
        StrMap<Vec<(String, Json)>>,
    ))
        ensures
            key_store::pairs_view(r.0@) == sync_global(self@, user@, since as int),
            forall|room: Seq<char>| #[trigger]
                entries_of(r.1@, room) == sync_room(self@, user@, since as int, room),
            forall|room: Seq<char>| #[trigger]
                r.1@.contains_key(room) <==> sync_room(self@, user@, since as int, room).len() > 0,
    {
        let ghost state = self@;
        if since == 0 {
            let global: Vec<(String, Json)> = match self.global.get(user) {
                Some(entries) => list(entries),
                None => list(&JsonObject::new()),
            };
            let mut rooms: StrMap<Vec<(String, Json)>> = StrMap::new();
            proof {
                lemma_nothing_listed();
            }
            if let Some(held) = self.rooms.get(user) {
                let n: usize = held.len();
                let ghost order = held.keys();
                let mut i: usize = 0;
                while i < n
                    invariant
                        i <= n,
                        n == held.keys().len(),
                        order == held.keys(),
                        order.to_set() == held@.dom(),
                        state == self@,
                        self.rooms@.contains_key(user@) && *held == self.rooms@[user@],
                        forall|room: Seq<char>| #[trigger]
                            rooms@.contains_key(room) <==> entries_of(rooms@, room).len() > 0,
                        forall|room: Seq<char>| #[trigger]
                            entries_of(rooms@, room) == if order.take(i as int).to_set().contains(room) {
                                listed(held@[room]@)
                            } else {
                                seq![]
                            },
                    decreases n - i,
                {
                    proof {
                        json::lemma_take_push(order, i as int);
                    }
                    let entries: Vec<(String, Json)> = list(held.value_at(i));
                    let ghost before = rooms@;
                    let ghost here = order[i as int];
                    if entries.len() > 0 {
                        rooms.insert(held.key_at(i).clone(), entries);
                        assert(rooms@ == before.insert(here, entries));
                    }
                    proof {
                        assert(key_store::pairs_view(entries@) == listed(held@[here]@));
                        assert forall|room: Seq<char>| #[trigger]
                            entries_of(rooms@, room) == if order.take(i + 1).to_set().contains(room) {
                            listed(held@[room]@)
                        } else {
                            seq![]
                        } by {
                            assert(before.contains_key(room) <==> entries_of(before, room).len() > 0);
                            assert(key_store::pairs_view(entries@).len() == entries@.len());
                            if room == here && entries@.len() == 0 {
                                assert(entries_of(rooms@, room) =~= listed(held@[room]@));
                            }
                        }
                        assert forall|room: Seq<char>| #[trigger]
                            rooms@.contains_key(room) <==> entries_of(rooms@, room).len() > 0 by {
                            assert(before.contains_key(room) <==> entries_of(before, room).len() > 0);
                        }
                    }
                    i = i + 1;
                }
                proof {
                    assert(order.take(n as int) =~= order);
                    assert forall|room: Seq<char>| #[trigger]
                        entries_of(rooms@, room) == sync_room(state, user@, 0, room) by {
                        assert(state.rooms.contains_key((user@, room)) <==> held@.contains_key(room));
                        if !held@.contains_key(room) {
                            assert(room_of(state, user@, room) =~= Map::empty());
                        }
                    }
                }
            } else {
                proof {
                    assert forall|room: Seq<char>| #[trigger]
                        entries_of(rooms@, room) == sync_room(state, user@, 0, room) by {
                        assert(room_of(state, user@, room) =~= Map::empty());
                    }
                }
            }
            assert forall|room: Seq<char>| #[trigger]
                rooms@.contains_key(room) <==> sync_room(state, user@, 0, room).len() > 0 by {
                assert(entries_of(rooms@, room) == sync_room(state, user@, 0, room));
            }
            return (global, rooms);
        }
        let keys: Vec<(Option<String>, String)> = self.keys_since(user, since);
        let ghost all = keys_view(keys@);
        let mut global: Vec<(String, Json)> = Vec::new();
        let mut rooms: StrMap<Vec<(String, Json)>> = StrMap::new();
        let mut i: usize = 0;
        assert(key_store::pairs_view(global@) =~= global_entries(state, user@, all.take(0)));
        while i < keys.len()
            invariant
                i <= keys@.len(),
                all == keys_view(keys@),
                state == self@,
                key_store::pairs_view(global@) == global_entries(state, user@, all.take(i as int)),
                forall|room: Seq<char>| #[trigger]
                    entries_of(rooms@, room) == room_entries(state, user@, all.take(i as int), room),
                forall|room: Seq<char>| #[trigger]
                    rooms@.contains_key(room) <==> entries_of(rooms@, room).len() > 0,
            decreases keys.len() - i,
        {
            proof {
                assert(all.take(i + 1).drop_last() =~= all.take(i as int));
                assert(all.take(i + 1).last() == all[i as int]);
            }
            let event_type: &String = &keys[i].1;
            let ghost before = rooms@;
            match &keys[i].0 {
                None => {
                    if let Some(content) = self.get_global(user, event_type.as_str()) {
                        let ghost g = global@;
                        global.push((event_type.clone(), content.duplicate()));
                        assert(key_store::pairs_view(global@) =~= key_store::pairs_view(g).push(
                            (event_type@, content@),
                        ));
                    }
                },
                Some(room) => {
                    if let Some(content) = self.get_room(user, room.as_str(), event_type.as_str()) {
                        let mut entries: Vec<(String, Json)> = match rooms.remove(room.as_str()) {
                            Some(e) => e,
                            None => Vec::new(),
                        };
                        let ghost e = entries@;
                        assert(key_store::pairs_view(e) =~= entries_of(before, room@));
                        entries.push((event_type.clone(), content.duplicate()));
                        assert(key_store::pairs_view(entries@) =~= key_store::pairs_view(e).push(
                            (event_type@, content@),
                        ));
                        rooms.insert(room.clone(), entries);
                    }
                },
            }
            proof {
                assert forall|room: Seq<char>| #[trigger]
                    entries_of(rooms@, room) == room_entries(state, user@, all.take(i + 1), room) by {
                    assert(entries_of(before, room) == room_entries(
                        state,
                        user@,
                        all.take(i as int),
                        room,
                    ));
                }
            }
            i = i + 1;
        }
        assert(all.take(i as int) =~= all);
        assert forall|room: Seq<char>| #[trigger]
            rooms@.contains_key(room) <==> sync_room(state, user@, since as int, room).len() > 0 by {
            assert(entries_of(rooms@, room) == room_entries(state, user@, all, room));
        }
        (global, rooms)
    }
}

proof fn lemma_nothing_listed()
    ensures
        listed(Map::<Seq<char>, JsonView>::empty()) == Seq::<(Seq<char>, JsonView)>::empty(),
{
    let none = Seq::<Seq<char>>::empty();
    assert(none.to_set() =~= Map::<Seq<char>, JsonView>::empty().dom());
    strmap::lemma_sorted_keys(none);
    assert(listed(Map::<Seq<char>, JsonView>::empty()) =~= Seq::<(Seq<char>, JsonView)>::empty());
}

/// A write replaces what was held for the entry, and touches no other entry.
pub proof fn law_writes_replace(
    state: AccountView,
    user: Seq<char>,
    room: Option<Seq<char>>,
    event_type: Seq<char>,
    content: JsonView,
    other_user: Seq<char>,
    other_room: Option<Seq<char>>,
    other_type: Seq<char>,
)
    ensures
        held(with_write(state, user, room, event_type, content), user, room, event_type) == Some(content),
        (other_user, other_room, other_type) != (user, room, event_type) ==> held(
            with_write(state, user, room, event_type, content),
            other_user,
            other_room,
            other_type,
        ) == held(state, other_user, other_room, other_type),
{
    let after = with_write(state, user, room, event_type, content);
    match room {
        None => {
            if other_room is None && other_user == user {
                assert(global_of(after, user) == global_of(state, user).insert(event_type, content));
            }
            if let Some(r) = other_room {
                assert(room_of(after, other_user, r) == room_of(state, other_user, r));
            }
        },
        Some(r) => {
            assert(room_of(after, user, r) == room_of(state, user, r).insert(event_type, content));
            if let Some(q) = other_room {
                if !(other_user == user && q == r) {
                    assert(room_of(after, other_user, q) == room_of(state, other_user, q));
                }
            }
        },
    }
}

proof fn lemma_written_since(
    changes: Seq<ChangeView>,
    user: Seq<char>,
    since: int,
    found: Seq<(Option<Seq<char>>, Seq<char>)>,
    key: (Option<Seq<char>>, Seq<char>),
)
    requires
        forall|i: int, j: int|
            0 <= i < j < changes.len() ==> (#[trigger] changes[i]).stamp < (#[trigger] changes[j]).stamp,
        found.no_duplicates(),
    ensures
        written_since(changes, user, since, found).no_duplicates(),
        written_since(changes, user, since, found).contains(key) <==> found.contains(key) || exists|i: int|
            0 <= i < changes.len() && since < (#[trigger] changes[i]).stamp && changes[i].user == user && (
                changes[i].room,
                changes[i].event_type,
            ) == key,
    decreases changes.len(),
{
    if changes.len() > 0 {
        let front = changes.drop_last();
        let last = changes.last();
        let own = (last.room, last.event_type);
        if last.stamp <= since {
            if exists|i: int|
                0 <= i < changes.len() && since < (#[trigger] changes[i]).stamp && changes[i].user == user
                    && (changes[i].room, changes[i].event_type) == key {
                let i = choose|i: int|
                    0 <= i < changes.len() && since < (#[trigger] changes[i]).stamp && changes[i].user
                        == user && (changes[i].room, changes[i].event_type) == key;
                assert(changes[i].stamp <= changes[changes.len() - 1].stamp);
            }
        } else {
            let next = if last.user == user && !found.contains(own) {
                found.push(own)
            } else {
                found
            };
            assert forall|i: int, j: int| 0 <= i < j < front.len() implies (#[trigger] front[i]).stamp < (
            #[trigger] front[j]).stamp by {
                assert(front[i] == changes[i] && front[j] == changes[j]);
            }
            if next.len() > found.len() {
                assert(next[found.len() as int] == own);
                assert forall|k: (Option<Seq<char>>, Seq<char>)| next.contains(k) <==> found.contains(k)
                    || k == own by {
                    if found.contains(k) {
                        assert(next[found.index_of(k)] == k);
                    }
                    if next.contains(k) && k != own {
                        assert(found[next.index_of(k)] == k);
                    }
                }
            }
            lemma_written_since(front, user, since, next, key);
            if exists|i: int|
                0 <= i < front.len() && since < (#[trigger] front[i]).stamp && front[i].user == user && (
                    front[i].room,
                    front[i].event_type,
                ) == key {
                let i = choose|i: int|
                    0 <= i < front.len() && since < (#[trigger] front[i]).stamp && front[i].user == user
                        && (front[i].room, front[i].event_type) == key;
                assert(changes[i] == front[i]);
            }
            if exists|i: int|
                0 <= i < changes.len() && since < (#[trigger] changes[i]).stamp && changes[i].user == user
                    && (changes[i].room, changes[i].event_type) == key {
                let i = choose|i: int|
                    0 <= i < changes.len() && since < (#[trigger] changes[i]).stamp && changes[i].user
                        == user && (changes[i].room, changes[i].event_type) == key;
                if i < front.len() {
                    assert(front[i] == changes[i]);
                } else {
                    assert(key == own);
                    assert(next.contains(key));
                }
            }
            if next.contains(key) && !found.contains(key) {
                assert(key == own);
                assert(changes[changes.len() - 1] == last);
            }
        }
    }
}

/// What was written after a stamp is reported once, and nothing else: an entry of a user is
/// among those reported exactly when there was such a write.
pub proof fn law_changes_are_reported_once(
    state: AccountView,
    user: Seq<char>,
    since: int,
    key: (Option<Seq<char>>, Seq<char>),
)
    requires
        stamped(state.changes, state.version),
    ensures
        written_since(state.changes, user, since, seq![]).no_duplicates(),
        written_since(state.changes, user, since, seq![]).contains(key) <==> exists|i: int|
            0 <= i < state.changes.len() && since < (#[trigger] state.changes[i]).stamp
                && state.changes[i].user == user && (state.changes[i].room, state.changes[i].event_type)
                == key,
{
    lemma_written_since(state.changes, user, since, seq![], key);
}

/// Who asks again with the stamp of the last write is told nothing.
pub proof fn law_nothing_since_now(state: AccountView, user: Seq<char>, room: Seq<char>)
    requires
        stamped(state.changes, state.version),
        state.version > 0,
    ensures
        sync_global(state, user, state.version).len() == 0,
        sync_room(state, user, state.version, room).len() == 0,
{
    if state.changes.len() > 0 {
        assert(state.changes[state.changes.len() - 1].stamp <= state.version);
    }
    assert(written_since(state.changes, user, state.version, seq![]) =~= seq![]);
}

/// A write is found under its user, its room where it is for one, and its type; it is stamped with
/// the next number, and every other entry stays as it was.
pub proof fn law_writes_are_found_and_stamped(
    state: AccountView,
    user: Seq<char>,
    room: Seq<char>,
    event_type: Seq<char>,
    content: JsonView,
    other: Seq<char>,
    other_room: Seq<char>,
    other_type: Seq<char>,
)
    ensures
        ({
            let whole = with_write(state, user, None, event_type, content);
            let local = with_write(state, user, Some(room), event_type, content);
            &&& whole.global.contains_key(user) && whole.global[user].contains_key(event_type)
                && whole.global[user][event_type] == content
            &&& whole.rooms == state.rooms
            &&& other != user ==> json::lookup(whole.global, other) == json::lookup(
                state.global,
                other,
            )
            &&& other_type != event_type && state.global.contains_key(user) ==> json::lookup(
                whole.global[user],
                other_type,
            ) == json::lookup(state.global[user], other_type)
            &&& local.rooms.contains_key((user, room)) && local.rooms[(user, room)].contains_key(
                event_type,
            ) && local.rooms[(user, room)][event_type] == content
            &&& local.global == state.global
            &&& (other, other_room) != (user, room) ==> (local.rooms.contains_key((other, other_room))
                <==> state.rooms.contains_key((other, other_room)))
            &&& (other, other_room) != (user, room) && state.rooms.contains_key((other, other_room))
                ==> local.rooms[(other, other_room)] == state.rooms[(other, other_room)]
            &&& other_type != event_type && state.rooms.contains_key((user, room)) ==> json::lookup(
                local.rooms[(user, room)],
                other_type,
            ) == json::lookup(state.rooms[(user, room)], other_type)
            &&& whole.version == state.version + 1 && local.version == state.version + 1
            &&& whole.changes == state.changes.push(
                (ChangeView { stamp: state.version + 1, user, room: None, event_type }),
            )
            &&& local.changes == state.changes.push(
                (ChangeView { stamp: state.version + 1, user, room: Some(room), event_type }),
            )
        }),
{
}

/// What is held for an entry is what stands in its table.
pub proof fn law_entries_are_found_in_their_table(
    state: AccountView,
    user: Seq<char>,
    room: Seq<char>,
    event_type: Seq<char>,
    content: JsonView,
)
    ensures
        held(state, user, None, event_type) == Some(content) <==> state.global.contains_key(user)
            && state.global[user].contains_key(event_type) && state.global[user][event_type] == content,
        held(state, user, Some(room), event_type) == Some(content) <==> state.rooms.contains_key(
            (user, room),
        ) && state.rooms[(user, room)].contains_key(event_type) && state.rooms[(user, room)][event_type]
            == content,
{
}

/// Rows of a store are read in one after the other, each as an entry of its user, room and type;
/// none is stamped.
pub proof fn law_rows_are_read_in(
    state: AccountView,
    rows: Seq<(Seq<char>, Option<Seq<char>>, Seq<char>, JsonView)>,
    user: Seq<char>,
    room: Option<Seq<char>>,
    event_type: Seq<char>,
    content: JsonView,
    other: (Seq<char>, Option<Seq<char>>, Seq<char>),
)
    ensures
        ({
            let before = with_rows(state, rows);
            let after = with_rows(state, rows.push((user, room, event_type, content)));
            &&& with_rows(state, seq![]) == state
            &&& held(after, user, room, event_type) == Some(content)
            &&& other != (user, room, event_type) ==> held(after, other.0, other.1, other.2) == held(
                before,
                other.0,
                other.1,
                other.2,
            )
            &&& after.version == state.version
            &&& after.changes == state.changes
        }),
    decreases rows.len(),
{
    let more = rows.push((user, room, event_type, content));
    assert(more.drop_last() =~= rows);
    let before = with_rows(state, rows);
    lemma_rows_are_not_stamped(state, rows);
    law_writes_replace(
        before,
        user,
        room,
        event_type,
        content,
        other.0,
        other.1,
        other.2,
    );
    let after = with_rows(state, more);
    let written = with_write(before, user, room, event_type, content);
    assert(after.global == written.global && after.rooms == written.rooms);
}

proof fn lemma_rows_are_not_stamped(
    state: AccountView,
    rows: Seq<(Seq<char>, Option<Seq<char>>, Seq<char>, JsonView)>,
)
    ensures
        with_rows(state, rows).version == state.version,
        with_rows(state, rows).changes == state.changes,
    decreases rows.len(),
{
    if rows.len() > 0 {
        lemma_rows_are_not_stamped(state, rows.drop_last());
    }
}

proof fn lemma_listed(m: Map<Seq<char>, JsonView>, event_type: Seq<char>, content: JsonView)
    requires
        m.dom().finite(),
    ensures
        listed(m).contains((event_type, content)) <==> m.contains_key(event_type) && m[event_type] == content,
        listed(m).len() == m.dom().len(),
        forall|i: int, j: int|
            0 <= i < j < listed(m).len() ==> text::precedes(
                (#[trigger] listed(m)[i]).0,
                (#[trigger] listed(m)[j]).0,
            ),
{
    let keys = strmap::sorted_keys(m.dom());
    strmap::lemma_sorted(m.dom());
    keys.unique_seq_to_set();
    if listed(m).contains((event_type, content)) {
        let i = listed(m).index_of((event_type, content));
        assert(keys.to_set().contains(keys[i]));
    }
    if m.contains_key(event_type) && m[event_type] == content {
        assert(keys.to_set().contains(event_type));
        let i = keys.index_of(event_type);
        assert(listed(m)[i] == (event_type, content));
    }
}

/// Who has seen nothing is told everything that is held of theirs, in the order of the types.
pub proof fn law_the_first_sync_tells_everything(
    state: AccountView,
    user: Seq<char>,
    room: Seq<char>,
    event_type: Seq<char>,
    content: JsonView,
    i: int,
    j: int,
)
    requires
        state.global.contains_key(user) ==> state.global[user].dom().finite(),
        state.rooms.contains_key((user, room)) ==> state.rooms[(user, room)].dom().finite(),
    ensures
        ({
            let whole = sync_global(state, user, 0);
            let local = sync_room(state, user, 0, room);
            &&& whole.contains((event_type, content)) <==> state.global.contains_key(user)
                && state.global[user].contains_key(event_type) && state.global[user][event_type]
                == content
            &&& local.contains((event_type, content)) <==> state.rooms.contains_key((user, room))
                && state.rooms[(user, room)].contains_key(event_type)
                && state.rooms[(user, room)][event_type] == content
            &&& 0 <= i < j < whole.len() ==> text::precedes(whole[i].0, whole[j].0)
            &&& 0 <= i < j < local.len() ==> text::precedes(local[i].0, local[j].0)
        }),
{
    lemma_listed(global_of(state, user), event_type, content);
    lemma_listed(room_of(state, user, room), event_type, content);
}

proof fn lemma_global_entries(
    state: AccountView,
    user: Seq<char>,
    keys: Seq<(Option<Seq<char>>, Seq<char>)>,
    event_type: Seq<char>,
    content: JsonView,
)
    requires
        keys.no_duplicates(),
    ensures
        global_entries(state, user, keys).contains((event_type, content)) <==> keys.contains(
            (None, event_type),
        ) && held(state, user, None, event_type) == Some(content),
        forall|i: int|
            0 <= i < global_entries(state, user, keys).len() ==> keys.contains(
                (None, (#[trigger] global_entries(state, user, keys)[i]).0),
            ),
        forall|i: int, j: int|
            0 <= i < j < global_entries(state, user, keys).len() ==> (
            #[trigger] global_entries(state, user, keys)[i]).0 != (#[trigger] global_entries(
                state,
                user,
                keys,
            )[j]).0,
    decreases keys.len(),
{
    if keys.len() > 0 {
        let rest = keys.drop_last();
        let front = global_entries(state, user, rest);
        let all = global_entries(state, user, keys);
        assert(rest.no_duplicates());
        lemma_global_entries(state, user, rest, event_type, content);
        assert(keys[keys.len() - 1] == keys.last());
        assert forall|i: int| 0 <= i < all.len() implies keys.contains((None, (#[trigger] all[i]).0)) by {
            if i < front.len() {
                assert(all[i] == front[i]);
                let k: (Option<Seq<char>>, Seq<char>) = (None, front[i].0);
                assert(rest.contains(k));
                assert(keys[rest.index_of(k)] == k);
            }
        }
        assert forall|i: int, j: int| 0 <= i < j < all.len() implies (#[trigger] all[i]).0 != (
        #[trigger] all[j]).0 by {
            assert(all[i] == front[i]);
            if j < front.len() {
                assert(all[j] == front[j]);
            } else {
                let k: (Option<Seq<char>>, Seq<char>) = (None, front[i].0);
                assert(rest.contains(k));
                let p = rest.index_of(k);
                assert(keys[p] == k);
                assert(keys[p] != keys[keys.len() - 1]);
            }
        }
        let key: (Option<Seq<char>>, Seq<char>) = (None, event_type);
        if all.contains((event_type, content)) {
            let i = all.index_of((event_type, content));
            if i < front.len() {
                assert(front[i] == (event_type, content));
                assert(keys[rest.index_of(key)] == key);
            }
        }
        if keys.contains(key) && held(state, user, None, event_type) == Some(content) {
            let p = keys.index_of(key);
            if p < rest.len() {
                assert(rest[p] == key);
                assert(all[front.index_of((event_type, content))] == (event_type, content));
            } else {
                assert(all[front.len() as int] == (event_type, content));
            }
        }
    }
}

proof fn lemma_room_entries(
    state: AccountView,
    user: Seq<char>,
    keys: Seq<(Option<Seq<char>>, Seq<char>)>,
    wanted: Seq<char>,
    event_type: Seq<char>,
    content: JsonView,
)
    requires
        keys.no_duplicates(),
    ensures
        room_entries(state, user, keys, wanted).contains((event_type, content)) <==> keys.contains(
            (Some(wanted), event_type),
        ) && held(state, user, Some(wanted), event_type) == Some(content),
        forall|i: int|
            0 <= i < room_entries(state, user, keys, wanted).len() ==> keys.contains(
                (Some(wanted), (#[trigger] room_entries(state, user, keys, wanted)[i]).0),
            ),
        forall|i: int, j: int|
            0 <= i < j < room_entries(state, user, keys, wanted).len() ==> (
            #[trigger] room_entries(state, user, keys, wanted)[i]).0 != (#[trigger] room_entries(
                state,
                user,
                keys,
                wanted,
            )[j]).0,
    decreases keys.len(),
{
    if keys.len() > 0 {
        let rest = keys.drop_last();
        let front = room_entries(state, user, rest, wanted);
        let all = room_entries(state, user, keys, wanted);
        assert(rest.no_duplicates());
        lemma_room_entries(state, user, rest, wanted, event_type, content);
        assert(keys[keys.len() - 1] == keys.last());
        assert forall|i: int| 0 <= i < all.len() implies keys.contains(
            (Some(wanted), (#[trigger] all[i]).0),
        ) by {
            if i < front.len() {
                assert(all[i] == front[i]);
                let k = (Some(wanted), front[i].0);
                assert(rest.contains(k));
                assert(keys[rest.index_of(k)] == k);
            }
        }
        assert forall|i: int, j: int| 0 <= i < j < all.len() implies (#[trigger] all[i]).0 != (
        #[trigger] all[j]).0 by {
            assert(all[i] == front[i]);
            if j < front.len() {
                assert(all[j] == front[j]);
            } else {
                let k = (Some(wanted), front[i].0);
                assert(rest.contains(k));
                let p = rest.index_of(k);
                assert(keys[p] == k);
                assert(keys[p] != keys[keys.len() - 1]);
            }
        }
        let key = (Some(wanted), event_type);
        if all.contains((event_type, content)) {
            let i = all.index_of((event_type, content));
            if i < front.len() {
                assert(front[i] == (event_type, content));
                assert(keys[rest.index_of(key)] == key);
            }
        }
        if keys.contains(key) && held(state, user, Some(wanted), event_type) == Some(content) {
            let p = keys.index_of(key);
            if p < rest.len() {
                assert(rest[p] == key);
                assert(all[front.index_of((event_type, content))] == (event_type, content));
            } else {
                assert(all[front.len() as int] == (event_type, content));
            }
        }
    }
}

/// Who asks from a stamp on is told of an entry of theirs exactly when it was written after that
/// stamp, with what is held for it now, and each entry once.
pub proof fn law_later_syncs_tell_what_was_written(
    state: AccountView,
    user: Seq<char>,
    since: int,
    room: Seq<char>,
    event_type: Seq<char>,
    content: JsonView,
    i: int,
    j: int,
)
    requires
        stamped(state.changes, state.version),
        since > 0,
    ensures
        ({
            let whole = sync_global(state, user, since);
            let local = sync_room(state, user, since, room);
            &&& whole.contains((event_type, content)) <==> state.global.contains_key(user)
                && state.global[user].contains_key(event_type) && state.global[user][event_type]
                == content && exists|k: int|
                0 <= k < state.changes.len() && since < (#[trigger] state.changes[k]).stamp
                    && state.changes[k].user == user && state.changes[k].room is None
                    && state.changes[k].event_type == event_type
            &&& local.contains((event_type, content)) <==> state.rooms.contains_key((user, room))
                && state.rooms[(user, room)].contains_key(event_type)
                && state.rooms[(user, room)][event_type] == content && exists|k: int|
                0 <= k < state.changes.len() && since < (#[trigger] state.changes[k]).stamp
                    && state.changes[k].user == user && state.changes[k].room == Some(room)
                    && state.changes[k].event_type == event_type
            &&& 0 <= i < j < whole.len() ==> whole[i].0 != whole[j].0
            &&& 0 <= i < j < local.len() ==> local[i].0 != local[j].0
        }),
{
    let keys = written_since(state.changes, user, since, seq![]);
    law_changes_are_reported_once(state, user, since, (None, event_type));
    law_changes_are_reported_once(state, user, since, (Some(room), event_type));
    lemma_global_entries(state, user, keys, event_type, content);
    lemma_room_entries(state, user, keys, room, event_type, content);
    if exists|k: int|
        0 <= k < state.changes.len() && since < (#[trigger] state.changes[k]).stamp
            && state.changes[k].user == user && state.changes[k].room is None
            && state.changes[k].event_type == event_type {
        let k = choose|k: int|
            0 <= k < state.changes.len() && since < (#[trigger] state.changes[k]).stamp
                && state.changes[k].user == user && state.changes[k].room is None
                && state.changes[k].event_type == event_type;
        assert((state.changes[k].room, state.changes[k].event_type) == (
            None::<Seq<char>>,
            event_type,
        ));
    }
    if exists|k: int|
        0 <= k < state.changes.len() && since < (#[trigger] state.changes[k]).stamp
            && state.changes[k].user == user && state.changes[k].room == Some(room)
            && state.changes[k].event_type == event_type {
        let k = choose|k: int|
            0 <= k < state.changes.len() && since < (#[trigger] state.changes[k]).stamp
                && state.changes[k].user == user && state.changes[k].room == Some(room)
                && state.changes[k].event_type == event_type;
        assert((state.changes[k].room, state.changes[k].event_type) == (Some(room), event_type));
    }
}

/// Stamps rise with every write, and none is past the number of writes.
pub proof fn law_stamps_rise(
    state: AccountView,
    user: Seq<char>,
    room: Option<Seq<char>>,
    event_type: Seq<char>,
    content: JsonView,
    i: int,
    j: int,
)
    requires
        stamped(state.changes, state.version),
        0 <= state.version,
    ensures
        ({
            let after = with_write(state, user, room, event_type, content);
            &&& stamped(after.changes, after.version)
            &&& 0 <= i < j < state.changes.len() ==> state.changes[i].stamp < state.changes[j].stamp
            &&& 0 <= i < state.changes.len() ==> 0 < state.changes[i].stamp <= state.version
        }),
{
}

/// What a sync lists for a room is the list that stands under the room.
pub proof fn law_rooms_list_their_entries(
    m: Map<Seq<char>, Vec<(String, Json)>>,
    room: Seq<char>,
    i: int,
)
    ensures
        !m.contains_key(room) ==> entries_of(m, room).len() == 0,
        m.contains_key(room) ==> entries_of(m, room).len() == m[room]@.len(),
        m.contains_key(room) && 0 <= i < m[room]@.len() ==> entries_of(m, room)[i] == (
            m[room]@[i].0@,
            m[room]@[i].1@,
        ),
{
}

} // verus!
