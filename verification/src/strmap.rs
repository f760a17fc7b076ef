//! A map and a set with string keys, walked in the order of the keys. The collections of std can
//! be held here too, but for string keys nothing can be proved of what they hold, as their order
//! and their hashes have no specification.
use crate::lists;
use crate::text;
use vstd::prelude::*;

verus! {

/// Whether the keys come in strictly increasing order.
pub open spec fn ascending(keys: Seq<Seq<char>>) -> bool {
    forall|i: int, j: int| 0 <= i < j < keys.len() ==> text::precedes(#[trigger] keys[i], #[trigger] keys[j])
}

/// The members of a set of strings, in order.
pub open spec fn sorted_keys(dom: Set<Seq<char>>) -> Seq<Seq<char>> {
    choose|keys: Seq<Seq<char>>| ascending(keys) && #[trigger] keys.to_set() == dom
}

/// An ascending sequence is determined by its members.
pub proof fn lemma_ascending_unique(a: Seq<Seq<char>>, b: Seq<Seq<char>>)
    requires
        ascending(a),
        ascending(b),
        a.to_set() == b.to_set(),
    ensures
        a == b,
    decreases a.len(),
{
    if a.len() == 0 {
        if b.len() > 0 {
            assert(b.to_set().contains(b[0]));
            assert(a.to_set().contains(b[0]));
        }
        assert(a =~= b);
    } else {
        assert(a.to_set().contains(a.last()));
        assert(b.to_set().contains(a.last()));
        assert(b.contains(a.last()));
        assert(b.to_set().contains(b.last()));
        assert(a.contains(b.last()));
        let i = a.index_of(b.last());
        let j = b.index_of(a.last());
        if a.last() != b.last() {
            assert(text::precedes(a[i], a.last()));
            assert(text::precedes(b[j], b.last()));
            text::lemma_precedes_transitive(a.last(), b.last(), a.last());
            text::lemma_precedes_irreflexive(a.last());
        }
        let x = a.drop_last();
        let y = b.drop_last();
        assert forall|k: Seq<char>| x.to_set().contains(k) == y.to_set().contains(k) by {
            if x.contains(k) {
                let p = x.index_of(k);
                assert(a[p] == k);
                assert(text::precedes(a[p], a.last()));
                text::lemma_precedes_irreflexive(k);
                assert(a.to_set().contains(k));
                assert(b.contains(k));
                let q = b.index_of(k);
                assert(b[q] == k);
                assert(q < y.len());
                assert(y[q] == k);
            }
            if y.contains(k) {
                let p = y.index_of(k);
                assert(b[p] == k);
                assert(text::precedes(b[p], b.last()));
                text::lemma_precedes_irreflexive(k);
                assert(b.to_set().contains(k));
                assert(a.contains(k));
                let q = a.index_of(k);
                assert(a[q] == k);
                assert(q < x.len());
                assert(x[q] == k);
            }
        }
        assert(x.to_set() =~= y.to_set());
        lemma_ascending_unique(x, y);
        assert(a =~= x.push(a.last()));
        assert(b =~= y.push(b.last()));
    }
}

/// The sorted keys of a set are the ascending sequence of its members.
pub proof fn lemma_sorted_keys(keys: Seq<Seq<char>>)
    requires
        ascending(keys),
    ensures
        sorted_keys(keys.to_set()) == keys,
{
    let other = sorted_keys(keys.to_set());
    assert(ascending(other) && other.to_set() == keys.to_set());
    lemma_ascending_unique(keys, other);
}

/// An ascending sequence holds nothing twice.
pub proof fn lemma_ascending_distinct(keys: Seq<Seq<char>>)
    requires
        ascending(keys),
    ensures
        keys.no_duplicates(),
{
    assert forall|i: int, j: int| 0 <= i < keys.len() && 0 <= j < keys.len() && i != j implies keys[i]
        != keys[j] by {
        if i < j {
            assert(text::precedes(keys[i], keys[j]));
        } else {
            assert(text::precedes(keys[j], keys[i]));
        }
        text::lemma_precedes_irreflexive(keys[i]);
    }
}

/// The members of a finite set can be put in order.
pub proof fn lemma_sorted(dom: Set<Seq<char>>)
    requires
        dom.finite(),
    ensures
        ascending(sorted_keys(dom)),
        sorted_keys(dom).to_set() == dom,
        sorted_keys(dom).no_duplicates(),
    decreases dom.len(),
{
    let keys = lemma_order(dom);
    lemma_ascending_distinct(sorted_keys(dom));
}

proof fn lemma_order(dom: Set<Seq<char>>) -> (keys: Seq<Seq<char>>)
    requires
        dom.finite(),
    ensures
        ascending(keys),
        keys.to_set() == dom,
    decreases dom.len(),
{
    if dom.len() == 0 {
        let none = Seq::<Seq<char>>::empty();
        assert(none.to_set() =~= dom);
        none
    } else {
        let a = dom.choose();
        let rest = lemma_order(dom.remove(a));
        let behind = |k: Seq<char>| text::precedes(a, k);
        lists::lemma_first_where_bounds(rest, behind);
        let n = lists::first_where(rest, behind);
        let keys = rest.take(n).push(a) + rest.skip(n);
        assert forall|k: Seq<char>| keys.contains(k) <==> dom.contains(k) by {
            if keys.contains(k) {
                let i = keys.index_of(k);
                if i < n {
                    assert(rest.to_set().contains(rest[i]));
                } else if i > n {
                    assert(rest.to_set().contains(rest[i - 1]));
                }
            }
            if dom.contains(k) {
                if k == a {
                    assert(keys[n] == k);
                } else {
                    assert(rest.to_set().contains(k));
                    let i = rest.index_of(k);
                    if i < n {
                        assert(keys[i] == k);
                    } else {
                        assert(keys[i + 1] == k);
                    }
                }
            }
        }
        assert(keys.to_set() =~= dom);
        assert forall|i: int, j: int| 0 <= i < j < keys.len() implies text::precedes(
            #[trigger] keys[i],
            #[trigger] keys[j],
        ) by {
            assert forall|m: int| 0 <= m < n implies text::precedes(#[trigger] rest[m], a) by {
                assert(!behind(rest[m]));
                assert(rest.to_set().contains(rest[m]));
                if !text::precedes(rest[m], a) {
                    text::lemma_precedes_total(a, rest[m]);
                }
            }
            assert forall|m: int| n <= m < rest.len() implies text::precedes(a, #[trigger] rest[m]) by {
                if m > n {
                    text::lemma_precedes_transitive(a, rest[n], rest[m]);
                }
            }
            if j < n {
                assert(keys[i] == rest[i] && keys[j] == rest[j]);
            } else if j == n {
                assert(keys[i] == rest[i]);
            } else if i < n {
                assert(keys[i] == rest[i] && keys[j] == rest[j - 1]);
            } else if i == n {
                assert(keys[j] == rest[j - 1]);
            } else {
                assert(keys[i] == rest[i - 1] && keys[j] == rest[j - 1]);
            }
        }
        keys
    }
}

/// A map from strings to values of one type.
pub struct StrMap<V> {
    pub(crate) entries: Vec<(String, V)>,
}

/// The keys of a list of entries.
pub open spec fn keys_of<V>(entries: Seq<(String, V)>) -> Seq<Seq<char>> {
    Seq::new(entries.len(), |i: int| entries[i].0@)
}

/// The map that a list of entries stands for.
pub open spec fn map_of<V>(entries: Seq<(String, V)>) -> Map<Seq<char>, V> {
    Map::new(
        |k: Seq<char>| keys_of(entries).contains(k),
        |k: Seq<char>| entries[keys_of(entries).index_of(k)].1,
    )
}

impl<V> View for StrMap<V> {
    type V = Map<Seq<char>, V>;

    closed spec fn view(&self) -> Map<Seq<char>, V> {
        map_of(self.entries@)
    }
}

impl<V> StrMap<V> {
    #[verifier::type_invariant]
    pub(crate) closed spec fn sorted(&self) -> bool {
        ascending(keys_of(self.entries@))
    }

    /// The keys, in order.
    pub closed spec fn keys(&self) -> Seq<Seq<char>> {
        keys_of(self.entries@)
    }

    /// What the view and the keys are, over the entries.
    pub(crate) proof fn lemma_view(&self)
        ensures
            self@ == map_of(self.entries@),
            self.keys() == keys_of(self.entries@),
    {
    }

    /// A map that holds nothing.
    pub fn new() -> (m: Self)
        ensures
            m@ == Map::<Seq<char>, V>::empty(),
    {
        let m = StrMap { entries: Vec::new() };
        assert(m@ =~= Map::<Seq<char>, V>::empty());
        m
    }

    /// How many keys the map holds.
    pub fn len(&self) -> (n: usize)
        ensures
            n == self.keys().len(),
            n == self@.len(),
            self.keys() == sorted_keys(self@.dom()),
            self.keys().to_set() == self@.dom(),
            self.keys().no_duplicates(),
            self@.dom().finite(),
    {
        proof {
            use_type_invariant(self);
            lemma_entries(self.entries@);
        }
        self.entries.len()
    }

    /// Where `key` stands or would stand: everything before comes before it.
    fn seek(&self, key: &str) -> (found: (usize, bool))
        ensures
            found.0 <= self.entries@.len(),
            forall|j: int| 0 <= j < found.0 ==> text::precedes(#[trigger] self.entries@[j].0@, key@),
            found.1 ==> found.0 < self.entries@.len() && self.entries@[found.0 as int].0@ == key@,
            !found.1 ==> forall|j: int|
                found.0 <= j < self.entries@.len() ==> text::precedes(
                    key@,
                    #[trigger] self.entries@[j].0@,
                ),
    {
        proof {
            use_type_invariant(self);
        }
        let mut i: usize = 0;
        while i < self.entries.len()
            invariant
                i <= self.entries@.len(),
                self.sorted(),
                forall|j: int| 0 <= j < i ==> text::precedes(#[trigger] self.entries@[j].0@, key@),
            decreases self.entries.len() - i,
        {
            let here: &str = self.entries[i].0.as_str();
            if !text::str_lt(here, key) {
                let more: bool = text::str_lt(key, here);
                proof {
                    if more {
                        assert forall|j: int| i <= j < self.entries@.len() implies text::precedes(
                            key@,
                            #[trigger] self.entries@[j].0@,
                        ) by {
                            if j > i {
                                assert(text::precedes(
                                    keys_of(self.entries@)[i as int],
                                    keys_of(self.entries@)[j],
                                ));
                                text::lemma_precedes_transitive(key@, here@, self.entries@[j].0@);
                            }
                        }
                    } else {
                        text::lemma_precedes_total(key@, here@);
                    }
                }
                return (i, !more);
            }
            i = i + 1;
        }
        (i, false)
    }

    /// Whether the map holds `key`.
    pub fn contains_key(&self, key: &str) -> (held: bool)
        ensures
            held == self@.contains_key(key@),
    {
        let (at, found): (usize, bool) = self.seek(key);
        proof {
            use_type_invariant(self);
            lemma_found(self.entries@, key@, at as int, found);
        }
        found
    }

    /// What the map holds for `key`.
    pub fn get(&self, key: &str) -> (value: Option<&V>)
        ensures
            value is Some == self@.contains_key(key@),
            value matches Some(v) ==> *v == self@[key@],
    {
        let (at, found): (usize, bool) = self.seek(key);
        proof {
            use_type_invariant(self);
            lemma_found(self.entries@, key@, at as int, found);
        }
        if found {
            Some(&self.entries[at].1)
        } else {
            None
        }
    }

    /// Writes `value` for `key`, in place of what was there.
    pub fn insert(&mut self, key: String, value: V)
        ensures
            final(self)@ == old(self)@.insert(key@, value),
    {
        let (at, found): (usize, bool) = self.seek(key.as_str());
        let mut entries: Vec<(String, V)> = Vec::new();
        proof {
            use_type_invariant(&*self);
            lemma_found(self.entries@, key@, at as int, found);
            lemma_put(self.entries@, at as int, found, key, value);
        }
        std::mem::swap(&mut self.entries, &mut entries);
        if found {
            entries.remove(at);
        }
        entries.insert(at, (key, value));
        self.entries = entries;
    }

    /// Takes out what is there for `key`.
    pub fn remove(&mut self, key: &str) -> (value: Option<V>)
        ensures
            final(self)@ == old(self)@.remove(key@),
            value is Some == old(self)@.contains_key(key@),
            value matches Some(v) ==> v == old(self)@[key@],
    {
        let (at, found): (usize, bool) = self.seek(key);
        proof {
            use_type_invariant(&*self);
            lemma_found(self.entries@, key@, at as int, found);
        }
        if found {
            let mut entries: Vec<(String, V)> = Vec::new();
            proof {
                lemma_take(self.entries@, at as int);
            }
            std::mem::swap(&mut self.entries, &mut entries);
            let (_, value): (String, V) = entries.remove(at);
            self.entries = entries;
            Some(value)
        } else {
            assert(old(self)@ =~= old(self)@.remove(key@));
            None
        }
    }

    /// The key in the given place of the order of keys.
    pub fn key_at(&self, i: usize) -> (key: &String)
        requires
            i < self.keys().len(),
        ensures
            key@ == self.keys()[i as int],
            self@.contains_key(key@),
    {
        proof {
            assert(keys_of(self.entries@)[i as int] == self.entries@[i as int].0@);
        }
        &self.entries[i].0
    }

    /// What the map holds for the key in the given place.
    pub fn value_at(&self, i: usize) -> (value: &V)
        requires
            i < self.keys().len(),
        ensures
            *value == self@[self.keys()[i as int]],
            self@.contains_key(self.keys()[i as int]),
    {
        proof {
            use_type_invariant(self);
            lemma_entries(self.entries@);
        }
        &self.entries[i].1
    }
}

/// A set of strings, walked in order.
pub struct StrSet {
    map: StrMap<bool>,
}

impl View for StrSet {
    type V = Set<Seq<char>>;

    closed spec fn view(&self) -> Set<Seq<char>> {
        self.map@.dom()
    }
}

impl StrSet {
    /// The members, in order.
    pub closed spec fn members(&self) -> Seq<Seq<char>> {
        self.map.keys()
    }

    /// A set without members.
    pub fn new() -> (s: Self)
        ensures
            s@ == Set::<Seq<char>>::empty(),
    {
        let s = StrSet { map: StrMap::new() };
        assert(s@ =~= Set::<Seq<char>>::empty());
        s
    }

    /// Whether a string is a member.
    pub fn contains(&self, key: &str) -> (held: bool)
        ensures
            held == self@.contains(key@),
    {
        self.map.contains_key(key)
    }

    /// Puts a string in; says whether it was not in before.
    pub fn insert(&mut self, key: String) -> (new: bool)
        ensures
            final(self)@ == old(self)@.insert(key@),
            new == !old(self)@.contains(key@),
    {
        let new: bool = !self.map.contains_key(key.as_str());
        self.map.insert(key, true);
        assert(self@ =~= old(self)@.insert(key@));
        new
    }

    /// How many members there are.
    pub fn len(&self) -> (n: usize)
        ensures
            n == self.members().len(),
            self.members() == sorted_keys(self@),
            self.members().to_set() == self@,
            self.members().no_duplicates(),
    {
        self.map.len()
    }

    /// The member in the given place.
    pub fn at(&self, i: usize) -> (key: &String)
        requires
            i < self.members().len(),
        ensures
            key@ == self.members()[i as int],
            self@.contains(key@),
    {
        self.map.key_at(i)
    }

    /// The members, in order.
    pub fn to_vec(&self) -> (keys: Vec<String>)
        ensures
            Seq::new(keys@.len(), |i: int| keys@[i]@) == sorted_keys(self@),
    {
        let n: usize = self.len();
        let mut keys: Vec<String> = Vec::new();
        let mut i: usize = 0;
        while i < n
            invariant
                i <= n,
                n == self.members().len(),
                keys@.len() == i,
                forall|j: int| 0 <= j < i ==> (#[trigger] keys@[j])@ == self.members()[j],
            decreases n - i,
        {
            keys.push(self.at(i).clone());
            i = i + 1;
        }
        assert(Seq::new(keys@.len(), |i: int| keys@[i]@) =~= self.members());
        keys
    }
}

proof fn lemma_entries<V>(entries: Seq<(String, V)>)
    requires
        ascending(keys_of(entries)),
    ensures
        keys_of(entries).no_duplicates(),
        keys_of(entries).to_set() == map_of(entries).dom(),
        sorted_keys(map_of(entries).dom()) == keys_of(entries),
        map_of(entries).dom().finite(),
        map_of(entries).len() == entries.len(),
        forall|i: int|
            0 <= i < entries.len() ==> map_of(entries).contains_key(#[trigger] entries[i].0@) && map_of(
                entries,
            )[entries[i].0@] == entries[i].1,
        forall|i: int| 0 <= i < entries.len() ==> map_of(entries)[#[trigger] keys_of(entries)[i]] == entries[i].1,
{
    let keys = keys_of(entries);
    lemma_ascending_distinct(keys);
    assert(keys.to_set() =~= map_of(entries).dom());
    lemma_sorted_keys(keys);
    keys.unique_seq_to_set();
    vstd::seq_lib::seq_to_set_is_finite(keys);
    assert forall|i: int| 0 <= i < entries.len() implies map_of(entries).contains_key(
        #[trigger] entries[i].0@,
    ) && map_of(entries)[entries[i].0@] == entries[i].1 by {
        assert(keys[i] == entries[i].0@);
        assert(keys.contains(keys[i]));
        assert(keys.index_of(keys[i]) == i);
    }
    assert forall|i: int| 0 <= i < entries.len() implies map_of(entries)[#[trigger] keys[i]] == entries[i].1 by {
        assert(keys[i] == entries[i].0@);
    }
}

proof fn lemma_found<V>(entries: Seq<(String, V)>, key: Seq<char>, at: int, found: bool)
    requires
        ascending(keys_of(entries)),
        0 <= at <= entries.len(),
        forall|j: int| 0 <= j < at ==> text::precedes(#[trigger] entries[j].0@, key),
        found ==> at < entries.len() && entries[at].0@ == key,
        !found ==> forall|j: int| at <= j < entries.len() ==> text::precedes(key, #[trigger] entries[j].0@),
    ensures
        found == map_of(entries).contains_key(key),
        found ==> map_of(entries)[key] == entries[at].1,
{
    lemma_entries(entries);
    if found {
        assert(map_of(entries).contains_key(entries[at].0@));
    } else if map_of(entries).contains_key(key) {
        let i = keys_of(entries).index_of(key);
        assert(entries[i].0@ == key);
        text::lemma_precedes_irreflexive(key);
    }
}

proof fn lemma_put<V>(entries: Seq<(String, V)>, at: int, found: bool, key: String, value: V)
    requires
        ascending(keys_of(entries)),
        0 <= at <= entries.len(),
        forall|j: int| 0 <= j < at ==> text::precedes(#[trigger] entries[j].0@, key@),
        found ==> at < entries.len() && entries[at].0@ == key@,
        !found ==> forall|j: int| at <= j < entries.len() ==> text::precedes(key@, #[trigger] entries[j].0@),
    ensures
        ({
            let base = if found {
                entries.remove(at)
            } else {
                entries
            };
            let put = base.insert(at, (key, value));
            ascending(keys_of(put)) && map_of(put) == map_of(entries).insert(key@, value)
        }),
{
    let base = if found {
        entries.remove(at)
    } else {
        entries
    };
    let put = base.insert(at, (key, value));
    let shift: int = if found {
        0
    } else {
        1
    };
    assert forall|i: int| 0 <= i < put.len() && i != at implies #[trigger] put[i] == entries[if i < at {
        i
    } else {
        i - shift
    }] by {}
    assert forall|i: int, j: int| 0 <= i < j < put.len() implies text::precedes(
        #[trigger] keys_of(put)[i],
        #[trigger] keys_of(put)[j],
    ) by {
        let a = if i < at {
            i
        } else {
            i - shift
        };
        let b = if j < at {
            j
        } else {
            j - shift
        };
        if i != at && j != at {
            assert(text::precedes(keys_of(entries)[a], keys_of(entries)[b]));
        } else if i == at {
            if found {
                assert(text::precedes(keys_of(entries)[at], keys_of(entries)[b]));
            } else {
                assert(text::precedes(key@, entries[b].0@));
            }
        } else {
            assert(text::precedes(entries[a].0@, key@));
        }
    }
    lemma_entries(put);
    lemma_entries(entries);
    let m = map_of(put);
    let n = map_of(entries).insert(key@, value);
    assert forall|k: Seq<char>| m.contains_key(k) == n.contains_key(k) by {
        if m.contains_key(k) {
            let i = keys_of(put).index_of(k);
            assert(put[i].0@ == k);
            if i != at {
                let a = if i < at {
                    i
                } else {
                    i - shift
                };
                assert(entries[a].0@ == k);
            }
        }
        if n.contains_key(k) {
            if k == key@ {
                assert(put[at].0@ == k);
            } else {
                let a = keys_of(entries).index_of(k);
                assert(entries[a].0@ == k);
                let i = if a < at {
                    a
                } else {
                    a + shift
                };
                assert(put[i].0@ == k);
            }
        }
    }
    assert forall|k: Seq<char>| m.contains_key(k) implies m[k] == n[k] by {
        let i = keys_of(put).index_of(k);
        assert(put[i].0@ == k);
        if i == at {
            assert(k == key@);
        } else {
            let a = if i < at {
                i
            } else {
                i - shift
            };
            assert(entries[a].0@ == k);
            assert(k != key@) by {
                if i < at {
                    assert(text::precedes(keys_of(put)[i], keys_of(put)[at]));
                } else {
                    assert(text::precedes(keys_of(put)[at], keys_of(put)[i]));
                }
                text::lemma_precedes_irreflexive(k);
            }
        }
    }
    assert(m =~= n);
}

proof fn lemma_take<V>(entries: Seq<(String, V)>, at: int)
    requires
        ascending(keys_of(entries)),
        0 <= at < entries.len(),
    ensures
        ascending(keys_of(entries.remove(at))),
        map_of(entries.remove(at)) == map_of(entries).remove(entries[at].0@),
{
    let left = entries.remove(at);
    assert forall|i: int, j: int| 0 <= i < j < left.len() implies text::precedes(
        #[trigger] keys_of(left)[i],
        #[trigger] keys_of(left)[j],
    ) by {
        let a = if i < at {
            i
        } else {
            i + 1
        };
        let b = if j < at {
            j
        } else {
            j + 1
        };
        assert(text::precedes(keys_of(entries)[a], keys_of(entries)[b]));
    }
    lemma_entries(left);
    lemma_entries(entries);
    let m = map_of(left);
    let n = map_of(entries).remove(entries[at].0@);
    assert forall|k: Seq<char>| m.contains_key(k) == n.contains_key(k) by {
        if m.contains_key(k) {
            let i = keys_of(left).index_of(k);
            assert(left[i].0@ == k);
            let a = if i < at {
                i
            } else {
                i + 1
            };
            assert(entries[a].0@ == k);
            assert(keys_of(entries)[a] != keys_of(entries)[at]);
        }
        if n.contains_key(k) {
            let a = keys_of(entries).index_of(k);
            assert(entries[a].0@ == k);
            assert(a != at);
            let i = if a < at {
                a
            } else {
                a - 1
            };
            assert(left[i].0@ == k);
        }
    }
    assert forall|k: Seq<char>| m.contains_key(k) implies m[k] == n[k] by {
        let i = keys_of(left).index_of(k);
        assert(left[i].0@ == k);
        let a = if i < at {
            i
        } else {
            i + 1
        };
        assert(entries[a].0@ == k);
    }
    assert(m =~= n);
}

} // verus!
