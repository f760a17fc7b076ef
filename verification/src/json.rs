//! JSON values and objects.
use crate::strmap;
use crate::strmap::StrMap;
use vstd::prelude::*;

verus! {

/// `serde_json::Number`, carried as it came.
#[verifier::external_type_specification]
#[verifier::external_body]
pub struct ExNumber(serde_json::Number);

/// The integer that a number holds; a number held as a floating-point value has none.
pub uninterp spec fn number_value(n: serde_json::Number) -> Option<int>;

/// `serde_json::Number::as_u64`: the integer, when the number holds one that is at least zero.
/// No number holds an integer above `u64::MAX`.
pub assume_specification[ serde_json::Number::as_u64 ](n: &serde_json::Number) -> (r: Option<u64>)
    ensures
        r matches Some(k) ==> number_value(*n) == Some(k as int),
        r is None ==> match number_value(*n) {
            Some(k) => k < 0,
            None => true,
        },
;

/// `serde_json::Number::is_i64`: whether the number holds an integer between `i64::MIN` and
/// `i64::MAX`.
pub assume_specification[ serde_json::Number::is_i64 ](n: &serde_json::Number) -> (r: bool)
    ensures
        r <==> match number_value(*n) {
            Some(k) => i64::MIN <= k <= i64::MAX,
            None => false,
        },
;

/// `<serde_json::Number as From<u64>>::from`: the number that holds `n`.
#[verifier::external_body]
fn number_from(n: u64) -> (r: serde_json::Number)
    ensures
        number_value(r) == Some(n as int),
{
    serde_json::Number::from(n)
}

/// `serde_json::Number::clone`, a derived `Clone` that copies the one field.
#[verifier::external_body]
pub(crate) fn copy_number(n: &serde_json::Number) -> (copy: serde_json::Number)
    ensures
        copy == *n,
{
    n.clone()
}

/// What a number is: an integer, or another number as it came.
pub open spec fn number_view(n: serde_json::Number) -> JsonView {
    match number_value(n) {
        Some(k) => JsonView::Int(k),
        None => JsonView::Float(n),
    }
}

/// A JSON value.
pub enum Json {
    Null,
    Bool(bool),
    Number(serde_json::Number),
    Text(String),
    Array(Vec<Json>),
    Object(JsonObject),
}

/// A JSON object: a map from strings to values.
pub struct JsonObject {
    pub(crate) map: StrMap<Json>,
}

/// A JSON value as mathematics: an integer is a number, an object a finite map.
#[verifier::ext_equal]
pub enum JsonView {
    Null,
    Bool(bool),
    Int(int),
    Float(serde_json::Number),
    Text(Seq<char>),
    Array(Seq<JsonView>),
    Object(Map<Seq<char>, JsonView>),
}

impl JsonView {
    /// What stands under `key`, when this is an object that holds it.
    pub open spec fn field(self, key: Seq<char>) -> Option<JsonView> {
        match self {
            JsonView::Object(m) => lookup(m, key),
            _ => None,
        }
    }

    /// The characters, when this is a string.
    pub open spec fn text(self) -> Option<Seq<char>> {
        match self {
            JsonView::Text(s) => Some(s),
            _ => None,
        }
    }

    /// The number, when this is an integer.
    pub open spec fn integer(self) -> Option<int> {
        match self {
            JsonView::Int(n) => Some(n),
            _ => None,
        }
    }
}

/// What a map holds for a key.
pub open spec fn lookup<V>(m: Map<Seq<char>, V>, key: Seq<char>) -> Option<V> {
    if m.contains_key(key) {
        Some(m[key])
    } else {
        None
    }
}

/// The string that an object holds under `key`.
pub open spec fn text_field(m: Map<Seq<char>, JsonView>, key: Seq<char>) -> Option<Seq<char>> {
    match lookup(m, key) {
        Some(v) => v.text(),
        None => None,
    }
}

/// The values of a list, as mathematics.
pub open spec fn array_view(items: Seq<Json>) -> Seq<JsonView> {
    Seq::new(items.len(), |i: int| items[i].view())
}

/// The contents of a map of values, as mathematics.
pub open spec fn object_view(m: Map<Seq<char>, Json>) -> Map<Seq<char>, JsonView> {
    Map::new(|k: Seq<char>| m.contains_key(k), |k: Seq<char>| m[k].view())
}

impl View for JsonObject {
    type V = Map<Seq<char>, JsonView>;

    closed spec fn view(&self) -> Map<Seq<char>, JsonView> {
        object_view(self.map@)
    }
}

impl Json {
    /// The value as mathematics.
    pub closed spec fn view(self) -> JsonView
        decreases self,
    {
        match self {
            Json::Null => JsonView::Null,
            Json::Bool(b) => JsonView::Bool(b),
            Json::Number(n) => number_view(n),
            Json::Text(s) => JsonView::Text(s@),
            Json::Array(items) => JsonView::Array(
                Seq::new(
                    items@.len(),
                    |i: int|
                        if 0 <= i < items@.len() {
                            items@[i].view()
                        } else {
                            JsonView::Null
                        },
                ),
            ),
            Json::Object(m) => JsonView::Object(
                Map::new(
                    |k: Seq<char>| strmap::keys_of(m.map.entries@).contains(k),
                    |k: Seq<char>|
                        {
                            let i = strmap::keys_of(m.map.entries@).index_of(k);
                            if 0 <= i < m.map.entries@.len() {
                                m.map.entries@[i].1.view()
                            } else {
                                JsonView::Null
                            }
                        },
                ),
            ),
        }
    }

    /// What the view says of each kind of value.
    pub proof fn lemma_view(self)
        ensures
            self is Null ==> self.view() == JsonView::Null,
            self matches Json::Bool(b) ==> self.view() == JsonView::Bool(b),
            self matches Json::Number(n) ==> self.view() == number_view(n),
            self matches Json::Text(s) ==> self.view() == JsonView::Text(s@),
            self matches Json::Array(items) ==> self.view() == JsonView::Array(array_view(items@)),
            self matches Json::Object(m) ==> self.view() == JsonView::Object(m@),
    {
        match self {
            Json::Array(items) => {
                let v = self.view()->Array_0;
                assert(v =~= array_view(items@));
            },
            Json::Object(m) => {
                m.map.lemma_view();
                let v = self.view()->Object_0;
                let w = m@;
                let keys = strmap::keys_of(m.map.entries@);
                assert forall|k: Seq<char>| v.contains_key(k) implies w.contains_key(k) && v[k] == w[k] by {
                    let i = keys.index_of(k);
                    assert(keys.contains(k));
                }
                assert(v =~= w);
            },
            _ => {},
        }
    }

    /// The string value `s`.
    pub fn text(s: String) -> (v: Json)
        ensures
            v@ == JsonView::Text(s@),
    {
        let v = Json::Text(s);
        proof {
            v.lemma_view();
        }
        v
    }

    /// The number `n`.
    pub fn unsigned(n: u64) -> (v: Json)
        ensures
            v@ == JsonView::Int(n as int),
    {
        let v = Json::Number(number_from(n));
        proof {
            v.lemma_view();
        }
        v
    }

    /// The truth value `b`.
    pub fn boolean(b: bool) -> (v: Json)
        ensures
            v@ == JsonView::Bool(b),
    {
        let v = Json::Bool(b);
        proof {
            v.lemma_view();
        }
        v
    }

    /// The list of `items`.
    pub fn array(items: Vec<Json>) -> (v: Json)
        ensures
            v@ == JsonView::Array(array_view(items@)),
    {
        let v = Json::Array(items);
        proof {
            v.lemma_view();
        }
        v
    }

    /// The object `m`.
    pub fn object(m: JsonObject) -> (v: Json)
        ensures
            v@ == JsonView::Object(m@),
    {
        let v = Json::Object(m);
        proof {
            v.lemma_view();
        }
        v
    }

    /// The string, when this is one.
    pub fn as_str(&self) -> (s: Option<&str>)
        ensures
            s is Some == self@.text() is Some,
            s matches Some(t) ==> self@.text() == Some(t@),
    {
        proof {
            self.lemma_view();
        }
        match self {
            Json::Text(s) => Some(s.as_str()),
            _ => None,
        }
    }

    /// The number, when this is an integer of at least zero.
    pub fn as_u64(&self) -> (n: Option<u64>)
        ensures
            n is Some <==> self@ is Int && 0 <= self@->Int_0 <= u64::MAX,
            n matches Some(k) ==> self@ == JsonView::Int(k as int),
    {
        proof {
            self.lemma_view();
        }
        match self {
            Json::Number(n) => n.as_u64(),
            _ => None,
        }
    }

    /// Whether this is an integer that fits in 64 bits with a sign.
    pub fn is_i64(&self) -> (yes: bool)
        ensures
            yes <==> self@ is Int && i64::MIN <= self@->Int_0 <= i64::MAX,
    {
        proof {
            self.lemma_view();
        }
        match self {
            Json::Number(n) => n.is_i64(),
            _ => false,
        }
    }

    /// The truth value, when this is one.
    pub fn as_bool(&self) -> (b: Option<bool>)
        ensures
            b is Some == self@ is Bool,
            b matches Some(x) ==> self@ == JsonView::Bool(x),
    {
        proof {
            self.lemma_view();
        }
        match self {
            Json::Bool(b) => Some(*b),
            _ => None,
        }
    }

    /// The values, when this is a list.
    pub fn as_array(&self) -> (items: Option<&Vec<Json>>)
        ensures
            items is Some == self@ is Array,
            items matches Some(v) ==> self@ == JsonView::Array(array_view(v@)),
    {
        proof {
            self.lemma_view();
        }
        match self {
            Json::Array(items) => Some(items),
            _ => None,
        }
    }

    /// The contents, when this is an object.
    pub fn as_object(&self) -> (m: Option<&JsonObject>)
        ensures
            m is Some == self@ is Object,
            m matches Some(o) ==> self@ == JsonView::Object(o@),
    {
        proof {
            self.lemma_view();
        }
        match self {
            Json::Object(m) => Some(m),
            _ => None,
        }
    }

    /// The contents, when this is an object, taken out of it.
    pub fn into_object(self) -> (m: Option<JsonObject>)
        ensures
            m is Some == self@ is Object,
            m matches Some(o) ==> self@ == JsonView::Object(o@),
    {
        proof {
            self.lemma_view();
        }
        match self {
            Json::Object(m) => Some(m),
            _ => None,
        }
    }

    /// What stands under `key`, when this is an object that holds it.
    pub fn get(&self, key: &str) -> (v: Option<&Json>)
        ensures
            v is Some == self@.field(key@) is Some,
            v matches Some(x) ==> self@.field(key@) == Some(x@),
    {
        match self.as_object() {
            Some(m) => m.get(key),
            None => None,
        }
    }

    /// An equal value.
    pub fn duplicate(&self) -> (v: Json)
        ensures
            v@ == self@,
        decreases self,
    {
        proof {
            self.lemma_view();
        }
        let v: Json = match self {
            Json::Null => Json::Null,
            Json::Bool(b) => Json::Bool(*b),
            Json::Number(n) => Json::Number(copy_number(n)),
            Json::Text(s) => Json::Text(s.clone()),
            Json::Array(items) => {
                let mut copy: Vec<Json> = Vec::new();
                let mut i: usize = 0;
                while i < items.len()
                    invariant
                        i <= items@.len(),
                        copy@.len() == i,
                        forall|j: int| 0 <= j < i ==> #[trigger] copy@[j]@ == items@[j]@,
                        self matches Json::Array(v) && v == *items,
                    decreases items.len() - i,
                {
                    assert(decreases_to!(self => items));
                    assert(decreases_to!(items => items@));
                    assert(decreases_to!(items@ => items@[i as int]));
                    copy.push(items[i].duplicate());
                    i = i + 1;
                }
                assert(array_view(copy@) =~= array_view(items@));
                Json::Array(copy)
            },
            Json::Object(m) => {
                let mut copy: JsonObject = JsonObject::new();
                let n: usize = m.len();
                let mut i: usize = 0;
                while i < n
                    invariant
                        i <= n,
                        n == m.keys().len(),
                        m.keys().to_set() == m@.dom(),
                        m.keys().no_duplicates(),
                        forall|k: Seq<char>|
                            #[trigger] copy@.contains_key(k) <==> m.keys().take(i as int).contains(k),
                        forall|k: Seq<char>| copy@.contains_key(k) ==> copy@[k] == m@[k],
                        self matches Json::Object(v) && v == *m,
                    decreases n - i,
                {
                    proof {
                        m.lemma_entry(i as int);
                    }
                    let ghost key = m.keys()[i as int];
                    assert(decreases_to!(self => m));
                    assert(decreases_to!(m => m.map));
                    assert(decreases_to!(m.map => m.map.entries));
                    assert(decreases_to!(m.map.entries => m.map.entries@));
                    assert(decreases_to!(m.map.entries@ => m.map.entries@[i as int]));
                    assert(decreases_to!(m.map.entries@[i as int] => m.map.entries@[i as int].1));
                    let ghost before = copy@;
                    copy.insert(m.key_at(i).clone(), m.map.entries[i].1.duplicate());
                    proof {
                        assert(m.keys().take(i + 1) =~= m.keys().take(i as int).push(key));
                        assert forall|k: Seq<char>| #[trigger]
                            copy@.contains_key(k) <==> m.keys().take(i + 1).contains(k) by {
                            let t = m.keys().take(i as int);
                            if t.push(key).contains(k) && k != key {
                                let p = t.push(key).index_of(k);
                                assert(t[p] == k);
                            }
                            if t.contains(k) {
                                assert(t.push(key)[t.index_of(k)] == k);
                            }
                            assert(t.push(key)[t.len() as int] == key);
                        }
                    }
                    i = i + 1;
                }
                proof {
                    assert(m.keys().take(n as int) =~= m.keys());
                    assert forall|k: Seq<char>| copy@.contains_key(k) == m@.contains_key(k) by {
                        assert(m.keys().to_set().contains(k) == m.keys().contains(k));
                    }
                    assert(copy@ =~= m@);
                }
                Json::Object(copy)
            },
        };
        proof {
            v.lemma_view();
        }
        v
    }
}

impl JsonObject {
    /// The keys, in order.
    pub closed spec fn keys(&self) -> Seq<Seq<char>> {
        self.map.keys()
    }

    pub(crate) proof fn lemma_entry(&self, i: int)
        requires
            0 <= i < self.keys().len(),
            self.keys().no_duplicates(),
        ensures
            self.map.entries@.len() == self.keys().len(),
            self@.contains_key(self.keys()[i]),
            self@[self.keys()[i]] == self.map.entries@[i].1@,
    {
        self.map.lemma_view();
        let key = self.keys()[i];
        assert(self.keys().contains(key));
        assert(self.keys().index_of(key) == i);
    }

    /// An object that holds nothing.
    pub fn new() -> (m: Self)
        ensures
            m@ == Map::<Seq<char>, JsonView>::empty(),
    {
        let m = JsonObject { map: StrMap::new() };
        assert(m@ =~= Map::<Seq<char>, JsonView>::empty());
        m
    }

    /// How many keys the object holds.
    pub fn len(&self) -> (n: usize)
        ensures
            n == self.keys().len(),
            n == self@.len(),
            self.keys() == strmap::sorted_keys(self@.dom()),
            self.keys().to_set() == self@.dom(),
            self.keys().no_duplicates(),
            self@.dom().finite(),
    {
        assert(self@.dom() =~= self.map@.dom());
        self.map.len()
    }

    /// Whether the object holds `key`.
    pub fn contains_key(&self, key: &str) -> (held: bool)
        ensures
            held == self@.contains_key(key@),
    {
        self.map.contains_key(key)
    }

    /// What the object holds for `key`.
    pub fn get(&self, key: &str) -> (v: Option<&Json>)
        ensures
            v is Some == self@.contains_key(key@),
            v matches Some(x) ==> self@[key@] == x@,
            v matches Some(x) ==> lookup(self@, key@) == Some(x@),
            v is None ==> lookup(self@, key@) == None::<JsonView>,
    {
        self.map.get(key)
    }

    /// The string that the object holds for `key`.
    pub fn get_str(&self, key: &str) -> (v: Option<&str>)
        ensures
            v is Some == text_field(self@, key@) is Some,
            v matches Some(x) ==> text_field(self@, key@) == Some(x@),
    {
        match self.get(key) {
            Some(v) => v.as_str(),
            None => None,
        }
    }

    /// Writes `value` for `key`, in place of what was there.
    pub fn insert(&mut self, key: String, value: Json)
        ensures
            final(self)@ == old(self)@.insert(key@, value@),
    {
        self.map.insert(key, value);
        assert(self@ =~= old(self)@.insert(key@, value@));
    }

    /// Takes out what is there for `key`.
    pub fn remove(&mut self, key: &str) -> (value: Option<Json>)
        ensures
            final(self)@ == old(self)@.remove(key@),
            value is Some == old(self)@.contains_key(key@),
            value matches Some(v) ==> v@ == old(self)@[key@],
    {
        let value: Option<Json> = self.map.remove(key);
        assert(self@ =~= old(self)@.remove(key@));
        value
    }

    /// The key in the given place of the order of keys.
    pub fn key_at(&self, i: usize) -> (key: &String)
        requires
            i < self.keys().len(),
        ensures
            key@ == self.keys()[i as int],
            self@.contains_key(key@),
    {
        self.map.key_at(i)
    }

    /// What the object holds for the key in the given place.
    pub fn value_at(&self, i: usize) -> (value: &Json)
        requires
            i < self.keys().len(),
        ensures
            value@ == self@[self.keys()[i as int]],
            self@.contains_key(self.keys()[i as int]),
    {
        self.map.value_at(i)
    }

    /// An equal object.
    pub fn duplicate(&self) -> (m: JsonObject)
        ensures
            m@ == self@,
    {
        let mut copy: JsonObject = JsonObject::new();
        let n: usize = self.len();
        let mut i: usize = 0;
        while i < n
            invariant
                i <= n,
                n == self.keys().len(),
                self.keys().to_set() == self@.dom(),
                self.keys().no_duplicates(),
                copy@ == self@.restrict(self.keys().take(i as int).to_set()),
            decreases n - i,
        {
            let ghost t = self.keys().take(i as int);
            let ghost key = self.keys()[i as int];
            copy.insert(self.key_at(i).clone(), self.value_at(i).duplicate());
            proof {
                lemma_take_push(self.keys(), i as int);
                assert(copy@ =~= self@.restrict(self.keys().take(i + 1).to_set()));
            }
            i = i + 1;
        }
        assert(self.keys().take(n as int) =~= self.keys());
        assert(copy@ =~= self@);
        copy
    }
}

/// The members of a longer prefix are those of the shorter one and the next item.
pub proof fn lemma_take_push<T>(s: Seq<T>, i: int)
    requires
        0 <= i < s.len(),
    ensures
        s.take(i + 1) == s.take(i).push(s[i]),
        s.take(i + 1).to_set() == s.take(i).to_set().insert(s[i]),
{
    let t = s.take(i);
    assert(s.take(i + 1) =~= t.push(s[i]));
    assert forall|k: T| s.take(i + 1).to_set().contains(k) <==> t.to_set().insert(s[i]).contains(k) by {
        if t.push(s[i]).contains(k) && k != s[i] {
            let p = t.push(s[i]).index_of(k);
            assert(t[p] == k);
        }
        if t.contains(k) {
            assert(t.push(s[i])[t.index_of(k)] == k);
        }
        assert(t.push(s[i])[t.len() as int] == s[i]);
    }
    assert(s.take(i + 1).to_set() =~= t.to_set().insert(s[i]));
}

} // verus!
