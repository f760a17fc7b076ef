//! JSON text: parsing it into values and printing values as text.
use crate::json;
use crate::json::{Json, JsonObject, JsonView};
use vstd::prelude::*;

verus! {

/// `serde_json::Value`, taken apart and put together by the functions below.
#[verifier::external_type_specification]
#[verifier::external_body]
pub struct ExValue(serde_json::Value);

/// `serde_json::Error`, carried as it came.
#[verifier::external_type_specification]
#[verifier::external_body]
pub struct ExSerdeError(serde_json::Error);

/// What a `serde_json::Error` says of what was read, in words; `None` for a failure to read or
/// write, whose words are the system's.
pub uninterp spec fn error_words(e: serde_json::Error) -> Option<Seq<char>>;

/// `<serde_json::Error as ToString>::to_string`: what the error says. Nothing is claimed of the
/// words for a failure to read or write.
#[verifier::external_body]
pub(crate) fn error_text(e: &serde_json::Error) -> (text: String)
    ensures
        error_words(*e) matches Some(words) ==> text@ == words,
{
    e.to_string()
}

/// What a `serde_json::Value` holds.
pub uninterp spec fn value_view(v: serde_json::Value) -> JsonView;

/// What `serde_json` reads in a text; `None` when it refuses the text.
pub uninterp spec fn parsed_json(text: Seq<char>) -> Option<JsonView>;

/// The object that `serde_json` reads in a text; `None` when it refuses the text.
pub uninterp spec fn parsed_object(text: Seq<char>) -> Option<Map<Seq<char>, JsonView>>;

/// The text that `serde_json` prints for a value.
pub uninterp spec fn printed(v: JsonView) -> Seq<char>;

/// One level of a `serde_json::Value`.
pub enum ValueNode {
    Null,
    Bool(bool),
    Number(serde_json::Number),
    Text(String),
    Array(Vec<serde_json::Value>),
    Object(Vec<(String, serde_json::Value)>),
}

/// The keys of the entries of an object.
pub open spec fn entry_keys(entries: Seq<(String, serde_json::Value)>) -> Seq<Seq<char>> {
    Seq::new(entries.len(), |i: int| entries[i].0@)
}

impl ValueNode {
    /// What a value of this one level holds.
    pub open spec fn view(self) -> JsonView {
        match self {
            ValueNode::Null => JsonView::Null,
            ValueNode::Bool(b) => JsonView::Bool(b),
            ValueNode::Number(n) => json::number_view(n),
            ValueNode::Text(s) => JsonView::Text(s@),
            ValueNode::Array(items) => JsonView::Array(
                Seq::new(items@.len(), |i: int| value_view(items@[i])),
            ),
            ValueNode::Object(entries) => JsonView::Object(
                Map::new(
                    |k: Seq<char>| entry_keys(entries@).contains(k),
                    |k: Seq<char>| value_view(entries@[entry_keys(entries@).index_of(k)].1),
                ),
            ),
        }
    }

    /// No key stands twice.
    pub open spec fn distinct(self) -> bool {
        self matches ValueNode::Object(entries) ==> entry_keys(entries@).no_duplicates()
    }
}

/// Takes a `serde_json::Value` apart, one variant each. The entries of a `serde_json::Map` come
/// out by its `into_iter`, each key once.
#[verifier::external_body]
fn value_node(v: serde_json::Value) -> (node: ValueNode)
    ensures
        value_view(v) == node@,
        node.distinct(),
{
    match v {
        serde_json::Value::Null => ValueNode::Null,
        serde_json::Value::Bool(b) => ValueNode::Bool(b),
        serde_json::Value::Number(n) => ValueNode::Number(n),
        serde_json::Value::String(s) => ValueNode::Text(s),
        serde_json::Value::Array(items) => ValueNode::Array(items),
        serde_json::Value::Object(m) => ValueNode::Object(m.into_iter().collect()),
    }
}

/// Puts a `serde_json::Value` together, one variant each. A `serde_json::Map` is collected from
/// its entries.
#[verifier::external_body]
fn node_value(node: ValueNode) -> (v: serde_json::Value)
    requires
        node.distinct(),
    ensures
        value_view(v) == node@,
{
    match node {
        ValueNode::Null => serde_json::Value::Null,
        ValueNode::Bool(b) => serde_json::Value::Bool(b),
        ValueNode::Number(n) => serde_json::Value::Number(n),
        ValueNode::Text(s) => serde_json::Value::String(s),
        ValueNode::Array(items) => serde_json::Value::Array(items),
        ValueNode::Object(entries) => serde_json::Value::Object(entries.into_iter().collect()),
    }
}

/// `serde_json::from_str::<Value>`: reads one JSON value that takes up the whole text. A text is
/// never refused for a failure to read.
#[verifier::external_body]
fn value_from_str(text: &str) -> (r: Result<serde_json::Value, serde_json::Error>)
    ensures
        r is Ok == parsed_json(text@) is Some,
        r matches Ok(v) ==> parsed_json(text@) == Some(value_view(v)),
        r matches Err(e) ==> error_words(e) is Some,
{
    serde_json::from_str(text)
}

/// `serde_json::from_str::<Map<String, Value>>`: reads one JSON object that takes up the whole
/// text, and refuses every other value. A text is never refused for a failure to read.
#[verifier::external_body]
pub(crate) fn map_from_str(text: &str) -> (r: Result<serde_json::Value, serde_json::Error>)
    ensures
        r is Ok == parsed_object(text@) is Some,
        r matches Ok(v) ==> parsed_object(text@) matches Some(m) && value_view(v) == JsonView::Object(m),
        r matches Err(e) ==> error_words(e) is Some,
{
    let map: serde_json::Map<String, serde_json::Value> = serde_json::from_str(text)?;
    Ok(serde_json::Value::Object(map))
}

/// The range of the integers of canonical JSON.
pub const MAX_SAFE: i64 = 9007199254740991;

/// Whether canonical JSON has a form for a value: all its numbers are integers of at most 53 bits.
pub open spec fn canonical(v: JsonView) -> bool
    decreases v,
{
    match v {
        JsonView::Int(n) => -MAX_SAFE <= n <= MAX_SAFE,
        JsonView::Float(_) => false,
        JsonView::Array(items) => forall|i: int| 0 <= i < items.len() ==> canonical(items[i]),
        JsonView::Object(m) => m.dom().finite() && forall|k: Seq<char>| m.contains_key(k) ==> canonical(m[k]),
        _ => true,
    }
}

/// `serde_json::from_str::<ruma::CanonicalJsonValue>`: reads a JSON value as `value_from_str`
/// does and refuses one for which canonical JSON has no form, never for a failure to read.
#[verifier::external_body]
fn canonical_from_str(text: &str) -> (r: Result<serde_json::Value, serde_json::Error>)
    ensures
        r is Ok == (parsed_json(text@) matches Some(v) && canonical(v)),
        r matches Ok(v) ==> parsed_json(text@) == Some(value_view(v)),
        r matches Err(e) ==> error_words(e) is Some,
{
    let value: ruma::CanonicalJsonValue = serde_json::from_str(text)?;
    Ok(value.into())
}

/// How deep `serde_json` reads: a list or an object inside so many others is refused.
pub const MAX_DEPTH: u64 = 127;

/// Whether lists and objects stand in each other at most `depth` deep, no number is a
/// floating-point value, and no key is the one that `serde_json` keeps for itself.
pub open spec fn plain(v: JsonView, depth: nat) -> bool
    decreases v,
{
    match v {
        JsonView::Float(_) => false,
        JsonView::Array(items) => depth > 0 && forall|i: int|
            0 <= i < items.len() ==> plain(items[i], (depth - 1) as nat),
        JsonView::Object(m) => depth > 0 && m.dom().finite() && !m.contains_key(
            "$serde_json::private::RawValue"@,
        ) && forall|k: Seq<char>| m.contains_key(k) ==> plain(m[k], (depth - 1) as nat),
        _ => true,
    }
}

/// `<serde_json::Value as ToString>::to_string`: the value as compact text, the keys of each
/// object in order. What it prints of a plain value reads back as that value.
#[verifier::external_body]
fn value_to_string(v: serde_json::Value) -> (text: String)
    ensures
        text@ == printed(value_view(v)),
        plain(value_view(v), MAX_DEPTH as nat) ==> parsed_json(text@) == Some(value_view(v)),
{
    v.to_string()
}

/// The library's value for a `serde_json::Value`.
pub fn json_of_value(v: serde_json::Value) -> (r: Json)
    ensures
        r@ == value_view(v),
    decreases value_view(v),
{
    match value_node(v) {
        ValueNode::Null => {
            let r = Json::Null;
            proof {
                r.lemma_view();
            }
            r
        },
        ValueNode::Bool(b) => Json::boolean(b),
        ValueNode::Number(n) => {
            let r = Json::Number(n);
            proof {
                r.lemma_view();
            }
            r
        },
        ValueNode::Text(s) => Json::text(s),
        ValueNode::Array(values) => {
            let ghost all = values@;
            let ghost views = Seq::new(all.len(), |i: int| value_view(all[i]));
            let mut items: Vec<Json> = Vec::new();
            for value in it: values
                invariant
                    it.seq() == all,
                    views == Seq::new(all.len(), |i: int| value_view(all[i])),
                    value_view(v) == JsonView::Array(views),
                    items@.len() == it.index(),
                    forall|j: int| 0 <= j < items@.len() ==> #[trigger] items@[j]@ == views[j],
            {
                assert(value == all[it.index() as int]);
                assert(decreases_to!(value_view(v) => value_view(v)->Array_0));
                assert(decreases_to!(views => views[it.index() as int]));
                items.push(json_of_value(value));
            }
            assert(json::array_view(items@) =~= views);
            Json::array(items)
        },
        ValueNode::Object(entries) => {
            let ghost all = entries@;
            let ghost keys = entry_keys(all);
            let ghost m = value_view(v)->Object_0;
            let mut object: JsonObject = JsonObject::new();
            proof {
                vstd::seq_lib::seq_to_set_is_finite(keys);
                assert(m.dom() =~= keys.to_set());
                assert(object@ =~= m.restrict(keys.take(0).to_set()));
            }
            for entry in it: entries
                invariant
                    it.seq() == all,
                    keys == entry_keys(all),
                    keys.no_duplicates(),
                    m.dom().finite(),
                    m.dom() == keys.to_set(),
                    m == Map::new(
                        |k: Seq<char>| keys.contains(k),
                        |k: Seq<char>| value_view(all[keys.index_of(k)].1),
                    ),
                    value_view(v) == JsonView::Object(m),
                    object@ == m.restrict(keys.take(it.index() as int).to_set()),
            {
                let ghost i = it.index() as int;
                proof {
                    assert(entry == all[i]);
                    assert(keys[i] == entry.0@);
                    assert(keys.contains(keys[i]));
                    assert(keys.index_of(keys[i]) == i);
                    assert(m[keys[i]] == value_view(entry.1));
                    assert(decreases_to!(value_view(v) => value_view(v)->Object_0));
                    assert(decreases_to!(m => m[keys[i]]));
                    json::lemma_take_push(keys, i);
                }
                object.insert(entry.0, json_of_value(entry.1));
                assert(object@ =~= m.restrict(keys.take(i + 1).to_set()));
            }
            assert(keys.take(all.len() as int) =~= keys);
            assert(object@ =~= m);
            Json::object(object)
        },
    }
}

/// The `serde_json::Value` for a value of the library.
pub fn value_of_json(v: &Json) -> (r: serde_json::Value)
    ensures
        value_view(r) == v@,
    decreases v,
{
    proof {
        v.lemma_view();
    }
    match v {
        Json::Null => node_value(ValueNode::Null),
        Json::Bool(b) => node_value(ValueNode::Bool(*b)),
        Json::Number(n) => node_value(ValueNode::Number(json::copy_number(n))),
        Json::Text(s) => node_value(ValueNode::Text(s.clone())),
        Json::Array(items) => {
            let mut values: Vec<serde_json::Value> = Vec::new();
            let mut i: usize = 0;
            while i < items.len()
                invariant
                    i <= items@.len(),
                    values@.len() == i,
                    forall|j: int| 0 <= j < i ==> value_view(#[trigger] values@[j]) == items@[j]@,
                    v matches Json::Array(w) && w == *items,
                decreases items.len() - i,
            {
                assert(decreases_to!(v => items));
                assert(decreases_to!(items => items@));
                assert(decreases_to!(items@ => items@[i as int]));
                values.push(value_of_json(&items[i]));
                i = i + 1;
            }
            let node = ValueNode::Array(values);
            assert(Seq::new(values@.len(), |i: int| value_view(values@[i])) =~= json::array_view(items@));
            node_value(node)
        },
        Json::Object(m) => {
            let n: usize = m.len();
            let mut entries: Vec<(String, serde_json::Value)> = Vec::new();
            let mut i: usize = 0;
            while i < n
                invariant
                    i <= n,
                    n == m.keys().len(),
                    m.keys().no_duplicates(),
                    m.keys().to_set() == m@.dom(),
                    entries@.len() == i,
                    forall|j: int| 0 <= j < i ==> (#[trigger] entries@[j]).0@ == m.keys()[j],
                    forall|j: int| 0 <= j < i ==> value_view((#[trigger] entries@[j]).1) == m@[m.keys()[j]],
                    v matches Json::Object(w) && w == *m,
                decreases n - i,
            {
                proof {
                    m.lemma_entry(i as int);
                    assert(decreases_to!(v => m));
                    assert(decreases_to!(m => m.map));
                    assert(decreases_to!(m.map => m.map.entries));
                    assert(decreases_to!(m.map.entries => m.map.entries@));
                    assert(decreases_to!(m.map.entries@ => m.map.entries@[i as int]));
                    assert(decreases_to!(m.map.entries@[i as int] => m.map.entries@[i as int].1));
                }
                entries.push((m.key_at(i).clone(), value_of_json(&m.map.entries[i].1)));
                i = i + 1;
            }
            let ghost keys = entry_keys(entries@);
            assert(keys =~= m.keys());
            let ghost held = Map::new(
                |k: Seq<char>| keys.contains(k),
                |k: Seq<char>| value_view(entries@[keys.index_of(k)].1),
            );
            proof {
                assert forall|k: Seq<char>| held.contains_key(k) == m@.contains_key(k) by {
                    assert(m.keys().to_set().contains(k) == m@.contains_key(k));
                }
                assert(held =~= m@);
            }
            node_value(ValueNode::Object(entries))
        },
    }
}

/// The value that a text holds.
pub fn parse(text: &str) -> (r: Result<Json, serde_json::Error>)
    ensures
        r is Ok == parsed_json(text@) is Some,
        r matches Ok(v) ==> parsed_json(text@) == Some(v@),
        r matches Err(e) ==> error_words(e) is Some,
{
    match value_from_str(text) {
        Ok(v) => Ok(json_of_value(v)),
        Err(e) => Err(e),
    }
}

/// The object that a text holds: every other value is refused.
pub fn parse_object(text: &str) -> (r: Result<JsonObject, serde_json::Error>)
    ensures
        r is Ok == parsed_object(text@) is Some,
        r matches Ok(m) ==> parsed_object(text@) == Some(m@),
        r matches Err(e) ==> error_words(e) is Some,
{
    match map_from_str(text) {
        Ok(v) => {
            match json_of_value(v).into_object() {
                Some(m) => Ok(m),
                None => vstd::pervasive::unreached(),
            }
        },
        Err(e) => Err(e),
    }
}

/// The value that a text holds, when canonical JSON has a form for it.
pub fn parse_canonical(text: &str) -> (r: Result<Json, serde_json::Error>)
    ensures
        r is Ok == (parsed_json(text@) matches Some(v) && canonical(v)),
        r matches Ok(v) ==> parsed_json(text@) == Some(v@),
        r matches Err(e) ==> error_words(e) is Some,
{
    match canonical_from_str(text) {
        Ok(v) => Ok(json_of_value(v)),
        Err(e) => Err(e),
    }
}

/// The text of a value.
pub fn print(v: &Json) -> (text: String)
    ensures
        text@ == printed(v@),
        plain(v@, MAX_DEPTH as nat) ==> parsed_json(text@) == Some(v@),
{
    value_to_string(value_of_json(v))
}

} // verus!
