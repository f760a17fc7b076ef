//! The directory of keys as other servers see it: device keys, one-time keys and the list of a
//! user's devices. A server answers for its own users alone.
use crate::ids;
use crate::json;
use crate::json::{Json, JsonObject, JsonView};
use crate::key_store;
use crate::key_store::{KeyStore, KeysView};
use crate::reply::FedError;
use crate::strmap;
use crate::text;
use vstd::prelude::*;

verus! {

/// What a request asks of the users of this server.
pub open spec fn ours_of(requested: Map<Seq<char>, JsonView>, own_server: Seq<char>) -> Map<
    Seq<char>,
    JsonView,
> {
    Map::new(
        |u: Seq<char>| requested.contains_key(u) && ids::on_server(u, own_server),
        |u: Seq<char>| requested[u],
    )
}

/// Restricts a request by user to the users of this server.
pub fn ours(requested: &JsonObject, own_server: &str) -> (r: JsonObject)
    ensures
        r@ == ours_of(requested@, own_server@),
{
    let mut r: JsonObject = JsonObject::new();
    let ghost whole = ours_of(requested@, own_server@);
    let n: usize = requested.len();
    let ghost order = requested.keys();
    let mut i: usize = 0;
    assert(r@ =~= whole.restrict(order.take(0).to_set()));
    while i < n
        invariant
            i <= n,
            n == requested.keys().len(),
            order == requested.keys(),
            whole == ours_of(requested@, own_server@),
            r@ == whole.restrict(order.take(i as int).to_set()),
        decreases n - i,
    {
        proof {
            json::lemma_take_push(order, i as int);
        }
        let user: &String = requested.key_at(i);
        if ids::is_on_server(user.as_str(), own_server) {
            r.insert(user.clone(), requested.value_at(i).duplicate());
        }
        assert(r@ =~= whole.restrict(order.take(i + 1).to_set()));
        i = i + 1;
    }
    assert(order.take(n as int) =~= order);
    assert(order.to_set() == requested@.dom());
    assert(r@ =~= whole);
    r
}

/// The object that a body holds under a key; empty where it holds none.
pub open spec fn section(body: JsonView, key: Seq<char>) -> Map<Seq<char>, JsonView> {
    match body.field(key) {
        Some(JsonView::Object(m)) => m,
        _ => Map::empty(),
    }
}

fn section_of(body: &Json, key: &str) -> (m: JsonObject)
    ensures
        m@ == section(body@, key@),
{
    match body.get(key) {
        Some(v) => match v.as_object() {
            Some(m) => m.duplicate(),
            None => JsonObject::new(),
        },
        None => JsonObject::new(),
    }
}

/// The answer to a server that asks for device keys: those of our users, and the cross-signing
/// sections.
pub open spec fn query_answer(keys: KeysView, own_server: Seq<char>, body: JsonView) -> JsonView {
    JsonView::Object(
        Map::empty().insert(
            "device_keys"@,
            JsonView::Object(
                key_store::devices_answer(
                    keys.devices,
                    ours_of(section(body, "device_keys"@), own_server),
                ),
            ),
        ).union_prefer_right(keys.cross_signing),
    )
}

/// The answer to a server that asks for device keys.
pub fn query(keys: &KeyStore, own_server: &str, body: &Json) -> (r: Json)
    ensures
        r@ == query_answer(keys@, own_server@, body@),
{
    let requested: JsonObject = section_of(body, "device_keys");
    let device_keys: JsonObject = keys.device_keys_for(&ours(&requested, own_server));
    let mut response: JsonObject = JsonObject::new();
    response.insert("device_keys".to_owned(), Json::object(device_keys));
    Json::object(key_store::extend(response, keys.cross_signing()))
}

/// What a server asks for of our users' one-time keys.
pub open spec fn claimed_by(own_server: Seq<char>, body: JsonView) -> Map<Seq<char>, JsonView> {
    ours_of(section(body, "one_time_keys"@), own_server)
}

/// The answer to a server that claims one-time keys: one for each device that it names, of our
/// users alone. They are handed out and gone.
pub fn claim(keys: &mut KeyStore, own_server: &str, body: &Json) -> (r: Json)
    ensures
        r@ == JsonView::Object(
            Map::empty().insert(
                "one_time_keys"@,
                JsonView::Object(
                    key_store::claim_answer(old(keys)@.one_time, claimed_by(own_server@, body@)),
                ),
            ),
        ),
        final(keys)@ == (KeysView {
            one_time: key_store::after_claims(
                old(keys)@.one_time,
                claimed_by(own_server@, body@),
            ),
            ..old(keys)@
        }),
        final(keys).journal_view() == key_store::logged_all(
            old(keys).journal_view(),
            key_store::claim_ops(
                old(keys)@.one_time,
                claimed_by(own_server@, body@),
                strmap::sorted_keys(claimed_by(own_server@, body@).dom()),
            ),
        ),
{
    let requested: JsonObject = section_of(body, "one_time_keys");
    let claimed: JsonObject = keys.claim_for(&ours(&requested, own_server));
    let mut response: JsonObject = JsonObject::new();
    response.insert("one_time_keys".to_owned(), Json::object(claimed));
    Json::object(response)
}

/// A device with its keys, as it is listed.
pub open spec fn listed_device(device: Seq<char>, keys: JsonView) -> JsonView {
    JsonView::Object(
        Map::empty().insert("device_id"@, JsonView::Text(device)).insert("keys"@, keys),
    )
}

/// The devices of a user, as they are listed, in order.
pub open spec fn listed_devices(devices: Map<Seq<char>, JsonView>) -> Seq<JsonView> {
    let order = strmap::sorted_keys(devices.dom());
    Seq::new(order.len(), |i: int| listed_device(order[i], devices[order[i]]))
}

/// The cross-signing section with a name: under its plural, or under the name itself.
pub open spec fn uploaded(cross_signing: Map<Seq<char>, JsonView>, name: Seq<char>) -> Option<JsonView> {
    match json::lookup(cross_signing, name + "s"@) {
        Some(v) => Some(v),
        None => json::lookup(cross_signing, name),
    }
}

/// An object with a cross-signing section, where there is one.
pub open spec fn with_uploaded(
    m: Map<Seq<char>, JsonView>,
    cross_signing: Map<Seq<char>, JsonView>,
    name: Seq<char>,
) -> Map<Seq<char>, JsonView> {
    match uploaded(cross_signing, name) {
        Some(v) => m.insert(name, v),
        None => m,
    }
}

/// The answer to a server that asks for the devices of a user of ours.
pub open spec fn devices_body(keys: KeysView, user: Seq<char>) -> JsonView {
    let base = Map::empty().insert("user_id"@, JsonView::Text(user)).insert(
        "stream_id"@,
        JsonView::Int(1),
    ).insert("devices"@, JsonView::Array(listed_devices(key_store::inner_map(keys.devices, user))));
    JsonView::Object(
        with_uploaded(
            with_uploaded(base, keys.cross_signing, "master_key"@),
            keys.cross_signing,
            "self_signing_key"@,
        ),
    )
}

fn add_uploaded(response: &mut JsonObject, cross_signing: &JsonObject, name: &str)
    ensures
        final(response)@ == with_uploaded(old(response)@, cross_signing@, name@),
{
    let plural: String = text::concat(name, "s");
    let found: Option<&Json> = match cross_signing.get(plural.as_str()) {
        Some(v) => Some(v),
        None => cross_signing.get(name),
    };
    if let Some(v) = found {
        response.insert(name.to_owned(), v.duplicate());
    }
}

fn list_devices(devices: Option<&JsonObject>) -> (r: Vec<Json>)
    ensures
        json::array_view(r@) == listed_devices(
            match devices {
                Some(d) => d@,
                None => Map::empty(),
            },
        ),
{
    let none: JsonObject = JsonObject::new();
    let held: &JsonObject = match devices {
        Some(d) => d,
        None => &none,
    };
    let mut r: Vec<Json> = Vec::new();
    let n: usize = held.len();
    let mut i: usize = 0;
    while i < n
        invariant
            i <= n,
            n == held.keys().len(),
            r@.len() == i,
            forall|j: int|
                0 <= j < i ==> (#[trigger] r@[j])@ == listed_device(
                    held.keys()[j],
                    held@[held.keys()[j]],
                ),
        decreases n - i,
    {
        let mut one: JsonObject = JsonObject::new();
        one.insert("device_id".to_owned(), Json::text(held.key_at(i).clone()));
        one.insert("keys".to_owned(), held.value_at(i).duplicate());
        r.push(Json::object(one));
        i = i + 1;
    }
    assert(json::array_view(r@) =~= listed_devices(held@));
    r
}

/// The answer to a server that asks for the devices of a user of ours; a user of another server
/// is refused.
pub fn devices(keys: &KeyStore, own_server: &str, user_id: &str) -> (r: Result<Json, FedError>)
    ensures
        !ids::user_id_valid(user_id@) ==> r == Err::<Json, FedError>(
            FedError::BadRequest("user id is not a valid Matrix user id"),
        ),
        ids::user_id_valid(user_id@) && !ids::on_server(user_id@, own_server@) ==> r == Err::<
            Json,
            FedError,
        >(FedError::BadRequest("user does not belong to this server")),
        ids::on_server(user_id@, own_server@) ==> (r matches Ok(body) && body@ == devices_body(
            keys@,
            user_id@,
        )),
{
    match ids::user_server(user_id) {
        None => return Err(FedError::BadRequest("user id is not a valid Matrix user id")),
        Some(server) => {
            if !text::str_eq(server, own_server) {
                return Err(FedError::BadRequest("user does not belong to this server"));
            }
        },
    }
    let mut response: JsonObject = JsonObject::new();
    response.insert("user_id".to_owned(), Json::text(user_id.to_owned()));
    response.insert("stream_id".to_owned(), Json::unsigned(1));
    response.insert("devices".to_owned(), Json::array(list_devices(keys.devices_of(user_id))));
    add_uploaded(&mut response, keys.cross_signing(), "master_key");
    add_uploaded(&mut response, keys.cross_signing(), "self_signing_key");
    Ok(Json::object(response))
}

/// A request for keys never touches a user of another server: none is in the answer, and no key
/// of theirs is handed out.
pub proof fn law_only_our_users_are_answered_for(
    keys: KeysView,
    own_server: Seq<char>,
    body: JsonView,
    user: Seq<char>,
    device: Seq<char>,
)
    requires
        !ids::on_server(user, own_server),
    ensures
        !key_store::devices_answer(
            keys.devices,
            ours_of(section(body, "device_keys"@), own_server),
        ).contains_key(user),
        !key_store::claim_answer(keys.one_time, claimed_by(own_server, body)).contains_key(user),
        keys.one_time.contains_key((user, device)) ==> key_store::after_claims(
            keys.one_time,
            claimed_by(own_server, body),
        )[(user, device)] == keys.one_time[(user, device)],
{
    let asked = key_store::devices_asked(claimed_by(own_server, body), user);
    assert(asked =~= Map::empty());
    assert forall|d: Seq<char>| key_store::given(keys.one_time, asked, user, d) is None by {}
}

} // verus!
