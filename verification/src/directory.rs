//! The directory of rooms: from an alias to a room. An alias of ours is found in the store, and
//! one of another server by asking that server.
use crate::engine::StorageError;
use crate::ids;
use crate::json;
use crate::json::{Json, JsonObject, JsonView};
use crate::names;
use crate::reply;
use crate::reply::{Reply, ReplyView};
use crate::text;
use vstd::prelude::*;

verus! {

/// The answer to a malformed alias.
pub open spec fn malformed() -> ReplyView {
    reply::error_view(reply::BAD_REQUEST, "M_INVALID_PARAM"@, "Room alias is malformed"@)
}

/// The server of an alias; the answer to a malformed one.
pub fn alias_domain(raw: &str) -> (r: Result<String, Reply>)
    ensures
        r is Ok == ids::room_alias_valid(raw@),
        r matches Ok(d) ==> d@ == ids::server_part(raw@),
        r matches Err(e) ==> e@ == malformed(),
{
    if ids::is_room_alias(raw) {
        if let Some((_, domain)) = text::split_once(raw, ':') {
            return Ok(domain.to_owned());
        }
    }
    Err(
        reply::error_response(reply::BAD_REQUEST, "M_INVALID_PARAM", "Room alias is malformed"),
    )
}

/// Who has to be asked for an alias: our own store, or the server that it names.
pub enum Authority {
    Ours,
    Theirs(String),
}

/// Who has to be asked for an alias; the answer to a malformed one.
pub fn authority(alias: &str, own_server: &str) -> (r: Result<Authority, Reply>)
    ensures
        r is Ok == ids::room_alias_valid(alias@),
        r matches Ok(Authority::Ours) ==> ids::server_part(alias@) == own_server@,
        r matches Ok(Authority::Theirs(server)) ==> server@ == ids::server_part(alias@) && server@
            != own_server@ && ids::server_name_valid(server@),
        r matches Err(e) ==> e@ == malformed(),
{
    match alias_domain(alias) {
        Err(e) => Err(e),
        Ok(domain) => if text::str_eq(domain.as_str(), own_server) {
            Ok(Authority::Ours)
        } else {
            Ok(Authority::Theirs(domain))
        },
    }
}

/// The body that names a room and the server to join it through.
pub open spec fn room_body(room_id: Seq<char>, server: Seq<char>) -> JsonView {
    JsonView::Object(
        Map::empty().insert("room_id"@, JsonView::Text(room_id)).insert(
            "servers"@,
            JsonView::Array(seq![JsonView::Text(server)]),
        ),
    )
}

fn room_reply(room_id: String, server: &str) -> (r: Reply)
    ensures
        r@ == (ReplyView { status: reply::OK as int, body: room_body(room_id@, server@) }),
{
    let mut servers: Vec<Json> = Vec::new();
    servers.push(Json::text(server.to_owned()));
    assert(json::array_view(servers@) =~= seq![JsonView::Text(server@)]);
    let mut body: JsonObject = JsonObject::new();
    body.insert("room_id".to_owned(), Json::text(room_id));
    body.insert("servers".to_owned(), Json::array(servers));
    Reply { status: reply::OK, body: Json::object(body) }
}

/// The answer to a question for an alias of ours, from what the store has for it.
pub open spec fn local_view(stored: Result<Option<String>, StorageError>, own_server: Seq<char>) -> ReplyView {
    match stored {
        Ok(Some(room_id)) => ReplyView {
            status: reply::OK as int,
            body: room_body(room_id@, own_server),
        },
        Ok(None) => reply::error_view(reply::NOT_FOUND, "M_NOT_FOUND"@, "Room alias not found"@),
        Err(e) => reply::error_view(
            reply::INTERNAL_SERVER_ERROR,
            "M_UNKNOWN"@,
            "resolving alias: "@ + e.message@,
        ),
    }
}

/// The answer to a question for an alias of ours, from what the store has for it.
pub fn local_reply(stored: Result<Option<String>, StorageError>, own_server: &str) -> (r: Reply)
    ensures
        r@ == local_view(stored, own_server@),
{
    match stored {
        Ok(Some(room_id)) => room_reply(room_id, own_server),
        Ok(None) => reply::error_response(reply::NOT_FOUND, "M_NOT_FOUND", "Room alias not found"),
        Err(e) => {
            let message: String = text::concat("resolving alias: ", e.message.as_str());
            reply::error_response(reply::INTERNAL_SERVER_ERROR, "M_UNKNOWN", message.as_str())
        },
    }
}

/// The answer to a question for an alias of another server, from what that server said: a room,
/// or why there is none.
pub open spec fn remote_view(
    alias: Seq<char>,
    server: Seq<char>,
    answer: Result<String, String>,
) -> ReplyView {
    match answer {
        Ok(room_id) => ReplyView { status: reply::OK as int, body: room_body(room_id@, server) },
        Err(why) => reply::error_view(
            reply::NOT_FOUND,
            "M_NOT_FOUND"@,
            "could not resolve "@ + alias + " at "@ + server + ": "@ + why@,
        ),
    }
}

/// The answer to a question for an alias of another server, from what that server said.
pub fn remote_reply(alias: &str, server: &str, answer: Result<String, String>) -> (r: Reply)
    ensures
        r@ == remote_view(alias@, server@, answer),
{
    match answer {
        Ok(room_id) => room_reply(room_id, server),
        Err(why) => {
            let mut message: String = text::concat("could not resolve ", alias);
            message.append(" at ");
            message.append(server);
            message.append(": ");
            message.append(why.as_str());
            reply::error_response(reply::NOT_FOUND, "M_NOT_FOUND", message.as_str())
        },
    }
}

/// The answer to a client's question for an alias, from what the store or the server that the
/// alias names said.
pub fn get_alias(
    alias: &str,
    own_server: &str,
    stored: Result<Option<String>, StorageError>,
    answer: Result<String, String>,
) -> (r: Reply)
    ensures
        r@ == if !ids::room_alias_valid(alias@) {
            malformed()
        } else if ids::server_part(alias@) == own_server@ {
            local_view(stored, own_server@)
        } else {
            remote_view(alias@, ids::server_part(alias@), answer)
        },
{
    match authority(alias, own_server) {
        Err(e) => e,
        Ok(Authority::Ours) => local_reply(stored, own_server),
        Ok(Authority::Theirs(server)) => remote_reply(alias, server.as_str(), answer),
    }
}

/// The answer that refuses a claim of an alias; `None` where it may go to the store.
pub open spec fn claim_refusal(alias: Seq<char>, own_server: Seq<char>, body: JsonView) -> Option<ReplyView> {
    if !ids::room_alias_valid(alias) {
        Some(malformed())
    } else if ids::server_part(alias) != own_server {
        Some(
            reply::error_view(
                reply::FORBIDDEN,
                "M_EXCLUSIVE"@,
                "Cannot create an alias in another server's namespace"@,
            ),
        )
    } else {
        match claimed_room(body) {
            None => Some(
                reply::error_view(reply::BAD_REQUEST, "M_MISSING_PARAM"@, "Missing room_id"@),
            ),
            Some(room_id) => if ids::room_id_valid(room_id) {
                None
            } else {
                Some(
                    reply::error_view(
                        reply::BAD_REQUEST,
                        "M_INVALID_PARAM"@,
                        "Malformed room_id"@,
                    ),
                )
            },
        }
    }
}

/// The room that a claim of an alias names.
pub open spec fn claimed_room(body: JsonView) -> Option<Seq<char>> {
    match body.field("room_id"@) {
        Some(v) => v.text(),
        None => None,
    }
}

/// The room that a claim of an alias is for; the answer that refuses the claim.
pub fn check_claim(alias: &str, own_server: &str, body: &Json) -> (r: Result<String, Reply>)
    ensures
        r matches Ok(room_id) ==> claim_refusal(alias@, own_server@, body@) is None && claimed_room(body@)
            == Some(room_id@),
        r matches Err(e) ==> claim_refusal(alias@, own_server@, body@) == Some(e@),
{
    let domain: String = match alias_domain(alias) {
        Ok(d) => d,
        Err(e) => return Err(e),
    };
    if !text::str_eq(domain.as_str(), own_server) {
        return Err(
            reply::error_response(
                reply::FORBIDDEN,
                "M_EXCLUSIVE",
                "Cannot create an alias in another server's namespace",
            ),
        );
    }
    let room_id: Option<&str> = match body.get("room_id") {
        Some(v) => v.as_str(),
        None => None,
    };
    match room_id {
        None => Err(
            reply::error_response(reply::BAD_REQUEST, "M_MISSING_PARAM", "Missing room_id"),
        ),
        Some(room_id) => if ids::is_room_id(room_id) {
            Ok(room_id.to_owned())
        } else {
            Err(
                reply::error_response(reply::BAD_REQUEST, "M_INVALID_PARAM", "Malformed room_id"),
            )
        },
    }
}

/// The answer to a claim that went to the store, from whether it took the alias: one that was
/// taken before is a conflict.
pub open spec fn claim_view(taken: Result<bool, StorageError>) -> ReplyView {
    match taken {
        Ok(true) => ReplyView { status: reply::OK as int, body: JsonView::Object(Map::empty()) },
        Ok(false) => reply::error_view(
            reply::CONFLICT,
            "M_ROOM_IN_USE"@,
            "Room alias is already taken"@,
        ),
        Err(e) => reply::error_view(
            reply::INTERNAL_SERVER_ERROR,
            "M_UNKNOWN"@,
            "claiming alias: "@ + e.message@,
        ),
    }
}

/// The answer to a claim that went to the store.
pub fn claim_reply(taken: Result<bool, StorageError>) -> (r: Reply)
    ensures
        r@ == claim_view(taken),
{
    match taken {
        Ok(true) => Reply { status: reply::OK, body: Json::object(JsonObject::new()) },
        Ok(false) => reply::error_response(
            reply::CONFLICT,
            "M_ROOM_IN_USE",
            "Room alias is already taken",
        ),
        Err(e) => {
            let message: String = text::concat("claiming alias: ", e.message.as_str());
            reply::error_response(reply::INTERNAL_SERVER_ERROR, "M_UNKNOWN", message.as_str())
        },
    }
}

/// The answer to a claim of an alias, from whether the store took it.
pub fn put_alias(
    alias: &str,
    own_server: &str,
    body: &Json,
    taken: Result<bool, StorageError>,
) -> (r: Reply)
    ensures
        r@ == match claim_refusal(alias@, own_server@, body@) {
            Some(e) => e,
            None => claim_view(taken),
        },
{
    match check_claim(alias, own_server, body) {
        Err(e) => e,
        Ok(_) => claim_reply(taken),
    }
}

/// The room that an alias stands for, and the server to join it through when it is not ours;
/// `None` where it cannot be resolved. `stored` is what the store has for it, and `answer` what
/// the server said that it names.
pub fn resolve_for_join(
    alias: &str,
    own_server: &str,
    stored: Result<Option<String>, StorageError>,
    answer: Result<String, String>,
) -> (r: Option<(String, Option<String>)>)
    ensures
        !ids::room_alias_valid(alias@) ==> r is None,
        ids::room_alias_valid(alias@) && ids::server_part(alias@) == own_server@ ==> match stored {
            Ok(Some(room_id)) => r == Some((room_id, None::<String>)),
            _ => r is None,
        },
        ids::room_alias_valid(alias@) && ids::server_part(alias@) != own_server@ ==> match answer {
            Ok(room_id) => if ids::room_id_valid(room_id@) {
                r matches Some((room, Some(server))) && room == room_id && server@ == ids::server_part(
                    alias@,
                )
            } else {
                r is None
            },
            Err(_) => r is None,
        },
{
    match authority(alias, own_server) {
        Err(_) => None,
        Ok(Authority::Ours) => match stored {
            Ok(Some(room_id)) => Some((room_id, None)),
            _ => None,
        },
        Ok(Authority::Theirs(server)) => match answer {
            Ok(room_id) => if ids::is_room_id(room_id.as_str()) {
                Some((room_id, Some(server)))
            } else {
                None
            },
            Err(_) => None,
        },
    }
}

/// Nobody claims an alias in the namespace of another server, whatever the body says.
pub proof fn law_claims_stay_in_our_namespace(alias: Seq<char>, own_server: Seq<char>, body: JsonView)
    requires
        claim_refusal(alias, own_server, body) is None,
    ensures
        ids::room_alias_valid(alias),
        ids::server_part(alias) == own_server,
        claimed_room(body) matches Some(room_id) && ids::room_id_valid(room_id),
{
}

/// An alias of ours that the store knows is answered with its room, and with our server as the one
/// to join it through. One that it does not know is not found, and a failure of the store is ours.
pub proof fn law_known_aliases_name_their_room(
    stored: Result<Option<String>, StorageError>,
    own_server: Seq<char>,
)
    ensures
        ({
            let r = local_view(stored, own_server);
            match stored {
                Ok(Some(room)) => r.status == 200 && r.body.field("room_id"@) == Some(
                    JsonView::Text(room@),
                ) && r.body.field("servers"@) == Some(
                    JsonView::Array(seq![JsonView::Text(own_server)]),
                ),
                Ok(None) => r.status == 404 && r.body.field("errcode"@) == Some(
                    JsonView::Text("M_NOT_FOUND"@),
                ) && r.body.field("error"@) == Some(JsonView::Text("Room alias not found"@)),
                Err(e) => r.status == 500 && r.body.field("errcode"@) == Some(
                    JsonView::Text("M_UNKNOWN"@),
                ) && r.body.field("error"@) == Some(
                    JsonView::Text("resolving alias: "@ + e.message@),
                ),
            }
        }),
{
    names::lemma_alias_names();
    names::lemma_error_names();
}

/// An alias of another server is answered with the room that the server names, to be joined
/// through that server; where it names none, the answer says which alias, which server and why.
pub proof fn law_remote_aliases_name_their_room(
    alias: Seq<char>,
    server: Seq<char>,
    answer: Result<String, String>,
)
    ensures
        ({
            let r = remote_view(alias, server, answer);
            match answer {
                Ok(room) => r.status == 200 && r.body.field("room_id"@) == Some(JsonView::Text(room@))
                    && r.body.field("servers"@) == Some(JsonView::Array(seq![JsonView::Text(server)])),
                Err(why) => r.status == 404 && r.body.field("errcode"@) == Some(
                    JsonView::Text("M_NOT_FOUND"@),
                ) && r.body.field("error"@) == Some(
                    JsonView::Text("could not resolve "@ + alias + " at "@ + server + ": "@ + why@),
                ),
            }
        }),
{
    names::lemma_alias_names();
    names::lemma_error_names();
}

/// Which claims of an alias are refused, and how: one that is malformed, one of another server's,
/// one without a room, and one for what is no room. Every other claim goes to the store.
pub proof fn law_which_claims_are_refused(alias: Seq<char>, own_server: Seq<char>, body: JsonView)
    ensures
        ({
            let refused = claim_refusal(alias, own_server, body);
            let ours = ids::room_alias_valid(alias) && ids::server_part(alias) == own_server;
            let room = body.field("room_id"@);
            &&& !ids::room_alias_valid(alias) ==> (refused matches Some(r) && r.status == 400
                && r.body.field("errcode"@) == Some(JsonView::Text("M_INVALID_PARAM"@))
                && r.body.field("error"@) == Some(JsonView::Text("Room alias is malformed"@)))
            &&& ids::room_alias_valid(alias) && !ours ==> (refused matches Some(r) && r.status == 403
                && r.body.field("errcode"@) == Some(JsonView::Text("M_EXCLUSIVE"@)) && r.body.field(
                "error"@,
            ) == Some(JsonView::Text("Cannot create an alias in another server's namespace"@)))
            &&& ours && !(room matches Some(JsonView::Text(_))) ==> (refused matches Some(r) && r.status
                == 400 && r.body.field("errcode"@) == Some(JsonView::Text("M_MISSING_PARAM"@))
                && r.body.field("error"@) == Some(JsonView::Text("Missing room_id"@)))
            &&& ours && (room matches Some(JsonView::Text(s)) && !ids::room_id_valid(s)) ==> (
            refused matches Some(r) && r.status == 400 && r.body.field("errcode"@) == Some(
                JsonView::Text("M_INVALID_PARAM"@),
            ) && r.body.field("error"@) == Some(JsonView::Text("Malformed room_id"@)))
            &&& refused is None <==> ours && (room matches Some(JsonView::Text(s)) && ids::room_id_valid(
                s,
            ))
            &&& refused is None ==> claimed_room(body) == Some(room->0->Text_0)
        }),
{
    names::lemma_error_names();
}

/// A claim that the store took is answered with nothing further; an alias that was taken before
/// is a conflict, and a failure of the store is ours.
pub proof fn law_claims_are_answered(taken: Result<bool, StorageError>, key: Seq<char>)
    ensures
        ({
            let r = claim_view(taken);
            match taken {
                Ok(true) => r.status == 200 && r.body is Object && r.body.field(key) is None,
                Ok(false) => r.status == 409 && r.body.field("errcode"@) == Some(
                    JsonView::Text("M_ROOM_IN_USE"@),
                ) && r.body.field("error"@) == Some(JsonView::Text("Room alias is already taken"@)),
                Err(e) => r.status == 500 && r.body.field("errcode"@) == Some(
                    JsonView::Text("M_UNKNOWN"@),
                ) && r.body.field("error"@) == Some(
                    JsonView::Text("claiming alias: "@ + e.message@),
                ),
            }
        }),
{
    names::lemma_error_names();
}

} // verus!
