//! Answering another server's question for one of our aliases. Only our own namespace is
//! answered for, and nothing is passed on.
use crate::directory;
use crate::engine::StorageError;
use crate::json::JsonView;
use crate::names;
use crate::reply;
use crate::reply::{Reply, ReplyView};
use crate::text;
use vstd::prelude::*;

verus! {

/// The server part of `#localpart:server`: what follows the first colon. A local part holds no
/// colon, and the name of a server may hold one before its port.
pub open spec fn domain_of(alias: Seq<char>) -> Option<Seq<char>> {
    if alias.len() == 0 || alias[0] != '#' {
        None
    } else {
        match text::split_once_at(alias.skip(1), ':') {
            Some((localpart, domain)) => if localpart.len() == 0 || domain.len() == 0 {
                None
            } else {
                Some(domain)
            },
            None => None,
        }
    }
}

/// The server part of `#localpart:server`; `None` when the string is not an alias.
pub fn alias_domain(alias: &str) -> (domain: Option<&str>)
    ensures
        domain is Some == domain_of(alias@) is Some,
        domain matches Some(d) ==> domain_of(alias@) == Some(d@),
{
    let chars: Vec<char> = text::to_chars(alias);
    if chars.len() == 0 || chars[0] != '#' {
        return None;
    }
    let rest: &str = vstd::string::StrSliceExecFns::substring_char(alias, 1, chars.len());
    assert(rest@ =~= alias@.skip(1));
    match text::split_once(rest, ':') {
        Some((localpart, domain)) => {
            let l: Vec<char> = text::to_chars(localpart);
            let d: Vec<char> = text::to_chars(domain);
            if l.len() == 0 || d.len() == 0 {
                None
            } else {
                Some(domain)
            }
        },
        None => None,
    }
}

/// The answer where an alias is not ours to resolve; `None` where it is.
pub open spec fn refusal(alias: Seq<char>, own_server: Seq<char>) -> Option<ReplyView> {
    match domain_of(alias) {
        Some(domain) => if domain == own_server {
            None
        } else {
            Some(
                reply::error_view(
                    reply::NOT_FOUND,
                    "M_NOT_FOUND"@,
                    "Room alias is not in this server's namespace"@,
                ),
            )
        },
        None => Some(
            reply::error_view(reply::BAD_REQUEST, "M_INVALID_PARAM"@, "Room alias is malformed"@),
        ),
    }
}

/// Refuses an alias that is malformed, or in the namespace of another server.
pub fn check_namespace(alias: &str, own_server: &str) -> (r: Result<(), Reply>)
    ensures
        r matches Err(e) ==> refusal(alias@, own_server@) == Some(e@),
        r is Ok ==> refusal(alias@, own_server@) is None,
{
    match alias_domain(alias) {
        Some(domain) => if text::str_eq(domain, own_server) {
            Ok(())
        } else {
            Err(
                reply::error_response(
                    reply::NOT_FOUND,
                    "M_NOT_FOUND",
                    "Room alias is not in this server's namespace",
                ),
            )
        },
        None => Err(
            reply::error_response(
                reply::BAD_REQUEST,
                "M_INVALID_PARAM",
                "Room alias is malformed",
            ),
        ),
    }
}

/// The answer to another server's question for an alias, from what the store has for it.
pub fn answer(
    alias: &str,
    own_server: &str,
    stored: Result<Option<String>, StorageError>,
) -> (r: Reply)
    ensures
        r@ == match refusal(alias@, own_server@) {
            Some(e) => e,
            None => directory::local_view(stored, own_server@),
        },
{
    match check_namespace(alias, own_server) {
        Err(e) => e,
        Ok(()) => directory::local_reply(stored, own_server),
    }
}

/// An alias with a local part, a server and no colon in the local part is answered for by that
/// server alone, ports included.
pub proof fn law_aliases_belong_to_one_server(localpart: Seq<char>, server: Seq<char>)
    requires
        localpart.len() > 0,
        server.len() > 0,
        !localpart.contains(':'),
    ensures
        domain_of(seq!['#'] + localpart + seq![':'] + server) == Some(server),
{
    let alias = seq!['#'] + localpart + seq![':'] + server;
    let rest = alias.skip(1);
    let n = localpart.len() as int;
    assert(rest =~= localpart + seq![':'] + server);
    assert(rest[n] == ':');
    assert forall|j: int| 0 <= j < n implies rest[j] != ':' by {
        assert(rest[j] == localpart[j]);
        assert(localpart.contains(localpart[j]));
    }
    text::lemma_upto(rest, ':', n);
    assert(rest.contains(':'));
    assert(rest.take(n) =~= localpart);
    assert(rest.skip(n + 1) =~= server);
}

/// Another server is answered for aliases of our namespace alone: one of another server's is not
/// found here, and what is no alias is the other server's fault.
pub proof fn law_which_questions_are_refused(alias: Seq<char>, own_server: Seq<char>)
    ensures
        ({
            let refused = refusal(alias, own_server);
            &&& refused is None <==> domain_of(alias) == Some(own_server)
            &&& domain_of(alias) is None ==> (refused matches Some(r) && r.status == 400
                && r.body.field("errcode"@) == Some(JsonView::Text("M_INVALID_PARAM"@))
                && r.body.field("error"@) == Some(JsonView::Text("Room alias is malformed"@)))
            &&& (domain_of(alias) matches Some(d) && d != own_server) ==> (refused matches Some(r)
                && r.status == 404 && r.body.field("errcode"@) == Some(
                JsonView::Text("M_NOT_FOUND"@),
            ) && r.body.field("error"@) == Some(
                JsonView::Text("Room alias is not in this server's namespace"@),
            ))
        }),
{
    names::lemma_error_names();
}

/// What has no sigil, no colon, no local part or no server is no alias.
pub proof fn law_what_is_no_alias(alias: Seq<char>)
    ensures
        domain_of(alias) matches Some(domain) ==> {
            &&& alias.len() > 0
            &&& alias[0] == '#'
            &&& domain.len() > 0
            &&& exists|n: int| 1 < n < alias.len() && #[trigger] alias[n] == ':' && domain == alias.skip(
                n + 1,
            ) && !alias.subrange(1, n).contains(':')
        },
{
    if domain_of(alias) is Some {
        let rest = alias.skip(1);
        text::lemma_upto_bounds(rest, ':');
        let k = text::upto(rest, ':');
        assert(alias[k + 1] == ':');
        assert(rest.skip(k + 1) =~= alias.skip(k + 2));
        if alias.subrange(1, k + 1).contains(':') {
            let j = alias.subrange(1, k + 1).index_of(':');
            assert(rest[j] == ':');
        }
    }
}

} // verus!
