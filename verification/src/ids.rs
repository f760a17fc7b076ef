//! Matrix identifiers: which strings are identifiers, and the server that an identifier names.
use crate::text;
use vstd::prelude::*;

verus! {

/// The longest identifier, in bytes.
pub const MAX_ID_BYTES: usize = 255;

/// Whether `ruma` takes the text between the brackets of a host as an address.
pub uninterp spec fn bracketed_valid(address: Seq<char>) -> bool;

/// Whether a character can stand in a host without brackets.
pub open spec fn host_char(c: char) -> bool {
    ||| '0' <= c <= '9'
    ||| 'a' <= c <= 'z'
    ||| 'A' <= c <= 'Z'
    ||| c == '-'
    ||| c == '.'
}

/// Where the host of the name of a server ends: behind a closing bracket, or before a colon.
pub open spec fn host_end(s: Seq<char>) -> int {
    if s.len() > 0 && s[0] == '[' && s.contains(']') {
        text::upto(s, ']') + 1
    } else {
        text::upto(s, ':')
    }
}

/// The name of a server: an address in brackets or a host of letters, digits, hyphens and dots,
/// and perhaps a colon and a port.
pub open spec fn server_name_valid(s: Seq<char>) -> bool {
    let end = host_end(s);
    &&& if s.len() > 0 && s[0] == '[' {
        s.contains(']') && bracketed_valid(s.subrange(1, end - 1))
    } else {
        end > 0 && forall|i: int| 0 <= i < end ==> host_char(#[trigger] s[i])
    }
    &&& end < s.len() ==> s[end] == ':' && text::parsed_number(s.skip(end + 1), 65536) is Some
}

/// Whether a string of bounded length starts with the given sigil.
pub open spec fn sigil_valid(s: Seq<char>, sigil: char) -> bool {
    vstd::utf8::encode_utf8(s).len() <= MAX_ID_BYTES && s.len() > 0 && s[0] == sigil
}

/// Whether a string names something on a server: a sigil, a local part, a colon and a server.
pub open spec fn delimited_valid(s: Seq<char>, sigil: char) -> bool {
    &&& sigil_valid(s, sigil)
    &&& s.contains(':')
    &&& server_name_valid(s.skip(text::upto(s, ':') + 1))
}

/// A user: `@`, a local part without a null character, a colon and a server.
pub open spec fn user_id_valid(s: Seq<char>) -> bool {
    delimited_valid(s, '@') && !s.take(text::upto(s, ':')).contains('\0')
}

/// A room alias: `#`, a local part without a null character, a colon and a server.
pub open spec fn room_alias_valid(s: Seq<char>) -> bool {
    delimited_valid(s, '#') && !s.take(text::upto(s, ':')).contains('\0')
}

/// A room: `!` and anything without a null character.
pub open spec fn room_id_valid(s: Seq<char>) -> bool {
    sigil_valid(s, '!') && !s.contains('\0')
}

/// An event: `$` and anything; what follows a colon is a server.
pub open spec fn event_id_valid(s: Seq<char>) -> bool {
    if s.contains(':') {
        delimited_valid(s, '$')
    } else {
        s.len() > 0 && s[0] == '$'
    }
}

/// `<&ruma::ServerName>::try_from`: whether the string is the name of a server. Which texts
/// between brackets are addresses is left to it.
#[verifier::external_body]
pub(crate) fn is_server_name(s: &str) -> (valid: bool)
    ensures
        valid == server_name_valid(s@),
        valid && s@[0] == '[' ==> bracketed_valid(s@.subrange(1, text::upto(s@, ']'))),
{
    <&ruma::ServerName>::try_from(s).is_ok()
}

/// `<&ruma::UserId>::try_from`: whether the string is a user identifier.
#[verifier::external_body]
pub(crate) fn is_user_id(s: &str) -> (valid: bool)
    ensures
        valid == user_id_valid(s@),
{
    <&ruma::UserId>::try_from(s).is_ok()
}

/// `<&ruma::RoomAliasId>::try_from`: whether the string is a room alias.
#[verifier::external_body]
pub(crate) fn is_room_alias(s: &str) -> (valid: bool)
    ensures
        valid == room_alias_valid(s@),
{
    <&ruma::RoomAliasId>::try_from(s).is_ok()
}

/// `<&ruma::RoomId>::try_from`: whether the string is a room identifier.
#[verifier::external_body]
pub(crate) fn is_room_id(s: &str) -> (valid: bool)
    ensures
        valid == room_id_valid(s@),
{
    <&ruma::RoomId>::try_from(s).is_ok()
}

/// `<&ruma::EventId>::try_from`: whether the string is an event identifier.
#[verifier::external_body]
pub(crate) fn is_event_id(s: &str) -> (valid: bool)
    ensures
        valid == event_id_valid(s@),
{
    <&ruma::EventId>::try_from(s).is_ok()
}

/// The server that a delimited identifier names: what follows its first colon.
pub open spec fn server_part(s: Seq<char>) -> Seq<char> {
    s.skip(text::upto(s, ':') + 1)
}

/// The server of a user; `None` when the string is not a user identifier.
pub fn user_server(user: &str) -> (server: Option<&str>)
    ensures
        server is Some == user_id_valid(user@),
        server matches Some(s) ==> s@ == server_part(user@),
{
    if is_user_id(user) {
        match text::split_once(user, ':') {
            Some((_, server)) => Some(server),
            None => None,
        }
    } else {
        None
    }
}

/// Whether a user belongs to the given server.
pub open spec fn on_server(user: Seq<char>, server: Seq<char>) -> bool {
    user_id_valid(user) && server_part(user) == server
}

/// Whether `user` is a user of `server`.
pub fn is_on_server(user: &str, server: &str) -> (yes: bool)
    ensures
        yes == on_server(user@, server@),
{
    match user_server(user) {
        Some(s) => text::str_eq(s, server),
        None => false,
    }
}

/// A user, an alias or an event of a server is a sigil, a local part, a colon and the name of the
/// server, which is the one that it names; the local part of a user and of an alias holds no null
/// character, and all are bounded in length.
pub proof fn law_identifiers_name_their_server(local: Seq<char>, server: Seq<char>, other: Seq<char>)
    requires
        !local.contains(':'),
    ensures
        ({
            let user = seq!['@'] + local + seq![':'] + server;
            let alias = seq!['#'] + local + seq![':'] + server;
            let event = seq!['$'] + local + seq![':'] + server;
            &&& user_id_valid(user) <==> vstd::utf8::encode_utf8(user).len() <= 255 && !local.contains(
                '\0',
            ) && server_name_valid(server)
            &&& room_alias_valid(alias) <==> vstd::utf8::encode_utf8(alias).len() <= 255
                && !local.contains('\0') && server_name_valid(server)
            &&& event_id_valid(event) <==> vstd::utf8::encode_utf8(event).len() <= 255
                && server_name_valid(server)
            &&& server_part(user) == server
            &&& server_part(alias) == server
            &&& on_server(user, other) <==> user_id_valid(user) && other == server
        }),
{
    lemma_delimited('@', local, server);
    lemma_delimited('#', local, server);
    lemma_delimited('$', local, server);
}

proof fn lemma_delimited(sigil: char, local: Seq<char>, server: Seq<char>)
    requires
        !local.contains(':'),
        sigil != ':',
        sigil != '\0',
    ensures
        ({
            let s = seq![sigil] + local + seq![':'] + server;
            &&& s.contains(':')
            &&& text::upto(s, ':') == local.len() + 1
            &&& s.skip(text::upto(s, ':') + 1) == server
            &&& s[0] == sigil
            &&& s.take(text::upto(s, ':')).contains('\0') <==> local.contains('\0')
        }),
{
    let s = seq![sigil] + local + seq![':'] + server;
    let n = local.len() as int + 1;
    assert(s[n] == ':');
    assert forall|j: int| 0 <= j < n implies s[j] != ':' by {
        if j > 0 {
            assert(s[j] == local[j - 1]);
        }
    }
    text::lemma_upto(s, ':', n);
    assert(s.skip(n + 1) =~= server);
    let front = s.take(n);
    assert(front =~= seq![sigil] + local);
    if local.contains('\0') {
        let k = local.index_of('\0');
        assert(front[k + 1] == '\0');
    }
    if front.contains('\0') {
        let k = front.index_of('\0');
        assert(local[k - 1] == '\0');
    }
}

/// What has another sigil, or lacks the colon of a user or an alias, is no such identifier; an
/// event need not name a server, and a room is an exclamation mark and anything of bounded length
/// without a null character.
pub proof fn law_identifiers_start_with_their_sigil(s: Seq<char>, rest: Seq<char>)
    ensures
        user_id_valid(s) ==> s.len() > 0 && s[0] == '@' && s.contains(':'),
        room_alias_valid(s) ==> s.len() > 0 && s[0] == '#' && s.contains(':'),
        room_id_valid(s) ==> s.len() > 0 && s[0] == '!',
        event_id_valid(s) ==> s.len() > 0 && s[0] == '$',
        !rest.contains(':') ==> event_id_valid(seq!['$'] + rest),
        room_id_valid(seq!['!'] + rest) <==> vstd::utf8::encode_utf8(seq!['!'] + rest).len() <= 255
            && !rest.contains('\0'),
{
    let event = seq!['$'] + rest;
    if event.contains(':') {
        let k = event.index_of(':');
        assert(rest[k - 1] == ':');
    }
    let room = seq!['!'] + rest;
    if room.contains('\0') {
        let k = room.index_of('\0');
        assert(rest[k - 1] == '\0');
    }
    if rest.contains('\0') {
        let k = rest.index_of('\0');
        assert(room[k + 1] == '\0');
    }
}

/// Whether every character is a letter, a digit, a hyphen or a dot, and there are any.
pub open spec fn spells_host(s: Seq<char>) -> bool {
    &&& s.len() > 0
    &&& forall|i: int|
        0 <= i < s.len() ==> {
            ||| 'a' <= #[trigger] s[i] && s[i] <= 'z'
            ||| 'A' <= s[i] && s[i] <= 'Z'
            ||| '0' <= s[i] && s[i] <= '9'
            ||| s[i] == '-'
            ||| s[i] == '.'
        }
}

/// A text without a colon or an opening bracket is the name of a server exactly when it spells a
/// host; such a host may have a colon and a port behind it, and then ends before the colon.
pub proof fn law_servers_are_hosts_and_ports(host: Seq<char>, port: Seq<char>)
    requires
        !host.contains(':'),
        !(host.len() > 0 && host[0] == '['),
    ensures
        server_name_valid(host) <==> spells_host(host),
        host_end(host) == host.len(),
        server_name_valid(host + seq![':'] + port) <==> spells_host(host) && text::parsed_number(
            port,
            65536,
        ) is Some,
        host_end(host + seq![':'] + port) == host.len(),
{
    let n = host.len() as int;
    assert forall|j: int| 0 <= j < n implies host[j] != ':' by {}
    text::lemma_upto(host, ':', n);
    if spells_host(host) {
        assert forall|i: int| 0 <= i < n implies host_char(#[trigger] host[i]) by {}
    }
    let s = host + seq![':'] + port;
    assert forall|j: int| 0 <= j < n implies s[j] == host[j] by {}
    assert(s[n] == ':');
    assert(n > 0 ==> s[0] == host[0]);
    text::lemma_upto(s, ':', n);
    assert(s.skip(n + 1) =~= port);
    if server_name_valid(s) {
        assert forall|i: int| 0 <= i < n implies host_char(#[trigger] host[i]) by {
            assert(host_char(s[i]));
        }
    }
    if spells_host(host) {
        assert forall|i: int| 0 <= i < n implies host_char(#[trigger] s[i]) by {
            assert(host_char(host[i]));
        }
    }
}

/// A text that starts with an opening bracket is the name of a server only when what stands
/// between the brackets is an address; the host ends behind the first closing bracket.
pub proof fn law_addresses_stand_in_brackets(address: Seq<char>, port: Seq<char>)
    requires
        !address.contains(']'),
    ensures
        ({
            let host = seq!['['] + address + seq![']'];
            &&& server_name_valid(host) <==> bracketed_valid(address)
            &&& host_end(host) == host.len()
            &&& server_name_valid(host + seq![':'] + port) <==> bracketed_valid(address)
                && text::parsed_number(port, 65536) is Some
            &&& host_end(host + seq![':'] + port) == host.len()
            &&& !server_name_valid(seq!['['] + address)
        }),
{
    let n = address.len() as int;
    let host = seq!['['] + address + seq![']'];
    assert forall|j: int| 0 <= j < n + 1 implies host[j] != ']' by {
        if j > 0 {
            assert(host[j] == address[j - 1]);
        }
    }
    assert(host[n + 1] == ']');
    text::lemma_upto(host, ']', n + 1);
    assert(host.subrange(1, n + 1) =~= address);
    let s = host + seq![':'] + port;
    assert forall|j: int| 0 <= j < n + 1 implies s[j] != ']' by {
        assert(s[j] == host[j]);
    }
    assert(s[n + 1] == ']');
    assert(s[n + 2] == ':');
    text::lemma_upto(s, ']', n + 1);
    assert(s.subrange(1, n + 1) =~= address);
    assert(s.skip(n + 3) =~= port);
    let open = seq!['['] + address;
    if open.contains(']') {
        let k = open.index_of(']');
        assert(address[k - 1] == ']');
    }
    assert(open[0] == '[');
}

} // verus!
