//! Requests to other servers: where they go, what they carry, and what their answers mean.
use crate::codec;
use crate::engine::{ForwardExtremities, MissingEventsQuery, TransportError};
use crate::event;
use crate::ids;
use crate::json;
use crate::json::{Json, JsonObject, JsonView};
use crate::names;
use crate::send;
use crate::strmap::StrMap;
use crate::text;
use vstd::prelude::*;

verus! {

/// How many characters of an answer are logged.
pub const BODY_LOG_LIMIT: usize = 1024;

/// What a body of media may have beyond the content itself, in bytes.
pub const MEDIA_OVERHEAD: usize = 1024;

/// Why a request to another server failed.
#[derive(Debug)]
pub enum FederationClientError {
    /// The server was not reached, or its answer was not understood: the text says how.
    Transport(String),
    /// The server answered with this status.
    Status(u16),
    /// The address of the request could not be built.
    InvalidUrl,
    /// The answer is not what was asked for.
    Malformed(&'static str),
}

impl FederationClientError {
    /// The error in words.
    pub open spec fn words(self) -> Seq<char> {
        match self {
            FederationClientError::Transport(e) => "federation transport error: "@ + e@,
            FederationClientError::Status(code) => "peer returned HTTP "@ + text::decimal(
                code as nat,
            ),
            FederationClientError::InvalidUrl => "could not build federation URL"@,
            FederationClientError::Malformed(m) => "malformed federation response: "@ + m@,
        }
    }

    /// The error in words.
    pub fn message(&self) -> (s: String)
        ensures
            s@ == self.words(),
    {
        match self {
            FederationClientError::Transport(e) => text::concat(
                "federation transport error: ",
                e.as_str(),
            ),
            FederationClientError::Status(code) => text::concat(
                "peer returned HTTP ",
                text::to_decimal(*code as u64).as_str(),
            ),
            FederationClientError::InvalidUrl => "could not build federation URL".to_owned(),
            FederationClientError::Malformed(m) => text::concat(
                "malformed federation response: ",
                m,
            ),
        }
    }

    /// The error as the rest of the server knows it: a status stays one, and the rest is told in
    /// words and may pass.
    pub fn into_transport(self) -> (r: TransportError)
        ensures
            match self {
                FederationClientError::Status(code) => r == TransportError::Status(code),
                _ => r matches TransportError::Transient(s) && s@ == self.words(),
            },
    {
        match self {
            FederationClientError::Status(code) => TransportError::Status(code),
            other => TransportError::Transient(other.message()),
        }
    }
}

/// The host of the name of a server.
pub open spec fn host_of(s: Seq<char>) -> Seq<char> {
    s.take(ids::host_end(s))
}

/// The port of the name of a server.
pub open spec fn port_of(s: Seq<char>) -> Option<nat> {
    if ids::server_name_valid(s) && ids::host_end(s) < s.len() {
        text::parsed_number(s.skip(ids::host_end(s) + 1), 65536)
    } else {
        None
    }
}

/// `ruma::ServerName::port`: the number behind the host, when the string is the name of a server
/// and has one. A string that is no such name has no port.
#[verifier::external_body]
fn server_port(name: &str) -> (port: Option<u16>)
    ensures
        port is Some == port_of(name@) is Some,
        port matches Some(p) ==> port_of(name@) == Some(p as nat),
{
    <&ruma::ServerName>::try_from(name).ok().and_then(|n| n.port())
}

/// The host of the name of a server.
fn host(name: &str) -> (h: &str)
    ensures
        h@ == host_of(name@),
{
    let chars: Vec<char> = text::to_chars(name);
    let bracket: usize = text::position(&chars, ']');
    proof {
        text::lemma_upto_bounds(name@, ']');
        text::lemma_upto_bounds(name@, ':');
    }
    let end: usize = if chars.len() > 0 && chars[0] == '[' && bracket < chars.len() {
        bracket + 1
    } else {
        text::position(&chars, ':')
    };
    let h: &str = vstd::string::StrSliceExecFns::substring_char(name, 0, end);
    assert(h@ =~= host_of(name@));
    h
}

/// The authority of the address of a request. Behind a proxy, the host has a tilde at its end,
/// which no server name holds: a host of digits alone would else be read as a number. A host in
/// brackets needs none. Without a proxy it is the name itself.
pub open spec fn authority_of(proxied: bool, dest: Seq<char>) -> Seq<char> {
    let h = host_of(dest);
    if !proxied || (h.len() > 0 && h[0] == '[') {
        dest
    } else {
        match port_of(dest) {
            Some(port) => h + seq!['~', ':'] + text::decimal(port),
            None => h + seq!['~'],
        }
    }
}

/// How requests are addressed: who sends them, and whether they go through a proxy.
#[derive(Debug)]
pub struct FederationClient {
    pub origin: String,
    pub proxied: bool,
}

/// The verb of a request.
#[derive(Debug, Clone, Copy, PartialEq, Eq, Structural)]
pub enum Verb {
    Get,
    Put,
    Post,
}

/// A request: its verb, its address, who sends it to whom, and its body as JSON text.
#[derive(Debug)]
pub struct Request {
    pub verb: Verb,
    pub url: String,
    pub authorization: String,
    pub body: Option<String>,
}

/// The address that `reqwest` reads in a text, printed again; `None` when it refuses the text.
pub uninterp spec fn parsed_url(text: Seq<char>) -> Option<Seq<char>>;

/// An address with one more segment of its path; `None` when it is no address that has one.
pub uninterp spec fn pushed_segment(url: Seq<char>, segment: Seq<char>) -> Option<Seq<char>>;

/// An address with one more pair in its query; `None` when it is no address.
pub uninterp spec fn appended_pair(url: Seq<char>, key: Seq<char>, value: Seq<char>) -> Option<
    Seq<char>,
>;

/// `reqwest::Url::parse`: the address that a text holds.
#[verifier::external_body]
fn url_parse(text: &str) -> (r: Option<String>)
    ensures
        event::option_view(r) == parsed_url(text@),
{
    let url = reqwest::Url::parse(text).ok()?;
    Some(url.to_string())
}

/// `reqwest::Url::path_segments_mut` and `push`: one more segment of the path, percent-encoded.
#[verifier::external_body]
fn url_push(url: &str, segment: &str) -> (r: Option<String>)
    ensures
        event::option_view(r) == pushed_segment(url@, segment@),
{
    let mut url = reqwest::Url::parse(url).ok()?;
    url.path_segments_mut().ok()?.push(segment);
    Some(url.to_string())
}

/// `reqwest::Url::query_pairs_mut` and `append_pair`: one more pair in the query, encoded.
#[verifier::external_body]
fn url_append(url: &str, key: &str, value: &str) -> (r: Option<String>)
    ensures
        event::option_view(r) == appended_pair(url@, key@, value@),
{
    let mut url = reqwest::Url::parse(url).ok()?;
    url.query_pairs_mut().append_pair(key, value);
    Some(url.to_string())
}

/// An address with segments behind its path.
pub open spec fn with_segments(base: Seq<char>, segments: Seq<Seq<char>>) -> Option<Seq<char>>
    decreases segments.len(),
{
    if segments.len() == 0 {
        parsed_url(base)
    } else {
        match with_segments(base, segments.drop_last()) {
            Some(u) => pushed_segment(u, segments.last()),
            None => None,
        }
    }
}

/// The address that is made of a base, segments of a path and pairs of a query.
pub open spec fn address(
    base: Seq<char>,
    segments: Seq<Seq<char>>,
    pairs: Seq<(Seq<char>, Seq<char>)>,
) -> Option<Seq<char>>
    decreases pairs.len(),
{
    if pairs.len() == 0 {
        with_segments(base, segments)
    } else {
        match address(base, segments, pairs.drop_last()) {
            Some(u) => appended_pair(u, pairs.last().0, pairs.last().1),
            None => None,
        }
    }
}

/// Pairs of strings, as mathematics.
pub open spec fn pairs_of(pairs: Seq<(String, String)>) -> Seq<(Seq<char>, Seq<char>)> {
    Seq::new(pairs.len(), |i: int| (pairs[i].0@, pairs[i].1@))
}

/// Builds an address from a base, segments of a path and pairs of a query.
fn build_url(base: &str, segments: &Vec<String>, pairs: &Vec<(String, String)>) -> (r: Result<
    String,
    FederationClientError,
>)
    ensures
        match address(base@, event::views(segments@), pairs_of(pairs@)) {
            Some(u) => r matches Ok(s) && s@ == u,
            None => r == Err::<String, FederationClientError>(FederationClientError::InvalidUrl),
        },
{
    let ghost all = event::views(segments@);
    let ghost query = pairs_of(pairs@);
    let mut url: Option<String> = url_parse(base);
    let mut i: usize = 0;
    assert(all.take(0) =~= Seq::empty());
    while i < segments.len()
        invariant
            i <= segments@.len(),
            all == event::views(segments@),
            event::option_view(url) == with_segments(base@, all.take(i as int)),
        decreases segments.len() - i,
    {
        assert(all.take(i + 1).drop_last() =~= all.take(i as int));
        url = match url {
            Some(u) => url_push(u.as_str(), segments[i].as_str()),
            None => None,
        };
        i = i + 1;
    }
    assert(all.take(i as int) =~= all);
    let mut j: usize = 0;
    assert(query.take(0) =~= Seq::empty());
    while j < pairs.len()
        invariant
            j <= pairs@.len(),
            query == pairs_of(pairs@),
            event::option_view(url) == address(base@, all, query.take(j as int)),
        decreases pairs.len() - j,
    {
        assert(query.take(j + 1).drop_last() =~= query.take(j as int));
        url = match url {
            Some(u) => url_append(u.as_str(), pairs[j].0.as_str(), pairs[j].1.as_str()),
            None => None,
        };
        j = j + 1;
    }
    assert(query.take(j as int) =~= query);
    match url {
        Some(u) => Ok(u),
        None => Err(FederationClientError::InvalidUrl),
    }
}

/// Texts with commas between them.
pub open spec fn joined(items: Seq<Seq<char>>) -> Seq<char>
    decreases items.len(),
{
    if items.len() == 0 {
        seq![]
    } else if items.len() == 1 {
        items[0]
    } else {
        joined(items.drop_last()) + ","@ + items.last()
    }
}

fn join(items: &Vec<String>) -> (s: String)
    ensures
        s@ == joined(event::views(items@)),
{
    let ghost all = event::views(items@);
    let mut s: String = String::new();
    let mut i: usize = 0;
    assert(s@ =~= joined(all.take(0)));
    while i < items.len()
        invariant
            i <= items@.len(),
            all == event::views(items@),
            s@ == joined(all.take(i as int)),
        decreases items.len() - i,
    {
        assert(all.take(i + 1).drop_last() =~= all.take(i as int));
        if i > 0 {
            s.append(",");
        }
        s.append(items[i].as_str());
        assert(s@ =~= joined(all.take(i + 1)));
        i = i + 1;
    }
    assert(all.take(i as int) =~= all);
    s
}

/// The body of a transaction: the events as they are, and the messages and heads where there are
/// any.
pub open spec fn transaction_text(
    pdus: Seq<Seq<char>>,
    edus: Seq<Seq<char>>,
    heads: Map<Seq<char>, send::HeadsView>,
) -> Seq<char> {
    let head = "{\"pdus\":["@ + joined(pdus) + "]"@;
    let messages = if edus.len() == 0 {
        head
    } else {
        head + ",\"edus\":["@ + joined(edus) + "]"@
    };
    let rooms = if heads.is_empty() {
        messages
    } else {
        messages + ",\"forward_extremities\":"@ + codec::printed(
            JsonView::Object(send::rooms_json(heads)),
        )
    };
    rooms + "}"@
}

/// The body of a transaction.
pub fn transaction_body(
    pdus: &Vec<String>,
    edus: &Vec<String>,
    heads: &StrMap<ForwardExtremities>,
) -> (s: String)
    ensures
        s@ == transaction_text(
            event::views(pdus@),
            event::views(edus@),
            send::heads_view(heads@),
        ),
{
    let mut s: String = "{\"pdus\":[".to_owned();
    s.append(join(pdus).as_str());
    s.append("]");
    if edus.len() > 0 {
        s.append(",\"edus\":[");
        s.append(join(edus).as_str());
        s.append("]");
    }
    let n: usize = heads.len();
    if n > 0 {
        proof {
            let k = heads.keys()[0];
            assert(heads.keys().to_set().contains(k));
            assert(send::heads_view(heads@).contains_key(k));
        }
        s.append(",\"forward_extremities\":");
        s.append(codec::print(&Json::object(send::heads_object(heads))).as_str());
    } else {
        proof {
            assert forall|k: Seq<char>| !send::heads_view(heads@).contains_key(k) by {
                if heads@.contains_key(k) {
                    assert(heads.keys().to_set().contains(k));
                }
            }
            assert(send::heads_view(heads@) =~= Map::empty());
        }
    }
    s.append("}");
    s
}

/// The body of an invitation: the event as it is, the version of the room and stripped state.
pub open spec fn invite_text(
    pdu: Seq<char>,
    room_version: Seq<char>,
    state: Seq<JsonView>,
) -> Seq<char> {
    "{\"event\":"@ + pdu + ",\"room_version\":"@ + codec::printed(JsonView::Text(room_version))
        + ",\"invite_room_state\":"@ + codec::printed(JsonView::Array(state)) + "}"@
}

/// The body of a walk back from `latest` to `earliest`.
pub open spec fn missing_events_json(
    latest: Seq<Seq<char>>,
    earliest: Seq<Seq<char>>,
    limit: int,
    state_dag: bool,
    include_latest: bool,
) -> JsonView {
    JsonView::Object(
        Map::empty().insert("earliest_events"@, send::strings_json(earliest)).insert(
            "latest_events"@,
            send::strings_json(latest),
        ).insert("limit"@, JsonView::Int(limit)).insert("state_dag"@, JsonView::Bool(state_dag)).insert(
            "include_latest_events"@,
            JsonView::Bool(include_latest),
        ),
    )
}

/// An object with one field.
pub open spec fn single(key: Seq<char>, value: JsonView) -> JsonView {
    JsonView::Object(Map::empty().insert(key, value))
}

/// Values given as pairs with one key.
pub open spec fn keyed(key: Seq<char>, values: Seq<Seq<char>>) -> Seq<(Seq<char>, Seq<char>)> {
    Seq::new(values.len(), |i: int| (key, values[i]))
}

fn pairs_with(key: &str, values: &Vec<String>) -> (pairs: Vec<(String, String)>)
    ensures
        pairs_of(pairs@) == keyed(key@, event::views(values@)),
{
    let mut pairs: Vec<(String, String)> = Vec::new();
    let mut i: usize = 0;
    while i < values.len()
        invariant
            i <= values@.len(),
            pairs@.len() == i,
            forall|j: int|
                0 <= j < i ==> (#[trigger] pairs@[j]).0@ == key@ && pairs@[j].1@ == values@[j]@,
        decreases values.len() - i,
    {
        pairs.push((key.to_owned(), values[i].clone()));
        i = i + 1;
    }
    assert(pairs_of(pairs@) =~= keyed(key@, event::views(values@)));
    pairs
}

fn two(a: &str, b: &str) -> (v: Vec<String>)
    ensures
        event::views(v@) == seq![a@, b@],
{
    let mut v: Vec<String> = Vec::new();
    v.push(a.to_owned());
    v.push(b.to_owned());
    assert(event::views(v@) =~= seq![a@, b@]);
    v
}

fn one(a: &str) -> (v: Vec<String>)
    ensures
        event::views(v@) == seq![a@],
{
    let mut v: Vec<String> = Vec::new();
    v.push(a.to_owned());
    assert(event::views(v@) =~= seq![a@]);
    v
}

fn no_pairs() -> (v: Vec<(String, String)>)
    ensures
        pairs_of(v@) == Seq::<(Seq<char>, Seq<char>)>::empty(),
{
    let v: Vec<(String, String)> = Vec::new();
    assert(pairs_of(v@) =~= Seq::<(Seq<char>, Seq<char>)>::empty());
    v
}

impl FederationClient {
    /// The authority of the address of a request.
    pub fn url_authority(&self, dest: &str) -> (s: String)
        ensures
            s@ == authority_of(self.proxied, dest@),
    {
        let h: &str = host(dest);
        let chars: Vec<char> = text::to_chars(h);
        if !self.proxied || (chars.len() > 0 && chars[0] == '[') {
            return dest.to_owned();
        }
        let mut s: String = h.to_owned();
        s.push('~');
        match server_port(dest) {
            Some(port) => {
                s.push(':');
                s.append(text::to_decimal(port as u64).as_str());
                assert(s@ =~= authority_of(self.proxied, dest@));
            },
            None => {
                assert(s@ =~= authority_of(self.proxied, dest@));
            },
        }
        s
    }

    /// Who sends a request to whom, as the header says it.
    pub open spec fn authorization(&self, dest: Seq<char>) -> Seq<char> {
        "X-Matrix origin=\""@ + self.origin@ + "\",destination=\""@ + dest + "\""@
    }

    /// Who sends a request to whom, as the header says it.
    pub fn x_matrix(&self, dest: &str) -> (s: String)
        ensures
            s@ == self.authorization(dest@),
    {
        let mut s: String = text::concat("X-Matrix origin=\"", self.origin.as_str());
        s.append("\",destination=\"");
        s.append(dest);
        s.append("\"");
        s
    }

    /// The address of an endpoint of a server.
    pub open spec fn endpoint(&self, dest: Seq<char>, path: Seq<char>) -> Seq<char> {
        "http://"@ + authority_of(self.proxied, dest) + path
    }

    fn endpoint_url(&self, dest: &str, path: &str) -> (s: String)
        ensures
            s@ == self.endpoint(dest@, path@),
    {
        let mut s: String = text::concat("http://", self.url_authority(dest).as_str());
        s.append(path);
        s
    }

    /// Whether a request has the given verb, address and body, and says who sends it.
    pub open spec fn sends(
        &self,
        r: Request,
        dest: Seq<char>,
        verb: Verb,
        url: Seq<char>,
        body: Option<Seq<char>>,
    ) -> bool {
        &&& r.verb == verb
        &&& r.url@ == url
        &&& r.authorization@ == self.authorization(dest)
        &&& event::option_view(r.body) == body
    }

    /// A request to an address that was built.
    pub fn request(&self, dest: &str, verb: Verb, url: String, body: Option<String>) -> (r: Request)
        ensures
            self.sends(r, dest@, verb, url@, event::option_view(body)),
    {
        Request { verb, url, authorization: self.x_matrix(dest), body }
    }

    fn routed(
        &self,
        dest: &str,
        verb: Verb,
        path: &str,
        segments: Vec<String>,
        pairs: Vec<(String, String)>,
        body: Option<String>,
    ) -> (r: Result<Request, FederationClientError>)
        ensures
            match address(
                self.endpoint(dest@, path@),
                event::views(segments@),
                pairs_of(pairs@),
            ) {
                Some(url) => r matches Ok(q) && self.sends(
                    q,
                    dest@,
                    verb,
                    url,
                    event::option_view(body),
                ),
                None => r == Err::<Request, FederationClientError>(FederationClientError::InvalidUrl),
            },
    {
        match build_url(self.endpoint_url(dest, path).as_str(), &segments, &pairs) {
            Ok(url) => Ok(self.request(dest, verb, url, body)),
            Err(e) => Err(e),
        }
    }

    /// Whether a request is answered for an address that may not be built: it carries what it
    /// should, or the address is no address.
    pub open spec fn asks(
        &self,
        r: Result<Request, FederationClientError>,
        dest: Seq<char>,
        verb: Verb,
        url: Option<Seq<char>>,
        body: Option<Seq<char>>,
    ) -> bool {
        match url {
            Some(u) => r matches Ok(q) && self.sends(q, dest, verb, u, body),
            None => r == Err::<Request, FederationClientError>(FederationClientError::InvalidUrl),
        }
    }

    /// Delivers a transaction.
    pub fn send_transaction(
        &self,
        dest: &str,
        txn_id: &str,
        pdus: &Vec<String>,
        edus: &Vec<String>,
        heads: &StrMap<ForwardExtremities>,
    ) -> (r: Request)
        ensures
            self.sends(
                r,
                dest@,
                Verb::Put,
                self.endpoint(dest@, "/_matrix/federation/v1/send/"@) + txn_id@,
                Some(
                    transaction_text(
                        event::views(pdus@),
                        event::views(edus@),
                        send::heads_view(heads@),
                    ),
                ),
            ),
    {
        let mut url: String = self.endpoint_url(dest, "/_matrix/federation/v1/send/");
        url.append(txn_id);
        self.request(dest, Verb::Put, url, Some(transaction_body(pdus, edus, heads)))
    }

    /// Asks the server of users for their device keys.
    pub fn keys_query(&self, dest: &str, requested: &JsonObject) -> (r: Request)
        ensures
            self.sends(
                r,
                dest@,
                Verb::Post,
                self.endpoint(dest@, "/_matrix/federation/v1/user/keys/query"@),
                Some(codec::printed(single("device_keys"@, JsonView::Object(requested@)))),
            ),
    {
        let url: String = self.endpoint_url(dest, "/_matrix/federation/v1/user/keys/query");
        let mut body: JsonObject = JsonObject::new();
        body.insert("device_keys".to_owned(), Json::object(requested.duplicate()));
        self.request(dest, Verb::Post, url, Some(codec::print(&Json::object(body))))
    }

    /// Claims one-time keys of the users of a server.
    pub fn keys_claim(&self, dest: &str, requested: &JsonObject) -> (r: Request)
        ensures
            self.sends(
                r,
                dest@,
                Verb::Post,
                self.endpoint(dest@, "/_matrix/federation/v1/user/keys/claim"@),
                Some(codec::printed(single("one_time_keys"@, JsonView::Object(requested@)))),
            ),
    {
        let url: String = self.endpoint_url(dest, "/_matrix/federation/v1/user/keys/claim");
        let mut body: JsonObject = JsonObject::new();
        body.insert("one_time_keys".to_owned(), Json::object(requested.duplicate()));
        self.request(dest, Verb::Post, url, Some(codec::print(&Json::object(body))))
    }

    /// Asks for media that a user of a server uploaded.
    pub fn media_download(&self, dest: &str, media_id: &str) -> (r: Request)
        ensures
            self.sends(
                r,
                dest@,
                Verb::Get,
                self.endpoint(dest@, "/_matrix/federation/v1/media/download/"@) + media_id@,
                None,
            ),
    {
        let mut url: String = self.endpoint_url(dest, "/_matrix/federation/v1/media/download/");
        url.append(media_id);
        self.request(dest, Verb::Get, url, None)
    }

    /// Asks for the events between those that are held and the given heads.
    pub fn get_missing_events(
        &self,
        dest: &str,
        room_id: &str,
        latest: &Vec<String>,
        earliest: &Vec<String>,
        limit: u32,
        state_dag: bool,
        include_latest_events: bool,
    ) -> (r: Result<Request, FederationClientError>)
        ensures
            self.asks(
                r,
                dest@,
                Verb::Post,
                address(
                    self.endpoint(dest@, "/_matrix/federation/v1/get_missing_events"@),
                    seq![room_id@],
                    seq![],
                ),
                Some(
                    codec::printed(
                        missing_events_json(
                            event::views(latest@),
                            event::views(earliest@),
                            limit as int,
                            state_dag,
                            include_latest_events,
                        ),
                    ),
                ),
            ),
    {
        let mut body: JsonObject = JsonObject::new();
        body.insert("earliest_events".to_owned(), send::json_strings(earliest));
        body.insert("latest_events".to_owned(), send::json_strings(latest));
        body.insert("limit".to_owned(), Json::unsigned(limit as u64));
        body.insert("state_dag".to_owned(), Json::boolean(state_dag));
        body.insert("include_latest_events".to_owned(), Json::boolean(include_latest_events));
        self.routed(
            dest,
            Verb::Post,
            "/_matrix/federation/v1/get_missing_events",
            one(room_id),
            no_pairs(),
            Some(codec::print(&Json::object(body))),
        )
    }

    /// Asks the server that sent an event for what it refers to.
    pub fn fetch(&self, q: &MissingEventsQuery) -> (r: Result<Request, TransportError>)
        ensures
            ({
                let dest = q.origin@;
                match address(
                    self.endpoint(dest, "/_matrix/federation/v1/get_missing_events"@),
                    seq![q.room_id@],
                    seq![],
                ) {
                    Some(url) => r matches Ok(request) && self.sends(
                        request,
                        dest,
                        Verb::Post,
                        url,
                        Some(
                            codec::printed(
                                missing_events_json(
                                    event::views(q.latest@),
                                    event::views(q.earliest@),
                                    q.limit as int,
                                    q.state_dag,
                                    q.include_latest_events,
                                ),
                            ),
                        ),
                    ),
                    None => r matches Err(TransportError::Transient(s)) && s@
                        == FederationClientError::InvalidUrl.words(),
                }
            }),
    {
        match self.get_missing_events(
            q.origin.as_str(),
            q.room_id.as_str(),
            &q.latest,
            &q.earliest,
            q.limit,
            q.state_dag,
            q.include_latest_events,
        ) {
            Ok(request) => Ok(request),
            Err(e) => Err(e.into_transport()),
        }
    }

    /// Asks for older events of a room.
    pub fn backfill(&self, dest: &str, room_id: &str, seeds: &Vec<String>, limit: u32) -> (r: Result<
        Request,
        FederationClientError,
    >)
        ensures
            self.asks(
                r,
                dest@,
                Verb::Get,
                address(
                    self.endpoint(dest@, "/_matrix/federation/v1/backfill"@),
                    seq![room_id@],
                    keyed("v"@, event::views(seeds@)).push(
                        ("limit"@, text::decimal(limit as nat)),
                    ),
                ),
                None,
            ),
    {
        let mut pairs: Vec<(String, String)> = pairs_with("v", seeds);
        let ghost before = pairs@;
        pairs.push(("limit".to_owned(), text::to_decimal(limit as u64)));
        assert(pairs_of(pairs@) =~= pairs_of(before).push(("limit"@, text::decimal(limit as nat))));
        self.routed(
            dest,
            Verb::Get,
            "/_matrix/federation/v1/backfill",
            one(room_id),
            pairs,
            None,
        )
    }

    /// Asks for a template with which a user can join a room, in one of the given versions.
    pub fn make_join(&self, dest: &str, room_id: &str, user_id: &str, vers: &Vec<String>) -> (r: Result<
        Request,
        FederationClientError,
    >)
        ensures
            self.asks(
                r,
                dest@,
                Verb::Get,
                address(
                    self.endpoint(dest@, "/_matrix/federation/v1/make_join"@),
                    seq![room_id@, user_id@],
                    keyed("ver"@, event::views(vers@)),
                ),
                None,
            ),
    {
        self.routed(
            dest,
            Verb::Get,
            "/_matrix/federation/v1/make_join",
            two(room_id, user_id),
            pairs_with("ver", vers),
            None,
        )
    }

    /// Asks for a template with which a user can leave a room.
    pub fn make_leave(&self, dest: &str, room_id: &str, user_id: &str, vers: &Vec<String>) -> (r: Result<
        Request,
        FederationClientError,
    >)
        ensures
            self.asks(
                r,
                dest@,
                Verb::Get,
                address(
                    self.endpoint(dest@, "/_matrix/federation/v1/make_leave"@),
                    seq![room_id@, user_id@],
                    keyed("ver"@, event::views(vers@)),
                ),
                None,
            ),
    {
        self.routed(
            dest,
            Verb::Get,
            "/_matrix/federation/v1/make_leave",
            two(room_id, user_id),
            pairs_with("ver", vers),
            None,
        )
    }

    /// Asks the server of an alias for its room.
    pub fn query_directory(&self, dest: &str, room_alias: &str) -> (r: Result<
        Request,
        FederationClientError,
    >)
        ensures
            self.asks(
                r,
                dest@,
                Verb::Get,
                address(
                    self.endpoint(dest@, "/_matrix/federation/v1/query/directory"@),
                    seq![],
                    seq![("room_alias"@, room_alias@)],
                ),
                None,
            ),
    {
        let none: Vec<String> = Vec::new();
        assert(event::views(none@) =~= seq![]);
        let mut pairs: Vec<(String, String)> = Vec::new();
        pairs.push(("room_alias".to_owned(), room_alias.to_owned()));
        assert(pairs_of(pairs@) =~= seq![("room_alias"@, room_alias@)]);
        self.routed(dest, Verb::Get, "/_matrix/federation/v1/query/directory", none, pairs, None)
    }

    /// Sends the event with which a user joins a room, as it is.
    pub fn send_join(&self, dest: &str, room_id: &str, event_id: &str, pdu: &str) -> (r: Result<
        Request,
        FederationClientError,
    >)
        ensures
            self.asks(
                r,
                dest@,
                Verb::Put,
                address(
                    self.endpoint(dest@, "/_matrix/federation/v2/send_join"@),
                    seq![room_id@, event_id@],
                    seq![],
                ),
                Some(pdu@),
            ),
    {
        self.routed(
            dest,
            Verb::Put,
            "/_matrix/federation/v2/send_join",
            two(room_id, event_id),
            no_pairs(),
            Some(pdu.to_owned()),
        )
    }

    /// Sends the event with which a user leaves a room, as it is.
    pub fn send_leave(&self, dest: &str, room_id: &str, event_id: &str, pdu: &str) -> (r: Result<
        Request,
        FederationClientError,
    >)
        ensures
            self.asks(
                r,
                dest@,
                Verb::Put,
                address(
                    self.endpoint(dest@, "/_matrix/federation/v2/send_leave"@),
                    seq![room_id@, event_id@],
                    seq![],
                ),
                Some(pdu@),
            ),
    {
        self.routed(
            dest,
            Verb::Put,
            "/_matrix/federation/v2/send_leave",
            two(room_id, event_id),
            no_pairs(),
            Some(pdu.to_owned()),
        )
    }

    /// Sends an invitation, with the version of the room and what of its state the invited user
    /// is shown.
    pub fn invite(
        &self,
        dest: &str,
        room_id: &str,
        event_id: &str,
        pdu: &str,
        room_version: &str,
        state: Vec<Json>,
    ) -> (r: Result<Request, FederationClientError>)
        ensures
            self.asks(
                r,
                dest@,
                Verb::Put,
                address(
                    self.endpoint(dest@, "/_matrix/federation/v2/invite"@),
                    seq![room_id@, event_id@],
                    seq![],
                ),
                Some(invite_text(pdu@, room_version@, json::array_view(state@))),
            ),
    {
        let mut body: String = text::concat("{\"event\":", pdu);
        body.append(",\"room_version\":");
        body.append(codec::print(&Json::text(room_version.to_owned())).as_str());
        body.append(",\"invite_room_state\":");
        body.append(codec::print(&Json::array(state)).as_str());
        body.append("}");
        self.routed(
            dest,
            Verb::Put,
            "/_matrix/federation/v2/invite",
            two(room_id, event_id),
            no_pairs(),
            Some(body),
        )
    }
}

/// Whether a status says that a request succeeded.
pub open spec fn is_success(status: u16) -> bool {
    200 <= status < 300
}

/// What the status of an answer means: everything but success is an error.
pub fn check_status(status: u16) -> (r: Result<(), FederationClientError>)
    ensures
        r == if is_success(status) {
            Ok::<(), FederationClientError>(())
        } else {
            Err::<(), FederationClientError>(FederationClientError::Status(status))
        },
{
    if 200 <= status && status < 300 {
        Ok(())
    } else {
        Err(FederationClientError::Status(status))
    }
}

/// What is logged of the body of an answer: no more than so many characters of its start.
pub fn logged_body(body: &str) -> (s: String)
    ensures
        s@ == if body@.len() <= BODY_LOG_LIMIT {
            body@
        } else {
            body@.take(BODY_LOG_LIMIT as int)
        },
{
    let n: usize = vstd::string::StrSliceExecFns::unicode_len(body);
    let end: usize = if n <= BODY_LOG_LIMIT {
        n
    } else {
        BODY_LOG_LIMIT
    };
    let s: &str = vstd::string::StrSliceExecFns::substring_char(body, 0, end);
    assert(body@.subrange(0, end as int) =~= if body@.len() <= BODY_LOG_LIMIT {
        body@
    } else {
        body@.take(BODY_LOG_LIMIT as int)
    });
    s.to_owned()
}

/// The one-time keys that the answer to a claim holds; none when it has no table of them.
pub fn claimed_keys(body: &Json) -> (r: Json)
    ensures
        r@ == match body@.field("one_time_keys"@) {
            Some(JsonView::Object(m)) => JsonView::Object(m),
            _ => JsonView::Object(Map::empty()),
        },
{
    match body.get("one_time_keys") {
        Some(v) => match v.as_object() {
            Some(m) => Json::object(m.duplicate()),
            None => Json::object(JsonObject::new()),
        },
        None => Json::object(JsonObject::new()),
    }
}

/// Media of another server.
#[derive(Debug)]
pub struct StoredMedia {
    pub content_type: String,
    pub filename: Option<String>,
    pub bytes: Vec<u8>,
}

/// What is wrong with an answer that should hold media of at most `cap` bytes: too long by what
/// it declares, not in parts, too long as a body, without content, or content that is too long.
pub open spec fn media_fault(
    cap: int,
    declared: Option<u64>,
    in_parts: bool,
    body_len: int,
    content_len: Option<int>,
) -> Option<Seq<char>> {
    if (declared matches Some(n) && n > cap + MEDIA_OVERHEAD) {
        Some("media over the cap"@)
    } else if !in_parts {
        Some("not multipart/mixed"@)
    } else if body_len > cap + MEDIA_OVERHEAD {
        Some("media over the cap"@)
    } else {
        match content_len {
            None => Some("no content part"@),
            Some(n) => if n > cap {
                Some("media over the cap"@)
            } else {
                None
            },
        }
    }
}

/// Refuses an answer that declares to be too long, before its body is read.
pub fn check_declared_length(cap: usize, declared: Option<u64>) -> (r: Result<(), FederationClientError>)
    ensures
        r == if (declared matches Some(n) && n > cap + MEDIA_OVERHEAD) {
            Err::<(), FederationClientError>(FederationClientError::Malformed("media over the cap"))
        } else {
            Ok::<(), FederationClientError>(())
        },
{
    match declared {
        Some(n) => if n as u128 > cap as u128 + MEDIA_OVERHEAD as u128 {
            Err(FederationClientError::Malformed("media over the cap"))
        } else {
            Ok(())
        },
        None => Ok(()),
    }
}

/// The media of an answer: `in_parts` says whether it is in parts, `body_len` how long its body
/// is, and `content` what its part of content holds, with its type.
pub fn media_of(
    cap: usize,
    declared: Option<u64>,
    in_parts: bool,
    body_len: usize,
    content: Option<(String, Vec<u8>)>,
) -> (r: Result<StoredMedia, FederationClientError>)
    ensures
        match media_fault(
            cap as int,
            declared,
            in_parts,
            body_len as int,
            match content {
                Some((_, bytes)) => Some(bytes@.len() as int),
                None => None,
            },
        ) {
            Some(fault) => r matches Err(FederationClientError::Malformed(m)) && m@ == fault,
            None => r matches Ok(media) && (content matches Some((content_type, bytes))
                && media.content_type == content_type && media.bytes == bytes) && media.filename is None,
        },
{
    if let Err(e) = check_declared_length(cap, declared) {
        return Err(e);
    }
    if !in_parts {
        return Err(FederationClientError::Malformed("not multipart/mixed"));
    }
    if body_len as u128 > cap as u128 + MEDIA_OVERHEAD as u128 {
        return Err(FederationClientError::Malformed("media over the cap"));
    }
    match content {
        None => Err(FederationClientError::Malformed("no content part")),
        Some((content_type, bytes)) => if bytes.len() > cap {
            Err(FederationClientError::Malformed("media over the cap"))
        } else {
            Ok(StoredMedia { content_type, filename: None, bytes })
        },
    }
}

/// The tilde marks the end of the host: behind a proxy, the authority of a host without brackets
/// has one, and what comes before the first one is the host. Every other authority is the name
/// of the server.
pub proof fn law_the_tilde_marks_the_host(proxied: bool, dest: Seq<char>)
    requires
        ids::server_name_valid(dest),
    ensures
        ({
            let a = authority_of(proxied, dest);
            let marked = proxied && dest[0] != '[';
            &&& marked ==> a.contains('~') && a.take(text::upto(a, '~')) == host_of(dest)
            &&& !marked ==> a == dest
        }),
{
    let h = host_of(dest);
    let a = authority_of(proxied, dest);
    text::lemma_upto_bounds(dest, ']');
    text::lemma_upto_bounds(dest, ':');
    if proxied && dest[0] != '[' {
        let n = h.len() as int;
        assert(a[n] == '~');
        assert forall|j: int| 0 <= j < n implies a[j] != '~' by {
            assert(a[j] == dest[j]);
            assert(ids::host_char(dest[j]));
        }
        text::lemma_upto(a, '~', n);
        assert(a.take(n) =~= h);
    }
}

/// No two servers have the same authority without a proxy, and behind one two servers with the
/// same authority have the same host and the same port.
pub proof fn law_authorities_tell_servers_apart(proxied: bool, a: Seq<char>, b: Seq<char>)
    requires
        ids::server_name_valid(a),
        ids::server_name_valid(b),
        authority_of(proxied, a) == authority_of(proxied, b),
    ensures
        !proxied ==> a == b,
        host_of(a) == host_of(b),
        port_of(a) == port_of(b),
{
    law_the_tilde_marks_the_host(proxied, a);
    law_the_tilde_marks_the_host(proxied, b);
    text::lemma_upto_bounds(a, ']');
    text::lemma_upto_bounds(a, ':');
    text::lemma_upto_bounds(b, ']');
    text::lemma_upto_bounds(b, ':');
    if proxied {
        let x = authority_of(proxied, a);
        assert(x[0] == a[0]);
        assert(x[0] == b[0]);
        if a[0] != '[' {
            let n = host_of(a).len() as int;
            match (port_of(a), port_of(b)) {
                (Some(p), Some(q)) => {
                    assert(x.skip(n + 2) =~= text::decimal(p));
                    assert(x.skip(n + 2) =~= text::decimal(q));
                    text::lemma_decimal_injective(p, q);
                },
                (Some(p), None) => {
                    assert(x.len() >= n + 2);
                },
                (None, Some(q)) => {
                    assert(x.len() >= n + 2);
                },
                (None, None) => {},
            }
        }
    }
}

/// Every event of a transaction stands in its body as it is.
pub proof fn law_events_are_sent_as_they_are(
    pdus: Seq<Seq<char>>,
    edus: Seq<Seq<char>>,
    heads: Map<Seq<char>, send::HeadsView>,
    i: int,
)
    requires
        0 <= i < pdus.len(),
    ensures
        exists|at: int| #[trigger] text::has_at(transaction_text(pdus, edus, heads), pdus[i], at),
{
    let body = transaction_text(pdus, edus, heads);
    let at = lemma_joined(pdus, i);
    let start = "{\"pdus\":["@.len() as int;
    let n = pdus[i].len() as int;
    assert(body.subrange(start, start + joined(pdus).len()) =~= joined(pdus));
    assert(body.subrange(start + at, start + at + n) =~= joined(pdus).subrange(at, at + n));
    assert(text::has_at(body, pdus[i], start + at));
}

proof fn lemma_joined(items: Seq<Seq<char>>, i: int) -> (at: int)
    requires
        0 <= i < items.len(),
    ensures
        text::has_at(joined(items), items[i], at),
    decreases items.len(),
{
    let whole = joined(items);
    let n = items[i].len() as int;
    if items.len() == 1 {
        assert(whole.subrange(0, n) =~= items[i]);
        0
    } else if i == items.len() - 1 {
        let at = whole.len() - n;
        assert(whole.subrange(at, at + n) =~= items[i]);
        at
    } else {
        let front = items.drop_last();
        let at = lemma_joined(front, i);
        assert(whole.subrange(at, at + n) =~= joined(front).subrange(at, at + n));
        at
    }
}

/// Media that is taken has no more than `cap` bytes.
pub proof fn law_media_stays_under_the_cap(
    cap: int,
    declared: Option<u64>,
    in_parts: bool,
    body_len: int,
    content_len: Option<int>,
)
    requires
        media_fault(cap, declared, in_parts, body_len, content_len) is None,
    ensures
        content_len matches Some(n) && n <= cap,
        body_len <= cap + MEDIA_OVERHEAD,
{
}

/// A request carries the verb, the address and the body that it should, and says who sends it to
/// whom. Its address is that of the server, or the server's host behind a proxy, and the path.
pub proof fn law_requests_say_who_sends_them(
    client: FederationClient,
    r: Request,
    dest: Seq<char>,
    verb: Verb,
    path: Seq<char>,
    url: Seq<char>,
    body: Option<Seq<char>>,
)
    requires
        client.sends(r, dest, verb, url, body),
    ensures
        r.verb == verb,
        r.url@ == url,
        r.authorization@ == "X-Matrix origin=\""@ + client.origin@ + "\",destination=\""@ + dest
            + "\""@,
        body matches Some(b) ==> (r.body matches Some(s) && s@ == b),
        body is None ==> r.body is None,
        client.endpoint(dest, path) == "http://"@ + authority_of(client.proxied, dest) + path,
{
}

/// A request for an address that can be built is the request for that address, and there is none
/// for one that cannot.
pub proof fn law_requests_need_an_address(
    client: FederationClient,
    r: Result<Request, FederationClientError>,
    dest: Seq<char>,
    verb: Verb,
    url: Option<Seq<char>>,
    body: Option<Seq<char>>,
)
    requires
        client.asks(r, dest, verb, url, body),
    ensures
        r is Ok <==> url is Some,
        r matches Ok(q) ==> q.verb == verb && Some(q.url@) == url && event::option_view(q.body) == body,
        r matches Err(e) ==> e is InvalidUrl,
{
}

/// An address is that of its base, with each segment behind its path in turn, and then each pair
/// behind its query in turn.
pub proof fn law_addresses_are_built_in_order(
    base: Seq<char>,
    segments: Seq<Seq<char>>,
    segment: Seq<char>,
    pairs: Seq<(Seq<char>, Seq<char>)>,
    key: Seq<char>,
    value: Seq<char>,
)
    ensures
        address(base, seq![], seq![]) == parsed_url(base),
        address(base, segments.push(segment), seq![]) == match address(base, segments, seq![]) {
            Some(u) => pushed_segment(u, segment),
            None => None,
        },
        address(base, segments, pairs.push((key, value))) == match address(base, segments, pairs) {
            Some(u) => appended_pair(u, key, value),
            None => None,
        },
{
    assert(segments.push(segment).drop_last() =~= segments);
    assert(pairs.push((key, value)).drop_last() =~= pairs);
}

/// Values that are given under one key each stand under it, in order.
pub proof fn law_values_are_given_in_order(key: Seq<char>, values: Seq<Seq<char>>, i: int)
    requires
        0 <= i < values.len(),
    ensures
        keyed(key, values).len() == values.len(),
        keyed(key, values)[i] == (key, values[i]),
{
}

/// The body of a transaction is an object of its events, in order and as they are, with its
/// messages behind them where it has any, and the heads where it has any.
pub proof fn law_transactions_are_written_out(
    pdus: Seq<Seq<char>>,
    edus: Seq<Seq<char>>,
    heads: Map<Seq<char>, send::HeadsView>,
    item: Seq<char>,
)
    ensures
        joined(seq![]) == Seq::<char>::empty(),
        joined(seq![item]) == item,
        pdus.len() > 0 ==> joined(pdus.push(item)) == joined(pdus) + ","@ + item,
        edus.len() == 0 && heads.is_empty() ==> transaction_text(pdus, edus, heads) == "{\"pdus\":["@
            + joined(pdus) + "]"@ + "}"@,
        edus.len() > 0 && heads.is_empty() ==> transaction_text(pdus, edus, heads) == "{\"pdus\":["@
            + joined(pdus) + "]"@ + ",\"edus\":["@ + joined(edus) + "]"@ + "}"@,
        edus.len() == 0 && !heads.is_empty() ==> transaction_text(pdus, edus, heads) == "{\"pdus\":["@
            + joined(pdus) + "]"@ + ",\"forward_extremities\":"@ + codec::printed(
            JsonView::Object(send::rooms_json(heads)),
        ) + "}"@,
        edus.len() > 0 && !heads.is_empty() ==> transaction_text(pdus, edus, heads) == "{\"pdus\":["@
            + joined(pdus) + "]"@ + ",\"edus\":["@ + joined(edus) + "]"@
            + ",\"forward_extremities\":"@ + codec::printed(JsonView::Object(send::rooms_json(heads)))
            + "}"@,
{
    assert(pdus.push(item).drop_last() =~= pdus);
}

/// The body of an invitation holds the event as it is, the version of the room and the state that
/// the invited user is shown.
pub proof fn law_invitations_are_written_out(
    pdu: Seq<char>,
    room_version: Seq<char>,
    state: Seq<JsonView>,
)
    ensures
        invite_text(pdu, room_version, state) == "{\"event\":"@ + pdu + ",\"room_version\":"@
            + codec::printed(JsonView::Text(room_version)) + ",\"invite_room_state\":"@ + codec::printed(
            JsonView::Array(state),
        ) + "}"@,
{
}

/// A walk back says where it starts and where it ends, how far it goes at most, and which events
/// it follows.
pub proof fn law_walks_say_from_where_to_where(
    latest: Seq<Seq<char>>,
    earliest: Seq<Seq<char>>,
    limit: int,
    state_dag: bool,
    include_latest: bool,
    i: int,
)
    ensures
        ({
            let body = missing_events_json(latest, earliest, limit, state_dag, include_latest);
            &&& body.field("limit"@) == Some(JsonView::Int(limit))
            &&& body.field("state_dag"@) == Some(JsonView::Bool(state_dag))
            &&& body.field("include_latest_events"@) == Some(JsonView::Bool(include_latest))
            &&& body.field("latest_events"@) matches Some(JsonView::Array(from))
            &&& body.field("earliest_events"@) matches Some(JsonView::Array(to))
            &&& from.len() == latest.len()
            &&& to.len() == earliest.len()
            &&& 0 <= i < latest.len() ==> from[i] == JsonView::Text(latest[i])
            &&& 0 <= i < earliest.len() ==> to[i] == JsonView::Text(earliest[i])
        }),
{
    names::lemma_walk_names();
}

/// An object with one field holds the value under the key, and nothing else.
pub proof fn law_single_fields(key: Seq<char>, value: JsonView, other: Seq<char>)
    ensures
        single(key, value).field(key) == Some(value),
        other != key ==> single(key, value).field(other) is None,
{
}

/// What an answer that should hold media is refused for: being longer than allowed, by what it
/// declares, as a body or by its content, not being in parts, and having no content.
pub proof fn law_which_media_is_refused(
    cap: int,
    declared: Option<u64>,
    in_parts: bool,
    body_len: int,
    content_len: Option<int>,
)
    ensures
        ({
            let fault = media_fault(cap, declared, in_parts, body_len, content_len);
            let long = declared matches Some(n) && n > cap + 1024;
            &&& long ==> fault == Some("media over the cap"@)
            &&& !long && !in_parts ==> fault == Some("not multipart/mixed"@)
            &&& !long && in_parts && body_len > cap + 1024 ==> fault == Some("media over the cap"@)
            &&& !long && in_parts && body_len <= cap + 1024 && content_len is None ==> fault == Some(
                "no content part"@,
            )
            &&& !long && in_parts && body_len <= cap + 1024 ==> (content_len matches Some(n) ==> fault
                == if n > cap {
                Some("media over the cap"@)
            } else {
                None
            })
        }),
{
}

/// Behind a proxy a server without brackets is reached at its host with a tilde, and its port
/// behind that where it has one; every other is reached at its name.
pub proof fn law_where_a_server_is_reached(dest: Seq<char>, port: nat)
    ensures
        authority_of(false, dest) == dest,
        host_of(dest).len() > 0 && host_of(dest)[0] == '[' ==> authority_of(true, dest) == dest,
        !(host_of(dest).len() > 0 && host_of(dest)[0] == '[') && port_of(dest) == Some(port)
            ==> authority_of(true, dest) == host_of(dest) + seq!['~', ':'] + text::decimal(port),
        !(host_of(dest).len() > 0 && host_of(dest)[0] == '[') && port_of(dest) is None ==> authority_of(
            true,
            dest,
        ) == host_of(dest) + seq!['~'],
{
}

/// The statuses from 200 up to 300 are those of success.
pub proof fn law_which_statuses_are_success(status: u16)
    ensures
        is_success(status) <==> 200 <= status <= 299,
{
}

/// An error says what went wrong, and with what.
pub proof fn law_errors_are_put_in_words(e: String, code: u16, m: &'static str)
    ensures
        FederationClientError::Transport(e).words() == "federation transport error: "@ + e@,
        FederationClientError::Status(code).words() == "peer returned HTTP "@ + text::decimal(
            code as nat,
        ),
        FederationClientError::InvalidUrl.words() == "could not build federation URL"@,
        FederationClientError::Malformed(m).words() == "malformed federation response: "@ + m@,
{
}

/// The name of a server is a host and perhaps a port, from 0 to 65535, behind a colon.
pub proof fn law_hosts_and_ports_are_told_apart(host: Seq<char>, n: nat)
    requires
        ids::spells_host(host),
    ensures
        ({
            let whole = host + seq![':'] + text::decimal(n);
            &&& host_of(host) == host
            &&& port_of(host) is None
            &&& host_of(whole) == host
            &&& port_of(whole) == if n <= 65535 {
                Some(n)
            } else {
                None
            }
        }),
{
    if host.contains(':') {
        let k = host.index_of(':');
        assert(host[k] == ':');
    }
    assert(host[0] != '[');
    let port = text::decimal(n);
    ids::law_servers_are_hosts_and_ports(host, port);
    text::lemma_decimal(n);
    assert('0' <= port[0] <= '9');
    let whole = host + seq![':'] + port;
    assert(whole.take(host.len() as int) =~= host);
    assert(host.take(host.len() as int) =~= host);
    assert(whole.skip(host.len() as int + 1) =~= port);
}

} // verus!
