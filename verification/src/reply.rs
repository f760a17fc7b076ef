//! What a handler answers: a status and a JSON body, and the errors of federation handlers.
use crate::engine::{StorageError, VersionError};
use crate::event::Event;
use crate::json::{Json, JsonObject, JsonView};
use crate::names;
use crate::text;
use vstd::prelude::*;

verus! {

/// The HTTP statuses that are answered with.
pub const OK: u16 = 200;

pub const BAD_REQUEST: u16 = 400;

pub const UNAUTHORIZED: u16 = 401;

pub const FORBIDDEN: u16 = 403;

pub const NOT_FOUND: u16 = 404;

pub const CONFLICT: u16 = 409;

pub const INTERNAL_SERVER_ERROR: u16 = 500;

pub const BAD_GATEWAY: u16 = 502;

pub const GATEWAY_TIMEOUT: u16 = 504;

/// An answer: an HTTP status and a JSON body.
pub struct Reply {
    pub status: u16,
    pub body: Json,
}

/// An answer as mathematics.
#[verifier::ext_equal]
pub struct ReplyView {
    pub status: int,
    pub body: JsonView,
}

impl View for Reply {
    type V = ReplyView;

    open spec fn view(&self) -> ReplyView {
        ReplyView { status: self.status as int, body: self.body@ }
    }
}

/// The body of an error: a code and a message.
pub open spec fn error_body(errcode: Seq<char>, message: Seq<char>) -> JsonView {
    JsonView::Object(
        Map::empty().insert("errcode"@, JsonView::Text(errcode)).insert(
            "error"@,
            JsonView::Text(message),
        ),
    )
}

/// An error as an answer.
pub open spec fn error_view(status: u16, errcode: Seq<char>, message: Seq<char>) -> ReplyView {
    ReplyView { status: status as int, body: error_body(errcode, message) }
}

/// An error as an answer.
pub fn error_response(status: u16, errcode: &str, message: &str) -> (r: Reply)
    ensures
        r@ == error_view(status, errcode@, message@),
{
    let mut body: JsonObject = JsonObject::new();
    body.insert("errcode".to_owned(), Json::text(errcode.to_owned()));
    body.insert("error".to_owned(), Json::text(message.to_owned()));
    Reply { status, body: Json::object(body) }
}

/// An error of a federation handler.
#[derive(Debug)]
pub enum FedError {
    /// The request is malformed.
    BadRequest(&'static str),
    /// The sender did not say who it is, or is not who it says.
    Unauthorized(&'static str),
    /// The sender may not do this.
    Forbidden(&'static str),
    /// The sender does not speak the version of the room, which is the one given.
    IncompatibleRoomVersion(String),
    /// The room is not known here.
    RoomNotFound,
    /// Something here went wrong, apart from the store.
    Internal(&'static str),
    /// The store failed.
    Storage(StorageError),
}

impl FedError {
    /// The error in words.
    pub fn message(&self) -> (s: String)
        ensures
            s@ == match *self {
                FedError::BadRequest(m) => "bad request: "@ + m@,
                FedError::Unauthorized(m) => "unauthorized: "@ + m@,
                FedError::Forbidden(m) => "forbidden: "@ + m@,
                FedError::IncompatibleRoomVersion(v) => "incompatible room version (supported: "@
                    + v@ + ")"@,
                FedError::RoomNotFound => "room not found"@,
                FedError::Internal(m) => "internal: "@ + m@,
                FedError::Storage(e) => "storage: "@ + e.message@,
            },
    {
        match self {
            FedError::BadRequest(m) => text::concat("bad request: ", m),
            FedError::Unauthorized(m) => text::concat("unauthorized: ", m),
            FedError::Forbidden(m) => text::concat("forbidden: ", m),
            FedError::IncompatibleRoomVersion(v) => {
                let mut s: String = text::concat(
                    "incompatible room version (supported: ",
                    v.as_str(),
                );
                s.append(")");
                s
            },
            FedError::RoomNotFound => "room not found".to_owned(),
            FedError::Internal(m) => text::concat("internal: ", m),
            FedError::Storage(e) => text::concat("storage: ", e.message.as_str()),
        }
    }

    /// The answer that an error stands for.
    pub open spec fn response(self) -> ReplyView {
        match self {
            FedError::BadRequest(m) => error_view(BAD_REQUEST, "M_INVALID_PARAM"@, m@),
            FedError::Unauthorized(m) => error_view(UNAUTHORIZED, "M_UNAUTHORIZED"@, m@),
            FedError::Forbidden(m) => error_view(FORBIDDEN, "M_FORBIDDEN"@, m@),
            FedError::IncompatibleRoomVersion(v) => ReplyView {
                status: BAD_REQUEST as int,
                body: JsonView::Object(
                    Map::empty().insert(
                        "errcode"@,
                        JsonView::Text("M_INCOMPATIBLE_ROOM_VERSION"@),
                    ).insert(
                        "error"@,
                        JsonView::Text("room version not supported by the requester"@),
                    ).insert("room_version"@, JsonView::Text(v@)),
                ),
            },
            FedError::RoomNotFound => error_view(NOT_FOUND, "M_NOT_FOUND"@, "room not found"@),
            FedError::Internal(m) => error_view(INTERNAL_SERVER_ERROR, "M_UNKNOWN"@, m@),
            FedError::Storage(e) => error_view(INTERNAL_SERVER_ERROR, "M_UNKNOWN"@, e.message@),
        }
    }

    /// The answer that an error stands for.
    pub fn into_response(self) -> (r: Reply)
        ensures
            r@ == self.response(),
    {
        match self {
            FedError::IncompatibleRoomVersion(supported) => {
                let mut body: JsonObject = JsonObject::new();
                body.insert(
                    "errcode".to_owned(),
                    Json::text("M_INCOMPATIBLE_ROOM_VERSION".to_owned()),
                );
                body.insert(
                    "error".to_owned(),
                    Json::text("room version not supported by the requester".to_owned()),
                );
                body.insert("room_version".to_owned(), Json::text(supported));
                Reply { status: BAD_REQUEST, body: Json::object(body) }
            },
            FedError::BadRequest(m) => error_response(BAD_REQUEST, "M_INVALID_PARAM", m),
            FedError::Unauthorized(m) => error_response(UNAUTHORIZED, "M_UNAUTHORIZED", m),
            FedError::Forbidden(m) => error_response(FORBIDDEN, "M_FORBIDDEN", m),
            FedError::RoomNotFound => error_response(NOT_FOUND, "M_NOT_FOUND", "room not found"),
            FedError::Internal(m) => error_response(INTERNAL_SERVER_ERROR, "M_UNKNOWN", m),
            FedError::Storage(e) => error_response(
                INTERNAL_SERVER_ERROR,
                "M_UNKNOWN",
                e.message.as_str(),
            ),
        }
    }

    /// The error for a room whose version cannot be told: a room that is not known is not found,
    /// and the rest is a fault here.
    pub fn from_version(e: VersionError) -> (r: FedError)
        ensures
            r == match e {
                VersionError::UnknownRoom => FedError::RoomNotFound,
                VersionError::Unsupported(_) => FedError::Internal(
                    "room is of an unsupported room version",
                ),
                VersionError::Fault(f) => FedError::Storage(f),
            },
    {
        match e {
            VersionError::UnknownRoom => FedError::RoomNotFound,
            VersionError::Unsupported(_) => FedError::Internal(
                "room is of an unsupported room version",
            ),
            VersionError::Fault(f) => FedError::Storage(f),
        }
    }
}

/// Why an event could not be applied to a room.
pub enum RoomActorError {
    /// The rules of the room refuse the event.
    Rejected,
    /// The room is not known here.
    UnknownRoom,
    /// The store failed.
    Storage(StorageError),
    /// The event could not be built.
    Build(String),
    /// The event could not be judged.
    Apply(String),
    /// There was no result.
    NotApplied,
    /// The room is no longer served.
    ActorGone,
    /// The version of the room is not spoken here.
    UnsupportedRoomVersion(String),
}

/// The error for an event that could not be applied.
pub open spec fn apply_error(err: RoomActorError) -> FedError {
    match err {
        RoomActorError::Rejected => FedError::Forbidden(
            "you are not permitted to perform this membership change",
        ),
        RoomActorError::UnknownRoom => FedError::RoomNotFound,
        RoomActorError::Storage(e) => FedError::Storage(e),
        RoomActorError::Build(_) => FedError::BadRequest("could not authorise the membership event"),
        RoomActorError::Apply(_) => FedError::BadRequest("could not authorise the membership event"),
        RoomActorError::NotApplied => FedError::Internal("apply did not produce a result"),
        RoomActorError::ActorGone => FedError::Internal("apply did not produce a result"),
        RoomActorError::UnsupportedRoomVersion(_) => FedError::Internal(
            "room is of an unsupported room version",
        ),
    }
}

/// The error for an event that could not be applied: refused by the rules is forbidden, an
/// unknown room is not found, an event that cannot be judged is a bad request, and the rest is a
/// fault here.
pub fn map_apply_err(err: RoomActorError) -> (r: FedError)
    ensures
        r == apply_error(err),
{
    match err {
        RoomActorError::Rejected => FedError::Forbidden(
            "you are not permitted to perform this membership change",
        ),
        RoomActorError::UnknownRoom => FedError::RoomNotFound,
        RoomActorError::Storage(e) => FedError::Storage(e),
        RoomActorError::Build(_) => FedError::BadRequest("could not authorise the membership event"),
        RoomActorError::Apply(_) => FedError::BadRequest("could not authorise the membership event"),
        RoomActorError::NotApplied => FedError::Internal("apply did not produce a result"),
        RoomActorError::ActorGone => FedError::Internal("apply did not produce a result"),
        RoomActorError::UnsupportedRoomVersion(_) => FedError::Internal(
            "room is of an unsupported room version",
        ),
    }
}

/// What came of asking for a signature: there is no signer, the signer failed, or this is the
/// text of the event with the signature.
pub enum CoSigned {
    NoSigner,
    Failed,
    Signed(String),
}

/// The event to keep: with our signature where there is a signer, and as it is where there is
/// none. A signature changes the text of an event and nothing else, so that the event keeps its
/// identifier. An event that cannot be signed is a bad request.
pub fn co_sign_if_signed(event: Event, outcome: CoSigned) -> (r: Result<Event, FedError>)
    ensures
        outcome is NoSigner ==> r == Ok::<Event, FedError>(event),
        outcome is Failed ==> r == Err::<Event, FedError>(
            FedError::BadRequest("event cannot be co-signed"),
        ),
        outcome matches CoSigned::Signed(text) ==> r == Ok::<Event, FedError>(
            (Event { raw: text, ..event }),
        ),
{
    match outcome {
        CoSigned::NoSigner => Ok(event),
        CoSigned::Failed => Err(FedError::BadRequest("event cannot be co-signed")),
        CoSigned::Signed(text) => Ok(Event { raw: text, ..event }),
    }
}

/// The status of every error is one of failure, and its body names a code.
pub proof fn law_errors_are_failures(e: FedError)
    ensures
        400 <= e.response().status < 600,
        e.response().body.field("errcode"@) is Some,
        e.response().body.field("error"@) is Some,
{
}

/// The body of an error holds its code and its message, under their names, and its answer has the
/// status.
pub proof fn law_errors_say_what_is_wrong(status: u16, errcode: Seq<char>, message: Seq<char>, key: Seq<char>)
    ensures
        ({
            let r = error_view(status, errcode, message);
            &&& r.status == status
            &&& r.body.field("errcode"@) == Some(JsonView::Text(errcode))
            &&& r.body.field("error"@) == Some(JsonView::Text(message))
            &&& key != "errcode"@ && key != "error"@ ==> r.body.field(key) is None
        }),
{
    names::lemma_error_names();
}

/// What each error of a federation handler is answered with: its status, its code and what it
/// says.
pub proof fn law_errors_have_their_status(e: FedError)
    ensures
        ({
            let r = e.response();
            let code = r.body.field("errcode"@);
            let words = r.body.field("error"@);
            match e {
                FedError::BadRequest(m) => r.status == 400 && code == Some(
                    JsonView::Text("M_INVALID_PARAM"@),
                ) && words == Some(JsonView::Text(m@)),
                FedError::Unauthorized(m) => r.status == 401 && code == Some(
                    JsonView::Text("M_UNAUTHORIZED"@),
                ) && words == Some(JsonView::Text(m@)),
                FedError::Forbidden(m) => r.status == 403 && code == Some(
                    JsonView::Text("M_FORBIDDEN"@),
                ) && words == Some(JsonView::Text(m@)),
                FedError::IncompatibleRoomVersion(v) => r.status == 400 && code == Some(
                    JsonView::Text("M_INCOMPATIBLE_ROOM_VERSION"@),
                ) && words == Some(JsonView::Text("room version not supported by the requester"@))
                    && r.body.field("room_version"@) == Some(JsonView::Text(v@)),
                FedError::RoomNotFound => r.status == 404 && code == Some(
                    JsonView::Text("M_NOT_FOUND"@),
                ) && words == Some(JsonView::Text("room not found"@)),
                FedError::Internal(m) => r.status == 500 && code == Some(JsonView::Text("M_UNKNOWN"@))
                    && words == Some(JsonView::Text(m@)),
                FedError::Storage(s) => r.status == 500 && code == Some(JsonView::Text("M_UNKNOWN"@))
                    && words == Some(JsonView::Text(s.message@)),
            }
        }),
{
    names::lemma_error_names();
}

/// An event that could not be applied is answered by the reason: one that the rules refuse is
/// forbidden, one for an unknown room is not found, one that cannot be judged is the sender's
/// fault, and everything else is ours.
pub proof fn law_failed_events_are_answered_by_the_reason(err: RoomActorError)
    ensures
        ({
            let status = apply_error(err).response().status;
            match err {
                RoomActorError::Rejected => status == 403 && apply_error(err) == FedError::Forbidden(
                    "you are not permitted to perform this membership change",
                ),
                RoomActorError::UnknownRoom => status == 404 && apply_error(err) is RoomNotFound,
                RoomActorError::Storage(e) => status == 500 && apply_error(err) == FedError::Storage(e),
                RoomActorError::Build(_) => status == 400 && apply_error(err) == FedError::BadRequest(
                    "could not authorise the membership event",
                ),
                RoomActorError::Apply(_) => status == 400 && apply_error(err) == FedError::BadRequest(
                    "could not authorise the membership event",
                ),
                RoomActorError::NotApplied => status == 500 && apply_error(err) == FedError::Internal(
                    "apply did not produce a result",
                ),
                RoomActorError::ActorGone => status == 500 && apply_error(err) == FedError::Internal(
                    "apply did not produce a result",
                ),
                RoomActorError::UnsupportedRoomVersion(_) => status == 500 && apply_error(err)
                    == FedError::Internal("room is of an unsupported room version"),
            }
        }),
{
}

} // verus!
