//! The format of events: what is read from the text of an event, and the rules that an event
//! meets on its own, without the room that it is in.
use crate::codec;
use crate::event;
use crate::event::{Event, EventView, RoomVersion};
use crate::ids;
use crate::json;
use crate::json::{Json, JsonObject, JsonView};
use crate::text;
use vstd::prelude::*;

verus! {

/// The most timeline parents of an event.
pub const MAX_PREV_EVENTS: usize = 20;

/// The most state parents of an event.
pub const MAX_PREV_STATE_EVENTS: usize = 20;

/// The most bytes of an event in canonical JSON.
pub const MAX_PDU_BYTES: usize = 65536;

/// The most bytes of the type and of the state key of an event.
pub const MAX_FIELD_BYTES: usize = 255;

/// `ruma::canonical_json::CanonicalJsonError`, carried as it came.
#[verifier::external_type_specification]
#[verifier::external_body]
pub struct ExCanonicalJsonError(ruma::canonical_json::CanonicalJsonError);

/// Why an event is refused for its format.
#[derive(Debug)]
pub enum FormatError {
    /// The text is not JSON of the kind that is asked for.
    InvalidJson(serde_json::Error),
    /// A field that every event has is absent.
    MissingField(&'static str),
    /// A field holds a value of the wrong kind.
    InvalidFieldType { field: &'static str, expected: &'static str },
    /// A field holds a string that is not the identifier it should be.
    MalformedId { field: &'static str, value: String },
    /// The event has no form in canonical JSON.
    NonCanonical(ruma::canonical_json::CanonicalJsonError),
    /// The event has more than `MAX_PDU_BYTES` bytes in canonical JSON.
    EventTooLarge,
    /// A field has more than `MAX_FIELD_BYTES` bytes.
    FieldTooLong(&'static str),
    /// The event carries `auth_events`, which the wire format forbids.
    AuthEventsPresent,
    /// More than `MAX_PREV_EVENTS` timeline parents.
    TooManyPrevEvents,
    /// More than `MAX_PREV_STATE_EVENTS` state parents.
    TooManyPrevStateEvents,
    /// The creation of a room has timeline parents.
    CreateHasPrevEvents,
    /// The creation of a room has state parents.
    CreateHasPrevStateEvents,
    /// The creation of a room names a room.
    CreateHasRoomId,
    /// The creation of a room has no state key or one that is not empty.
    CreateBadStateKey,
    /// The creation of a room declares another room version than the event is read under.
    UnrecognisedRoomVersion(String),
    /// `additional_creators` is not a list of user identifiers.
    InvalidAdditionalCreators,
    /// A membership has no state key.
    MemberMissingStateKey,
    /// A membership has no `membership` in its content.
    MemberMissingMembership,
    /// The state key starts with `@` and is not the sender.
    StateKeyAtSignSenderMismatch,
    /// A power level is not an integer.
    PowerLevelsBadIntField(&'static str),
    /// A table of power levels is not an object of integers.
    PowerLevelsBadObjectField(&'static str),
    /// The power levels of users are not an object from user identifiers to integers.
    PowerLevelsBadUsers,
    /// The event is not signed by the server of its sender.
    SignatureCheck(String),
    /// The identifier of the event could not be derived.
    EventId(String),
}

/// A `FormatError` as mathematics; what the parser of JSON complains of is left out.
pub enum FormatFault {
    InvalidJson,
    MissingField(Seq<char>),
    InvalidFieldType { field: Seq<char>, expected: Seq<char> },
    MalformedId { field: Seq<char>, value: Seq<char> },
    NonCanonical,
    EventTooLarge,
    FieldTooLong(Seq<char>),
    AuthEventsPresent,
    TooManyPrevEvents,
    TooManyPrevStateEvents,
    CreateHasPrevEvents,
    CreateHasPrevStateEvents,
    CreateHasRoomId,
    CreateBadStateKey,
    UnrecognisedRoomVersion(Seq<char>),
    InvalidAdditionalCreators,
    MemberMissingStateKey,
    MemberMissingMembership,
    StateKeyAtSignSenderMismatch,
    PowerLevelsBadIntField(Seq<char>),
    PowerLevelsBadObjectField(Seq<char>),
    PowerLevelsBadUsers,
    SignatureCheck(Seq<char>),
    EventId(Seq<char>),
}

impl View for FormatError {
    type V = FormatFault;

    open spec fn view(&self) -> FormatFault {
        match *self {
            FormatError::InvalidJson(_) => FormatFault::InvalidJson,
            FormatError::MissingField(field) => FormatFault::MissingField(field@),
            FormatError::InvalidFieldType { field, expected } => FormatFault::InvalidFieldType {
                field: field@,
                expected: expected@,
            },
            FormatError::MalformedId { field, value } => FormatFault::MalformedId {
                field: field@,
                value: value@,
            },
            FormatError::NonCanonical(_) => FormatFault::NonCanonical,
            FormatError::EventTooLarge => FormatFault::EventTooLarge,
            FormatError::FieldTooLong(field) => FormatFault::FieldTooLong(field@),
            FormatError::AuthEventsPresent => FormatFault::AuthEventsPresent,
            FormatError::TooManyPrevEvents => FormatFault::TooManyPrevEvents,
            FormatError::TooManyPrevStateEvents => FormatFault::TooManyPrevStateEvents,
            FormatError::CreateHasPrevEvents => FormatFault::CreateHasPrevEvents,
            FormatError::CreateHasPrevStateEvents => FormatFault::CreateHasPrevStateEvents,
            FormatError::CreateHasRoomId => FormatFault::CreateHasRoomId,
            FormatError::CreateBadStateKey => FormatFault::CreateBadStateKey,
            FormatError::UnrecognisedRoomVersion(v) => FormatFault::UnrecognisedRoomVersion(v@),
            FormatError::InvalidAdditionalCreators => FormatFault::InvalidAdditionalCreators,
            FormatError::MemberMissingStateKey => FormatFault::MemberMissingStateKey,
            FormatError::MemberMissingMembership => FormatFault::MemberMissingMembership,
            FormatError::StateKeyAtSignSenderMismatch => FormatFault::StateKeyAtSignSenderMismatch,
            FormatError::PowerLevelsBadIntField(field) => FormatFault::PowerLevelsBadIntField(field@),
            FormatError::PowerLevelsBadObjectField(field) => FormatFault::PowerLevelsBadObjectField(
                field@,
            ),
            FormatError::PowerLevelsBadUsers => FormatFault::PowerLevelsBadUsers,
            FormatError::SignatureCheck(m) => FormatFault::SignatureCheck(m@),
            FormatError::EventId(m) => FormatFault::EventId(m@),
        }
    }
}

/// A fault in words; what the parser of JSON complains of comes behind them.
pub open spec fn fault_words(fault: FormatFault) -> Seq<char> {
    match fault {
        FormatFault::InvalidJson => "invalid JSON: "@,
        FormatFault::NonCanonical => "event JSON is not canonical-JSON encodable: "@,
        FormatFault::InvalidFieldType { field, expected } => "field `"@ + field
            + "` has wrong shape, expected "@ + expected,
        FormatFault::MalformedId { field, value } => "field `"@ + field
            + "` contains malformed id: "@ + value,
        FormatFault::MissingField(m) => "missing required field: "@ + m,
        FormatFault::UnrecognisedRoomVersion(m) => "unrecognised room_version: "@ + m,
        FormatFault::SignatureCheck(m) => "signature check failed: "@ + m,
        FormatFault::EventId(m) => "cannot derive event id: "@ + m,
        FormatFault::FieldTooLong(f) => "field `"@ + f + "` exceeds 255 bytes"@,
        FormatFault::PowerLevelsBadIntField(f) => "power_levels field `"@ + f + "` is not an integer"@,
        FormatFault::PowerLevelsBadObjectField(f) => "power_levels field `"@ + f + "` is not an object of integer values"@,
        FormatFault::EventTooLarge => "event exceeds 65536 bytes as canonical JSON"@,
        FormatFault::AuthEventsPresent => "auth_events field is not permitted on the wire under MSC4242"@,
        FormatFault::TooManyPrevEvents => "prev_events exceeds 20 entries"@,
        FormatFault::TooManyPrevStateEvents => "prev_state_events exceeds 20 entries"@,
        FormatFault::CreateHasPrevEvents => "m.room.create event has prev_events"@,
        FormatFault::CreateHasPrevStateEvents => "m.room.create event has prev_state_events"@,
        FormatFault::CreateHasRoomId => "m.room.create event has a room_id field"@,
        FormatFault::CreateBadStateKey => "m.room.create event has a non-empty or missing state_key"@,
        FormatFault::InvalidAdditionalCreators => "additional_creators is not an array of valid user ids"@,
        FormatFault::MemberMissingStateKey => "m.room.member event missing state_key"@,
        FormatFault::MemberMissingMembership => "m.room.member event missing content.membership"@,
        FormatFault::StateKeyAtSignSenderMismatch => "state_key starts with @ but does not match sender"@,
        FormatFault::PowerLevelsBadUsers => "power_levels users field is not {valid-user-id: int}"@,
    }
}

/// What a `ruma::canonical_json::CanonicalJsonError` says, in words; `None` where it stands for
/// a failure to read or write, whose words are the system's.
pub uninterp spec fn canonical_error_words(
    e: ruma::canonical_json::CanonicalJsonError,
) -> Option<Seq<char>>;

/// `<CanonicalJsonError as ToString>::to_string`: what the error says. Nothing is claimed of the
/// words for a failure to read or write.
#[verifier::external_body]
fn canonical_error_text(e: &ruma::canonical_json::CanonicalJsonError) -> (text: String)
    ensures
        canonical_error_words(*e) matches Some(words) ==> text@ == words,
{
    e.to_string()
}

/// What an outside error says that stands in an error of format; `None` where there is none, or
/// where its words are the system's.
pub open spec fn cause_words(e: FormatError) -> Option<Seq<char>> {
    match e {
        FormatError::InvalidJson(cause) => codec::error_words(cause),
        FormatError::NonCanonical(cause) => canonical_error_words(cause),
        _ => None,
    }
}

impl FormatError {
    /// The error in words. What the parser of JSON complains of stands behind them.
    pub fn message(&self) -> (s: String)
        ensures
            self@ is InvalidJson || self@ is NonCanonical ==> fault_words(self@).is_prefix_of(s@),
            cause_words(*self) matches Some(words) ==> s@ == fault_words(self@) + words,
            !(self@ is InvalidJson || self@ is NonCanonical) ==> s@ == fault_words(self@),
    {
        match self {
            FormatError::InvalidJson(e) => {
                let detail: String = codec::error_text(e);
                let s: String = text::concat("invalid JSON: ", detail.as_str());
                assert(fault_words(self@) =~= s@.take(fault_words(self@).len() as int));
                s
            },
            FormatError::NonCanonical(e) => {
                let detail: String = canonical_error_text(e);
                let s: String = text::concat(
                    "event JSON is not canonical-JSON encodable: ",
                    detail.as_str(),
                );
                assert(fault_words(self@) =~= s@.take(fault_words(self@).len() as int));
                s
            },
            FormatError::InvalidFieldType { field, expected } => {
                let mut s: String = text::concat("field `", field);
                s.append("` has wrong shape, expected ");
                s.append(expected);
                s
            },
            FormatError::MalformedId { field, value } => {
                let mut s: String = text::concat("field `", field);
                s.append("` contains malformed id: ");
                s.append(value.as_str());
                s
            },
            FormatError::MissingField(m) => text::concat("missing required field: ", m),
            FormatError::UnrecognisedRoomVersion(m) => text::concat("unrecognised room_version: ", m.as_str()),
            FormatError::SignatureCheck(m) => text::concat("signature check failed: ", m.as_str()),
            FormatError::EventId(m) => text::concat("cannot derive event id: ", m.as_str()),
            FormatError::FieldTooLong(f) => {
                let mut s: String = text::concat("field `", f);
                s.append("` exceeds 255 bytes");
                s
            },
            FormatError::PowerLevelsBadIntField(f) => {
                let mut s: String = text::concat("power_levels field `", f);
                s.append("` is not an integer");
                s
            },
            FormatError::PowerLevelsBadObjectField(f) => {
                let mut s: String = text::concat("power_levels field `", f);
                s.append("` is not an object of integer values");
                s
            },
            FormatError::EventTooLarge => "event exceeds 65536 bytes as canonical JSON".to_owned(),
            FormatError::AuthEventsPresent => "auth_events field is not permitted on the wire under MSC4242".to_owned(),
            FormatError::TooManyPrevEvents => "prev_events exceeds 20 entries".to_owned(),
            FormatError::TooManyPrevStateEvents => "prev_state_events exceeds 20 entries".to_owned(),
            FormatError::CreateHasPrevEvents => "m.room.create event has prev_events".to_owned(),
            FormatError::CreateHasPrevStateEvents => "m.room.create event has prev_state_events".to_owned(),
            FormatError::CreateHasRoomId => "m.room.create event has a room_id field".to_owned(),
            FormatError::CreateBadStateKey => "m.room.create event has a non-empty or missing state_key".to_owned(),
            FormatError::InvalidAdditionalCreators => "additional_creators is not an array of valid user ids".to_owned(),
            FormatError::MemberMissingStateKey => "m.room.member event missing state_key".to_owned(),
            FormatError::MemberMissingMembership => "m.room.member event missing content.membership".to_owned(),
            FormatError::StateKeyAtSignSenderMismatch => "state_key starts with @ but does not match sender".to_owned(),
            FormatError::PowerLevelsBadUsers => "power_levels users field is not {valid-user-id: int}".to_owned(),
        }
    }
}

/// What becomes of an event that breaks a rule: it is dropped, as no event at all, or it is kept
/// as rejected.
#[derive(Debug, Clone, Copy, PartialEq, Eq, Structural)]
pub enum SemanticVerdict {
    Drop,
    Reject,
}

/// Whether a fault breaks an authorization rule that rests on the event alone, for which the
/// event is kept as rejected. Every other fault means that there is no valid event.
pub open spec fn breaks_auth_rule(fault: FormatFault) -> bool {
    match fault {
        FormatFault::StateKeyAtSignSenderMismatch => true,
        FormatFault::MemberMissingStateKey => true,
        FormatFault::MemberMissingMembership => true,
        FormatFault::PowerLevelsBadIntField(_) => true,
        FormatFault::PowerLevelsBadObjectField(_) => true,
        FormatFault::PowerLevelsBadUsers => true,
        _ => false,
    }
}

/// What becomes of an event with the given fault.
pub fn semantic_verdict(err: &FormatError) -> (verdict: SemanticVerdict)
    ensures
        verdict == if breaks_auth_rule(err@) {
            SemanticVerdict::Reject
        } else {
            SemanticVerdict::Drop
        },
{
    match err {
        FormatError::InvalidJson(_) => SemanticVerdict::Drop,
        FormatError::MissingField(_) => SemanticVerdict::Drop,
        FormatError::InvalidFieldType { .. } => SemanticVerdict::Drop,
        FormatError::MalformedId { .. } => SemanticVerdict::Drop,
        FormatError::NonCanonical(_) => SemanticVerdict::Drop,
        FormatError::EventTooLarge => SemanticVerdict::Drop,
        FormatError::FieldTooLong(_) => SemanticVerdict::Drop,
        FormatError::AuthEventsPresent => SemanticVerdict::Drop,
        FormatError::TooManyPrevEvents => SemanticVerdict::Drop,
        FormatError::TooManyPrevStateEvents => SemanticVerdict::Drop,
        FormatError::CreateHasPrevEvents => SemanticVerdict::Drop,
        FormatError::CreateHasPrevStateEvents => SemanticVerdict::Drop,
        FormatError::CreateHasRoomId => SemanticVerdict::Drop,
        FormatError::CreateBadStateKey => SemanticVerdict::Drop,
        FormatError::UnrecognisedRoomVersion(_) => SemanticVerdict::Drop,
        FormatError::InvalidAdditionalCreators => SemanticVerdict::Drop,
        FormatError::SignatureCheck(_) => SemanticVerdict::Drop,
        FormatError::EventId(_) => SemanticVerdict::Drop,
        FormatError::StateKeyAtSignSenderMismatch => SemanticVerdict::Reject,
        FormatError::MemberMissingStateKey => SemanticVerdict::Reject,
        FormatError::MemberMissingMembership => SemanticVerdict::Reject,
        FormatError::PowerLevelsBadIntField(_) => SemanticVerdict::Reject,
        FormatError::PowerLevelsBadObjectField(_) => SemanticVerdict::Reject,
        FormatError::PowerLevelsBadUsers => SemanticVerdict::Reject,
    }
}

/// The first fault of two.
pub open spec fn first(a: Option<FormatFault>, b: Option<FormatFault>) -> Option<FormatFault> {
    if a is Some {
        a
    } else {
        b
    }
}

/// A fault, where a condition holds.
pub open spec fn fault_if(bad: bool, fault: FormatFault) -> Option<FormatFault> {
    if bad {
        Some(fault)
    } else {
        None
    }
}

/// What is wrong with a field that has to be a string.
pub open spec fn string_fault(m: Map<Seq<char>, JsonView>, field: Seq<char>) -> Option<FormatFault> {
    match json::lookup(m, field) {
        None => Some(FormatFault::MissingField(field)),
        Some(v) => fault_if(
            v.text() is None,
            (FormatFault::InvalidFieldType { field, expected: "string"@ }),
        ),
    }
}

/// The string of a field that has to be one.
pub fn required_string<'a>(map: &'a JsonObject, field: &'static str) -> (r: Result<&'a str, FormatError>)
    ensures
        r matches Err(e) ==> string_fault(map@, field@) == Some(e@),
        r matches Ok(s) ==> string_fault(map@, field@) is None && json::text_field(map@, field@) == Some(s@),
{
    match map.get(field) {
        None => Err(FormatError::MissingField(field)),
        Some(v) => match v.as_str() {
            Some(s) => Ok(s),
            None => Err(FormatError::InvalidFieldType { field, expected: "string" }),
        },
    }
}

/// The integer of a field, when it is at least zero and fits in 64 bits.
pub open spec fn u64_field(m: Map<Seq<char>, JsonView>, field: Seq<char>) -> Option<int> {
    match json::lookup(m, field) {
        Some(JsonView::Int(n)) => if 0 <= n <= u64::MAX {
            Some(n)
        } else {
            None
        },
        _ => None,
    }
}

/// What is wrong with a field that has to be an integer of at least zero.
pub open spec fn u64_fault(m: Map<Seq<char>, JsonView>, field: Seq<char>) -> Option<FormatFault> {
    match json::lookup(m, field) {
        None => Some(FormatFault::MissingField(field)),
        Some(_) => fault_if(
            u64_field(m, field) is None,
            (FormatFault::InvalidFieldType { field, expected: "unsigned integer"@ }),
        ),
    }
}

/// The integer of a field that has to be one of at least zero.
pub fn required_u64(map: &JsonObject, field: &'static str) -> (r: Result<u64, FormatError>)
    ensures
        r matches Err(e) ==> u64_fault(map@, field@) == Some(e@),
        r matches Ok(n) ==> u64_fault(map@, field@) is None && u64_field(map@, field@) == Some(n as int),
{
    match map.get(field) {
        None => Err(FormatError::MissingField(field)),
        Some(v) => match v.as_u64() {
            Some(n) => Ok(n),
            None => Err(FormatError::InvalidFieldType { field, expected: "unsigned integer" }),
        },
    }
}

/// What is wrong with one item of a list of event identifiers.
pub open spec fn event_id_fault(v: JsonView, field: Seq<char>) -> Option<FormatFault> {
    match v.text() {
        None => Some((FormatFault::InvalidFieldType { field, expected: "array of strings"@ })),
        Some(s) => fault_if(
            !ids::event_id_valid(s),
            (FormatFault::MalformedId { field, value: s }),
        ),
    }
}

/// What is wrong with the first item of a list that is not an event identifier.
pub open spec fn event_ids_fault(items: Seq<JsonView>, field: Seq<char>) -> Option<FormatFault>
    decreases items.len(),
{
    if items.len() == 0 {
        None
    } else {
        first(event_ids_fault(items.drop_last(), field), event_id_fault(items.last(), field))
    }
}

/// What is wrong with a field that has to be a list of event identifiers.
pub open spec fn event_id_array_fault(
    m: Map<Seq<char>, JsonView>,
    field: Seq<char>,
) -> Option<FormatFault> {
    match json::lookup(m, field) {
        None => Some(FormatFault::MissingField(field)),
        Some(JsonView::Array(items)) => event_ids_fault(items, field),
        Some(_) => Some((FormatFault::InvalidFieldType { field, expected: "array"@ })),
    }
}

/// The strings of a list of strings; an item that is none counts as empty.
pub open spec fn texts(items: Seq<JsonView>) -> Seq<Seq<char>> {
    Seq::new(
        items.len(),
        |i: int|
            match items[i].text() {
                Some(s) => s,
                None => seq![],
            },
    )
}

/// The strings that a field lists; none when it is absent.
pub open spec fn listed(m: Map<Seq<char>, JsonView>, field: Seq<char>) -> Seq<Seq<char>> {
    match json::lookup(m, field) {
        Some(JsonView::Array(items)) => texts(items),
        _ => seq![],
    }
}

/// The event identifiers of a field that has to be a list of them.
pub fn parse_event_id_array(map: &JsonObject, field: &'static str) -> (r: Result<Vec<String>, FormatError>)
    ensures
        r matches Err(e) ==> event_id_array_fault(map@, field@) == Some(e@),
        r matches Ok(found) ==> event_id_array_fault(map@, field@) is None && event::views(found@)
            == listed(map@, field@),
{
    let value: &Json = match map.get(field) {
        None => return Err(FormatError::MissingField(field)),
        Some(v) => v,
    };
    let items: &Vec<Json> = match value.as_array() {
        None => return Err(FormatError::InvalidFieldType { field, expected: "array" }),
        Some(items) => items,
    };
    let ghost all = json::array_view(items@);
    let mut found: Vec<String> = Vec::new();
    let mut i: usize = 0;
    while i < items.len()
        invariant
            i <= items@.len(),
            all == json::array_view(items@),
            json::lookup(map@, field@) == Some(JsonView::Array(all)),
            event_ids_fault(all.take(i as int), field@) is None,
            found@.len() == i,
            forall|j: int| 0 <= j < i ==> all[j].text() == Some((#[trigger] found@[j])@),
        decreases items.len() - i,
    {
        proof {
            assert(all.take(i + 1).drop_last() =~= all.take(i as int));
            assert(all.take(i + 1).last() == items@[i as int]@);
        }
        match items[i].as_str() {
            None => {
                proof {
                    lemma_event_ids_fault(all, i + 1, field@);
                }
                return Err(FormatError::InvalidFieldType { field, expected: "array of strings" });
            },
            Some(s) => {
                if !ids::is_event_id(s) {
                    proof {
                        lemma_event_ids_fault(all, i + 1, field@);
                    }
                    return Err(FormatError::MalformedId { field, value: s.to_owned() });
                }
                found.push(s.to_owned());
            },
        }
        i = i + 1;
    }
    assert(all.take(i as int) =~= all);
    assert(event::views(found@) =~= texts(all));
    Ok(found)
}

proof fn lemma_event_ids_fault(items: Seq<JsonView>, i: int, field: Seq<char>)
    requires
        0 <= i <= items.len(),
        event_ids_fault(items.take(i), field) is Some,
    ensures
        event_ids_fault(items, field) == event_ids_fault(items.take(i), field),
    decreases items.len() - i,
{
    if i == items.len() {
        assert(items.take(i) =~= items);
    } else {
        assert(items.take(i + 1).drop_last() =~= items.take(i));
        lemma_event_ids_fault(items, i + 1, field);
    }
}

/// What is wrong with the room identifier that is derived from an event identifier.
pub open spec fn derived_room_fault(event_id: Seq<char>) -> Option<FormatFault> {
    if event_id.len() == 0 || event_id[0] != '$' {
        Some(
            (FormatFault::MalformedId {
                field: "event_id (for room_id derivation)"@,
                value: event_id,
            }),
        )
    } else {
        fault_if(
            !ids::room_id_valid(derived_room(event_id)),
            (FormatFault::MalformedId { field: "room_id (derived)"@, value: derived_room(event_id) }),
        )
    }
}

/// The room that an event creates: its identifier with `!` in place of `$`.
pub open spec fn derived_room(event_id: Seq<char>) -> Seq<char> {
    seq!['!'] + event_id.skip(1)
}

/// The room that the creating event with the given identifier makes.
pub fn derive_create_room_id(event_id: &str) -> (r: Result<String, FormatError>)
    ensures
        r matches Err(e) ==> derived_room_fault(event_id@) == Some(e@),
        r matches Ok(room) ==> derived_room_fault(event_id@) is None && room@ == derived_room(event_id@),
{
    let chars: Vec<char> = text::to_chars(event_id);
    if chars.len() == 0 || chars[0] != '$' {
        return Err(
            FormatError::MalformedId {
                field: "event_id (for room_id derivation)",
                value: event_id.to_owned(),
            },
        );
    }
    let mut derived: String = String::new();
    derived.push('!');
    let mut i: usize = 1;
    while i < chars.len()
        invariant
            1 <= i <= chars@.len(),
            derived@ == seq!['!'] + chars@.subrange(1, i as int),
        decreases chars.len() - i,
    {
        derived.push(chars[i]);
        assert(derived@ =~= seq!['!'] + chars@.subrange(1, i + 1));
        i = i + 1;
    }
    assert(chars@.subrange(1, i as int) =~= chars@.skip(1));
    if ids::is_room_id(derived.as_str()) {
        Ok(derived)
    } else {
        Err(FormatError::MalformedId { field: "room_id (derived)", value: derived })
    }
}

/// What is wrong with the sender.
pub open spec fn sender_fault(m: Map<Seq<char>, JsonView>) -> Option<FormatFault> {
    first(
        string_fault(m, "sender"@),
        match json::text_field(m, "sender"@) {
            Some(s) => fault_if(
                !ids::user_id_valid(s),
                (FormatFault::MalformedId { field: "sender"@, value: s }),
            ),
            None => None,
        },
    )
}

/// What is wrong with the hashes: they may be absent, and are else an object of strings.
pub open spec fn hashes_fault(m: Map<Seq<char>, JsonView>) -> Option<FormatFault> {
    match json::lookup(m, "hashes"@) {
        None => None,
        Some(JsonView::Object(h)) => fault_if(
            exists|k: Seq<char>| h.contains_key(k) && #[trigger] h[k].text() is None,
            (FormatFault::InvalidFieldType { field: "hashes"@, expected: "{string: string}"@ }),
        ),
        Some(_) => Some((FormatFault::InvalidFieldType { field: "hashes"@, expected: "object"@ })),
    }
}

/// What is wrong with the content: it is an object.
pub open spec fn content_fault(m: Map<Seq<char>, JsonView>) -> Option<FormatFault> {
    match json::lookup(m, "content"@) {
        None => Some(FormatFault::MissingField("content"@)),
        Some(v) => fault_if(
            !(v is Object),
            (FormatFault::InvalidFieldType { field: "content"@, expected: "object"@ }),
        ),
    }
}

/// Whether the object is the creation of a room.
pub open spec fn creates(m: Map<Seq<char>, JsonView>) -> bool {
    json::text_field(m, "type"@) == Some("m.room.create"@)
}

/// What is wrong with the state parents: only a creation may leave them out.
pub open spec fn prev_state_fault(m: Map<Seq<char>, JsonView>) -> Option<FormatFault> {
    if creates(m) && !m.contains_key("prev_state_events"@) {
        None
    } else {
        event_id_array_fault(m, "prev_state_events"@)
    }
}

/// What is wrong with the room: a creation derives it and names none, every other event names
/// one.
pub open spec fn room_fault(m: Map<Seq<char>, JsonView>, event_id: Seq<char>) -> Option<FormatFault> {
    if creates(m) {
        first(
            fault_if(m.contains_key("room_id"@), FormatFault::CreateHasRoomId),
            derived_room_fault(event_id),
        )
    } else {
        first(
            string_fault(m, "room_id"@),
            match json::text_field(m, "room_id"@) {
                Some(s) => fault_if(
                    !ids::room_id_valid(s),
                    (FormatFault::MalformedId { field: "room_id"@, value: s }),
                ),
                None => None,
            },
        )
    }
}

/// What is wrong with the state key: it may be absent, and is else a string.
pub open spec fn state_key_fault(m: Map<Seq<char>, JsonView>) -> Option<FormatFault> {
    match json::lookup(m, "state_key"@) {
        None => None,
        Some(v) => fault_if(
            v.text() is None,
            (FormatFault::InvalidFieldType { field: "state_key"@, expected: "string"@ }),
        ),
    }
}

/// The first thing that is wrong with the format of an event.
pub open spec fn parse_fault(m: Map<Seq<char>, JsonView>, event_id: Seq<char>) -> Option<FormatFault> {
    first(
        fault_if(m.contains_key("auth_events"@), FormatFault::AuthEventsPresent),
        first(
            string_fault(m, "type"@),
            first(
                sender_fault(m),
                first(
                    u64_fault(m, "origin_server_ts"@),
                    first(
                        hashes_fault(m),
                        first(
                            content_fault(m),
                            first(
                                event_id_array_fault(m, "prev_events"@),
                                first(
                                    prev_state_fault(m),
                                    first(room_fault(m, event_id), state_key_fault(m)),
                                ),
                            ),
                        ),
                    ),
                ),
            ),
        ),
    )
}

/// A string field that is known to be there.
pub open spec fn known_text(m: Map<Seq<char>, JsonView>, field: Seq<char>) -> Seq<char> {
    match json::text_field(m, field) {
        Some(s) => s,
        None => seq![],
    }
}

/// The event that an object of the right format stands for.
pub open spec fn parsed_event(
    m: Map<Seq<char>, JsonView>,
    raw: Seq<char>,
    event_id: Seq<char>,
    auth_events: Seq<Seq<char>>,
) -> EventView {
    EventView {
        event_id,
        room_id: if creates(m) {
            derived_room(event_id)
        } else {
            known_text(m, "room_id"@)
        },
        sender: known_text(m, "sender"@),
        event_type: known_text(m, "type"@),
        state_key: json::text_field(m, "state_key"@),
        origin_server_ts: match u64_field(m, "origin_server_ts"@) {
            Some(n) => n,
            None => 0,
        },
        content: codec::printed(m["content"@]),
        prev_events: listed(m, "prev_events"@),
        prev_state_events: listed(m, "prev_state_events"@),
        auth_events,
        rejected: false,
        soft_failed: false,
        raw,
    }
}

fn check_hashes(map: &JsonObject) -> (r: Result<(), FormatError>)
    ensures
        r matches Err(e) ==> hashes_fault(map@) == Some(e@),
        r is Ok ==> hashes_fault(map@) is None,
{
    let value: &Json = match map.get("hashes") {
        None => return Ok(()),
        Some(v) => v,
    };
    let hashes: &JsonObject = match value.as_object() {
        None => return Err(FormatError::InvalidFieldType { field: "hashes", expected: "object" }),
        Some(h) => h,
    };
    let n: usize = hashes.len();
    let mut i: usize = 0;
    while i < n
        invariant
            i <= n,
            n == hashes.keys().len(),
            hashes.keys().to_set() == hashes@.dom(),
            json::lookup(map@, "hashes"@) == Some(JsonView::Object(hashes@)),
            forall|j: int| 0 <= j < i ==> hashes@[#[trigger] hashes.keys()[j]].text() is Some,
        decreases n - i,
    {
        if hashes.value_at(i).as_str().is_none() {
            return Err(
                FormatError::InvalidFieldType { field: "hashes", expected: "{string: string}" },
            );
        }
        i = i + 1;
    }
    proof {
        assert forall|k: Seq<char>| hashes@.contains_key(k) implies #[trigger] hashes@[k].text() is Some by {
            assert(hashes.keys().to_set().contains(k));
            let j = hashes.keys().index_of(k);
            assert(hashes.keys()[j] == k);
        }
    }
    Ok(())
}

/// Reads an event from the object that its text holds. The text is kept as it came.
#[verifier::rlimit(30)]
pub fn event_from_object(
    map: &JsonObject,
    raw: String,
    event_id: String,
    auth_events: Vec<String>,
) -> (r: Result<Event, FormatError>)
    ensures
        r matches Err(e) ==> parse_fault(map@, event_id@) == Some(e@),
        r matches Ok(ev) ==> parse_fault(map@, event_id@) is None && ev@ == parsed_event(
            map@,
            raw@,
            event_id@,
            event::views(auth_events@),
        ),
        r matches Ok(ev) ==> codec::plain(map@["content"@], codec::MAX_DEPTH as nat)
            ==> codec::parsed_json(ev.content@) == Some(map@["content"@]),
        r matches Ok(ev) ==> ({
            &&& map@["type"@] == JsonView::Text(ev.event_type@)
            &&& map@["sender"@] == JsonView::Text(ev.sender@)
            &&& map@["origin_server_ts"@] == JsonView::Int(ev.origin_server_ts as int)
            &&& ev.state_key matches Some(k) ==> map@["state_key"@] == JsonView::Text(k@)
            &&& ev.state_key is None ==> !map@.contains_key("state_key"@)
            &&& ev.event_id == event_id
            &&& ev.auth_events == auth_events
            &&& ev.raw == raw
            &&& !ev.rejected
            &&& !ev.soft_failed
        }),
{
    if map.contains_key("auth_events") {
        return Err(FormatError::AuthEventsPresent);
    }
    let event_type: String = match required_string(map, "type") {
        Ok(s) => s.to_owned(),
        Err(e) => return Err(e),
    };
    let is_create: bool = text::str_eq(event_type.as_str(), "m.room.create");
    let sender: String = match required_string(map, "sender") {
        Ok(s) => s.to_owned(),
        Err(e) => return Err(e),
    };
    if !ids::is_user_id(sender.as_str()) {
        return Err(FormatError::MalformedId { field: "sender", value: sender });
    }
    let origin_server_ts: u64 = match required_u64(map, "origin_server_ts") {
        Ok(n) => n,
        Err(e) => return Err(e),
    };
    if let Err(e) = check_hashes(map) {
        return Err(e);
    }
    let content_value: &Json = match map.get("content") {
        None => return Err(FormatError::MissingField("content")),
        Some(v) => v,
    };
    if content_value.as_object().is_none() {
        return Err(FormatError::InvalidFieldType { field: "content", expected: "object" });
    }
    let content: String = codec::print(content_value);
    let prev_events: Vec<String> = match parse_event_id_array(map, "prev_events") {
        Ok(found) => found,
        Err(e) => return Err(e),
    };
    let prev_state_events: Vec<String> = if is_create && !map.contains_key("prev_state_events") {
        Vec::new()
    } else {
        match parse_event_id_array(map, "prev_state_events") {
            Ok(found) => found,
            Err(e) => return Err(e),
        }
    };
    assert(event::views(prev_state_events@) =~= listed(map@, "prev_state_events"@));
    let room_id: String = if is_create {
        if map.contains_key("room_id") {
            return Err(FormatError::CreateHasRoomId);
        }
        match derive_create_room_id(event_id.as_str()) {
            Ok(room) => room,
            Err(e) => return Err(e),
        }
    } else {
        let s: &str = match required_string(map, "room_id") {
            Ok(s) => s,
            Err(e) => return Err(e),
        };
        if !ids::is_room_id(s) {
            return Err(FormatError::MalformedId { field: "room_id", value: s.to_owned() });
        }
        s.to_owned()
    };
    let state_key: Option<String> = match map.get("state_key") {
        None => None,
        Some(v) => match v.as_str() {
            Some(s) => Some(s.to_owned()),
            None => return Err(
                FormatError::InvalidFieldType { field: "state_key", expected: "string" },
            ),
        },
    };
    Ok(
        Event {
            event_id,
            room_id,
            sender,
            event_type,
            state_key,
            origin_server_ts,
            content,
            prev_events,
            prev_state_events,
            auth_events,
            rejected: false,
            soft_failed: false,
            raw,
        },
    )
}

/// Reads an event from its text. The identifier is given: it is derived from the text, and does
/// not stand in it.
pub fn parse_event(raw: String, event_id: String, auth_events: Vec<String>) -> (r: Result<
    Event,
    FormatError,
>)
    ensures
        codec::parsed_object(raw@) is None ==> (r matches Err(e) && e@ == FormatFault::InvalidJson),
        codec::parsed_object(raw@) matches Some(m) ==> match parse_fault(m, event_id@) {
            Some(fault) => r matches Err(e) && e@ == fault,
            None => r matches Ok(ev) && ev@ == parsed_event(
                m,
                raw@,
                event_id@,
                event::views(auth_events@),
            ),
        },
        r matches Ok(ev) ==> ({
            let content = (codec::parsed_object(raw@)->0)["content"@];
            codec::plain(content, codec::MAX_DEPTH as nat) ==> codec::parsed_json(ev.content@)
                == Some(content)
        }),
        r matches Err(e) ==> (e is InvalidJson ==> cause_words(e) is Some),
        r matches Ok(ev) ==> ({
            let m = codec::parsed_object(raw@)->0;
            &&& m["type"@] == JsonView::Text(ev.event_type@)
            &&& m["sender"@] == JsonView::Text(ev.sender@)
            &&& m["origin_server_ts"@] == JsonView::Int(ev.origin_server_ts as int)
            &&& ev.state_key matches Some(k) ==> m["state_key"@] == JsonView::Text(k@)
            &&& ev.state_key is None ==> !m.contains_key("state_key"@)
            &&& ev.event_id == event_id
            &&& ev.auth_events == auth_events
            &&& ev.raw == raw
            &&& !ev.rejected
            &&& !ev.soft_failed
        }),
{
    match codec::parse_object(raw.as_str()) {
        Ok(map) => {
            proof {
                law_format_faults_drop(map@, event_id@);
            }
            event_from_object(&map, raw, event_id, auth_events)
        },
        Err(e) => Err(FormatError::InvalidJson(e)),
    }
}

/// How many bytes a string takes.
pub open spec fn byte_len(s: Seq<char>) -> nat {
    vstd::utf8::encode_utf8(s).len()
}

/// Whether a string starts with the sigil of a user.
pub open spec fn starts_at(s: Seq<char>) -> bool {
    s.len() > 0 && s[0] == '@'
}

/// The types of events whose own rules settle the state key.
pub open spec fn settles_state_key(event_type: Seq<char>) -> bool {
    event_type == "m.room.member"@ || event_type == "m.room.create"@ || event_type
        == "m.room.third_party_invite"@
}

/// What is wrong with the size of an event, or with the number of its parents.
pub open spec fn size_fault(ev: EventView, pdu_bytes: nat) -> Option<FormatFault> {
    first(
        fault_if(pdu_bytes > MAX_PDU_BYTES, FormatFault::EventTooLarge),
        first(
            fault_if(
                byte_len(ev.event_type) > MAX_FIELD_BYTES,
                FormatFault::FieldTooLong("type"@),
            ),
            first(
                fault_if(
                    (ev.state_key matches Some(sk) && byte_len(sk) > MAX_FIELD_BYTES),
                    FormatFault::FieldTooLong("state_key"@),
                ),
                first(
                    fault_if(
                        ev.prev_events.len() > MAX_PREV_EVENTS,
                        FormatFault::TooManyPrevEvents,
                    ),
                    fault_if(
                        ev.prev_state_events.len() > MAX_PREV_STATE_EVENTS,
                        FormatFault::TooManyPrevStateEvents,
                    ),
                ),
            ),
        ),
    )
}

/// What is wrong with the creation of a room, apart from its content.
pub open spec fn create_fault(ev: EventView) -> Option<FormatFault> {
    first(
        fault_if(ev.prev_events.len() > 0, FormatFault::CreateHasPrevEvents),
        first(
            fault_if(ev.prev_state_events.len() > 0, FormatFault::CreateHasPrevStateEvents),
            fault_if(ev.state_key != Some(""@), FormatFault::CreateBadStateKey),
        ),
    )
}

/// What is wrong with an event of the given size, apart from its content.
pub open spec fn shape_fault(ev: EventView, pdu_bytes: nat) -> Option<FormatFault> {
    first(
        size_fault(ev, pdu_bytes),
        first(
            if ev.event_type == "m.room.create"@ {
                create_fault(ev)
            } else {
                None
            },
            fault_if(
                (!settles_state_key(ev.event_type) && (ev.state_key matches Some(sk) && starts_at(sk)
                    && sk != ev.sender)),
                FormatFault::StateKeyAtSignSenderMismatch,
            ),
        ),
    )
}

fn bytes_of(s: &str) -> (n: usize)
    ensures
        n == byte_len(s@),
{
    s.as_bytes().len()
}

/// The rules on an event that do not read its content. `pdu_bytes` is its size in canonical
/// JSON.
pub fn validate_shape(event: &Event, pdu_bytes: usize) -> (r: Result<(), FormatError>)
    ensures
        r matches Err(e) ==> shape_fault(event@, pdu_bytes as nat) == Some(e@),
        r is Ok ==> shape_fault(event@, pdu_bytes as nat) is None,
{
    if pdu_bytes > MAX_PDU_BYTES {
        return Err(FormatError::EventTooLarge);
    }
    if bytes_of(event.event_type.as_str()) > MAX_FIELD_BYTES {
        return Err(FormatError::FieldTooLong("type"));
    }
    if let Some(sk) = &event.state_key {
        if bytes_of(sk.as_str()) > MAX_FIELD_BYTES {
            return Err(FormatError::FieldTooLong("state_key"));
        }
    }
    if event.prev_events.len() > MAX_PREV_EVENTS {
        return Err(FormatError::TooManyPrevEvents);
    }
    if event.prev_state_events.len() > MAX_PREV_STATE_EVENTS {
        return Err(FormatError::TooManyPrevStateEvents);
    }
    let event_type: &str = event.event_type.as_str();
    if text::str_eq(event_type, "m.room.create") {
        if event.prev_events.len() > 0 {
            return Err(FormatError::CreateHasPrevEvents);
        }
        if event.prev_state_events.len() > 0 {
            return Err(FormatError::CreateHasPrevStateEvents);
        }
        let empty: bool = match &event.state_key {
            Some(sk) => text::str_eq(sk.as_str(), ""),
            None => false,
        };
        if !empty {
            return Err(FormatError::CreateBadStateKey);
        }
    }
    let settled: bool = text::str_eq(event_type, "m.room.member") || text::str_eq(
        event_type,
        "m.room.create",
    ) || text::str_eq(event_type, "m.room.third_party_invite");
    if !settled {
        if let Some(sk) = &event.state_key {
            let chars: Vec<char> = text::to_chars(sk.as_str());
            if chars.len() > 0 && chars[0] == '@' && !text::str_eq(
                sk.as_str(),
                event.sender.as_str(),
            ) {
                return Err(FormatError::StateKeyAtSignSenderMismatch);
            }
        }
    }
    Ok(())
}

/// Whether a value is a list of user identifiers.
pub open spec fn users_list(v: JsonView) -> bool {
    v matches JsonView::Array(items) && forall|i: int|
        0 <= i < items.len() ==> ((#[trigger] items[i]).text() matches Some(s) && ids::user_id_valid(s))
}

/// What is wrong with the content of the creation of a room.
pub open spec fn create_content_fault(
    content: Map<Seq<char>, JsonView>,
    version_id: Seq<char>,
) -> Option<FormatFault> {
    first(
        match json::lookup(content, "room_version"@) {
            None => None,
            Some(v) => match v.text() {
                None => Some(
                    (FormatFault::InvalidFieldType {
                        field: "content.room_version"@,
                        expected: "string"@,
                    }),
                ),
                Some(s) => fault_if(s != version_id, FormatFault::UnrecognisedRoomVersion(s)),
            },
        },
        match json::lookup(content, "additional_creators"@) {
            None => None,
            Some(v) => fault_if(!users_list(v), FormatFault::InvalidAdditionalCreators),
        },
    )
}

/// The rules on the content of the creation of a room.
pub fn check_create(content: &JsonObject, version: &RoomVersion) -> (r: Result<(), FormatError>)
    ensures
        r matches Err(e) ==> create_content_fault(content@, version.id@) == Some(e@),
        r is Ok ==> create_content_fault(content@, version.id@) is None,
{
    if let Some(v) = content.get("room_version") {
        match v.as_str() {
            None => return Err(
                FormatError::InvalidFieldType { field: "content.room_version", expected: "string" },
            ),
            Some(s) => {
                if !text::str_eq(s, version.id.as_str()) {
                    return Err(FormatError::UnrecognisedRoomVersion(s.to_owned()));
                }
            },
        }
    }
    if let Some(v) = content.get("additional_creators") {
        let items: &Vec<Json> = match v.as_array() {
            None => return Err(FormatError::InvalidAdditionalCreators),
            Some(items) => items,
        };
        let ghost all = json::array_view(items@);
        let mut i: usize = 0;
        while i < items.len()
            invariant
                i <= items@.len(),
                all == json::array_view(items@),
                v@ == JsonView::Array(all),
                json::lookup(content@, "additional_creators"@) == Some(v@),
                create_content_fault(content@, version.id@) == fault_if(
                    !users_list(v@),
                    FormatFault::InvalidAdditionalCreators,
                ),
                forall|j: int|
                    0 <= j < i ==> ((#[trigger] all[j]).text() matches Some(s) && ids::user_id_valid(s)),
            decreases items.len() - i,
        {
            let valid: bool = match items[i].as_str() {
                Some(s) => ids::is_user_id(s),
                None => false,
            };
            if !valid {
                assert(all[i as int] == items@[i as int]@);
                return Err(FormatError::InvalidAdditionalCreators);
            }
            i = i + 1;
        }
    }
    Ok(())
}

/// What is wrong with a membership: it has a state key, and its content says which membership.
pub open spec fn member_fault(
    content: Map<Seq<char>, JsonView>,
    state_key: Option<Seq<char>>,
) -> Option<FormatFault> {
    first(
        fault_if(state_key is None, FormatFault::MemberMissingStateKey),
        fault_if(
            json::text_field(content, "membership"@) is None,
            FormatFault::MemberMissingMembership,
        ),
    )
}

/// The rules on a membership.
pub fn check_member(content: &JsonObject, state_key: &Option<String>) -> (r: Result<(), FormatError>)
    ensures
        r matches Err(e) ==> member_fault(content@, event::option_view(*state_key)) == Some(e@),
        r is Ok ==> member_fault(content@, event::option_view(*state_key)) is None,
{
    if state_key.is_none() {
        return Err(FormatError::MemberMissingStateKey);
    }
    if content.get_str("membership").is_none() {
        return Err(FormatError::MemberMissingMembership);
    }
    Ok(())
}

/// Whether a value is an integer that fits in 64 bits with a sign.
pub open spec fn is_level(v: JsonView) -> bool {
    v matches JsonView::Int(n) && i64::MIN <= n <= i64::MAX
}

/// Whether a value is an object of integers.
pub open spec fn levels_table(v: JsonView) -> bool {
    v matches JsonView::Object(m) && forall|k: Seq<char>| m.contains_key(k) ==> is_level(#[trigger] m[k])
}

/// Whether a value is an object from user identifiers to integers.
pub open spec fn user_levels_table(v: JsonView) -> bool {
    levels_table(v) && forall|k: Seq<char>|
        (v->Object_0).contains_key(k) ==> #[trigger] ids::user_id_valid(k)
}

/// What is wrong with a power level.
pub open spec fn level_fault(content: Map<Seq<char>, JsonView>, field: Seq<char>) -> Option<FormatFault> {
    match json::lookup(content, field) {
        None => None,
        Some(v) => fault_if(!is_level(v), FormatFault::PowerLevelsBadIntField(field)),
    }
}

/// What is wrong with a table of power levels.
pub open spec fn table_fault(content: Map<Seq<char>, JsonView>, field: Seq<char>) -> Option<FormatFault> {
    match json::lookup(content, field) {
        None => None,
        Some(v) => fault_if(!levels_table(v), FormatFault::PowerLevelsBadObjectField(field)),
    }
}

/// What is wrong with the content of power levels.
pub open spec fn power_levels_fault(content: Map<Seq<char>, JsonView>) -> Option<FormatFault> {
    first(
        level_fault(content, "users_default"@),
        first(
            level_fault(content, "events_default"@),
            first(
                level_fault(content, "state_default"@),
                first(
                    level_fault(content, "ban"@),
                    first(
                        level_fault(content, "redact"@),
                        first(
                            level_fault(content, "kick"@),
                            first(
                                level_fault(content, "invite"@),
                                first(
                                    table_fault(content, "events"@),
                                    first(
                                        table_fault(content, "notifications"@),
                                        match json::lookup(content, "users"@) {
                                            None => None,
                                            Some(v) => fault_if(
                                                !user_levels_table(v),
                                                FormatFault::PowerLevelsBadUsers,
                                            ),
                                        },
                                    ),
                                ),
                            ),
                        ),
                    ),
                ),
            ),
        ),
    )
}

fn check_level(content: &JsonObject, field: &'static str) -> (r: Result<(), FormatError>)
    ensures
        r matches Err(e) ==> level_fault(content@, field@) == Some(e@),
        r is Ok ==> level_fault(content@, field@) is None,
{
    match content.get(field) {
        None => Ok(()),
        Some(v) => if v.is_i64() {
            Ok(())
        } else {
            Err(FormatError::PowerLevelsBadIntField(field))
        },
    }
}

fn is_levels_table(v: &Json, of_users: bool) -> (r: bool)
    ensures
        r == if of_users {
            user_levels_table(v@)
        } else {
            levels_table(v@)
        },
{
    let m: &JsonObject = match v.as_object() {
        None => return false,
        Some(m) => m,
    };
    let n: usize = m.len();
    let mut i: usize = 0;
    while i < n
        invariant
            i <= n,
            n == m.keys().len(),
            m.keys().to_set() == m@.dom(),
            v@ == JsonView::Object(m@),
            forall|j: int| 0 <= j < i ==> is_level(m@[#[trigger] m.keys()[j]]),
            of_users ==> forall|j: int| 0 <= j < i ==> ids::user_id_valid(#[trigger] m.keys()[j]),
        decreases n - i,
    {
        let key: &String = m.key_at(i);
        let value: &Json = m.value_at(i);
        if of_users && !ids::is_user_id(key.as_str()) {
            proof {
                let held = v@->Object_0;
                assert(held.contains_key(key@) && !ids::user_id_valid(key@));
                assert(!user_levels_table(v@));
            }
            return false;
        }
        if !value.is_i64() {
            proof {
                let held = v@->Object_0;
                assert(held.contains_key(key@) && !is_level(held[key@]));
                assert(!levels_table(v@));
            }
            return false;
        }
        i = i + 1;
    }
    proof {
        assert forall|k: Seq<char>| m@.contains_key(k) implies is_level(#[trigger] m@[k]) by {
            assert(m.keys().to_set().contains(k));
            assert(m.keys()[m.keys().index_of(k)] == k);
        }
        if of_users {
            assert forall|k: Seq<char>| m@.contains_key(k) implies #[trigger] ids::user_id_valid(k) by {
                assert(m.keys().to_set().contains(k));
                assert(m.keys()[m.keys().index_of(k)] == k);
            }
        }
    }
    true
}

fn check_table(content: &JsonObject, field: &'static str) -> (r: Result<(), FormatError>)
    ensures
        r matches Err(e) ==> table_fault(content@, field@) == Some(e@),
        r is Ok ==> table_fault(content@, field@) is None,
{
    match content.get(field) {
        None => Ok(()),
        Some(v) => if is_levels_table(v, false) {
            Ok(())
        } else {
            Err(FormatError::PowerLevelsBadObjectField(field))
        },
    }
}

/// The rules on the content of power levels.
pub fn check_power_levels(content: &JsonObject) -> (r: Result<(), FormatError>)
    ensures
        r matches Err(e) ==> power_levels_fault(content@) == Some(e@),
        r is Ok ==> power_levels_fault(content@) is None,
{
    if let Err(e) = check_level(content, "users_default") {
        return Err(e);
    }
    if let Err(e) = check_level(content, "events_default") {
        return Err(e);
    }
    if let Err(e) = check_level(content, "state_default") {
        return Err(e);
    }
    if let Err(e) = check_level(content, "ban") {
        return Err(e);
    }
    if let Err(e) = check_level(content, "redact") {
        return Err(e);
    }
    if let Err(e) = check_level(content, "kick") {
        return Err(e);
    }
    if let Err(e) = check_level(content, "invite") {
        return Err(e);
    }
    if let Err(e) = check_table(content, "events") {
        return Err(e);
    }
    if let Err(e) = check_table(content, "notifications") {
        return Err(e);
    }
    if let Some(v) = content.get("users") {
        if !is_levels_table(v, true) {
            return Err(FormatError::PowerLevelsBadUsers);
        }
    }
    Ok(())
}

/// Whether there are rules on the content of events of a type.
pub open spec fn has_content_rules(event_type: Seq<char>) -> bool {
    event_type == "m.room.create"@ || event_type == "m.room.member"@ || event_type
        == "m.room.power_levels"@
}

/// What is wrong with the content of an event.
pub open spec fn content_rule_fault(
    ev: EventView,
    content: Map<Seq<char>, JsonView>,
    version_id: Seq<char>,
) -> Option<FormatFault> {
    if ev.event_type == "m.room.create"@ {
        create_content_fault(content, version_id)
    } else if ev.event_type == "m.room.member"@ {
        member_fault(content, ev.state_key)
    } else if ev.event_type == "m.room.power_levels"@ {
        power_levels_fault(content)
    } else {
        None
    }
}

/// The rules on the content of an event, by its type.
pub fn validate_content(event: &Event, content: &JsonObject, version: &RoomVersion) -> (r: Result<
    (),
    FormatError,
>)
    ensures
        r matches Err(e) ==> content_rule_fault(event@, content@, version.id@) == Some(e@),
        r is Ok ==> content_rule_fault(event@, content@, version.id@) is None,
{
    let event_type: &str = event.event_type.as_str();
    if text::str_eq(event_type, "m.room.create") {
        check_create(content, version)
    } else if text::str_eq(event_type, "m.room.member") {
        check_member(content, &event.state_key)
    } else if text::str_eq(event_type, "m.room.power_levels") {
        check_power_levels(content)
    } else {
        Ok(())
    }
}

/// What is wrong with the text of a content.
pub open spec fn content_text_fault(content: Seq<char>) -> Option<FormatFault> {
    match codec::parsed_json(content) {
        None => Some(FormatFault::InvalidJson),
        Some(v) => fault_if(
            !(v is Object),
            (FormatFault::InvalidFieldType { field: "content"@, expected: "object"@ }),
        ),
    }
}

/// The object that the text of a content holds.
pub fn content_as_object(content: &str) -> (r: Result<JsonObject, FormatError>)
    ensures
        r matches Err(e) ==> content_text_fault(content@) == Some(e@),
        r matches Ok(m) ==> content_text_fault(content@) is None && codec::parsed_json(content@) == Some(
            JsonView::Object(m@),
        ),
        r matches Err(e) ==> (e is InvalidJson ==> cause_words(e) is Some),
{
    match codec::parse(content) {
        Err(e) => Err(FormatError::InvalidJson(e)),
        Ok(v) => match v.into_object() {
            Some(m) => Ok(m),
            None => Err(FormatError::InvalidFieldType { field: "content", expected: "object" }),
        },
    }
}

/// What is wrong with the text of an event: it is an object that canonical JSON has a form for.
pub open spec fn wire_fault(raw: Seq<char>) -> Option<FormatFault> {
    match codec::parsed_json(raw) {
        None => Some(FormatFault::InvalidJson),
        Some(v) => if !codec::canonical(v) {
            Some(FormatFault::InvalidJson)
        } else {
            fault_if(
                !(v is Object),
                (FormatFault::InvalidFieldType { field: "<root>"@, expected: "object"@ }),
            )
        },
    }
}

/// The size of an event in canonical JSON.
pub open spec fn canonical_size(raw: Seq<char>) -> nat {
    match codec::parsed_json(raw) {
        Some(v) => byte_len(codec::printed(v)),
        None => 0,
    }
}

/// The first rule that an event breaks.
pub open spec fn pdu_fault(ev: EventView, version_id: Seq<char>) -> Option<FormatFault> {
    first(
        wire_fault(ev.raw),
        first(
            shape_fault(ev, canonical_size(ev.raw)),
            if has_content_rules(ev.event_type) {
                first(
                    content_text_fault(ev.content),
                    match codec::parsed_json(ev.content) {
                        Some(JsonView::Object(m)) => content_rule_fault(ev, m, version_id),
                        _ => None,
                    },
                )
            } else {
                None
            },
        ),
    )
}

/// The rules that an event meets on its own, under the version of its room.
pub fn validate_pdu(event: &Event, version: &RoomVersion) -> (r: Result<(), FormatError>)
    ensures
        r matches Err(e) ==> pdu_fault(event@, version.id@) == Some(e@),
        r is Ok ==> pdu_fault(event@, version.id@) is None,
        r matches Err(e) ==> (e is InvalidJson ==> cause_words(e) is Some),
{
    let wire: Json = match codec::parse_canonical(event.raw.as_str()) {
        Err(e) => return Err(FormatError::InvalidJson(e)),
        Ok(v) => v,
    };
    if wire.as_object().is_none() {
        return Err(FormatError::InvalidFieldType { field: "<root>", expected: "object" });
    }
    let size: usize = bytes_of(codec::print(&wire).as_str());
    if let Err(e) = validate_shape(event, size) {
        return Err(e);
    }
    let event_type: &str = event.event_type.as_str();
    let ruled: bool = text::str_eq(event_type, "m.room.create") || text::str_eq(
        event_type,
        "m.room.member",
    ) || text::str_eq(event_type, "m.room.power_levels");
    if ruled {
        match content_as_object(event.content.as_str()) {
            Err(e) => Err(e),
            Ok(content) => validate_content(event, &content, version),
        }
    } else {
        Ok(())
    }
}

/// A fault in the format of an event means that there is no event: it is dropped. What is an
/// object is not refused as bad JSON.
pub proof fn law_format_faults_drop(m: Map<Seq<char>, JsonView>, event_id: Seq<char>)
    ensures
        parse_fault(m, event_id) matches Some(fault) ==> !breaks_auth_rule(fault) && !(fault is InvalidJson),
{
    lemma_event_ids_drop(m, "prev_events"@);
    lemma_event_ids_drop(m, "prev_state_events"@);
}

proof fn lemma_event_ids_drop(m: Map<Seq<char>, JsonView>, field: Seq<char>)
    ensures
        event_id_array_fault(m, field) matches Some(fault) ==> !breaks_auth_rule(fault) && !(fault is InvalidJson),
{
    if let Some(JsonView::Array(items)) = json::lookup(m, field) {
        lemma_event_ids_fault_drop(items, field);
    }
}

proof fn lemma_event_ids_fault_drop(items: Seq<JsonView>, field: Seq<char>)
    ensures
        event_ids_fault(items, field) matches Some(fault) ==> !breaks_auth_rule(fault) && !(fault is InvalidJson),
    decreases items.len(),
{
    if items.len() > 0 {
        lemma_event_ids_fault_drop(items.drop_last(), field);
    }
}

/// The creation of a room is never kept as rejected: whatever is wrong with it, it is dropped.
pub proof fn law_creations_are_never_rejected(ev: EventView, version_id: Seq<char>)
    requires
        ev.event_type == "m.room.create"@,
    ensures
        pdu_fault(ev, version_id) matches Some(fault) ==> !breaks_auth_rule(fault),
{
}

/// The rule on state keys that name a user binds every event except memberships, creations and
/// invitations by a third party: one that meets all rules and has such a key was sent by that
/// user.
pub proof fn law_user_state_keys_name_the_sender(ev: EventView, version_id: Seq<char>, key: Seq<char>)
    requires
        pdu_fault(ev, version_id) is None,
        ev.state_key == Some(key),
        starts_at(key),
        !settles_state_key(ev.event_type),
    ensures
        key == ev.sender,
{
}

/// An event that was read and is the creation of a room is in the room of its own identifier.
pub proof fn law_creation_makes_its_room(
    m: Map<Seq<char>, JsonView>,
    raw: Seq<char>,
    event_id: Seq<char>,
    auth_events: Seq<Seq<char>>,
)
    requires
        parse_fault(m, event_id) is None,
        creates(m),
    ensures
        parsed_event(m, raw, event_id, auth_events).room_id == seq!['!'] + event_id.skip(1),
        ids::room_id_valid(parsed_event(m, raw, event_id, auth_events).room_id),
        !m.contains_key("room_id"@),
{
}

/// What is read from a text of the right format: a sender that is a user, parents that are
/// events, and a room that is a room.
pub proof fn law_parsed_identifiers_are_valid(
    m: Map<Seq<char>, JsonView>,
    raw: Seq<char>,
    event_id: Seq<char>,
    auth_events: Seq<Seq<char>>,
    i: int,
)
    requires
        parse_fault(m, event_id) is None,
    ensures
        ids::user_id_valid(parsed_event(m, raw, event_id, auth_events).sender),
        ids::room_id_valid(parsed_event(m, raw, event_id, auth_events).room_id),
        0 <= i < parsed_event(m, raw, event_id, auth_events).prev_events.len() ==> ids::event_id_valid(
            parsed_event(m, raw, event_id, auth_events).prev_events[i],
        ),
        0 <= i < parsed_event(m, raw, event_id, auth_events).prev_state_events.len()
            ==> ids::event_id_valid(parsed_event(m, raw, event_id, auth_events).prev_state_events[i]),
{
    if let Some(JsonView::Array(items)) = json::lookup(m, "prev_events"@) {
        lemma_event_ids_valid(items, "prev_events"@, i);
    }
    if let Some(JsonView::Array(items)) = json::lookup(m, "prev_state_events"@) {
        lemma_event_ids_valid(items, "prev_state_events"@, i);
    }
}

proof fn lemma_event_ids_valid(items: Seq<JsonView>, field: Seq<char>, i: int)
    requires
        event_ids_fault(items, field) is None,
    ensures
        0 <= i < items.len() ==> ids::event_id_valid(texts(items)[i]),
    decreases items.len(),
{
    if items.len() > 0 {
        if i < items.len() - 1 {
            lemma_event_ids_valid(items.drop_last(), field, i);
            if 0 <= i {
                assert(items.drop_last()[i] == items[i]);
            }
        }
    }
}

} // verus!
