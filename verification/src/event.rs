//! Room events, room versions and the registry of the versions that are spoken.
use crate::text;
use vstd::prelude::*;

verus! {

/// The identifier of the base room version.
pub const ROOM_VERSION_ID: &'static str = "org.matrix.msc4242.12";

/// The characters of each string of a list.
pub open spec fn views(items: Seq<String>) -> Seq<Seq<char>> {
    Seq::new(items.len(), |i: int| items[i]@)
}

/// The characters of a string that may be absent.
pub open spec fn option_view(s: Option<String>) -> Option<Seq<char>> {
    match s {
        Some(s) => Some(s@),
        None => None,
    }
}

/// A room event: the fields that were read from it, and the text that it came as.
#[derive(Debug)]
pub struct Event {
    pub event_id: String,
    pub room_id: String,
    pub sender: String,
    pub event_type: String,
    pub state_key: Option<String>,
    pub origin_server_ts: u64,
    /// The content, as JSON text.
    pub content: String,
    pub prev_events: Vec<String>,
    pub prev_state_events: Vec<String>,
    pub auth_events: Vec<String>,
    pub rejected: bool,
    pub soft_failed: bool,
    /// The whole event, as JSON text.
    pub raw: String,
}

/// A room event as mathematics.
#[verifier::ext_equal]
pub struct EventView {
    pub event_id: Seq<char>,
    pub room_id: Seq<char>,
    pub sender: Seq<char>,
    pub event_type: Seq<char>,
    pub state_key: Option<Seq<char>>,
    pub origin_server_ts: int,
    pub content: Seq<char>,
    pub prev_events: Seq<Seq<char>>,
    pub prev_state_events: Seq<Seq<char>>,
    pub auth_events: Seq<Seq<char>>,
    pub rejected: bool,
    pub soft_failed: bool,
    pub raw: Seq<char>,
}

impl View for Event {
    type V = EventView;

    open spec fn view(&self) -> EventView {
        EventView {
            event_id: self.event_id@,
            room_id: self.room_id@,
            sender: self.sender@,
            event_type: self.event_type@,
            state_key: option_view(self.state_key),
            origin_server_ts: self.origin_server_ts as int,
            content: self.content@,
            prev_events: views(self.prev_events@),
            prev_state_events: views(self.prev_state_events@),
            auth_events: views(self.auth_events@),
            rejected: self.rejected,
            soft_failed: self.soft_failed,
            raw: self.raw@,
        }
    }
}

/// The top-level keys that a room version keeps or drops beyond the rules of version 12 when
/// an event is redacted.
#[derive(Debug)]
pub struct RedactionKeys {
    pub added: Vec<String>,
    pub removed: Vec<String>,
}

/// A room version: its identifier, and what it adds to the redaction rules of version 12.
#[derive(Debug)]
pub struct RoomVersion {
    pub id: String,
    pub redaction_keys: RedactionKeys,
}

/// Whether this is the room version that every build speaks: its identifier, and that redaction
/// keeps the state parents of an event.
pub open spec fn is_base(v: RoomVersion) -> bool {
    &&& v.id@ == ROOM_VERSION_ID@
    &&& views(v.redaction_keys.added@) == seq!["prev_state_events"@]
    &&& views(v.redaction_keys.removed@) == Seq::<Seq<char>>::empty()
}

/// The room version that every build speaks.
pub fn base_version() -> (v: RoomVersion)
    ensures
        is_base(v),
{
    let mut added: Vec<String> = Vec::new();
    added.push("prev_state_events".to_owned());
    let v = RoomVersion {
        id: ROOM_VERSION_ID.to_owned(),
        redaction_keys: RedactionKeys { added, removed: Vec::new() },
    };
    assert(views(v.redaction_keys.added@) =~= seq!["prev_state_events"@]);
    assert(views(v.redaction_keys.removed@) =~= Seq::<Seq<char>>::empty());
    v
}

/// Why a registry of room versions could not be made.
#[derive(Debug)]
pub enum RegistryError {
    /// The further version has the identifier of the base version.
    DuplicateId(String),
}

/// The room versions that are spoken: the base version, and perhaps one more.
pub struct RoomVersions {
    base: RoomVersion,
    medium: Option<RoomVersion>,
}

impl RoomVersions {
    /// The base version.
    pub closed spec fn base_spec(&self) -> RoomVersion {
        self.base
    }

    /// The version of the federation medium, when there is one.
    pub closed spec fn medium_spec(&self) -> Option<RoomVersion> {
        self.medium
    }

    /// The version with the given identifier.
    pub closed spec fn get_spec(&self, id: Seq<char>) -> Option<RoomVersion> {
        if id == self.base.id@ {
            Some(self.base)
        } else {
            match self.medium {
                Some(v) => if id == v.id@ {
                    Some(v)
                } else {
                    None
                },
                None => None,
            }
        }
    }

    /// The base version and, when there is one, the version of the federation medium, whose
    /// identifier is another.
    pub fn new(medium: Option<RoomVersion>) -> (r: Result<Self, RegistryError>)
        ensures
            r is Err <==> (medium matches Some(v) && v.id@ == ROOM_VERSION_ID@),
            r matches Err(RegistryError::DuplicateId(id)) ==> id@ == ROOM_VERSION_ID@,
            r matches Ok(s) ==> {
                &&& is_base(s.base_spec())
                &&& s.medium_spec() == medium
                &&& s.get_spec(ROOM_VERSION_ID@) == Some(s.base_spec())
                &&& forall|id: Seq<char>|
                    id != ROOM_VERSION_ID@ ==> #[trigger] s.get_spec(id) == match medium {
                        Some(v) => if id == v.id@ {
                            Some(v)
                        } else {
                            None
                        },
                        None => None,
                    }
            },
    {
        let base: RoomVersion = base_version();
        match &medium {
            Some(v) => {
                if text::str_eq(v.id.as_str(), ROOM_VERSION_ID) {
                    return Err(RegistryError::DuplicateId(v.id.clone()));
                }
            },
            None => {},
        }
        Ok(RoomVersions { base, medium })
    }

    /// The base version alone.
    pub fn base_only() -> (s: Self)
        ensures
            is_base(s.base_spec()),
            s.medium_spec() is None,
            forall|id: Seq<char>| #[trigger]
                s.get_spec(id) == (if id == ROOM_VERSION_ID@ {
                    Some(s.base_spec())
                } else {
                    None
                }),
    {
        RoomVersions { base: base_version(), medium: None }
    }

    /// The base version.
    pub fn base(&self) -> (v: &RoomVersion)
        ensures
            *v == self.base_spec(),
    {
        &self.base
    }

    /// The identifiers of the versions that are spoken, the base version first.
    pub fn ids(&self) -> (ids: Vec<String>)
        ensures
            views(ids@) == match self.medium_spec() {
                Some(v) => seq![self.base_spec().id@, v.id@],
                None => seq![self.base_spec().id@],
            },
            forall|id: Seq<char>| #[trigger]
                views(ids@).contains(id) <==> self.get_spec(id) is Some,
    {
        let mut ids: Vec<String> = Vec::new();
        ids.push(self.base.id.clone());
        match &self.medium {
            Some(v) => {
                ids.push(v.id.clone());
                assert(views(ids@)[1] == v.id@);
            },
            None => {},
        }
        assert(views(ids@)[0] == self.base.id@);
        assert(views(ids@) =~= match self.medium_spec() {
            Some(v) => seq![self.base_spec().id@, v.id@],
            None => seq![self.base_spec().id@],
        });
        ids
    }

    /// The version with the given identifier.
    pub fn get(&self, id: &str) -> (v: Option<&RoomVersion>)
        ensures
            v is Some == self.get_spec(id@) is Some,
            v matches Some(x) ==> self.get_spec(id@) == Some(*x) && x.id@ == id@,
    {
        if text::str_eq(id, self.base.id.as_str()) {
            return Some(&self.base);
        }
        match &self.medium {
            Some(v) => if text::str_eq(id, v.id.as_str()) {
                Some(v)
            } else {
                None
            },
            None => None,
        }
    }
}

/// The base version has its identifier, and keeps the state parents of an event, and no more than
/// that, beyond the rules of version 12.
pub proof fn law_the_base_version_keeps_state_parents(v: RoomVersion)
    requires
        is_base(v),
    ensures
        v.id@ == "org.matrix.msc4242.12"@,
        v.redaction_keys.added@.len() == 1,
        v.redaction_keys.added@[0]@ == "prev_state_events"@,
        v.redaction_keys.removed@.len() == 0,
{
    let added = views(v.redaction_keys.added@);
    assert(added.len() == 1);
    assert(added[0] == v.redaction_keys.added@[0]@);
    assert(views(v.redaction_keys.removed@).len() == 0);
}

} // verus!
