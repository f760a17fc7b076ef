//! The handling of the events of an inbound transaction, one after the other: which version
//! names an event, whether it is staged, and when all are handled. What only the store and the
//! naming of events can tell is asked for by an action, and handed back.
use crate::codec;
use crate::engine;
use crate::engine::{RoomVersionKeys, StorageError, VersionError};
use crate::event;
use crate::event::{Event, EventView, RoomVersion, RoomVersions};
use crate::send;
use crate::send::{PduOutcome, Progress, ProgressView, VersionStep};
use vstd::prelude::*;

verus! {

/// What is to be done next.
pub enum Action {
    /// Read the version that the store has for the room, when there is one.
    AskVersion { room_id: Option<String> },
    /// Name the event in the given place, under the given version.
    Name { index: usize, version: String },
    /// Stage the event that was named.
    Stage { index: usize },
    /// All events are handled.
    Finish,
}

/// How far the event at hand has come.
pub enum Phase {
    /// Its version is asked for.
    Asking,
    /// It is being named: `decision` is the version, where it was asked for.
    Naming { decision: Ghost<Option<Option<Seq<char>>>> },
    /// It is being staged.
    Staging {
        event_id: String,
        room_id: String,
        decision: Ghost<Option<Option<Seq<char>>>>,
        ev: Ghost<EventView>,
    },
    /// There is none left.
    Done,
}

/// The handling of the events of a transaction.
pub struct Inbound {
    pub origin: String,
    /// The events, as JSON text.
    pub pdus: Vec<String>,
    /// The place of the event at hand.
    pub index: usize,
    pub phase: Phase,
    pub progress: Progress,
    /// What came of each event so far.
    pub history: Ghost<Seq<PduOutcome>>,
}

/// The room that the text of an event names.
pub open spec fn room_named(raw: Seq<char>) -> Option<Seq<char>> {
    match codec::parsed_object(raw) {
        Some(m) => engine::keyed_room(m),
        None => None,
    }
}

/// The version that the text of an event declares.
pub open spec fn version_declared(raw: Seq<char>) -> Option<Seq<char>> {
    match codec::parsed_object(raw) {
        Some(m) => engine::keyed_version(m),
        None => None,
    }
}

/// Whether it was decided before that an event of the room can never be named.
pub open spec fn never_named(p: ProgressView, room: Option<Seq<char>>) -> bool {
    match room {
        Some(r) => p.versions.contains_key(r) && p.versions[r] is None,
        None => false,
    }
}

/// The version that was decided before for an event of the room.
pub open spec fn known_version(p: ProgressView, room: Option<Seq<char>>) -> Option<Seq<char>> {
    match room {
        Some(r) => if p.versions.contains_key(r) {
            p.versions[r]
        } else {
            None
        },
        None => None,
    }
}

/// The outcome of an event that is passed over, as it was decided before that it can never be
/// named.
pub open spec fn passed_over(room: Option<Seq<char>>) -> PduOutcome {
    PduOutcome::Dropped { room, decision: None }
}

/// The first place at or behind the given one whose event is not passed over.
pub open spec fn next_open(p: ProgressView, pdus: Seq<Seq<char>>, i: int) -> int
    decreases pdus.len() - i,
{
    if 0 <= i < pdus.len() && never_named(p, room_named(pdus[i])) {
        next_open(p, pdus, i + 1)
    } else {
        i
    }
}

/// The outcomes once the events from one place up to another are passed over.
pub open spec fn with_passed(history: Seq<PduOutcome>, pdus: Seq<Seq<char>>, from: int, to: int) -> Seq<
    PduOutcome,
>
    decreases to - from,
{
    if from < to {
        with_passed(history, pdus, from, to - 1).push(passed_over(room_named(pdus[to - 1])))
    } else {
        history
    }
}

impl Inbound {
    /// The room that the event at hand names.
    pub open spec fn room(&self) -> Option<Seq<char>> {
        room_named(self.pdus@[self.index as int]@)
    }

    /// The texts of the events.
    pub open spec fn texts(&self) -> Seq<Seq<char>> {
        event::views(self.pdus@)
    }

    /// The progress is what the outcomes so far make of it, and what has come of the event at
    /// hand.
    pub open spec fn wf(&self) -> bool {
        let before = send::after_pdus(self.origin@, self.history@);
        &&& self.history@.len() == self.index
        &&& self.index <= self.pdus@.len()
        &&& match self.phase {
            Phase::Asking => self.index < self.pdus@.len() && self.progress@ == before,
            Phase::Naming { decision } => self.index < self.pdus@.len() && self.progress@
                == send::with_decision(before, self.room(), decision@),
            Phase::Staging { event_id, room_id, decision, ev } => {
                let q = send::with_decision(before, self.room(), decision@);
                &&& self.index < self.pdus@.len()
                &&& event_id@ == ev@.event_id
                &&& room_id@ == ev@.room_id
                &&& !q.seen.contains(ev@.event_id)
                &&& self.progress@ == send::with_named(q, ev@, self.origin@)
            },
            Phase::Done => self.index == self.pdus@.len() && self.progress@ == before,
        }
    }

    /// The action and the phase that follow when the events before the given place are handled,
    /// with the given outcomes.
    pub open spec fn goes_on(
        &self,
        action: Action,
        from: Inbound,
        progress: ProgressView,
        handled: Seq<PduOutcome>,
    ) -> bool {
        let i = next_open(progress, from.texts(), handled.len() as int);
        &&& self.origin == from.origin
        &&& self.pdus == from.pdus
        &&& self.index == i
        &&& self.progress@ == progress
        &&& self.history@ == with_passed(handled, from.texts(), handled.len() as int, i)
        &&& if i == from.pdus@.len() {
            action is Finish && self.phase is Done
        } else {
            match known_version(progress, self.room()) {
                Some(v) => (action matches Action::Name { index, version } && index == i && version@ == v)
                    && (self.phase matches Phase::Naming { decision } && decision@ is None),
                None => (action matches Action::AskVersion { room_id } && event::option_view(room_id)
                    == self.room()) && self.phase is Asking,
            }
        }
    }

    /// Goes to the next event that is not passed over.
    fn settle(&mut self) -> (action: Action)
        requires
            old(self).history@.len() == old(self).index,
            old(self).index <= old(self).pdus@.len(),
            old(self).progress@ == send::after_pdus(old(self).origin@, old(self).history@),
        ensures
            final(self).wf(),
            final(self).goes_on(action, *old(self), old(self).progress@, old(self).history@),
    {
        let ghost start = self.index as int;
        let ghost handled = self.history@;
        let ghost texts = self.texts();
        while self.index < self.pdus.len()
            invariant
                start <= self.index <= self.pdus@.len(),
                handled == old(self).history@,
                start == handled.len(),
                texts == old(self).texts(),
                self.origin == old(self).origin,
                self.pdus == old(self).pdus,
                self.progress == old(self).progress,
                self.history@.len() == self.index,
                self.progress@ == send::after_pdus(self.origin@, self.history@),
                self.history@ == with_passed(handled, texts, start, self.index as int),
                next_open(self.progress@, texts, start) == next_open(
                    self.progress@,
                    texts,
                    self.index as int,
                ),
            decreases self.pdus.len() - self.index,
        {
            let keys: RoomVersionKeys = engine::room_version_keys(self.pdus[self.index].as_str());
            assert(texts[self.index as int] == self.pdus@[self.index as int]@);
            assert(event::option_view(keys.room_id) == self.room());
            match self.progress.version_step(&keys) {
                VersionStep::Known(version) => {
                    self.phase = Phase::Naming { decision: Ghost(None) };
                    return Action::Name { index: self.index, version };
                },
                VersionStep::Ask => {
                    self.phase = Phase::Asking;
                    return Action::AskVersion { room_id: keys.room_id };
                },
                VersionStep::Never => {
                    proof {
                        let more = self.history@.push(passed_over(self.room()));
                        assert(more.drop_last() =~= self.history@);
                        self.history@ = more;
                    }
                    self.index = self.index + 1;
                },
            }
        }
        self.phase = Phase::Done;
        Action::Finish
    }

    /// The outcome of the event at hand is known: goes to the next.
    fn conclude(&mut self, Ghost(outcome): Ghost<PduOutcome>) -> (action: Action)
        requires
            old(self).history@.len() == old(self).index,
            old(self).index < old(self).pdus@.len(),
            old(self).progress@ == send::after_pdu(
                send::after_pdus(old(self).origin@, old(self).history@),
                old(self).origin@,
                outcome,
            ),
        ensures
            final(self).wf(),
            final(self).goes_on(
                action,
                *old(self),
                old(self).progress@,
                old(self).history@.push(outcome),
            ),
    {
        let last: usize = self.pdus.len() - 1;
        assert(self.index <= last);
        proof {
            let more = self.history@.push(outcome);
            assert(more.drop_last() =~= self.history@);
            self.history@ = more;
        }
        self.index = self.index + 1;
        self.settle()
    }

    /// Begins with the first event.
    pub fn begin(origin: String, pdus: Vec<String>) -> (r: (Inbound, Action))
        ensures
            r.0.wf(),
            r.0.origin == origin,
            r.0.pdus == pdus,
            r.0.goes_on(r.1, r.0, send::started(), seq![]),
    {
        let mut s = Inbound {
            origin,
            pdus,
            index: 0,
            phase: Phase::Done,
            progress: Progress::new(),
            history: Ghost(Seq::empty()),
        };
        let action: Action = s.settle();
        (s, action)
    }

    /// What the store has on record for the room of the event at hand: decides on the version
    /// that names it.
    pub fn on_version(
        &mut self,
        stored: Result<Option<String>, StorageError>,
        versions: &RoomVersions,
    ) -> (action: Action)
        requires
            old(self).wf(),
            old(self).phase is Asking,
        ensures
            final(self).wf(),
            match version_of(
                old(self).room(),
                version_declared(old(self).pdus@[old(self).index as int]@),
                stored,
                *versions,
            ) {
                Named::Version(id) => {
                    &&& final(self).origin == old(self).origin
                    &&& final(self).pdus == old(self).pdus
                    &&& final(self).index == old(self).index
                    &&& final(self).history@ == old(self).history@
                    &&& final(self).progress@ == send::with_version(
                        old(self).progress@,
                        old(self).room(),
                        Some(Some(id)),
                    )
                    &&& action matches Action::Name { index, version }
                    &&& index == old(self).index
                    &&& version@ == id
                    &&& final(self).phase matches Phase::Naming { decision }
                    &&& decision@ == Some(Some(id))
                },
                Named::Never => final(self).goes_on(
                    action,
                    *old(self),
                    send::with_version(old(self).progress@, old(self).room(), Some(None)),
                    old(self).history@.push(
                        (PduOutcome::Dropped { room: old(self).room(), decision: Some(None) }),
                    ),
                ),
                Named::Fault => final(self).goes_on(
                    action,
                    *old(self),
                    send::with_version(old(self).progress@, old(self).room(), None),
                    old(self).history@.push(PduOutcome::VersionFault { room: old(self).room() }),
                ),
            },
    {
        let keys: RoomVersionKeys = engine::room_version_keys(self.pdus[self.index].as_str());
        let room_id: Option<String> = match &keys.room_id {
            Some(r) => Some(r.clone()),
            None => None,
        };
        let ghost room = self.room();
        assert(event::option_view(room_id) == room);
        let asked = RoomVersionKeys { room_id, declared: None };
        let resolved: Result<&RoomVersion, VersionError> = engine::room_version_for_wire(
            keys,
            stored,
            versions,
        );
        let fault: bool = match &resolved {
            Ok(_) => false,
            Err(e) => e.is_retryable(),
        };
        match self.progress.note_version(&asked, resolved) {
            Some(version) => {
                self.phase = Phase::Naming { decision: Ghost(Some(Some(version@))) };
                Action::Name { index: self.index, version }
            },
            None => {
                let ghost outcome = if fault {
                    PduOutcome::VersionFault { room }
                } else {
                    PduOutcome::Dropped { room, decision: Some(None) }
                };
                self.conclude(Ghost(outcome))
            },
        }
    }

    /// What came of naming the event at hand: `None` when it is not an event.
    pub fn on_named(&mut self, named: Option<&Event>) -> (action: Action)
        requires
            old(self).wf(),
            old(self).phase is Naming,
        ensures
            final(self).wf(),
            ({
                let decision = old(self).phase->Naming_decision@;
                let room = old(self).room();
                match named {
                    None => final(self).goes_on(
                        action,
                        *old(self),
                        old(self).progress@,
                        old(self).history@.push((PduOutcome::Dropped { room, decision })),
                    ),
                    Some(ev) => if old(self).progress@.seen.contains(ev.event_id@) {
                        final(self).goes_on(
                            action,
                            *old(self),
                            send::with_named(old(self).progress@, ev@, old(self).origin@),
                            old(self).history@.push(
                                (PduOutcome::Named { room, decision, ev: ev@, error: None }),
                            ),
                        )
                    } else {
                        &&& final(self).origin == old(self).origin
                        &&& final(self).pdus == old(self).pdus
                        &&& final(self).index == old(self).index
                        &&& final(self).history@ == old(self).history@
                        &&& final(self).progress@ == send::with_named(
                            old(self).progress@,
                            ev@,
                            old(self).origin@,
                        )
                        &&& final(self).phase matches Phase::Staging { ev: e, decision: d, .. }
                        &&& e@ == ev@
                        &&& d@ == decision
                        &&& action matches Action::Stage { index }
                        &&& index == old(self).index
                    },
                }
            }),
    {
        let ghost decision = self.phase->Naming_decision@;
        let ghost room = self.room();
        match named {
            None => self.conclude(Ghost(PduOutcome::Dropped { room, decision })),
            Some(ev) => {
                if self.progress.note_named(ev, self.origin.as_str()) {
                    self.phase = Phase::Staging {
                        event_id: ev.event_id.clone(),
                        room_id: ev.room_id.clone(),
                        decision: Ghost(decision),
                        ev: Ghost(ev@),
                    };
                    Action::Stage { index: self.index }
                } else {
                    self.conclude(
                        Ghost(PduOutcome::Named { room, decision, ev: ev@, error: None }),
                    )
                }
            },
        }
    }

    /// What came of staging the event at hand.
    pub fn on_staged(&mut self, outcome: Result<(), StorageError>) -> (action: Action)
        requires
            old(self).wf(),
            old(self).phase is Staging,
        ensures
            final(self).wf(),
            ({
                let ev = old(self).phase->Staging_ev@;
                let decision = old(self).phase->Staging_decision@;
                let error = error_of(outcome);
                final(self).goes_on(
                    action,
                    *old(self),
                    send::with_staged(old(self).progress@, ev.event_id, ev.room_id, error),
                    old(self).history@.push(
                        (PduOutcome::Named { room: old(self).room(), decision, ev, error }),
                    ),
                )
            }),
    {
        let ghost ev = self.phase->Staging_ev@;
        let ghost decision = self.phase->Staging_decision@;
        let ghost room = self.room();
        let ghost error = error_of(outcome);
        let (event_id, room_id): (String, String) = match &self.phase {
            Phase::Staging { event_id, room_id, .. } => (event_id.clone(), room_id.clone()),
            _ => vstd::pervasive::unreached(),
        };
        self.progress.note_staged(event_id.as_str(), room_id.as_str(), outcome);
        self.conclude(Ghost(PduOutcome::Named { room, decision, ev, error }))
    }
}

/// Why the store did not do what it was asked for.
pub open spec fn error_of(outcome: Result<(), StorageError>) -> Option<Seq<char>> {
    match outcome {
        Ok(_) => None,
        Err(e) => Some(e.message@),
    }
}

/// What names an event: a version, nothing that is spoken here, or it cannot be told as the
/// store failed.
pub enum Named {
    Version(Seq<char>),
    Never,
    Fault,
}

/// The version with the given identifier.
pub open spec fn by_identifier(versions: RoomVersions, id: Seq<char>) -> Named {
    match versions.get_spec(id) {
        Some(v) => Named::Version(v.id@),
        None => Named::Never,
    }
}

/// The version that names an event which names the given room and declares the given version,
/// when the store has the given one on record for the room.
pub open spec fn version_of(
    room: Option<Seq<char>>,
    declared: Option<Seq<char>>,
    stored: Result<Option<String>, StorageError>,
    versions: RoomVersions,
) -> Named {
    if room is Some {
        match stored {
            Err(_) => Named::Fault,
            Ok(None) => Named::Never,
            Ok(Some(id)) => by_identifier(versions, id@),
        }
    } else {
        match declared {
            Some(id) => by_identifier(versions, id),
            None => Named::Version(versions.base_spec().id@),
        }
    }
}

/// Once all events are handled there is an outcome for each of them, and the transaction is
/// recorded as done exactly when the store failed for none.
pub proof fn law_done_means_nothing_lost(s: Inbound)
    requires
        s.wf(),
        s.phase is Done,
    ensures
        s.history@.len() == s.pdus@.len(),
        s.progress@.all_staged <==> forall|i: int|
            0 <= i < s.pdus@.len() ==> !#[trigger] send::is_lost(s.history@, i),
{
    send::law_nothing_is_lost(s.origin@, s.history@);
}

/// The version that names an event is the one on record for its room, or the one that its creation
/// declares, or the base version where it declares none. A room that is not on record and a version
/// that is not spoken name none, and a failure of the store decides nothing.
pub proof fn law_which_version_names_an_event(
    room: Seq<char>,
    declared: Option<Seq<char>>,
    id: String,
    e: StorageError,
    versions: RoomVersions,
)
    ensures
        version_of(Some(room), declared, Err(e), versions) is Fault,
        version_of(Some(room), declared, Ok(None), versions) is Never,
        version_of(Some(room), declared, Ok(Some(id)), versions) == match versions.get_spec(id@) {
            Some(v) => Named::Version(v.id@),
            None => Named::Never,
        },
        version_of(None, Some(id@), Err(e), versions) == match versions.get_spec(id@) {
            Some(v) => Named::Version(v.id@),
            None => Named::Never,
        },
        version_of(None, None, Err(e), versions) == Named::Version(versions.base_spec().id@),
{
}

/// An event is passed over exactly when it names a room whose events are known never to be named;
/// the first that is not is handled next.
pub proof fn law_which_events_are_passed_over(p: ProgressView, pdus: Seq<Seq<char>>, i: int, j: int)
    requires
        0 <= i <= pdus.len(),
    ensures
        ({
            let at = next_open(p, pdus, i);
            let passed = |k: int| room_named(pdus[k]) matches Some(r) && p.versions.contains_key(r)
                && p.versions[r] is None;
            &&& i <= at <= pdus.len()
            &&& i <= j < at ==> passed(j)
            &&& at < pdus.len() ==> !passed(at)
        }),
    decreases pdus.len() - i,
{
    if i < pdus.len() && never_named(p, room_named(pdus[i])) {
        law_which_events_are_passed_over(p, pdus, i + 1, j);
    }
}

/// The room that the text of an event names is that of its object, and the version that it declares
/// is that of the creation of a room; a text that is no object says nothing.
pub proof fn law_what_a_text_says_of_its_version(raw: Seq<char>, room: Seq<char>, id: Seq<char>)
    ensures
        room_named(raw) == Some(room) <==> (codec::parsed_object(raw) matches Some(m) && m.contains_key(
            "room_id"@,
        ) && m["room_id"@] == crate::json::JsonView::Text(room) && crate::ids::room_id_valid(room)),
        version_declared(raw) == Some(id) <==> (codec::parsed_object(raw) matches Some(m)
            && m.contains_key("type"@) && m["type"@] == crate::json::JsonView::Text("m.room.create"@)
            && m.contains_key("content"@) && m["content"@].field("room_version"@) == Some(
            crate::json::JsonView::Text(id),
        )),
{
}

/// What is done next: the first event that is not passed over is named, under the version that was
/// decided for its room before, or its version is asked for; where there is none, all is done. The
/// events are those that were given, and each that is passed over counts as dropped.
pub proof fn law_what_is_done_next(
    s: Inbound,
    action: Action,
    from: Inbound,
    progress: ProgressView,
    handled: Seq<PduOutcome>,
    i: int,
)
    requires
        s.goes_on(action, from, progress, handled),
        handled.len() <= from.pdus@.len(),
    ensures
        s.origin == from.origin,
        s.pdus == from.pdus,
        s.progress@ == progress,
        handled.len() <= s.index <= from.pdus@.len(),
        s.history@.len() == s.index,
        0 <= i < handled.len() ==> s.history@[i] == handled[i],
        handled.len() <= i < s.index ==> s.history@[i] == (PduOutcome::Dropped {
            room: room_named(from.pdus@[i]@),
            decision: None,
        }),
        s.index == from.pdus@.len() ==> action is Finish && s.phase is Done,
        s.index < from.pdus@.len() ==> ({
            let room = room_named(from.pdus@[s.index as int]@);
            let known = room matches Some(r) && progress.versions.contains_key(r);
            &&& known ==> (progress.versions[room->0] matches Some(v) && (action matches Action::Name {
                index,
                version,
            } && index == s.index && version@ == v))
            &&& !known ==> (action matches Action::AskVersion { room_id } && event::option_view(room_id)
                == room && s.phase is Asking)
        }),
{
    let texts = from.texts();
    let start = handled.len() as int;
    law_which_events_are_passed_over(progress, texts, start, i);
    law_which_events_are_passed_over(progress, texts, start, start);
    lemma_with_passed(handled, texts, start, s.index as int, i);
    if s.index < from.pdus@.len() {
        assert(texts[s.index as int] == from.pdus@[s.index as int]@);
    }
    if start <= i < s.index {
        assert(texts[i] == from.pdus@[i]@);
    }
}

proof fn lemma_with_passed(history: Seq<PduOutcome>, pdus: Seq<Seq<char>>, from: int, to: int, i: int)
    requires
        from == history.len(),
        from <= to,
    ensures
        with_passed(history, pdus, from, to).len() == to,
        0 <= i < from ==> with_passed(history, pdus, from, to)[i] == history[i],
        from <= i < to ==> with_passed(history, pdus, from, to)[i] == (PduOutcome::Dropped {
            room: room_named(pdus[i]),
            decision: None,
        }),
    decreases to - from,
{
    if from < to {
        lemma_with_passed(history, pdus, from, to - 1, i);
    }
}

/// Why the store did not stage an event is what it says.
pub proof fn law_failures_say_why(e: StorageError)
    ensures
        error_of(Err(e)) == Some(e.message@),
        error_of(Ok(())) is None,
{
}

} // verus!
