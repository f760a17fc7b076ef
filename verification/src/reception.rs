//! The reception of a federation transaction: whether it is taken, whether it was handled before,
//! and whether it goes on record. One that was handled before is answered and nothing else is
//! done for it, so that no message to a device is delivered twice.
use crate::engine;
use crate::engine::{ForwardExtremities, StorageError};
use crate::json::{Json, JsonView};
use crate::reply::FedError;
use crate::send;
use crate::send::{PduOutcome, Progress, ProgressView, Transaction};
use crate::strmap::StrMap;
use vstd::prelude::*;

verus! {

/// What a transaction goes on record by: the server that sent it, as the network attests it, and
/// the identifier that this server gave it.
pub struct TxnKey {
    pub origin: String,
    pub txn_id: String,
}

/// What a transaction goes on record by, as mathematics.
#[verifier::ext_equal]
pub struct TxnKeyView {
    pub origin: Seq<char>,
    pub txn_id: Seq<char>,
}

impl View for TxnKey {
    type V = TxnKeyView;

    open spec fn view(&self) -> TxnKeyView {
        TxnKeyView { origin: self.origin@, txn_id: self.txn_id@ }
    }
}

/// What a transaction asks for: messages to deliver, events to take in, and rooms whose heads it
/// tells.
pub struct Work {
    pub edus: Vec<String>,
    pub pdus: Vec<String>,
    pub advertised: StrMap<ForwardExtremities>,
}

impl Work {
    /// Whether this is all that a transaction asks for.
    pub open spec fn is_of(self, txn: Transaction) -> bool {
        &&& self.edus == txn.edus
        &&& self.pdus == txn.pdus
        &&& self.advertised == txn.forward_extremities
    }
}

/// A transaction that is taken, unless it was handled before.
pub struct Accepted {
    pub key: TxnKey,
    pub work: Work,
}

/// What is to be done for a transaction that is taken.
pub enum Reception {
    /// It was handled before: this is answered, and nothing else is done.
    Repeated { answer: Json },
    /// It is new: what it asks for is done.
    Fresh { key: TxnKey, work: Work },
}

/// Whether a transaction claims another origin than the given one.
pub open spec fn claims_other(txn: Transaction, origin: Seq<char>) -> bool {
    txn.origin matches Some(claimed) && claimed@ != origin
}

/// Why a transaction is refused, when the network attests the given origin, or that it has none:
/// its size, its origin, or that it claims another.
pub open spec fn refusal(txn: Transaction, origin: Result<String, FedError>) -> Option<FedError> {
    if txn.pdus@.len() > engine::MAX_PDUS_PER_TXN {
        Some(FedError::BadRequest("transaction exceeds 50 PDUs"))
    } else {
        match origin {
            Err(e) => Some(e),
            Ok(o) => if claims_other(txn, o@) {
                Some(
                    FedError::Unauthorized("X-Matrix origin does not match the transaction origin"),
                )
            } else {
                None
            },
        }
    }
}

/// Takes a transaction, or refuses it. `origin` is who sent it, as the network attests it: that
/// is what it goes on record by, whatever it claims itself.
pub fn accept(txn: Transaction, origin: Result<String, FedError>, txn_id: String) -> (r: Result<
    Accepted,
    FedError,
>)
    ensures
        refusal(txn, origin) matches Some(e) ==> r == Err::<Accepted, FedError>(e),
        refusal(txn, origin) is None ==> (r matches Ok(a) && a.key.origin == origin->Ok_0 && a.key.txn_id
            == txn_id && a.work.is_of(txn)),
{
    if let Err(e) = send::check_size(&txn) {
        return Err(e);
    }
    let origin: String = match origin {
        Ok(o) => o,
        Err(e) => return Err(e),
    };
    if let Err(e) = send::check_origin(&txn, origin.as_str()) {
        return Err(e);
    }
    Ok(
        Accepted {
            key: TxnKey { origin, txn_id },
            work: Work {
                edus: txn.edus,
                pdus: txn.pdus,
                advertised: txn.forward_extremities,
            },
        },
    )
}

impl Accepted {
    /// Whether the key of the transaction is on record, which the store was asked: one that is
    /// was handled before. Where the store failed, so does the transaction.
    pub fn on_record(self, seen: Result<bool, StorageError>) -> (r: Result<Reception, FedError>)
        ensures
            match seen {
                Err(e) => r == Err::<Reception, FedError>(FedError::Storage(e)),
                Ok(true) => r matches Ok(Reception::Repeated { answer }) && answer@ == send::answer(
                    Map::empty(),
                    Map::empty(),
                ),
                Ok(false) => r matches Ok(Reception::Fresh { key, work }) && key == self.key && work
                    == self.work,
            },
    {
        match seen {
            Err(e) => Err(FedError::Storage(e)),
            Ok(true) => Ok(Reception::Repeated { answer: send::duplicate_response() }),
            Ok(false) => Ok(Reception::Fresh { key: self.key, work: self.work }),
        }
    }
}

impl TxnKey {
    /// The key to put on record once the events of the transaction are handled; none when the
    /// store failed for one of them, so that the sender sends the transaction again.
    pub fn to_record(self, progress: &Progress) -> (key: Option<TxnKey>)
        ensures
            key == if progress@.all_staged {
                Some(self)
            } else {
                None::<TxnKey>
            },
    {
        if progress.must_record() {
            Some(self)
        } else {
            None
        }
    }
}

/// What is on record once a transaction was handled with the given progress.
pub open spec fn recorded(record: Set<TxnKeyView>, key: TxnKeyView, progress: ProgressView) -> Set<
    TxnKeyView,
> {
    if progress.all_staged {
        record.insert(key)
    } else {
        record
    }
}

/// What comes of a transaction, as mathematics.
pub enum Outcome {
    /// It is refused.
    Refused(FedError),
    /// It is answered with this body, and nothing else is done.
    Answered(JsonView),
    /// What it asks for is done.
    Handled,
}

/// What comes of a transaction when the given ones are on record.
pub open spec fn received(
    record: Set<TxnKeyView>,
    txn: Transaction,
    origin: Result<String, FedError>,
    txn_id: Seq<char>,
) -> Outcome {
    match refusal(txn, origin) {
        Some(e) => Outcome::Refused(e),
        None => if record.contains(TxnKeyView { origin: (origin->Ok_0)@, txn_id }) {
            Outcome::Answered(send::answer(Map::empty(), Map::empty()))
        } else {
            Outcome::Handled
        },
    }
}

/// A transaction that was handled, with the store failing for none of its events, is done: when
/// one comes with the same identifier from the same server, whatever it carries and whatever came
/// in between, it is answered with no results and no heads, and nothing else is done.
pub proof fn law_a_repeated_transaction_does_nothing(
    record: Set<TxnKeyView>,
    origin: String,
    txn_id: Seq<char>,
    outcomes: Seq<PduOutcome>,
    between: Seq<(TxnKeyView, ProgressView)>,
    again: Transaction,
)
    requires
        forall|i: int| 0 <= i < outcomes.len() ==> !#[trigger] send::is_lost(outcomes, i),
        again.pdus@.len() <= engine::MAX_PDUS_PER_TXN,
        !claims_other(again, origin@),
    ensures
        ({
            let key = TxnKeyView { origin: origin@, txn_id };
            let first = recorded(record, key, send::after_pdus(origin@, outcomes));
            let body = send::answer(Map::empty(), Map::empty());
            &&& received(recorded_all(first, between), again, Ok(origin), txn_id) == Outcome::Answered(
                body,
            )
            &&& body == JsonView::Object(
                Map::empty().insert("pdus"@, JsonView::Object(Map::empty())),
            )
        }),
{
    let key = TxnKeyView { origin: origin@, txn_id };
    send::law_nothing_is_lost(origin@, outcomes);
    lemma_stays_on_record(recorded(record, key, send::after_pdus(origin@, outcomes)), between, key);
    assert(send::results_json(Map::empty()) =~= Map::empty());
    assert(Map::<Seq<char>, send::HeadsView>::empty().is_empty());
}

/// A transaction for an event of which the store failed is not on record, and neither is one that
/// never came: it is handled when it is sent again. One that the same server sent under another
/// identifier, or another server under the same, does not stand in for it.
pub proof fn law_only_what_was_handled_is_on_record(
    record: Set<TxnKeyView>,
    key: TxnKeyView,
    other: TxnKeyView,
    outcomes: Seq<PduOutcome>,
)
    ensures
        ({
            let after = recorded(record, key, send::after_pdus(key.origin, outcomes));
            &&& other != key ==> (after.contains(other) <==> record.contains(other))
            &&& after.contains(key) <==> record.contains(key) || forall|i: int|
                0 <= i < outcomes.len() ==> !#[trigger] send::is_lost(outcomes, i)
        }),
{
    send::law_nothing_is_lost(key.origin, outcomes);
}

/// What is on record once transactions were handled in their order.
pub open spec fn recorded_all(
    record: Set<TxnKeyView>,
    handled: Seq<(TxnKeyView, ProgressView)>,
) -> Set<TxnKeyView>
    decreases handled.len(),
{
    if handled.len() == 0 {
        record
    } else {
        let (key, progress) = handled.last();
        recorded(recorded_all(record, handled.drop_last()), key, progress)
    }
}

proof fn lemma_stays_on_record(
    record: Set<TxnKeyView>,
    handled: Seq<(TxnKeyView, ProgressView)>,
    key: TxnKeyView,
)
    requires
        record.contains(key),
    ensures
        recorded_all(record, handled).contains(key),
    decreases handled.len(),
{
    if handled.len() > 0 {
        lemma_stays_on_record(record, handled.drop_last(), key);
    }
}

/// What is done for a transaction is what it carries.
pub proof fn law_work_is_what_was_sent(work: Work, txn: Transaction)
    ensures
        work.is_of(txn) <==> work.edus == txn.edus && work.pdus == txn.pdus && work.advertised
            == txn.forward_extremities,
{
}

} // verus!
