//! The dispatch pipeline's decisions: what to do with a record after one
//! broadcast attempt, and how that decision is applied to the store. The
//! surrounding loop — polling, backoff, the broadcast itself — is plain I/O
//! and lives outside the library; every decision it applies is made here.

use vstd::prelude::*;

use crate::storage::clone_tx;
use crate::storage::spec_contains_id;
use crate::storage::spec_update;
use crate::storage::wf;
use crate::storage::Transaction;
use crate::storage::TransactionStatus;
use crate::storage::TransactionStore;
use crate::storage::StoreError;
use crate::storage::TxView;

verus! {

/// Classification of a broadcast failure reported by the peer manager.
#[derive(Clone, Copy, Debug, PartialEq, Eq, Structural)]
pub enum PropagationError {
    /// Recoverable: the record stays as it is and is retried on a later
    /// pass, up to the configured budget.
    Transient,
    /// Unrecoverable: the record moves to `Failed` and is never retried.
    Permanent,
}

/// What the pipeline decides to do with a record after one broadcast
/// attempt.
#[derive(Clone, Copy, Debug, PartialEq, Eq, Structural)]
pub enum Resolution {
    /// The broadcast succeeded: drive the record to `Propagated`.
    Deliver,
    /// A transient failure within budget: leave the record untouched and
    /// carry the new failure count.
    Retry { attempts: u64 },
    /// A permanent failure, or a transient one that exhausted the budget:
    /// drive the record to `Failed`.
    Abandon,
}

/// The lifecycle edges a record may move along: Pending → Validated →
/// Propagated, with Failed reachable from either non-terminal stage.
pub open spec fn valid_transition(from: TransactionStatus, to: TransactionStatus) -> bool {
    ||| (from == TransactionStatus::Pending && to == TransactionStatus::Validated)
    ||| (from == TransactionStatus::Validated && to == TransactionStatus::Propagated)
    ||| ((from == TransactionStatus::Pending || from == TransactionStatus::Validated) && to
        == TransactionStatus::Failed)
}

/// The decision after one broadcast outcome: success delivers, a permanent
/// error abandons, and a transient error retries until the count of
/// transient failures reaches the budget.
pub open spec fn spec_resolve(
    outcome: Result<(), PropagationError>,
    attempts: u64,
    budget: u64,
) -> Resolution {
    match outcome {
        Ok(_) => Resolution::Deliver,
        Err(PropagationError::Permanent) => Resolution::Abandon,
        Err(PropagationError::Transient) => if attempts + 1 < budget {
            Resolution::Retry { attempts: (attempts + 1) as u64 }
        } else {
            Resolution::Abandon
        },
    }
}

/// Decides the fate of a record after one broadcast attempt; `attempts` is
/// the number of transient failures already recorded for it.
pub fn resolve(outcome: &Result<(), PropagationError>, attempts: u64, budget: u64) -> (r:
    Resolution)
    ensures
        r == spec_resolve(*outcome, attempts, budget),
{
    match outcome {
        Ok(_) => Resolution::Deliver,
        Err(PropagationError::Permanent) => Resolution::Abandon,
        Err(PropagationError::Transient) => {
            if budget > attempts {
                let next = attempts + 1;
                if next < budget {
                    Resolution::Retry { attempts: next }
                } else {
                    Resolution::Abandon
                }
            } else {
                Resolution::Abandon
            }
        },
    }
}

/// A record with its status replaced.
pub open spec fn with_status(t: TxView, status: TransactionStatus) -> TxView {
    TxView { status, ..t }
}

fn tx_with_status(t: &Transaction, status: TransactionStatus) -> (r: Transaction)
    ensures
        r@ == with_status(t@, status),
{
    let mut c = clone_tx(t);
    c.status = status;
    c
}

/// Applies one dispatch decision to the store. Delivery drives the record
/// along the edges Pending → Validated → Propagated with two updates; a
/// retry leaves the store untouched; abandonment drives the record to
/// `Failed`. The record must exist, so the operation always succeeds.
pub fn apply_resolution(
    store: &mut TransactionStore,
    tx: &Transaction,
    res: &Resolution,
    now: i64,
) -> (r: Result<(), StoreError>)
    requires
        wf(old(store)@),
        spec_contains_id(old(store)@, tx@.id),
    ensures
        wf(final(store)@),
        r is Ok,
        match *res {
            Resolution::Deliver => ({
                let s1 = spec_update(
                    old(store)@,
                    with_status(tx@, TransactionStatus::Validated),
                    now as int,
                );
                &&& s1 is Ok
                &&& Ok::<Seq<TxView>, StoreError>(final(store)@) == spec_update(
                    s1->Ok_0,
                    with_status(tx@, TransactionStatus::Propagated),
                    now as int,
                )
            }),
            Resolution::Retry { .. } => final(store)@ == old(store)@,
            Resolution::Abandon => Ok::<Seq<TxView>, StoreError>(final(store)@) == spec_update(
                old(store)@,
                with_status(tx@, TransactionStatus::Failed),
                now as int,
            ),
        },
{
    match res {
        Resolution::Deliver => {
            let validated = tx_with_status(tx, TransactionStatus::Validated);
            match store.update(&validated, now) {
                Ok(_) => {},
                Err(_) => {
                    proof {
                        assert(false);
                    }
                },
            }
            proof {
                crate::storage::lemma_update_preserves_wf(
                    old(store)@,
                    with_status(tx@, TransactionStatus::Validated),
                    now as int,
                );
                let i = choose|i: int|
                    0 <= i < old(store)@.len() && old(store)@[i].id == tx@.id;
                assert(store@[i].id == tx@.id);
                assert(spec_contains_id(store@, tx@.id));
            }
            let propagated = tx_with_status(tx, TransactionStatus::Propagated);
            match store.update(&propagated, now) {
                Ok(_) => {},
                Err(_) => {
                    proof {
                        assert(false);
                    }
                },
            }
            Ok(())
        },
        Resolution::Retry { .. } => Ok(()),
        Resolution::Abandon => {
            let failed = tx_with_status(tx, TransactionStatus::Failed);
            match store.update(&failed, now) {
                Ok(_) => {},
                Err(_) => {
                    proof {
                        assert(false);
                    }
                },
            }
            Ok(())
        },
    }
}

/// Status monotonicity of the dispatch decisions: every status write a
/// decision causes moves along the lifecycle edges, starting from the
/// Pending record the poll selected.
pub proof fn lemma_resolution_follows_edges(
    outcome: Result<(), PropagationError>,
    attempts: u64,
    budget: u64,
)
    ensures
        match spec_resolve(outcome, attempts, budget) {
            Resolution::Deliver => valid_transition(
                TransactionStatus::Pending,
                TransactionStatus::Validated,
            ) && valid_transition(TransactionStatus::Validated, TransactionStatus::Propagated),
            Resolution::Retry { .. } => true,
            Resolution::Abandon => valid_transition(
                TransactionStatus::Pending,
                TransactionStatus::Failed,
            ),
        },
{
}

} // verus!
