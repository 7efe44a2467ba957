//! Admission validation for new transactions.
//!
//! A candidate passes a stateless weight check, then a stateful check of
//! each input against the chain view and the unconfirmed pool, and finally
//! the kernel lock-height check. The first failing input, in input order,
//! decides the storage response.

use vstd::prelude::*;
use crate::chain::ChainState;
use crate::mempool::{MempoolConfig, TxStorageResponse};
use crate::pool::{
    models_of, pool_has_mature_output, pool_has_output, Entry, EntryModel,
};
use crate::tx::{Transaction, TxModel};

verus! {

/// The verdict on a single input commitment.
#[derive(Debug, Clone, Copy, PartialEq, Eq, Structural)]
pub enum InputStatus {
    /// Spendable: a mature unspent chain output, or a mature output of an
    /// unconfirmed entry.
    Good,
    /// Present on the chain or in the pool, but not yet mature.
    Immature,
    /// Already spent on the best chain.
    Spent,
    /// Unknown to both the chain and the pool.
    Orphan,
}

/// The verdict on one input: mature chain outputs win, then immature chain
/// outputs, then pool outputs, then the spent set; an unknown commitment is
/// an orphan reference.
pub open spec fn input_status(chain: ChainState, s: Seq<EntryModel>, c: u64) -> InputStatus {
    if chain.has_mature_utxo(c) {
        InputStatus::Good
    } else if chain.has_utxo(c) {
        InputStatus::Immature
    } else if pool_has_mature_output(s, c, chain.tip_height) {
        InputStatus::Good
    } else if pool_has_output(s, c) {
        InputStatus::Immature
    } else if chain.is_spent(c) {
        InputStatus::Spent
    } else {
        InputStatus::Orphan
    }
}

/// The verdict on a list of inputs: the status of the first input that is
/// not spendable, or `Good` when all are.
pub open spec fn inputs_verdict(chain: ChainState, s: Seq<EntryModel>, inputs: Seq<u64>) -> InputStatus
    decreases inputs.len(),
{
    if inputs.len() == 0 {
        InputStatus::Good
    } else if input_status(chain, s, inputs[0]) is Good {
        inputs_verdict(chain, s, inputs.subrange(1, inputs.len() as int))
    } else {
        input_status(chain, s, inputs[0])
    }
}

/// The whole admission check: `None` when the transaction may enter the
/// unconfirmed pool, otherwise the storage response that names the ground
/// of rejection.
pub open spec fn spec_validate(
    cfg: MempoolConfig,
    chain: ChainState,
    s: Seq<EntryModel>,
    tx: TxModel,
) -> Option<TxStorageResponse> {
    if tx.weight == 0 || tx.weight > cfg.max_block_transaction_weight {
        Some(TxStorageResponse::NotStored)
    } else {
        match inputs_verdict(chain, s, tx.inputs) {
            InputStatus::Good => if tx.kernel.lock_height > chain.tip_height + 1 {
                Some(TxStorageResponse::NotStoredTimeLocked)
            } else {
                None
            },
            InputStatus::Immature => Some(TxStorageResponse::NotStoredTimeLocked),
            InputStatus::Spent => Some(TxStorageResponse::NotStoredAlreadySpent),
            InputStatus::Orphan => Some(TxStorageResponse::NotStoredOrphan),
        }
    }
}

/// Computes the verdict on a single input commitment.
pub fn check_input_status(chain: &ChainState, entries: &Vec<Entry>, c: u64) -> (r: InputStatus)
    ensures
        r == input_status(*chain, models_of(entries@), c),
{
    if chain.find_mature_utxo(c) {
        InputStatus::Good
    } else if chain.find_utxo(c) {
        InputStatus::Immature
    } else if crate::pool::pool_output_mature(entries, c, chain.tip_height) {
        InputStatus::Good
    } else if crate::pool::pool_output_any(entries, c) {
        InputStatus::Immature
    } else if chain.find_spent(c) {
        InputStatus::Spent
    } else {
        InputStatus::Orphan
    }
}

/// Runs the admission pipeline on a candidate transaction.
#[verifier::loop_isolation(false)]
pub fn check_transaction(
    cfg: &MempoolConfig,
    chain: &ChainState,
    entries: &Vec<Entry>,
    tx: &Transaction,
) -> (r: Option<TxStorageResponse>)
    ensures
        r == spec_validate(*cfg, *chain, models_of(entries@), tx@),
{
    if tx.weight == 0 || tx.weight > cfg.max_block_transaction_weight {
        return Some(TxStorageResponse::NotStored);
    }
    let ghost s = models_of(entries@);
    proof {
        assert(tx.inputs@.subrange(0, tx.inputs@.len() as int) =~= tx.inputs@);
    }
    let mut j: usize = 0;
    let mut verdict: InputStatus = InputStatus::Good;
    while j < tx.inputs.len()
        invariant
            0 <= j <= tx.inputs@.len(),
            s == models_of(entries@),
            verdict is Good,
            inputs_verdict(*chain, s, tx.inputs@) == inputs_verdict(
                *chain,
                s,
                tx.inputs@.subrange(j as int, tx.inputs@.len() as int),
            ),
        decreases tx.inputs@.len() - j,
    {
        let st = check_input_status(chain, entries, tx.inputs[j]);
        proof {
            let rest = tx.inputs@.subrange(j as int, tx.inputs@.len() as int);
            assert(rest[0] == tx.inputs@[j as int]);
            assert(rest.subrange(1, rest.len() as int) =~= tx.inputs@.subrange(
                j + 1,
                tx.inputs@.len() as int,
            ));
        }
        match st {
            InputStatus::Good => {},
            _ => {
                proof {
                    let rest = tx.inputs@.subrange(j as int, tx.inputs@.len() as int);
                    assert(rest.len() > 0);
                    assert(inputs_verdict(*chain, s, rest) == st);
                }
                verdict = st;
                return match verdict {
                    InputStatus::Immature => Some(TxStorageResponse::NotStoredTimeLocked),
                    InputStatus::Spent => Some(TxStorageResponse::NotStoredAlreadySpent),
                    _ => Some(TxStorageResponse::NotStoredOrphan),
                };
            },
        }
        j += 1;
    }
    proof {
        assert(tx.inputs@.subrange(tx.inputs@.len() as int, tx.inputs@.len() as int)
            =~= Seq::<u64>::empty());
    }
    if tx.kernel.lock_height > chain.tip_height {
        if tx.kernel.lock_height - chain.tip_height > 1 {
            return Some(TxStorageResponse::NotStoredTimeLocked);
        }
    }
    None
}

} // verus!
