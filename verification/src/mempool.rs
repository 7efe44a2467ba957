//! The transaction memory pool.
//!
//! The pool holds unconfirmed transactions keyed by kernel excess signature,
//! admits candidates against a chain view, records zero-confirmation
//! dependency chains, and migrates entries between the unconfirmed and reorg
//! sub-pools as blocks are published and reorganised. Every operation's
//! effect is stated against a recursive mathematical model of the pool.

use vstd::prelude::*;
use crate::chain::{Block, ChainState};
use crate::pool::{
    dep_sigs, find_sig_in_reorg, find_sig_in_unconfirmed, models_of, reorg_has_sig,
    reorg_models_of, total_weight, unconf_has_sig, Entry, EntryModel, ReorgEntry,
    ReorgEntryModel,
};
use crate::sweep::{evict_for_insert, spec_evict_insert};
use crate::tx::{Transaction, TxModel};
use crate::validate::{check_transaction, spec_validate};

verus! {

/// Where a transaction ended up, or why it was not stored.
#[derive(Debug, Clone, Copy, PartialEq, Eq, Structural)]
pub enum TxStorageResponse {
    /// Stored in the unconfirmed pool.
    UnconfirmedPool,
    /// Held in the reorg pool: recently confirmed on the best chain.
    ReorgPool,
    /// Rejected: malformed weight, over the single-block weight limit, or
    /// evicted at admission for want of pool capacity.
    NotStored,
    /// Rejected: an input is known neither to the chain nor to the pool.
    NotStoredOrphan,
    /// Rejected: the kernel lock-height or an input's maturity exceeds what
    /// the next block allows.
    NotStoredTimeLocked,
    /// Rejected: an input was already spent on the best chain.
    NotStoredAlreadySpent,
    /// Reserved for consensus-rule rejections; the admission pipeline here
    /// never produces it.
    NotStoredConsensus,
}

/// Failures of the pool operations themselves.
#[derive(Debug, Clone, Copy, PartialEq, Eq, Structural)]
pub enum MempoolError {
    /// A block event arrived out of height order, or the chain view handed
    /// in does not match the blocks being applied.
    StateError,
}

/// Pool statistics.
#[derive(Debug, Clone, Copy, PartialEq, Eq, Structural)]
pub struct StatsResponse {
    /// Transactions available for block building: the unconfirmed count.
    pub total_txs: u64,
    /// Entries in the unconfirmed pool.
    pub unconfirmed_txs: u64,
    /// Entries in the reorg pool.
    pub reorg_txs: u64,
    /// Total weight of the unconfirmed pool.
    pub total_weight: u64,
}

/// Pool configuration.
#[derive(Debug, Clone, Copy, PartialEq, Eq, Structural)]
pub struct MempoolConfig {
    /// Largest weight a single transaction may have and still fit a block.
    pub max_block_transaction_weight: u64,
    /// Weight cap of the unconfirmed pool; overflow evicts the
    /// lowest-priority entries without dependants.
    pub unconfirmed_weight_cap: u64,
    /// Reorg entries whose confirming block lies deeper than this below the
    /// tip are dropped.
    pub reorg_expiry_depth: u64,
}

impl Default for MempoolConfig {
    /// The stock configuration: a generous single-block weight limit, a
    /// large unconfirmed cap, and a reorg horizon deep enough for any
    /// plausible rewind.
    fn default() -> (r: MempoolConfig)
        ensures
            r.max_block_transaction_weight == 19500,
            r.unconfirmed_weight_cap == 25600000,
            r.reorg_expiry_depth == 512,
    {
        MempoolConfig {
            max_block_transaction_weight: 19500,
            unconfirmed_weight_cap: 25600000,
            reorg_expiry_depth: 512,
        }
    }
}

/// The mathematical value of the whole pool.
pub ghost struct PoolModel {
    /// Unconfirmed entries, in insertion order.
    pub unconfirmed: Seq<EntryModel>,
    /// Reorg entries, in the order their blocks were processed.
    pub reorg: Seq<ReorgEntryModel>,
    /// The last block height the pool processed.
    pub tip: u64,
}

/// Where a signature is held, looked up in the model: the unconfirmed pool
/// first, then the reorg pool.
pub open spec fn spec_has_tx(pm: PoolModel, sig: u64) -> TxStorageResponse {
    if unconf_has_sig(pm.unconfirmed, sig) {
        TxStorageResponse::UnconfirmedPool
    } else if reorg_has_sig(pm.reorg, sig) {
        TxStorageResponse::ReorgPool
    } else {
        TxStorageResponse::NotStored
    }
}

/// The pool and response after inserting a transaction: a key already held
/// reports its location unchanged; a validation failure leaves the pool
/// unchanged; otherwise the entry is appended with its dependency list and
/// the pool evicted back under its weight cap.
pub open spec fn spec_insert(pm: PoolModel, cfg: MempoolConfig, chain: ChainState, tx: TxModel) -> (
    PoolModel,
    TxStorageResponse,
) {
    if unconf_has_sig(pm.unconfirmed, tx.sig()) {
        (pm, TxStorageResponse::UnconfirmedPool)
    } else if reorg_has_sig(pm.reorg, tx.sig()) {
        (pm, TxStorageResponse::ReorgPool)
    } else {
        match spec_validate(cfg, chain, pm.unconfirmed, tx) {
            Some(resp) => (pm, resp),
            None => {
                let e = EntryModel {
                    tx,
                    fee_per_gram: tx.fee_per_gram_spec(),
                    dependencies: dep_sigs(pm.unconfirmed, tx),
                };
                let evicted = spec_evict_insert(
                    pm.unconfirmed.push(e),
                    cfg.unconfirmed_weight_cap,
                    tx.sig(),
                );
                if evicted.1 {
                    (
                        PoolModel { unconfirmed: evicted.0, reorg: pm.reorg, tip: pm.tip },
                        TxStorageResponse::UnconfirmedPool,
                    )
                } else {
                    (
                        PoolModel { unconfirmed: evicted.0, reorg: pm.reorg, tip: pm.tip },
                        TxStorageResponse::NotStored,
                    )
                }
            },
        }
    }
}

/// Whether a published block sits exactly one above the height the pool
/// last saw, with the chain view already including it.
pub open spec fn publish_heights_ok(tip: u64, block: Block, chain: ChainState) -> bool {
    &&& tip < u64::MAX
    &&& block.height == tip + 1
    &&& chain.tip_height == block.height
}

/// Whether a reorganisation's removed blocks step down contiguously from
/// the height the pool last saw, its added blocks step up contiguously from
/// the fork point, and the chain view ends at the resulting tip.
pub open spec fn reorg_heights_ok(
    tip: u64,
    removed: Seq<Block>,
    added: Seq<Block>,
    chain: ChainState,
) -> bool {
    &&& removed.len() <= tip
    &&& (forall|i: int| 0 <= i < removed.len() ==> removed[i].height == tip - i)
    &&& added.len() <= u64::MAX - (tip - removed.len())
    &&& (forall|j: int|
        0 <= j < added.len() ==> added[j].height == tip - removed.len() + 1 + j)
    &&& chain.tip_height == tip - removed.len() + added.len()
}

/// The pool after a newly published block: entries the block confirms move
/// to the reorg pool tagged with its height, old reorg entries expire, and
/// the unconfirmed pool is swept against the new chain view.
pub open spec fn spec_process_published_block(
    pm: PoolModel,
    cfg: MempoolConfig,
    chain: ChainState,
    block: Block,
) -> PoolModel {
    let published = crate::reorg::spec_publish_block(pm.unconfirmed, pm.reorg, block);
    PoolModel {
        unconfirmed: crate::sweep::spec_sweep(chain, published.0),
        reorg: crate::reorg::spec_expire(published.1, cfg.reorg_expiry_depth, block.height),
        tip: block.height,
    }
}

/// The pool after a reorganisation: transactions of removed blocks return
/// from the reorg pool (oldest block first, block order within each),
/// added blocks are published in order, old reorg entries expire against
/// the new tip, and the unconfirmed pool is swept and evicted back under
/// the weight cap.
pub open spec fn spec_process_reorg(
    pm: PoolModel,
    cfg: MempoolConfig,
    chain: ChainState,
    removed: Seq<Block>,
    added: Seq<Block>,
) -> PoolModel {
    let returned = crate::reorg::spec_return_blocks(
        pm.unconfirmed,
        pm.reorg,
        removed,
        removed.len() as int,
    );
    let published = crate::reorg::spec_publish_blocks(
        returned.0,
        returned.1,
        added,
        added.len() as int,
    );
    PoolModel {
        unconfirmed: crate::sweep::spec_evict_all(
            crate::sweep::spec_sweep(chain, published.0),
            cfg.unconfirmed_weight_cap,
        ),
        reorg: crate::reorg::spec_expire(published.1, cfg.reorg_expiry_depth, chain.tip_height),
        tip: chain.tip_height,
    }
}

/// The transaction memory pool: unconfirmed entries, reorg entries, the
/// configuration, and the last processed block height.
#[derive(Debug)]
pub struct Mempool {
    entries: Vec<Entry>,
    reorg: Vec<ReorgEntry>,
    config: MempoolConfig,
    tip_height: u64,
}

impl Mempool {
    /// The mathematical value of the pool.
    pub closed spec fn model(&self) -> PoolModel {
        PoolModel {
            unconfirmed: models_of(self.entries@),
            reorg: reorg_models_of(self.reorg@),
            tip: self.tip_height,
        }
    }

    /// The configuration the pool was built with.
    pub closed spec fn config_spec(&self) -> MempoolConfig {
        self.config
    }

    /// Creates an empty pool with the given configuration, at height zero.
    pub fn new(config: MempoolConfig) -> (r: Mempool)
        ensures
            r.model().unconfirmed =~= Seq::<EntryModel>::empty(),
            r.model().reorg =~= Seq::<ReorgEntryModel>::empty(),
            r.model().tip == 0,
            r.config_spec() == config,
    {
        Mempool { entries: Vec::new(), reorg: Vec::new(), config, tip_height: 0 }
    }

    /// Returns the configuration.
    pub fn config(&self) -> (r: MempoolConfig)
        ensures
            r == self.config_spec(),
    {
        self.config
    }

    /// Inserts a transaction, validating it against the chain view handed
    /// in. The result reports where the transaction ended up or why it was
    /// rejected; the pool changes exactly as the insertion model says.
    pub fn insert(&mut self, chain: &ChainState, tx: &Transaction) -> (r: Result<
        TxStorageResponse,
        MempoolError,
    >)
        ensures
            ({
                let outcome = spec_insert(
                    old(self).model(),
                    old(self).config_spec(),
                    *chain,
                    tx@,
                );
                r == Ok::<TxStorageResponse, MempoolError>(outcome.1) && final(self).model()
                    == outcome.0
            }),
            final(self).config_spec() == old(self).config_spec(),
    {
        let ghost pm = self.model();
        let sig = tx.kernel.excess_sig;
        match find_sig_in_unconfirmed(&self.entries, sig) {
            Some(i) => {
                proof {
                    assert(models_of(self.entries@)[i as int] == self.entries@[i as int]@);
                    assert(unconf_has_sig(pm.unconfirmed, tx@.sig()));
                }
                return Ok(TxStorageResponse::UnconfirmedPool);
            },
            None => {},
        }
        match find_sig_in_reorg(&self.reorg, sig) {
            Some(i) => {
                proof {
                    assert(reorg_models_of(self.reorg@)[i as int] == self.reorg@[i as int]@);
                    assert(reorg_has_sig(pm.reorg, tx@.sig()));
                }
                return Ok(TxStorageResponse::ReorgPool);
            },
            None => {},
        }
        match check_transaction(&self.config, chain, &self.entries, tx) {
            Some(resp) => {
                return Ok(resp);
            },
            None => {},
        }
        let deps = crate::pool::compute_dep_sigs(&self.entries, tx);
        let fee_per_gram = tx.fee_per_gram();
        let entry = Entry { tx: tx.duplicate(), fee_per_gram, dependencies: deps };
        let ghost before_push = models_of(self.entries@);
        self.entries.push(entry);
        proof {
            assert(models_of(self.entries@) =~= before_push.push(
                EntryModel {
                    tx: tx@,
                    fee_per_gram: tx@.fee_per_gram_spec(),
                    dependencies: dep_sigs(before_push, tx@),
                },
            ));
        }
        let kept = evict_for_insert(&mut self.entries, self.config.unconfirmed_weight_cap, sig);
        if kept {
            Ok(TxStorageResponse::UnconfirmedPool)
        } else {
            Ok(TxStorageResponse::NotStored)
        }
    }

    /// Processes a block newly published on top of the chain the pool last
    /// saw. The chain view must already include the block. Entries the block
    /// confirms move to the reorg pool; entries the block double-spends or
    /// orphans are swept out; old reorg entries expire.
    pub fn process_published_block(&mut self, chain: &ChainState, block: &Block) -> (r: Result<
        (),
        MempoolError,
    >)
        ensures
            final(self).config_spec() == old(self).config_spec(),
            publish_heights_ok(old(self).model().tip, *block, *chain) ==> r == Ok::<
                (),
                MempoolError,
            >(()) && final(self).model() == spec_process_published_block(
                old(self).model(),
                old(self).config_spec(),
                *chain,
                *block,
            ),
            !publish_heights_ok(old(self).model().tip, *block, *chain) ==> r == Err::<
                (),
                MempoolError,
            >(MempoolError::StateError) && final(self).model() == old(self).model(),
    {
        if !(self.tip_height < u64::MAX && block.height == self.tip_height + 1
            && chain.tip_height == block.height) {
            return Err(MempoolError::StateError);
        }
        crate::reorg::publish_block(&mut self.entries, &mut self.reorg, block);
        crate::reorg::expire_reorg(&mut self.reorg, self.config.reorg_expiry_depth, block.height);
        crate::sweep::sweep_pool(chain, &mut self.entries);
        self.tip_height = block.height;
        Ok(())
    }

    /// Processes a reorganisation: `removed` lists the rolled-back blocks
    /// newest first, `added` the new blocks in height order, and the chain
    /// view must already reflect the outcome. Transactions of removed blocks
    /// still held in the reorg pool return to the unconfirmed pool; added
    /// blocks are published; the whole unconfirmed pool is then re-validated
    /// against the new tip and evicted back under the weight cap.
    pub fn process_reorg(&mut self, chain: &ChainState, removed: &Vec<Block>, added: &Vec<Block>)
        -> (r: Result<(), MempoolError>)
        ensures
            final(self).config_spec() == old(self).config_spec(),
            reorg_heights_ok(old(self).model().tip, removed@, added@, *chain) ==> r == Ok::<
                (),
                MempoolError,
            >(()) && final(self).model() == spec_process_reorg(
                old(self).model(),
                old(self).config_spec(),
                *chain,
                removed@,
                added@,
            ),
            !reorg_heights_ok(old(self).model().tip, removed@, added@, *chain) ==> r == Err::<
                (),
                MempoolError,
            >(MempoolError::StateError) && final(self).model() == old(self).model(),
    {
        if !self.check_reorg_heights(chain, removed, added) {
            return Err(MempoolError::StateError);
        }
        let ghost un0 = models_of(self.entries@);
        let ghost rg0 = reorg_models_of(self.reorg@);
        let mut bi: usize = 0;
        while bi < removed.len()
            invariant
                0 <= bi <= removed@.len(),
                ({
                    let r = crate::reorg::spec_return_blocks(un0, rg0, removed@, bi as int);
                    models_of(self.entries@) == r.0 && reorg_models_of(self.reorg@) == r.1
                }),
                self.config == old(self).config,
                self.tip_height == old(self).tip_height,
            decreases removed@.len() - bi,
        {
            let b = &removed[removed.len() - 1 - bi];
            proof {
                assert(removed@[removed@.len() - 1 - bi as int] == *b);
            }
            crate::reorg::return_block_txs(&mut self.entries, &mut self.reorg, b);
            bi += 1;
        }
        let ghost after_return = crate::reorg::spec_return_blocks(
            un0,
            rg0,
            removed@,
            removed@.len() as int,
        );
        let mut aj: usize = 0;
        while aj < added.len()
            invariant
                0 <= aj <= added@.len(),
                ({
                    let r = crate::reorg::spec_publish_blocks(
                        after_return.0,
                        after_return.1,
                        added@,
                        aj as int,
                    );
                    models_of(self.entries@) == r.0 && reorg_models_of(self.reorg@) == r.1
                }),
                self.config == old(self).config,
                self.tip_height == old(self).tip_height,
            decreases added@.len() - aj,
        {
            let b = &added[aj];
            proof {
                assert(added@[aj as int] == *b);
            }
            crate::reorg::publish_block(&mut self.entries, &mut self.reorg, b);
            aj += 1;
        }
        crate::reorg::expire_reorg(
            &mut self.reorg,
            self.config.reorg_expiry_depth,
            chain.tip_height,
        );
        crate::sweep::sweep_pool(chain, &mut self.entries);
        crate::sweep::evict_to_cap(&mut self.entries, self.config.unconfirmed_weight_cap);
        self.tip_height = chain.tip_height;
        Ok(())
    }

    /// Checks that the removed and added block lists are contiguous with the
    /// height the pool last saw and with the chain view handed in.
    fn check_reorg_heights(&self, chain: &ChainState, removed: &Vec<Block>, added: &Vec<Block>)
        -> (r: bool)
        ensures
            r == reorg_heights_ok(self.model().tip, removed@, added@, *chain),
    {
        let tip = self.tip_height;
        if (removed.len() as u64) > tip {
            return false;
        }
        let fork = tip - removed.len() as u64;
        let mut i: usize = 0;
        while i < removed.len()
            invariant
                0 <= i <= removed@.len(),
                removed@.len() <= tip,
                tip == self.model().tip,
                forall|a: int| 0 <= a < i ==> removed@[a].height == tip - a,
            decreases removed@.len() - i,
        {
            if removed[i].height != tip - i as u64 {
                return false;
            }
            i += 1;
        }
        if added.len() as u64 > u64::MAX - fork {
            return false;
        }
        let mut j: usize = 0;
        while j < added.len()
            invariant
                0 <= j <= added@.len(),
                fork == self.model().tip - removed@.len(),
                added@.len() <= u64::MAX - fork,
                forall|a: int| 0 <= a < j ==> added@[a].height == fork + 1 + a,
            decreases added@.len() - j,
        {
            if added[j].height != fork + 1 + j as u64 {
                return false;
            }
            j += 1;
        }
        chain.tip_height == fork + added.len() as u64
    }

    /// Retrieves transactions to fill a block of at most the given total
    /// weight: candidates in descending fee-per-gram priority, insertion
    /// order breaking ties, each taken together with its in-pool ancestors
    /// or skipped whole when the chain does not fit.
    pub fn retrieve(&self, total_weight: u64) -> (r: Vec<Transaction>)
        ensures
            r@.map_values(|t: Transaction| t@) =~= crate::retrieve::spec_retrieve(
                self.model().unconfirmed,
                total_weight,
            ).map_values(|i: int| self.model().unconfirmed[i].tx),
    {
        crate::retrieve::retrieve_transactions(&self.entries, total_weight)
    }

    /// Reports where the transaction with this excess signature is held.
    pub fn has_tx_with_excess_sig(&self, excess_sig: u64) -> (r: TxStorageResponse)
        ensures
            r == spec_has_tx(self.model(), excess_sig),
    {
        match find_sig_in_unconfirmed(&self.entries, excess_sig) {
            Some(i) => {
                proof {
                    assert(models_of(self.entries@)[i as int] == self.entries@[i as int]@);
                }
                TxStorageResponse::UnconfirmedPool
            },
            None => {
                match find_sig_in_reorg(&self.reorg, excess_sig) {
                    Some(i) => {
                        proof {
                            assert(reorg_models_of(self.reorg@)[i as int] == self.reorg@[
                            i as int]@);
                        }
                        TxStorageResponse::ReorgPool
                    },
                    None => TxStorageResponse::NotStored,
                }
            },
        }
    }

    /// Returns a copy of every unconfirmed transaction, in insertion order.
    pub fn snapshot(&self) -> (r: Vec<Transaction>)
        ensures
            r@.map_values(|t: Transaction| t@) =~= self.model().unconfirmed.map_values(
                |e: EntryModel| e.tx,
            ),
    {
        let ghost s = models_of(self.entries@);
        let mut out: Vec<Transaction> = Vec::new();
        let mut i: usize = 0;
        while i < self.entries.len()
            invariant
                0 <= i <= self.entries@.len(),
                s == models_of(self.entries@),
                out@.map_values(|t: Transaction| t@) =~= s.take(i as int).map_values(
                    |e: EntryModel| e.tx,
                ),
            decreases self.entries@.len() - i,
        {
            let ghost prev_out = out@;
            let dup = self.entries[i].tx.duplicate();
            out.push(dup);
            proof {
                assert(s[i as int] == self.entries@[i as int]@);
                assert(dup@ == s[i as int].tx);
                assert(out@ == prev_out.push(dup));
                let f = |t: Transaction| t@;
                let g = |e: EntryModel| e.tx;
                assert(prev_out.len() == i as int) by {
                    assert(prev_out.map_values(f).len() == prev_out.len());
                    assert(s.take(i as int).map_values(g).len() == i as int);
                }
                assert forall|a: int| 0 <= a < i + 1 implies out@.map_values(f)[a] == s.take(
                    i + 1,
                ).map_values(g)[a] by {
                    if a < i {
                        assert(prev_out.map_values(f)[a] == s.take(i as int).map_values(g)[a]);
                        assert(out@[a] == prev_out[a]);
                    } else {
                        assert(out@[a] == dup);
                    }
                }
                assert(out@.map_values(f) =~= s.take(i + 1).map_values(g));
            }
            i += 1;
        }
        assert(s.take(s.len() as int) =~= s);
        out
    }

    /// Returns the pool statistics: counts of both sub-pools and the total
    /// unconfirmed weight. The available-transaction count equals the
    /// unconfirmed count: reorg entries are not offered for block building.
    pub fn stats(&self) -> (r: StatsResponse)
        ensures
            r.unconfirmed_txs == self.model().unconfirmed.len(),
            r.reorg_txs == self.model().reorg.len(),
            r.total_txs == self.model().unconfirmed.len(),
            r.total_weight as int == (if total_weight(self.model().unconfirmed) > u64::MAX as int {
                u64::MAX as int
            } else {
                total_weight(self.model().unconfirmed)
            }),
    {
        let unconfirmed_txs = self.entries.len() as u64;
        let reorg_txs = self.reorg.len() as u64;
        let ghost s = models_of(self.entries@);
        let weight_wide = crate::pool::sum_weights(&self.entries);
        proof {
            crate::pool::lemma_total_weight_bound(s);
        }
        let total_w: u64 = if weight_wide > u64::MAX as u128 {
            u64::MAX
        } else {
            weight_wide as u64
        };
        StatsResponse {
            total_txs: unconfirmed_txs,
            unconfirmed_txs,
            reorg_txs,
            total_weight: total_w,
        }
    }
}

} // verus!
