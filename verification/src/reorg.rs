//! Block-event handling for the pool: publishing confirmed transactions,
//! expiring old reorg entries, and returning transactions of rolled-back
//! blocks to the unconfirmed pool.

use vstd::prelude::*;
use crate::chain::Block;
use crate::pool::{
    dep_sigs, find_sig_in_reorg, models_of, reorg_models_of, Entry, EntryModel, ReorgEntry,
    ReorgEntryModel,
};
use crate::tx::Transaction;

verus! {

/// The two sub-pools after one block is published: unconfirmed entries whose
/// signature the block confirms move to the reorg pool, tagged with the
/// block's height; all others stay, in order.
pub open spec fn spec_publish_block(
    un: Seq<EntryModel>,
    rg: Seq<ReorgEntryModel>,
    block: Block,
) -> (Seq<EntryModel>, Seq<ReorgEntryModel>) {
    (
        un.filter(|e: EntryModel| !block.confirms_sig(e.tx.sig())),
        rg + un.filter(|e: EntryModel| block.confirms_sig(e.tx.sig())).map_values(
            |e: EntryModel| ReorgEntryModel { tx: e.tx, confirmed_height: block.height },
        ),
    )
}

/// The sub-pools after the first `n` added blocks are published, in order.
pub open spec fn spec_publish_blocks(
    un: Seq<EntryModel>,
    rg: Seq<ReorgEntryModel>,
    added: Seq<Block>,
    n: int,
) -> (Seq<EntryModel>, Seq<ReorgEntryModel>)
    decreases n,
{
    if n <= 0 {
        (un, rg)
    } else {
        let prev = spec_publish_blocks(un, rg, added, n - 1);
        spec_publish_block(prev.0, prev.1, added[n - 1])
    }
}

/// The reorg pool with entries confirmed deeper than `depth` below the tip
/// dropped.
pub open spec fn spec_expire(rg: Seq<ReorgEntryModel>, depth: u64, tip: u64) -> Seq<
    ReorgEntryModel,
> {
    rg.filter(|re: ReorgEntryModel| re.confirmed_height + depth > tip)
}

/// The first index of the reorg pool holding this signature; the length when
/// none does.
pub open spec fn reorg_first_sig(rg: Seq<ReorgEntryModel>, sig: u64, i: int) -> int
    decreases rg.len() - i,
{
    if i < 0 || i >= rg.len() {
        rg.len() as int
    } else if rg[i].tx.sig() == sig {
        i
    } else {
        reorg_first_sig(rg, sig, i + 1)
    }
}

/// The sub-pools after the first `n` transactions of a rolled-back block are
/// offered back to the unconfirmed pool: each transaction still held in the
/// reorg pool leaves it and is appended as a fresh unconfirmed entry with a
/// recomputed dependency list.
pub open spec fn spec_return_txs(
    un: Seq<EntryModel>,
    rg: Seq<ReorgEntryModel>,
    txs: Seq<Transaction>,
    n: int,
) -> (Seq<EntryModel>, Seq<ReorgEntryModel>)
    decreases n,
{
    if n <= 0 {
        (un, rg)
    } else {
        let prev = spec_return_txs(un, rg, txs, n - 1);
        let t = txs[n - 1]@;
        let i = reorg_first_sig(prev.1, t.sig(), 0);
        if 0 <= i < prev.1.len() {
            (
                prev.0.push(
                    EntryModel {
                        tx: t,
                        fee_per_gram: t.fee_per_gram_spec(),
                        dependencies: dep_sigs(prev.0, t),
                    },
                ),
                prev.1.remove(i),
            )
        } else {
            prev
        }
    }
}

/// The sub-pools after the first `n` removed blocks, counted from the oldest
/// (the end of the newest-first list), have their transactions offered back.
pub open spec fn spec_return_blocks(
    un: Seq<EntryModel>,
    rg: Seq<ReorgEntryModel>,
    removed: Seq<Block>,
    n: int,
) -> (Seq<EntryModel>, Seq<ReorgEntryModel>)
    decreases n,
{
    if n <= 0 || n > removed.len() {
        (un, rg)
    } else {
        let prev = spec_return_blocks(un, rg, removed, n - 1);
        let b = removed[removed.len() - n];
        spec_return_txs(prev.0, prev.1, b.txs@, b.txs@.len() as int)
    }
}

/// Moves the entries a published block confirms from the unconfirmed pool to
/// the reorg pool, tagged with the block's height.
#[verifier::loop_isolation(false)]
pub fn publish_block(entries: &mut Vec<Entry>, reorg: &mut Vec<ReorgEntry>, block: &Block)
    ensures
        ({
            let r = spec_publish_block(
                models_of(old(entries)@),
                reorg_models_of(old(reorg)@),
                *block,
            );
            models_of(final(entries)@) == r.0 && reorg_models_of(final(reorg)@) == r.1
        }),
{
    let ghost s0 = models_of(entries@);
    let ghost rg0 = reorg_models_of(reorg@);
    let mut kept: Vec<Entry> = Vec::new();
    let mut i: usize = 0;
    while i < entries.len()
        invariant
            0 <= i <= entries@.len(),
            models_of(kept@) =~= s0.take(i as int).filter(
                |e: EntryModel| !block.confirms_sig(e.tx.sig()),
            ),
            reorg_models_of(reorg@) =~= rg0 + s0.take(i as int).filter(
                |e: EntryModel| block.confirms_sig(e.tx.sig()),
            ).map_values(
                |e: EntryModel| ReorgEntryModel { tx: e.tx, confirmed_height: block.height },
            ),
        decreases entries@.len() - i,
    {
        assert(s0[i as int] == entries@[i as int]@);
        let e = &entries[i];
        let ghost kept_prev = kept@;
        let ghost rg_prev = reorg@;
        proof {
            assert(s0.take(i + 1).drop_last() =~= s0.take(i as int));
            assert(s0.take(i + 1).last() == s0[i as int]);
            reveal(Seq::filter);
        }
        if block.contains_sig(e.tx.kernel.excess_sig) {
            reorg.push(
                ReorgEntry { tx: e.tx.duplicate(), confirmed_height: block.height },
            );
            proof {
                assert(reorg@ == rg_prev.push(reorg@.last()));
                assert(reorg@.last()@ == ReorgEntryModel {
                    tx: s0[i as int].tx,
                    confirmed_height: block.height,
                });
                assert(reorg_models_of(reorg@) =~= reorg_models_of(rg_prev).push(
                    reorg@.last()@,
                ));
            }
        } else {
            let deps = e.dependencies.clone();
            proof {
                assert(deps@ =~= e.dependencies@);
            }
            kept.push(Entry { tx: e.tx.duplicate(), fee_per_gram: e.fee_per_gram, dependencies: deps });
            proof {
                assert(kept@ == kept_prev.push(kept@.last()));
                assert(kept@.last()@ == s0[i as int]);
                assert(models_of(kept@) =~= models_of(kept_prev).push(s0[i as int]));
            }
        }
        i += 1;
    }
    assert(s0.take(s0.len() as int) =~= s0);
    *entries = kept;
}

/// Drops reorg entries whose confirming block lies deeper than `depth`
/// below the tip.
#[verifier::loop_isolation(false)]
pub fn expire_reorg(reorg: &mut Vec<ReorgEntry>, depth: u64, tip: u64)
    ensures
        reorg_models_of(final(reorg)@) == spec_expire(reorg_models_of(old(reorg)@), depth, tip),
{
    let ghost rg0 = reorg_models_of(reorg@);
    let mut kept: Vec<ReorgEntry> = Vec::new();
    let mut i: usize = 0;
    while i < reorg.len()
        invariant
            0 <= i <= reorg@.len(),
            reorg_models_of(kept@) =~= rg0.take(i as int).filter(
                |re: ReorgEntryModel| re.confirmed_height + depth > tip,
            ),
        decreases reorg@.len() - i,
    {
        assert(rg0[i as int] == reorg@[i as int]@);
        let e = &reorg[i];
        let ghost kept_prev = kept@;
        proof {
            assert(rg0.take(i + 1).drop_last() =~= rg0.take(i as int));
            assert(rg0.take(i + 1).last() == rg0[i as int]);
            reveal(Seq::filter);
        }
        let keep = if e.confirmed_height >= tip {
            e.confirmed_height > tip || depth > 0
        } else {
            depth > tip - e.confirmed_height
        };
        assert(keep == (rg0[i as int].confirmed_height + depth > tip));
        if keep {
            kept.push(ReorgEntry { tx: e.tx.duplicate(), confirmed_height: e.confirmed_height });
            proof {
                assert(kept@ == kept_prev.push(kept@.last()));
                assert(kept@.last()@ == rg0[i as int]);
                assert(reorg_models_of(kept@) =~= reorg_models_of(kept_prev).push(rg0[i as int]));
            }
        }
        i += 1;
    }
    assert(rg0.take(rg0.len() as int) =~= rg0);
    *reorg = kept;
}

/// Offers the transactions of one rolled-back block back to the unconfirmed
/// pool, in block order: each transaction still held in the reorg pool
/// leaves it and is appended as a fresh unconfirmed entry.
#[verifier::loop_isolation(false)]
pub fn return_block_txs(entries: &mut Vec<Entry>, reorg: &mut Vec<ReorgEntry>, block: &Block)
    ensures
        ({
            let r = spec_return_txs(
                models_of(old(entries)@),
                reorg_models_of(old(reorg)@),
                block.txs@,
                block.txs@.len() as int,
            );
            models_of(final(entries)@) == r.0 && reorg_models_of(final(reorg)@) == r.1
        }),
{
    let ghost un0 = models_of(entries@);
    let ghost rg0 = reorg_models_of(reorg@);
    let mut n: usize = 0;
    while n < block.txs.len()
        invariant
            0 <= n <= block.txs@.len(),
            ({
                let r = spec_return_txs(un0, rg0, block.txs@, n as int);
                models_of(entries@) == r.0 && reorg_models_of(reorg@) == r.1
            }),
        decreases block.txs@.len() - n,
    {
        let tx = &block.txs[n];
        let ghost un_prev = models_of(entries@);
        let ghost rg_prev = reorg_models_of(reorg@);
        proof {
            assert(block.txs@[n as int] == *tx);
        }
        match find_sig_in_reorg(reorg, tx.kernel.excess_sig) {
            Some(i) => {
                let deps = crate::pool::compute_dep_sigs(entries, tx);
                let fee_per_gram = tx.fee_per_gram();
                entries.push(Entry { tx: tx.duplicate(), fee_per_gram, dependencies: deps });
                let ghost prev_reorg_vec = reorg@;
                proof {
                    assert(rg_prev[i as int] == prev_reorg_vec[i as int]@);
                    assert forall|j: int| 0 <= j < i implies rg_prev[j].tx.sig() != tx@.sig() by {
                        assert(rg_prev[j] == prev_reorg_vec[j]@);
                    }
                    lemma_reorg_first_sig(rg_prev, tx@.sig(), 0, i as int);
                }
                reorg.remove(i);
                proof {
                    assert(models_of(entries@) =~= un_prev.push(
                        EntryModel {
                            tx: tx@,
                            fee_per_gram: tx@.fee_per_gram_spec(),
                            dependencies: dep_sigs(un_prev, tx@),
                        },
                    ));
                    assert(reorg@ == prev_reorg_vec.remove(i as int));
                    assert(reorg_models_of(reorg@) =~= rg_prev.remove(i as int));
                    assert(spec_return_txs(un0, rg0, block.txs@, n + 1) == (
                        models_of(entries@),
                        reorg_models_of(reorg@),
                    ));
                }
            },
            None => {
                proof {
                    lemma_reorg_first_sig_none(rg_prev, tx@.sig());
                    assert(spec_return_txs(un0, rg0, block.txs@, n + 1) == (un_prev, rg_prev));
                }
            },
        }
        n += 1;
    }
}

/// The first-index scan answers exactly the first match.
proof fn lemma_reorg_first_sig(rg: Seq<ReorgEntryModel>, sig: u64, i: int, m: int)
    requires
        0 <= i <= m < rg.len(),
        rg[m].tx.sig() == sig,
        forall|j: int| i <= j < m ==> rg[j].tx.sig() != sig,
    ensures
        reorg_first_sig(rg, sig, i) == m,
    decreases m - i,
{
    if i < m {
        lemma_reorg_first_sig(rg, sig, i + 1, m);
    }
}

/// When no entry carries the signature, the scan answers the length.
proof fn lemma_reorg_first_sig_none(rg: Seq<ReorgEntryModel>, sig: u64)
    ensures
        !crate::pool::reorg_has_sig(rg, sig) ==> reorg_first_sig(rg, sig, 0) == rg.len(),
{
    lemma_reorg_first_sig_range(rg, sig, 0);
}

/// Bounds and correctness of the first-index scan.
proof fn lemma_reorg_first_sig_range(rg: Seq<ReorgEntryModel>, sig: u64, i: int)
    requires
        0 <= i,
    ensures
        i <= reorg_first_sig(rg, sig, i) || rg.len() < i,
        reorg_first_sig(rg, sig, i) <= rg.len(),
        reorg_first_sig(rg, sig, i) < rg.len() ==> rg[reorg_first_sig(rg, sig, i)].tx.sig()
            == sig,
    decreases rg.len() - i,
{
    if 0 <= i < rg.len() && rg[i].tx.sig() != sig {
        lemma_reorg_first_sig_range(rg, sig, i + 1);
    }
}

} // verus!
