//! The laws the pool keeps, stated and proved over its mathematical model.
//!
//! Each public proof function here states one property of the operations'
//! models: where a transaction is found after it is accepted, that the
//! unconfirmed pool only holds satisfiable entries after block events, that
//! inserting twice is the same as inserting once, and that a pure-append
//! reorganisation is exactly a published block.

use vstd::prelude::*;
use crate::chain::{Block, ChainState};
use crate::mempool::{
    spec_has_tx, spec_insert, spec_process_published_block, spec_process_reorg, MempoolConfig,
    PoolModel, TxStorageResponse,
};
use crate::pool::{
    dep_sigs, entry_ok, feeds, has_dependent, input_satisfied, pool_has_mature_output,
    pool_has_output, pool_ok, reorg_has_sig, total_weight, unconf_has_sig, EntryModel,
};
use crate::retrieve::deps_backward;
use crate::sweep::{
    evictable, exists_evictable, lemma_sweep_all_ok, lemma_victim_in_range, spec_evict_all,
    spec_evict_insert, spec_sweep, victim, victim_scan,
};
use crate::tx::TxModel;
use crate::validate::{input_status, inputs_verdict, spec_validate};

verus! {

/// When the entries' dependencies all point strictly backwards, the last
/// entry has no dependant, so an evictable entry exists.
pub proof fn lemma_deps_backward_evictable(s: Seq<EntryModel>)
    requires
        s.len() > 0,
        deps_backward(s),
    ensures
        exists_evictable(s),
{
    let last = s.len() - 1;
    assert(!has_dependent(s, s[last].tx.sig())) by {
        if has_dependent(s, s[last].tx.sig()) {
            let i = choose|i: int|
                0 <= i < s.len() && s[i].dependencies.contains(s[last].tx.sig());
            assert(!s[i].dependencies.contains(s[last].tx.sig()));
        }
    }
    assert(evictable(s, last));
}

/// Backward-pointing dependencies survive the removal of any entry.
pub proof fn lemma_deps_backward_remove(s: Seq<EntryModel>, v: int)
    requires
        deps_backward(s),
        0 <= v < s.len(),
    ensures
        deps_backward(s.remove(v)),
{
    let s2 = s.remove(v);
    assert forall|i: int, j: int|
        0 <= i <= j < s2.len() implies !#[trigger] s2[i].dependencies.contains(
        #[trigger] s2[j].tx.sig(),
    ) by {
        let i0 = if i < v {
            i
        } else {
            i + 1
        };
        let j0 = if j < v {
            j
        } else {
            j + 1
        };
        assert(s2[i] == s[i0]);
        assert(s2[j] == s[j0]);
        assert(!s[i0].dependencies.contains(s[j0].tx.sig()));
    }
}

/// A restricted victim scan answers an evictable index or none.
pub proof fn lemma_victim_scan_evictable(s: Seq<EntryModel>, i: int, cur: int)
    requires
        0 <= i,
        cur == -1 || (0 <= cur < s.len() && evictable(s, cur)),
    ensures
        ({
            let r = victim_scan(s, i, cur, true);
            r == -1 || (0 <= r < s.len() && evictable(s, r))
        }),
    decreases s.len() - i,
{
    if 0 <= i < s.len() {
        let allowed = evictable(s, i);
        let better = allowed && (cur < 0 || s[i].fee_per_gram <= s[cur].fee_per_gram);
        lemma_victim_scan_evictable(s, i + 1, if better {
            i
        } else {
            cur
        });
    }
}

/// With backward dependencies the eviction victim never has a dependant.
pub proof fn lemma_victim_evictable(s: Seq<EntryModel>)
    requires
        s.len() > 0,
        deps_backward(s),
    ensures
        0 <= victim(s) < s.len(),
        evictable(s, victim(s)),
{
    lemma_deps_backward_evictable(s);
    lemma_victim_in_range(s);
    lemma_victim_scan_evictable(s, 0, -1);
}

/// Removing a non-feeder leaves a transaction's dependency list unchanged.
pub proof fn lemma_dep_sigs_remove(s: Seq<EntryModel>, t: TxModel, v: int)
    requires
        0 <= v < s.len(),
        !feeds(s[v].tx, t),
    ensures
        dep_sigs(s.remove(v), t) == dep_sigs(s, t),
    decreases s.len(),
{
    if v == s.len() - 1 {
        assert(s.remove(v) =~= s.drop_last());
    } else {
        assert(s.remove(v).drop_last() =~= s.drop_last().remove(v));
        assert(s.remove(v).last() == s.last());
        lemma_dep_sigs_remove(s.drop_last(), t, v);
    }
}

/// Removing an entry that does not create the commitment leaves both pool
/// output predicates unchanged for it.
pub proof fn lemma_pool_output_remove(s: Seq<EntryModel>, v: int, c: u64, tip: u64)
    requires
        0 <= v < s.len(),
        !s[v].tx.has_output(c),
    ensures
        pool_has_output(s.remove(v), c) == pool_has_output(s, c),
        pool_has_mature_output(s.remove(v), c, tip) == pool_has_mature_output(s, c, tip),
{
    let s2 = s.remove(v);
    if pool_has_output(s, c) {
        let i = choose|i: int| 0 <= i < s.len() && s[i].tx.has_output(c);
        let i2 = if i < v {
            i
        } else {
            i - 1
        };
        assert(s2[i2] == s[i]);
    }
    if pool_has_output(s2, c) {
        let i = choose|i: int| 0 <= i < s2.len() && s2[i].tx.has_output(c);
        let i0 = if i < v {
            i
        } else {
            i + 1
        };
        assert(s2[i] == s[i0]);
    }
    if pool_has_mature_output(s, c, tip) {
        let i = choose|i: int|
            0 <= i < s.len() && crate::pool::entry_has_mature_output(s[i], c, tip);
        assert(i != v) by {
            if i == v {
                let k = choose|k: int|
                    0 <= k < s[i].tx.outputs.len() && s[i].tx.outputs[k].commitment == c
                        && s[i].tx.outputs[k].maturity <= tip;
                assert(s[v].tx.has_output(c));
            }
        }
        let i2 = if i < v {
            i
        } else {
            i - 1
        };
        assert(s2[i2] == s[i]);
    }
    if pool_has_mature_output(s2, c, tip) {
        let i = choose|i: int|
            0 <= i < s2.len() && crate::pool::entry_has_mature_output(s2[i], c, tip);
        let i0 = if i < v {
            i
        } else {
            i + 1
        };
        assert(s2[i] == s[i0]);
    }
}

/// Pools that judge each input commitment the same judge the whole list
/// the same.
pub proof fn lemma_verdict_same(
    chain: ChainState,
    s1: Seq<EntryModel>,
    s2: Seq<EntryModel>,
    inputs: Seq<u64>,
)
    requires
        forall|k: int|
            0 <= k < inputs.len() ==> input_status(chain, s1, #[trigger] inputs[k])
                == input_status(chain, s2, inputs[k]),
    ensures
        inputs_verdict(chain, s1, inputs) == inputs_verdict(chain, s2, inputs),
    decreases inputs.len(),
{
    if inputs.len() > 0 {
        let rest = inputs.subrange(1, inputs.len() as int);
        assert forall|k: int|
            0 <= k < rest.len() implies input_status(chain, s1, #[trigger] rest[k])
            == input_status(chain, s2, rest[k]) by {
            assert(rest[k] == inputs[k + 1]);
        }
        lemma_verdict_same(chain, s1, s2, rest);
    }
}

/// What eviction after an insertion does when the pool's dependencies point
/// backwards and the inserted entry sits last with a fresh signature: the
/// inserted entry either survives in last place, or is removed last with
/// the other removals limited to entries that feed it nothing; re-running
/// the eviction on the surviving pool plus the entry aborts the same way.
pub proof fn lemma_evict_insert_props(s: Seq<EntryModel>, cap: u64, sig: u64, tip: u64)
    requires
        s.len() > 0,
        deps_backward(s),
        s.last().tx.sig() == sig,
        forall|i: int| 0 <= i < s.len() - 1 ==> (#[trigger] s[i].tx.sig()) != sig,
        forall|i: int|
            0 <= i < s.len() - 1 && feeds(#[trigger] s[i].tx, s.last().tx)
                ==> s.last().dependencies.contains(s[i].tx.sig()),
    ensures
        ({
            let r = spec_evict_insert(s, cap, sig);
            &&& (r.1 ==> r.0.len() > 0 && r.0.last() == s.last())
            &&& (!r.1 ==> {
                &&& spec_evict_insert(r.0.push(s.last()), cap, sig) == r
                &&& (forall|i: int| 0 <= i < r.0.len() ==> (#[trigger] r.0[i].tx.sig()) != sig)
                &&& dep_sigs(r.0, s.last().tx) == dep_sigs(s.drop_last(), s.last().tx)
                &&& (forall|c: u64|
                    s.last().tx.inputs.contains(c) ==> pool_has_output(r.0, c) == pool_has_output(
                        s.drop_last(),
                        c,
                    ) && pool_has_mature_output(r.0, c, tip) == pool_has_mature_output(
                        s.drop_last(),
                        c,
                        tip,
                    ))
            })
        }),
    decreases s.len(),
{
    let e = s.last();
    let r = spec_evict_insert(s, cap, sig);
    if total_weight(s) <= cap {
        // kept as-is
    } else {
        lemma_victim_evictable(s);
        let v = victim(s);
        if s[v].tx.sig() == sig {
            // the inserted entry itself is evicted; it is the last entry
            assert(v == s.len() - 1) by {
                if v < s.len() - 1 {
                    assert(s[v].tx.sig() != sig);
                }
            }
            assert(r.0 =~= s.drop_last());
            assert(r.0.push(e) =~= s);
            assert forall|i: int| 0 <= i < r.0.len() implies (#[trigger] r.0[i].tx.sig())
                != sig by {
                assert(r.0[i] == s[i]);
            }
        } else {
            // some other, dependant-free entry is evicted; it feeds the
            // inserted entry nothing, since a feeder is recorded in the
            // inserted entry's dependencies and so has a dependant
            assert(v < s.len() - 1) by {
                if v == s.len() - 1 {
                    assert(s[v].tx.sig() == sig);
                }
            }
            let s2 = s.remove(v);
            assert(!feeds(s[v].tx, e.tx)) by {
                if feeds(s[v].tx, e.tx) {
                    assert(s.last().dependencies.contains(s[v].tx.sig()));
                    assert(s[s.len() - 1].dependencies.contains(s[v].tx.sig()));
                    assert(has_dependent(s, s[v].tx.sig()));
                }
            }
            lemma_deps_backward_remove(s, v);
            assert(s2.last() == e);
            assert forall|i: int| 0 <= i < s2.len() - 1 implies (#[trigger] s2[i].tx.sig())
                != sig by {
                let i0 = if i < v {
                    i
                } else {
                    i + 1
                };
                assert(s2[i] == s[i0]);
            }
            assert forall|i: int|
                0 <= i < s2.len() - 1 && feeds(#[trigger] s2[i].tx, s2.last().tx) implies s2.last(
            ).dependencies.contains(s2[i].tx.sig()) by {
                let i0 = if i < v {
                    i
                } else {
                    i + 1
                };
                assert(s2[i] == s[i0]);
            }
            lemma_evict_insert_props(s2, cap, sig, tip);
            assert(s2.drop_last() =~= s.drop_last().remove(v));
            assert(s.drop_last()[v] == s[v]);
            lemma_dep_sigs_remove(s.drop_last(), e.tx, v);
            if !r.1 {
                assert forall|c: u64| s.last().tx.inputs.contains(c) implies pool_has_output(
                    r.0,
                    c,
                ) == pool_has_output(s.drop_last(), c) && pool_has_mature_output(r.0, c, tip)
                    == pool_has_mature_output(s.drop_last(), c, tip) by {
                    assert(!s.drop_last()[v].tx.has_output(c)) by {
                        if s.drop_last()[v].tx.has_output(c) {
                            let k = choose|k: int|
                                0 <= k < e.tx.inputs.len() && e.tx.inputs[k] == c;
                            assert(feeds(s[v].tx, e.tx));
                        }
                    }
                    lemma_pool_output_remove(s.drop_last(), v, c, tip);
                    assert(s2.last().tx == e.tx);
                    assert(s2.drop_last() =~= s.drop_last().remove(v));
                }
            }
        }
    }
}

/// LAW: an accepted transaction is found where the insertion reported it.
///
/// When `insert` answers `UnconfirmedPool` or `ReorgPool`, looking the
/// transaction's excess signature up in the resulting pool answers exactly
/// that location.
pub proof fn lemma_insert_reports_location(
    pm: PoolModel,
    cfg: MempoolConfig,
    chain: ChainState,
    tx: TxModel,
)
    requires
        deps_backward(pm.unconfirmed),
        !has_dependent(pm.unconfirmed, tx.sig()),
    ensures
        ({
            let r = spec_insert(pm, cfg, chain, tx);
            &&& (r.1 == TxStorageResponse::UnconfirmedPool ==> spec_has_tx(r.0, tx.sig())
                == TxStorageResponse::UnconfirmedPool)
            &&& (r.1 == TxStorageResponse::ReorgPool ==> spec_has_tx(r.0, tx.sig())
                == TxStorageResponse::ReorgPool)
        }),
{
    let r = spec_insert(pm, cfg, chain, tx);
    if unconf_has_sig(pm.unconfirmed, tx.sig()) {
    } else if reorg_has_sig(pm.reorg, tx.sig()) {
    } else {
        match spec_validate(cfg, chain, pm.unconfirmed, tx) {
            Some(_) => {},
            None => {
                let e = EntryModel {
                    tx,
                    fee_per_gram: tx.fee_per_gram_spec(),
                    dependencies: dep_sigs(pm.unconfirmed, tx),
                };
                let pushed = pm.unconfirmed.push(e);
                lemma_push_entry_well_formed(pm.unconfirmed, tx);
                lemma_evict_insert_props(pushed, cfg.unconfirmed_weight_cap, tx.sig(), chain.tip_height);
                let ev = spec_evict_insert(pushed, cfg.unconfirmed_weight_cap, tx.sig());
                if ev.1 {
                    assert(ev.0.last().tx.sig() == tx.sig());
                    assert(unconf_has_sig(ev.0, tx.sig())) by {
                        assert(ev.0[ev.0.len() - 1].tx.sig() == tx.sig());
                    }
                }
            },
        }
    }
}

/// A fresh entry appended to a backward-pointing pool keeps the pool
/// backward-pointing, sits last with its own signature, and records every
/// feeder among its dependencies.
pub proof fn lemma_push_entry_well_formed(s: Seq<EntryModel>, tx: TxModel)
    requires
        !unconf_has_sig(s, tx.sig()),
        !has_dependent(s, tx.sig()),
        deps_backward(s),
    ensures
        ({
            let e = EntryModel {
                tx,
                fee_per_gram: tx.fee_per_gram_spec(),
                dependencies: dep_sigs(s, tx),
            };
            let pushed = s.push(e);
            &&& pushed.last() == e
            &&& pushed.last().tx.sig() == tx.sig()
            &&& deps_backward(pushed)
            &&& (forall|i: int| 0 <= i < pushed.len() - 1 ==> (#[trigger] pushed[i].tx.sig())
                != tx.sig())
            &&& (forall|i: int|
                0 <= i < pushed.len() - 1 && feeds(#[trigger] pushed[i].tx, tx)
                    ==> pushed.last().dependencies.contains(pushed[i].tx.sig()))
        }),
{
    let e = EntryModel { tx, fee_per_gram: tx.fee_per_gram_spec(), dependencies: dep_sigs(s, tx) };
    let pushed = s.push(e);
    assert forall|i: int| 0 <= i < pushed.len() - 1 implies (#[trigger] pushed[i].tx.sig())
        != tx.sig() by {
        assert(pushed[i] == s[i]);
        if s[i].tx.sig() == tx.sig() {
            assert(unconf_has_sig(s, tx.sig()));
        }
    }
    assert forall|i: int|
        0 <= i < pushed.len() - 1 && feeds(#[trigger] pushed[i].tx, tx) implies pushed.last(
    ).dependencies.contains(pushed[i].tx.sig()) by {
        assert(pushed[i] == s[i]);
        lemma_dep_sigs_complete(s, tx, i);
    }
    assert forall|i: int, j: int|
        0 <= i <= j < pushed.len() implies !#[trigger] pushed[i].dependencies.contains(
        #[trigger] pushed[j].tx.sig(),
    ) by {
        if j < pushed.len() - 1 {
            assert(pushed[i] == s[i]);
            assert(pushed[j] == s[j]);
            assert(!s[i].dependencies.contains(s[j].tx.sig()));
        } else {
            // nothing may depend on the fresh signature: older entries
            // recorded only signatures present before it, and the entry's
            // own dependencies are signatures of older entries
            if i < pushed.len() - 1 {
                assert(pushed[i] == s[i]);
                if s[i].dependencies.contains(tx.sig()) {
                    assert(has_dependent(s, tx.sig()));
                }
            } else {
                if e.dependencies.contains(tx.sig()) {
                    lemma_dep_sigs_members(s, tx);
                    let w = choose|w: int|
                        0 <= w < s.len() && s[w].tx.sig() == tx.sig() && feeds(s[w].tx, tx);
                    assert(unconf_has_sig(s, tx.sig()));
                }
            }
        }
    }
}

/// LAW: inserting a transaction twice has the same effect as inserting it
/// once: the second insertion leaves the pool exactly as the first left it
/// and reports the same response.
pub proof fn lemma_insert_idempotent(
    pm: PoolModel,
    cfg: MempoolConfig,
    chain: ChainState,
    tx: TxModel,
)
    requires
        deps_backward(pm.unconfirmed),
        !has_dependent(pm.unconfirmed, tx.sig()),
    ensures
        ({
            let first = spec_insert(pm, cfg, chain, tx);
            let second = spec_insert(first.0, cfg, chain, tx);
            second == first
        }),
{
    let first = spec_insert(pm, cfg, chain, tx);
    if unconf_has_sig(pm.unconfirmed, tx.sig()) {
    } else if reorg_has_sig(pm.reorg, tx.sig()) {
    } else {
        match spec_validate(cfg, chain, pm.unconfirmed, tx) {
            Some(_) => {},
            None => {
                let e = EntryModel {
                    tx,
                    fee_per_gram: tx.fee_per_gram_spec(),
                    dependencies: dep_sigs(pm.unconfirmed, tx),
                };
                let pushed = pm.unconfirmed.push(e);
                let cap = cfg.unconfirmed_weight_cap;
                lemma_push_entry_well_formed(pm.unconfirmed, tx);
                lemma_evict_insert_props(pushed, cap, tx.sig(), chain.tip_height);
                let ev = spec_evict_insert(pushed, cap, tx.sig());
                if ev.1 {
                    // the entry survived: the second insertion finds it
                    assert(ev.0[ev.0.len() - 1].tx.sig() == tx.sig());
                    assert(unconf_has_sig(first.0.unconfirmed, tx.sig()));
                } else {
                    // the entry was evicted: the surviving pool judges the
                    // transaction exactly as the original pool did, records
                    // the same dependencies, and evicts it again
                    assert(pushed.drop_last() =~= pm.unconfirmed);
                    assert(!unconf_has_sig(ev.0, tx.sig())) by {
                        if unconf_has_sig(ev.0, tx.sig()) {
                            let w = choose|w: int|
                                0 <= w < ev.0.len() && ev.0[w].tx.sig() == tx.sig();
                            assert(ev.0[w].tx.sig() != tx.sig());
                        }
                    }
                    assert forall|k: int|
                        0 <= k < tx.inputs.len() implies input_status(
                        chain,
                        ev.0,
                        #[trigger] tx.inputs[k],
                    ) == input_status(chain, pm.unconfirmed, tx.inputs[k]) by {
                        assert(tx.inputs.contains(tx.inputs[k]));
                    }
                    lemma_verdict_same(chain, ev.0, pm.unconfirmed, tx.inputs);
                    assert(spec_validate(cfg, chain, ev.0, tx) == spec_validate(
                        cfg,
                        chain,
                        pm.unconfirmed,
                        tx,
                    ));
                    assert(dep_sigs(ev.0, tx) == dep_sigs(pm.unconfirmed, tx));
                    assert(spec_evict_insert(ev.0.push(e), cap, tx.sig()) == (ev.0, false));
                }
            },
        }
    }
}

/// A list of inputs the verdict calls good is good input by input.
pub proof fn lemma_verdict_good(chain: ChainState, s: Seq<EntryModel>, inputs: Seq<u64>)
    requires
        inputs_verdict(chain, s, inputs) is Good,
    ensures
        forall|k: int|
            0 <= k < inputs.len() ==> input_status(chain, s, #[trigger] inputs[k]) is Good,
    decreases inputs.len(),
{
    if inputs.len() > 0 {
        let rest = inputs.subrange(1, inputs.len() as int);
        lemma_verdict_good(chain, s, rest);
        assert forall|k: int|
            0 <= k < inputs.len() implies input_status(chain, s, #[trigger] inputs[k]) is Good by {
            if k > 0 {
                assert(rest[k - 1] == inputs[k]);
            }
        }
    }
}

/// LAW (invariant, block events): after a published block is processed,
/// every entry left in the unconfirmed pool has a kernel lock-height the
/// next block allows and only satisfiable inputs, against the new chain
/// view.
pub proof fn lemma_published_block_validates(
    pm: PoolModel,
    cfg: MempoolConfig,
    chain: ChainState,
    block: Block,
)
    ensures
        pool_ok(chain, spec_process_published_block(pm, cfg, chain, block).unconfirmed),
{
    let published = crate::reorg::spec_publish_block(pm.unconfirmed, pm.reorg, block);
    lemma_sweep_all_ok(chain, published.0);
}

/// Eviction to the weight cap keeps every surviving entry valid: victims
/// have no dependants, so no survivor loses the pool entry that satisfied
/// one of its inputs.
pub proof fn lemma_evict_all_pool_ok(chain: ChainState, s: Seq<EntryModel>, cap: u64)
    requires
        pool_ok(chain, s),
        deps_backward(s),
    ensures
        pool_ok(chain, spec_evict_all(s, cap)),
        deps_backward(spec_evict_all(s, cap)),
    decreases s.len(),
{
    if total_weight(s) <= cap {
    } else if s.len() == 0 {
    } else {
        lemma_victim_evictable(s);
        let v = victim(s);
        let s2 = s.remove(v);
        lemma_deps_backward_remove(s, v);
        lemma_remove_nondependant_pool_ok(chain, s, v);
        lemma_evict_all_pool_ok(chain, s2, cap);
    }
}

/// Removing an entry no other entry depends on keeps the rest valid.
pub proof fn lemma_remove_nondependant_pool_ok(chain: ChainState, s: Seq<EntryModel>, v: int)
    requires
        pool_ok(chain, s),
        0 <= v < s.len(),
        !has_dependent(s, s[v].tx.sig()),
    ensures
        pool_ok(chain, s.remove(v)),
{
    let s2 = s.remove(v);
    assert forall|i: int| 0 <= i < s2.len() implies entry_ok(chain, s2, #[trigger] s2[i]) by {
        let i0 = if i < v {
            i
        } else {
            i + 1
        };
        assert(s2[i] == s[i0]);
        assert(entry_ok(chain, s, s[i0]));
        assert forall|j: int|
            0 <= j < s2[i].tx.inputs.len() implies input_satisfied(
            chain,
            s2,
            s2[i].dependencies,
            s2[i].tx.inputs[j],
        ) by {
            let c = s[i0].tx.inputs[j];
            assert(input_satisfied(chain, s, s[i0].dependencies, c));
            if !chain.has_mature_utxo(c) {
                let w = choose|w: int|
                    0 <= w < s.len() && s[i0].dependencies.contains(s[w].tx.sig())
                        && crate::pool::entry_has_mature_output(s[w], c, chain.tip_height);
                assert(w != v) by {
                    if w == v {
                        assert(s[i0].dependencies.contains(s[v].tx.sig()));
                        assert(has_dependent(s, s[v].tx.sig()));
                    }
                }
                let w2 = if w < v {
                    w
                } else {
                    w - 1
                };
                assert(s2[w2] == s[w]);
            }
        }
    }
}

/// Eviction after an insertion keeps every surviving entry valid.
pub proof fn lemma_evict_insert_pool_ok(chain: ChainState, s: Seq<EntryModel>, cap: u64, sig: u64)
    requires
        pool_ok(chain, s),
        deps_backward(s),
    ensures
        pool_ok(chain, spec_evict_insert(s, cap, sig).0),
    decreases s.len(),
{
    if total_weight(s) <= cap {
    } else if s.len() == 0 {
    } else {
        lemma_victim_evictable(s);
        let v = victim(s);
        lemma_remove_nondependant_pool_ok(chain, s, v);
        lemma_deps_backward_remove(s, v);
        if s[v].tx.sig() == sig {
        } else {
            lemma_evict_insert_pool_ok(chain, s.remove(v), cap, sig);
        }
    }
}

/// LAW (invariant, insertion): inserting a transaction keeps every entry of
/// the unconfirmed pool valid against the chain view the insertion used:
/// kernel lock-heights the next block allows, and only satisfiable inputs.
pub proof fn lemma_insert_validates(
    pm: PoolModel,
    cfg: MempoolConfig,
    chain: ChainState,
    tx: TxModel,
)
    requires
        pool_ok(chain, pm.unconfirmed),
        deps_backward(pm.unconfirmed),
        !has_dependent(pm.unconfirmed, tx.sig()),
    ensures
        pool_ok(chain, spec_insert(pm, cfg, chain, tx).0.unconfirmed),
{
    if unconf_has_sig(pm.unconfirmed, tx.sig()) {
    } else if reorg_has_sig(pm.reorg, tx.sig()) {
    } else {
        match spec_validate(cfg, chain, pm.unconfirmed, tx) {
            Some(_) => {},
            None => {
                let s = pm.unconfirmed;
                let e = EntryModel {
                    tx,
                    fee_per_gram: tx.fee_per_gram_spec(),
                    dependencies: dep_sigs(s, tx),
                };
                let pushed = s.push(e);
                lemma_push_entry_well_formed(s, tx);
                lemma_verdict_good(chain, s, tx.inputs);
                assert(entry_ok(chain, pushed, e)) by {
                    assert forall|j: int| 0 <= j < tx.inputs.len() implies input_satisfied(
                        chain,
                        pushed,
                        e.dependencies,
                        tx.inputs[j],
                    ) by {
                        let c = tx.inputs[j];
                        assert(input_status(chain, s, c) is Good);
                        if !chain.has_mature_utxo(c) {
                            let w = choose|w: int|
                                0 <= w < s.len() && crate::pool::entry_has_mature_output(
                                    s[w],
                                    c,
                                    chain.tip_height,
                                );
                            assert(s[w].tx.has_output(c)) by {
                                let k = choose|k: int|
                                    0 <= k < s[w].tx.outputs.len() && s[w].tx.outputs[k].commitment
                                        == c && s[w].tx.outputs[k].maturity <= chain.tip_height;
                            }
                            assert(feeds(s[w].tx, tx)) by {
                                assert(0 <= j < tx.inputs.len() && s[w].tx.has_output(
                                    tx.inputs[j],
                                ));
                            }
                            lemma_dep_sigs_complete(s, tx, w);
                            assert(pushed[w] == s[w]);
                        }
                    }
                }
                assert(pool_ok(chain, pushed)) by {
                    assert forall|i: int| 0 <= i < pushed.len() implies entry_ok(
                        chain,
                        pushed,
                        #[trigger] pushed[i],
                    ) by {
                        if i < pushed.len() - 1 {
                            assert(pushed[i] == s[i]);
                            assert(entry_ok(chain, s, s[i]));
                            assert forall|j: int|
                                0 <= j < pushed[i].tx.inputs.len() implies input_satisfied(
                                chain,
                                pushed,
                                pushed[i].dependencies,
                                pushed[i].tx.inputs[j],
                            ) by {
                                let c = s[i].tx.inputs[j];
                                assert(input_satisfied(chain, s, s[i].dependencies, c));
                                if !chain.has_mature_utxo(c) {
                                    let w = choose|w: int|
                                        0 <= w < s.len() && s[i].dependencies.contains(
                                            s[w].tx.sig(),
                                        ) && crate::pool::entry_has_mature_output(
                                            s[w],
                                            c,
                                            chain.tip_height,
                                        );
                                    assert(pushed[w] == s[w]);
                                }
                            }
                        }
                    }
                }
                lemma_evict_insert_pool_ok(
                    chain,
                    pushed,
                    cfg.unconfirmed_weight_cap,
                    tx.sig(),
                );
            },
        }
    }
}

/// LAW (invariant, reorganisations): after a reorganisation of a valid
/// pool, every entry left in the unconfirmed pool has a kernel lock-height
/// the next block allows and only satisfiable inputs, against the new
/// chain view.
pub proof fn lemma_reorg_validates(
    pm: PoolModel,
    cfg: MempoolConfig,
    chain: ChainState,
    removed: Seq<Block>,
    added: Seq<Block>,
)
    requires
        pools_wf(pm.unconfirmed, pm.reorg),
    ensures
        pool_ok(chain, spec_process_reorg(pm, cfg, chain, removed, added).unconfirmed),
{
    lemma_return_blocks_wf(pm.unconfirmed, pm.reorg, removed, removed.len() as int);
    let returned = crate::reorg::spec_return_blocks(
        pm.unconfirmed,
        pm.reorg,
        removed,
        removed.len() as int,
    );
    lemma_publish_blocks_deps_backward(returned.0, returned.1, added, added.len() as int);
    let published = crate::reorg::spec_publish_blocks(
        returned.0,
        returned.1,
        added,
        added.len() as int,
    );
    lemma_sweep_deps_backward(chain, published.0);
    lemma_sweep_all_ok(chain, published.0);
    lemma_evict_all_pool_ok(chain, spec_sweep(chain, published.0), cfg.unconfirmed_weight_cap);
}

/// Eviction preserves backward-pointing dependencies.
pub proof fn lemma_evict_insert_deps_backward(s: Seq<EntryModel>, cap: u64, sig: u64)
    requires
        deps_backward(s),
    ensures
        deps_backward(spec_evict_insert(s, cap, sig).0),
    decreases s.len(),
{
    if total_weight(s) <= cap {
    } else if s.len() == 0 {
    } else {
        lemma_victim_in_range(s);
        let v = victim(s);
        lemma_deps_backward_remove(s, v);
        if s[v].tx.sig() == sig {
        } else {
            lemma_evict_insert_deps_backward(s.remove(v), cap, sig);
        }
    }
}

/// The validity sweep preserves backward-pointing dependencies.
pub proof fn lemma_sweep_deps_backward(chain: ChainState, s: Seq<EntryModel>)
    requires
        deps_backward(s),
    ensures
        deps_backward(spec_sweep(chain, s)),
    decreases s.len(),
{
    let k = crate::sweep::first_bad_from(chain, s, 0);
    if 0 <= k < s.len() {
        lemma_deps_backward_remove(s, k);
        lemma_sweep_deps_backward(chain, s.remove(k));
    }
}

/// LAW (invariant, insertion): inserting a transaction with a signature the
/// pool has not recorded keeps the pool's dependency lists pointing
/// strictly backwards, so the hypotheses of the other laws hold again after
/// the insertion.
pub proof fn lemma_insert_preserves_deps_backward(
    pm: PoolModel,
    cfg: MempoolConfig,
    chain: ChainState,
    tx: TxModel,
)
    requires
        deps_backward(pm.unconfirmed),
        !has_dependent(pm.unconfirmed, tx.sig()),
    ensures
        deps_backward(spec_insert(pm, cfg, chain, tx).0.unconfirmed),
{
    if unconf_has_sig(pm.unconfirmed, tx.sig()) {
    } else if reorg_has_sig(pm.reorg, tx.sig()) {
    } else {
        match spec_validate(cfg, chain, pm.unconfirmed, tx) {
            Some(_) => {},
            None => {
                let e = EntryModel {
                    tx,
                    fee_per_gram: tx.fee_per_gram_spec(),
                    dependencies: dep_sigs(pm.unconfirmed, tx),
                };
                lemma_push_entry_well_formed(pm.unconfirmed, tx);
                lemma_evict_insert_deps_backward(
                    pm.unconfirmed.push(e),
                    cfg.unconfirmed_weight_cap,
                    tx.sig(),
                );
            },
        }
    }
}

/// Every element of a filtered sequence occurs in the sequence.
pub proof fn lemma_filter_elements(s: Seq<EntryModel>, pred: spec_fn(EntryModel) -> bool)
    ensures
        forall|i: int|
            0 <= i < s.filter(pred).len() ==> s.contains(#[trigger] s.filter(pred)[i]),
    decreases s.len(),
{
    reveal(Seq::filter);
    if s.len() > 0 {
        lemma_filter_elements(s.drop_last(), pred);
        let out = s.filter(pred);
        let prev = s.drop_last().filter(pred);
        assert forall|i: int| 0 <= i < out.len() implies s.contains(#[trigger] out[i]) by {
            if pred(s.last()) && i == out.len() - 1 {
                assert(s[s.len() - 1] == out[i]);
            } else {
                assert(out[i] == prev[i]);
                assert(s.drop_last().contains(prev[i]));
                let w = choose|w: int|
                    0 <= w < s.drop_last().len() && s.drop_last()[w] == prev[i];
                assert(s[w] == prev[i]);
            }
        }
    }
}

/// Filtering a pool keeps its dependency lists pointing backwards: kept
/// entries keep their relative order, and no kept entry can list the
/// signature of one kept at or after it.
pub proof fn lemma_deps_backward_filter(s: Seq<EntryModel>, pred: spec_fn(EntryModel) -> bool)
    requires
        deps_backward(s),
    ensures
        deps_backward(s.filter(pred)),
    decreases s.len(),
{
    reveal(Seq::filter);
    if s.len() > 0 {
        assert(deps_backward(s.drop_last())) by {
            assert forall|i: int, j: int|
                0 <= i <= j < s.drop_last().len() implies !#[trigger] s.drop_last()[
            i].dependencies.contains(#[trigger] s.drop_last()[j].tx.sig()) by {
                assert(s.drop_last()[i] == s[i]);
                assert(s.drop_last()[j] == s[j]);
                assert(!s[i].dependencies.contains(s[j].tx.sig()));
            }
        }
        lemma_deps_backward_filter(s.drop_last(), pred);
        lemma_filter_elements(s.drop_last(), pred);
        let out = s.filter(pred);
        let prev = s.drop_last().filter(pred);
        assert forall|i: int, j: int|
            0 <= i <= j < out.len() implies !#[trigger] out[i].dependencies.contains(
            #[trigger] out[j].tx.sig(),
        ) by {
            if pred(s.last()) && j == out.len() - 1 {
                // the last kept entry is the pool's last; no entry of the
                // pool lists its signature
                if i < j {
                    assert(out[i] == prev[i]);
                    assert(s.drop_last().contains(prev[i]));
                    let w = choose|w: int|
                        0 <= w < s.drop_last().len() && s.drop_last()[w] == prev[i];
                    assert(s[w] == out[i]);
                    assert(!s[w].dependencies.contains(s[s.len() - 1].tx.sig()));
                } else {
                    assert(out[i] == s[s.len() - 1]);
                    assert(!s[s.len() - 1].dependencies.contains(s[s.len() - 1].tx.sig()));
                }
            } else {
                assert(out[i] == prev[i]);
                assert(out[j] == prev[j]);
                assert(!prev[i].dependencies.contains(prev[j].tx.sig()));
            }
        }
    }
}

/// LAW (invariant, block events): processing a published block keeps the
/// pool's dependency lists pointing backwards: kept entries keep their
/// order and their lists, so the hypotheses of the other laws hold again
/// after the block.
pub proof fn lemma_published_block_preserves_deps_backward(
    pm: PoolModel,
    cfg: MempoolConfig,
    chain: ChainState,
    block: Block,
)
    requires
        deps_backward(pm.unconfirmed),
    ensures
        deps_backward(spec_process_published_block(pm, cfg, chain, block).unconfirmed),
{
    lemma_deps_backward_filter(
        pm.unconfirmed,
        |e: EntryModel| !block.confirms_sig(e.tx.sig()),
    );
    lemma_sweep_deps_backward(
        chain,
        pm.unconfirmed.filter(|e: EntryModel| !block.confirms_sig(e.tx.sig())),
    );
}

/// Validity of the two sub-pools against each other: dependency lists
/// point backwards, the pools share no signature, the reorg pool's
/// signatures are distinct, and no dependency list mentions a reorg-pool
/// signature. Every pool built by this crate's operations satisfies it.
pub open spec fn pools_wf(un: Seq<EntryModel>, rg: Seq<crate::pool::ReorgEntryModel>) -> bool {
    &&& deps_backward(un)
    &&& (forall|i: int, j: int|
        0 <= i < un.len() && 0 <= j < rg.len() ==> (#[trigger] un[i].tx.sig()) != (
        #[trigger] rg[j].tx.sig()))
    &&& (forall|i: int, j: int|
        0 <= i < j < rg.len() ==> (#[trigger] rg[i].tx.sig()) != (#[trigger] rg[j].tx.sig()))
    &&& (forall|i: int, j: int|
        0 <= i < un.len() && 0 <= j < rg.len() ==> !(#[trigger] un[i].dependencies).contains(
            #[trigger] rg[j].tx.sig(),
        ))
}

/// Eviction with no protected entry preserves backward dependencies.
pub proof fn lemma_evict_all_deps_backward(s: Seq<EntryModel>, cap: u64)
    requires
        deps_backward(s),
    ensures
        deps_backward(spec_evict_all(s, cap)),
    decreases s.len(),
{
    if total_weight(s) <= cap {
    } else if s.len() == 0 {
    } else {
        lemma_victim_in_range(s);
        let v = victim(s);
        lemma_deps_backward_remove(s, v);
        lemma_evict_all_deps_backward(s.remove(v), cap);
    }
}

/// Returning one rolled-back block's transactions to the unconfirmed pool
/// preserves the two pools' validity.
pub proof fn lemma_return_txs_wf(
    un: Seq<EntryModel>,
    rg: Seq<crate::pool::ReorgEntryModel>,
    txs: Seq<crate::tx::Transaction>,
    n: int,
)
    requires
        pools_wf(un, rg),
    ensures
        ({
            let r = crate::reorg::spec_return_txs(un, rg, txs, n);
            pools_wf(r.0, r.1)
        }),
    decreases n,
{
    if n > 0 {
        lemma_return_txs_wf(un, rg, txs, n - 1);
        let prev = crate::reorg::spec_return_txs(un, rg, txs, n - 1);
        let t = txs[n - 1]@;
        let i = crate::reorg::reorg_first_sig(prev.1, t.sig(), 0);
        if 0 <= i < prev.1.len() {
            let u1 = prev.0;
            let r1 = prev.1;
            lemma_reorg_first_sig_hit(r1, t.sig(), 0);
            assert(r1[i].tx.sig() == t.sig());
            assert(!unconf_has_sig(u1, t.sig())) by {
                if unconf_has_sig(u1, t.sig()) {
                    let w = choose|w: int| 0 <= w < u1.len() && u1[w].tx.sig() == t.sig();
                    assert(u1[w].tx.sig() != r1[i].tx.sig());
                }
            }
            assert(!has_dependent(u1, t.sig())) by {
                if has_dependent(u1, t.sig()) {
                    let w = choose|w: int|
                        0 <= w < u1.len() && u1[w].dependencies.contains(t.sig());
                    assert(!u1[w].dependencies.contains(r1[i].tx.sig()));
                }
            }
            lemma_push_entry_well_formed(u1, t);
            let e = EntryModel {
                tx: t,
                fee_per_gram: t.fee_per_gram_spec(),
                dependencies: dep_sigs(u1, t),
            };
            let u2 = u1.push(e);
            let r2 = r1.remove(i);
            lemma_dep_sigs_members(u1, t);
            assert forall|a: int, b: int|
                0 <= a < u2.len() && 0 <= b < r2.len() implies (#[trigger] u2[a].tx.sig()) != (
            #[trigger] r2[b].tx.sig()) by {
                let b0 = if b < i {
                    b
                } else {
                    b + 1
                };
                assert(r2[b] == r1[b0]);
                if a < u2.len() - 1 {
                    assert(u2[a] == u1[a]);
                } else {
                    assert(u2[a].tx.sig() == r1[i].tx.sig());
                    assert(r1[i].tx.sig() != r1[b0].tx.sig());
                }
            }
            assert forall|a: int, b: int|
                0 <= a < u2.len() && 0 <= b < r2.len() implies !(#[trigger] u2[
            a].dependencies).contains(#[trigger] r2[b].tx.sig()) by {
                let b0 = if b < i {
                    b
                } else {
                    b + 1
                };
                assert(r2[b] == r1[b0]);
                if a < u2.len() - 1 {
                    assert(u2[a] == u1[a]);
                    assert(!u1[a].dependencies.contains(r1[b0].tx.sig()));
                } else {
                    if e.dependencies.contains(r1[b0].tx.sig()) {
                        let w = choose|w: int|
                            0 <= w < u1.len() && u1[w].tx.sig() == r1[b0].tx.sig() && feeds(
                                #[trigger] u1[w].tx,
                                t,
                            );
                        assert(u1[w].tx.sig() != r1[b0].tx.sig());
                    }
                }
            }
            assert forall|a: int, b: int|
                0 <= a < b < r2.len() implies (#[trigger] r2[a].tx.sig()) != (
            #[trigger] r2[b].tx.sig()) by {
                let a0 = if a < i {
                    a
                } else {
                    a + 1
                };
                let b0 = if b < i {
                    b
                } else {
                    b + 1
                };
                assert(r2[a] == r1[a0]);
                assert(r2[b] == r1[b0]);
            }
        }
    }
}

/// The first-index scan of the reorg pool answers a real match when it
/// answers an index.
proof fn lemma_reorg_first_sig_hit(rg: Seq<crate::pool::ReorgEntryModel>, sig: u64, i: int)
    requires
        0 <= i,
    ensures
        ({
            let r = crate::reorg::reorg_first_sig(rg, sig, i);
            (i <= r || rg.len() < i) && r <= rg.len() && (r < rg.len() ==> rg[r].tx.sig() == sig)
        }),
    decreases rg.len() - i,
{
    if 0 <= i < rg.len() && rg[i].tx.sig() != sig {
        lemma_reorg_first_sig_hit(rg, sig, i + 1);
    }
}

/// Returning every rolled-back block's transactions preserves the two
/// pools' validity.
pub proof fn lemma_return_blocks_wf(
    un: Seq<EntryModel>,
    rg: Seq<crate::pool::ReorgEntryModel>,
    removed: Seq<Block>,
    n: int,
)
    requires
        pools_wf(un, rg),
    ensures
        ({
            let r = crate::reorg::spec_return_blocks(un, rg, removed, n);
            pools_wf(r.0, r.1)
        }),
    decreases n,
{
    if 0 < n <= removed.len() {
        lemma_return_blocks_wf(un, rg, removed, n - 1);
        let prev = crate::reorg::spec_return_blocks(un, rg, removed, n - 1);
        let b = removed[removed.len() - n];
        lemma_return_txs_wf(prev.0, prev.1, b.txs@, b.txs@.len() as int);
    }
}

/// Publishing blocks in order preserves backward dependencies of the
/// unconfirmed pool.
pub proof fn lemma_publish_blocks_deps_backward(
    un: Seq<EntryModel>,
    rg: Seq<crate::pool::ReorgEntryModel>,
    added: Seq<Block>,
    n: int,
)
    requires
        deps_backward(un),
    ensures
        deps_backward(crate::reorg::spec_publish_blocks(un, rg, added, n).0),
    decreases n,
{
    if n > 0 {
        lemma_publish_blocks_deps_backward(un, rg, added, n - 1);
        let prev = crate::reorg::spec_publish_blocks(un, rg, added, n - 1);
        let b = added[n - 1];
        lemma_deps_backward_filter(prev.0, |e: EntryModel| !b.confirms_sig(e.tx.sig()));
    }
}

/// LAW (invariant, reorganisations): processing a reorganisation of a
/// valid pool keeps the unconfirmed pool's dependency lists pointing
/// backwards.
pub proof fn lemma_reorg_preserves_deps_backward(
    pm: PoolModel,
    cfg: MempoolConfig,
    chain: ChainState,
    removed: Seq<Block>,
    added: Seq<Block>,
)
    requires
        pools_wf(pm.unconfirmed, pm.reorg),
    ensures
        deps_backward(spec_process_reorg(pm, cfg, chain, removed, added).unconfirmed),
{
    lemma_return_blocks_wf(pm.unconfirmed, pm.reorg, removed, removed.len() as int);
    let returned = crate::reorg::spec_return_blocks(
        pm.unconfirmed,
        pm.reorg,
        removed,
        removed.len() as int,
    );
    lemma_publish_blocks_deps_backward(returned.0, returned.1, added, added.len() as int);
    let published = crate::reorg::spec_publish_blocks(
        returned.0,
        returned.1,
        added,
        added.len() as int,
    );
    lemma_sweep_deps_backward(chain, published.0);
    lemma_evict_all_deps_backward(
        spec_sweep(chain, published.0),
        cfg.unconfirmed_weight_cap,
    );
}

/// LAW: a reorganisation that removes nothing and adds one block is exactly
/// the processing of that published block, whenever the block leaves the
/// pool within its weight cap (a published block only shrinks the pool, so
/// a pool within its cap stays within it).
pub proof fn lemma_pure_append_reorg(
    pm: PoolModel,
    cfg: MempoolConfig,
    chain: ChainState,
    block: Block,
)
    requires
        ({
            let published = crate::reorg::spec_publish_block(pm.unconfirmed, pm.reorg, block);
            total_weight(spec_sweep(chain, published.0)) <= cfg.unconfirmed_weight_cap
        }),
        chain.tip_height == block.height,
    ensures
        spec_process_reorg(pm, cfg, chain, Seq::empty(), seq![block]) == spec_process_published_block(
            pm,
            cfg,
            chain,
            block,
        ),
{
    let returned = crate::reorg::spec_return_blocks(pm.unconfirmed, pm.reorg, Seq::empty(), 0);
    assert(returned == (pm.unconfirmed, pm.reorg));
    let added = seq![block];
    let published = crate::reorg::spec_publish_blocks(pm.unconfirmed, pm.reorg, added, 1);
    assert(crate::reorg::spec_publish_blocks(pm.unconfirmed, pm.reorg, added, 0) == (
        pm.unconfirmed,
        pm.reorg,
    ));
    assert(added[0] == block);
    assert(published == crate::reorg::spec_publish_block(pm.unconfirmed, pm.reorg, block));
}

/// Every feeder's signature appears in the computed dependency list.
pub proof fn lemma_dep_sigs_complete(s: Seq<EntryModel>, tx: TxModel, i: int)
    requires
        0 <= i < s.len(),
        feeds(s[i].tx, tx),
    ensures
        dep_sigs(s, tx).contains(s[i].tx.sig()),
    decreases s.len(),
{
    if i == s.len() - 1 {
        assert(dep_sigs(s, tx).last() == s[i].tx.sig());
    } else {
        lemma_dep_sigs_complete(s.drop_last(), tx, i);
        let prev = dep_sigs(s.drop_last(), tx);
        let w = choose|w: int| 0 <= w < prev.len() && prev[w] == s.drop_last()[i].tx.sig();
        if feeds(s.last().tx, tx) {
            assert(dep_sigs(s, tx)[w] == prev[w]);
        } else {
            assert(dep_sigs(s, tx)[w] == prev[w]);
        }
    }
}

/// Every signature in the computed dependency list belongs to a feeder in
/// the pool.
pub proof fn lemma_dep_sigs_members(s: Seq<EntryModel>, tx: TxModel)
    ensures
        forall|d: u64|
            dep_sigs(s, tx).contains(d) ==> exists|w: int|
                0 <= w < s.len() && s[w].tx.sig() == d && feeds(#[trigger] s[w].tx, tx),
    decreases s.len(),
{
    if s.len() > 0 {
        lemma_dep_sigs_members(s.drop_last(), tx);
        assert forall|d: u64| dep_sigs(s, tx).contains(d) implies exists|w: int|
            0 <= w < s.len() && s[w].tx.sig() == d && feeds(#[trigger] s[w].tx, tx) by {
            let prev = dep_sigs(s.drop_last(), tx);
            if feeds(s.last().tx, tx) {
                let k = choose|k: int| 0 <= k < dep_sigs(s, tx).len() && dep_sigs(s, tx)[k] == d;
                if k == dep_sigs(s, tx).len() - 1 {
                    assert(s[s.len() - 1].tx.sig() == d && feeds(s[s.len() - 1].tx, tx));
                } else {
                    assert(prev[k] == d);
                    assert(prev.contains(d));
                    let w = choose|w: int|
                        0 <= w < s.drop_last().len() && s.drop_last()[w].tx.sig() == d && feeds(
                            s.drop_last()[w].tx,
                            tx,
                        );
                    assert(s[w] == s.drop_last()[w]);
                }
            } else {
                assert(prev.contains(d));
                let w = choose|w: int|
                    0 <= w < s.drop_last().len() && s.drop_last()[w].tx.sig() == d && feeds(
                        s.drop_last()[w].tx,
                        tx,
                    );
                assert(s[w] == s.drop_last()[w]);
            }
        }
    }
}

} // verus!
