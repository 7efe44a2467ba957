//! Entries of the two sub-pools and the predicates shared by every pool
//! operation.
//!
//! The unconfirmed pool is a sequence of entries in insertion order; an
//! entry carries its transaction, the fee-per-gram priority, and the excess
//! signatures of the in-pool parents whose outputs it spends. The reorg pool
//! holds recently confirmed transactions tagged with the height of the block
//! that confirmed them.

use vstd::prelude::*;
use crate::chain::ChainState;
use crate::tx::{Transaction, TxModel};

verus! {

/// An unconfirmed-pool entry.
#[derive(Debug, Clone)]
pub struct Entry {
    /// The transaction held by this entry.
    pub tx: Transaction,
    /// Fee divided by weight, rounded down; fixed at insertion.
    pub fee_per_gram: u64,
    /// Excess signatures of the unconfirmed parents whose outputs this
    /// transaction spends.
    pub dependencies: Vec<u64>,
}

/// The mathematical value of an unconfirmed-pool entry.
pub ghost struct EntryModel {
    /// The transaction held by this entry.
    pub tx: TxModel,
    /// Fee divided by weight, rounded down.
    pub fee_per_gram: u64,
    /// Excess signatures of in-pool parents.
    pub dependencies: Seq<u64>,
}

impl View for Entry {
    type V = EntryModel;

    open spec fn view(&self) -> EntryModel {
        EntryModel {
            tx: self.tx@,
            fee_per_gram: self.fee_per_gram,
            dependencies: self.dependencies@,
        }
    }
}

/// A reorg-pool entry: a recently confirmed transaction and the height of
/// the block that confirmed it.
#[derive(Debug, Clone)]
pub struct ReorgEntry {
    /// The confirmed transaction.
    pub tx: Transaction,
    /// Height of the confirming block.
    pub confirmed_height: u64,
}

/// The mathematical value of a reorg-pool entry.
pub ghost struct ReorgEntryModel {
    /// The confirmed transaction.
    pub tx: TxModel,
    /// Height of the confirming block.
    pub confirmed_height: u64,
}

impl View for ReorgEntry {
    type V = ReorgEntryModel;

    open spec fn view(&self) -> ReorgEntryModel {
        ReorgEntryModel { tx: self.tx@, confirmed_height: self.confirmed_height }
    }
}

/// The mathematical values of a vector of reorg entries, in order.
pub open spec fn reorg_models_of(entries: Seq<ReorgEntry>) -> Seq<ReorgEntryModel> {
    entries.map_values(|e: ReorgEntry| e@)
}

/// The mathematical values of a vector of entries, in the same order.
pub open spec fn models_of(entries: Seq<Entry>) -> Seq<EntryModel> {
    entries.map_values(|e: Entry| e@)
}

/// Whether the unconfirmed pool holds an entry with this excess signature.
pub open spec fn unconf_has_sig(s: Seq<EntryModel>, sig: u64) -> bool {
    exists|i: int| 0 <= i < s.len() && s[i].tx.sig() == sig
}

/// Whether the reorg pool holds an entry with this excess signature.
pub open spec fn reorg_has_sig(s: Seq<ReorgEntryModel>, sig: u64) -> bool {
    exists|i: int| 0 <= i < s.len() && s[i].tx.sig() == sig
}

/// Whether entry `e` creates an output with this commitment that is
/// spendable at tip height `tip`.
pub open spec fn entry_has_mature_output(e: EntryModel, commitment: u64, tip: u64) -> bool {
    exists|k: int|
        0 <= k < e.tx.outputs.len() && e.tx.outputs[k].commitment == commitment
            && e.tx.outputs[k].maturity <= tip
}

/// Whether some pool entry creates an output with this commitment.
pub open spec fn pool_has_output(s: Seq<EntryModel>, commitment: u64) -> bool {
    exists|i: int| 0 <= i < s.len() && s[i].tx.has_output(commitment)
}

/// Whether some pool entry creates an output with this commitment that is
/// spendable at tip height `tip`.
pub open spec fn pool_has_mature_output(s: Seq<EntryModel>, commitment: u64, tip: u64) -> bool {
    exists|i: int| 0 <= i < s.len() && entry_has_mature_output(s[i], commitment, tip)
}

/// Whether `parent` creates an output that `child` spends.
pub open spec fn feeds(parent: TxModel, child: TxModel) -> bool {
    exists|j: int| 0 <= j < child.inputs.len() && parent.has_output(child.inputs[j])
}

/// The excess signatures, in pool order, of the entries whose outputs `tx`
/// spends: the dependency list recorded for a newly inserted transaction.
pub open spec fn dep_sigs(s: Seq<EntryModel>, tx: TxModel) -> Seq<u64>
    decreases s.len(),
{
    if s.len() == 0 {
        Seq::empty()
    } else if feeds(s.last().tx, tx) {
        dep_sigs(s.drop_last(), tx).push(s.last().tx.sig())
    } else {
        dep_sigs(s.drop_last(), tx)
    }
}

/// Whether the input commitment `c` of an entry with dependency list `deps`
/// is satisfiable: either a mature unspent chain output, or a mature output
/// of a pool entry recorded as a dependency.
pub open spec fn input_satisfied(
    chain: ChainState,
    s: Seq<EntryModel>,
    deps: Seq<u64>,
    c: u64,
) -> bool {
    chain.has_mature_utxo(c) || exists|i: int|
        0 <= i < s.len() && deps.contains(s[i].tx.sig()) && entry_has_mature_output(
            s[i],
            c,
            chain.tip_height,
        )
}

/// Whether an entry is valid against the chain and the pool around it: its
/// kernel lock-height allows mining in the next block, and each of its
/// inputs is satisfiable.
pub open spec fn entry_ok(chain: ChainState, s: Seq<EntryModel>, e: EntryModel) -> bool {
    &&& e.tx.kernel.lock_height <= chain.tip_height + 1
    &&& forall|j: int|
        0 <= j < e.tx.inputs.len() ==> input_satisfied(chain, s, e.dependencies, e.tx.inputs[j])
}

/// Whether every entry of the unconfirmed pool is valid against the chain.
pub open spec fn pool_ok(chain: ChainState, s: Seq<EntryModel>) -> bool {
    forall|i: int| 0 <= i < s.len() ==> entry_ok(chain, s, #[trigger] s[i])
}

/// Total weight of the unconfirmed pool.
pub open spec fn total_weight(s: Seq<EntryModel>) -> int
    decreases s.len(),
{
    if s.len() == 0 {
        0
    } else {
        total_weight(s.drop_last()) + s.last().tx.weight
    }
}

/// Whether some entry of the pool records `sig` as a dependency.
pub open spec fn has_dependent(s: Seq<EntryModel>, sig: u64) -> bool {
    exists|i: int| 0 <= i < s.len() && s[i].dependencies.contains(sig)
}

/// The total weight of a pool is bounded by its length times the largest
/// weight a single transaction can carry.
pub proof fn lemma_total_weight_bound(s: Seq<EntryModel>)
    ensures
        0 <= total_weight(s) <= s.len() * (u64::MAX as int),
    decreases s.len(),
{
    if s.len() == 0 {
    } else {
        lemma_total_weight_bound(s.drop_last());
        assert((s.len() - 1) * (u64::MAX as int) + (u64::MAX as int) == s.len() * (
        u64::MAX as int)) by (nonlinear_arith);
    }
}

/// Looks an excess signature up in the unconfirmed pool.
pub fn find_sig_in_unconfirmed(entries: &Vec<Entry>, sig: u64) -> (r: Option<usize>)
    ensures
        match r {
            Some(i) => 0 <= i < entries@.len() && entries@[i as int]@.tx.sig() == sig,
            None => !unconf_has_sig(models_of(entries@), sig),
        },
{
    let mut i: usize = 0;
    while i < entries.len()
        invariant
            0 <= i <= entries@.len(),
            forall|j: int| 0 <= j < i ==> entries@[j]@.tx.sig() != sig,
        decreases entries@.len() - i,
    {
        if entries[i].tx.kernel.excess_sig == sig {
            return Some(i);
        }
        i += 1;
    }
    assert forall|j: int| 0 <= j < models_of(entries@).len() implies models_of(entries@)[j].tx.sig()
        != sig by {
        assert(models_of(entries@)[j] == entries@[j]@);
    }
    None
}

/// Looks an excess signature up in the reorg pool.
pub fn find_sig_in_reorg(entries: &Vec<ReorgEntry>, sig: u64) -> (r: Option<usize>)
    ensures
        match r {
            Some(i) => 0 <= i < entries@.len() && entries@[i as int]@.tx.sig() == sig
                && forall|j: int| 0 <= j < i ==> entries@[j]@.tx.sig() != sig,
            None => !reorg_has_sig(reorg_models_of(entries@), sig),
        },
{
    let mut i: usize = 0;
    while i < entries.len()
        invariant
            0 <= i <= entries@.len(),
            forall|j: int| 0 <= j < i ==> entries@[j]@.tx.sig() != sig,
        decreases entries@.len() - i,
    {
        if entries[i].tx.kernel.excess_sig == sig {
            return Some(i);
        }
        i += 1;
    }
    assert forall|j: int| 0 <= j < reorg_models_of(entries@).len() implies reorg_models_of(
        entries@,
    )[j].tx.sig() != sig by {
        assert(reorg_models_of(entries@)[j] == entries@[j]@);
    }
    None
}

/// Reports whether some pool entry creates an output with the commitment.
pub fn pool_output_any(entries: &Vec<Entry>, commitment: u64) -> (r: bool)
    ensures
        r == pool_has_output(models_of(entries@), commitment),
{
    let ghost s = models_of(entries@);
    let mut i: usize = 0;
    while i < entries.len()
        invariant
            0 <= i <= entries@.len(),
            s == models_of(entries@),
            forall|a: int| 0 <= a < i ==> !s[a].tx.has_output(commitment),
        decreases entries@.len() - i,
    {
        assert(s[i as int] == entries@[i as int]@);
        if entries[i].tx.contains_output(commitment) {
            return true;
        }
        i += 1;
    }
    false
}

/// Reports whether some pool entry creates an output with the commitment
/// that is spendable at tip height `tip`.
pub fn pool_output_mature(entries: &Vec<Entry>, commitment: u64, tip: u64) -> (r: bool)
    ensures
        r == pool_has_mature_output(models_of(entries@), commitment, tip),
{
    let ghost s = models_of(entries@);
    let mut i: usize = 0;
    while i < entries.len()
        invariant
            0 <= i <= entries@.len(),
            s == models_of(entries@),
            forall|a: int| 0 <= a < i ==> !entry_has_mature_output(s[a], commitment, tip),
        decreases entries@.len() - i,
    {
        assert(s[i as int] == entries@[i as int]@);
        let tx = &entries[i].tx;
        let mut k: usize = 0;
        while k < tx.outputs.len()
            invariant
                0 <= k <= tx.outputs@.len(),
                0 <= i < entries@.len(),
                s == models_of(entries@),
                *tx == entries@[i as int].tx,
                forall|b: int|
                    0 <= b < k ==> !(tx.outputs@[b].commitment == commitment
                        && tx.outputs@[b].maturity <= tip),
            decreases tx.outputs@.len() - k,
        {
            if tx.outputs[k].commitment == commitment && tx.outputs[k].maturity <= tip {
                proof {
                    assert(s[i as int] == entries@[i as int]@);
                    assert(s[i as int].tx.outputs[k as int].commitment == commitment);
                    assert(entry_has_mature_output(s[i as int], commitment, tip));
                }
                return true;
            }
            k += 1;
        }
        assert(!entry_has_mature_output(s[i as int], commitment, tip));
        i += 1;
    }
    false
}

/// Computes the dependency list of a new transaction: the signatures, in
/// pool order, of the entries whose outputs it spends.
pub fn compute_dep_sigs(entries: &Vec<Entry>, tx: &Transaction) -> (r: Vec<u64>)
    ensures
        r@ == dep_sigs(models_of(entries@), tx@),
{
    let ghost s = models_of(entries@);
    let mut deps: Vec<u64> = Vec::new();
    let mut i: usize = 0;
    while i < entries.len()
        invariant
            0 <= i <= entries@.len(),
            s == models_of(entries@),
            deps@ == dep_sigs(s.take(i as int), tx@),
        decreases entries@.len() - i,
    {
        let parent = &entries[i].tx;
        let mut found: bool = false;
        let mut j: usize = 0;
        while j < tx.inputs.len()
            invariant
                0 <= j <= tx.inputs@.len(),
                0 <= i < entries@.len(),
                *parent == entries@[i as int].tx,
                found == exists|b: int| 0 <= b < j && parent@.has_output(tx.inputs@[b]),
            decreases tx.inputs@.len() - j,
        {
            if parent.contains_output(tx.inputs[j]) {
                found = true;
            }
            j += 1;
        }
        proof {
            let parent_m = entries@[i as int]@.tx;
            assert(found == feeds(parent_m, tx@)) by {
                if found {
                    let b = choose|b: int| 0 <= b < tx.inputs@.len() && parent@.has_output(
                        tx.inputs@[b],
                    );
                    assert(0 <= b < tx@.inputs.len() && parent_m.has_output(tx@.inputs[b]));
                }
                if feeds(parent_m, tx@) {
                    let b = choose|b: int|
                        0 <= b < tx@.inputs.len() && parent_m.has_output(tx@.inputs[b]);
                    assert(0 <= b < tx.inputs@.len() && parent@.has_output(tx.inputs@[b]));
                }
            }
        }
        if found {
            deps.push(entries[i].tx.kernel.excess_sig);
        }
        proof {
            assert(s.take(i + 1).drop_last() =~= s.take(i as int));
            assert(s.take(i + 1).last() == s[i as int]);
            assert(s[i as int] == entries@[i as int]@);
        }
        i += 1;
    }
    assert(s.take(s.len() as int) =~= s);
    deps
}

/// Reports whether an input commitment is satisfiable for an entry with the
/// given dependency list.
pub fn check_input_satisfied(
    chain: &ChainState,
    entries: &Vec<Entry>,
    deps: &Vec<u64>,
    c: u64,
) -> (r: bool)
    ensures
        r == input_satisfied(*chain, models_of(entries@), deps@, c),
{
    if chain.find_mature_utxo(c) {
        return true;
    }
    let ghost s = models_of(entries@);
    let mut i: usize = 0;
    while i < entries.len()
        invariant
            0 <= i <= entries@.len(),
            s == models_of(entries@),
            forall|a: int|
                0 <= a < i ==> !(deps@.contains(s[a].tx.sig()) && entry_has_mature_output(
                    s[a],
                    c,
                    chain.tip_height,
                )),
        decreases entries@.len() - i,
    {
        assert(s[i as int] == entries@[i as int]@);
        let e = &entries[i];
        let mut sig_listed: bool = false;
        let mut j: usize = 0;
        while j < deps.len()
            invariant
                0 <= j <= deps@.len(),
                0 <= i < entries@.len(),
                *e == entries@[i as int],
                sig_listed == exists|b: int| 0 <= b < j && deps@[b] == e.tx.kernel.excess_sig,
            decreases deps@.len() - j,
        {
            if deps[j] == e.tx.kernel.excess_sig {
                sig_listed = true;
            }
            j += 1;
        }
        assert(sig_listed == deps@.contains(e.tx.kernel.excess_sig));
        if sig_listed {
            let mut k: usize = 0;
            while k < e.tx.outputs.len()
                invariant
                    0 <= k <= e.tx.outputs@.len(),
                    0 <= i < entries@.len(),
                    s == models_of(entries@),
                    *e == entries@[i as int],
                    deps@.contains(e.tx.kernel.excess_sig),
                    forall|b: int|
                        0 <= b < k ==> !(e.tx.outputs@[b].commitment == c
                            && e.tx.outputs@[b].maturity <= chain.tip_height),
                decreases e.tx.outputs@.len() - k,
            {
                if e.tx.outputs[k].commitment == c && e.tx.outputs[k].maturity <= chain.tip_height {
                    proof {
                        assert(s[i as int] == entries@[i as int]@);
                        assert(s[i as int].tx.outputs[k as int].commitment == c);
                        assert(entry_has_mature_output(s[i as int], c, chain.tip_height));
                        assert(deps@.contains(s[i as int].tx.sig()));
                    }
                    return true;
                }
                k += 1;
            }
        }
        assert(!(deps@.contains(s[i as int].tx.sig()) && entry_has_mature_output(
            s[i as int],
            c,
            chain.tip_height,
        )));
        i += 1;
    }
    false
}

/// Reports whether an entry is valid against the chain and the pool.
pub fn check_entry_ok(chain: &ChainState, entries: &Vec<Entry>, e: &Entry) -> (r: bool)
    ensures
        r == entry_ok(*chain, models_of(entries@), e@),
{
    if e.tx.kernel.lock_height > chain.tip_height {
        if e.tx.kernel.lock_height - chain.tip_height > 1 {
            return false;
        }
    }
    let mut j: usize = 0;
    while j < e.tx.inputs.len()
        invariant
            0 <= j <= e.tx.inputs@.len(),
            e.tx.kernel.lock_height <= chain.tip_height + 1,
            forall|b: int|
                0 <= b < j ==> input_satisfied(
                    *chain,
                    models_of(entries@),
                    e@.dependencies,
                    e.tx.inputs@[b],
                ),
        decreases e.tx.inputs@.len() - j,
    {
        if !check_input_satisfied(chain, entries, &e.dependencies, e.tx.inputs[j]) {
            proof {
                assert(!entry_ok(*chain, models_of(entries@), e@)) by {
                    assert(0 <= j < e@.tx.inputs.len() && !input_satisfied(
                        *chain,
                        models_of(entries@),
                        e@.dependencies,
                        e@.tx.inputs[j as int],
                    ));
                }
            }
            return false;
        }
        j += 1;
    }
    true
}

/// Reports whether some entry of the pool records `sig` as a dependency.
pub fn find_dependent(entries: &Vec<Entry>, sig: u64) -> (r: bool)
    ensures
        r == has_dependent(models_of(entries@), sig),
{
    let ghost s = models_of(entries@);
    let mut i: usize = 0;
    while i < entries.len()
        invariant
            0 <= i <= entries@.len(),
            s == models_of(entries@),
            forall|a: int| 0 <= a < i ==> !s[a].dependencies.contains(sig),
        decreases entries@.len() - i,
    {
        assert(s[i as int] == entries@[i as int]@);
        let e = &entries[i];
        let mut j: usize = 0;
        while j < e.dependencies.len()
            invariant
                0 <= j <= e.dependencies@.len(),
                0 <= i < entries@.len(),
                s == models_of(entries@),
                *e == entries@[i as int],
                forall|b: int| 0 <= b < j ==> e.dependencies@[b] != sig,
            decreases e.dependencies@.len() - j,
        {
            if e.dependencies[j] == sig {
                proof {
                    assert(s[i as int] == entries@[i as int]@);
                    assert(s[i as int].dependencies[j as int] == sig);
                    assert(s[i as int].dependencies.contains(sig));
                }
                return true;
            }
            j += 1;
        }
        assert(!s[i as int].dependencies.contains(sig));
        i += 1;
    }
    false
}

/// Sums the weights of the pool's transactions.
pub fn sum_weights(entries: &Vec<Entry>) -> (r: u128)
    ensures
        r == total_weight(models_of(entries@)),
{
    let ghost s = models_of(entries@);
    let n = entries.len();
    proof {
        lemma_total_weight_bound(s);
        assert(s.len() == n);
        assert((s.len() as int) * (u64::MAX as int) <= (usize::MAX as int) * (u64::MAX as int))
            by (nonlinear_arith)
            requires
                0 <= s.len() <= usize::MAX,
        ;
        assert((usize::MAX as int) * (u64::MAX as int) < u128::MAX);
    }
    let mut sum: u128 = 0;
    let mut i: usize = 0;
    while i < entries.len()
        invariant
            0 <= i <= entries@.len(),
            s == models_of(entries@),
            sum == total_weight(s.take(i as int)),
            total_weight(s) <= (s.len() as int) * (u64::MAX as int) < u128::MAX,
        decreases entries@.len() - i,
    {
        proof {
            assert(s.take(i + 1).drop_last() =~= s.take(i as int));
            assert(s.take(i + 1).last() == s[i as int]);
            assert(s[i as int] == entries@[i as int]@);
            lemma_total_weight_prefix_bound(s, i + 1);
            lemma_total_weight_bound(s.take(i + 1));
        }
        sum = sum + entries[i].tx.weight as u128;
        i += 1;
    }
    assert(s.take(s.len() as int) =~= s);
    sum
}

/// The weight of a prefix never exceeds the weight of the whole pool.
pub proof fn lemma_total_weight_prefix_bound(s: Seq<EntryModel>, n: int)
    requires
        0 <= n <= s.len(),
    ensures
        total_weight(s.take(n)) <= total_weight(s),
    decreases s.len() - n,
{
    if n == s.len() {
        assert(s.take(n) =~= s);
    } else {
        lemma_total_weight_prefix_bound(s, n + 1);
        assert(s.take(n + 1).drop_last() =~= s.take(n));
        assert(total_weight(s.take(n + 1)) == total_weight(s.take(n)) + s[n].tx.weight);
    }
}

} // verus!
