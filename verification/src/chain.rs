//! The view of the best chain that the memory pool validates against.
//!
//! The pool never reads the database itself: callers hand each operation a
//! `ChainState`, a plain value holding the tip height, the set of unspent
//! outputs, and the set of commitments already spent on the best chain.
//! Applying a block moves the outputs it spends from the unspent set to the
//! spent set and adds the outputs it creates.

use vstd::prelude::*;
use crate::tx::{Transaction, TxOutput};

verus! {

/// An ordered sequence of transactions below a header carrying the height.
#[derive(Debug, Clone)]
pub struct Block {
    /// Height of this block on its chain.
    pub height: u64,
    /// The transactions the block confirms, in block order.
    pub txs: Vec<Transaction>,
}

impl Block {
    /// Whether some transaction of this block spends the commitment.
    pub open spec fn spends(&self, commitment: u64) -> bool {
        exists|i: int, j: int|
            0 <= i < self.txs@.len() && 0 <= j < self.txs@[i].inputs@.len()
                && self.txs@[i].inputs@[j] == commitment
    }

    /// Whether some transaction of this block carries the excess signature.
    pub open spec fn confirms_sig(&self, sig: u64) -> bool {
        exists|i: int| 0 <= i < self.txs@.len() && self.txs@[i]@.sig() == sig
    }

    /// Reports whether some transaction of this block spends the commitment.
    pub fn spends_commitment(&self, commitment: u64) -> (r: bool)
        ensures
            r == self.spends(commitment),
    {
        let mut i: usize = 0;
        while i < self.txs.len()
            invariant
                0 <= i <= self.txs@.len(),
                forall|a: int, b: int|
                    0 <= a < i && 0 <= b < self.txs@[a].inputs@.len()
                        ==> self.txs@[a].inputs@[b] != commitment,
            decreases self.txs@.len() - i,
        {
            let tx = &self.txs[i];
            let mut j: usize = 0;
            while j < tx.inputs.len()
                invariant
                    0 <= j <= tx.inputs@.len(),
                    0 <= i < self.txs@.len(),
                    *tx == self.txs@[i as int],
                    forall|b: int| 0 <= b < j ==> tx.inputs@[b] != commitment,
                decreases tx.inputs@.len() - j,
            {
                if tx.inputs[j] == commitment {
                    assert(self.txs@[i as int].inputs@[j as int] == commitment);
                    return true;
                }
                j += 1;
            }
            i += 1;
        }
        false
    }

    /// Makes a copy of this block whose transactions have the same
    /// mathematical values.
    pub fn duplicate(&self) -> (r: Block)
        ensures
            r.height == self.height,
            r.txs@.map_values(|t: Transaction| t@) =~= self.txs@.map_values(
                |t: Transaction| t@,
            ),
    {
        let mut txs: Vec<Transaction> = Vec::new();
        let mut i: usize = 0;
        while i < self.txs.len()
            invariant
                0 <= i <= self.txs@.len(),
                txs@.map_values(|t: Transaction| t@) =~= self.txs@.take(i as int).map_values(
                    |t: Transaction| t@,
                ),
            decreases self.txs@.len() - i,
        {
            let ghost prev = txs@;
            let dup = self.txs[i].duplicate();
            txs.push(dup);
            proof {
                let f = |t: Transaction| t@;
                assert(txs@ == prev.push(dup));
                assert(prev.len() == i as int) by {
                    assert(prev.map_values(f).len() == prev.len());
                    assert(self.txs@.take(i as int).map_values(f).len() == i as int);
                }
                assert forall|a: int| 0 <= a < i + 1 implies txs@.map_values(f)[a]
                    == self.txs@.take(i + 1).map_values(f)[a] by {
                    if a < i {
                        assert(prev.map_values(f)[a] == self.txs@.take(i as int).map_values(f)[a]);
                        assert(txs@[a] == prev[a]);
                    } else {
                        assert(txs@[a] == dup);
                    }
                }
                assert(txs@.map_values(f) =~= self.txs@.take(i + 1).map_values(f));
            }
            i += 1;
        }
        assert(self.txs@.take(self.txs@.len() as int) =~= self.txs@);
        Block { height: self.height, txs }
    }

    /// Reports whether some transaction of this block carries the signature.
    pub fn contains_sig(&self, sig: u64) -> (r: bool)
        ensures
            r == self.confirms_sig(sig),
    {
        let mut i: usize = 0;
        while i < self.txs.len()
            invariant
                0 <= i <= self.txs@.len(),
                forall|a: int| 0 <= a < i ==> self.txs@[a]@.sig() != sig,
            decreases self.txs@.len() - i,
        {
            if self.txs[i].kernel.excess_sig == sig {
                return true;
            }
            i += 1;
        }
        false
    }
}

/// The chain view handed to every pool operation: tip height, unspent
/// outputs, and commitments spent on the best chain.
#[derive(Debug, Clone)]
pub struct ChainState {
    /// Height of the best block.
    pub tip_height: u64,
    /// Outputs confirmed on the best chain and not yet spent.
    pub utxos: Vec<TxOutput>,
    /// Commitments spent by transactions on the best chain.
    pub spent: Vec<u64>,
}

impl ChainState {
    /// Whether the unspent set holds an output with this commitment whose
    /// maturity allows spending it at the current tip.
    pub open spec fn has_mature_utxo(&self, commitment: u64) -> bool {
        exists|k: int|
            0 <= k < self.utxos@.len() && self.utxos@[k].commitment == commitment
                && self.utxos@[k].maturity <= self.tip_height
    }

    /// Whether the unspent set holds an output with this commitment at all.
    pub open spec fn has_utxo(&self, commitment: u64) -> bool {
        exists|k: int| 0 <= k < self.utxos@.len() && self.utxos@[k].commitment == commitment
    }

    /// Whether the commitment was spent on the best chain.
    pub open spec fn is_spent(&self, commitment: u64) -> bool {
        self.spent@.contains(commitment)
    }

    /// The unspent set after a block: outputs it spends are removed, outputs
    /// it creates are appended in block order.
    pub open spec fn utxos_after(&self, block: Block) -> Seq<TxOutput> {
        self.utxos@.filter(|o: TxOutput| !block.spends(o.commitment)) + block_outputs(block)
    }

    /// The spent set after a block: every commitment it spends is appended.
    pub open spec fn spent_after(&self, block: Block) -> Seq<u64> {
        self.spent@ + block_inputs(block)
    }

    /// An empty chain: no blocks, nothing spent, tip at height zero.
    pub fn new() -> (r: ChainState)
        ensures
            r.tip_height == 0,
            r.utxos@ =~= Seq::<TxOutput>::empty(),
            r.spent@ =~= Seq::<u64>::empty(),
    {
        ChainState { tip_height: 0, utxos: Vec::new(), spent: Vec::new() }
    }

    /// Makes a copy of this chain view with the same mathematical value.
    pub fn duplicate(&self) -> (r: ChainState)
        ensures
            r.tip_height == self.tip_height,
            r.utxos@ =~= self.utxos@,
            r.spent@ =~= self.spent@,
    {
        let utxos = self.utxos.clone();
        let spent = self.spent.clone();
        proof {
            assert(utxos@ =~= self.utxos@);
            assert(spent@ =~= self.spent@);
        }
        ChainState { tip_height: self.tip_height, utxos, spent }
    }

    /// Reports whether the commitment is an unspent chain output mature at
    /// the current tip.
    pub fn find_mature_utxo(&self, commitment: u64) -> (r: bool)
        ensures
            r == self.has_mature_utxo(commitment),
    {
        let mut k: usize = 0;
        while k < self.utxos.len()
            invariant
                0 <= k <= self.utxos@.len(),
                forall|j: int|
                    0 <= j < k ==> !(self.utxos@[j].commitment == commitment
                        && self.utxos@[j].maturity <= self.tip_height),
            decreases self.utxos@.len() - k,
        {
            let o = &self.utxos[k];
            if o.commitment == commitment && o.maturity <= self.tip_height {
                return true;
            }
            k += 1;
        }
        false
    }

    /// Reports whether the unspent set holds the commitment, mature or not.
    pub fn find_utxo(&self, commitment: u64) -> (r: bool)
        ensures
            r == self.has_utxo(commitment),
    {
        let mut k: usize = 0;
        while k < self.utxos.len()
            invariant
                0 <= k <= self.utxos@.len(),
                forall|j: int| 0 <= j < k ==> self.utxos@[j].commitment != commitment,
            decreases self.utxos@.len() - k,
        {
            if self.utxos[k].commitment == commitment {
                return true;
            }
            k += 1;
        }
        false
    }

    /// Reports whether the commitment was spent on the best chain.
    pub fn find_spent(&self, commitment: u64) -> (r: bool)
        ensures
            r == self.is_spent(commitment),
    {
        let mut k: usize = 0;
        while k < self.spent.len()
            invariant
                0 <= k <= self.spent@.len(),
                forall|j: int| 0 <= j < k ==> self.spent@[j] != commitment,
            decreases self.spent@.len() - k,
        {
            if self.spent[k] == commitment {
                return true;
            }
            k += 1;
        }
        assert(!self.spent@.contains(commitment));
        false
    }

    /// Applies a block on top of the current tip: outputs it spends leave
    /// the unspent set, its own outputs join it, and the tip advances to the
    /// block's height.
    pub fn apply_block(&mut self, block: &Block)
        requires
            block.height == old(self).tip_height + 1,
        ensures
            final(self).tip_height == block.height,
            final(self).utxos@ =~= old(self).utxos_after(*block),
            final(self).spent@ =~= old(self).spent_after(*block),
    {
        let ghost orig = *self;
        let mut kept: Vec<TxOutput> = Vec::new();
        let mut k: usize = 0;
        while k < self.utxos.len()
            invariant
                0 <= k <= self.utxos@.len(),
                *self == orig,
                kept@ =~= orig.utxos@.take(k as int).filter(
                    |o: TxOutput| !block.spends(o.commitment),
                ),
            decreases self.utxos@.len() - k,
        {
            let o = self.utxos[k];
            if !block.spends_commitment(o.commitment) {
                kept.push(o);
            }
            assert(orig.utxos@.take(k + 1 as int).drop_last() =~= orig.utxos@.take(k as int));
            reveal(Seq::filter);
            k += 1;
        }
        assert(orig.utxos@.take(orig.utxos@.len() as int) =~= orig.utxos@);

        let mut i: usize = 0;
        while i < block.txs.len()
            invariant
                0 <= i <= block.txs@.len(),
                *self == orig,
                kept@ =~= orig.utxos@.filter(|o: TxOutput| !block.spends(o.commitment))
                    + outputs_upto(*block, i as int),
            decreases block.txs@.len() - i,
        {
            let tx = &block.txs[i];
            let mut j: usize = 0;
            while j < tx.outputs.len()
                invariant
                    0 <= j <= tx.outputs@.len(),
                    0 <= i < block.txs@.len(),
                    *self == orig,
                    tx == block.txs@[i as int],
                    kept@ =~= orig.utxos@.filter(|o: TxOutput| !block.spends(o.commitment))
                        + outputs_upto(*block, i as int) + tx.outputs@.take(j as int),
                decreases tx.outputs@.len() - j,
            {
                kept.push(tx.outputs[j]);
                assert(tx.outputs@.take(j + 1 as int) =~= tx.outputs@.take(j as int).push(
                    tx.outputs@[j as int],
                ));
                j += 1;
            }
            assert(tx.outputs@.take(tx.outputs@.len() as int) =~= tx.outputs@);
            assert(outputs_upto(*block, i + 1 as int) =~= outputs_upto(*block, i as int)
                + block.txs@[i as int].outputs@);
            i += 1;
        }
        assert(outputs_upto(*block, block.txs@.len() as int) =~= block_outputs(*block));
        self.utxos = kept;

        let mut i: usize = 0;
        while i < block.txs.len()
            invariant
                0 <= i <= block.txs@.len(),
                self.spent@ =~= orig.spent@ + inputs_upto(*block, i as int),
                self.utxos == kept,
                self.tip_height == orig.tip_height,
            decreases block.txs@.len() - i,
        {
            let tx = &block.txs[i];
            let mut j: usize = 0;
            while j < tx.inputs.len()
                invariant
                    0 <= j <= tx.inputs@.len(),
                    0 <= i < block.txs@.len(),
                    tx == block.txs@[i as int],
                    self.spent@ =~= orig.spent@ + inputs_upto(*block, i as int)
                        + tx.inputs@.take(j as int),
                    self.utxos == kept,
                    self.tip_height == orig.tip_height,
                decreases tx.inputs@.len() - j,
            {
                let c = tx.inputs[j];
                self.spent.push(c);
                assert(tx.inputs@.take(j + 1 as int) =~= tx.inputs@.take(j as int).push(
                    tx.inputs@[j as int],
                ));
                j += 1;
            }
            assert(tx.inputs@.take(tx.inputs@.len() as int) =~= tx.inputs@);
            assert(inputs_upto(*block, i + 1 as int) =~= inputs_upto(*block, i as int)
                + block.txs@[i as int].inputs@);
            i += 1;
        }
        assert(inputs_upto(*block, block.txs@.len() as int) =~= block_inputs(*block));

        self.tip_height = block.height;
    }
}

/// All outputs created by the first `n` transactions of the block, in order.
pub open spec fn outputs_upto(block: Block, n: int) -> Seq<TxOutput>
    decreases n,
{
    if n <= 0 {
        Seq::empty()
    } else {
        outputs_upto(block, n - 1) + block.txs@[n - 1].outputs@
    }
}

/// All outputs created by the block, in block order.
pub open spec fn block_outputs(block: Block) -> Seq<TxOutput> {
    outputs_upto(block, block.txs@.len() as int)
}

/// All commitments spent by the first `n` transactions of the block.
pub open spec fn inputs_upto(block: Block, n: int) -> Seq<u64>
    decreases n,
{
    if n <= 0 {
        Seq::empty()
    } else {
        inputs_upto(block, n - 1) + block.txs@[n - 1].inputs@
    }
}

/// All commitments spent by the block, in block order.
pub open spec fn block_inputs(block: Block) -> Seq<u64> {
    inputs_upto(block, block.txs@.len() as int)
}

} // verus!
