//! The transaction data model used by the memory pool.
//!
//! A transaction is a bundle of inputs, outputs and one kernel. Inputs refer
//! to outputs by commitment; the kernel carries the fee, an absolute
//! lock-height and the excess signature that identifies the transaction
//! chain-wide and serves as the pool's primary key. The serialised weight is
//! carried as a plain integer; the fee-per-gram priority is the fee divided
//! by the weight, rounded down.

use vstd::prelude::*;

verus! {

/// A transaction output: a commitment, plus the absolute block height before
/// which the output may not be spent.
#[derive(Debug, Clone, Copy, PartialEq, Eq, Structural)]
pub struct TxOutput {
    /// The commitment identifying this output chain-wide.
    pub commitment: u64,
    /// Absolute block height before which this output is unspendable.
    pub maturity: u64,
}

/// A transaction kernel: the fee offered, the kernel lock-height, and the
/// excess signature that is unique across the chain.
#[derive(Debug, Clone, Copy, PartialEq, Eq, Structural)]
pub struct Kernel {
    /// Fee paid by the transaction.
    pub fee: u64,
    /// Minimum block height at which the transaction may be mined.
    pub lock_height: u64,
    /// The chain-wide unique identifier of the transaction.
    pub excess_sig: u64,
}

/// A transaction: inputs given as the commitments they spend, outputs, one
/// kernel, and the serialised weight in grams.
#[derive(Debug, Clone)]
pub struct Transaction {
    /// Commitments of the outputs this transaction spends.
    pub inputs: Vec<u64>,
    /// Outputs this transaction creates.
    pub outputs: Vec<TxOutput>,
    /// The kernel carrying fee, lock-height and excess signature.
    pub kernel: Kernel,
    /// Serialised weight in grams; a well-formed transaction weighs at
    /// least one gram.
    pub weight: u64,
}

/// The mathematical value of a transaction.
pub ghost struct TxModel {
    /// Commitments of the outputs the transaction spends.
    pub inputs: Seq<u64>,
    /// Outputs the transaction creates.
    pub outputs: Seq<TxOutput>,
    /// The kernel.
    pub kernel: Kernel,
    /// Serialised weight in grams.
    pub weight: u64,
}

impl TxModel {
    /// The excess signature, the pool's primary key for this transaction.
    pub open spec fn sig(&self) -> u64 {
        self.kernel.excess_sig
    }

    /// Fee per gram, rounded down; zero for a malformed zero-weight
    /// transaction.
    pub open spec fn fee_per_gram_spec(&self) -> u64 {
        if self.weight == 0 {
            0u64
        } else {
            (self.kernel.fee / self.weight) as u64
        }
    }

    /// Whether one of this transaction's outputs carries the commitment.
    pub open spec fn has_output(&self, commitment: u64) -> bool {
        exists|k: int| 0 <= k < self.outputs.len() && self.outputs[k].commitment == commitment
    }
}

impl View for Transaction {
    type V = TxModel;

    open spec fn view(&self) -> TxModel {
        TxModel {
            inputs: self.inputs@,
            outputs: self.outputs@,
            kernel: self.kernel,
            weight: self.weight,
        }
    }
}

impl Transaction {
    /// Returns the excess signature of this transaction.
    pub fn excess_sig(&self) -> (r: u64)
        ensures
            r == self@.sig(),
    {
        self.kernel.excess_sig
    }

    /// Computes the fee-per-gram priority of this transaction.
    pub fn fee_per_gram(&self) -> (r: u64)
        ensures
            r == self@.fee_per_gram_spec(),
    {
        if self.weight == 0 {
            0
        } else {
            self.kernel.fee / self.weight
        }
    }

    /// Reports whether one of this transaction's outputs carries the given
    /// commitment.
    pub fn contains_output(&self, commitment: u64) -> (r: bool)
        ensures
            r == self@.has_output(commitment),
    {
        let mut k: usize = 0;
        while k < self.outputs.len()
            invariant
                0 <= k <= self.outputs@.len(),
                forall|j: int| 0 <= j < k ==> self.outputs@[j].commitment != commitment,
            decreases self.outputs@.len() - k,
        {
            if self.outputs[k].commitment == commitment {
                assert(self@.outputs[k as int].commitment == commitment);
                return true;
            }
            k += 1;
        }
        false
    }

    /// Makes a copy of this transaction with the same mathematical value.
    pub fn duplicate(&self) -> (r: Transaction)
        ensures
            r@ == self@,
    {
        let inputs = self.inputs.clone();
        let outputs = self.outputs.clone();
        proof {
            assert(inputs@ =~= self.inputs@);
            assert(outputs@ =~= self.outputs@);
        }
        Transaction { inputs, outputs, kernel: self.kernel, weight: self.weight }
    }
}

} // verus!
