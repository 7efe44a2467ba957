//! Scenario tests of the transaction memory pool: admission, time locks,
//! priority retrieval, zero-confirmation chains, and reorganisations.

use node_core::chain::{Block, ChainState};
use node_core::mempool::{Mempool, MempoolConfig, MempoolError, TxStorageResponse};
use node_core::tx::{Kernel, Transaction, TxOutput};

fn out(commitment: u64) -> TxOutput {
    TxOutput { commitment, maturity: 0 }
}

fn out_mature(commitment: u64, maturity: u64) -> TxOutput {
    TxOutput { commitment, maturity }
}

fn tx_full(
    sig: u64,
    inputs: Vec<u64>,
    outputs: Vec<TxOutput>,
    fee: u64,
    lock_height: u64,
    weight: u64,
) -> Transaction {
    Transaction {
        inputs,
        outputs,
        kernel: Kernel { fee, lock_height, excess_sig: sig },
        weight,
    }
}

fn contains_sig(txs: &[Transaction], sig: u64) -> bool {
    txs.iter().any(|t| t.kernel.excess_sig == sig)
}

/// A funding block at height 1 creating the given outputs from thin air.
fn funding_block(outputs: Vec<TxOutput>) -> Block {
    Block {
        height: 1,
        txs: vec![tx_full(9_000, vec![], outputs, 0, 0, 1)],
    }
}

#[test]
fn test_insert_and_process_published_block() {
    let mut chain = ChainState::new();
    let mut mempool = Mempool::new(MempoolConfig::default());
    let block1 = funding_block(vec![out(1), out(2), out(3), out(4)]);
    chain.apply_block(&block1);

    let orphan = tx_full(11, vec![999], vec![out(110)], 100, 0, 25);
    let tx2 = tx_full(12, vec![1], vec![out(120)], 20, 0, 30);
    let tx3 = tx_full(13, vec![2], vec![out_mature(130, 1)], 20, 4, 20);
    let tx5 = tx_full(15, vec![3], vec![out_mature(150, 2)], 20, 3, 20);
    let tx6 = tx_full(16, vec![4], vec![out(160)], 25, 0, 20);

    mempool.insert(&chain, &orphan).unwrap();
    mempool.insert(&chain, &tx2).unwrap();
    mempool.insert(&chain, &tx3).unwrap();
    mempool.insert(&chain, &tx5).unwrap();
    mempool.process_published_block(&chain, &block1).unwrap();

    assert_eq!(mempool.has_tx_with_excess_sig(11), TxStorageResponse::NotStored);
    assert_eq!(mempool.has_tx_with_excess_sig(12), TxStorageResponse::UnconfirmedPool);
    assert_eq!(mempool.has_tx_with_excess_sig(13), TxStorageResponse::NotStored);
    assert_eq!(mempool.has_tx_with_excess_sig(15), TxStorageResponse::NotStored);
    assert_eq!(mempool.has_tx_with_excess_sig(16), TxStorageResponse::NotStored);

    let snapshot = mempool.snapshot();
    assert_eq!(snapshot.len(), 1);
    assert!(contains_sig(&snapshot, 12));

    let stats = mempool.stats();
    assert_eq!(stats.total_txs, 1);
    assert_eq!(stats.unconfirmed_txs, 1);
    assert_eq!(stats.reorg_txs, 0);
    assert_eq!(stats.total_weight, 30);

    // Spend tx2, so it goes in the reorg pool.
    let block2 = Block { height: 2, txs: vec![tx2.duplicate()] };
    chain.apply_block(&block2);
    mempool.process_published_block(&chain, &block2).unwrap();

    assert_eq!(mempool.has_tx_with_excess_sig(11), TxStorageResponse::NotStored);
    assert_eq!(mempool.has_tx_with_excess_sig(12), TxStorageResponse::ReorgPool);
    assert_eq!(mempool.has_tx_with_excess_sig(13), TxStorageResponse::NotStored);
    assert_eq!(mempool.has_tx_with_excess_sig(15), TxStorageResponse::NotStored);
    assert_eq!(mempool.has_tx_with_excess_sig(16), TxStorageResponse::NotStored);

    assert_eq!(mempool.snapshot().len(), 0);
    let stats = mempool.stats();
    assert_eq!(stats.total_txs, 0);
    assert_eq!(stats.unconfirmed_txs, 0);
    assert_eq!(stats.reorg_txs, 1);
    assert_eq!(stats.total_weight, 0);
}

#[test]
fn test_time_locked() {
    let mut chain = ChainState::new();
    let mut mempool = Mempool::new(MempoolConfig::default());
    let block1 = funding_block(vec![out(1), out(2), out(3), out(4)]);
    chain.apply_block(&block1);
    mempool.process_published_block(&chain, &block1).unwrap();

    // Tip is 1: a kernel lock-height of 3 cannot be mined in block 2.
    let tx2 = tx_full(22, vec![1], vec![out(220)], 20, 3, 25);
    let tx3 = tx_full(23, vec![2], vec![out_mature(230, 1)], 20, 2, 25);

    assert_eq!(
        mempool.insert(&chain, &tx2).unwrap(),
        TxStorageResponse::NotStoredTimeLocked
    );
    assert_eq!(mempool.insert(&chain, &tx3).unwrap(), TxStorageResponse::UnconfirmedPool);

    // Publish tx3 so the chain height increases; tx2 then fits block 3.
    let block2 = Block { height: 2, txs: vec![tx3.duplicate()] };
    chain.apply_block(&block2);
    mempool.process_published_block(&chain, &block2).unwrap();

    assert_eq!(mempool.insert(&chain, &tx2).unwrap(), TxStorageResponse::UnconfirmedPool);
}

#[test]
fn test_retrieve() {
    let mut chain = ChainState::new();
    let mut mempool = Mempool::new(MempoolConfig::default());
    let block1 = funding_block(vec![
        out(1),
        out(2),
        out(3),
        out(4),
        out(5),
        out(6),
        out(7),
        out(8),
    ]);
    chain.apply_block(&block1);
    mempool.process_published_block(&chain, &block1).unwrap();

    // Eight candidates of weight one; fee-per-gram equals the fee.
    let txs = vec![
        tx_full(100, vec![1], vec![out(300)], 30, 0, 1),
        tx_full(101, vec![2], vec![out(301)], 20, 0, 1),
        tx_full(102, vec![3], vec![out(302)], 40, 0, 1),
        tx_full(103, vec![4], vec![out(303)], 50, 0, 1),
        tx_full(104, vec![5], vec![out(304)], 20, 2, 1),
        tx_full(105, vec![6], vec![out(305)], 20, 3, 1),
        tx_full(106, vec![7], vec![out_mature(306, 4), out(307)], 60, 0, 1),
        tx_full(107, vec![8], vec![out_mature(308, 3), out(309)], 25, 0, 1),
    ];
    for t in &txs {
        mempool.insert(&chain, t).unwrap();
    }
    // The lock-height 3 candidate misses block 2 and was not stored.
    let stats = mempool.stats();
    assert_eq!(stats.unconfirmed_txs, 7);
    assert_eq!(stats.reorg_txs, 0);

    let retrieved = mempool.retrieve(3);
    assert_eq!(retrieved.len(), 3);
    assert!(contains_sig(&retrieved, 106));
    assert!(contains_sig(&retrieved, 102));
    assert!(contains_sig(&retrieved, 103));

    // Publish five of them.
    let block2 = Block {
        height: 2,
        txs: vec![
            txs[0].duplicate(),
            txs[1].duplicate(),
            txs[2].duplicate(),
            txs[6].duplicate(),
            txs[7].duplicate(),
        ],
    };
    chain.apply_block(&block2);
    mempool.process_published_block(&chain, &block2).unwrap();

    let stats = mempool.stats();
    assert_eq!(stats.unconfirmed_txs, 2);
    assert_eq!(stats.reorg_txs, 5);

    // One spender of a still-immature output, one of a mature one.
    let tx2_0 = tx_full(108, vec![306], vec![out(310)], 80, 0, 1);
    let tx2_1 = tx_full(109, vec![309], vec![out(311)], 40, 0, 1);
    assert_eq!(
        mempool.insert(&chain, &tx2_0).unwrap(),
        TxStorageResponse::NotStoredTimeLocked
    );
    assert_eq!(mempool.insert(&chain, &tx2_1).unwrap(), TxStorageResponse::UnconfirmedPool);

    let retrieved = mempool.retrieve(2);
    let stats = mempool.stats();
    assert_eq!(stats.unconfirmed_txs, 3);
    assert_eq!(stats.reorg_txs, 5);
    assert_eq!(retrieved.len(), 2);
    assert!(contains_sig(&retrieved, 103));
    assert!(contains_sig(&retrieved, 109));
}

#[test]
fn test_zero_conf() {
    let mut chain = ChainState::new();
    let mut mempool = Mempool::new(MempoolConfig::default());
    let block1 = funding_block(vec![out(1), out(2), out(3), out(4)]);
    chain.apply_block(&block1);
    mempool.process_published_block(&chain, &block1).unwrap();

    // A four-by-four grid of zero-confirmation transactions: four basis
    // transactions on mined outputs, then three levels that spend outputs
    // of the level above, with fees rising left to right and level by
    // level. All weigh one gram.
    let tx01 = tx_full(201, vec![1], vec![out(2010), out(2011)], 10, 0, 1);
    let tx02 = tx_full(202, vec![2], vec![out(2020), out(2021)], 20, 0, 1);
    let tx03 = tx_full(203, vec![3], vec![out(2030), out(2031)], 30, 0, 1);
    let tx04 = tx_full(204, vec![4], vec![out(2040), out(2041)], 40, 0, 1);
    let tx11 = tx_full(211, vec![2010], vec![out(2110), out(2111)], 50, 0, 1);
    let tx12 = tx_full(212, vec![2011, 2020, 2021], vec![out(2120), out(2121)], 60, 0, 1);
    let tx13 = tx_full(213, vec![2030, 2031], vec![out(2130), out(2131)], 70, 0, 1);
    let tx14 = tx_full(214, vec![2040, 2041], vec![out(2140), out(2141)], 80, 0, 1);
    let tx21 = tx_full(221, vec![2110], vec![out(2210), out(2211)], 90, 0, 1);
    let tx22 = tx_full(222, vec![2120], vec![out(2220), out(2221)], 100, 0, 1);
    let tx23 = tx_full(223, vec![2121, 2130, 2131], vec![out(2230), out(2231)], 110, 0, 1);
    let tx24 = tx_full(224, vec![2140], vec![out(2240), out(2241)], 120, 0, 1);
    let tx31 = tx_full(231, vec![2210, 2211], vec![out(2310)], 130, 0, 1);
    let tx32 = tx_full(232, vec![2111, 2220, 2221], vec![out(2320)], 140, 0, 1);
    let tx33 = tx_full(233, vec![2141, 2230, 2231], vec![out(2330)], 150, 0, 1);
    let tx34 = tx_full(234, vec![2240, 2241], vec![out(2340)], 160, 0, 1);

    // Submit the basis transactions, holding the second one back.
    assert_eq!(mempool.insert(&chain, &tx01).unwrap(), TxStorageResponse::UnconfirmedPool);
    assert_eq!(mempool.insert(&chain, &tx03).unwrap(), TxStorageResponse::UnconfirmedPool);
    assert_eq!(mempool.insert(&chain, &tx04).unwrap(), TxStorageResponse::UnconfirmedPool);

    assert_eq!(mempool.insert(&chain, &tx11).unwrap(), TxStorageResponse::UnconfirmedPool);
    assert_eq!(mempool.insert(&chain, &tx12).unwrap(), TxStorageResponse::NotStoredOrphan);
    assert_eq!(mempool.insert(&chain, &tx13).unwrap(), TxStorageResponse::UnconfirmedPool);
    assert_eq!(mempool.insert(&chain, &tx14).unwrap(), TxStorageResponse::UnconfirmedPool);

    assert_eq!(mempool.insert(&chain, &tx21).unwrap(), TxStorageResponse::UnconfirmedPool);
    assert_eq!(mempool.insert(&chain, &tx22).unwrap(), TxStorageResponse::NotStoredOrphan);
    assert_eq!(mempool.insert(&chain, &tx23).unwrap(), TxStorageResponse::NotStoredOrphan);
    assert_eq!(mempool.insert(&chain, &tx24).unwrap(), TxStorageResponse::UnconfirmedPool);

    assert_eq!(mempool.insert(&chain, &tx31).unwrap(), TxStorageResponse::UnconfirmedPool);
    assert_eq!(mempool.insert(&chain, &tx32).unwrap(), TxStorageResponse::NotStoredOrphan);
    assert_eq!(mempool.insert(&chain, &tx33).unwrap(), TxStorageResponse::NotStoredOrphan);
    assert_eq!(mempool.insert(&chain, &tx34).unwrap(), TxStorageResponse::UnconfirmedPool);

    // Only the ten transactions whose ancestry is complete are offered.
    let retrieved = mempool.retrieve(mempool.stats().total_weight);
    assert_eq!(retrieved.len(), 10);
    assert!(contains_sig(&retrieved, 201));
    assert!(!contains_sig(&retrieved, 202));
    assert!(contains_sig(&retrieved, 203));
    assert!(contains_sig(&retrieved, 204));
    assert!(contains_sig(&retrieved, 211));
    assert!(!contains_sig(&retrieved, 212));
    assert!(contains_sig(&retrieved, 213));
    assert!(contains_sig(&retrieved, 214));
    assert!(contains_sig(&retrieved, 221));
    assert!(!contains_sig(&retrieved, 222));
    assert!(!contains_sig(&retrieved, 223));
    assert!(contains_sig(&retrieved, 224));
    assert!(contains_sig(&retrieved, 231));
    assert!(!contains_sig(&retrieved, 232));
    assert!(!contains_sig(&retrieved, 233));
    assert!(contains_sig(&retrieved, 234));

    // Submit the held-back basis transaction and the formerly orphaned
    // descendants.
    assert_eq!(mempool.insert(&chain, &tx02).unwrap(), TxStorageResponse::UnconfirmedPool);
    assert_eq!(mempool.insert(&chain, &tx12).unwrap(), TxStorageResponse::UnconfirmedPool);
    assert_eq!(mempool.insert(&chain, &tx22).unwrap(), TxStorageResponse::UnconfirmedPool);
    assert_eq!(mempool.insert(&chain, &tx23).unwrap(), TxStorageResponse::UnconfirmedPool);
    assert_eq!(mempool.insert(&chain, &tx32).unwrap(), TxStorageResponse::UnconfirmedPool);
    assert_eq!(mempool.insert(&chain, &tx33).unwrap(), TxStorageResponse::UnconfirmedPool);

    let retrieved = mempool.retrieve(mempool.stats().total_weight);
    assert_eq!(retrieved.len(), 16);

    // One gram short: exactly the lowest-priority leaf whose exclusion
    // still leaves a valid chain is dropped.
    let retrieved = mempool.retrieve(mempool.stats().total_weight - 1);
    assert_eq!(retrieved.len(), 15);
    assert!(!contains_sig(&retrieved, 231));
    assert!(contains_sig(&retrieved, 232));
    assert!(contains_sig(&retrieved, 233));
    assert!(contains_sig(&retrieved, 234));
    assert!(contains_sig(&retrieved, 221));
}

#[test]
fn test_reorg() {
    let mut chain = ChainState::new();
    let mut mempool = Mempool::new(MempoolConfig::default());
    let block1 = funding_block(vec![out(1), out(2), out(3)]);
    chain.apply_block(&block1);
    mempool.process_published_block(&chain, &block1).unwrap();

    // Three transactions mined in block 2.
    let t21 = tx_full(21, vec![1], vec![out(210)], 25, 0, 1);
    let t22 = tx_full(22, vec![2], vec![out(220)], 25, 0, 1);
    let t23 = tx_full(23, vec![3], vec![out(230)], 25, 0, 1);
    mempool.insert(&chain, &t21).unwrap();
    mempool.insert(&chain, &t22).unwrap();
    mempool.insert(&chain, &t23).unwrap();
    assert_eq!(mempool.stats().unconfirmed_txs, 3);
    let block2 = Block { height: 2, txs: vec![t21.duplicate(), t22.duplicate(), t23.duplicate()] };
    chain.apply_block(&block2);
    mempool.process_published_block(&chain, &block2).unwrap();

    // Three more; the time-locked one is never stored, the other two are
    // mined in block 3.
    let t31 = tx_full(31, vec![210], vec![out(310)], 25, 0, 1);
    let t32 = tx_full(32, vec![220], vec![out(320)], 25, 5, 1);
    let t33 = tx_full(33, vec![230], vec![out(330)], 25, 0, 1);
    mempool.insert(&chain, &t31).unwrap();
    mempool.insert(&chain, &t32).unwrap();
    mempool.insert(&chain, &t33).unwrap();
    let block3 = Block { height: 3, txs: vec![t31.duplicate(), t33.duplicate()] };
    chain.apply_block(&block3);
    mempool.process_published_block(&chain, &block3).unwrap();

    let stats = mempool.stats();
    assert_eq!(stats.unconfirmed_txs, 0);
    assert_eq!(stats.reorg_txs, 5);

    // Rewind block 3 and apply an empty block 3 on the other branch: the
    // two transactions it confirmed come back to the unconfirmed pool.
    let reorg_block3 = Block { height: 3, txs: vec![] };
    let mut chain2 = ChainState::new();
    chain2.apply_block(&block1);
    chain2.apply_block(&block2);
    chain2.apply_block(&reorg_block3);
    mempool
        .process_reorg(&chain2, &vec![block3.duplicate()], &vec![reorg_block3.duplicate()])
        .unwrap();
    let stats = mempool.stats();
    assert_eq!(stats.unconfirmed_txs, 2);
    assert_eq!(stats.reorg_txs, 3);

    // A reorganisation with nothing removed behaves as a published block;
    // at the right height it is accepted, out of order it is refused.
    let block4 = Block { height: 4, txs: vec![] };
    let mut chain3 = chain2.duplicate();
    chain3.apply_block(&block4);
    mempool.process_reorg(&chain3, &vec![], &vec![block4]).unwrap();

    let stale_block = Block { height: 3, txs: vec![] };
    assert_eq!(
        mempool.process_reorg(&chain3, &vec![], &vec![stale_block]),
        Err(MempoolError::StateError)
    );
}

#[test]
fn consensus_validation_large_tx() {
    let mut chain = ChainState::new();
    let config = MempoolConfig {
        max_block_transaction_weight: 500,
        ..MempoolConfig::default()
    };
    let mut mempool = Mempool::new(config);
    let block1 = funding_block(vec![out(1)]);
    chain.apply_block(&block1);
    mempool.process_published_block(&chain, &block1).unwrap();

    // A transaction heavier than a whole block is never stored.
    let huge = tx_full(77, vec![1], vec![out(770)], 15, 0, 501);
    let response = mempool.insert(&chain, &huge).unwrap();
    assert!(matches!(response, TxStorageResponse::NotStored));
    assert_eq!(mempool.has_tx_with_excess_sig(77), TxStorageResponse::NotStored);
}

#[test]
fn block_event_and_reorg_event_handling() {
    // Two competing blocks confirm two different spends of the same
    // outputs: publishing the first moves its transactions to the reorg
    // pool and deletes the double spends; reorganising onto the second
    // brings nothing back, since the first block's transactions are now
    // double-spent themselves.
    let mut chain = ChainState::new();
    let mut mempool = Mempool::new(MempoolConfig::default());
    let block1 = funding_block(vec![out(1), out(2)]);
    chain.apply_block(&block1);
    mempool.process_published_block(&chain, &block1).unwrap();

    let tx2a = tx_full(41, vec![1], vec![out(410), out(411)], 10, 0, 1);
    let tx3a = tx_full(42, vec![2], vec![out(420), out(421)], 10, 0, 1);
    let tx2b = tx_full(43, vec![1], vec![out(430), out(431)], 10, 0, 1);
    let tx3b = tx_full(44, vec![2], vec![out(440), out(441)], 10, 0, 1);
    mempool.insert(&chain, &tx2a).unwrap();
    mempool.insert(&chain, &tx3a).unwrap();
    mempool.insert(&chain, &tx2b).unwrap();
    mempool.insert(&chain, &tx3b).unwrap();
    assert_eq!(mempool.stats().unconfirmed_txs, 4);

    let block2a = Block { height: 2, txs: vec![tx2a.duplicate(), tx3a.duplicate()] };
    chain.apply_block(&block2a);
    mempool.process_published_block(&chain, &block2a).unwrap();

    assert_eq!(mempool.has_tx_with_excess_sig(41), TxStorageResponse::ReorgPool);
    assert_eq!(mempool.has_tx_with_excess_sig(42), TxStorageResponse::ReorgPool);
    // The double spends were deleted, not parked.
    assert_eq!(mempool.has_tx_with_excess_sig(43), TxStorageResponse::NotStored);
    assert_eq!(mempool.has_tx_with_excess_sig(44), TxStorageResponse::NotStored);

    // Reorganise onto the competing block: the rolled-back transactions
    // return only to be swept as double spends of the new block.
    let block2b = Block { height: 2, txs: vec![tx2b.duplicate(), tx3b.duplicate()] };
    let mut chain2 = ChainState::new();
    chain2.apply_block(&block1);
    chain2.apply_block(&block2b);
    mempool
        .process_reorg(&chain2, &vec![block2a], &vec![block2b.duplicate()])
        .unwrap();
    assert_eq!(mempool.has_tx_with_excess_sig(41), TxStorageResponse::NotStored);
    assert_eq!(mempool.has_tx_with_excess_sig(42), TxStorageResponse::NotStored);
    assert_eq!(mempool.stats().unconfirmed_txs, 0);
}

#[test]
fn insert_is_idempotent() {
    let mut chain = ChainState::new();
    let mut mempool = Mempool::new(MempoolConfig::default());
    let block1 = funding_block(vec![out(1)]);
    chain.apply_block(&block1);
    mempool.process_published_block(&chain, &block1).unwrap();

    let tx = tx_full(55, vec![1], vec![out(550)], 20, 0, 10);
    let first = mempool.insert(&chain, &tx).unwrap();
    let second = mempool.insert(&chain, &tx).unwrap();
    assert_eq!(first, TxStorageResponse::UnconfirmedPool);
    assert_eq!(first, second);
    assert_eq!(mempool.stats().unconfirmed_txs, 1);
    assert_eq!(mempool.stats().total_weight, 10);

    let orphan = tx_full(56, vec![999], vec![out(560)], 20, 0, 10);
    let first = mempool.insert(&chain, &orphan).unwrap();
    let second = mempool.insert(&chain, &orphan).unwrap();
    assert_eq!(first, TxStorageResponse::NotStoredOrphan);
    assert_eq!(first, second);
}

#[test]
fn eviction_drops_lowest_priority_leaf() {
    let mut chain = ChainState::new();
    let config = MempoolConfig { unconfirmed_weight_cap: 25, ..MempoolConfig::default() };
    let mut mempool = Mempool::new(config);
    let block1 = funding_block(vec![out(1), out(2), out(3)]);
    chain.apply_block(&block1);
    mempool.process_published_block(&chain, &block1).unwrap();

    // Two entries of weight ten; a third tips the pool over the cap of
    // twenty-five, and the cheapest dependant-free entry is evicted.
    let a = tx_full(61, vec![1], vec![out(610)], 100, 0, 10);
    let b = tx_full(62, vec![2], vec![out(620)], 20, 0, 10);
    let c = tx_full(63, vec![3], vec![out(630)], 90, 0, 10);
    assert_eq!(mempool.insert(&chain, &a).unwrap(), TxStorageResponse::UnconfirmedPool);
    assert_eq!(mempool.insert(&chain, &b).unwrap(), TxStorageResponse::UnconfirmedPool);
    assert_eq!(mempool.insert(&chain, &c).unwrap(), TxStorageResponse::UnconfirmedPool);
    assert_eq!(mempool.has_tx_with_excess_sig(61), TxStorageResponse::UnconfirmedPool);
    assert_eq!(mempool.has_tx_with_excess_sig(62), TxStorageResponse::NotStored);
    assert_eq!(mempool.has_tx_with_excess_sig(63), TxStorageResponse::UnconfirmedPool);

    // A candidate that would itself be the victim is not stored.
    let d = tx_full(64, vec![620], vec![out(640)], 1, 0, 10);
    assert_eq!(mempool.insert(&chain, &d).unwrap(), TxStorageResponse::NotStoredOrphan);
    let e = tx_full(65, vec![610], vec![out(650)], 1, 0, 10);
    assert_eq!(mempool.insert(&chain, &e).unwrap(), TxStorageResponse::NotStored);
}
