use powchain::chain::{Chain, ChainError};
use powchain::mempool::MempoolError;
use powchain::transaction::{Address, Transaction};

fn create_test_address(value: u8) -> Address {
    Address::new([value; 20])
}

fn create_test_transaction(nonce: u64) -> Transaction {
    Transaction::new(
        create_test_address(1), // sender
        create_test_address(2), // receiver
        100,                    // amount
        nonce,                  // unique nonce per transaction
    )
}

fn create_test_chain(
    difficulty: Option<u32>,
    genesis_tx: Option<Transaction>,
) -> Result<Chain, ChainError> {
    let difficulty = difficulty.unwrap_or(1);
    Chain::new(difficulty, genesis_tx)
}

#[test]
fn test_new_chain_creation() {
    let chain = create_test_chain(None, None).unwrap();

    assert_eq!(chain.len(), 1); // Should have genesis block
    assert_eq!(chain.current_difficulty(), 1);

    // Verify genesis block
    let genesis = chain.get_block(0).unwrap();
    assert_eq!(genesis.previous_hash(), [0; 32]);
    assert!(!chain.is_empty());
}

#[test]
fn test_add_block_with_mempool() {
    let mut chain = create_test_chain(None, None).unwrap();

    // Submit transactions to mempool
    chain.submit_transaction(create_test_transaction(0)).unwrap();
    chain.submit_transaction(create_test_transaction(1)).unwrap();

    // Add block should use mempool transactions
    chain.add_block().unwrap();

    assert_eq!(chain.len(), 2);
    let block = chain.get_block(1).unwrap();
    assert!(!block.transactions().is_empty());

    // Mempool should be empty after block creation
    chain.add_block().unwrap();
    assert_eq!(chain.len(), 2); // Shouldn't add empty block
}

#[test]
fn test_block_with_specific_transactions() {
    let mut chain = create_test_chain(None, None).unwrap();
    let transactions = vec![create_test_transaction(0), create_test_transaction(1)];

    chain.add_block_with_transactions(transactions.clone()).unwrap();

    assert_eq!(chain.len(), 2);
    let block = chain.get_block(1).unwrap();
    assert_eq!(block.transactions(), &transactions);
}

#[test]
fn test_mempool_ordering() {
    let mut chain = create_test_chain(None, None).unwrap();

    // Add transactions in reverse order
    let tx3 = create_test_transaction(2);
    let tx2 = create_test_transaction(1);
    let tx1 = create_test_transaction(0);

    chain.submit_transaction(tx3).unwrap();
    chain.submit_transaction(tx2).unwrap();
    chain.submit_transaction(tx1).unwrap();

    chain.add_block().unwrap();

    let block = chain.get_block(1).unwrap();
    let block_txs = block.transactions();
    assert_eq!(block_txs.len(), 3);
    assert!(block_txs[0].nonce() < block_txs[1].nonce());
    assert!(block_txs[1].nonce() < block_txs[2].nonce());
}

#[test]
fn test_chain_verification() {
    let mut chain = create_test_chain(None, None).unwrap();

    // Add some transactions and create blocks
    chain.submit_transaction(create_test_transaction(0)).unwrap();
    chain.add_block().unwrap();

    chain.submit_transaction(create_test_transaction(1)).unwrap();
    chain.add_block().unwrap();

    assert!(chain.verify().is_ok());
}

#[test]
fn test_empty_chain_verification() {
    let mut chain = create_test_chain(None, None).unwrap();
    chain.blocks.clear(); // Force empty chain for testing

    assert!(matches!(chain.verify(), Err(ChainError::EmptyChain)));
}

#[test]
fn test_block_difficulty_matches_chain() {
    let difficulty = 2;
    let mut chain = Chain::new(difficulty, None).unwrap();

    chain.submit_transaction(create_test_transaction(0)).unwrap();
    chain.add_block().unwrap();

    let block = chain.latest_block().unwrap();
    assert_eq!(block.difficulty(), difficulty);
}

#[test]
fn test_chain_tamper_detection() {
    let mut chain = create_test_chain(None, None).unwrap();

    // Add a valid block first
    chain.submit_transaction(create_test_transaction(0)).unwrap();
    chain.add_block().unwrap();

    // Tamper with the last block
    if let Some(block) = chain.blocks.last_mut() {
        block.set_transactions_for_testing(vec![create_test_transaction(1)]);
    }

    assert!(chain.verify().is_err());
}

#[test]
fn test_invalid_genesis_detection() {
    // Create two chains with different genesis transactions
    let tx1 = create_test_transaction(0);
    let tx2 = create_test_transaction(1);

    let chain1 = create_test_chain(None, Some(tx1)).unwrap();
    let chain2 = create_test_chain(None, Some(tx2)).unwrap();

    assert_ne!(
        chain1.get_block(0).unwrap().hash(),
        chain2.get_block(0).unwrap().hash()
    );
}

#[test]
fn test_fresh_chain_verifies() {
    let chain = create_test_chain(None, None).unwrap();
    assert_eq!(chain.len(), 1);
    assert!(chain.verify().is_ok());
}

#[test]
fn test_nonzero_genesis_previous_hash_rejected() {
    let mut chain = create_test_chain(None, None).unwrap();
    chain.blocks[0].previous_hash = [1u8; 32];
    assert!(matches!(chain.verify(), Err(ChainError::InvalidGenesis)));
}

#[test]
fn test_broken_link_rejected() {
    let mut chain = create_test_chain(None, None).unwrap();
    chain.submit_transaction(create_test_transaction(0)).unwrap();
    chain.add_block().unwrap();
    assert!(chain.verify().is_ok());

    // Re-point the second block at a hash that is not its predecessor's,
    // and reseal it so that only the linkage is wrong.
    chain.blocks[1].previous_hash = [7u8; 32];
    chain.blocks[1].mine();
    assert!(matches!(chain.verify(), Err(ChainError::InvalidBlockLink)));
}

#[test]
fn test_duplicate_submission_rejected() {
    let mut chain = create_test_chain(None, None).unwrap();
    let tx = create_test_transaction(0);
    chain.submit_transaction(tx.clone()).unwrap();
    assert!(matches!(
        chain.submit_transaction(tx),
        Err(ChainError::MempoolError(MempoolError::DuplicateTransaction))
    ));
}

#[test]
fn test_end_to_end_two_submissions() {
    let mut chain = Chain::new(1, None).unwrap();

    chain.submit_transaction(create_test_transaction(5)).unwrap();
    chain.submit_transaction(create_test_transaction(3)).unwrap();

    chain.add_block().unwrap();

    let block = chain.get_block(1).unwrap();
    let block_txs = block.transactions();
    assert_eq!(block_txs.len(), 2);
    assert_eq!(block_txs[0].nonce(), 3);
    assert_eq!(block_txs[1].nonce(), 5);
    assert_eq!(chain.len(), 2);
    assert!(chain.verify().is_ok());
}

#[test]
fn test_add_block_on_empty_mempool_is_no_op() {
    let mut chain = Chain::new(1, None).unwrap();
    let result = chain.add_block();
    assert!(result.is_ok());
    assert_eq!(chain.len(), 1);
}

#[test]
fn test_add_block_evicts_included_transactions() {
    let mut chain = Chain::new(1, None).unwrap();
    let tx = create_test_transaction(0);
    chain.submit_transaction(tx.clone()).unwrap();
    assert!(chain.mempool.contains(&tx));

    chain.add_block().unwrap();
    assert!(!chain.mempool.contains(&tx));
    assert!(chain.mempool.is_empty());
}

#[test]
fn test_add_block_with_empty_transactions_fails() {
    let mut chain = Chain::new(1, None).unwrap();
    let result = chain.add_block_with_transactions(vec![]);
    assert!(result.is_err());
    assert_eq!(chain.len(), 1);
}

#[test]
fn test_batch_is_capped_at_ten() {
    let mut chain = Chain::new(1, None).unwrap();
    for nonce in 0..12 {
        chain.submit_transaction(create_test_transaction(nonce)).unwrap();
    }
    chain.add_block().unwrap();
    assert_eq!(chain.len(), 2);
    assert_eq!(chain.get_block(1).unwrap().transactions().len(), 10);
    assert_eq!(chain.mempool.len(), 2);

    chain.add_block().unwrap();
    assert_eq!(chain.len(), 3);
    assert_eq!(chain.get_block(2).unwrap().transactions().len(), 2);
    assert!(chain.mempool.is_empty());
    assert!(chain.verify().is_ok());
}
