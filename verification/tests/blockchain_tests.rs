use blockchain::Block;
use blockchain::Blockchain;
use blockchain::ChainFault;
use blockchain::Transaction;
use blockchain::Wallet;

const GENESIS_HASH: &str = "fed0aacbea13f97d7f2bb70312b1701f130cdd1a6031a0d892fecf87926bd9ad";

fn wallet(seed: u8) -> Wallet {
    Wallet::from_secret_key(vec![seed; 32]).unwrap()
}

fn funded_chain(alice: &Wallet, amount: i64) -> Blockchain {
    let mut bc = Blockchain::new();
    bc.register_public_key(alice.address.clone(), alice.public_key_hex());
    bc.balances.insert(alice.address.clone(), amount);
    bc
}

fn block_one() -> Block {
    let txs = vec![Transaction::coinbase("miner".to_string(), 5000)];
    let mut b = Block::new_at(1, 1700000000, txs, GENESIS_HASH.to_string());
    b.nonce = 257628;
    b.hash = b.calculate_hash();
    b
}

fn block_two(prev: &str) -> Block {
    let txs = vec![
        Transaction::coinbase("miner".to_string(), 5000),
        Transaction::new("alice".to_string(), "bob".to_string(), 1050),
    ];
    let mut b = Block::new_at(2, 1700000100, txs, prev.to_string());
    b.nonce = 249476;
    b.hash = b.calculate_hash();
    b
}

#[test]
fn new_chain_has_genesis_and_supply() {
    let bc = Blockchain::new();
    assert_eq!(bc.chain.len(), 1);
    assert_eq!(bc.last_block().hash, GENESIS_HASH);
    assert_eq!(bc.get_balance("genesis_address"), 100_000_000);
    assert_eq!(bc.get_balance("nobody"), 0);
    assert!(bc.mempool.is_empty());
    assert!(bc.is_chain_valid());
    assert_eq!(bc.find_chain_fault(), None);
}

#[test]
fn coinbase_cannot_be_added() {
    let mut bc = Blockchain::new();
    let r = bc.add_transaction(Transaction::coinbase("m".to_string(), 5000));
    assert_eq!(r, Err("Cannot manually add coinbase transactions".to_string()));
    assert!(bc.mempool.is_empty());
}

#[test]
fn unknown_sender_key_is_refused() {
    let mut bc = Blockchain::new();
    let r = bc.add_transaction(Transaction::new("alice".to_string(), "bob".to_string(), 100));
    assert_eq!(r, Err("Public key for alice not found".to_string()));
}

#[test]
fn bad_signature_is_refused() {
    let alice = wallet(1);
    let mallory = wallet(2);
    let mut bc = funded_chain(&alice, 50000);
    let tx = Transaction::new(alice.address.clone(), "bob".to_string(), 100);
    let forged = mallory.sign_transaction(&tx);
    assert_eq!(bc.add_transaction(forged), Err("Invalid transaction signature".to_string()));
    assert_eq!(bc.add_transaction(tx), Err("Invalid transaction signature".to_string()));
    assert_eq!(bc.get_balance(&alice.address), 50000);
}

#[test]
fn insufficient_funds_message() {
    let alice = wallet(1);
    let mut bc = funded_chain(&alice, 50000);
    let tx = alice.sign_transaction(&Transaction::new(alice.address.clone(), "bob".to_string(), 9999900));
    assert_eq!(
        bc.add_transaction(tx),
        Err("Insufficient funds: balance 500.00, need 99999.00".to_string())
    );
    let mut empty = Blockchain::new();
    empty.register_public_key(alice.address.clone(), alice.public_key_hex());
    let small = alice.sign_transaction(&Transaction::new(alice.address.clone(), "bob".to_string(), 5));
    assert_eq!(
        empty.add_transaction(small),
        Err("Insufficient funds: balance 0.00, need 0.05".to_string())
    );
}

#[test]
fn non_positive_amount_is_refused() {
    let alice = wallet(1);
    let mut bc = funded_chain(&alice, 50000);
    let zero = alice.sign_transaction(&Transaction::new(alice.address.clone(), "bob".to_string(), 0));
    assert_eq!(bc.add_transaction(zero), Err("Transaction amount should be positive".to_string()));
    let negative = alice.sign_transaction(&Transaction::new(alice.address.clone(), "bob".to_string(), -100));
    assert_eq!(bc.add_transaction(negative), Err("Transaction amount should be positive".to_string()));
    assert_eq!(bc.get_balance(&alice.address), 50000);
}

#[test]
fn accepted_transfer_is_deducted_and_pending() {
    let alice = wallet(1);
    let mut bc = funded_chain(&alice, 50000);
    let tx1 = alice.sign_transaction(&Transaction::new(alice.address.clone(), "bob".to_string(), 10000));
    let tx2 = alice.sign_transaction(&Transaction::new(alice.address.clone(), "miner".to_string(), 5000));
    assert_eq!(bc.add_transaction(tx1), Ok(()));
    assert_eq!(bc.add_transaction(tx2), Ok(()));
    assert_eq!(bc.get_balance(&alice.address), 35000);
    assert_eq!(bc.get_balance("bob"), 0);
    assert_eq!(bc.mempool.len(), 2);
    assert_eq!(bc.mempool[0].amount, 10000);
    assert_eq!(bc.chain.len(), 1);
}

#[test]
fn registering_a_key_replaces_the_old_one() {
    let alice = wallet(1);
    let other = wallet(2);
    let mut bc = Blockchain::new();
    bc.register_public_key(alice.address.clone(), other.public_key_hex());
    bc.register_public_key(alice.address.clone(), alice.public_key_hex());
    assert_eq!(bc.public_keys.get(&alice.address), Some(&alice.public_key_hex()));
    bc.balances.insert(alice.address.clone(), 100);
    let tx = alice.sign_transaction(&Transaction::new(alice.address.clone(), "bob".to_string(), 100));
    assert_eq!(bc.add_transaction(tx), Ok(()));
    assert_eq!(bc.get_balance(&alice.address), 0);
}

#[test]
fn valid_chain_of_mined_blocks() {
    let mut bc = Blockchain::new();
    let b1 = block_one();
    assert_eq!(b1.hash, "000007531059000d0824ab1894d12c948e40be46f54c7f7d9e9c87e167f9af58");
    let b2 = block_two(&b1.hash);
    assert_eq!(b2.hash, "00000540eae695a383121a132947f6bdeb61a43624438f97c66ac66be219bb5c");
    bc.chain.push(b1);
    bc.chain.push(b2);
    assert!(bc.is_chain_valid());
    assert_eq!(bc.find_chain_fault(), None);
}

#[test]
fn tampered_block_is_detected() {
    let mut bc = Blockchain::new();
    let b1 = block_one();
    let b2 = block_two(&b1.hash);
    bc.chain.push(b1);
    bc.chain.push(b2);
    bc.chain[1].transactions[0].amount = 99999900;
    assert!(!bc.is_chain_valid());
    assert_eq!(bc.find_chain_fault(), Some((1, ChainFault::InvalidHash)));
}

#[test]
fn broken_link_is_detected() {
    let mut bc = Blockchain::new();
    let b2 = block_two(GENESIS_HASH);
    bc.chain.push(block_one());
    bc.chain.push(b2);
    assert_eq!(bc.find_chain_fault(), Some((2, ChainFault::BrokenLink)));
    assert!(!bc.is_chain_valid());
}

#[test]
fn missing_work_is_detected() {
    let mut bc = Blockchain::new();
    let txs = vec![Transaction::coinbase("miner".to_string(), 5000)];
    let b = Block::new_at(1, 1700000000, txs, GENESIS_HASH.to_string());
    assert!(!b.hash.starts_with("00000"));
    bc.chain.push(b);
    assert_eq!(bc.find_chain_fault(), Some((1, ChainFault::InsufficientWork)));
}

#[test]
fn credit_check_before_mining() {
    let mut bc = Blockchain::new();
    assert!(bc.can_credit_block(&"miner".to_string()));
    bc.balances.insert("miner".to_string(), i64::MAX - 4999);
    assert!(!bc.can_credit_block(&"miner".to_string()));
    bc.balances.insert("miner".to_string(), i64::MAX - 5000);
    assert!(bc.can_credit_block(&"miner".to_string()));
    bc.mempool.push(Transaction::new("x".to_string(), "miner".to_string(), 1));
    assert!(!bc.can_credit_block(&"miner".to_string()));
    bc.mempool.push(Transaction::new("x".to_string(), "miner".to_string(), -1));
    assert!(!bc.can_credit_block(&"miner".to_string()));
}

#[test]
fn mining_at_a_given_time_builds_the_expected_block() {
    let mut bc = Blockchain::new();
    bc.mine_pending_transactions_at("miner".to_string(), 1700000444);
    assert_eq!(bc.chain.len(), 2);
    assert!(bc.mempool.is_empty());
    let b = bc.last_block();
    assert_eq!(b.index, 1);
    assert_eq!(b.timestamp, 1700000444);
    assert_eq!(b.previous_hash, GENESIS_HASH);
    assert_eq!(b.nonce, 1137);
    assert_eq!(b.hash, "0000074c2e1136738870a2d4eccb20345f5857a228322c97c3617ff42918b637");
    assert_eq!(bc.get_balance("miner"), 5000);
    assert!(bc.is_chain_valid());
}
