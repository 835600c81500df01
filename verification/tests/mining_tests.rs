use blockchain::block::zero_hash_string;
use blockchain::meets_difficulty;
use blockchain::mine_block;
use blockchain::target_prefix;
use blockchain::Block;
use blockchain::Transaction;
use blockchain::DIFFICULTY;

const GENESIS_HASH: &str = "fed0aacbea13f97d7f2bb70312b1701f130cdd1a6031a0d892fecf87926bd9ad";

#[test]
fn target_is_five_zeros() {
    assert_eq!(DIFFICULTY, 5);
    assert_eq!(target_prefix(), "00000");
}

#[test]
fn difficulty_check() {
    assert!(meets_difficulty("00000abc"));
    assert!(meets_difficulty("00000"));
    assert!(!meets_difficulty("0000"));
    assert!(!meets_difficulty("0000a0"));
    assert!(!meets_difficulty(""));
    assert!(!meets_difficulty("10000000"));
}

#[test]
fn mining_finds_the_first_solving_nonce() {
    let txs = vec![Transaction::coinbase("miner".to_string(), 5000)];
    let mut block = Block::new_at(1, 1700000000, txs, GENESIS_HASH.to_string());
    block.nonce = 257625;
    let mined = mine_block(block);
    assert_eq!(mined.nonce, 257628);
    assert_eq!(mined.hash, "000007531059000d0824ab1894d12c948e40be46f54c7f7d9e9c87e167f9af58");
    assert!(mined.has_valid_hash());
    assert!(meets_difficulty(&mined.hash));
    assert_eq!(mined.index, 1);
    assert_eq!(mined.timestamp, 1700000000);
}

#[test]
fn mining_a_solved_block_keeps_its_nonce() {
    let txs = vec![Transaction::coinbase("miner".to_string(), 5000)];
    let mut block = Block::new_at(1, 1700000000, txs, GENESIS_HASH.to_string());
    block.nonce = 257628;
    let mined = mine_block(block);
    assert_eq!(mined.nonce, 257628);
    assert_eq!(zero_hash_string().len(), 64);
}
