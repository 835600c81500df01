use blockchain::block::zero_hash_string;
use blockchain::Block;
use blockchain::Transaction;
use sha2::Digest;
use sha2::Sha256;

fn sha_hex(data: &[u8]) -> String {
    hex::encode(Sha256::digest(data))
}

fn json_tx(t: &Transaction) -> String {
    format!(
        "{{\"sender\":{},\"reciever\":{},\"amount\":{},\"signature\":{}}}",
        serde_json::to_string(&t.sender).unwrap(),
        serde_json::to_string(&t.reciever).unwrap(),
        serde_json::to_string(&(t.amount as f64 / 100.0)).unwrap(),
        serde_json::to_string(&t.signature).unwrap()
    )
}

fn reference_hash(b: &Block) -> String {
    let txs: Vec<String> = b.transactions.iter().map(json_tx).collect();
    let content = format!("{}{}[{}]{}{}", b.index, b.timestamp, txs.join(","), b.previous_hash, b.nonce);
    sha_hex(content.as_bytes())
}

#[test]
fn genesis_block_fields_and_hash() {
    let g = Block::genesis();
    assert_eq!(g.index, 0);
    assert_eq!(g.timestamp, 0);
    assert_eq!(g.nonce, 0);
    assert_eq!(g.previous_hash, "0".repeat(64));
    assert_eq!(g.transactions.len(), 1);
    assert!(g.transactions[0].is_coinbase());
    assert_eq!(g.transactions[0].reciever, "genesis_address");
    assert_eq!(g.transactions[0].amount, 0);
    assert_eq!(g.hash, reference_hash(&g));
    assert_eq!(g.hash, "fed0aacbea13f97d7f2bb70312b1701f130cdd1a6031a0d892fecf87926bd9ad");
    assert!(g.has_valid_hash());
}

#[test]
fn block_hash_matches_serde_json_encoding() {
    let txs = vec![
        Transaction::coinbase("miner".to_string(), 5000),
        Transaction::new("a\"b\\c\n\t\r\u{8}\u{c}\u{1}\u{1f} é ✓".to_string(), "bob".to_string(), 1050),
        Transaction::new("x".to_string(), "y".to_string(), -3),
    ];
    let mut b = Block::new_at(7, 1700000000, txs, "abc".to_string());
    assert_eq!(b.hash, reference_hash(&b));
    b.nonce = 42;
    assert_eq!(b.calculate_hash(), reference_hash(&b));
    assert!(!b.has_valid_hash());
    b.hash = b.calculate_hash();
    assert!(b.has_valid_hash());
}

#[test]
fn block_new_uses_current_time() {
    let b = Block::new(3, vec![], "prev".to_string());
    assert_eq!(b.index, 3);
    assert_eq!(b.nonce, 0);
    assert!(b.timestamp > 1_600_000_000);
    assert!(b.has_valid_hash());
    assert_eq!(b.hash, reference_hash(&b));
}

#[test]
fn merkle_root_of_nothing_is_zeros() {
    assert_eq!(Block::merkle_root(&[]), "0".repeat(64));
    assert_eq!(zero_hash_string(), "0".repeat(64));
}

#[test]
fn merkle_root_of_one_is_its_hash() {
    let tx = Transaction::coinbase("m".to_string(), 5000);
    assert_eq!(Block::merkle_root(&[tx.clone()]), tx.hash());
}

#[test]
fn merkle_root_pairs_and_duplicates() {
    let a = Transaction::coinbase("m".to_string(), 5000);
    let b = Transaction::new("p".to_string(), "q".to_string(), 100);
    let c = Transaction::new("q".to_string(), "p".to_string(), 200);
    let pair = |x: &str, y: &str| sha_hex(format!("{}{}", x, y).as_bytes());
    let ab = pair(&a.hash(), &b.hash());
    let cc = pair(&c.hash(), &c.hash());
    assert_eq!(Block::merkle_root(&[a.clone(), b.clone()]), ab);
    assert_eq!(Block::merkle_root(&[a.clone(), b.clone(), c.clone()]), pair(&ab, &cc));
}

#[test]
fn merkle_root_halves_for_powers_of_two() {
    let txs: Vec<Transaction> = (0..8)
        .map(|i| Transaction::new(format!("s{}", i), format!("r{}", i), 100 + i as i64))
        .collect();
    for n in [2usize, 4, 8] {
        let ts = &txs[..n];
        let left = Block::merkle_root(&ts[..n / 2]);
        let right = Block::merkle_root(&ts[n / 2..]);
        assert_eq!(Block::merkle_root(ts), sha_hex(format!("{}{}", left, right).as_bytes()));
    }
}

#[test]
fn block_hashes_are_64_hex_digits() {
    let b = Block::genesis();
    assert_eq!(b.hash.len(), 64);
    assert!(b.hash.chars().all(|c| c.is_ascii_digit() || ('a'..='f').contains(&c)));
}

#[test]
fn merkle_root_is_64_hex_digits() {
    let txs = vec![Transaction::coinbase("m".to_string(), 5000), Transaction::new("a".to_string(), "b".to_string(), 1)];
    let root = Block::merkle_root(&txs);
    assert_eq!(root.len(), 64);
    assert!(root.chars().all(|c| c.is_ascii_digit() || ('a'..='f').contains(&c)));
}
