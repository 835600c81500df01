use blockchain::Block;
use blockchain::Blockchain;
use blockchain::Transaction;
use sha2::Digest;
use sha2::Sha256;

fn text(lines: Vec<Vec<u8>>) -> Vec<String> {
    lines.into_iter().map(|l| String::from_utf8(l).unwrap()).collect()
}

/// The lines the drawing is expected to have, computed step by step.
fn reference_tree(transactions: &[Transaction]) -> Vec<String> {
    let mut out = Vec::new();
    out.push(format!("\nMerkle Tree ({} transaction(s))", transactions.len()));
    out.push("═".repeat(60));
    if transactions.is_empty() {
        out.push("  (no transactions)".to_string());
        out.push(String::new());
        return out;
    }
    const H: usize = 8;
    const NW: usize = H + 2;
    const LEAF_GAP: usize = 4;
    let original_count = transactions.len();
    let mut leaves: Vec<String> = transactions.iter().map(|tx| tx.hash()).collect();
    let target_len = original_count.next_power_of_two();
    while leaves.len() < target_len {
        leaves.push(leaves.last().unwrap().clone());
    }
    let mut levels: Vec<Vec<String>> = vec![leaves];
    while levels.last().unwrap().len() > 1 {
        let current = levels.last().unwrap().clone();
        let next = current
            .chunks(2)
            .map(|chunk| hex::encode(Sha256::digest(format!("{}{}", chunk[0], chunk[1]).as_bytes())))
            .collect();
        levels.push(next);
    }
    let n_levels = levels.len();
    let n_leaves = levels[0].len();
    let mut centers: Vec<Vec<usize>> = vec![vec![]; n_levels];
    for j in 0..n_leaves {
        centers[0].push(j * (NW + LEAF_GAP) + NW / 2);
    }
    for d in 1..n_levels {
        for j in 0..levels[d].len() {
            let l = centers[d - 1][2 * j];
            let r = centers[d - 1][2 * j + 1];
            centers[d].push((l + r) / 2);
        }
    }
    let total_w = n_leaves * (NW + LEAF_GAP) + 2;
    for d in (0..n_levels).rev() {
        let mut row = vec![b' '; total_w];
        for (j, hash) in levels[d].iter().enumerate() {
            let start = centers[d][j].saturating_sub(NW / 2);
            let label = format!("[{}]", &hash[..H]);
            for (k, byte) in label.bytes().enumerate() {
                if start + k < row.len() {
                    row[start + k] = byte;
                }
            }
        }
        out.push(String::from_utf8_lossy(&row).trim_end().to_string());
        if d > 0 {
            let mut brow = vec![b' '; total_w];
            for j in 0..levels[d].len() {
                let pc = centers[d][j];
                let lc = centers[d - 1][2 * j];
                let rc = centers[d - 1][2 * j + 1];
                let slash = (pc + lc) / 2;
                let backslash = (pc + rc) / 2;
                if slash < brow.len() {
                    brow[slash] = b'/';
                }
                if backslash < brow.len() {
                    brow[backslash] = b'\\';
                }
            }
            out.push(String::from_utf8_lossy(&brow).trim_end().to_string());
        }
    }
    out.push(String::new());
    let mut lrow = vec![b' '; total_w];
    for j in 0..n_leaves {
        let label = if j >= original_count {
            "(dup)".to_string()
        } else if transactions[j].is_coinbase() {
            "COINBASE".to_string()
        } else {
            format!("TX#{}", j)
        };
        let start = centers[0][j].saturating_sub(label.len() / 2);
        for (k, byte) in label.bytes().enumerate() {
            if start + k < lrow.len() {
                lrow[start + k] = byte;
            }
        }
    }
    out.push(String::from_utf8_lossy(&lrow).trim_end().to_string());
    out.push(String::new());
    out
}

fn some_transactions(n: usize) -> Vec<Transaction> {
    let mut txs = vec![Transaction::coinbase("miner_address_0123".to_string(), 5000)];
    for i in 1..n {
        txs.push(Transaction::new(format!("sender{}", i), format!("receiver{}", i), 100 * i as i64));
    }
    txs
}

#[test]
fn merkle_drawing_without_transactions() {
    let lines = text(Block::merkle_tree_lines(&[]));
    assert_eq!(lines, reference_tree(&[]));
    assert_eq!(lines[2], "  (no transactions)");
}

#[test]
fn merkle_drawing_of_one_transaction() {
    let txs = some_transactions(1);
    let lines = text(Block::merkle_tree_lines(&txs));
    let h = txs[0].hash();
    assert_eq!(lines[2], format!("[{}]", &h[..8]));
    assert_eq!(lines[4], " COINBASE");
    assert_eq!(lines, reference_tree(&txs));
}

#[test]
fn merkle_drawing_matches_step_by_step_layout() {
    for n in 2..=9 {
        let txs = some_transactions(n);
        let lines = text(Block::merkle_tree_lines(&txs));
        assert_eq!(lines, reference_tree(&txs), "{} transactions", n);
    }
}

#[test]
fn merkle_drawing_of_three_has_a_duplicate_leaf() {
    let txs = some_transactions(3);
    let lines = text(Block::merkle_tree_lines(&txs));
    let captions = &lines[lines.len() - 2];
    assert!(captions.contains("COINBASE"));
    assert!(captions.contains("TX#1"));
    assert!(captions.contains("TX#2"));
    assert!(captions.contains("(dup)"));
}

#[test]
fn chain_report_lines() {
    let mut bc = Blockchain::new();
    let txs = vec![
        Transaction::coinbase("miner_address".to_string(), 5000),
        Transaction::new("alice_address".to_string(), "bob_address".to_string(), 10050),
    ];
    let b = Block::new_at(1, 1700000000, txs, bc.last_block().hash.clone());
    bc.chain.push(b.clone());
    let lines = text(bc.chain_report());
    let g = &bc.chain[0];
    assert_eq!(
        lines,
        vec![
            "\nBlockchain (2 blocks):".to_string(),
            "─".repeat(80),
            format!("Block #0 | Hash: {}... | Transactions: 1 | Nonce: 0", &g.hash[..16]),
            "COINBASE → genesis_ : 0.00 RTC".to_string(),
            format!("Block #1 | Hash: {}... | Transactions: 2 | Nonce: 0", &b.hash[..16]),
            "COINBASE → miner_ad : 50.00 RTC".to_string(),
            "money alice_ad... → bob_addr... : 100.50 RTC".to_string(),
            "─".repeat(80),
        ]
    );
}

#[test]
fn drawn_root_is_the_merkle_root() {
    for n in [1usize, 2, 4, 8] {
        let txs = some_transactions(n);
        let lines = text(Block::merkle_tree_lines(&txs));
        let root = Block::merkle_root(&txs);
        assert_eq!(lines[2], format!("{}[{}]", " ".repeat(7 * n - 7), &root[..8]), "{} transactions", n);
    }
}

#[test]
fn new_chain_can_be_reported() {
    let bc = Blockchain::new();
    assert!(bc.can_report());
    let lines = text(bc.chain_report());
    assert_eq!(lines.len(), 5);
    assert_eq!(lines[3], "COINBASE → genesis_ : 0.00 RTC");
    let mut short = Blockchain::new();
    short.chain[0].hash = "abc".to_string();
    assert!(!short.can_report());
    let mut short_addr = Blockchain::new();
    short_addr.chain[0].transactions.push(Transaction::new("ab".to_string(), "receiver_x".to_string(), 1));
    assert!(!short_addr.can_report());
}
