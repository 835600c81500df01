use blockchain::text::push_amount_fixed2;
use blockchain::text::push_amount_json;
use blockchain::text::push_amount_text;
use blockchain::Transaction;
use sha2::Digest;
use sha2::Sha256;

fn sha_hex(data: &[u8]) -> String {
    hex::encode(Sha256::digest(data))
}

fn coins(c: i64) -> f64 {
    c as f64 / 100.0
}

#[test]
fn new_transaction_is_unsigned() {
    let tx = Transaction::new("alice".to_string(), "bob".to_string(), 10050);
    assert_eq!(tx.sender, "alice");
    assert_eq!(tx.reciever, "bob");
    assert_eq!(tx.amount, 10050);
    assert_eq!(tx.signature, "");
    assert!(!tx.is_coinbase());
}

#[test]
fn coinbase_transaction_fields() {
    let tx = Transaction::coinbase("miner".to_string(), 5000);
    assert_eq!(tx.sender, "COINBASE");
    assert_eq!(tx.signature, "COINBASE");
    assert_eq!(tx.reciever, "miner");
    assert_eq!(tx.amount, 5000);
    assert!(tx.is_coinbase());
}

#[test]
fn transaction_hash_matches_float_formatting() {
    for amount in [0i64, 1, 5, 10, 50, 99, 100, 10050, 5000, -250, -5, 123456789, 99999900] {
        let tx = Transaction::new("alice".to_string(), "bob".to_string(), amount);
        let expected = sha_hex(format!("{}{}{}", "alice", "bob", coins(amount)).as_bytes());
        assert_eq!(tx.hash(), expected, "amount {}", amount);
        assert_eq!(tx.hash().len(), 64);
    }
}

#[test]
fn transaction_hash_ignores_signature() {
    let mut tx = Transaction::new("a".to_string(), "b".to_string(), 300);
    let before = tx.hash();
    tx.signature = "abcdef".to_string();
    assert_eq!(tx.hash(), before);
    tx.amount = 301;
    assert_ne!(tx.hash(), before);
}

#[test]
fn amount_text_forms() {
    for c in [0i64, 1, 7, 10, 70, 100, 105, 150, 5000, -1, -10, -100, -12345, 100000000, i64::MAX, i64::MIN] {
        let mut text = Vec::new();
        push_amount_text(&mut text, c);
        let mut json = Vec::new();
        push_amount_json(&mut json, c);
        let mut fixed = Vec::new();
        push_amount_fixed2(&mut fixed, c);
        if c.abs() < 1_000_000_000_000_000 && c != i64::MIN {
            assert_eq!(String::from_utf8(text).unwrap(), format!("{}", coins(c)), "{}", c);
            assert_eq!(String::from_utf8(json).unwrap(), serde_json::to_string(&coins(c)).unwrap(), "{}", c);
            assert_eq!(String::from_utf8(fixed).unwrap(), format!("{:.2}", coins(c)), "{}", c);
        }
    }
}

#[test]
fn amount_text_exact_values() {
    let mut t = Vec::new();
    push_amount_text(&mut t, -12345);
    assert_eq!(t, b"-123.45".to_vec());
    let mut j = Vec::new();
    push_amount_json(&mut j, 5000);
    assert_eq!(j, b"50.0".to_vec());
    let mut f = Vec::new();
    push_amount_fixed2(&mut f, 5);
    assert_eq!(f, b"0.05".to_vec());
    let mut big = Vec::new();
    push_amount_text(&mut big, i64::MIN);
    assert_eq!(big, b"-92233720368547758.08".to_vec());
}
