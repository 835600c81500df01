use blockchain::Transaction;
use blockchain::Wallet;
use sha2::Digest;
use sha2::Sha256;

fn fixed_wallet(seed: u8) -> Wallet {
    Wallet::from_secret_key(vec![seed; 32]).unwrap()
}

#[test]
fn wallet_keys_and_address_follow_ed25519() {
    let w = fixed_wallet(7);
    let sk = ed25519_dalek::SigningKey::from_bytes(&[7u8; 32]);
    let pk = sk.verifying_key().to_bytes();
    assert_eq!(w.verifying_key, pk.to_vec());
    assert_eq!(w.public_key_hex(), hex::encode(pk));
    let digest = Sha256::digest(pk);
    assert_eq!(w.address, hex::encode(&digest[..20]));
    assert_eq!(w.address.len(), 40);
}

#[test]
fn secret_key_must_be_32_bytes() {
    assert!(Wallet::from_secret_key(vec![1u8; 31]).is_none());
    assert!(Wallet::from_secret_key(vec![1u8; 33]).is_none());
    assert!(Wallet::from_secret_key(vec![1u8; 32]).is_some());
}

#[test]
fn random_wallets_differ() {
    let a = Wallet::new();
    let b = Wallet::new();
    assert_ne!(a.address, b.address);
    assert_eq!(a.verifying_key.len(), 32);
}

#[test]
fn signed_transaction_verifies() {
    let w = fixed_wallet(9);
    let tx = Transaction::new(w.address.clone(), "bob".to_string(), 10000);
    let signed = w.sign_transaction(&tx);
    assert_eq!(signed.sender, tx.sender);
    assert_eq!(signed.reciever, tx.reciever);
    assert_eq!(signed.amount, tx.amount);
    assert_eq!(signed.signature.len(), 128);
    let sk = ed25519_dalek::SigningKey::from_bytes(&[9u8; 32]);
    let expected = ed25519_dalek::Signer::sign(&sk, tx.hash().as_bytes());
    assert_eq!(signed.signature, hex::encode(expected.to_bytes()));
    assert!(Wallet::verify_transaction(signed.clone(), &w.public_key_hex()));
}

#[test]
fn tampered_or_foreign_signatures_fail() {
    let w = fixed_wallet(9);
    let other = fixed_wallet(10);
    let tx = Transaction::new(w.address.clone(), "bob".to_string(), 10000);
    let signed = w.sign_transaction(&tx);
    let mut tampered = signed.clone();
    tampered.amount = 99999;
    assert!(!Wallet::verify_transaction(tampered, &w.public_key_hex()));
    assert!(!Wallet::verify_transaction(signed.clone(), &other.public_key_hex()));
    assert!(!Wallet::verify_transaction(tx.clone(), &w.public_key_hex()));
}

#[test]
fn malformed_keys_and_signatures_fail() {
    let w = fixed_wallet(3);
    let signed = w.sign_transaction(&Transaction::new("a".to_string(), "b".to_string(), 5));
    assert!(!Wallet::verify_transaction(signed.clone(), "zz"));
    assert!(!Wallet::verify_transaction(signed.clone(), "abc"));
    assert!(!Wallet::verify_transaction(signed.clone(), &"ab".repeat(31)));
    let mut short = signed.clone();
    short.signature = "00".repeat(63);
    assert!(!Wallet::verify_transaction(short, &w.public_key_hex()));
    let upper = w.public_key_hex().to_uppercase();
    assert!(Wallet::verify_transaction(signed, &upper));
}

#[test]
fn coinbase_always_verifies() {
    let tx = Transaction::coinbase("m".to_string(), 5000);
    assert!(Wallet::verify_transaction(tx, "not hex at all"));
}

#[test]
fn wallet_accessors_and_lengths() {
    let w = fixed_wallet(5);
    assert_eq!(w.address(), &w.address);
    assert_eq!(w.verifying_key(), &w.verifying_key);
    assert_eq!(w.address().len(), 40);
    assert_eq!(w.public_key_hex().len(), 64);
    let coinbase = w.sign_transaction(&Transaction::coinbase("m".to_string(), 5000));
    assert_eq!(coinbase.signature.len(), 128);
    assert!(coinbase.signature.chars().all(|c| c.is_ascii_digit() || ('a'..='f').contains(&c)));
    let again = w.sign_transaction(&Transaction::coinbase("m".to_string(), 5000));
    assert_eq!(again.signature, coinbase.signature);
}
