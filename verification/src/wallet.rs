//! Ed25519 key pairs, addresses and transaction signatures.

use vstd::prelude::*;

use crate::primitives::ed25519_accepts;
use crate::primitives::ed25519_derive_public_key;
use crate::primitives::ed25519_generate_secret;
use crate::primitives::ed25519_public_key;
use crate::primitives::ed25519_sign;
use crate::primitives::ed25519_signature;
use crate::primitives::ed25519_verify;
use crate::primitives::hex_decode;
use crate::primitives::hex_encode;
use crate::primitives::sha256;
use crate::primitives::sha256_digest;
use crate::text::hex_decoded;
use crate::text::hex_lower;
use crate::text::lemma_hex_roundtrip;
use crate::text::utf8;
use crate::transaction::Transaction;

verus! {

/// A key pair and the address derived from its public key.
pub struct Wallet {
    secret_key: Vec<u8>,
    pub verifying_key: Vec<u8>,
    pub address: String,
}

/// The address of a public key: the first 20 bytes of its SHA-256 digest,
/// in lowercase hex (40 characters).
pub open spec fn address_of(public_key: Seq<u8>) -> Seq<char> {
    hex_lower(sha256_digest(public_key).subrange(0, 20))
}

/// Whether `tx` carries a valid signature for the public key written in hex:
/// coinbase transactions always do; any other needs a hex public key of 32
/// bytes, a hex signature of 64 bytes, and Ed25519 acceptance of the
/// signature over the UTF-8 bytes of the transaction hash.
pub open spec fn signature_valid(tx: Transaction, public_key_hex: Seq<char>) -> bool {
    tx.spec_is_coinbase() || match (hex_decoded(utf8(public_key_hex)), hex_decoded(utf8(tx.signature@))) {
        (Some(pk), Some(sig)) => pk.len() == 32 && sig.len() == 64 && ed25519_accepts(
            pk,
            utf8(tx.spec_hash()),
            sig,
        ),
        _ => false,
    }
}

impl Wallet {
    /// The secret key bytes.
    pub closed spec fn secret(&self) -> Seq<u8> {
        self.secret_key@
    }

    /// The public key bytes.
    pub closed spec fn public_key(&self) -> Seq<u8> {
        self.verifying_key@
    }

    /// The address text.
    pub closed spec fn address_text(&self) -> Seq<char> {
        self.address@
    }

    /// A 32-byte secret key, its public key, and the address of that key.
    pub open spec fn wf(&self) -> bool {
        &&& self.secret().len() == 32
        &&& self.public_key() == ed25519_public_key(self.secret())
        &&& self.public_key().len() == 32
        &&& self.address_text() == address_of(self.public_key())
        &&& self.address_text().len() == 40
    }

    /// Whether `signed` is `tx` with this wallet's signature of its hash.
    pub open spec fn signs(&self, tx: Transaction, signed: Transaction) -> bool {
        &&& signed.sender == tx.sender
        &&& signed.reciever == tx.reciever
        &&& signed.amount == tx.amount
        &&& signed.signature@ == hex_lower(ed25519_signature(self.secret(), utf8(tx.spec_hash())))
    }

    /// A wallet with a freshly generated random key.
    pub fn new() -> (w: Self)
        ensures
            w.wf(),
    {
        let secret = ed25519_generate_secret();
        Self::with_secret(secret)
    }

    /// The wallet of a given secret key, if it is 32 bytes long.
    pub fn from_secret_key(secret_key: Vec<u8>) -> (w: Option<Self>)
        ensures
            w is Some <==> secret_key@.len() == 32,
            w matches Some(w) ==> w.wf() && w.secret() == secret_key@,
    {
        if secret_key.len() == 32 {
            Some(Self::with_secret(secret_key))
        } else {
            None
        }
    }

    fn with_secret(secret_key: Vec<u8>) -> (w: Self)
        requires
            secret_key@.len() == 32,
        ensures
            w.wf(),
            w.secret() == secret_key@,
    {
        let verifying_key = ed25519_derive_public_key(secret_key.as_slice());
        let address = Self::compute_address(verifying_key.as_slice());
        Wallet { secret_key, verifying_key, address }
    }

    /// The address of a public key.
    fn compute_address(verifying_key: &[u8]) -> (address: String)
        ensures
            address@ == address_of(verifying_key@),
            address@.len() == 40,
    {
        let digest = sha256(verifying_key);
        let mut head: Vec<u8> = Vec::new();
        let mut i: usize = 0;
        while i < 20
            invariant
                digest@.len() == 32,
                i <= 20,
                head@ == digest@.subrange(0, i as int),
            decreases 20 - i,
        {
            head.push(digest[i]);
            i = i + 1;
        }
        proof {
            crate::text::lemma_hex_lower_ascii(head@);
        }
        hex_encode(head.as_slice())
    }

    /// The address: 40 lowercase hex digits.
    pub fn address(&self) -> (a: &String)
        ensures
            a@ == self.address_text(),
    {
        &self.address
    }

    /// The public key bytes.
    pub fn verifying_key(&self) -> (k: &Vec<u8>)
        ensures
            k@ == self.public_key(),
    {
        &self.verifying_key
    }

    /// The public key in lowercase hex.
    pub fn public_key_hex(&self) -> (text: String)
        ensures
            text@ == hex_lower(self.public_key()),
            self.wf() ==> text@.len() == 64,
    {
        proof {
            crate::text::lemma_hex_lower_ascii(self.verifying_key@);
        }
        hex_encode(self.verifying_key.as_slice())
    }

    /// A copy of `tx` signed with this wallet: the signature is the hex of the
    /// Ed25519 signature of the transaction hash, and it verifies against
    /// this wallet's public key.
    pub fn sign_transaction(&self, tx: &Transaction) -> (signed: Transaction)
        requires
            self.wf(),
        ensures
            self.signs(*tx, signed),
            signed.signature@.len() == 128,
            utf8(signed.signature@).len() == 128,
            signature_valid(signed, hex_lower(self.public_key())),
    {
        let tx_hash = tx.hash();
        let signature = ed25519_sign(self.secret_key.as_slice(), tx_hash.as_str().as_bytes());
        let mut signed = tx.copy();
        signed.signature = hex_encode(signature.as_slice());
        proof {
            lemma_hex_roundtrip(signature@);
            crate::text::lemma_hex_lower_ascii(signature@);
            crate::text::lemma_hex_utf8_len(signature@);
            lemma_hex_roundtrip(self.verifying_key@);
            assert(signed.spec_hash() == tx.spec_hash());
        }
        signed
    }

    /// Checks a transaction's signature against a hex public key (coinbase
    /// transactions pass without one).
    pub fn verify_transaction(tx: Transaction, public_key_hex: &str) -> (ok: bool)
        ensures
            ok == signature_valid(tx, public_key_hex@),
    {
        if tx.is_coinbase() {
            return true;
        }
        let pub_key_bytes = match hex_decode(public_key_hex) {
            Some(bytes) => bytes,
            None => return false,
        };
        if pub_key_bytes.len() != 32 {
            return false;
        }
        let sig_bytes = match hex_decode(tx.signature.as_str()) {
            Some(bytes) => bytes,
            None => return false,
        };
        if sig_bytes.len() != 64 {
            return false;
        }
        let tx_hash = tx.hash();
        ed25519_verify(pub_key_bytes.as_slice(), tx_hash.as_str().as_bytes(), sig_bytes.as_slice())
    }
}

} // verus!
