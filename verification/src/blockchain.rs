//! The chain, the mempool of pending transfers, balances and public keys.

use vstd::prelude::*;
use vstd::string::StringExecFns;

use crate::address_map::AddressMap;
use crate::block::genesis_address;
use crate::block::genesis_address_string;
use crate::block::zero_hash;
use crate::block::Block;
use crate::block::MINING_REWARD;
use crate::mining::meets_difficulty;
use crate::mining::meets_target;
use crate::mining::lemma_meets_target_chars;
use crate::mining::DIFFICULTY;
use crate::mining::mine_block;
use crate::mining::solves;
use crate::primitives::unix_time_now;
use crate::text::amount_fixed2;
use crate::text::ascii_chars;
use crate::text::push_amount_fixed2;
use crate::text::push_ascii;
use crate::text::utf8;
use crate::report::reportable;
use crate::transaction::coinbase_tag;
use crate::transaction::Transaction;
use crate::wallet::signature_valid;
use crate::wallet::Wallet;

verus! {

/// The coins given to `genesis_address` when a chain starts: one million,
/// in hundredths.
pub const GENESIS_SUPPLY: i64 = 100_000_000;

/// Why a block breaks the chain.
#[derive(Clone, Copy, Debug, PartialEq, Eq)]
pub enum ChainFault {
    /// The stored hash is not the hash of the block's contents.
    InvalidHash,
    /// The previous-hash field does not name the block before.
    BrokenLink,
    /// The hash does not meet the proof-of-work target.
    InsufficientWork,
}

/// The balance of an address: its entry, or 0 without one.
pub open spec fn balance_of(m: Map<Seq<char>, i64>, a: Seq<char>) -> int {
    if m.dom().contains(a) {
        m[a] as int
    } else {
        0
    }
}

/// A payment: who receives how much.
pub open spec fn payment(tx: Transaction) -> (Seq<char>, i64) {
    (tx.reciever@, tx.amount)
}

/// The payments of a list of transactions.
pub open spec fn payments(txs: Seq<Transaction>) -> Seq<(Seq<char>, i64)> {
    txs.map_values(|t: Transaction| payment(t))
}

/// Balances after crediting one payment.
pub open spec fn credit(m: Map<Seq<char>, i64>, p: (Seq<char>, i64)) -> Map<Seq<char>, i64> {
    m.insert(p.0, (balance_of(m, p.0) + p.1) as i64)
}

/// Balances after crediting a list of payments in order.
pub open spec fn credit_all(m: Map<Seq<char>, i64>, ps: Seq<(Seq<char>, i64)>) -> Map<Seq<char>, i64>
    decreases ps.len(),
{
    if ps.len() == 0 {
        m
    } else {
        credit(credit_all(m, ps.drop_last()), ps.last())
    }
}

/// Whether every running balance stays within `i64` while the payments
/// are credited in order.
pub open spec fn credits_fit(m: Map<Seq<char>, i64>, ps: Seq<(Seq<char>, i64)>) -> bool {
    forall|i: int|
        0 <= i < ps.len() ==> i64::MIN <= #[trigger] balance_of(credit_all(m, ps.take(i)), ps[i].0)
            + ps[i].1 <= i64::MAX
}

/// The total paid to `a` by a list of payments.
pub open spec fn paid_to(ps: Seq<(Seq<char>, i64)>, a: Seq<char>) -> int
    decreases ps.len(),
{
    if ps.len() == 0 {
        0
    } else {
        paid_to(ps.drop_last(), a) + if ps.last().0 == a {
            ps.last().1 as int
        } else {
            0
        }
    }
}

/// While every earlier step fits, the running balance of `a` is its starting
/// balance plus everything paid to it so far.
pub proof fn lemma_running_balance(m: Map<Seq<char>, i64>, ps: Seq<(Seq<char>, i64)>, i: int, a: Seq<char>)
    requires
        0 <= i <= ps.len(),
        forall|j: int| 0 <= j < i ==> i64::MIN <= #[trigger] balance_of(credit_all(m, ps.take(j)), ps[j].0)
            + ps[j].1 <= i64::MAX,
    ensures
        balance_of(credit_all(m, ps.take(i)), a) == balance_of(m, a) + paid_to(ps.take(i), a),
    decreases i,
{
    if i > 0 {
        lemma_running_balance(m, ps, i - 1, a);
        lemma_running_balance(m, ps, i - 1, ps[i - 1].0);
        assert(ps.take(i).drop_last() =~= ps.take(i - 1));
        assert(balance_of(credit_all(m, ps.take(i - 1)), ps[i - 1].0) + ps[i - 1].1 <= i64::MAX);
    } else {
        assert(ps.take(0) =~= Seq::<(Seq<char>, i64)>::empty());
    }
}

/// The sum of all balances.
pub open spec fn total_balance(m: &AddressMap<i64>) -> int {
    m.total(|v: i64| v as int)
}

/// The sum of the amounts of a list of transactions.
pub open spec fn pending_total(txs: Seq<Transaction>) -> int
    decreases txs.len(),
{
    if txs.len() == 0 {
        0
    } else {
        pending_total(txs.drop_last()) + txs.last().amount
    }
}

/// The sum of the amounts of a list of payments.
pub open spec fn payments_total(ps: Seq<(Seq<char>, i64)>) -> int
    decreases ps.len(),
{
    if ps.len() == 0 {
        0
    } else {
        payments_total(ps.drop_last()) + ps.last().1
    }
}

/// A reward followed by the payments of some transactions pays the reward
/// plus their amounts.
proof fn lemma_block_payments_total(first: (Seq<char>, i64), txs: Seq<Transaction>)
    ensures
        payments_total(seq![first] + payments(txs)) == first.1 + pending_total(txs),
    decreases txs.len(),
{
    if txs.len() == 0 {
        assert(seq![first] + payments(txs) =~= seq![first]);
        assert(seq![first].drop_last() =~= Seq::<(Seq<char>, i64)>::empty());
        reveal_with_fuel(payments_total, 2);
    } else {
        lemma_block_payments_total(first, txs.drop_last());
        let all = seq![first] + payments(txs);
        assert(all.drop_last() =~= seq![first] + payments(txs.drop_last()));
        assert(all.last() == payment(txs.last()));

    }
}

/// What is wrong with block `i` of a chain, if anything (block 0 is never
/// checked).
pub open spec fn fault_at(chain: Seq<Block>, i: int) -> Option<ChainFault> {
    if !chain[i].spec_has_valid_hash() {
        Some(ChainFault::InvalidHash)
    } else if chain[i].previous_hash@ != chain[i - 1].hash@ {
        Some(ChainFault::BrokenLink)
    } else if !meets_target(chain[i].hash@) {
        Some(ChainFault::InsufficientWork)
    } else {
        None
    }
}

/// Every block after the first has a valid hash, names the hash of the block
/// before it, and meets the proof-of-work target.
pub open spec fn chain_valid(chain: Seq<Block>) -> bool {
    forall|i: int| 1 <= i < chain.len() ==> #[trigger] fault_at(chain, i) is None
}

/// Block `i` is sound: it carries the hash of its own contents, names the
/// hash of block `i - 1`, and its hash begins with `DIFFICULTY` zeros.
pub open spec fn block_sound(chain: Seq<Block>, i: int) -> bool {
    &&& chain[i].hash@ == chain[i].spec_hash()
    &&& chain[i].previous_hash@ == chain[i - 1].hash@
    &&& chain[i].hash@.len() >= DIFFICULTY
    &&& forall|k: int| 0 <= k < DIFFICULTY ==> #[trigger] chain[i].hash@[k] == '0'
}

/// Block `i` has no fault exactly when it is sound.
pub proof fn lemma_fault_sound(chain: Seq<Block>, i: int)
    requires
        1 <= i < chain.len(),
    ensures
        fault_at(chain, i) is None <==> block_sound(chain, i),
{
    lemma_meets_target_chars(chain[i].hash@);
}

/// A chain is valid exactly when every block after the first carries the
/// hash of its own contents, names the hash of the block before it, and has
/// a hash beginning with `DIFFICULTY` zeros.
pub proof fn lemma_chain_valid_means(chain: Seq<Block>)
    ensures
        chain_valid(chain) <==> forall|i: int| 1 <= i < chain.len() ==> #[trigger] block_sound(chain, i),
        forall|i: int| 1 <= i < chain.len() ==> (#[trigger] fault_at(chain, i) is None <==> block_sound(chain, i)),
{
    assert forall|i: int| 1 <= i < chain.len() implies (#[trigger] fault_at(chain, i) is None <==> block_sound(
        chain,
        i,
    )) by {
        lemma_fault_sound(chain, i);
    }
    if chain_valid(chain) {
        assert forall|i: int| 1 <= i < chain.len() implies #[trigger] block_sound(chain, i) by {
            assert(fault_at(chain, i) is None);
        }
    }
    if forall|i: int| 1 <= i < chain.len() ==> #[trigger] block_sound(chain, i) {
        assert forall|i: int| 1 <= i < chain.len() implies #[trigger] fault_at(chain, i) is None by {
            assert(block_sound(chain, i));
        }
    }
}

/// Appending a block that names the last hash, carries its own hash and
/// meets the target keeps a valid chain valid.
pub proof fn lemma_push_keeps_valid(chain: Seq<Block>, b: Block)
    requires
        chain_valid(chain),
        chain.len() > 0,
        b.spec_has_valid_hash(),
        b.previous_hash@ == chain.last().hash@,
        meets_target(b.hash@),
    ensures
        chain_valid(chain.push(b)),
{
    let c = chain.push(b);
    assert forall|i: int| 1 <= i < c.len() implies #[trigger] fault_at(c, i) is None by {
        if i < chain.len() {
            assert(fault_at(chain, i) is None);
            assert(c[i] == chain[i] && c[i - 1] == chain[i - 1]);
        }
    }
}

/// What `mine_block` promises, restated for the mined block itself: a block
/// mined from nonce 0 has the least solving nonce, and it fails only when no
/// nonce solves it.
proof fn lemma_mined_facts(start: Block, mined: Block)
    requires
        start.nonce == 0,
        mined.index == start.index,
        mined.timestamp == start.timestamp,
        mined.transactions == start.transactions,
        mined.previous_hash == start.previous_hash,
        exists|k: int|
            0 <= k <= u64::MAX && mined.nonce == crate::mining::nonce_after(start.nonce, k) && forall|j: int|
                0 <= j < k ==> !#[trigger] solves(start, crate::mining::nonce_after(start.nonce, j)),
        meets_target(mined.hash@) || forall|n: u64| !#[trigger] solves(start, n),
    ensures
        meets_target(mined.hash@) ==> forall|n: u64| n < mined.nonce ==> !#[trigger] solves(mined, n),
        meets_target(mined.hash@) || forall|n: u64| !#[trigger] solves(mined, n),
{
    assert forall|n: u64| #![trigger solves(mined, n)] solves(mined, n) == solves(start, n) by {
        assert(crate::block::hash_with_nonce(mined, n) == crate::block::hash_with_nonce(start, n));
    }
    let k = choose|k: int|
        0 <= k <= u64::MAX && mined.nonce == crate::mining::nonce_after(start.nonce, k) && forall|j: int|
            0 <= j < k ==> !#[trigger] solves(start, crate::mining::nonce_after(start.nonce, j));
    assert forall|n: u64| n < mined.nonce implies !#[trigger] solves(mined, n) by {
        assert(crate::mining::nonce_after(0, n as int) == n);
        assert(mined.nonce == k);
    }
}

/// The message for a refused coinbase transaction.
pub open spec fn coinbase_refused() -> Seq<char> {
    "Cannot manually add coinbase transactions"@
}

/// The message for a bad signature.
pub open spec fn signature_refused() -> Seq<char> {
    "Invalid transaction signature"@
}

/// The message for a sender without a registered key.
pub open spec fn unknown_key(sender: Seq<char>) -> Seq<char> {
    "Public key for "@ + sender + " not found"@
}

/// The message for a transfer larger than the balance.
pub open spec fn insufficient_funds(balance: int, need: int) -> Seq<char> {
    "Insufficient funds: balance "@ + ascii_chars(amount_fixed2(balance)) + ", need "@ + ascii_chars(
        amount_fixed2(need),
    )
}

/// The message for a transfer of zero or less.
pub open spec fn not_positive() -> Seq<char> {
    "Transaction amount should be positive"@
}

/// A chain, its pending transfers, the balance of each address and the
/// registered public key of each address.
pub struct Blockchain {
    pub chain: Vec<Block>,
    pub mempool: Vec<Transaction>,
    pub balances: AddressMap<i64>,
    pub public_keys: AddressMap<String>,
}

impl Blockchain {
    /// All coins: the balances plus the amounts waiting in the mempool
    /// (which were taken from their senders when they were accepted).
    pub open spec fn supply(&self) -> int {
        total_balance(&self.balances) + pending_total(self.mempool@)
    }

    /// Why `add_transaction` refuses `tx`, if it does: a coinbase; a sender
    /// without a registered key; a signature that does not verify; a balance
    /// below the amount; an amount of zero or less, in that order.
    pub open spec fn rejection(&self, tx: Transaction) -> Option<Seq<char>> {
        if tx.spec_is_coinbase() {
            Some(coinbase_refused())
        } else if !self.public_keys@.dom().contains(tx.sender@) {
            Some(unknown_key(tx.sender@))
        } else if !signature_valid(tx, self.public_keys@[tx.sender@]@) {
            Some(signature_refused())
        } else if balance_of(self.balances@, tx.sender@) < tx.amount {
            Some(insufficient_funds(balance_of(self.balances@, tx.sender@), tx.amount as int))
        } else if tx.amount <= 0 {
            Some(not_positive())
        } else {
            None
        }
    }

    /// The payments a block mined now for `miner` would credit: the reward
    /// first, then the mempool in order.
    pub open spec fn block_payments(&self, miner: Seq<char>) -> Seq<(Seq<char>, i64)> {
        seq![(miner, MINING_REWARD)] + payments(self.mempool@)
    }

    /// A transfer is accepted exactly when it is not a coinbase, its sender
    /// has a registered key that its signature verifies against, and its
    /// amount is positive and at most the sender's balance; the mempool plays
    /// no part.
    pub proof fn lemma_acceptance(&self, tx: Transaction)
        ensures
            self.rejection(tx) is None <==> {
                &&& !tx.spec_is_coinbase()
                &&& self.public_keys@.dom().contains(tx.sender@)
                &&& signature_valid(tx, self.public_keys@[tx.sender@]@)
                &&& 0 < tx.amount <= balance_of(self.balances@, tx.sender@)
            },
    {
    }

    /// A chain holding the genesis block, with the genesis supply credited to
    /// `genesis_address`.
    pub fn new() -> (bc: Self)
        ensures
            bc.chain@.len() == 1,
            bc.chain@[0].index == 0,
            bc.chain@[0].timestamp == 0,
            bc.chain@[0].nonce == 0,
            bc.chain@[0].previous_hash@ == zero_hash(),
            bc.chain@[0].transactions@.len() == 1,
            bc.chain@[0].transactions@[0].sender@ == coinbase_tag(),
            bc.chain@[0].transactions@[0].reciever@ == genesis_address(),
            bc.chain@[0].transactions@[0].amount == 0,
            bc.chain@[0].transactions@[0].signature@ == coinbase_tag(),
            bc.chain@[0].spec_has_valid_hash(),
            utf8(bc.chain@[0].hash@).len() == 64,
            reportable(bc.chain@),
            bc.mempool@.len() == 0,
            bc.balances@ == Map::<Seq<char>, i64>::empty().insert(genesis_address(), GENESIS_SUPPLY),
            bc.public_keys@ == Map::<Seq<char>, String>::empty(),
            bc.supply() == GENESIS_SUPPLY,
            chain_valid(bc.chain@),
    {
        let genesis = Block::genesis();
        let mut chain: Vec<Block> = Vec::new();
        chain.push(genesis);
        let mut bc = Blockchain {
            chain,
            mempool: Vec::new(),
            balances: AddressMap::new(),
            public_keys: AddressMap::new(),
        };
        bc.balances.insert(genesis_address_string(), GENESIS_SUPPLY);
        proof {
            vstd::utf8::is_ascii_chars_encode_utf8(genesis_address());
            let c = bc.chain@;
            assert(utf8(c[0].transactions@[0].reciever@).len() == 15);
            assert(reportable(c));
        }
        bc
    }

    /// The newest block.
    pub fn last_block(&self) -> (b: &Block)
        requires
            self.chain@.len() > 0,
        ensures
            *b == self.chain@.last(),
    {
        &self.chain[self.chain.len() - 1]
    }

    /// Records the public key (hex) of an address, replacing any earlier one.
    pub fn register_public_key(&mut self, address: String, public_key: String)
        ensures
            final(self).public_keys@ == old(self).public_keys@.insert(address@, public_key),
            final(self).chain == old(self).chain,
            final(self).mempool == old(self).mempool,
            final(self).balances == old(self).balances,
    {
        self.public_keys.insert(address, public_key);
    }

    /// The balance of an address (0 if it has none).
    pub fn get_balance(&self, address: &str) -> (b: i64)
        ensures
            b == balance_of(self.balances@, address@),
    {
        match self.balances.get(address) {
            Some(v) => *v,
            None => 0,
        }
    }

    /// Accepts a signed transfer into the mempool, taking the amount from
    /// the sender's balance at once; refuses it, changing nothing, with the
    /// message of `rejection`.
    pub fn add_transaction(&mut self, tx: Transaction) -> (r: Result<(), String>)
        ensures
            ({
                &&& !tx.spec_is_coinbase()
                &&& old(self).public_keys@.dom().contains(tx.sender@)
                &&& signature_valid(tx, old(self).public_keys@[tx.sender@]@)
                &&& 0 < tx.amount <= balance_of(old(self).balances@, tx.sender@)
            }) ==> r is Ok && balance_of(final(self).balances@, tx.sender@) == balance_of(
                old(self).balances@,
                tx.sender@,
            ) - tx.amount,
            r is Ok ==> !tx.spec_is_coinbase() && 0 < tx.amount <= balance_of(old(self).balances@, tx.sender@),
            match old(self).rejection(tx) {
                Some(msg) => r matches Err(e) && e@ == msg && *final(self) == *old(self),
                None => {
                    &&& r is Ok
                    &&& final(self).balances@ == old(self).balances@.insert(
                        tx.sender@,
                        (balance_of(old(self).balances@, tx.sender@) - tx.amount) as i64,
                    )
                    &&& final(self).mempool@ == old(self).mempool@.push(tx)
                    &&& final(self).supply() == old(self).supply()
                    &&& final(self).chain == old(self).chain
                    &&& final(self).public_keys == old(self).public_keys
                },
            },
    {
        if tx.is_coinbase() {
            return Err("Cannot manually add coinbase transactions".to_string());
        }
        match self.public_keys.get(tx.sender.as_str()) {
            Some(pub_key) => {
                if !Wallet::verify_transaction(tx.copy(), pub_key.as_str()) {
                    return Err("Invalid transaction signature".to_string());
                }
            },
            None => {
                let mut msg = "Public key for ".to_string();
                msg.append(tx.sender.as_str());
                msg.append(" not found");
                return Err(msg);
            },
        }
        let balance = self.get_balance(tx.sender.as_str());
        if balance < tx.amount {
            let mut text: Vec<u8> = Vec::new();
            push_amount_fixed2(&mut text, balance);
            let mut msg = "Insufficient funds: balance ".to_string();
            push_ascii(&mut msg, text.as_slice());
            msg.append(", need ");
            let mut need: Vec<u8> = Vec::new();
            push_amount_fixed2(&mut need, tx.amount);
            push_ascii(&mut msg, need.as_slice());
            return Err(msg);
        }
        if tx.amount <= 0 {
            return Err("Transaction amount should be positive".to_string());
        }
        let ghost before = self.mempool@;
        proof {
            self.lemma_acceptance(tx);
        }
        self.balances.insert(tx.sender.clone(), balance - tx.amount);
        self.mempool.push(tx);
        assert(self.mempool@.drop_last() =~= before);
        Ok(())
    }

    /// Whether `mine_pending_transactions(miner_address)` can credit every
    /// payment of the new block without a balance leaving the `i64` range.
    pub fn can_credit_block(&self, miner_address: &String) -> (ok: bool)
        ensures
            ok == credits_fit(self.balances@, self.block_payments(miner_address@)),
    {
        let ghost m = self.balances@;
        let ghost ps = self.block_payments(miner_address@);
        let n: usize = self.mempool.len();
        let mut i: usize = 0;
        while i <= n
            invariant
                n == self.mempool@.len(),
                ps.len() == n + 1,
                ps == self.block_payments(miner_address@),
                m == self.balances@,
                i <= n + 1,
                forall|j: int| 0 <= j < i ==> i64::MIN <= #[trigger] balance_of(credit_all(m, ps.take(j)), ps[j].0)
                    + ps[j].1 <= i64::MAX,
            decreases n + 1 - i,
        {
            let (receiver, amount) = if i == 0 {
                (miner_address, MINING_REWARD)
            } else {
                (&self.mempool[i - 1].reciever, self.mempool[i - 1].amount)
            };
            assert(receiver@ == ps[i as int].0 && amount == ps[i as int].1);
            let mut running: i128 = self.get_balance(receiver.as_str()) as i128;
            let mut j: usize = 0;
            while j < i
                invariant
                    n == self.mempool@.len(),
                    ps.len() == n + 1,
                    ps == self.block_payments(miner_address@),
                    m == self.balances@,
                    j <= i <= n,
                    receiver@ == ps[i as int].0,
                    forall|k: int| 0 <= k < i ==> i64::MIN <= #[trigger] balance_of(credit_all(m, ps.take(k)), ps[k].0)
                        + ps[k].1 <= i64::MAX,
                    running == balance_of(m, ps[i as int].0) + paid_to(ps.take(j as int), ps[i as int].0),
                    i64::MIN * (j + 1) <= running <= i64::MAX * (j + 1),
                decreases i - j,
            {
                let (r, a) = if j == 0 {
                    (miner_address, MINING_REWARD)
                } else {
                    (&self.mempool[j - 1].reciever, self.mempool[j - 1].amount)
                };
                assert(r@ == ps[j as int].0 && a == ps[j as int].1);
                assert(ps.take(j + 1).drop_last() =~= ps.take(j as int));
                if *r == *receiver {
                    running = running + a as i128;
                }
                j = j + 1;
            }
            proof {
                lemma_running_balance(m, ps, i as int, ps[i as int].0);
            }
            let total: i128 = running + amount as i128;
            if total < i64::MIN as i128 || total > i64::MAX as i128 {
                return false;
            }
            if i == n {
                return true;
            }
            i = i + 1;
        }
        true
    }

    /// Mines a block holding a reward of `MINING_REWARD` for `miner_address`
    /// followed by every pending transfer, credits each receiver, appends the
    /// block and empties the mempool.
    pub fn mine_pending_transactions(&mut self, miner_address: String)
        requires
            old(self).chain@.len() > 0,
            credits_fit(old(self).balances@, old(self).block_payments(miner_address@)),
        ensures
            final(self).chain@.len() == old(self).chain@.len() + 1,
            final(self).chain@.drop_last() == old(self).chain@,
            ({
                let b = final(self).chain@.last();
                &&& b.index == old(self).chain@.len()
                &&& b.previous_hash@ == old(self).chain@.last().hash@
                &&& b.transactions@.len() == old(self).mempool@.len() + 1
                &&& b.transactions@[0].sender@ == coinbase_tag()
                &&& b.transactions@[0].signature@ == coinbase_tag()
                &&& b.transactions@[0].reciever == miner_address
                &&& b.transactions@[0].amount == MINING_REWARD
                &&& b.transactions@.drop_first() == old(self).mempool@
                &&& b.spec_has_valid_hash()
                &&& b.hash@.len() == 64
                &&& utf8(b.hash@).len() == 64
                &&& meets_target(b.hash@) ==> forall|n: u64| n < b.nonce ==> !#[trigger] solves(b, n)
                &&& meets_target(b.hash@) || forall|n: u64| !#[trigger] solves(b, n)
            }),
            final(self).mempool@.len() == 0,
            final(self).supply() == old(self).supply() + MINING_REWARD,
            final(self).balances@ == credit_all(old(self).balances@, old(self).block_payments(miner_address@)),
            forall|a: Seq<char>|
                #[trigger] balance_of(final(self).balances@, a) == balance_of(old(self).balances@, a) + paid_to(
                    old(self).block_payments(miner_address@),
                    a,
                ),
            final(self).public_keys == old(self).public_keys,
            chain_valid(old(self).chain@) && meets_target(final(self).chain@.last().hash@) ==> chain_valid(
                final(self).chain@,
            ),
    {
        let now: i64 = unix_time_now();
        self.mine_pending_transactions_at(miner_address, now as u64);
    }

    /// `mine_pending_transactions` with the new block stamped `timestamp`.
    pub fn mine_pending_transactions_at(&mut self, miner_address: String, timestamp: u64)
        requires
            old(self).chain@.len() > 0,
            credits_fit(old(self).balances@, old(self).block_payments(miner_address@)),
        ensures
            final(self).chain@.len() == old(self).chain@.len() + 1,
            final(self).chain@.drop_last() == old(self).chain@,
            ({
                let b = final(self).chain@.last();
                &&& b.index == old(self).chain@.len()
                &&& b.timestamp == timestamp
                &&& b.previous_hash@ == old(self).chain@.last().hash@
                &&& b.transactions@.len() == old(self).mempool@.len() + 1
                &&& b.transactions@[0].sender@ == coinbase_tag()
                &&& b.transactions@[0].signature@ == coinbase_tag()
                &&& b.transactions@[0].reciever == miner_address
                &&& b.transactions@[0].amount == MINING_REWARD
                &&& b.transactions@.drop_first() == old(self).mempool@
                &&& b.spec_has_valid_hash()
                &&& b.hash@.len() == 64
                &&& utf8(b.hash@).len() == 64
                &&& meets_target(b.hash@) ==> forall|n: u64| n < b.nonce ==> !#[trigger] solves(b, n)
                &&& meets_target(b.hash@) || forall|n: u64| !#[trigger] solves(b, n)
            }),
            final(self).mempool@.len() == 0,
            final(self).supply() == old(self).supply() + MINING_REWARD,
            final(self).balances@ == credit_all(old(self).balances@, old(self).block_payments(miner_address@)),
            forall|a: Seq<char>|
                #[trigger] balance_of(final(self).balances@, a) == balance_of(old(self).balances@, a) + paid_to(
                    old(self).block_payments(miner_address@),
                    a,
                ),
            final(self).public_keys == old(self).public_keys,
            chain_valid(old(self).chain@) && meets_target(final(self).chain@.last().hash@) ==> chain_valid(
                final(self).chain@,
            ),
    {
        let ghost ps = self.block_payments(miner_address@);
        let coinbase = Transaction::coinbase(miner_address.clone(), MINING_REWARD);
        let mut transactions: Vec<Transaction> = Vec::new();
        transactions.push(coinbase);
        transactions.append(&mut self.mempool);
        assert(payments(transactions@) =~= ps);
        let previous_hash = self.last_block().hash.clone();
        let index: u64 = self.chain.len() as u64;
        let new_block = Block::new_at(index, timestamp, transactions, previous_hash);
        let mined = mine_block(new_block);
        proof {
            lemma_mined_facts(new_block, mined);
        }
        self.credit_block(&mined.transactions);
        proof {
            lemma_block_payments_total((miner_address@, MINING_REWARD), old(self).mempool@);
        }
        proof {
            assert forall|a: Seq<char>|
                #[trigger] balance_of(self.balances@, a) == balance_of(old(self).balances@, a) + paid_to(ps, a) by {
                lemma_running_balance(old(self).balances@, ps, ps.len() as int, a);
                assert(ps.take(ps.len() as int) =~= ps);
            }
        }
        let ghost before = self.chain@;
        self.chain.push(mined);
        proof {
            assert(self.chain@.drop_last() =~= before);
            if chain_valid(before) && meets_target(mined.hash@) {
                lemma_push_keeps_valid(before, mined);
            }
        }
    }

    /// Credits the payment of each transaction in order.
    fn credit_block(&mut self, txs: &Vec<Transaction>)
        requires
            credits_fit(old(self).balances@, payments(txs@)),
        ensures
            final(self).balances@ == credit_all(old(self).balances@, payments(txs@)),
            total_balance(&final(self).balances) == total_balance(&old(self).balances) + payments_total(
                payments(txs@),
            ),
            final(self).chain == old(self).chain,
            final(self).mempool == old(self).mempool,
            final(self).public_keys == old(self).public_keys,
    {
        let ghost ps = payments(txs@);
        let ghost start = self.balances@;
        let count: usize = txs.len();
        let mut i: usize = 0;
        while i < count
            invariant
                count == txs@.len(),
                payments(txs@) == ps,
                credits_fit(start, ps),
                i <= count,
                self.balances@ == credit_all(start, ps.take(i as int)),
                total_balance(&self.balances) == total_balance(&old(self).balances) + payments_total(ps.take(i as int)),
                self.chain == old(self).chain,
                self.mempool == old(self).mempool,
                self.public_keys == old(self).public_keys,
            decreases count - i,
        {
            let tx = &txs[i];
            assert(ps[i as int] == payment(txs@[i as int]));
            let current = self.get_balance(tx.reciever.as_str());
            assert(i64::MIN <= balance_of(credit_all(start, ps.take(i as int)), ps[i as int].0) + ps[i as int].1 <= i64::MAX);
            self.balances.insert(tx.reciever.clone(), current + tx.amount);
            i = i + 1;
            assert(ps.take(i as int).drop_last() =~= ps.take(i - 1));
        }
        assert(ps.take(count as int) =~= ps);
    }

    /// The first block (after the first) that breaks the chain, and why.
    pub fn find_chain_fault(&self) -> (r: Option<(usize, ChainFault)>)
        ensures
            r is None <==> chain_valid(self.chain@),
            r is None <==> forall|i: int| 1 <= i < self.chain@.len() ==> #[trigger] block_sound(self.chain@, i),
            r matches Some((i, f)) ==> 1 <= i < self.chain@.len() && fault_at(self.chain@, i as int) == Some(f)
                && forall|j: int| 1 <= j < i ==> #[trigger] fault_at(self.chain@, j) is None,
            r matches Some((i, f)) ==> !block_sound(self.chain@, i as int) && forall|j: int|
                1 <= j < i ==> #[trigger] block_sound(self.chain@, j),
            r matches Some((i, f)) ==> (f == ChainFault::BrokenLink <==> (self.chain@[i as int].hash@
                == self.chain@[i as int].spec_hash() && self.chain@[i as int].previous_hash@ != self.chain@[i
                - 1].hash@)),
            r matches Some((i, f)) ==> (f == ChainFault::InvalidHash <==> self.chain@[i as int].hash@
                != self.chain@[i as int].spec_hash()),
    {
        let r = self.first_fault();
        proof {
            let c = self.chain@;
            match r {
                None => {
                    lemma_chain_valid_means(c);
                },
                Some((i, f)) => {
                    lemma_fault_sound(c, i as int);
                    assert forall|j: int| 1 <= j < i implies #[trigger] block_sound(c, j) by {
                        lemma_fault_sound(c, j);
                    }
                    assert(!block_sound(c, i as int));
                    assert(!(forall|j: int| 1 <= j < c.len() ==> #[trigger] block_sound(c, j)));
                },
            }
        }
        r
    }

    /// The first block (after the first) whose `fault_at` is not `None`.
    fn first_fault(&self) -> (r: Option<(usize, ChainFault)>)
        ensures
            r is None <==> chain_valid(self.chain@),
            r matches Some((i, f)) ==> 1 <= i < self.chain@.len() && fault_at(self.chain@, i as int) == Some(f)
                && forall|j: int| 1 <= j < i ==> #[trigger] fault_at(self.chain@, j) is None,
    {
        let n: usize = self.chain.len();
        let mut i: usize = 1;
        while i < n
            invariant
                n == self.chain@.len(),
                1 <= i,
                forall|j: int| 1 <= j < i && j < n ==> #[trigger] fault_at(self.chain@, j) is None,
            decreases n - i,
        {
            let current = &self.chain[i];
            let previous = &self.chain[i - 1];
            if !current.has_valid_hash() {
                return Some((i, ChainFault::InvalidHash));
            }
            if current.previous_hash != previous.hash {
                return Some((i, ChainFault::BrokenLink));
            }
            if !meets_difficulty(current.hash.as_str()) {
                return Some((i, ChainFault::InsufficientWork));
            }
            i = i + 1;
        }
        None
    }

    /// Whether every block after the first has a valid hash, links to the
    /// block before it and meets the proof-of-work target.
    pub fn is_chain_valid(&self) -> (ok: bool)
        ensures
            ok == chain_valid(self.chain@),
            ok <==> forall|i: int| 1 <= i < self.chain@.len() ==> #[trigger] block_sound(self.chain@, i),
    {
        self.find_chain_fault().is_none()
    }
}

} // verus!
