//! Merkle roots over the hashes of a block's transactions.

use vstd::prelude::*;

use crate::block::zero_hash;
use crate::block::zero_hash_string;
use crate::block::Block;
use crate::primitives::hex_encode;
use crate::primitives::sha256;
use crate::primitives::sha256_digest;
use crate::text::hex_lower;
use crate::text::push_bytes;
use crate::text::utf8;
use crate::transaction::Transaction;

verus! {

/// The hash of two child hashes: SHA-256 of their texts run together.
pub open spec fn merkle_parent(left: Seq<char>, right: Seq<char>) -> Seq<char> {
    hex_lower(sha256_digest(utf8(left) + utf8(right)))
}

/// A level with its last hash repeated when the count is odd.
pub open spec fn padded(level: Seq<Seq<char>>) -> Seq<Seq<char>> {
    if level.len() % 2 == 1 {
        level.push(level.last())
    } else {
        level
    }
}

/// The level above: the parent of each pair of the padded level.
pub open spec fn next_level(level: Seq<Seq<char>>) -> Seq<Seq<char>> {
    let p = padded(level);
    Seq::new(p.len() / 2, |i: int| merkle_parent(p[2 * i], p[2 * i + 1]))
}

/// The level above a non-empty level has half as many hashes, rounded up:
/// each is the parent of two neighbours, and when the count is odd the last
/// is the parent of the last hash with itself.
pub proof fn lemma_next_level(level: Seq<Seq<char>>)
    requires
        level.len() > 0,
    ensures
        next_level(level).len() == (level.len() + 1) / 2,
        forall|i: int|
            0 <= i && 2 * i + 1 < level.len() ==> #[trigger] next_level(level)[i] == merkle_parent(
                level[2 * i],
                level[2 * i + 1],
            ),
        level.len() % 2 == 1 ==> next_level(level).last() == merkle_parent(level.last(), level.last()),
{
    let p = padded(level);
    if level.len() % 2 == 1 {
        assert(p[level.len() - 1] == level.last());
        assert(p[level.len() as int] == level.last());
    }
}

/// The single hash that repeated pairing reduces a non-empty level to.
pub open spec fn merkle_reduce(level: Seq<Seq<char>>) -> Seq<char>
    decreases level.len(),
{
    if level.len() <= 1 {
        level[0]
    } else {
        merkle_reduce(next_level(level))
    }
}

/// Two to the power `k`.
pub open spec fn power_of_two(k: nat) -> nat
    decreases k,
{
    if k == 0 {
        1
    } else {
        2 * power_of_two((k - 1) as nat)
    }
}

/// The parents of consecutive pairs.
pub open spec fn pair_up(level: Seq<Seq<char>>) -> Seq<Seq<char>> {
    Seq::new(level.len() / 2, |i: int| merkle_parent(level[2 * i], level[2 * i + 1]))
}

/// Level `d` of the tree (level 0 being the leaves).
pub open spec fn tree_level(leaves: Seq<Seq<char>>, d: nat) -> Seq<Seq<char>>
    decreases d,
{
    if d == 0 {
        leaves
    } else {
        pair_up(tree_level(leaves, (d - 1) as nat))
    }
}

/// The hashes of a list of transactions.
pub open spec fn tx_hashes(txs: Seq<Transaction>) -> Seq<Seq<char>> {
    txs.map_values(|t: Transaction| t.spec_hash())
}

/// The Merkle root of a list of transactions: sixty-four zeros when there
/// are none.
pub open spec fn merkle_root_of(txs: Seq<Transaction>) -> Seq<char> {
    if txs.len() == 0 {
        zero_hash()
    } else {
        merkle_reduce(tx_hashes(txs))
    }
}

/// The texts of a list of strings.
pub open spec fn texts(v: Seq<String>) -> Seq<Seq<char>> {
    v.map_values(|s: String| s@)
}

/// The parent hash of two hash texts.
pub fn merkle_pair(left: &String, right: &String) -> (h: String)
    ensures
        h@ == merkle_parent(left@, right@),
        h@.len() == 64,
        utf8(h@).len() == 64,
{
    let mut data: Vec<u8> = Vec::new();
    push_bytes(&mut data, left.as_str().as_bytes());
    push_bytes(&mut data, right.as_str().as_bytes());
    let digest = sha256(data.as_slice());
    proof {
        crate::text::lemma_hex_utf8_len(digest@);
        crate::text::lemma_hex_lower_ascii(digest@);
    }
    hex_encode(digest.as_slice())
}

/// The level above a non-empty level of hashes (the last hash is paired with
/// itself when the count is odd).
pub fn merkle_next_level(level: &Vec<String>) -> (next: Vec<String>)
    requires
        level@.len() > 0,
    ensures
        texts(next@) == next_level(texts(level@)),
        next@.len() == (level@.len() + 1) / 2,
        forall|i: int|
            0 <= i && 2 * i + 1 < level@.len() ==> (#[trigger] next@[i])@ == merkle_parent(
                level@[2 * i]@,
                level@[2 * i + 1]@,
            ),
        level@.len() % 2 == 1 ==> next@.last()@ == merkle_parent(level@.last()@, level@.last()@),
        forall|i: int| 0 <= i < next@.len() ==> utf8((#[trigger] next@[i])@).len() == 64,
        forall|i: int| 0 <= i < next@.len() ==> (#[trigger] next@[i])@.len() == 64,
{
    let ghost p = padded(texts(level@));
    let n: usize = level.len();
    let pairs: usize = if n % 2 == 0 { n / 2 } else { n / 2 + 1 };
    assert(p.len() == 2 * pairs);
    let mut next: Vec<String> = Vec::new();
    let mut j: usize = 0;
    while j < pairs
        invariant
            n == level@.len(),
            n > 0,
            p == padded(texts(level@)),
            p.len() == 2 * pairs,
            pairs * 2 <= n + 1,
            j <= pairs,
            texts(next@) =~= Seq::new(j as nat, |i: int| merkle_parent(p[2 * i], p[2 * i + 1])),
            next@.len() == j,
            forall|i: int| 0 <= i < next@.len() ==> utf8((#[trigger] next@[i])@).len() == 64,
            forall|i: int| 0 <= i < next@.len() ==> (#[trigger] next@[i])@.len() == 64,
        decreases pairs - j,
    {
        let left = &level[2 * j];
        let right = if 2 * j + 1 < n { &level[2 * j + 1] } else { &level[n - 1] };
        assert(left@ == p[2 * j]);
        assert(right@ == p[2 * j + 1]);
        let parent = merkle_pair(left, right);
        let ghost before = next@;
        next.push(parent);
        assert(texts(next@) =~= texts(before).push(parent@));
        j = j + 1;
    }
    assert(next_level(texts(level@)) =~= Seq::new(pairs as nat, |i: int| merkle_parent(p[2 * i], p[2 * i + 1])));
    proof {
        lemma_next_level(texts(level@));
        assert forall|i: int| 0 <= i && 2 * i + 1 < level@.len() implies (#[trigger] next@[i])@ == merkle_parent(
            level@[2 * i]@,
            level@[2 * i + 1]@,
        ) by {
            assert(texts(next@)[i] == next@[i]@);
            assert(texts(level@)[2 * i] == level@[2 * i]@);
            assert(texts(level@)[2 * i + 1] == level@[2 * i + 1]@);
        }
        if level@.len() % 2 == 1 {
            assert(texts(next@)[next@.len() - 1] == next@.last()@);
            assert(texts(level@)[level@.len() - 1] == level@.last()@);
        }
    }
    next
}

impl Block {
    /// The Merkle root of the transactions' hashes: pairs are hashed level by
    /// level, an odd last hash being paired with itself, down to one hash;
    /// sixty-four zeros when there are no transactions.
    pub fn merkle_root(transactions: &[Transaction]) -> (root: String)
        ensures
            root@ == merkle_root_of(transactions@),
            transactions@.len() > 0 ==> root@.len() == 64 && utf8(root@).len() == 64,
    {
        if transactions.len() == 0 {
            return zero_hash_string();
        }
        let mut hashes: Vec<String> = Vec::new();
        let n: usize = transactions.len();
        let mut i: usize = 0;
        while i < n
            invariant
                n == transactions@.len(),
                i <= n,
                texts(hashes@) =~= tx_hashes(transactions@.subrange(0, i as int)),
                hashes@.len() == i,
                forall|j: int| 0 <= j < hashes@.len() ==> utf8((#[trigger] hashes@[j])@).len() == 64,
                forall|j: int| 0 <= j < hashes@.len() ==> (#[trigger] hashes@[j])@.len() == 64,
            decreases n - i,
        {
            let h = transactions[i].hash();
            let ghost before = hashes@;
            hashes.push(h);
            assert(texts(hashes@) =~= texts(before).push(h@));
            assert(transactions@.subrange(0, i + 1) =~= transactions@.subrange(0, i as int).push(transactions@[i as int]));
            i = i + 1;
        }
        assert(transactions@.subrange(0, n as int) =~= transactions@);
        while hashes.len() > 1
            invariant
                hashes@.len() >= 1,
                merkle_reduce(texts(hashes@)) == merkle_reduce(tx_hashes(transactions@)),
                forall|j: int| 0 <= j < hashes@.len() ==> utf8((#[trigger] hashes@[j])@).len() == 64,
                forall|j: int| 0 <= j < hashes@.len() ==> (#[trigger] hashes@[j])@.len() == 64,
            decreases hashes@.len(),
        {
            let next = merkle_next_level(&hashes);
            assert(texts(next@).len() == next@.len());
            assert(texts(hashes@).len() == hashes@.len());
            hashes = next;
        }
        hashes.remove(0)
    }
}

/// A power of two above 1 is even, and halves to the power below it.
proof fn lemma_power_halves(k: nat)
    requires
        k >= 1,
    ensures
        power_of_two(k) == 2 * power_of_two((k - 1) as nat),
        power_of_two((k - 1) as nat) >= 1,
    decreases k,
{
    if k > 1 {
        lemma_power_halves((k - 1) as nat);
    }
}

/// Level `j` of `2^m` leaves has `2^(m-j)` hashes.
proof fn lemma_tree_level_len(s: Seq<Seq<char>>, m: nat, j: nat)
    requires
        s.len() == power_of_two(m),
        j <= m,
    ensures
        tree_level(s, j).len() == power_of_two((m - j) as nat),
    decreases j,
{
    if j > 0 {
        lemma_tree_level_len(s, m, (j - 1) as nat);
        lemma_power_halves((m - j + 1) as nat);
    }
}

/// Pairing first and then taking `j` more levels is taking `j + 1` levels.
proof fn lemma_tree_level_shift(s: Seq<Seq<char>>, j: nat)
    ensures
        tree_level(s, j + 1) == tree_level(pair_up(s), j),
    decreases j,
{
    if j > 0 {
        lemma_tree_level_shift(s, (j - 1) as nat);
        assert(tree_level(s, j + 1) == pair_up(tree_level(s, j)));
        assert(tree_level(s, j) == tree_level(pair_up(s), (j - 1) as nat));
        assert(tree_level(pair_up(s), j) == pair_up(tree_level(pair_up(s), (j - 1) as nat)));
    } else {
        assert(tree_level(s, 1) == pair_up(tree_level(s, 0)));
    }
}

/// For `2^k` hashes the reduction is the single hash of level `k`.
proof fn lemma_reduce_is_top(s: Seq<Seq<char>>, k: nat)
    requires
        s.len() == power_of_two(k),
    ensures
        tree_level(s, k).len() == 1,
        merkle_reduce(s) == tree_level(s, k)[0],
    decreases k,
{
    lemma_tree_level_len(s, k, k);
    if k > 0 {
        lemma_power_halves(k);
        assert(padded(s) =~= s);
        assert(next_level(s) =~= pair_up(s));
        lemma_reduce_is_top(pair_up(s), (k - 1) as nat);
        lemma_tree_level_shift(s, (k - 1) as nat);
    }
}

/// Pairing splits over a concatenation whose first part has even length.
proof fn lemma_pair_up_concat(a: Seq<Seq<char>>, b: Seq<Seq<char>>)
    requires
        a.len() % 2 == 0,
    ensures
        pair_up(a + b) == pair_up(a) + pair_up(b),
{
    let c = a + b;
    assert forall|i: int| 0 <= i < pair_up(c).len() implies #[trigger] pair_up(c)[i] == (pair_up(a) + pair_up(b))[i] by {
        if i < a.len() / 2 {
            assert(c[2 * i] == a[2 * i]);
            assert(c[2 * i + 1] == a[2 * i + 1]);
        } else {
            let h = i - a.len() / 2;
            assert(2 * i == a.len() + 2 * h);
            assert(c[2 * i] == b[2 * h]);
            assert(c[2 * i + 1] == b[2 * h + 1]);
        }
    }
    assert(pair_up(c) =~= pair_up(a) + pair_up(b));
}

/// The levels of two equal power-of-two halves are those of each half, side
/// by side.
proof fn lemma_tree_level_concat(a: Seq<Seq<char>>, b: Seq<Seq<char>>, m: nat, j: nat)
    requires
        a.len() == power_of_two(m),
        b.len() == power_of_two(m),
        j <= m,
    ensures
        tree_level(a + b, j) == tree_level(a, j) + tree_level(b, j),
    decreases j,
{
    if j > 0 {
        lemma_tree_level_concat(a, b, m, (j - 1) as nat);
        lemma_tree_level_len(a, m, (j - 1) as nat);
        lemma_power_halves((m - j + 1) as nat);
        lemma_pair_up_concat(tree_level(a, (j - 1) as nat), tree_level(b, (j - 1) as nat));
    }
}

/// For `2^k` transactions (`k >= 1`) the Merkle root is the parent of the
/// roots of the first and second halves.
pub proof fn lemma_merkle_halves(ts: Seq<Transaction>, k: nat)
    requires
        k >= 1,
        ts.len() == power_of_two(k),
    ensures
        merkle_root_of(ts) == merkle_parent(
            merkle_root_of(ts.subrange(0, (ts.len() / 2) as int)),
            merkle_root_of(ts.subrange((ts.len() / 2) as int, ts.len() as int)),
        ),
{
    lemma_power_halves(k);
    let n = ts.len();
    let h: int = (n / 2) as int;
    let s = tx_hashes(ts);
    let a = tx_hashes(ts.subrange(0, h));
    let b = tx_hashes(ts.subrange(h, n as int));
    assert(s =~= a + b);
    let m = (k - 1) as nat;
    lemma_reduce_is_top(s, k);
    lemma_reduce_is_top(a, m);
    lemma_reduce_is_top(b, m);
    lemma_tree_level_concat(a, b, m, m);
    let top = tree_level(a, m) + tree_level(b, m);
    assert(tree_level(s, k) == pair_up(top));
    assert(top[0] == tree_level(a, m)[0]);
    assert(top[1] == tree_level(b, m)[0]);
}

/// For a power-of-two count the pairing levels above the hashes end in the
/// Merkle root.
pub proof fn lemma_top_level_is_root(ts: Seq<Transaction>, k: nat)
    requires
        ts.len() == power_of_two(k),
    ensures
        tree_level(tx_hashes(ts), k).len() == 1,
        tree_level(tx_hashes(ts), k)[0] == merkle_root_of(ts),
{
    lemma_reduce_is_top(tx_hashes(ts), k);
    lemma_power_halves(k + 1);
}

} // verus!
