//! A text drawing of the Merkle tree of a block's transactions: the leaves
//! are padded to a power of two by repeating the last hash, each node shows
//! the first 8 characters of its hash, and `/` `\` join parents to children.
//! Lines are given as UTF-8 bytes, one entry per printed line.

use vstd::prelude::*;

use crate::block::Block;
use crate::merkle::merkle_next_level;
use crate::merkle::padded;
use crate::merkle::pair_up;
use crate::merkle::power_of_two;
use crate::merkle::tree_level;
use crate::merkle::merkle_parent;
use crate::merkle::merkle_root_of;
use crate::merkle::texts;
use crate::merkle::tx_hashes;
use crate::report::views;
use crate::text::decimal;
use crate::text::push_bytes;
use crate::text::push_decimal;
use crate::text::utf8;
use crate::transaction::lit;
use crate::transaction::Transaction;

verus! {

/// The number of levels above the leaves: the least `k` with
/// `2^k >= n`.
pub open spec fn tree_height(n: nat) -> nat
    decreases n,
{
    if n <= 1 {
        0
    } else {
        1 + tree_height(((n + 1) / 2) as nat)
    }
}

/// The number of leaves drawn for `n` transactions: the least power of two
/// that is at least `n`.
pub open spec fn leaf_count(n: nat) -> nat {
    power_of_two(tree_height(n))
}

/// The leaves: the hashes, then copies of the last hash up to `leaf_count`.
pub open spec fn leaves(hs: Seq<Seq<char>>) -> Seq<Seq<char>> {
    Seq::new(leaf_count(hs.len()), |j: int| if j < hs.len() { hs[j] } else { hs.last() })
}

/// The column of the centre of node `j` on level `d`: leaves are 14 columns
/// apart starting at column 5, and each parent sits midway between its
/// children.
pub open spec fn center(d: nat, j: int) -> int {
    14 * power_of_two(d) * j + 7 * power_of_two(d) - 2
}

/// `c - half`, or 0 when that would be negative.
pub open spec fn left_start(c: int, half: int) -> int {
    if c >= half {
        c - half
    } else {
        0
    }
}

/// A row with `label` written from column `start`, cut at the row's end.
pub open spec fn paint(row: Seq<u8>, start: int, label: Seq<u8>) -> Seq<u8> {
    Seq::new(row.len(), |p: int| if start <= p < start + label.len() { label[p - start] } else { row[p] })
}

/// A row of `w` spaces.
pub open spec fn blank(w: nat) -> Seq<u8> {
    Seq::new(w, |p: int| 0x20u8)
}

/// A row without its trailing spaces.
pub open spec fn trim_end(row: Seq<u8>) -> Seq<u8>
    decreases row.len(),
{
    if row.len() > 0 && row.last() == 0x20 {
        trim_end(row.drop_last())
    } else {
        row
    }
}

/// The label of a node: its first 8 hash bytes in square brackets.
pub open spec fn node_label(h: Seq<char>) -> Seq<u8> {
    seq![0x5bu8] + utf8(h).take(8) + seq![0x5du8]
}

/// Row of level `d` after labelling its first `j` nodes, left to right.
pub open spec fn node_row(level: Seq<Seq<char>>, d: nat, w: nat, j: nat) -> Seq<u8>
    decreases j,
{
    if j == 0 {
        blank(w)
    } else {
        paint(node_row(level, d, w, (j - 1) as nat), left_start(center(d, j - 1), 5), node_label(level[j - 1]))
    }
}

/// Row under level `d` after drawing the branches of its first `j` nodes: a
/// `/` midway to the left child and a `\` midway to the right child.
pub open spec fn branch_row(d: nat, w: nat, j: nat) -> Seq<u8>
    decreases j,
{
    if j == 0 {
        blank(w)
    } else {
        let i = j - 1;
        let r = branch_row(d, w, i as nat);
        let pc = center(d, i);
        let lc = center((d - 1) as nat, 2 * i);
        let rc = center((d - 1) as nat, 2 * i + 1);
        paint(paint(r, (pc + lc) / 2, seq![0x2fu8]), (pc + rc) / 2, seq![0x5cu8])
    }
}

/// The caption under leaf `j`: `COINBASE` for a reward, `TX#j` for a
/// transfer, `(dup)` for a padding copy.
pub open spec fn leaf_caption(txs: Seq<Transaction>, j: int) -> Seq<u8> {
    if j < txs.len() {
        if txs[j].spec_is_coinbase() {
            lit("COINBASE")
        } else {
            lit("TX#") + decimal(j as nat)
        }
    } else {
        lit("(dup)")
    }
}

/// The caption row after writing the captions of the first `j` leaves, each
/// centred under its leaf.
pub open spec fn caption_row(txs: Seq<Transaction>, w: nat, j: nat) -> Seq<u8>
    decreases j,
{
    if j == 0 {
        blank(w)
    } else {
        let c = leaf_caption(txs, j - 1);
        paint(caption_row(txs, w, (j - 1) as nat), left_start(center(0, j - 1), (c.len() / 2) as int), c)
    }
}

/// The rows of levels `d` down to 0: each level's node row, and under every
/// level but the leaves its branch row.
pub open spec fn level_rows(leaves: Seq<Seq<char>>, d: nat, w: nat) -> Seq<Seq<u8>>
    decreases d,
{
    let level = tree_level(leaves, d);
    let node = trim_end(node_row(level, d, w, level.len()));
    if d == 0 {
        seq![node]
    } else {
        seq![node, trim_end(branch_row(d, w, level.len()))] + level_rows(leaves, (d - 1) as nat, w)
    }
}

/// A rule of sixty `═` characters.
pub open spec fn double_rule() -> Seq<u8> {
    Seq::new(180, |i: int| if i % 3 == 0 { 0xe2u8 } else if i % 3 == 1 { 0x95u8 } else { 0x90u8 })
}

/// The whole drawing for a list of transactions.
pub open spec fn merkle_diagram(txs: Seq<Transaction>) -> Seq<Seq<u8>> {
    let head = seq![lit("\nMerkle Tree (") + decimal(txs.len()) + lit(" transaction(s))"), double_rule()];
    if txs.len() == 0 {
        head + seq![lit("  (no transactions)"), seq![]]
    } else {
        let lv = leaves(tx_hashes(txs));
        let w = lv.len() * 14 + 2;
        head + level_rows(lv, tree_height(txs.len()), w) + seq![
            seq![],
            trim_end(caption_row(txs, w, lv.len())),
            seq![],
        ]
    }
}

/// A row of `w` spaces.
fn blank_row(w: usize) -> (row: Vec<u8>)
    ensures
        row@ == blank(w as nat),
{
    let mut row: Vec<u8> = Vec::new();
    let mut i: usize = 0;
    while i < w
        invariant
            i <= w,
            row@ =~= blank(i as nat),
        decreases w - i,
    {
        row.push(0x20);
        i = i + 1;
    }
    row
}

/// Writes `label` into `row` from column `start`, cut at the row's end.
fn paint_label(row: &mut Vec<u8>, start: usize, label: &[u8])
    requires
        start + label@.len() <= usize::MAX,
    ensures
        final(row)@ == paint(old(row)@, start as int, label@),
{
    let ghost initial = row@;
    let n: usize = label.len();
    let mut k: usize = 0;
    while k < n
        invariant
            n == label@.len(),
            start + n <= usize::MAX,
            k <= n,
            row@ =~= paint(initial, start as int, label@.take(k as int)),
        decreases n - k,
    {
        if start + k < row.len() {
            row.set(start + k, label[k]);
        }
        k = k + 1;
    }
    assert(label@.take(n as int) =~= label@);
}

/// Drops trailing spaces.
fn trim_row(row: Vec<u8>) -> (t: Vec<u8>)
    ensures
        t@ == trim_end(row@),
    decreases row@.len(),
{
    let mut row = row;
    let n = row.len();
    if n > 0 && row[n - 1] == 0x20 {
        let ghost before = row@;
        row.pop();
        assert(row@ =~= before.drop_last());
        trim_row(row)
    } else {
        row
    }
}

/// Powers of two grow with the exponent.
proof fn lemma_power_mono(a: nat, b: nat)
    requires
        a <= b,
    ensures
        power_of_two(a) <= power_of_two(b),
        a < b ==> 2 * power_of_two(a) <= power_of_two(b),
        power_of_two(a) >= 1,
    decreases b,
{
    if a < b {
        lemma_power_mono(a, (b - 1) as nat);
    } else if a > 0 {
        lemma_power_mono((a - 1) as nat, (a - 1) as nat);
    }
}

/// `2^k` exceeds `k`.
proof fn lemma_power_exceeds(k: nat)
    ensures
        power_of_two(k) > k,
    decreases k,
{
    if k > 0 {
        lemma_power_exceeds((k - 1) as nat);
    }
}

/// `2^tree_height(n)` is the least power of two that is at least `n`.
proof fn lemma_height(n: nat)
    requires
        n >= 1,
    ensures
        power_of_two(tree_height(n)) >= n,
        tree_height(n) > 0 ==> power_of_two((tree_height(n) - 1) as nat) < n,
    decreases n,
{
    if n > 1 {
        let m = ((n + 1) / 2) as nat;
        lemma_height(m);
        let h = tree_height(m);
        if h > 0 {
            assert(power_of_two(h) == 2 * power_of_two((h - 1) as nat));
        }
    }
}

/// The number of leaves for `n` transactions and the tree height.
fn leaf_width(n: usize) -> (r: (usize, usize))
    requires
        n >= 1,
        leaf_count(n as nat) * 14 + 2 <= usize::MAX,
    ensures
        r.0 == leaf_count(n as nat),
        r.1 == tree_height(n as nat),
{
    proof {
        lemma_height(n as nat);
    }
    let ghost h = tree_height(n as nat);
    let mut w: usize = 1;
    let mut k: usize = 0;
    while w < n
        invariant
            n >= 1,
            h == tree_height(n as nat),
            power_of_two(h) >= n,
            h > 0 ==> power_of_two((h - 1) as nat) < n,
            power_of_two(h) * 14 + 2 <= usize::MAX,
            w == power_of_two(k as nat),
            k <= h,
        decreases h - k,
    {
        proof {
            if k >= h {
                lemma_power_mono(h, k as nat);
            }
            lemma_power_mono((k + 1) as nat, h);
            assert(power_of_two((k + 1) as nat) == 2 * w);
            lemma_power_exceeds((k + 1) as nat);
        }
        w = w * 2;
        k = k + 1;
    }
    proof {
        if k < h {
            lemma_power_mono(k as nat, (h - 1) as nat);
        }
    }
    (w, k)
}

/// The label bytes of a node.
fn node_label_bytes(h: &String) -> (label: Vec<u8>)
    requires
        utf8(h@).len() >= 8,
    ensures
        label@ == node_label(h@),
{
    let bytes = h.as_str().as_bytes();
    let mut label: Vec<u8> = Vec::new();
    label.push(0x5b);
    let mut i: usize = 0;
    while i < 8
        invariant
            bytes@ == utf8(h@),
            bytes@.len() >= 8,
            i <= 8,
            label@ =~= seq![0x5bu8] + bytes@.take(i as int),
        decreases 8 - i,
    {
        label.push(bytes[i]);
        i = i + 1;
    }
    label.push(0x5d);
    label
}

/// Adding one node moves the centre by `14 * 2^d` columns.
proof fn lemma_center_next(d: nat, j: int)
    ensures
        center(d, j + 1) == center(d, j) + 14 * power_of_two(d),
{
    let p = power_of_two(d);
    assert(14 * p * (j + 1) == 14 * p * j + 14 * p) by (nonlinear_arith);
}

/// Where the children of node `j` of level `d > 0` sit.
proof fn lemma_children(d: nat, j: int)
    requires
        d > 0,
    ensures
        power_of_two(d) == 2 * power_of_two((d - 1) as nat),
        center((d - 1) as nat, 2 * j) == center(d, j) - 7 * power_of_two((d - 1) as nat),
        center((d - 1) as nat, 2 * j + 1) == center(d, j) + 7 * power_of_two((d - 1) as nat),
{
    let q = power_of_two((d - 1) as nat);
    let p = power_of_two(d);
    assert(p == 2 * q);
    assert(14 * q * (2 * j) == 14 * p * j) by (nonlinear_arith)
        requires
            p == 2 * q,
    ;
    assert(14 * q * (2 * j + 1) == 14 * p * j + 14 * q) by (nonlinear_arith)
        requires
            p == 2 * q,
    ;
}

/// Centres of the nodes of a level stay inside a row of `count * 14 * 2^d + 2`
/// columns.
proof fn lemma_center_bound(d: nat, j: int, count: int)
    requires
        0 <= j < count,
    ensures
        power_of_two(d) >= 1,
        7 * power_of_two(d) - 2 <= center(d, j),
        center(d, j) + 7 * power_of_two(d) <= count * 14 * power_of_two(d),
{
    let p = power_of_two(d);
    lemma_power_mono(0, d);
    assert(14 * p * j >= 0) by (nonlinear_arith)
        requires
            p >= 1,
            j >= 0,
    ;
    assert(14 * p * j + 14 * p <= count * 14 * p) by (nonlinear_arith)
        requires
            p >= 1,
            j + 1 <= count,
    ;
}

/// The node row of a level.
fn draw_node_row(level: &Vec<String>, d: usize, p: usize, total_w: usize) -> (row: Vec<u8>)
    requires
        p == power_of_two(d as nat),
        level@.len() * 14 * p + 2 <= total_w,
        forall|j: int| 0 <= j < level@.len() ==> utf8((#[trigger] level@[j])@).len() >= 8,
    ensures
        row@ == node_row(texts(level@), d as nat, total_w as nat, level@.len()),
{
    let ghost lv = texts(level@);
    let n: usize = level.len();
    let mut row = blank_row(total_w);
    if n == 0 {
        return row;
    }
    proof {
        lemma_center_bound(d as nat, 0, n as int);
    }
    let mut c: usize = 7 * p - 2;
    let mut j: usize = 0;
    while j < n
        invariant
            n == level@.len(),
            lv == texts(level@),
            p == power_of_two(d as nat),
            n * 14 * p + 2 <= total_w,
            forall|i: int| 0 <= i < level@.len() ==> utf8((#[trigger] level@[i])@).len() >= 8,
            j <= n,
            j < n ==> c == center(d as nat, j as int),
            row@ == node_row(lv, d as nat, total_w as nat, j as nat),
        decreases n - j,
    {
        proof {
            lemma_center_bound(d as nat, j as int, n as int);
            lemma_center_next(d as nat, j as int);
        }
        let start: usize = if c >= 5 { c - 5 } else { 0 };
        let label = node_label_bytes(&level[j]);
        assert(level@[j as int]@ == lv[j as int]);
        paint_label(&mut row, start, label.as_slice());
        if j + 1 < n {
            proof {
                lemma_center_bound(d as nat, (j + 1) as int, n as int);
            }
            c = c + 14 * p;
        }
        j = j + 1;
    }
    row
}

/// The branch row under a level of `count` nodes (`d > 0`).
fn draw_branch_row(count: usize, d: usize, p: usize, total_w: usize) -> (row: Vec<u8>)
    requires
        d > 0,
        p == power_of_two(d as nat),
        count * 14 * p + 2 <= total_w,
    ensures
        row@ == branch_row(d as nat, total_w as nat, count as nat),
{
    let mut row = blank_row(total_w);
    if count == 0 {
        return row;
    }
    proof {
        lemma_center_bound(d as nat, 0, count as int);
        lemma_children(d as nat, 0);
    }
    let q: usize = p / 2;
    let mut c: usize = 7 * p - 2;
    let mut j: usize = 0;
    while j < count
        invariant
            d > 0,
            p == power_of_two(d as nat),
            q == power_of_two((d - 1) as nat),
            p == 2 * q,
            count * 14 * p + 2 <= total_w,
            j <= count,
            j < count ==> c == center(d as nat, j as int),
            row@ == branch_row(d as nat, total_w as nat, j as nat),
        decreases count - j,
    {
        proof {
            lemma_center_bound(d as nat, j as int, count as int);
            lemma_center_next(d as nat, j as int);
            lemma_children(d as nat, j as int);
        }
        let left: usize = c - 7 * q;
        let right: usize = c + 7 * q;
        let slash: usize = left + (c - left) / 2;
        let backslash: usize = c + (right - c) / 2;
        paint_label(&mut row, slash, &[0x2fu8]);
        paint_label(&mut row, backslash, &[0x5cu8]);
        if j + 1 < count {
            proof {
                lemma_center_bound(d as nat, (j + 1) as int, count as int);
            }
            c = c + 14 * p;
        }
        j = j + 1;
    }
    row
}

/// Exponents add.
proof fn lemma_power_add(a: nat, b: nat)
    ensures
        power_of_two(a + b) == power_of_two(a) * power_of_two(b),
    decreases a,
{
    let y = power_of_two(b);
    if a > 0 {
        lemma_power_add((a - 1) as nat, b);
        let x = power_of_two((a - 1) as nat);
        assert(power_of_two(a + b) == 2 * power_of_two(((a - 1) + b) as nat));
        assert(2 * (x * y) == (2 * x) * y) by (nonlinear_arith);
    } else {
        assert(power_of_two(a) == 1);
        assert(1 * y == y) by (nonlinear_arith);
    }
}

/// The caption bytes of leaf `j`.
fn caption_bytes(txs: &[Transaction], j: usize) -> (c: Vec<u8>)
    ensures
        c@ == leaf_caption(txs@, j as int),
        c@.len() <= 23,
{
    let mut c: Vec<u8> = Vec::new();
    if j < txs.len() {
        if txs[j].is_coinbase() {
            push_bytes(&mut c, "COINBASE".as_bytes());
            proof {
                reveal_strlit("COINBASE");
                vstd::utf8::is_ascii_chars_encode_utf8("COINBASE"@);
            }
        } else {
            push_bytes(&mut c, "TX#".as_bytes());
            push_decimal(&mut c, j as u64);
            proof {
                reveal_strlit("TX#");
                vstd::utf8::is_ascii_chars_encode_utf8("TX#"@);
                lemma_decimal_len(j as nat);
            }
        }
    } else {
        push_bytes(&mut c, "(dup)".as_bytes());
        proof {
            reveal_strlit("(dup)");
            vstd::utf8::is_ascii_chars_encode_utf8("(dup)"@);
        }
    }
    c
}

/// A number below 2^64 has at most 20 decimal digits.
proof fn lemma_decimal_len(n: nat)
    requires
        n <= u64::MAX,
    ensures
        decimal(n).len() <= 20,
{
    reveal_with_fuel(power_ten, 21);
    lemma_decimal_len_bound(n, 20);
}

proof fn lemma_decimal_len_bound(n: nat, k: nat)
    requires
        n < power_ten(k),
        k >= 1,
    ensures
        decimal(n).len() <= k,
    decreases k,
{
    if n >= 10 {
        reveal_with_fuel(power_ten, 2);
        assert(power_ten(k) == 10 * power_ten((k - 1) as nat));
        assert(k >= 2);
        assert(n / 10 < power_ten((k - 1) as nat));
        lemma_decimal_len_bound(n / 10, (k - 1) as nat);
    }
}

/// Ten to the power `k`.
spec fn power_ten(k: nat) -> nat
    decreases k,
{
    if k == 0 {
        1
    } else {
        10 * power_ten((k - 1) as nat)
    }
}

/// The caption row under `w` leaves.
fn draw_caption_row(txs: &[Transaction], w: usize, total_w: usize) -> (row: Vec<u8>)
    requires
        w * 14 + 2 <= total_w,
        total_w + 64 <= usize::MAX,
    ensures
        row@ == caption_row(txs@, total_w as nat, w as nat),
{
    let mut row = blank_row(total_w);
    let mut j: usize = 0;
    while j < w
        invariant
            w * 14 + 2 <= total_w,
            total_w + 64 <= usize::MAX,
            j <= w,
            row@ == caption_row(txs@, total_w as nat, j as nat),
        decreases w - j,
    {
        let caption = caption_bytes(txs, j);
        let c: usize = 14 * j + 5;
        assert(center(0, j as int) == c);
        let half: usize = caption.len() / 2;
        let start: usize = if c >= half { c - half } else { 0 };
        paint_label(&mut row, start, caption.as_slice());
        j = j + 1;
    }
    row
}

/// Levels 0 to `k` of a tree with `2^k` leaves.
fn build_levels(leaves: Vec<String>, k: usize) -> (levels: Vec<Vec<String>>)
    requires
        leaves@.len() == power_of_two(k as nat),
        forall|i: int| 0 <= i < leaves@.len() ==> utf8((#[trigger] leaves@[i])@).len() == 64,
    ensures
        levels@.len() == k + 1,
        forall|d: int|
            0 <= d <= k ==> texts((#[trigger] levels@[d])@) == tree_level(texts(leaves@), d as nat)
                && levels@[d]@.len() == power_of_two((k - d) as nat) && forall|i: int|
                0 <= i < levels@[d]@.len() ==> utf8((#[trigger] levels@[d]@[i])@).len() == 64,
{
    let ghost lv = texts(leaves@);
    let mut levels: Vec<Vec<String>> = Vec::new();
    levels.push(leaves);
    let mut d: usize = 0;
    while d < k
        invariant
            lv.len() == power_of_two(k as nat),
            d <= k,
            levels@.len() == d + 1,
            forall|e: int|
                0 <= e <= d ==> texts((#[trigger] levels@[e])@) == tree_level(lv, e as nat)
                    && levels@[e]@.len() == power_of_two((k - e) as nat) && forall|i: int|
                    0 <= i < levels@[e]@.len() ==> utf8((#[trigger] levels@[e]@[i])@).len() == 64,
        decreases k - d,
    {
        let ghost cur = levels@[d as int];
        assert(texts(cur@) == tree_level(lv, d as nat));
        proof {
            lemma_power_mono(0, (k - d) as nat);
            assert(power_of_two((k - d) as nat) == 2 * power_of_two((k - d - 1) as nat));
            assert(padded(texts(cur@)) =~= texts(cur@));
        }
        let next = merkle_next_level(&levels[d]);
        assert(texts(next@) =~= pair_up(texts(cur@)));
        levels.push(next);
        d = d + 1;
        assert(levels@[d as int] == next);
    }
    levels
}

impl Block {
    /// The lines of a drawing of the Merkle tree of `transactions`: a heading
    /// with their number and a rule of `═`, then (when there are any) the
    /// node and branch rows from the root down, an empty line, the captions
    /// of the leaves and an empty line.
    pub fn merkle_tree_lines(transactions: &[Transaction]) -> (lines: Vec<Vec<u8>>)
        requires
            transactions@.len() > 0 ==> leaf_count(transactions@.len()) * 14 + 64 <= usize::MAX,
        ensures
            views(lines@) == merkle_diagram(transactions@),
            forall|k: nat|
                #[trigger] power_of_two(k) == transactions@.len() ==> views(lines@)[2] == blank(
                    (7 * transactions@.len() - 7) as nat,
                ) + node_label(merkle_root_of(transactions@)),
    {
        let mut lines: Vec<Vec<u8>> = Vec::new();
        let n: usize = transactions.len();
        let mut heading: Vec<u8> = Vec::new();
        push_bytes(&mut heading, "\nMerkle Tree (".as_bytes());
        push_decimal(&mut heading, n as u64);
        push_bytes(&mut heading, " transaction(s))".as_bytes());
        let ghost hd = heading@;
        lines.push(heading);
        let rule = double_rule_bytes();
        let ghost rl = rule@;
        lines.push(rule);
        let ghost head = views(lines@);
        assert(head =~= seq![hd, double_rule()]);
        if n == 0 {
            let mut none: Vec<u8> = Vec::new();
            push_bytes(&mut none, "  (no transactions)".as_bytes());
            let ghost nb = none@;
            lines.push(none);
            lines.push(Vec::new());
            assert(views(lines@) =~= head + seq![nb, Seq::<u8>::empty()]);
            proof {
                assert forall|k2: nat| #[trigger] power_of_two(k2) != transactions@.len() by {
                    lemma_height_of_power(k2);
                }
            }
            return lines;
        }
        let ghost th = tx_hashes(transactions@);
        let mut hashes: Vec<String> = Vec::new();
        let mut i: usize = 0;
        while i < n
            invariant
                n == transactions@.len(),
                th == tx_hashes(transactions@),
                i <= n,
                texts(hashes@) =~= th.subrange(0, i as int),
                hashes@.len() == i,
                forall|j: int| 0 <= j < hashes@.len() ==> utf8((#[trigger] hashes@[j])@).len() == 64,
            decreases n - i,
        {
            let h = transactions[i].hash();
            hashes.push(h);
            i = i + 1;
        }
        let (w, k) = leaf_width(n);
        proof {
            lemma_height(n as nat);
        }
        while hashes.len() < w
            invariant
                n == transactions@.len(),
                th == tx_hashes(transactions@),
                th.len() == n,
                n >= 1,
                w == leaf_count(n as nat),
                n <= hashes@.len() <= w,
                texts(hashes@) =~= Seq::new(hashes@.len(), |j: int| if j < n { th[j] } else { th.last() }),
                forall|j: int| 0 <= j < hashes@.len() ==> utf8((#[trigger] hashes@[j])@).len() == 64,
            decreases w - hashes@.len(),
        {
            let last = hashes[hashes.len() - 1].clone();
            let ghost before = texts(hashes@);
            assert(before[before.len() - 1] == th.last());
            assert(last@ == th.last());
            hashes.push(last);
            assert(texts(hashes@) =~= before.push(last@));
        }
        let ghost lv = texts(hashes@);
        assert(lv =~= leaves(th));
        let levels = build_levels(hashes, k);
        let total_w: usize = w * 14 + 2;
        let mut d: usize = k;
        let mut p: usize = w;
        loop
            invariant_except_break
                head + level_rows(lv, k as nat, total_w as nat) == views(lines@) + level_rows(
                    lv,
                    d as nat,
                    total_w as nat,
                ),
            invariant
                levels@.len() == k + 1,
                d <= k,
                w == power_of_two(k as nat),
                total_w == w * 14 + 2,
                total_w + 62 <= usize::MAX,
                p == power_of_two(d as nat),
                forall|e: int|
                    0 <= e <= k ==> texts((#[trigger] levels@[e])@) == tree_level(lv, e as nat)
                        && levels@[e]@.len() == power_of_two((k - e) as nat) && forall|i: int|
                        0 <= i < levels@[e]@.len() ==> utf8((#[trigger] levels@[e]@[i])@).len() == 64,
            ensures
                views(lines@) == head + level_rows(lv, k as nat, total_w as nat),
            decreases d,
        {
            let level = &levels[d];
            proof {
                lemma_power_add((k - d) as nat, d as nat);
                let a = power_of_two((k - d) as nat);
                assert(a * 14 * p == 14 * (a * p)) by (nonlinear_arith);
            }
            let row = trim_row(draw_node_row(level, d, p, total_w));
            let ghost nr = row@;
            let ghost before = views(lines@);
            lines.push(row);
            assert(views(lines@) =~= before.push(nr));
            if d == 0 {
                assert(level_rows(lv, 0, total_w as nat) =~= seq![nr]);
                assert(views(lines@) =~= before + level_rows(lv, 0, total_w as nat));
                break;
            }
            let branch = trim_row(draw_branch_row(level.len(), d, p, total_w));
            let ghost br = branch@;
            lines.push(branch);
            assert(views(lines@) =~= before.push(nr).push(br));
            proof {
                assert(level_rows(lv, d as nat, total_w as nat) =~= seq![nr, br] + level_rows(
                    lv,
                    (d - 1) as nat,
                    total_w as nat,
                ));
                assert(p == 2 * power_of_two((d - 1) as nat));
            }
            d = d - 1;
            p = p / 2;
        }
        let ghost before = views(lines@);
        lines.push(Vec::new());
        let caption = trim_row(draw_caption_row(transactions, w, total_w));
        let ghost cr = caption@;
        lines.push(caption);
        lines.push(Vec::new());
        assert(views(lines@) =~= before + seq![Seq::<u8>::empty(), cr, Seq::<u8>::empty()]);
        proof {
            assert forall|k2: nat| #[trigger] power_of_two(k2) == transactions@.len() implies views(lines@)[2]
                == blank((7 * transactions@.len() - 7) as nat) + node_label(merkle_root_of(transactions@)) by {
                lemma_height_of_power(k2);
                assert(lv =~= th);
                crate::merkle::lemma_top_level_is_root(transactions@, k2);
                assert(levels@[k as int]@.len() == 1);
                assert(texts(levels@[k as int]@)[0] == levels@[k as int]@[0]@);
                assert(utf8(levels@[k as int]@[0]@).len() == 64);
                lemma_drawn_root(transactions@, k2);
            }
        }
        lines
    }
}

/// A rule of sixty `═` characters.
fn double_rule_bytes() -> (r: Vec<u8>)
    ensures
        r@ == double_rule(),
{
    let mut r: Vec<u8> = Vec::new();
    let mut i: usize = 0;
    while i < 60
        invariant
            i <= 60,
            r@ =~= double_rule().take(3 * i),
        decreases 60 - i,
    {
        r.push(0xe2);
        r.push(0x95);
        r.push(0x90);
        i = i + 1;
    }
    r
}

/// Whether `merkle_tree_lines` can draw `count` transactions: the row
/// width must fit in a `usize` (with room for labels).
pub fn can_draw(count: usize) -> (ok: bool)
    ensures
        ok == (count == 0 || leaf_count(count as nat) * 14 + 64 <= usize::MAX),
{
    if count == 0 {
        return true;
    }
    proof {
        lemma_height(count as nat);
    }
    let ghost h = tree_height(count as nat);
    let limit: usize = (usize::MAX - 64) / 14;
    let mut w: usize = 1;
    let mut k: usize = 0;
    while w < count
        invariant
            count >= 1,
            h == tree_height(count as nat),
            power_of_two(h) >= count,
            h > 0 ==> power_of_two((h - 1) as nat) < count,
            w == power_of_two(k as nat),
            k <= h,
            w <= limit,
            limit == (usize::MAX - 64) / 14,
        decreases h - k,
    {
        proof {
            if k >= h {
                lemma_power_mono(h, k as nat);
            }
            lemma_power_mono((k + 1) as nat, h);
            lemma_power_exceeds((k + 1) as nat);
        }
        if w > limit / 2 {
            proof {
                lemma_power_mono((k + 1) as nat, h);
            }
            return false;
        }
        w = w * 2;
        k = k + 1;
    }
    proof {
        if k < h {
            lemma_power_mono(k as nat, (h - 1) as nat);
        }
    }
    true
}

/// The height of `2^k` leaves is `k`.
proof fn lemma_height_of_power(k: nat)
    ensures
        tree_height(power_of_two(k)) == k,
        power_of_two(k) >= 1,
    decreases k,
{
    if k > 0 {
        lemma_height_of_power((k - 1) as nat);
        let p = power_of_two((k - 1) as nat);
        assert(power_of_two(k) == 2 * p);
        assert((2 * p + 1) / 2 == p);
    }
}

/// Trimming blanks, a label that ends in a non-space byte, and more blanks
/// leaves the first blanks and the label.
proof fn lemma_trim_label(front: Seq<u8>, post: nat)
    requires
        front.len() > 0,
        front.last() != 0x20,
    ensures
        trim_end(front + blank(post)) == front,
    decreases post,
{
    if post == 0 {
        assert(front + blank(0) =~= front);
    } else {
        assert((front + blank(post)).drop_last() =~= front + blank((post - 1) as nat));
        lemma_trim_label(front, (post - 1) as nat);
    }
}

/// For a power-of-two count of transactions the top row of the drawing is the
/// label of the Merkle root, centred over the leaves: the drawn root is the
/// root that `merkle_root` computes.
pub proof fn lemma_drawn_root(txs: Seq<Transaction>, k: nat)
    requires
        txs.len() == power_of_two(k),
    ensures
        merkle_diagram(txs)[2] == trim_end(
            paint(blank(14 * txs.len() + 2), 7 * txs.len() - 7, node_label(merkle_root_of(txs))),
        ),
        utf8(merkle_root_of(txs)).len() >= 8 ==> merkle_diagram(txs)[2] == blank(
            (7 * txs.len() - 7) as nat,
        ) + node_label(merkle_root_of(txs)),
{
    let n = txs.len();
    lemma_height_of_power(k);
    let th = tx_hashes(txs);
    assert(leaves(th) =~= th);
    let w = (n * 14 + 2) as nat;
    crate::merkle::lemma_top_level_is_root(txs, k);
    let level = tree_level(th, k);
    let root = merkle_root_of(txs);
    assert(level[0] == root);
    assert(center(k, 0) == 7 * n - 2);
    let row = paint(blank(w), 7 * n - 7, node_label(root));
    assert(node_row(level, k, w, 0) == blank(w));
    assert(node_row(level, k, w, 1) == row);
    let rows = level_rows(th, k, w);
    assert(rows[0] == trim_end(row));
    let head = seq![lit("\nMerkle Tree (") + decimal(n) + lit(" transaction(s))"), double_rule()];
    let tail = seq![Seq::<u8>::empty(), trim_end(caption_row(txs, w, n)), Seq::<u8>::empty()];
    assert(merkle_diagram(txs) == head + rows + tail);
    assert((head + rows + tail)[2] == rows[0]);
    if utf8(root).len() >= 8 {
        let front = blank((7 * n - 7) as nat) + node_label(root);
        assert(node_label(root).len() == 10);
        assert(row =~= front + blank((w - 7 * n - 3) as nat));
        lemma_trim_label(front, (w - 7 * n - 3) as nat);
    }
}

} // verus!
