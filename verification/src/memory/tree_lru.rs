//! A tree-based approximation of the LRU (least recently used) eviction policy.
//!
//! Each set keeps a complete binary tree of `2^assoc - 1` direction bits. A
//! way is a path from the root to a leaf, its bits read least significant
//! first; an access points every node on its path away from it, and the victim
//! is the way found by following the node bits from the root.
use vstd::prelude::*;
use vstd::arithmetic::power2::{pow2, lemma_pow2_unfold, lemma_pow2_pos};
use crate::memory::simple_cache::EvictionPolicy;

verus! {

pub struct TreeLRUPolicy {
    assoc: u32,
    lines_per_bank: u32,
    pred_table: Vec<Vec<bool>>,
}

/// Bit `l` of `w`, least significant first.
pub open spec fn way_bit(w: u32, l: nat) -> bool {
    (w >> (l as u32)) & 1 == 1
}

/// The tree node that the path of way `w` visits at depth `l`.
pub open spec fn walk_node(w: u32, l: nat) -> int
    decreases l,
{
    if l == 0 {
        0
    } else {
        2 * walk_node(w, (l - 1) as nat) + 1 + if way_bit(w, (l - 1) as nat) { 1int } else { 0int }
    }
}

/// The tree after an access to way `w`, its first `n` levels updated: each node
/// on the path points away from the branch the path takes.
pub open spec fn spec_hit(tree: Seq<bool>, w: u32, n: nat) -> Seq<bool>
    decreases n,
{
    if n == 0 {
        tree
    } else {
        spec_hit(tree, w, (n - 1) as nat).update(walk_node(w, (n - 1) as nat), !way_bit(w, (n - 1) as nat))
    }
}

/// Following the node bits from the root for `n` levels: the way bits gathered
/// so far and the node reached.
pub open spec fn spec_victim_walk(tree: Seq<bool>, n: nat) -> (u32, int)
    decreases n,
{
    if n == 0 {
        (0, 0)
    } else {
        let (w, i) = spec_victim_walk(tree, (n - 1) as nat);
        let b: u32 = if tree[i] { 1 } else { 0 };
        (w | (b << ((n - 1) as u32)), 2 * i + 1 + b)
    }
}

/// The way a tree names as the next victim, for `assoc` levels.
pub open spec fn spec_victim(tree: Seq<bool>, assoc: nat) -> u32 {
    spec_victim_walk(tree, assoc).0
}

/// The node a path visits at depth `l` lies on that level of the tree.
pub proof fn lemma_walk_node_bounds(w: u32, l: nat)
    ensures
        pow2(l) - 1 <= walk_node(w, l) <= pow2(l + 1) - 2,
    decreases l,
{
    lemma_pow2_unfold(l + 1);
    if l > 0 {
        lemma_walk_node_bounds(w, (l - 1) as nat);
        lemma_pow2_unfold(l);
    } else {
        vstd::arithmetic::power2::lemma2_to64();
    }
}

/// The victim walk stays within the tree and gathers a way below `2^n`.
proof fn lemma_victim_walk_bounds(tree: Seq<bool>, n: nat)
    requires
        n <= 32,
    ensures
        pow2(n) - 1 <= spec_victim_walk(tree, n).1 <= pow2(n + 1) - 2,
        spec_victim_walk(tree, n).0 < pow2(n),
    decreases n,
{
    lemma_pow2_unfold(n + 1);
    if n > 0 {
        lemma_victim_walk_bounds(tree, (n - 1) as nat);
        lemma_pow2_unfold(n);
        let (w, i) = spec_victim_walk(tree, (n - 1) as nat);
        let b: u32 = if tree[i] { 1 } else { 0 };
        let k = (n - 1) as u32;
        vstd::bits::lemma_u32_pow2_no_overflow(k as nat);
        vstd::bits::lemma_u32_shl_is_mul(1, k);
        let p = 1u32 << k;
        assert(w | (b << k) == w + b * p) by (bit_vector)
            requires k < 32, p == 1u32 << k, w < p, b <= 1;
    } else {
        vstd::arithmetic::power2::lemma2_to64();
    }
}

/// Updating the first `n` levels only touches nodes of those levels.
proof fn lemma_hit_outside(tree: Seq<bool>, w: u32, n: nat, j: int)
    requires
        j < pow2(n) - 1 || j >= pow2(n + 1) - 1,
        0 <= j < tree.len(),
        tree.len() >= pow2(n) - 1,
    ensures
        spec_hit(tree, w, n).len() == tree.len(),
        j >= pow2(n + 1) - 1 ==> spec_hit(tree, w, n)[j] == tree[j],
    decreases n,
{
    lemma_pow2_unfold(n + 1);
    if n > 0 {
        lemma_pow2_unfold(n);
        lemma_walk_node_bounds(w, (n - 1) as nat);
        if j >= pow2(n + 1) - 1 {
            lemma_hit_outside(tree, w, (n - 1) as nat, j);
        } else {
            lemma_hit_outside_len(tree, w, (n - 1) as nat);
        }
    }
}

proof fn lemma_hit_outside_len(tree: Seq<bool>, w: u32, n: nat)
    requires
        tree.len() >= pow2(n) - 1,
    ensures
        spec_hit(tree, w, n).len() == tree.len(),
    decreases n,
{
    if n > 0 {
        lemma_pow2_unfold(n);
        lemma_pow2_pos((n - 1) as nat);
        lemma_hit_outside_len(tree, w, (n - 1) as nat);
        lemma_walk_node_bounds(w, (n - 1) as nat);
    }
}

/// After an access to `w`, the root points away from `w`'s first branch.
proof fn lemma_hit_root(tree: Seq<bool>, w: u32, n: nat)
    requires
        n >= 1,
        tree.len() >= pow2(n) - 1,
    ensures
        spec_hit(tree, w, n)[0] == !way_bit(w, 0),
    decreases n,
{
    lemma_pow2_unfold(n);
    lemma_pow2_pos((n - 1) as nat);
    lemma_hit_outside_len(tree, w, (n - 1) as nat);
    lemma_hit_outside_len(tree, w, n);
    if n == 1 {
        assert(walk_node(w, 0) == 0);
        vstd::arithmetic::power2::lemma2_to64();
    } else {
        lemma_hit_root(tree, w, (n - 1) as nat);
        lemma_walk_node_bounds(w, (n - 1) as nat);
        lemma_pow2_unfold((n - 1) as nat);
        lemma_pow2_pos((n - 2) as nat);
    }
}

/// The lowest bit of the victim is the root's bit.
proof fn lemma_victim_low_bit(tree: Seq<bool>, n: nat)
    requires
        1 <= n <= 32,
    ensures
        (spec_victim_walk(tree, n).0 & 1 == 1) == tree[0],
    decreases n,
{
    if n == 1 {
        let b: u32 = if tree[0] { 1 } else { 0 };
        assert(spec_victim_walk(tree, 0) == (0u32, 0int));
        assert((0u32 | (b << 0u32)) & 1 == b) by (bit_vector) requires b <= 1;
    } else {
        lemma_victim_low_bit(tree, (n - 1) as nat);
        let (w, i) = spec_victim_walk(tree, (n - 1) as nat);
        let b: u32 = if tree[i] { 1 } else { 0 };
        let k = (n - 1) as u32;
        assert((w | (b << k)) & 1 == w & 1) by (bit_vector) requires 1 <= k < 32;
    }
}

/// Bit `l` of `val` as extracted: `val` read as `bit_width` bits, least
/// significant first.
pub open spec fn spec_extract_binary(bit_width: nat, val: u32) -> Seq<bool> {
    Seq::new(bit_width, |i: int| way_bit(val, i as nat))
}

/// The `bit_width` low bits of `val`, least significant first.
pub fn extract_binary(bit_width: u32, val: u32) -> (r: Vec<bool>)
    requires
        bit_width <= 32,
        val < pow2(bit_width as nat),
    ensures
        r@ == spec_extract_binary(bit_width as nat, val),
{
    let mut le_bits: Vec<bool> = Vec::new();
    let mut i: u32 = 0;
    while i < bit_width
        invariant
            i <= bit_width <= 32,
            le_bits@ == spec_extract_binary(i as nat, val),
        decreases bit_width - i,
    {
        let bit = val & (1u32 << i) != 0;
        assert(((val & (1u32 << i)) != 0) == ((val >> i) & 1 == 1)) by (bit_vector) requires i < 32;
        le_bits.push(bit);
        i = i + 1;
        assert(le_bits@ =~= spec_extract_binary(i as nat, val));
    }
    le_bits
}

impl TreeLRUPolicy {
    /// The direction bits of set `line`.
    pub closed spec fn tree(&self, line: int) -> Seq<bool> {
        self.pred_table@[line]@
    }

    /// The direction bits of every set.
    pub closed spec fn trees(&self) -> Seq<Seq<bool>> {
        Seq::new(self.pred_table@.len(), |l: int| self.pred_table@[l]@)
    }

    pub closed spec fn spec_assoc(&self) -> nat {
        self.assoc as nat
    }

    /// The shape of a well-formed policy: one tree per set, each of
    /// `2^assoc - 1` direction bits, and `tree` is the set's entry of `trees`.
    pub proof fn lemma_shape(&self)
        requires
            self.wf(),
        ensures
            self.spec_assoc() < 32,
            self.trees().len() == self.spec_lines(),
            forall|l: int| 0 <= l < self.spec_lines() ==> {
                &&& #[trigger] self.tree(l) == self.trees()[l]
                &&& self.tree(l).len() == pow2(self.spec_assoc()) - 1
            },
    {
    }

    pub closed spec fn wf(&self) -> bool {
        &&& self.assoc < 32
        &&& self.pred_table@.len() == self.lines_per_bank
        &&& forall|l: int| 0 <= l < self.pred_table@.len()
            ==> (#[trigger] self.pred_table@[l])@.len() == pow2(self.assoc as nat) - 1
    }
}

impl EvictionPolicy for TreeLRUPolicy {
    open spec fn spec_ways(&self) -> nat {
        pow2(self.spec_assoc())
    }

    closed spec fn spec_lines(&self) -> nat {
        self.lines_per_bank as nat
    }

    open spec fn policy_wf(&self) -> bool {
        self.wf()
    }

    fn new(assoc: u32, lines_per_bank: u32) -> (r: Self)
        ensures
            forall|l: int| 0 <= l < lines_per_bank ==> #[trigger] r.tree(l) == Seq::new(
                (pow2(assoc as nat) - 1) as nat,
                |i: int| false,
            ),
            r.spec_assoc() == assoc,
            r.trees() == Seq::new(
                lines_per_bank as nat,
                |l: int| Seq::new((pow2(assoc as nat) - 1) as nat, |i: int| false),
            ),
    {
        proof {
            vstd::bits::lemma_usize_pow2_no_overflow(assoc as nat);
            vstd::bits::lemma_usize_shl_is_mul(1, assoc as usize);
        }
        let size: usize = (1usize << assoc as usize) - 1;
        let mut pred_table: Vec<Vec<bool>> = Vec::new();
        let mut l: u32 = 0;
        while l < lines_per_bank
            invariant
                l <= lines_per_bank,
                size == pow2(assoc as nat) - 1,
                pred_table@.len() == l,
                forall|k: int| 0 <= k < l ==> (#[trigger] pred_table@[k])@ == Seq::new(size as nat, |i: int| false),
            decreases lines_per_bank - l,
        {
            let mut row: Vec<bool> = Vec::new();
            let mut k: usize = 0;
            while k < size
                invariant
                    k <= size,
                    row@ == Seq::new(k as nat, |i: int| false),
                decreases size - k,
            {
                row.push(false);
                k = k + 1;
                assert(row@ =~= Seq::new(k as nat, |i: int| false));
            }
            pred_table.push(row);
            l = l + 1;
        }
        let r = Self { assoc, lines_per_bank, pred_table };
        assert(r.trees() =~= Seq::new(
            lines_per_bank as nat,
            |l: int| Seq::new((pow2(assoc as nat) - 1) as nat, |i: int| false),
        ));
        r
    }

    fn log_hit(&mut self, line: u32, bank: u32)
        ensures
            final(self).tree(line as int) == spec_hit(old(self).tree(line as int), bank, old(self).spec_assoc()),
            forall|l: int| 0 <= l < old(self).spec_lines() && l != line
                ==> #[trigger] final(self).tree(l) == old(self).tree(l),
            final(self).spec_assoc() == old(self).spec_assoc(),
            final(self).trees() == old(self).trees().update(
                line as int,
                spec_hit(old(self).trees()[line as int], bank, old(self).spec_assoc()),
            ),
    {
        let bits = extract_binary(self.assoc, bank);
        let ghost t0 = self.pred_table@[line as int]@;
        let mut idx: usize = 0;
        let mut l: usize = 0;
        while l < bits.len()
            invariant
                self.wf(),
                self.assoc == old(self).assoc,
                self.lines_per_bank == old(self).lines_per_bank,
                line < self.lines_per_bank,
                bits@ == spec_extract_binary(self.assoc as nat, bank),
                t0.len() == pow2(self.assoc as nat) - 1,
                l <= bits@.len(),
                idx == walk_node(bank, l as nat),
                self.pred_table@[line as int]@ == spec_hit(t0, bank, l as nat),
                forall|k: int| 0 <= k < self.pred_table@.len() && k != line
                    ==> #[trigger] self.pred_table@[k] == old(self).pred_table@[k],
            decreases bits@.len() - l,
        {
            let bit = bits[l];
            proof {
                lemma_walk_node_bounds(bank, l as nat);
                lemma_walk_node_bounds(bank, (l + 1) as nat);
                vstd::arithmetic::power2::lemma2_to64();
                assert(pow2((l + 2) as nat) <= pow2(32)) by {
                    if l + 2 < 32 {
                        vstd::arithmetic::power2::lemma_pow2_strictly_increases((l + 2) as nat, 32);
                    }
                }
                assert(pow2((l + 1) as nat) <= pow2(self.assoc as nat)) by {
                    if l + 1 < self.assoc {
                        vstd::arithmetic::power2::lemma_pow2_strictly_increases((l + 1) as nat, self.assoc as nat);
                    }
                }
                vstd::bits::lemma_usize_pow2_no_overflow(self.assoc as nat);
                lemma_pow2_pos(l as nat);
                lemma_pow2_unfold((l + 1) as nat);
                if l < self.assoc {
                    vstd::arithmetic::power2::lemma_pow2_strictly_increases(l as nat, self.assoc as nat);
                }
                lemma_hit_outside_len(t0, bank, l as nat);
            }
            self.pred_table[line as usize].set(idx, !bit);
            let offset: usize = if bit { 1 } else { 0 };
            idx = 2 * idx + 1 + offset;
            l = l + 1;
        }
        assert(self.trees() =~= old(self).trees().update(
            line as int,
            spec_hit(old(self).trees()[line as int], bank, old(self).spec_assoc()),
        ));
    }

    fn get_eviction_id(&mut self, line: u32) -> (r: u32)
        ensures
            r == spec_victim(old(self).trees()[line as int], old(self).spec_assoc()),
            *final(self) == *old(self),
    {
        let ghost t = self.pred_table@[line as int]@;
        let mut idx: usize = 0;
        let mut way: u32 = 0;
        let mut l: u32 = 0;
        while l < self.assoc
            invariant
                self.wf(),
                line < self.lines_per_bank,
                t == self.pred_table@[line as int]@,
                l <= self.assoc,
                (way, idx as int) == spec_victim_walk(t, l as nat),
            decreases self.assoc - l,
        {
            proof {
                lemma_victim_walk_bounds(t, l as nat);
                lemma_victim_walk_bounds(t, (l + 1) as nat);
                vstd::arithmetic::power2::lemma2_to64();
                assert(pow2((l + 2) as nat) <= pow2(32)) by {
                    if l + 2 < 32 {
                        vstd::arithmetic::power2::lemma_pow2_strictly_increases((l + 2) as nat, 32);
                    }
                }
                assert(pow2((l + 1) as nat) <= pow2(self.assoc as nat)) by {
                    if l + 1 < self.assoc {
                        vstd::arithmetic::power2::lemma_pow2_strictly_increases((l + 1) as nat, self.assoc as nat);
                    }
                }
                vstd::bits::lemma_usize_pow2_no_overflow(self.assoc as nat);
            }
            let bit: u32 = if self.pred_table[line as usize][idx] { 1 } else { 0 };
            way = way | (bit << l);
            idx = 2 * idx + 1 + bit as usize;
            l = l + 1;
        }
        proof { lemma_victim_walk_bounds(t, self.assoc as nat); }
        way
    }
}

/// The way just accessed is never the next victim (most recently used is never
/// evicted), for trees of at least one level.
pub proof fn law_mru_never_evicted(tree: Seq<bool>, assoc: nat, way: u32)
    requires
        1 <= assoc <= 32,
        tree.len() == pow2(assoc) - 1,
    ensures
        spec_victim(spec_hit(tree, way, assoc), assoc) != way,
{
    lemma_hit_outside_len(tree, way, assoc);
    lemma_hit_root(tree, way, assoc);
    lemma_victim_low_bit(spec_hit(tree, way, assoc), assoc);
    assert((way >> 0u32) & 1 == way & 1) by (bit_vector);
}

/// A set that has seen no access names way 0 as its victim.
pub proof fn law_cold_set_evicts_way_zero(assoc: nat)
    requires
        assoc <= 32,
    ensures
        spec_victim(Seq::new((pow2(assoc) - 1) as nat, |i: int| false), assoc) == 0,
{
    lemma_cold_walk(Seq::new((pow2(assoc) - 1) as nat, |i: int| false), assoc);
}

proof fn lemma_cold_walk(tree: Seq<bool>, n: nat)
    requires
        n <= 32,
        tree.len() == pow2(n) - 1 || tree.len() >= pow2(n) - 1,
        forall|i: int| 0 <= i < tree.len() ==> !tree[i],
    ensures
        spec_victim_walk(tree, n).0 == 0,
        spec_victim_walk(tree, n).1 == pow2(n) - 1,
    decreases n,
{
    if n == 0 {
        vstd::arithmetic::power2::lemma2_to64();
    } else {
        lemma_pow2_unfold(n);
        lemma_pow2_pos((n - 1) as nat);
        lemma_cold_walk(tree, (n - 1) as nat);
        let k = (n - 1) as u32;
        assert(0u32 | (0u32 << k) == 0) by (bit_vector);
    }
}

} // verus!
