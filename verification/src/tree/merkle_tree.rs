//! A binary hash tree with paths, index bits and updates of single leaves.

use crate::field::FieldElement;
use crate::hash::{values, HashParams};
use vstd::arithmetic::div_mod::{
    lemma_div_denominator, lemma_div_multiples_vanish_fancy, lemma_fundamental_div_mod,
};
use vstd::prelude::*;

verus! {

/// Two to the power `k`.
pub open spec fn two_pow(k: nat) -> nat
    decreases k,
{
    if k == 0 {
        1
    } else {
        2 * two_pow((k - 1) as nat)
    }
}

/// The hash of a node's two children.
pub open spec fn hash_pair(params: &HashParams, left: nat, right: nat) -> nat {
    params.spec_hash(seq![left, right])
}

/// Node `idx` of level `level` of the tree over the given leaf hashes; level 0
/// holds the leaf hashes themselves.
pub open spec fn merkle_node(params: &HashParams, leaves: Seq<nat>, level: nat, idx: nat) -> nat
    decreases level,
{
    if level == 0 {
        leaves[idx as int]
    } else {
        hash_pair(
            params,
            merkle_node(params, leaves, (level - 1) as nat, 2 * idx),
            merkle_node(params, leaves, (level - 1) as nat, 2 * idx + 1),
        )
    }
}

/// The root of the tree of the given depth over the given leaf hashes.
pub open spec fn merkle_root(params: &HashParams, leaves: Seq<nat>, depth: nat) -> nat {
    merkle_node(params, leaves, depth, 0)
}

/// The other child of a node's parent.
pub open spec fn sibling(n: nat) -> nat {
    if n % 2 == 0 {
        n + 1
    } else {
        (n - 1) as nat
    }
}

/// The sibling hashes on the way from leaf `i` to the root, leaf level first.
pub open spec fn merkle_path(params: &HashParams, leaves: Seq<nat>, depth: nat, i: nat) -> Seq<
    nat,
> {
    Seq::new(depth, |k: int| merkle_node(params, leaves, k as nat, sibling(i / two_pow(k as nat))))
}

/// The low `depth` bits of `i`, lowest first: bit `k` says that the node on
/// the way from leaf `i` is a right child at level `k`.
pub open spec fn index_bits(depth: nat, i: nat) -> Seq<bool> {
    Seq::new(depth, |k: int| (i / two_pow(k as nat)) % 2 == 1)
}

/// The hash reached from `start` by hashing level by level with the path's
/// siblings, each put on the side that the level's bit gives.
pub open spec fn fold_path(params: &HashParams, start: nat, path: Seq<nat>, bits: Seq<bool>) -> nat
    decreases path.len(),
{
    if path.len() == 0 {
        start
    } else {
        let below = fold_path(params, start, path.drop_last(), bits.drop_last());
        if bits.last() {
            hash_pair(params, path.last(), below)
        } else {
            hash_pair(params, below, path.last())
        }
    }
}

/// A power of two is at least one, and even from the first power on.
pub proof fn lemma_two_pow_positive(k: nat)
    ensures
        two_pow(k) >= 1,
        k >= 1 ==> two_pow(k) >= 2 && two_pow(k) % 2 == 0,
    decreases k,
{
    if k > 0 {
        lemma_two_pow_positive((k - 1) as nat);
    }
}

/// A smaller exponent gives a smaller power.
pub proof fn lemma_two_pow_grows(a: nat, b: nat)
    requires
        a <= b,
    ensures
        two_pow(a) <= two_pow(b),
    decreases b,
{
    if a < b {
        lemma_two_pow_grows(a, (b - 1) as nat);
    }
}

/// Equal powers have equal exponents.
pub proof fn lemma_two_pow_injective(a: nat, b: nat)
    requires
        two_pow(a) == two_pow(b),
    ensures
        a == b,
{
    lemma_two_pow_positive(a);
    lemma_two_pow_positive(b);
    if a < b {
        lemma_two_pow_grows((a + 1) as nat, b);
        assert(two_pow((a + 1) as nat) == 2 * two_pow(a));
    } else if b < a {
        lemma_two_pow_grows((b + 1) as nat, a);
        assert(two_pow((b + 1) as nat) == 2 * two_pow(b));
    }
}

/// A tree that fits the machine has fewer than 64 levels.
pub proof fn lemma_depth_fits(depth: nat)
    requires
        2 * two_pow(depth) <= usize::MAX,
    ensures
        depth < 64,
{
    if depth >= 64 {
        lemma_two_pow_grows(64, depth);
        crate::field::lemma_two_pow_limbs();
    }
}

/// Halving `k + 1` times is halving `k` times and once more.
pub proof fn lemma_shift_step(i: nat, k: nat)
    ensures
        (i / two_pow(k)) / 2 == i / two_pow(k + 1),
{
    lemma_two_pow_positive(k);
    lemma_div_denominator(i as int, two_pow(k) as int, 2);
    assert(two_pow(k + 1) == 2 * two_pow(k));
    assert(two_pow(k) * 2 == 2 * two_pow(k));
}

/// A node and its sibling are the two children of one parent.
pub proof fn lemma_children(n: nat)
    ensures
        n == 2 * (n / 2) + n % 2,
        n % 2 == 0 || n % 2 == 1,
        sibling(n) / 2 == n / 2,
        n % 2 == 1 ==> sibling(n) == 2 * (n / 2),
        n % 2 == 0 ==> sibling(n) == 2 * (n / 2) + 1,
        (2 * n) / 2 == n,
        (2 * n + 1) / 2 == n,
{
    lemma_fundamental_div_mod(n as int, 2);
    lemma_div_multiples_vanish_fancy(n as int, 0, 2);
    lemma_div_multiples_vanish_fancy(n as int, 1, 2);
    lemma_div_multiples_vanish_fancy((n / 2) as int, 0, 2);
    lemma_div_multiples_vanish_fancy((n / 2) as int, 1, 2);
}

/// The power of a sum is the product of the powers.
pub proof fn lemma_two_pow_sum(a: nat, b: nat)
    ensures
        two_pow(a + b) == two_pow(a) * two_pow(b),
    decreases b,
{
    if b == 0 {
        assert(two_pow(a) * 1 == two_pow(a)) by (nonlinear_arith);
    } else {
        lemma_two_pow_sum(a, (b - 1) as nat);
        assert(two_pow(a + b) == 2 * two_pow((a + b - 1) as nat));
        assert(2 * (two_pow(a) * two_pow((b - 1) as nat)) == two_pow(a) * (2 * two_pow(
            (b - 1) as nat,
        ))) by (nonlinear_arith);
    }
}

/// The ancestor at level `k` of a leaf of a tree of depth `depth` is one of
/// the nodes of that level.
pub proof fn lemma_ancestor_in_level(depth: nat, i: nat, k: nat)
    requires
        i < two_pow(depth),
        k <= depth,
    ensures
        i / two_pow(k) < two_pow((depth - k) as nat),
{
    lemma_two_pow_sum(k, (depth - k) as nat);
    lemma_two_pow_positive(k);
    let a = two_pow(k);
    let b = two_pow((depth - k) as nat);
    assert(i / a < b) by (nonlinear_arith)
        requires
            i < a * b,
            a > 0,
    ;
}

/// Folding a leaf's hash along the first `k` levels of its path gives its
/// ancestor at level `k`.
pub proof fn lemma_fold_reaches_ancestor(params: &HashParams, leaves: Seq<nat>, k: nat, i: nat)
    ensures
        fold_path(params, leaves[i as int], merkle_path(params, leaves, k, i), index_bits(k, i))
            == merkle_node(params, leaves, k, i / two_pow(k)),
    decreases k,
{
    let path = merkle_path(params, leaves, k, i);
    let bits = index_bits(k, i);
    if k == 0 {
        assert(two_pow(0) == 1);
    } else {
        let below = (k - 1) as nat;
        lemma_fold_reaches_ancestor(params, leaves, below, i);
        assert(path.drop_last() =~= merkle_path(params, leaves, below, i));
        assert(bits.drop_last() =~= index_bits(below, i));
        lemma_shift_step(i, below);
        let n = i / two_pow(below);
        assert(path.last() == merkle_node(params, leaves, below, sibling(n)));
        assert(bits.last() == (n % 2 == 1));
        assert(n / 2 == i / two_pow(k));
        lemma_children(n);
    }
}

/// Hashing a leaf's hash up the tree, at each level with the sibling that its
/// path gives, on the side that its index bit gives, ends in the root.
pub proof fn lemma_path_leads_to_root(params: &HashParams, leaves: Seq<nat>, depth: nat, i: nat)
    requires
        i < two_pow(depth),
    ensures
        fold_path(
            params,
            leaves[i as int],
            merkle_path(params, leaves, depth, i),
            index_bits(depth, i),
        ) == merkle_root(params, leaves, depth),
{
    lemma_fold_reaches_ancestor(params, leaves, depth, i);
    lemma_ancestor_in_level(depth, i, depth);
    assert(two_pow(0) == 1);
}

/// Replacing leaf `i` leaves every node as it was that leaf `i` does not lie
/// below.
pub proof fn lemma_update_is_local(
    params: &HashParams,
    leaves: Seq<nat>,
    depth: nat,
    i: nat,
    x: nat,
    level: nat,
    idx: nat,
)
    requires
        leaves.len() == two_pow(depth),
        i < leaves.len(),
        level <= depth,
        idx < two_pow((depth - level) as nat),
        i / two_pow(level) != idx,
    ensures
        merkle_node(params, leaves.update(i as int, x), level, idx) == merkle_node(
            params,
            leaves,
            level,
            idx,
        ),
    decreases level,
{
    if level == 0 {
        assert(two_pow(0) == 1);
        assert(i / 1 == i);
        assert(idx < leaves.len());
        assert(leaves.update(i as int, x)[idx as int] == leaves[idx as int]);
    } else {
        let below = (level - 1) as nat;
        lemma_shift_step(i, below);
        lemma_children(idx);
        assert(i / two_pow(below) != 2 * idx);
        assert(i / two_pow(below) != 2 * idx + 1);
        assert(two_pow((depth - below) as nat) == 2 * two_pow((depth - level) as nat));
        lemma_update_is_local(params, leaves, depth, i, x, below, 2 * idx);
        lemma_update_is_local(params, leaves, depth, i, x, below, 2 * idx + 1);
    }
}

/// Replacing leaf `i` changes the path of another leaf `j` at level `k` only
/// where the two leaves have the same ancestor one level further up.
pub proof fn lemma_update_keeps_far_paths(
    params: &HashParams,
    leaves: Seq<nat>,
    depth: nat,
    i: nat,
    x: nat,
    j: nat,
    k: nat,
)
    requires
        leaves.len() == two_pow(depth),
        i < leaves.len(),
        j < leaves.len(),
        k < depth,
        i / two_pow(k + 1) != j / two_pow(k + 1),
    ensures
        merkle_path(params, leaves.update(i as int, x), depth, j)[k as int] == merkle_path(
            params,
            leaves,
            depth,
            j,
        )[k as int],
{
    let n = j / two_pow(k);
    lemma_shift_step(i, k);
    lemma_shift_step(j, k);
    lemma_ancestor_in_level(depth, j, k);
    lemma_two_pow_positive((depth - k) as nat);
    lemma_children(n);
    lemma_update_is_local(params, leaves, depth, i, x, k, sibling(n));
}

/// Replacing a leaf leaves its own path as it was: none of the siblings on
/// the way lies above the leaf.
pub proof fn lemma_own_path_unchanged(
    params: &HashParams,
    leaves: Seq<nat>,
    depth: nat,
    i: nat,
    x: nat,
)
    requires
        leaves.len() == two_pow(depth),
        i < leaves.len(),
    ensures
        merkle_path(params, leaves.update(i as int, x), depth, i) == merkle_path(
            params,
            leaves,
            depth,
            i,
        ),
{
    let changed = merkle_path(params, leaves.update(i as int, x), depth, i);
    let kept = merkle_path(params, leaves, depth, i);
    assert forall|k: int| 0 <= k < depth implies changed[k] == kept[k] by {
        let n = i / two_pow(k as nat);
        lemma_ancestor_in_level(depth, i, k as nat);
        lemma_two_pow_positive((depth - k) as nat);
        lemma_children(n);
        lemma_update_is_local(params, leaves, depth, i, x, k as nat, sibling(n));
    }
    assert(changed =~= kept);
}

/// The hashes of the given leaves.
pub open spec fn leaf_hashes(params: &HashParams, leaves: Seq<Vec<FieldElement>>) -> Seq<nat> {
    Seq::new(leaves.len(), |j: int| params.spec_hash(values(leaves[j]@)))
}

/// The hash of the two nodes kept at `at` and after it.
fn hash_children(params: &HashParams, tree: &Vec<FieldElement>, at: usize) -> (h: FieldElement)
    requires
        at + 1 < tree.len(),
    ensures
        h@ == hash_pair(params, tree@[at as int]@, tree@[at + 1]@),
{
    let mut pair: Vec<FieldElement> = Vec::new();
    pair.push(tree[at]);
    pair.push(tree[at + 1]);
    assert(values(pair@) =~= seq![tree@[at as int]@, tree@[at + 1]@]);
    params.hash(&pair)
}

/// A binary hash tree over sponge hashes, kept as one vector: the leaf hashes,
/// then each level above them in turn, the root last.
#[derive(Clone)]
pub struct PoseidonMerkleTree<'a> {
    params: &'a HashParams,
    tree: Vec<FieldElement>,
    depth: usize,
}

impl<'a> PoseidonMerkleTree<'a> {
    /// The parameters that the tree is hashed with.
    pub closed spec fn spec_params(&self) -> &HashParams {
        self.params
    }

    /// The number of levels above the leaves.
    pub closed spec fn spec_depth(&self) -> nat {
        self.depth as nat
    }

    /// The values of all nodes, in the order in which they are kept.
    pub closed spec fn nodes(&self) -> Seq<nat> {
        values(self.tree@)
    }

    /// The number of leaves.
    pub open spec fn spec_num_leaves(&self) -> nat {
        two_pow(self.spec_depth())
    }

    /// The leaf hashes.
    pub open spec fn leaves(&self) -> Seq<nat> {
        self.nodes().take(self.spec_num_leaves() as int)
    }

    /// Every node above the leaves is the hash of its two children.
    pub open spec fn wf(&self) -> bool {
        let n = self.spec_num_leaves() as int;
        &&& 2 * n <= usize::MAX
        &&& self.nodes().len() == 2 * n - 1
        &&& forall|m: int|
            n <= m < 2 * n - 1 ==> #[trigger] self.nodes()[m] == hash_pair(
                self.spec_params(),
                self.nodes()[2 * (m - n)],
                self.nodes()[2 * (m - n) + 1],
            )
    }

    /// The root: the one node of the topmost level.
    pub open spec fn spec_root(&self) -> nat {
        merkle_root(self.spec_params(), self.leaves(), self.spec_depth())
    }

    /// Where node `idx` of level `level` is kept.
    pub open spec fn position(&self, level: nat, idx: nat) -> int {
        2 * self.spec_num_leaves() - 2 * two_pow((self.spec_depth() - level) as nat) + idx
    }

    /// In a well-formed tree each kept node is the node of the tree over the
    /// leaf hashes.
    pub proof fn lemma_node_at(&self, level: nat, idx: nat)
        requires
            self.wf(),
            level <= self.spec_depth(),
            idx < two_pow((self.spec_depth() - level) as nat),
        ensures
            0 <= self.position(level, idx) < self.nodes().len(),
            self.nodes()[self.position(level, idx)] == merkle_node(
                self.spec_params(),
                self.leaves(),
                level,
                idx,
            ),
        decreases level,
    {
        let d = self.spec_depth();
        let n = self.spec_num_leaves() as int;
        lemma_two_pow_positive((d - level) as nat);
        if level == 0 {
        } else {
            assert(two_pow((d - level + 1) as nat) == 2 * two_pow((d - level) as nat));
            self.lemma_node_at((level - 1) as nat, 2 * idx);
            self.lemma_node_at((level - 1) as nat, 2 * idx + 1);
            let m = self.position(level, idx);
            assert(2 * (m - n) == self.position((level - 1) as nat, 2 * idx));
            assert(self.nodes()[m] == hash_pair(
                self.spec_params(),
                self.nodes()[2 * (m - n)],
                self.nodes()[2 * (m - n) + 1],
            ));
        }
    }

    /// The hash of a sequence of field elements under the tree's
    /// parameters.
    pub fn hash(&self, input: &Vec<FieldElement>) -> (h: FieldElement)
        ensures
            h@ == self.spec_params().spec_hash(values(input@)),
    {
        self.params.hash(input)
    }

    /// The number of leaves.
    pub fn num_leaves(&self) -> (n: usize)
        requires
            self.wf(),
        ensures
            n == self.spec_num_leaves(),
    {
        (self.tree.len() + 1) / 2
    }

    /// The number of levels above the leaves.
    pub fn depth(&self) -> (d: usize)
        ensures
            d == self.spec_depth(),
    {
        self.depth
    }

    /// The tree over the hashes of the given leaves, whose number is a power
    /// of two.
    pub fn new(leaves: Vec<Vec<FieldElement>>, params: &'a HashParams) -> (t: Self)
        requires
            exists|d: nat| leaves.len() == two_pow(d),
            2 * leaves.len() <= usize::MAX,
        ensures
            t.wf(),
            t.spec_params() == params,
            t.spec_num_leaves() == leaves.len(),
            t.leaves() == leaf_hashes(params, leaves@),
    {
        let ghost d = choose|d: nat| leaves.len() == two_pow(d);
        let n = leaves.len();
        let mut tree: Vec<FieldElement> = Vec::new();
        let mut j: usize = 0;
        while j < n
            invariant
                j <= n,
                n == leaves.len(),
                tree.len() == j,
                forall|q: int| 0 <= q < j ==> tree@[q]@ == params.spec_hash(values(leaves@[q]@)),
            decreases n - j,
        {
            let h = params.hash(&leaves[j]);
            tree.push(h);
            j += 1;
        }
        let mut depth: usize = 0;
        let mut start: usize = 0;
        let mut end: usize = n;
        proof {
            lemma_two_pow_positive(d);
        }
        while end - start > 1
            invariant
                n == leaves.len(),
                n == two_pow(d),
                2 * n <= usize::MAX,
                depth <= d,
                depth <= start,
                start < end,
                end - start == two_pow((d - depth) as nat),
                start == 2 * n - 2 * two_pow((d - depth) as nat),
                end == tree.len(),
                forall|q: int| 0 <= q < n ==> tree@[q]@ == params.spec_hash(values(leaves@[q]@)),
                forall|m: int|
                    n <= m < tree.len() ==> #[trigger] tree@[m]@ == hash_pair(
                        params,
                        tree@[2 * (m - n)]@,
                        tree@[2 * (m - n) + 1]@,
                    ),
            decreases end - start,
        {
            proof {
                lemma_two_pow_positive((d - depth) as nat);
                lemma_two_pow_positive((d - depth - 1) as nat);
            }
            let mut i: usize = start;
            while i < end
                invariant
                    n == leaves.len(),
                    2 * n <= usize::MAX,
                    start <= i <= end,
                    (i - start) % 2 == 0,
                    (end - start) % 2 == 0,
                    2 * end == 2 * n + start,
                    end < 2 * n,
                    tree.len() == end + (i - start) / 2,
                    forall|q: int|
                        0 <= q < n ==> tree@[q]@ == params.spec_hash(values(leaves@[q]@)),
                    forall|m: int|
                        n <= m < tree.len() ==> #[trigger] tree@[m]@ == hash_pair(
                            params,
                            tree@[2 * (m - n)]@,
                            tree@[2 * (m - n) + 1]@,
                        ),
                decreases end - i,
            {
                let h = hash_children(params, &tree, i);
                let ghost before = tree@;
                tree.push(h);
                assert forall|m: int| n <= m < tree.len() implies #[trigger] tree@[m]@ == hash_pair(
                    params,
                    tree@[2 * (m - n)]@,
                    tree@[2 * (m - n) + 1]@,
                ) by {
                    if m < before.len() {
                        assert(before[m]@ == hash_pair(
                            params,
                            before[2 * (m - n)]@,
                            before[2 * (m - n) + 1]@,
                        ));
                    }
                }
                i += 2;
            }
            start = end;
            end = tree.len();
            depth += 1;
        }
        proof {
            lemma_two_pow_positive((d - depth) as nat);
        }
        let t = PoseidonMerkleTree { params, tree, depth };
        proof {
            assert(t.leaves() =~= leaf_hashes(params, leaves@));
            assert forall|m: int| n <= m < 2 * n - 1 implies #[trigger] t.nodes()[m] == hash_pair(
                t.spec_params(),
                t.nodes()[2 * (m - n)],
                t.nodes()[2 * (m - n) + 1],
            ) by {
                assert(t.tree@[m]@ == hash_pair(
                    params,
                    t.tree@[2 * (m - n)]@,
                    t.tree@[2 * (m - n) + 1]@,
                ));
            }
        }
        t
    }

    /// The index of a leaf as bits, lowest first.
    pub fn get_leaf_indices(&self, leaf_index: usize) -> (bits: Vec<bool>)
        requires
            self.wf(),
            leaf_index < self.spec_num_leaves(),
        ensures
            bits@ == index_bits(self.spec_depth(), leaf_index as nat),
    {
        let mut bits: Vec<bool> = Vec::new();
        let mut shift: usize = leaf_index;
        let mut k: usize = 0;
        assert(two_pow(0) == 1);
        while k < self.depth
            invariant
                k <= self.depth,
                shift == (leaf_index as nat) / two_pow(k as nat),
                bits@ == index_bits(k as nat, leaf_index as nat),
            decreases self.depth - k,
        {
            proof {
                lemma_shift_step(leaf_index as nat, k as nat);
            }
            bits.push(shift % 2 == 1);
            shift = shift / 2;
            k += 1;
            assert(bits@ =~= index_bits(k as nat, leaf_index as nat));
        }
        bits
    }

    /// Where the sibling at level `level` on the way from leaf `i` is kept.
    pub open spec fn sibling_position(&self, i: nat, level: nat) -> int {
        self.position(level, sibling(i / two_pow(level)))
    }

    /// In a well-formed tree the siblings on the way from a leaf are kept
    /// where the tree's layout puts them.
    pub proof fn lemma_sibling_at(&self, i: nat, level: nat)
        requires
            self.wf(),
            i < self.spec_num_leaves(),
            level < self.spec_depth(),
        ensures
            0 <= self.sibling_position(i, level) < self.nodes().len(),
            self.nodes()[self.sibling_position(i, level)] == merkle_path(
                self.spec_params(),
                self.leaves(),
                self.spec_depth(),
                i,
            )[level as int],
    {
        let d = self.spec_depth();
        let n = i / two_pow(level);
        lemma_ancestor_in_level(d, i, level);
        lemma_two_pow_positive((d - level) as nat);
        lemma_children(n);
        self.lemma_node_at(level, sibling(n));
    }

    /// The sibling hashes on the way from a leaf to the root.
    pub fn get_leaf_path(&self, leaf_index: usize) -> (path: Vec<FieldElement>)
        requires
            self.wf(),
            leaf_index < self.spec_num_leaves(),
        ensures
            values(path@) == merkle_path(
                self.spec_params(),
                self.leaves(),
                self.spec_depth(),
                leaf_index as nat,
            ),
    {
        let ghost d = self.spec_depth();
        let ghost i = leaf_index as nat;
        let ghost expected = merkle_path(self.spec_params(), self.leaves(), d, i);
        let mut path: Vec<FieldElement> = Vec::new();
        let mut level_start: usize = 0;
        let mut level_nodes: usize = self.num_leaves();
        let mut level_shift: usize = leaf_index;
        let ghost mut k: nat = 0;
        proof {
            assert(two_pow(0) == 1);
            assert forall|q: nat| q < d implies 0 <= #[trigger] self.sibling_position(i, q)
                < self.tree@.len()
                    && self.tree@[self.sibling_position(i, q)]@ == expected[q as int] by {
                self.lemma_sibling_at(i, q);
            }
        }
        while level_nodes > 1
            invariant
                d == self.spec_depth(),
                i == leaf_index,
                2 * two_pow(d) <= usize::MAX,
                expected.len() == d,
                forall|q: nat|
                    q < d ==> 0 <= #[trigger] self.sibling_position(i, q) < self.tree@.len()
                        && self.tree@[self.sibling_position(i, q)]@ == expected[q as int],
                k <= d,
                level_nodes == two_pow((d - k) as nat),
                level_start == 2 * two_pow(d) - 2 * level_nodes,
                level_shift == i / two_pow(k),
                level_shift < level_nodes,
                path.len() == k,
                forall|q: int| 0 <= q < k ==> path@[q]@ == expected[q],
            decreases level_nodes,
        {
            proof {
                lemma_two_pow_positive((d - k) as nat);
                lemma_two_pow_positive((d - k - 1) as nat);
                lemma_shift_step(i, k);
                lemma_children(level_shift as nat);
                assert(0 <= self.sibling_position(i, k) < self.tree@.len());
            }
            let node_index = level_start + level_shift;
            let neighbor_index = if node_index % 2 == 0 {
                node_index + 1
            } else {
                node_index - 1
            };
            assert(neighbor_index == self.sibling_position(i, k));
            path.push(self.tree[neighbor_index]);
            level_shift /= 2;
            level_start += level_nodes;
            level_nodes /= 2;
            proof {
                k = k + 1;
            }
        }
        proof {
            lemma_two_pow_positive((d - k) as nat);
            assert(values(path@) =~= expected);
        }
        path
    }

    /// Replaces a leaf and rehashes the nodes on its way to the root.
    pub fn update_leaf(&mut self, leaf_index: usize, new_leaf: Vec<FieldElement>)
        requires
            old(self).wf(),
            leaf_index < old(self).spec_num_leaves(),
        ensures
            final(self).wf(),
            final(self).spec_params() == old(self).spec_params(),
            final(self).spec_depth() == old(self).spec_depth(),
            final(self).leaves() == old(self).leaves().update(
                leaf_index as int,
                old(self).spec_params().spec_hash(values(new_leaf@)),
            ),
            final(self).spec_root() == merkle_root(
                old(self).spec_params(),
                old(self).leaves().update(
                    leaf_index as int,
                    old(self).spec_params().spec_hash(values(new_leaf@)),
                ),
                old(self).spec_depth(),
            ),
    {
        let ghost d = self.spec_depth();
        let ghost before = self.tree@;
        let params = self.params;
        let h = params.hash(&new_leaf);
        let n = self.num_leaves();
        self.tree.set(leaf_index, h);
        let mut level_start: usize = 0;
        let mut level_nodes: usize = n;
        let mut level_shift: usize = leaf_index;
        let ghost mut k: nat = 0;
        proof {
            assert forall|m: int| n <= m < 2 * n - 1 && m != n + leaf_index / 2 implies
                #[trigger] self.tree@[m]@
                == hash_pair(params, self.tree@[2 * (m - n)]@, self.tree@[2 * (m - n) + 1]@) by {
                assert(old(self).nodes()[m] == hash_pair(
                    params,
                    old(self).nodes()[2 * (m - n)],
                    old(self).nodes()[2 * (m - n) + 1],
                ));
            }
        }
        while level_nodes > 1
            invariant
                self.depth == d,
                self.params == params,
                n == two_pow(d),
                2 * n <= usize::MAX,
                self.tree.len() == 2 * n - 1,
                before.len() == 2 * n - 1,
                leaf_index < n,
                k <= d,
                level_nodes == two_pow((d - k) as nat),
                level_start == 2 * n - 2 * level_nodes,
                level_shift < level_nodes,
                forall|q: int|
                    0 <= q < n ==> self.tree@[q] == (if q == leaf_index {
                        h
                    } else {
                        before[q]
                    }),
                forall|m: int|
                    n <= m < 2 * n - 1 && m != n + (level_start + level_shift) / 2
                        ==> #[trigger] self.tree@[m]@ == hash_pair(
                        params,
                        self.tree@[2 * (m - n)]@,
                        self.tree@[2 * (m - n) + 1]@,
                    ),
            decreases level_nodes,
        {
            proof {
                lemma_two_pow_positive((d - k) as nat);
                lemma_two_pow_positive((d - k - 1) as nat);
            }
            let parent_index = level_start + level_nodes + level_shift / 2;
            let node_index = level_start + level_shift;
            let even_node_index = node_index - (node_index % 2);
            assert(parent_index == n + node_index / 2);
            assert(even_node_index == 2 * (parent_index - n));
            let hh = hash_children(params, &self.tree, even_node_index);
            let ghost prior = self.tree@;
            self.tree.set(parent_index, hh);
            level_shift /= 2;
            level_start += level_nodes;
            level_nodes /= 2;
            proof {
                k = k + 1;
                assert forall|m: int|
                    n <= m < 2 * n - 1 && m != n + (level_start + level_shift) / 2 implies
                        #[trigger] self.tree@[m]@
                    == hash_pair(params, self.tree@[2 * (m - n)]@, self.tree@[2 * (m - n) + 1]@) by {
                    if m != parent_index {
                        assert(prior[m]@ == hash_pair(
                            params,
                            prior[2 * (m - n)]@,
                            prior[2 * (m - n) + 1]@,
                        ));
                    }
                }
            }
        }
        proof {
            lemma_two_pow_positive((d - k) as nat);
            assert(self.leaves() =~= old(self).leaves().update(
                leaf_index as int,
                params.spec_hash(values(new_leaf@)),
            ));
            assert forall|m: int| n <= m < 2 * n - 1 implies
                #[trigger] self.nodes()[m] == hash_pair(
                self.spec_params(),
                self.nodes()[2 * (m - n)],
                self.nodes()[2 * (m - n) + 1],
            ) by {
                assert(self.tree@[m]@ == hash_pair(
                    params,
                    self.tree@[2 * (m - n)]@,
                    self.tree@[2 * (m - n) + 1]@,
                ));
            }
        }
    }

    /// The nodes of the tree level by level, the leaf hashes first and the
    /// root last.
    pub fn levels(&self) -> (levels: Vec<Vec<FieldElement>>)
        requires
            self.wf(),
        ensures
            levels@.len() == self.spec_depth() + 1,
            forall|k: int|
                0 <= k <= self.spec_depth() ==> (#[trigger] levels@[k])@.len() == two_pow(
                    (self.spec_depth() - k) as nat,
                ),
            forall|k: int, j: int|
                0 <= k <= self.spec_depth() && 0 <= j < two_pow((self.spec_depth() - k) as nat)
                    ==> (#[trigger] levels@[k]@[j])@ == merkle_node(
                    self.spec_params(),
                    self.leaves(),
                    k as nat,
                    j as nat,
                ),
    {
        let ghost d = self.spec_depth();
        proof {
            lemma_depth_fits(d);
        }
        let mut levels: Vec<Vec<FieldElement>> = Vec::new();
        let mut level_start: usize = 0;
        let mut level_nodes: usize = self.num_leaves();
        let mut k: usize = 0;
        while k <= self.depth
            invariant
                self.wf(),
                d == self.spec_depth(),
                d < 64,
                k <= d + 1,
                k <= d ==> level_nodes == two_pow((d - k) as nat),
                k <= d ==> level_start == 2 * two_pow(d) - 2 * level_nodes,
                levels@.len() == k,
                forall|q: int|
                    0 <= q < k ==> (#[trigger] levels@[q])@.len() == two_pow((d - q) as nat),
                forall|q: int, j: int|
                    0 <= q < k && 0 <= j < two_pow((d - q) as nat) ==> (#[trigger] levels@[q]@[j])@
                        == merkle_node(self.spec_params(), self.leaves(), q as nat, j as nat),
            decreases self.depth + 1 - k,
        {
            proof {
                lemma_two_pow_positive((d - k) as nat);
                assert forall|j: nat| j < level_nodes implies 0 <= #[trigger] self.position(
                    k as nat,
                    j,
                ) < self.tree@.len() && self.tree@[self.position(k as nat, j)]@ == merkle_node(
                    self.spec_params(),
                    self.leaves(),
                    k as nat,
                    j,
                ) by {
                    self.lemma_node_at(k as nat, j);
                }
            }
            let mut row: Vec<FieldElement> = Vec::new();
            let mut j: usize = 0;
            while j < level_nodes
                invariant
                    d == self.spec_depth(),
                    k <= d,
                    j <= level_nodes,
                    level_nodes == two_pow((d - k) as nat),
                    level_start == 2 * two_pow(d) - 2 * level_nodes,
                    2 * two_pow(d) <= usize::MAX,
                    row@.len() == j,
                    forall|q: nat|
                        q < level_nodes ==> 0 <= #[trigger] self.position(k as nat, q)
                            < self.tree@.len() && self.tree@[self.position(k as nat, q)]@
                            == merkle_node(self.spec_params(), self.leaves(), k as nat, q),
                    forall|q: int|
                        0 <= q < j ==> (#[trigger] row@[q])@ == merkle_node(
                            self.spec_params(),
                            self.leaves(),
                            k as nat,
                            q as nat,
                        ),
                decreases level_nodes - j,
            {
                assert(level_start + j == self.position(k as nat, j as nat));
                row.push(self.tree[level_start + j]);
                j += 1;
            }
            levels.push(row);
            if k < self.depth {
                proof {
                    lemma_two_pow_positive((d - k - 1) as nat);
                }
                level_start += level_nodes;
                level_nodes /= 2;
            }
            k += 1;
        }
        levels
    }

    /// The root.
    pub fn root(&self) -> (r: FieldElement)
        requires
            self.wf(),
        ensures
            r@ == self.spec_root(),
    {
        proof {
            lemma_two_pow_positive(self.spec_depth());
            self.lemma_node_at(self.spec_depth(), 0);
        }
        let root_index = self.tree.len() - 1;
        self.tree[root_index]
    }
}

} // verus!
