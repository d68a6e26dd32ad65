//! Paths of a hash tree in a circuit.

use crate::circuit::{
    all_bits_known, all_known, allocs, bit_allocs, bit_values, bit_wires, lc1,
    lemma_all_bits_known_push, lemma_all_known_push, num_values, shapes, wire_at, wires,
    wires_from, AllocatedBit, AllocatedNum, ConstraintSystem, Shape, Term, Wire,
};
use crate::utils::calc::same_layout;
use crate::field::{fr_modulus, FieldElement};
use crate::hash::HashParams;
use crate::tree::merkle_tree::fold_path;
use crate::utils::allocate::{alloc_bits, alloc_nums};
use vstd::arithmetic::div_mod::lemma_small_mod;
use vstd::prelude::*;

verus! {

/// What a proof needs of one leaf that changed: the leaf before and after,
/// and the way from it to the root.
#[derive(Clone, Debug)]
pub struct TreeState {
    pub old_leaf: Vec<Option<FieldElement>>,
    pub new_leaf: Vec<Option<FieldElement>>,
    pub path: Vec<Option<FieldElement>>,
    pub indices: Vec<Option<bool>>,
}

/// The numbers and bits of the circuit that stand for a `TreeState`.
#[derive(Clone)]
pub struct TreeCircuit<'a> {
    pub params: &'a HashParams,
    pub old_leaf_alloc: Vec<AllocatedNum>,
    pub new_leaf_alloc: Vec<AllocatedNum>,
    pub path_alloc: Vec<AllocatedNum>,
    pub indices_alloc: Vec<AllocatedBit>,
}

/// The number of levels that a path and its bits give together.
pub open spec fn path_levels(path: Seq<AllocatedNum>, indices: Seq<AllocatedBit>) -> int {
    if path.len() <= indices.len() {
        path.len() as int
    } else {
        indices.len() as int
    }
}

/// The leaf, the path and the bits are all known.
pub open spec fn root_known(
    leaf: Seq<AllocatedNum>,
    path: Seq<AllocatedNum>,
    indices: Seq<AllocatedBit>,
) -> bool {
    let n = path_levels(path, indices);
    all_known(leaf) && all_known(path.take(n)) && all_bits_known(indices.take(n))
}

/// The root that the leaf, the path and the bits lead to: the leaf's hash,
/// hashed level by level with the path's siblings, each on the side that the
/// level's bit gives.
pub open spec fn spec_calc_root(
    params: &HashParams,
    leaf: Seq<AllocatedNum>,
    path: Seq<AllocatedNum>,
    indices: Seq<AllocatedBit>,
) -> nat {
    let n = path_levels(path, indices);
    fold_path(
        params,
        params.spec_hash(num_values(leaf)),
        num_values(path.take(n)),
        bit_values(indices.take(n)),
    )
}

/// The step that hashes the given numbers.
pub open spec fn hash_shape(params: &HashParams, inputs: Seq<Wire>) -> Shape {
    Shape::Hash { inputs, t: params.t(), r_f: params.r_f(), r_p: params.r_p() }
}

/// The steps of `n` levels of a path above a hash that the step in place
/// `start` makes: for each level the step that puts the hash below and the
/// path's sibling in their order, and the step that hashes the two.
pub open spec fn levels_layout(
    start: nat,
    params: &HashParams,
    path: Seq<Wire>,
    indices: Seq<Wire>,
    n: nat,
) -> Seq<Shape> {
    Seq::new(
        2 * n,
        |j: int|
            if j % 2 == 0 {
                Shape::ConditionallyReverse {
                    a: wire_at((start + j) as nat, 0),
                    b: path[j / 2],
                    condition: indices[j / 2],
                }
            } else {
                hash_shape(
                    params,
                    seq![wire_at((start + j) as nat, 0), wire_at((start + j) as nat, 1)],
                )
            },
    )
}

/// The number of levels that a path of one length and bits of another give
/// together.
pub open spec fn levels(path: nat, indices: nat) -> nat {
    if path <= indices {
        path
    } else {
        indices
    }
}

/// The steps that lead from a leaf to its root, from place `start` on: the
/// leaf's hash, and the levels of the path above it.
pub open spec fn root_layout(
    start: nat,
    params: &HashParams,
    leaf: Seq<Wire>,
    path: Seq<Wire>,
    indices: Seq<Wire>,
) -> Seq<Shape> {
    seq![hash_shape(params, leaf)] + levels_layout(
        start,
        params,
        path,
        indices,
        levels(path.len(), indices.len()),
    )
}

/// The steps that ask a leaf to lead to a root, from place `start` on.
pub open spec fn verify_layout(
    start: nat,
    params: &HashParams,
    leaf: Seq<Wire>,
    path: Seq<Wire>,
    indices: Seq<Wire>,
    root: Wire,
) -> Seq<Shape> {
    root_layout(start, params, leaf, path, indices) + same_layout(
        wire_at(start + 2 * levels(path.len(), indices.len()), 0),
        root,
    )
}

/// The root that a leaf, a path and the path's bits lead to. Its value is
/// known where theirs are.
pub fn calc_root(
    cs: &mut ConstraintSystem,
    params: &HashParams,
    leaf: &Vec<AllocatedNum>,
    path: &Vec<AllocatedNum>,
    indices: &Vec<AllocatedBit>,
) -> (root: AllocatedNum)
    requires
        old(cs).owns_all(leaf@),
        old(cs).owns_all(path@),
        old(cs).owns_bits(indices@),
    ensures
        final(cs)@.len() == old(cs)@.len() + 2 * levels(path@.len(), indices@.len()) + 1,
        final(cs).adds(old(cs), true),
        final(cs).lays(
            old(cs),
            root_layout(old(cs)@.len(), params, wires(leaf@), wires(path@), bit_wires(indices@)),
        ),
        root.wire() == wire_at(old(cs)@.len() + 2 * levels(path@.len(), indices@.len()), 0),
        final(cs).owns(root),
        root.value.is_some() == root_known(leaf@, path@, indices@),
        root_known(leaf@, path@, indices@) ==> root.spec_value() == spec_calc_root(
            params,
            leaf@,
            path@,
            indices@,
        ),
{
    let ghost first = old(cs)@.len();
    let ghost above = seq![hash_shape(params, wires(leaf@))];
    let mut prev_hash = cs.poseidon_hash(leaf, params);
    let ghost start = params.spec_hash(num_values(leaf@));
    let mut i: usize = 0;
    reveal(ConstraintSystem::lays);
    assert(shapes(cs@) =~= shapes(old(cs)@) + above + levels_layout(
        first,
        params,
        wires(path@),
        bit_wires(indices@),
        0,
    ));
    assert(path@.take(0) =~= Seq::<AllocatedNum>::empty());
    assert(indices@.take(0) =~= Seq::<AllocatedBit>::empty());
    while i < indices.len() && i < path.len()
        invariant
            i <= path_levels(path@, indices@),
            cs.adds(old(cs), true),
            first == old(cs)@.len(),
            above == seq![hash_shape(params, wires(leaf@))],
            cs@.len() == first + 1 + 2 * i,
            shapes(cs@) == shapes(old(cs)@) + above + levels_layout(
                first,
                params,
                wires(path@),
                bit_wires(indices@),
                i as nat,
            ),
            prev_hash.wire() == wire_at(first + 2 * i as nat, 0),
            cs.owns(prev_hash),
            cs.owns_all(path@),
            cs.owns_bits(indices@),
            start == params.spec_hash(num_values(leaf@)),
            prev_hash.value.is_some() == (all_known(leaf@) && all_known(path@.take(i as int))
                && all_bits_known(indices@.take(i as int))),
            prev_hash.value.is_some() ==> prev_hash.spec_value() == fold_path(
                params,
                start,
                num_values(path@.take(i as int)),
                bit_values(indices@.take(i as int)),
            ),
        decreases path_levels(path@, indices@) - i,
    {
        let ghost below = prev_hash;
        let ghost laid = cs@;
        let (left, right) = cs.conditionally_reverse(&prev_hash, &path[i], &indices[i]);
        let mut children: Vec<AllocatedNum> = Vec::new();
        children.push(left);
        children.push(right);
        assert(cs.owns_all(children@)) by {
            assert(children@[0] == left);
            assert(children@[1] == right);
        }
        prev_hash = cs.poseidon_hash(&children, params);
        proof {
            assert(wires(children@) =~= seq![left.wire(), right.wire()]);
            let more = levels_layout(
                first,
                params,
                wires(path@),
                bit_wires(indices@),
                (i + 1) as nat,
            );
            assert(more[2 * i] == Shape::ConditionallyReverse {
                a: below.wire(),
                b: path@[i as int].wire(),
                condition: indices@[i as int].wire(),
            });
            assert(more[2 * i + 1] == hash_shape(params, wires(children@)));
            reveal(ConstraintSystem::lays);
            assert(shapes(cs@) =~= shapes(old(cs)@) + above + more);
        }
        proof {
            let seen = path@.take(i as int);
            let more = path@.take(i + 1);
            let seen_bits = indices@.take(i as int);
            let more_bits = indices@.take(i + 1);
            assert(more =~= seen.push(path@[i as int]));
            assert(more_bits =~= seen_bits.push(indices@[i as int]));
            lemma_all_known_push(seen, path@[i as int]);
            lemma_all_bits_known_push(seen_bits, indices@[i as int]);
            assert(all_known(children@) == (left.value.is_some() && right.value.is_some())) by {
                if left.value.is_some() && right.value.is_some() {
                    assert forall|j: int| 0 <= j < children@.len() implies (
                    #[trigger] children@[j]).value.is_some() by {}
                } else {
                    assert(children@[0] == left);
                    assert(children@[1] == right);
                }
            }
            if prev_hash.value.is_some() {
                assert(num_values(children@) =~= seq![left.spec_value(), right.spec_value()]);
                assert(num_values(more).drop_last() =~= num_values(seen));
                assert(bit_values(more_bits).drop_last() =~= bit_values(seen_bits));
                assert(num_values(more).last() == path@[i as int].spec_value());
                assert(bit_values(more_bits).last() == indices@[i as int].value.unwrap());
            }
        }
        i += 1;
    }
    assert(i == levels(path@.len(), indices@.len()));
    reveal(ConstraintSystem::lays);
    assert(shapes(cs@) =~= shapes(old(cs)@) + root_layout(
        first,
        params,
        wires(leaf@),
        wires(path@),
        bit_wires(indices@),
    ));
    prev_hash
}

/// Asks that a leaf, a path and the path's bits lead to the given root.
pub fn verify(
    cs: &mut ConstraintSystem,
    params: &HashParams,
    leaf: &Vec<AllocatedNum>,
    path: &Vec<AllocatedNum>,
    indices: &Vec<AllocatedBit>,
    root: &AllocatedNum,
)
    requires
        old(cs).owns_all(leaf@),
        old(cs).owns_all(path@),
        old(cs).owns_bits(indices@),
        old(cs).owns(*root),
    ensures
        final(cs)@.len() == old(cs)@.len() + 2 * levels(path@.len(), indices@.len()) + 2,
        final(cs).adds(
            old(cs),
            root_known(leaf@, path@, indices@) && root.value.is_some() && spec_calc_root(
                params,
                leaf@,
                path@,
                indices@,
            ) == root.spec_value(),
        ),
        final(cs).lays(
            old(cs),
            verify_layout(
                old(cs)@.len(),
                params,
                wires(leaf@),
                wires(path@),
                bit_wires(indices@),
                root.wire(),
            ),
        ),
{
    let last_hash = calc_root(cs, params, leaf, path, indices);
    if let Some(v) = last_hash.value {
        proof {
            use_type_invariant(&v);
            lemma_small_mod(v@, fr_modulus());
        }
    }
    if let Some(v) = root.value {
        proof {
            use_type_invariant(&v);
            lemma_small_mod(v@, fr_modulus());
        }
    }
    assert(last_hash.spec_value() * 1 == last_hash.spec_value());
    cs.enforce(lc1(Term::Num(last_hash)), lc1(Term::One), lc1(Term::Num(*root)));
    reveal(ConstraintSystem::lays);
    assert(shapes(cs@) =~= shapes(old(cs)@) + verify_layout(
        old(cs)@.len(),
        params,
        wires(leaf@),
        wires(path@),
        bit_wires(indices@),
        root.wire(),
    ));
}

/// The steps that make the numbers and bits of a leaf that changed: the old
/// leaf, the new leaf, the path and the path's bits.
pub open spec fn tree_layout(leaf_size: nat, depth: nat) -> Seq<Shape> {
    allocs(leaf_size) + allocs(leaf_size) + allocs(depth) + bit_allocs(depth)
}

impl<'a> TreeCircuit<'a> {
    /// The numbers and bits of a `TreeState` of the given sizes.
    pub fn new(
        cs: &mut ConstraintSystem,
        leaf_size: usize,
        tree_depth: usize,
        params: &'a HashParams,
        tree_state: &TreeState,
    ) -> (tree: Self)
        requires
            tree_state.old_leaf@.len() == leaf_size,
            tree_state.new_leaf@.len() == leaf_size,
            tree_state.indices@.len() == tree_depth,
            tree_state.path@.len() == tree_depth,
        ensures
            final(cs)@.len() == old(cs)@.len() + 2 * leaf_size + 2 * tree_depth,
            final(cs).adds(old(cs), true),
            final(cs).lays(old(cs), tree_layout(leaf_size as nat, tree_depth as nat)),
            tree.laid_at(old(cs)@.len(), leaf_size as nat, tree_depth as nat),
            tree.params == params,
            tree.stands_for(tree_state),
            tree.owned_by(final(cs)),
    {
        let old_leaf_alloc = alloc_nums(cs, &tree_state.old_leaf);
        let new_leaf_alloc = alloc_nums(cs, &tree_state.new_leaf);
        let path_alloc = alloc_nums(cs, &tree_state.path);
        let indices_alloc = alloc_bits(cs, &tree_state.indices);
        reveal(ConstraintSystem::lays);
        reveal(TreeCircuit::laid_at);
        assert(shapes(cs@) =~= shapes(old(cs)@) + tree_layout(leaf_size as nat, tree_depth as nat));
        TreeCircuit { params, old_leaf_alloc, new_leaf_alloc, path_alloc, indices_alloc }
    }

    /// The numbers and bits were made by the steps from the one in place
    /// `start` on: the old leaf, the new leaf, the path, the bits.
    #[verifier::opaque]
    pub open spec fn laid_at(&self, start: nat, leaf_size: nat, depth: nat) -> bool {
        &&& wires(self.old_leaf_alloc@) == wires_from(start, leaf_size)
        &&& wires(self.new_leaf_alloc@) == wires_from(start + leaf_size, leaf_size)
        &&& wires(self.path_alloc@) == wires_from(start + 2 * leaf_size, depth)
        &&& bit_wires(self.indices_alloc@) == wires_from(start + 2 * leaf_size + depth, depth)
    }

    /// The numbers and bits have the values of the given state.
    pub open spec fn stands_for(&self, tree_state: &TreeState) -> bool {
        &&& self.old_leaf_alloc@.len() == tree_state.old_leaf@.len()
        &&& forall|i: int|
            0 <= i < tree_state.old_leaf@.len() ==> (#[trigger] self.old_leaf_alloc@[i]).value
                == tree_state.old_leaf@[i]
        &&& self.new_leaf_alloc@.len() == tree_state.new_leaf@.len()
        &&& forall|i: int|
            0 <= i < tree_state.new_leaf@.len() ==> (#[trigger] self.new_leaf_alloc@[i]).value
                == tree_state.new_leaf@[i]
        &&& self.path_alloc@.len() == tree_state.path@.len()
        &&& forall|i: int|
            0 <= i < tree_state.path@.len() ==> (#[trigger] self.path_alloc@[i]).value
                == tree_state.path@[i]
        &&& self.indices_alloc@.len() == tree_state.indices@.len()
        &&& forall|i: int|
            0 <= i < tree_state.indices@.len() ==> (#[trigger] self.indices_alloc@[i]).value
                == tree_state.indices@[i]
    }

    /// The circuit makes all the numbers and bits.
    pub open spec fn owned_by(&self, cs: &ConstraintSystem) -> bool {
        &&& cs.owns_all(self.old_leaf_alloc@)
        &&& cs.owns_all(self.new_leaf_alloc@)
        &&& cs.owns_all(self.path_alloc@)
        &&& cs.owns_bits(self.indices_alloc@)
    }

    /// The number of levels of the path.
    pub open spec fn spec_levels(&self) -> nat {
        levels(self.path_alloc@.len(), self.indices_alloc@.len())
    }

    /// The old leaf, the path and the bits are all known.
    pub open spec fn old_root_known(&self) -> bool {
        root_known(self.old_leaf_alloc@, self.path_alloc@, self.indices_alloc@)
    }

    /// The new leaf, the path and the bits are all known.
    pub open spec fn new_root_known(&self) -> bool {
        root_known(self.new_leaf_alloc@, self.path_alloc@, self.indices_alloc@)
    }

    /// The root that the old leaf leads to.
    pub open spec fn spec_old_root(&self) -> nat {
        spec_calc_root(self.params, self.old_leaf_alloc@, self.path_alloc@, self.indices_alloc@)
    }

    /// The root that the new leaf leads to.
    pub open spec fn spec_new_root(&self) -> nat {
        spec_calc_root(self.params, self.new_leaf_alloc@, self.path_alloc@, self.indices_alloc@)
    }

    /// The root that the old leaf leads to.
    pub fn calc_old_root(&self, cs: &mut ConstraintSystem) -> (root: AllocatedNum)
        requires
            self.owned_by(old(cs)),
        ensures
            final(cs)@.len() == old(cs)@.len() + 2 * levels(
                self.path_alloc@.len(),
                self.indices_alloc@.len(),
            ) + 1,
            final(cs).adds(old(cs), true),
            final(cs).lays(
                old(cs),
                root_layout(
                    old(cs)@.len(),
                    self.params,
                    wires(self.old_leaf_alloc@),
                    wires(self.path_alloc@),
                    bit_wires(self.indices_alloc@),
                ),
            ),
            root.wire() == wire_at(
                old(cs)@.len() + 2 * levels(self.path_alloc@.len(), self.indices_alloc@.len()),
                0,
            ),
            final(cs).owns(root),
            root.value.is_some() == self.old_root_known(),
            self.old_root_known() ==> root.spec_value() == self.spec_old_root(),
    {
        calc_root(cs, self.params, &self.old_leaf_alloc, &self.path_alloc, &self.indices_alloc)
    }

    /// The root that the new leaf leads to.
    pub fn calc_new_root(&self, cs: &mut ConstraintSystem) -> (root: AllocatedNum)
        requires
            self.owned_by(old(cs)),
        ensures
            final(cs)@.len() == old(cs)@.len() + 2 * levels(
                self.path_alloc@.len(),
                self.indices_alloc@.len(),
            ) + 1,
            final(cs).adds(old(cs), true),
            final(cs).lays(
                old(cs),
                root_layout(
                    old(cs)@.len(),
                    self.params,
                    wires(self.new_leaf_alloc@),
                    wires(self.path_alloc@),
                    bit_wires(self.indices_alloc@),
                ),
            ),
            root.wire() == wire_at(
                old(cs)@.len() + 2 * levels(self.path_alloc@.len(), self.indices_alloc@.len()),
                0,
            ),
            final(cs).owns(root),
            root.value.is_some() == self.new_root_known(),
            self.new_root_known() ==> root.spec_value() == self.spec_new_root(),
    {
        calc_root(cs, self.params, &self.new_leaf_alloc, &self.path_alloc, &self.indices_alloc)
    }

    /// Asks that the old leaf lead to the given root.
    pub fn verify_old_root(&self, cs: &mut ConstraintSystem, old_root: &AllocatedNum)
        requires
            self.owned_by(old(cs)),
            old(cs).owns(*old_root),
        ensures
            final(cs)@.len() == old(cs)@.len() + 2 * levels(
                self.path_alloc@.len(),
                self.indices_alloc@.len(),
            ) + 2,
            final(cs).adds(
                old(cs),
                self.old_root_known() && old_root.value.is_some() && self.spec_old_root()
                    == old_root.spec_value(),
            ),
            final(cs).lays(
                old(cs),
                verify_layout(
                    old(cs)@.len(),
                    self.params,
                    wires(self.old_leaf_alloc@),
                    wires(self.path_alloc@),
                    bit_wires(self.indices_alloc@),
                    old_root.wire(),
                ),
            ),
    {
        verify(
            cs,
            self.params,
            &self.old_leaf_alloc,
            &self.path_alloc,
            &self.indices_alloc,
            old_root,
        )
    }
}

} // verus!
