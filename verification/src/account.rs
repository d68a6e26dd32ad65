//! What a proof needs of one slot that an operation touched, and the numbers
//! and bits that stand for it in a circuit.

use crate::circuit::{
    all_bits_known, all_known, bit_values, bit_wires, num_values, shapes, spec_bit, wire_at, wires,
    wires_from, AllocatedBit, AllocatedNum, ConstraintSystem, Shape, Wire,
};
use crate::eddsa::PublicKey;
use crate::field::FieldElement;
use crate::hash::{values, HashParams};
use crate::tree::account::{account_hashes, AccountsTree, AccountView};
use crate::tree::merkle_tree::{
    fold_path, index_bits, lemma_own_path_unchanged, lemma_path_leads_to_root,
    lemma_two_pow_positive, merkle_path, merkle_root, two_pow,
};
use crate::utils::calc::{
    decomposes, enforce_same, enforce_sum, field_sum, same_layout, same_value, sum_layout,
};
use crate::utils::tree::{levels, root_layout, tree_layout, verify_layout, TreeCircuit, TreeState};
use crate::utils::utils::{copy_vec, optionalize};
use vstd::arithmetic::div_mod::lemma_div_denominator;
use vstd::prelude::*;

verus! {

/// The number of values that a slot is hashed from.
pub const ACCOUNT_LEAF_SIZE: usize = 4;

/// A value that is known and stands for the given number.
pub open spec fn known(value: Option<FieldElement>, expected: nat) -> bool {
    value matches Some(v) && v@ == expected
}

/// What a proof needs of one slot that an operation touched: the slot before
/// and after, and the way from its leaf to the root. A value is `None` where
/// only the shape of the circuit is wanted.
#[derive(Clone, Debug)]
pub struct AccountState {
    pub old_balance: Option<FieldElement>,
    pub new_balance: Option<FieldElement>,
    pub old_pubkey: Option<PublicKey>,
    pub new_pubkey: Option<PublicKey>,
    pub old_nonce: Option<FieldElement>,
    pub new_nonce: Option<FieldElement>,
    pub account_path: Vec<Option<FieldElement>>,
    pub account_indices: Vec<Option<bool>>,
}

/// The path and the index bits of a slot as the ledger stands, each value
/// known.
pub fn path_witness(tree: &AccountsTree, account_id: usize) -> (r: (
    Vec<Option<FieldElement>>,
    Vec<Option<bool>>,
))
    requires
        tree.wf(),
        account_id < tree@.len(),
    ensures
        r.0@.len() == tree.spec_depth(),
        forall|k: int|
            0 <= k < tree.spec_depth() ==> known(
                #[trigger] r.0@[k],
                merkle_path(
                    tree.spec_params(),
                    account_hashes(tree.spec_params(), tree@),
                    tree.spec_depth(),
                    account_id as nat,
                )[k],
            ),
        r.1@.len() == tree.spec_depth(),
        forall|k: int|
            0 <= k < tree.spec_depth() ==> #[trigger] r.1@[k] == Some(
                index_bits(tree.spec_depth(), account_id as nat)[k],
            ),
{
    let account_path = tree.accounts_tree.get_leaf_path(account_id);
    let account_indices = tree.accounts_tree.get_leaf_indices(account_id);
    proof {
        let expected = merkle_path(
            tree.spec_params(),
            account_hashes(tree.spec_params(), tree@),
            tree.spec_depth(),
            account_id as nat,
        );
        assert(values(account_path@).len() == expected.len());
        assert forall|k: int| 0 <= k < tree.spec_depth() implies #[trigger] account_path@[k]@
            == expected[k] by {
            assert(values(account_path@)[k] == account_path@[k]@);
        }
    }
    (optionalize(account_path), optionalize(account_indices))
}

impl AccountState {
    /// This state holds slot `id` of the ledger `before` and what the slot
    /// became, with the slot's path and index bits in the tree over `before`.
    pub open spec fn records(
        &self,
        params: &HashParams,
        depth: nat,
        before: Seq<AccountView>,
        id: nat,
        after: AccountView,
    ) -> bool {
        let path = merkle_path(params, account_hashes(params, before), depth, id);
        let bits = index_bits(depth, id);
        &&& known(self.old_balance, before[id as int].balance)
        &&& known(self.new_balance, after.balance)
        &&& known(self.old_nonce, before[id as int].nonce)
        &&& known(self.new_nonce, after.nonce)
        &&& self.old_pubkey matches Some(key) && key@ == before[id as int].key
        &&& self.new_pubkey matches Some(key) && key@ == after.key
        &&& self.account_path@.len() == depth
        &&& forall|k: int| 0 <= k < depth ==> known(#[trigger] self.account_path@[k], path[k])
        &&& self.account_indices@.len() == depth
        &&& forall|k: int| 0 <= k < depth ==> #[trigger] self.account_indices@[k] == Some(bits[k])
    }
}

/// Every value of the sequence is known.
pub open spec fn options_known(s: Seq<Option<FieldElement>>) -> bool {
    forall|i: int| 0 <= i < s.len() ==> (#[trigger] s[i]).is_some()
}

/// What the values stand for, where they are known.
pub open spec fn option_values(s: Seq<Option<FieldElement>>) -> Seq<nat> {
    Seq::new(s.len(), |i: int| s[i].unwrap()@)
}

/// Every bit of the sequence is known.
pub open spec fn option_bits_known(s: Seq<Option<bool>>) -> bool {
    forall|i: int| 0 <= i < s.len() ==> (#[trigger] s[i]).is_some()
}

/// The bits, where they are known.
pub open spec fn option_bits(s: Seq<Option<bool>>) -> Seq<bool> {
    Seq::new(s.len(), |i: int| s[i].unwrap())
}

/// The first coordinate of a key, if there is a key.
pub open spec fn key_x(key: Option<PublicKey>) -> Option<FieldElement> {
    match key {
        Some(k) => Some(k.x),
        None => None,
    }
}

/// The second coordinate of a key, if there is a key.
pub open spec fn key_y(key: Option<PublicKey>) -> Option<FieldElement> {
    match key {
        Some(k) => Some(k.y),
        None => None,
    }
}

impl AccountState {
    /// The four values of the slot before: the key's coordinates, the nonce
    /// and the balance.
    pub open spec fn old_leaf(&self) -> Seq<Option<FieldElement>> {
        seq![key_x(self.old_pubkey), key_y(self.old_pubkey), self.old_nonce, self.old_balance]
    }

    /// The four values of the slot after.
    pub open spec fn new_leaf(&self) -> Seq<Option<FieldElement>> {
        seq![key_x(self.new_pubkey), key_y(self.new_pubkey), self.new_nonce, self.new_balance]
    }

    /// The leaf, the path and the bits are all known.
    pub open spec fn root_known(&self, leaf: Seq<Option<FieldElement>>) -> bool {
        &&& options_known(leaf)
        &&& options_known(self.account_path@)
        &&& option_bits_known(self.account_indices@)
    }

    /// The root that the leaf leads to along the state's path.
    pub open spec fn root_from(&self, params: &HashParams, leaf: Seq<Option<FieldElement>>) -> nat {
        fold_path(
            params,
            params.spec_hash(option_values(leaf)),
            option_values(self.account_path@),
            option_bits(self.account_indices@),
        )
    }
}

/// The steps that ask a slot's balance to go down by an amount, or up where
/// `credit` is set, its new balance to fit the machine word, and its nonce
/// to stay.
pub open spec fn balance_layout(
    old_leaf: Seq<Wire>,
    new_leaf: Seq<Wire>,
    amount: Wire,
    credit: bool,
) -> Seq<Shape> {
    (if credit {
        sum_layout(new_leaf[3], old_leaf[3], amount)
    } else {
        sum_layout(old_leaf[3], new_leaf[3], amount)
    }) + seq![Shape::LimitBits { num: new_leaf[3], bits: usize::BITS as usize }] + same_layout(
        old_leaf[2],
        new_leaf[2],
    )
}

/// The steps that ask a slot's key to stay.
pub open spec fn key_layout(old_leaf: Seq<Wire>, new_leaf: Seq<Wire>) -> Seq<Shape> {
    same_layout(old_leaf[0], new_leaf[0]) + same_layout(old_leaf[1], new_leaf[1])
}

/// The steps of `balance_layout` for the slot whose numbers the steps from
/// the one in place `slot` on make.
pub open spec fn slot_balance_layout(slot: nat, amount: Wire, credit: bool) -> Seq<Shape> {
    balance_layout(
        wires_from(slot, ACCOUNT_LEAF_SIZE as nat),
        wires_from(slot + ACCOUNT_LEAF_SIZE as nat, ACCOUNT_LEAF_SIZE as nat),
        amount,
        credit,
    )
}

/// The steps of `key_layout` for the slot whose numbers the steps from the
/// one in place `slot` on make.
pub open spec fn slot_key_layout(slot: nat) -> Seq<Shape> {
    key_layout(
        wires_from(slot, ACCOUNT_LEAF_SIZE as nat),
        wires_from(slot + ACCOUNT_LEAF_SIZE as nat, ACCOUNT_LEAF_SIZE as nat),
    )
}

/// The steps that ask a key to be the key of a slot before and after.
pub open spec fn pubkey_layout(
    key_x: Wire,
    key_y: Wire,
    old_leaf: Seq<Wire>,
    new_leaf: Seq<Wire>,
) -> Seq<Shape> {
    same_layout(key_x, old_leaf[0]) + same_layout(key_x, new_leaf[0]) + same_layout(
        key_y,
        old_leaf[1],
    ) + same_layout(key_y, new_leaf[1])
}

/// The steps of `pubkey_layout` for the slot whose numbers the steps from
/// the one in place `slot` on make.
pub open spec fn slot_pubkey_layout(slot: nat, key_x: Wire, key_y: Wire) -> Seq<Shape> {
    pubkey_layout(
        key_x,
        key_y,
        wires_from(slot, ACCOUNT_LEAF_SIZE as nat),
        wires_from(slot + ACCOUNT_LEAF_SIZE as nat, ACCOUNT_LEAF_SIZE as nat),
    )
}

/// The steps, from place `start` on, that ask a slot as it was to lead to a
/// root and lead from the slot as it became to its root, for the slot of a
/// tree of the given depth whose numbers and bits the steps from the one in
/// place `slot` on make.
pub open spec fn slot_roots_layout(
    start: nat,
    params: &HashParams,
    slot: nat,
    depth: nat,
    old_root: Wire,
) -> Seq<Shape> {
    let leaf = ACCOUNT_LEAF_SIZE as nat;
    verify_layout(
        start,
        params,
        wires_from(slot, leaf),
        wires_from(slot + 2 * leaf, depth),
        wires_from(slot + 2 * leaf + depth, depth),
        old_root,
    ) + root_layout(
        start + 2 * depth + 2,
        params,
        wires_from(slot + leaf, leaf),
        wires_from(slot + 2 * leaf, depth),
        wires_from(slot + 2 * leaf + depth, depth),
    )
}

/// The number of steps that make a slot's numbers and bits.
pub open spec fn slot_size(depth: nat) -> nat {
    2 * ACCOUNT_LEAF_SIZE as nat + 2 * depth
}

/// The numbers and bits of the circuit that stand for an `AccountState`.
#[derive(Clone)]
pub struct AccountCircuit<'a> {
    pub accounts_tree: TreeCircuit<'a>,
}

impl<'a> AccountCircuit<'a> {
    /// The numbers and bits have the values of the given state, and lead to
    /// the roots that the state leads to.
    pub open spec fn stands_for(&self, params: &HashParams, state: &AccountState) -> bool {
        let tree = self.accounts_tree;
        &&& tree.params == params
        &&& tree.old_leaf_alloc@.len() == ACCOUNT_LEAF_SIZE
        &&& tree.new_leaf_alloc@.len() == ACCOUNT_LEAF_SIZE
        &&& forall|i: int|
            0 <= i < ACCOUNT_LEAF_SIZE ==> (#[trigger] tree.old_leaf_alloc@[i]).value
                == state.old_leaf()[i]
        &&& forall|i: int|
            0 <= i < ACCOUNT_LEAF_SIZE ==> (#[trigger] tree.new_leaf_alloc@[i]).value
                == state.new_leaf()[i]
        &&& tree.indices_alloc@.len() == state.account_indices@.len()
        &&& forall|i: int|
            0 <= i < state.account_indices@.len() ==> (#[trigger] tree.indices_alloc@[i]).value
                == state.account_indices@[i]
        &&& tree.old_root_known() == state.root_known(state.old_leaf())
        &&& tree.new_root_known() == state.root_known(state.new_leaf())
        &&& tree.old_root_known() ==> tree.spec_old_root() == state.root_from(
            params,
            state.old_leaf(),
        )
        &&& tree.new_root_known() ==> tree.spec_new_root() == state.root_from(
            params,
            state.new_leaf(),
        )
    }

    /// The numbers and bits of a state whose path has `account_depth`
    /// levels.
    pub fn new(
        cs: &mut ConstraintSystem,
        account_depth: usize,
        params: &'a HashParams,
        state: &AccountState,
    ) -> (circuit: Self)
        requires
            state.account_path@.len() == account_depth,
            state.account_indices@.len() == account_depth,
        ensures
            final(cs)@.len() == old(cs)@.len() + slot_size(account_depth as nat),
            final(cs).adds(old(cs), true),
            final(cs).lays(old(cs), tree_layout(ACCOUNT_LEAF_SIZE as nat, account_depth as nat)),
            circuit.accounts_tree.laid_at(
                old(cs)@.len(),
                ACCOUNT_LEAF_SIZE as nat,
                account_depth as nat,
            ),
            circuit.accounts_tree.path_alloc@.len() == account_depth,
            circuit.accounts_tree.indices_alloc@.len() == account_depth,
            circuit.accounts_tree.old_leaf_alloc@.len() == ACCOUNT_LEAF_SIZE,
            circuit.accounts_tree.new_leaf_alloc@.len() == ACCOUNT_LEAF_SIZE,
            circuit.stands_for(params, state),
            circuit.accounts_tree.owned_by(final(cs)),
    {
        let (old_pubkey_x, old_pubkey_y) = match &state.old_pubkey {
            Some(point) => (Some(point.x), Some(point.y)),
            None => (None, None),
        };

        let (new_pubkey_x, new_pubkey_y) = match &state.new_pubkey {
            Some(point) => (Some(point.x), Some(point.y)),
            None => (None, None),
        };

        let mut account_old_leaf: Vec<Option<FieldElement>> = Vec::new();
        account_old_leaf.push(old_pubkey_x);
        account_old_leaf.push(old_pubkey_y);
        account_old_leaf.push(state.old_nonce);
        account_old_leaf.push(state.old_balance);
        assert(account_old_leaf@ =~= state.old_leaf());

        let mut account_new_leaf: Vec<Option<FieldElement>> = Vec::new();
        account_new_leaf.push(new_pubkey_x);
        account_new_leaf.push(new_pubkey_y);
        account_new_leaf.push(state.new_nonce);
        account_new_leaf.push(state.new_balance);
        assert(account_new_leaf@ =~= state.new_leaf());

        let tree_state = TreeState {
            old_leaf: account_old_leaf,
            new_leaf: account_new_leaf,
            path: copy_vec(&state.account_path),
            indices: copy_vec(&state.account_indices),
        };

        let accounts_tree = TreeCircuit::new(
            cs,
            ACCOUNT_LEAF_SIZE,
            account_depth,
            params,
            &tree_state,
        );

        proof {
            let tree = accounts_tree;
            let n = account_depth as int;
            assert(tree.path_alloc@.take(n) =~= tree.path_alloc@);
            assert(tree.indices_alloc@.take(n) =~= tree.indices_alloc@);
            lemma_known_alike(tree.old_leaf_alloc@, state.old_leaf());
            lemma_known_alike(tree.new_leaf_alloc@, state.new_leaf());
            lemma_known_alike(tree.path_alloc@, state.account_path@);
            lemma_bits_known_alike(tree.indices_alloc@, state.account_indices@);
        }

        AccountCircuit { accounts_tree }
    }
}

impl<'a> AccountCircuit<'a> {
    /// The balance goes down by the amount, or up where `credit` is set;
    /// the new balance fits the machine word; and the nonce stays.
    pub open spec fn balance_moves(&self, amount: AllocatedNum, credit: bool) -> bool {
        let tree = self.accounts_tree;
        let old_balance = tree.old_leaf_alloc@[3].value;
        let new_balance = tree.new_leaf_alloc@[3].value;
        &&& if credit {
            field_sum(new_balance, old_balance, amount.value)
        } else {
            field_sum(old_balance, new_balance, amount.value)
        }
        &&& new_balance is Some
        &&& new_balance.unwrap()@ < two_pow(usize::BITS as nat)
        &&& same_value(tree.old_leaf_alloc@[2].value, tree.new_leaf_alloc@[2].value)
    }

    /// Asks that the balance go down by the amount, or up where `credit` is
    /// set, that the new balance fit the machine word, and that the nonce
    /// stay.
    pub fn check_balance(&self, cs: &mut ConstraintSystem, amount: &AllocatedNum, credit: bool)
        requires
            self.accounts_tree.old_leaf_alloc@.len() == ACCOUNT_LEAF_SIZE,
            self.accounts_tree.new_leaf_alloc@.len() == ACCOUNT_LEAF_SIZE,
            self.accounts_tree.owned_by(old(cs)),
            old(cs).owns(*amount),
        ensures
            final(cs)@.len() == old(cs)@.len() + 3,
            final(cs).adds(old(cs), self.balance_moves(*amount, credit)),
            final(cs).lays(
                old(cs),
                balance_layout(
                    wires(self.accounts_tree.old_leaf_alloc@),
                    wires(self.accounts_tree.new_leaf_alloc@),
                    amount.wire(),
                    credit,
                ),
            ),
    {
        let tree = &self.accounts_tree;
        if credit {
            enforce_sum(cs, &tree.new_leaf_alloc[3], &tree.old_leaf_alloc[3], amount);
        } else {
            enforce_sum(cs, &tree.old_leaf_alloc[3], &tree.new_leaf_alloc[3], amount);
        }
        cs.limit_number_of_bits(&tree.new_leaf_alloc[3], usize::BITS as usize);
        enforce_same(cs, &tree.old_leaf_alloc[2], &tree.new_leaf_alloc[2]);
        reveal(ConstraintSystem::lays);
        assert(shapes(cs@) =~= shapes(old(cs)@) + balance_layout(
            wires(tree.old_leaf_alloc@),
            wires(tree.new_leaf_alloc@),
            amount.wire(),
            credit,
        ));
    }

    /// The key stays.
    pub open spec fn key_stays(&self) -> bool {
        let tree = self.accounts_tree;
        &&& same_value(tree.old_leaf_alloc@[0].value, tree.new_leaf_alloc@[0].value)
        &&& same_value(tree.old_leaf_alloc@[1].value, tree.new_leaf_alloc@[1].value)
    }

    /// Asks that the key stay.
    pub fn check_key_stays(&self, cs: &mut ConstraintSystem)
        requires
            self.accounts_tree.old_leaf_alloc@.len() == ACCOUNT_LEAF_SIZE,
            self.accounts_tree.new_leaf_alloc@.len() == ACCOUNT_LEAF_SIZE,
            self.accounts_tree.owned_by(old(cs)),
        ensures
            final(cs)@.len() == old(cs)@.len() + 2,
            final(cs).adds(old(cs), self.key_stays()),
            final(cs).lays(
                old(cs),
                key_layout(
                    wires(self.accounts_tree.old_leaf_alloc@),
                    wires(self.accounts_tree.new_leaf_alloc@),
                ),
            ),
    {
        let tree = &self.accounts_tree;
        enforce_same(cs, &tree.old_leaf_alloc[0], &tree.new_leaf_alloc[0]);
        enforce_same(cs, &tree.old_leaf_alloc[1], &tree.new_leaf_alloc[1]);
        reveal(ConstraintSystem::lays);
        assert(shapes(cs@) =~= shapes(old(cs)@) + key_layout(
            wires(tree.old_leaf_alloc@),
            wires(tree.new_leaf_alloc@),
        ));
    }

    /// The slot as it was leads to `old_root`.
    pub open spec fn leads_from(&self, old_root: AllocatedNum) -> bool {
        let tree = self.accounts_tree;
        &&& tree.old_root_known()
        &&& old_root.value.is_some()
        &&& tree.spec_old_root() == old_root.spec_value()
    }

    /// Asks that the slot as it was lead to `old_root`, and gives the root
    /// that the slot as it became leads to.
    pub fn check_roots(&self, cs: &mut ConstraintSystem, old_root: &AllocatedNum) -> (new_root:
        AllocatedNum)
        requires
            self.accounts_tree.owned_by(old(cs)),
            old(cs).owns(*old_root),
        ensures
            final(cs)@.len() == old(cs)@.len() + 4 * self.spec_levels() + 3,
            final(cs).adds(old(cs), self.leads_from(*old_root)),
            final(cs).lays(old(cs), self.roots_layout(old(cs)@.len(), old_root.wire())),
            new_root.wire() == wire_at(old(cs)@.len() + 4 * self.spec_levels() + 2, 0),
            final(cs).owns(new_root),
            new_root.value.is_some() == self.accounts_tree.new_root_known(),
            self.accounts_tree.new_root_known() ==> new_root.spec_value()
                == self.accounts_tree.spec_new_root(),
    {
        self.accounts_tree.verify_old_root(cs, old_root);
        let new_root = self.accounts_tree.calc_new_root(cs);
        reveal(ConstraintSystem::lays);
        assert(shapes(cs@) =~= shapes(old(cs)@) + self.roots_layout(
            old(cs)@.len(),
            old_root.wire(),
        ));
        new_root
    }

    /// Where the slot's numbers and bits are made by the steps from the one
    /// in place `start` on, the layouts of the slot's checks are those of
    /// the slot in that place.
    pub proof fn lemma_slot_layouts(&self, start: nat, depth: nat)
        requires
            self.accounts_tree.laid_at(start, ACCOUNT_LEAF_SIZE as nat, depth),
            self.accounts_tree.path_alloc@.len() == depth,
            self.accounts_tree.indices_alloc@.len() == depth,
        ensures
            bit_wires(self.accounts_tree.indices_alloc@) == wires_from(
                start + 2 * ACCOUNT_LEAF_SIZE as nat + depth,
                depth,
            ),
            forall|amount: Wire, credit: bool|
                #[trigger] balance_layout(
                    wires(self.accounts_tree.old_leaf_alloc@),
                    wires(self.accounts_tree.new_leaf_alloc@),
                    amount,
                    credit,
                ) == slot_balance_layout(start, amount, credit),
            key_layout(
                wires(self.accounts_tree.old_leaf_alloc@),
                wires(self.accounts_tree.new_leaf_alloc@),
            ) == slot_key_layout(start),
            forall|key_x: Wire, key_y: Wire|
                #[trigger] pubkey_layout(
                    key_x,
                    key_y,
                    wires(self.accounts_tree.old_leaf_alloc@),
                    wires(self.accounts_tree.new_leaf_alloc@),
                ) == slot_pubkey_layout(start, key_x, key_y),
            forall|at: nat, old_root: Wire| #[trigger]
                self.roots_layout(at, old_root) == slot_roots_layout(
                    at,
                    self.accounts_tree.params,
                    start,
                    depth,
                    old_root,
                ),
    {
        reveal(TreeCircuit::laid_at);
    }

    /// Where the slot's numbers are made by the steps from the one in place
    /// `start` on, each number of its leaves is where its place says.
    pub proof fn lemma_leaf_wires(&self, start: nat, depth: nat)
        requires
            self.accounts_tree.laid_at(start, ACCOUNT_LEAF_SIZE as nat, depth),
        ensures
            forall|k: int|
                0 <= k < ACCOUNT_LEAF_SIZE ==> (#[trigger] self.accounts_tree.old_leaf_alloc@[k]).wire()
                    == wire_at((start + k) as nat, 0),
            forall|k: int|
                0 <= k < ACCOUNT_LEAF_SIZE ==> (#[trigger] self.accounts_tree.new_leaf_alloc@[k]).wire()
                    == wire_at((start + ACCOUNT_LEAF_SIZE + k) as nat, 0),
    {
        reveal(TreeCircuit::laid_at);
        let tree = self.accounts_tree;
        assert(wires(tree.old_leaf_alloc@).len() == ACCOUNT_LEAF_SIZE);
        assert(wires(tree.new_leaf_alloc@).len() == ACCOUNT_LEAF_SIZE);
        assert forall|k: int| 0 <= k < ACCOUNT_LEAF_SIZE implies (#[trigger] tree.old_leaf_alloc@[k]).wire()
            == wire_at((start + k) as nat, 0) by {
            assert(wires(tree.old_leaf_alloc@)[k] == wires_from(start, 4)[k]);
        }
        assert forall|k: int| 0 <= k < ACCOUNT_LEAF_SIZE implies (#[trigger] tree.new_leaf_alloc@[k]).wire()
            == wire_at((start + ACCOUNT_LEAF_SIZE + k) as nat, 0) by {
            assert(wires(tree.new_leaf_alloc@)[k] == wires_from(start + 4, 4)[k]);
        }
    }

    /// The number of levels of the slot's path.
    pub open spec fn spec_levels(&self) -> nat {
        levels(self.accounts_tree.path_alloc@.len(), self.accounts_tree.indices_alloc@.len())
    }

    /// The steps that ask the slot as it was to lead to a root, and lead from
    /// the slot as it became to its root, from place `start` on.
    pub open spec fn roots_layout(&self, start: nat, old_root: Wire) -> Seq<Shape> {
        let tree = self.accounts_tree;
        verify_layout(
            start,
            tree.params,
            wires(tree.old_leaf_alloc@),
            wires(tree.path_alloc@),
            bit_wires(tree.indices_alloc@),
            old_root,
        ) + root_layout(
            start + 2 * self.spec_levels() + 2,
            tree.params,
            wires(tree.new_leaf_alloc@),
            wires(tree.path_alloc@),
            bit_wires(tree.indices_alloc@),
        )
    }
}

/// Numbers that have the values of a sequence are known where the values
/// are, and stand for what the values stand for.
pub proof fn lemma_known_alike(nums: Seq<AllocatedNum>, values: Seq<Option<FieldElement>>)
    requires
        nums.len() == values.len(),
        forall|i: int| 0 <= i < values.len() ==> (#[trigger] nums[i]).value == values[i],
    ensures
        all_known(nums) == options_known(values),
        num_values(nums) == option_values(values),
{
    if all_known(nums) {
        assert forall|i: int| 0 <= i < values.len() implies (#[trigger] values[i]).is_some() by {
            assert(nums[i].value.is_some());
        }
    }
    if options_known(values) {
        assert forall|i: int| 0 <= i < nums.len() implies (#[trigger] nums[i]).value.is_some() by {
            assert(values[i].is_some());
        }
    }
    assert(num_values(nums) =~= option_values(values));
}

/// Bits that have the values of a sequence are known where the values are,
/// and are what the values are.
pub proof fn lemma_bits_known_alike(bits: Seq<AllocatedBit>, values: Seq<Option<bool>>)
    requires
        bits.len() == values.len(),
        forall|i: int| 0 <= i < values.len() ==> (#[trigger] bits[i]).value == values[i],
    ensures
        all_bits_known(bits) == option_bits_known(values),
        bit_values(bits) == option_bits(values),
{
    if all_bits_known(bits) {
        assert forall|i: int| 0 <= i < values.len() implies (#[trigger] values[i]).is_some() by {
            assert(bits[i].value.is_some());
        }
    }
    if option_bits_known(values) {
        assert forall|i: int| 0 <= i < bits.len() implies (#[trigger] bits[i]).value.is_some() by {
            assert(values[i].is_some());
        }
    }
    assert(bit_values(bits) =~= option_bits(values));
}

/// A state that records a slot of a ledger leads from the slot as it was to
/// the ledger's root, and from the slot as it became to the root of the
/// ledger with that slot replaced.
pub proof fn lemma_recorded_roots(
    state: AccountState,
    params: &HashParams,
    depth: nat,
    before: Seq<AccountView>,
    id: nat,
    after: AccountView,
)
    requires
        before.len() == two_pow(depth),
        id < before.len(),
        state.records(params, depth, before, id, after),
    ensures
        state.root_known(state.old_leaf()),
        state.root_known(state.new_leaf()),
        state.root_from(params, state.old_leaf()) == merkle_root(
            params,
            account_hashes(params, before),
            depth,
        ),
        state.root_from(params, state.new_leaf()) == merkle_root(
            params,
            account_hashes(params, before.update(id as int, after)),
            depth,
        ),
        option_values(state.old_leaf()) == before[id as int].leaf(),
        option_values(state.new_leaf()) == after.leaf(),
        option_bits(state.account_indices@) == index_bits(depth, id),
{
    let leaves = account_hashes(params, before);
    let path = merkle_path(params, leaves, depth, id);
    let bits = index_bits(depth, id);
    assert(option_values(state.old_leaf()) =~= before[id as int].leaf());
    assert(option_values(state.new_leaf()) =~= after.leaf());
    assert(option_values(state.account_path@) =~= path);
    assert(option_bits(state.account_indices@) =~= bits);
    assert forall|k: int| 0 <= k < state.account_path@.len() implies (
    #[trigger] state.account_path@[k]).is_some() by {
        assert(known(state.account_path@[k], path[k]));
    }
    lemma_path_leads_to_root(params, leaves, depth, id);
    let hash = params.spec_hash(after.leaf());
    let replaced = account_hashes(params, before.update(id as int, after));
    assert(replaced =~= leaves.update(id as int, hash));
    lemma_own_path_unchanged(params, leaves, depth, id, hash);
    lemma_path_leads_to_root(params, replaced, depth, id);
}

/// The value is the sum of the bits, lowest first: they are its lowest
/// bits, and it has no higher ones.
pub open spec fn bits_of(value: Option<FieldElement>, bits: Seq<Option<bool>>) -> bool {
    &&& value is Some
    &&& value.unwrap()@ < two_pow(bits.len() as nat)
    &&& forall|i: int|
        0 <= i < bits.len() ==> (#[trigger] bits[i]) == Some(spec_bit(value.unwrap()@, i as nat))
}

/// Two numbers below `2^n` that have the same `n` lowest bits are equal.
pub proof fn lemma_bits_fix_number(a: nat, b: nat, n: nat)
    requires
        a < two_pow(n),
        b < two_pow(n),
        forall|k: nat| k < n ==> #[trigger] spec_bit(a, k) == spec_bit(b, k),
    ensures
        a == b,
    decreases n,
{
    if n > 0 {
        let m = (n - 1) as nat;
        assert(two_pow(n) == 2 * two_pow(m));
        assert forall|k: nat| k < m implies #[trigger] spec_bit(a / 2, k) == spec_bit(b / 2, k) by {
            lemma_two_pow_positive(k);
            lemma_div_denominator(a as int, 2, two_pow(k) as int);
            lemma_div_denominator(b as int, 2, two_pow(k) as int);
            assert(two_pow(k + 1) == 2 * two_pow(k));
            assert(spec_bit(a, k + 1) == spec_bit(b, k + 1));
        }
        lemma_bits_fix_number(a / 2, b / 2, m);
        assert(spec_bit(a, 0) == spec_bit(b, 0));
        assert(two_pow(0) == 1);
        assert(a / 1 == a && b / 1 == b);
        assert(a % 2 == b % 2);
    } else {
        assert(two_pow(0) == 1);
    }
}

/// The bits fix the value: two values that are both the sum of the same
/// bits stand for the same number.
pub proof fn lemma_bits_fix_value(
    a: Option<FieldElement>,
    b: Option<FieldElement>,
    bits: Seq<Option<bool>>,
)
    requires
        bits_of(a, bits),
        bits_of(b, bits),
    ensures
        a.unwrap()@ == b.unwrap()@,
{
    assert forall|k: nat| k < bits.len() implies #[trigger] spec_bit(a.unwrap()@, k) == spec_bit(
        b.unwrap()@,
        k,
    ) by {
        assert(bits[k as int] == Some(spec_bit(a.unwrap()@, k)));
        assert(bits[k as int] == Some(spec_bit(b.unwrap()@, k)));
    }
    lemma_bits_fix_number(a.unwrap()@, b.unwrap()@, bits.len());
}

/// A number of the circuit is the sum of bits of the circuit where its
/// value is the sum of the bits' values.
pub proof fn lemma_decomposes_alike(
    num: AllocatedNum,
    bits: Seq<AllocatedBit>,
    given: Seq<Option<bool>>,
)
    requires
        bits.len() == given.len(),
        forall|i: int| 0 <= i < given.len() ==> (#[trigger] bits[i]).value == given[i],
    ensures
        decomposes(num, bits) == bits_of(num.value, given),
{
    if decomposes(num, bits) {
        assert forall|i: int| 0 <= i < given.len() implies (#[trigger] given[i]) == Some(
            spec_bit(num.value.unwrap()@, i as nat),
        ) by {
            assert(bits[i].value == given[i]);
        }
    }
    if bits_of(num.value, given) {
        assert forall|i: int| 0 <= i < bits.len() implies (#[trigger] bits[i]).value == Some(
            spec_bit(num.spec_value(), i as nat),
        ) by {
            assert(given[i] == Some(spec_bit(num.value.unwrap()@, i as nat)));
        }
    }
}

} // verus!
