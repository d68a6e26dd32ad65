//! The circuit of a batch of on-chain withdrawals.

use crate::account::{
    balance_layout, bits_of, key_layout, known, lemma_bits_fix_value, lemma_decomposes_alike,
    lemma_recorded_roots, slot_balance_layout, slot_key_layout, slot_roots_layout, slot_size,
    ACCOUNT_LEAF_SIZE, AccountCircuit, AccountState,
};
use crate::circuit::{
    bit_wires, input_layout, num_values, num_view, option_view, wire_at, wires, wires_from,
    AllocatedNum, ConstraintSystem, NUM_BITS, Shape, Wire,
};
use crate::data_structs::onchain_withdrawal::OnchainWithdrawal;
use crate::field::{fr_modulus, lemma_word_fits, FieldElement};
use crate::hash::HashParams;
use crate::tree::account::{AccountsTree, AccountView};
use crate::tree::merkle_tree::two_pow;
use crate::utils::calc::{
    check_decomposition_le, decomposition_layout, enforce_same, field_sum, lemma_sum_fixes_summand,
    same_layout, same_value,
};
use crate::utils::tree::{hash_shape, tree_layout};
use vstd::arithmetic::div_mod::lemma_small_mod;
use vstd::prelude::*;

verus! {

/// One executed on-chain withdrawal, as its proof needs it.
#[derive(Clone, Debug)]
pub struct OnchainWithdrawalCircuit {
    pub account_state: AccountState,
    pub account_id: Option<FieldElement>,
    pub amount: Option<FieldElement>,
}

impl OnchainWithdrawalCircuit {
    /// This item holds `withdrawal` as it was applied to `ledger`; its amount
    /// is all that the slot held.
    pub open spec fn witnesses(
        &self,
        params: &HashParams,
        depth: nat,
        ledger: Seq<AccountView>,
        withdrawal: OnchainWithdrawal,
    ) -> bool {
        &&& self.account_state.records(
            params,
            depth,
            ledger,
            withdrawal.account_id as nat,
            withdrawal.apply(ledger)[withdrawal.account_id as int],
        )
        &&& known(self.account_id, withdrawal.account_id as nat)
        &&& known(self.amount, ledger[withdrawal.account_id as int].balance)
    }
}

impl OnchainWithdrawalCircuit {
    /// What the circuit asks of this item when it starts from the root
    /// `old_root`: the slot's index bits are the bits of the slot's number,
    /// the old balance is the new one and the amount, the new balance fits
    /// the machine word, key and nonce stay, and the slot as it was leads to
    /// `old_root`.
    pub open spec fn constraints_hold(&self, params: &HashParams, old_root: Option<nat>) -> bool {
        let state = self.account_state;
        &&& bits_of(self.account_id, state.account_indices@)
        &&& field_sum(state.old_balance, state.new_balance, self.amount)
        &&& state.new_balance is Some
        &&& state.new_balance.unwrap()@ < two_pow(usize::BITS as nat)
        &&& same_value(state.old_nonce, state.new_nonce)
        &&& same_value(state.old_leaf()[0], state.new_leaf()[0])
        &&& same_value(state.old_leaf()[1], state.new_leaf()[1])
        &&& state.root_known(state.old_leaf())
        &&& old_root == Some(state.root_from(params, state.old_leaf()))
    }

    /// The values that this item makes public inputs: the slot's number and
    /// the amount.
    pub open spec fn spec_inputs(&self) -> Seq<Option<nat>> {
        seq![option_view(self.account_id), option_view(self.amount)]
    }

    /// The root that this item ends in, where all that leads to it is known.
    pub open spec fn spec_new_root(&self, params: &HashParams) -> Option<nat> {
        let state = self.account_state;
        if state.root_known(state.new_leaf()) {
            Some(state.root_from(params, state.new_leaf()))
        } else {
            None
        }
    }

    /// The history digest after this item, where all that it is hashed from
    /// is known.
    pub open spec fn spec_new_hash(&self, params: &HashParams, old_hash: Option<nat>) -> Option<
        nat,
    > {
        if old_hash is Some && self.account_id is Some {
            Some(params.spec_hash(seq![old_hash.unwrap(), self.account_id.unwrap()@]))
        } else {
            None
        }
    }

    /// The steps of an item's layout from place `start` on, after the digest
    /// and the root that the given places hold: the slot's numbers and bits;
    /// the withdrawal's slot number and amount, both public; the steps that
    /// ask the slot number to be the sum of the path's bits, the balance to
    /// go down by the amount, and the key to stay; the digest; and the two
    /// roots.
    pub open spec fn layout(
        start: nat,
        depth: nat,
        params: &HashParams,
        old_hash: Wire,
        old_root: Wire,
    ) -> Seq<Shape> {
        let own = start + slot_size(depth);
        tree_layout(4, depth) + input_layout(own) + input_layout(own + 2) + decomposition_layout(
            own + 4,
            wire_at(own, 0),
            wires_from(start + 8 + depth, depth),
        ) + slot_balance_layout(start, wire_at(own + 2, 0), false) + slot_key_layout(start) + seq![
            hash_shape(params, seq![old_hash, wire_at(own, 0)]),
        ] + slot_roots_layout(own + depth + 12, params, start, depth, old_root)
    }

    /// The number of steps of an item's layout.
    pub open spec fn size(depth: nat) -> nat {
        7 * depth + 23
    }

    /// What is laid out piece by piece, each piece after the one before, is
    /// the item's layout.
    proof fn lemma_layout(
        laid: Seq<ConstraintSystem>,
        slot: AccountCircuit,
        depth: nat,
        params: &HashParams,
        old_hash: AllocatedNum,
        old_root: AllocatedNum,
        account_id: AllocatedNum,
        amount: AllocatedNum,
        new_hash: AllocatedNum,
        new_root: AllocatedNum,
    )
        requires
            laid.len() == 9,
            slot.accounts_tree.params == params,
            slot.accounts_tree.laid_at(laid[0]@.len(), ACCOUNT_LEAF_SIZE as nat, depth),
            slot.accounts_tree.path_alloc@.len() == depth,
            slot.accounts_tree.indices_alloc@.len() == depth,
            laid[1].lays(&laid[0], tree_layout(ACCOUNT_LEAF_SIZE as nat, depth)),
            laid[1]@.len() == laid[0]@.len() + slot_size(depth),
            laid[2].lays(&laid[1], input_layout(laid[1]@.len())),
            laid[2]@.len() == laid[1]@.len() + 2,
            account_id.source == laid[1]@.len(),
            account_id.slot == 0,
            laid[3].lays(&laid[2], input_layout(laid[2]@.len())),
            laid[3]@.len() == laid[2]@.len() + 2,
            amount.source == laid[2]@.len(),
            amount.slot == 0,
            laid[4].lays(
                &laid[3],
                decomposition_layout(
                    laid[3]@.len(),
                    account_id.wire(),
                    bit_wires(slot.accounts_tree.indices_alloc@),
                ),
            ),
            laid[4]@.len() == laid[3]@.len() + depth + 2,
            laid[5].lays(
                &laid[4],
                balance_layout(
                    wires(slot.accounts_tree.old_leaf_alloc@),
                    wires(slot.accounts_tree.new_leaf_alloc@),
                    amount.wire(),
                    false,
                ),
            ),
            laid[5]@.len() == laid[4]@.len() + 3,
            laid[6].lays(
                &laid[5],
                key_layout(
                    wires(slot.accounts_tree.old_leaf_alloc@),
                    wires(slot.accounts_tree.new_leaf_alloc@),
                ),
            ),
            laid[6]@.len() == laid[5]@.len() + 2,
            laid[7].lays(
                &laid[6],
                seq![hash_shape(params, seq![old_hash.wire(), account_id.wire()])],
            ),
            laid[7]@.len() == laid[6]@.len() + 1,
            new_hash.wire() == wire_at(laid[6]@.len(), 0),
            laid[8].lays(&laid[7], slot.roots_layout(laid[7]@.len(), old_root.wire())),
            laid[8]@.len() == laid[7]@.len() + 4 * slot.spec_levels() + 3,
            new_root.wire() == wire_at(laid[7]@.len() + 4 * slot.spec_levels() + 2, 0),
        ensures
            laid[8].lays(
                &laid[0],
                Self::layout(laid[0]@.len(), depth, params, old_hash.wire(), old_root.wire()),
            ),
            laid[8]@.len() == laid[0]@.len() + Self::size(depth),
            new_hash.wire() == wire_at(laid[0]@.len() + 3 * depth + 19, 0),
            new_root.wire() == wire_at(laid[0]@.len() + 7 * depth + 22, 0),
    {
        let start = laid[0]@.len();
        let own = start + slot_size(depth);
        slot.lemma_slot_layouts(start, depth);
        let l1 = tree_layout(4, depth);
        let l2 = l1 + input_layout(own);
        laid[2].lemma_lays_more(&laid[1], &laid[0], l1, input_layout(own));
        let l3 = l2 + input_layout(own + 2);
        laid[3].lemma_lays_more(&laid[2], &laid[0], l2, input_layout(own + 2));
        let asked = decomposition_layout(
            own + 4,
            wire_at(own, 0),
            wires_from(start + 8 + depth, depth),
        );
        let l4 = l3 + asked;
        laid[4].lemma_lays_more(&laid[3], &laid[0], l3, asked);
        let debit = slot_balance_layout(start, wire_at(own + 2, 0), false);
        let l5 = l4 + debit;
        laid[5].lemma_lays_more(&laid[4], &laid[0], l4, debit);
        let l6 = l5 + slot_key_layout(start);
        laid[6].lemma_lays_more(&laid[5], &laid[0], l5, slot_key_layout(start));
        let hashed = seq![hash_shape(params, seq![old_hash.wire(), wire_at(own, 0)])];
        let l7 = l6 + hashed;
        laid[7].lemma_lays_more(&laid[6], &laid[0], l6, hashed);
        let roots = slot_roots_layout(own + depth + 12, params, start, depth, old_root.wire());
        laid[8].lemma_lays_more(&laid[7], &laid[0], l7, roots);
    }

    /// Lays out this item after the digest `old_hash` and the root
    /// `old_root`, and gives the digest and the root after it.
    #[verifier::rlimit(30)]
    pub fn process(
        &self,
        cs: &mut ConstraintSystem,
        account_depth: usize,
        hash_params: &HashParams,
        old_hash: &AllocatedNum,
        old_root: &AllocatedNum,
    ) -> (r: (AllocatedNum, AllocatedNum))
        requires
            self.account_state.account_path@.len() == account_depth,
            self.account_state.account_indices@.len() == account_depth,
            account_depth <= NUM_BITS,
            old(cs).owns(*old_hash),
            old(cs).owns(*old_root),
        ensures
            final(cs).owns(r.0),
            final(cs).owns(r.1),
            final(cs).adds_inputs(
                old(cs),
                self.constraints_hold(hash_params, num_view(*old_root)),
                self.spec_inputs(),
            ),
            final(cs).lays(
                old(cs),
                Self::layout(
                    old(cs)@.len(),
                    account_depth as nat,
                    hash_params,
                    old_hash.wire(),
                    old_root.wire(),
                ),
            ),
            final(cs)@.len() == old(cs)@.len() + Self::size(account_depth as nat),
            r.0.wire() == wire_at((old(cs)@.len() + 3 * account_depth + 19) as nat, 0),
            r.1.wire() == wire_at((old(cs)@.len() + 7 * account_depth + 22) as nat, 0),
            num_view(r.0) == self.spec_new_hash(hash_params, num_view(*old_hash)),
            num_view(r.1) == self.spec_new_root(hash_params),
    {
        let ghost c0 = *cs;
        let account_circuit = AccountCircuit::new(
            cs,
            account_depth,
            hash_params,
            &self.account_state,
        );
        let tree = &account_circuit.accounts_tree;
        let ghost c1 = *cs;

        let account_id_alloc = cs.alloc_input(self.account_id);
        let ghost c2 = *cs;
        let amount_alloc = cs.alloc_input(self.amount);
        let ghost c3 = *cs;
        assert(cs.inputs() =~= old(cs).inputs() + self.spec_inputs());

        check_decomposition_le(cs, &account_id_alloc, &tree.indices_alloc);
        let ghost c4 = *cs;
        proof {
            lemma_decomposes_alike(
                account_id_alloc,
                tree.indices_alloc@,
                self.account_state.account_indices@,
            );
        }

        account_circuit.check_balance(cs, &amount_alloc, false);
        let ghost c5 = *cs;
        account_circuit.check_key_stays(cs);
        let ghost c6 = *cs;

        let new_hash = chain_digest(cs, hash_params, old_hash, &account_id_alloc);
        let ghost c7 = *cs;

        let new_root = account_circuit.check_roots(cs, old_root);
        proof {
            Self::lemma_layout(
                seq![c0, c1, c2, c3, c4, c5, c6, c7, *cs],
                account_circuit,
                account_depth as nat,
                hash_params,
                *old_hash,
                *old_root,
                account_id_alloc,
                amount_alloc,
                new_hash,
                new_root,
            );
        }
        proof {
            let state = self.account_state;
            assert(account_circuit.balance_moves(amount_alloc, false) == {
                &&& field_sum(state.old_balance, state.new_balance, self.amount)
                &&& state.new_balance is Some
                &&& state.new_balance.unwrap()@ < two_pow(usize::BITS as nat)
                &&& same_value(state.old_nonce, state.new_nonce)
            });
            assert(account_circuit.key_stays() == {
                &&& same_value(state.old_leaf()[0], state.new_leaf()[0])
                &&& same_value(state.old_leaf()[1], state.new_leaf()[1])
            });
        }

        (new_hash, new_root)
    }
}

/// The history digest after a withdrawal: the hash of the digest before it
/// and of the withdrawal's slot number. Its value is known where theirs
/// are.
fn chain_digest(
    cs: &mut ConstraintSystem,
    params: &HashParams,
    old_hash: &AllocatedNum,
    account_id: &AllocatedNum,
) -> (new_hash: AllocatedNum)
    requires
        old(cs).owns(*old_hash),
        old(cs).owns(*account_id),
    ensures
        final(cs).adds(old(cs), true),
        final(cs).owns(new_hash),
        final(cs).lays(
            old(cs),
            seq![hash_shape(params, seq![old_hash.wire(), account_id.wire()])],
        ),
        final(cs)@.len() == old(cs)@.len() + 1,
        new_hash.wire() == wire_at(old(cs)@.len(), 0),
        new_hash.value is Some == (old_hash.value is Some && account_id.value is Some),
        new_hash.value is Some ==> new_hash.spec_value() == params.spec_hash(
            seq![old_hash.spec_value(), account_id.spec_value()],
        ),
{
    let mut record: Vec<AllocatedNum> = Vec::new();
    record.push(*old_hash);
    record.push(*account_id);
    assert(cs.owns_all(record@)) by {
        assert(record@[0] == *old_hash);
        assert(record@[1] == *account_id);
    }
    let new_hash = cs.poseidon_hash(&record, params);
    proof {
        assert(wires(record@) =~= seq![old_hash.wire(), account_id.wire()]);
        if old_hash.value.is_some() && account_id.value.is_some() {
            assert forall|j: int| 0 <= j < record@.len() implies (
            #[trigger] record@[j]).value.is_some() by {}
            assert(num_values(record@) =~= seq![old_hash.spec_value(), account_id.spec_value()]);
        } else {
            assert(record@[0] == *old_hash);
            assert(record@[1] == *account_id);
        }
    }
    new_hash
}

/// A batch of executed on-chain withdrawals between two roots and two
/// history digests.
#[derive(Clone)]
pub struct OnchainWithdrawalBatchCircuit<'a> {
    pub batch_size: usize,
    pub account_depth: usize,
    pub hash_params: &'a HashParams,
    pub queue: Vec<OnchainWithdrawalCircuit>,
    pub old_accum_hash: Option<FieldElement>,
    pub new_accum_hash: Option<FieldElement>,
    pub old_account_root: Option<FieldElement>,
    pub new_account_root: Option<FieldElement>,
}

impl<'a> OnchainWithdrawalBatchCircuit<'a> {
    /// The batch holds as many items as it says, and each item's path has
    /// as many levels as the batch says.
    pub open spec fn well_shaped(&self) -> bool {
        &&& self.batch_size == self.queue@.len()
        &&& self.account_depth <= NUM_BITS
        &&& forall|k: int|
            0 <= k < self.queue@.len() ==>
                (#[trigger] self.queue@[k]).account_state.account_path@.len()
                == self.account_depth && self.queue@[k].account_state.account_indices@.len()
                == self.account_depth
    }

    /// The root after the given items, starting from `old_root`.
    pub open spec fn chain_root(
        items: Seq<OnchainWithdrawalCircuit>,
        params: &HashParams,
        old_root: Option<nat>,
    ) -> Option<nat> {
        if items.len() == 0 {
            old_root
        } else {
            items.last().spec_new_root(params)
        }
    }

    /// The history digest after the given items, starting from `old_hash`.
    pub open spec fn chain_hash(
        items: Seq<OnchainWithdrawalCircuit>,
        params: &HashParams,
        old_hash: Option<nat>,
    ) -> Option<nat>
        decreases items.len(),
    {
        if items.len() == 0 {
            old_hash
        } else {
            items.last().spec_new_hash(
                params,
                Self::chain_hash(items.drop_last(), params, old_hash),
            )
        }
    }

    /// What the circuit asks of the given items in turn, each starting from
    /// the root that the one before it ended in.
    pub open spec fn chain_holds(
        items: Seq<OnchainWithdrawalCircuit>,
        params: &HashParams,
        old_root: Option<nat>,
    ) -> bool
        decreases items.len(),
    {
        items.len() == 0 || (Self::chain_holds(items.drop_last(), params, old_root)
            && items.last().constraints_hold(
            params,
            Self::chain_root(items.drop_last(), params, old_root),
        ))
    }

    /// Where the circuit's demands hold of items in turn, they hold of each
    /// item, from the root that the items before it end in.
    pub proof fn lemma_chain_item(
        items: Seq<OnchainWithdrawalCircuit>,
        params: &HashParams,
        old_root: Option<nat>,
        k: int,
    )
        requires
            Self::chain_holds(items, params, old_root),
            0 <= k < items.len(),
        ensures
            items[k].constraints_hold(params, Self::chain_root(items.take(k), params, old_root)),
        decreases items.len(),
    {
        if k == items.len() - 1 {
            assert(items.take(k) =~= items.drop_last());
        } else {
            Self::lemma_chain_item(items.drop_last(), params, old_root, k);
            assert(items.drop_last().take(k) =~= items.take(k));
        }
    }

    /// The values that the given items make public inputs, item by item.
    pub open spec fn items_inputs(items: Seq<OnchainWithdrawalCircuit>) -> Seq<Option<nat>>
        decreases items.len(),
    {
        if items.len() == 0 {
            Seq::empty()
        } else {
            Self::items_inputs(items.drop_last()) + items.last().spec_inputs()
        }
    }

    /// The values that the batch begins its public inputs with.
    pub open spec fn head_inputs(&self) -> Seq<Option<nat>> {
        seq![
            option_view(self.old_accum_hash),
            option_view(self.new_accum_hash),
            option_view(self.old_account_root),
            option_view(self.new_account_root),
        ]
    }

    /// The values that the batch makes public inputs, in their order.
    pub open spec fn spec_inputs(&self) -> Seq<Option<nat>> {
        self.head_inputs() + Self::items_inputs(self.queue@)
    }

    /// What the circuit asks of the batch: of each item in turn what it asks
    /// of an item, and that the items lead from the batch's old digest and
    /// root to its new ones.
    pub open spec fn constraints_hold(&self) -> bool {
        let params = self.hash_params;
        let old_hash = option_view(self.old_accum_hash);
        let old_root = option_view(self.old_account_root);
        &&& Self::chain_holds(self.queue@, params, old_root)
        &&& self.new_accum_hash is Some
        &&& Self::chain_hash(self.queue@, params, old_hash) == option_view(self.new_accum_hash)
        &&& self.new_account_root is Some
        &&& Self::chain_root(self.queue@, params, old_root) == option_view(self.new_account_root)
    }

    /// The place of the first step of item `k` of a batch that is laid out
    /// from place `start` on.
    pub open spec fn item_start(start: nat, depth: nat, k: nat) -> nat
        decreases k,
    {
        if k == 0 {
            start + 8
        } else {
            Self::item_start(start, depth, (k - 1) as nat) + OnchainWithdrawalCircuit::size(depth)
        }
    }

    /// Where the digest is made that item `k` starts from.
    pub open spec fn hash_wire(start: nat, depth: nat, k: nat) -> Wire {
        if k == 0 {
            wire_at(start, 0)
        } else {
            wire_at(Self::item_start(start, depth, (k - 1) as nat) + 3 * depth + 19, 0)
        }
    }

    /// Where the root is made that item `k` starts from.
    pub open spec fn root_wire(start: nat, depth: nat, k: nat) -> Wire {
        if k == 0 {
            wire_at(start + 4, 0)
        } else {
            wire_at(Self::item_start(start, depth, (k - 1) as nat) + 7 * depth + 22, 0)
        }
    }

    /// The steps that make the batch's public inputs, from place `start` on.
    pub open spec fn head_layout(start: nat) -> Seq<Shape> {
        input_layout(start) + input_layout(start + 2) + input_layout(start + 4) + input_layout(
            start + 6,
        )
    }

    /// The steps of the first `n` items of a batch that is laid out from
    /// place `start` on, each item after what the one before it ends in.
    pub open spec fn items_layout(start: nat, depth: nat, params: &HashParams, n: nat) -> Seq<
        Shape,
    >
        decreases n,
    {
        if n == 0 {
            Seq::empty()
        } else {
            let k = (n - 1) as nat;
            Self::items_layout(start, depth, params, k) + OnchainWithdrawalCircuit::layout(
                Self::item_start(start, depth, k),
                depth,
                params,
                Self::hash_wire(start, depth, k),
                Self::root_wire(start, depth, k),
            )
        }
    }

    /// The steps of a batch of `n` items for a tree of the given depth, from
    /// place `start` on: the public inputs, the items, and the steps that
    /// ask what the last item ends in to be what the batch says. They
    /// depend on no value that the batch holds.
    pub open spec fn layout(start: nat, depth: nat, params: &HashParams, n: nat) -> Seq<Shape> {
        Self::head_layout(start) + Self::items_layout(start, depth, params, n) + same_layout(
            Self::hash_wire(start, depth, n),
            wire_at(start + 2, 0),
        ) + same_layout(Self::root_wire(start, depth, n), wire_at(start + 6, 0))
    }

    /// The public inputs, laid out one after the other, are the batch's
    /// head.
    proof fn lemma_head_layout(laid: Seq<ConstraintSystem>, depth: nat, params: &HashParams)
        requires
            laid.len() == 5,
            laid[1].lays(&laid[0], input_layout(laid[0]@.len())),
            laid[1]@.len() == laid[0]@.len() + 2,
            laid[2].lays(&laid[1], input_layout(laid[1]@.len())),
            laid[2]@.len() == laid[1]@.len() + 2,
            laid[3].lays(&laid[2], input_layout(laid[2]@.len())),
            laid[3]@.len() == laid[2]@.len() + 2,
            laid[4].lays(&laid[3], input_layout(laid[3]@.len())),
            laid[4]@.len() == laid[3]@.len() + 2,
        ensures
            laid[4].lays(
                &laid[0],
                Self::head_layout(laid[0]@.len()) + Self::items_layout(
                    laid[0]@.len(),
                    depth,
                    params,
                    0,
                ),
            ),
            laid[4]@.len() == Self::item_start(laid[0]@.len(), depth, 0),
    {
        let start = laid[0]@.len();
        assert(laid[1].lays(&laid[0], input_layout(start)));
        assert(laid[2].lays(&laid[1], input_layout(start + 2)));
        laid[2].lemma_lays_more(&laid[1], &laid[0], input_layout(start), input_layout(start + 2));
        assert(laid[3].lays(&laid[2], input_layout(start + 4)));
        laid[3].lemma_lays_more(
            &laid[2],
            &laid[0],
            input_layout(start) + input_layout(start + 2),
            input_layout(start + 4),
        );
        assert(laid[4].lays(&laid[3], input_layout(start + 6)));
        laid[4].lemma_lays_more(
            &laid[3],
            &laid[0],
            input_layout(start) + input_layout(start + 2) + input_layout(start + 4),
            input_layout(start + 6),
        );
        assert(Self::head_layout(start) + Self::items_layout(start, depth, params, 0)
            =~= Self::head_layout(start));
    }

    /// One more item after `k` items is `k + 1` items.
    proof fn lemma_item_layout(
        before: ConstraintSystem,
        mid: ConstraintSystem,
        after: ConstraintSystem,
        depth: nat,
        params: &HashParams,
        k: nat,
    )
        requires
            mid.lays(
                &before,
                Self::head_layout(before@.len()) + Self::items_layout(
                    before@.len(),
                    depth,
                    params,
                    k,
                ),
            ),
            mid@.len() == Self::item_start(before@.len(), depth, k),
            after.lays(
                &mid,
                OnchainWithdrawalCircuit::layout(
                    mid@.len(),
                    depth,
                    params,
                    Self::hash_wire(before@.len(), depth, k),
                    Self::root_wire(before@.len(), depth, k),
                ),
            ),
            after@.len() == mid@.len() + OnchainWithdrawalCircuit::size(depth),
        ensures
            after.lays(
                &before,
                Self::head_layout(before@.len()) + Self::items_layout(
                    before@.len(),
                    depth,
                    params,
                    k + 1,
                ),
            ),
            after@.len() == Self::item_start(before@.len(), depth, k + 1),
    {
        let start = before@.len();
        let head = Self::head_layout(start);
        let seen = Self::items_layout(start, depth, params, k);
        let item = OnchainWithdrawalCircuit::layout(
            mid@.len(),
            depth,
            params,
            Self::hash_wire(start, depth, k),
            Self::root_wire(start, depth, k),
        );
        after.lemma_lays_more(&mid, &before, head + seen, item);
        assert(head + seen + item =~= head + (seen + item));
    }

    /// The steps that close the batch, after its items, make its layout.
    proof fn lemma_tail_layout(
        laid: Seq<ConstraintSystem>,
        depth: nat,
        params: &HashParams,
        n: nat,
    )
        requires
            laid.len() == 4,
            laid[1].lays(
                &laid[0],
                Self::head_layout(laid[0]@.len()) + Self::items_layout(
                    laid[0]@.len(),
                    depth,
                    params,
                    n,
                ),
            ),
            laid[2].lays(
                &laid[1],
                same_layout(Self::hash_wire(laid[0]@.len(), depth, n), wire_at(laid[0]@.len() + 2, 0)),
            ),
            laid[3].lays(
                &laid[2],
                same_layout(Self::root_wire(laid[0]@.len(), depth, n), wire_at(laid[0]@.len() + 6, 0)),
            ),
        ensures
            laid[3].lays(&laid[0], Self::layout(laid[0]@.len(), depth, params, n)),
    {
        let start = laid[0]@.len();
        let body = Self::head_layout(start) + Self::items_layout(start, depth, params, n);
        let first = same_layout(Self::hash_wire(start, depth, n), wire_at(start + 2, 0));
        let second = same_layout(Self::root_wire(start, depth, n), wire_at(start + 6, 0));
        laid[2].lemma_lays_more(&laid[1], &laid[0], body, first);
        laid[3].lemma_lays_more(&laid[2], &laid[0], body + first, second);
    }

    /// Lays out the batch.
    pub fn synthesize(&self, cs: &mut ConstraintSystem)
        requires
            self.well_shaped(),
        ensures
            final(cs).adds_inputs(old(cs), self.constraints_hold(), self.spec_inputs()),
            final(cs).lays(
                old(cs),
                Self::layout(
                    old(cs)@.len(),
                    self.account_depth as nat,
                    self.hash_params,
                    self.batch_size as nat,
                ),
            ),
    {
        let ghost start = cs@.len();
        let ghost depth = self.account_depth as nat;
        let ghost c0 = *cs;
        let mut prev_hash = cs.alloc_input(self.old_accum_hash);
        let ghost c1 = *cs;
        let new_hash = cs.alloc_input(self.new_accum_hash);
        let ghost c2 = *cs;
        let mut prev_root = cs.alloc_input(self.old_account_root);
        let ghost c3 = *cs;
        let new_root = cs.alloc_input(self.new_account_root);
        proof {
            Self::lemma_head_layout(seq![c0, c1, c2, c3, *cs], depth, self.hash_params);
        }

        let ghost old_hash = option_view(self.old_accum_hash);
        let ghost old_root = option_view(self.old_account_root);
        let mut i: usize = 0;
        assert(self.queue@.take(0) =~= Seq::<OnchainWithdrawalCircuit>::empty());
        assert(cs.inputs() =~= old(cs).inputs() + (self.head_inputs() + Self::items_inputs(
            self.queue@.take(0),
        )));
        while i < self.queue.len()
            invariant
                self.well_shaped(),
                i <= self.queue@.len(),
                cs.adds_inputs(
                    old(cs),
                    Self::chain_holds(self.queue@.take(i as int), self.hash_params, old_root),
                    self.head_inputs() + Self::items_inputs(self.queue@.take(i as int)),
                ),
                num_view(prev_hash) == Self::chain_hash(
                    self.queue@.take(i as int),
                    self.hash_params,
                    old_hash,
                ),
                num_view(prev_root) == Self::chain_root(
                    self.queue@.take(i as int),
                    self.hash_params,
                    old_root,
                ),
                old_hash == option_view(self.old_accum_hash),
                old_root == option_view(self.old_account_root),
                new_hash.value == self.new_accum_hash,
                new_root.value == self.new_account_root,
                cs.owns(prev_hash),
                cs.owns(prev_root),
                cs.owns(new_hash),
                cs.owns(new_root),
                start == old(cs)@.len(),
                depth == self.account_depth,
                c0 == *old(cs),
                cs.lays(
                    &c0,
                    Self::head_layout(start) + Self::items_layout(
                        start,
                        depth,
                        self.hash_params,
                        i as nat,
                    ),
                ),
                cs@.len() == Self::item_start(start, depth, i as nat),
                prev_hash.wire() == Self::hash_wire(start, depth, i as nat),
                prev_root.wire() == Self::root_wire(start, depth, i as nat),
                new_hash.wire() == wire_at(start + 2, 0),
                new_root.wire() == wire_at(start + 6, 0),
            decreases self.queue@.len() - i,
        {
            let ghost mid = *cs;
            let (hash, root) = self.queue[i].process(
                cs,
                self.account_depth,
                self.hash_params,
                &prev_hash,
                &prev_root,
            );
            proof {
                assert(self.queue@.take(i + 1).drop_last() =~= self.queue@.take(i as int));
                assert(self.queue@.take(i + 1).last() == self.queue@[i as int]);
                assert(cs.inputs() =~= old(cs).inputs() + (self.head_inputs() + Self::items_inputs(
                    self.queue@.take(i + 1),
                )));
            }
            proof {
                Self::lemma_item_layout(c0, mid, *cs, depth, self.hash_params, i as nat);
            }
            prev_hash = hash;
            prev_root = root;
            i += 1;
        }
        assert(self.queue@.take(i as int) =~= self.queue@);

        let ghost c4 = *cs;
        enforce_same(cs, &prev_hash, &new_hash);
        let ghost c5 = *cs;
        enforce_same(cs, &prev_root, &new_root);
        proof {
            Self::lemma_tail_layout(seq![c0, c4, c5, *cs], depth, self.hash_params, i as nat);
        }
    }
}

/// An item that holds a withdrawal as it was applied to a ledger meets what
/// the circuit asks of it from the ledger's root, and ends in the root of
/// the ledger after the withdrawal.
pub proof fn lemma_onchain_withdrawal_satisfies(
    item: OnchainWithdrawalCircuit,
    params: &HashParams,
    depth: nat,
    ledger: Seq<AccountView>,
    withdrawal: OnchainWithdrawal,
)
    requires
        ledger.len() == two_pow(depth),
        withdrawal.applicable(ledger),
        ledger[withdrawal.account_id as int].balance <= usize::MAX,
        item.witnesses(params, depth, ledger, withdrawal),
    ensures
        item.constraints_hold(params, Some(AccountsTree::root_of(params, depth, ledger))),
        item.spec_new_root(params) == Some(
            AccountsTree::root_of(params, depth, withdrawal.apply(ledger)),
        ),
{
    let id = withdrawal.account_id as nat;
    let state = item.account_state;
    lemma_recorded_roots(state, params, depth, ledger, id, withdrawal.apply(ledger)[id as int]);
    assert(
        withdrawal.apply(ledger) =~= ledger.update(id as int, withdrawal.apply(ledger)[id as int])
    );
    lemma_word_fits();
    crate::field::lemma_word_in_field();
    lemma_small_mod(ledger[id as int].balance, fr_modulus());
    assert(state.old_leaf()[0] == crate::account::key_x(state.old_pubkey));
    assert(state.new_leaf()[0] == crate::account::key_x(state.new_pubkey));
    assert(state.old_leaf()[1] == crate::account::key_y(state.old_pubkey));
    assert(state.new_leaf()[1] == crate::account::key_y(state.new_pubkey));
}

/// The slot number of an item is bound to the slot that the item's path
/// leads to: a batch that meets what the circuit asks does so no more when
/// the slot number of one item is another, with that item's path as it was.
pub proof fn lemma_onchain_withdrawal_slot_number_is_bound(
    circuit: OnchainWithdrawalBatchCircuit,
    changed: OnchainWithdrawalBatchCircuit,
    k: int,
)
    requires
        circuit.constraints_hold(),
        0 <= k < circuit.queue@.len(),
        changed.queue@.len() == circuit.queue@.len(),
        changed.queue@[k].account_state.account_indices@
            == circuit.queue@[k].account_state.account_indices@,
        option_view(changed.queue@[k].account_id) != option_view(circuit.queue@[k].account_id),
    ensures
        !changed.constraints_hold(),
{
    if changed.constraints_hold() {
        OnchainWithdrawalBatchCircuit::lemma_chain_item(
            circuit.queue@,
            circuit.hash_params,
            option_view(circuit.old_account_root),
            k,
        );
        OnchainWithdrawalBatchCircuit::lemma_chain_item(
            changed.queue@,
            changed.hash_params,
            option_view(changed.old_account_root),
            k,
        );
        lemma_bits_fix_value(
            circuit.queue@[k].account_id,
            changed.queue@[k].account_id,
            circuit.queue@[k].account_state.account_indices@,
        );
    }
}

/// The roots of a batch are bound to its items: a batch of at least one item
/// that meets what the circuit asks does so no more when its old root or
/// its new root is another, with its items as they were.
pub proof fn lemma_onchain_withdrawal_roots_are_bound(
    circuit: OnchainWithdrawalBatchCircuit,
    changed: OnchainWithdrawalBatchCircuit,
)
    requires
        circuit.constraints_hold(),
        circuit.queue@.len() > 0,
        changed.queue@ == circuit.queue@,
        changed.hash_params == circuit.hash_params,
        option_view(changed.old_account_root) != option_view(circuit.old_account_root)
            || option_view(changed.new_account_root) != option_view(circuit.new_account_root),
    ensures
        !changed.constraints_hold(),
{
    if changed.constraints_hold() {
        let items = circuit.queue@;
        let params = circuit.hash_params;
        assert(items.take(0) =~= Seq::<OnchainWithdrawalCircuit>::empty());
        OnchainWithdrawalBatchCircuit::lemma_chain_item(
            items,
            params,
            option_view(circuit.old_account_root),
            0,
        );
        OnchainWithdrawalBatchCircuit::lemma_chain_item(
            items,
            params,
            option_view(changed.old_account_root),
            0,
        );
    }
}

/// The amount of an item is bound to the slot's balances: a batch that meets
/// what the circuit asks does so no more when the amount of one item is
/// another, with that item's balances as they were.
pub proof fn lemma_onchain_withdrawal_amount_is_bound(
    circuit: OnchainWithdrawalBatchCircuit,
    changed: OnchainWithdrawalBatchCircuit,
    k: int,
)
    requires
        circuit.constraints_hold(),
        0 <= k < circuit.queue@.len(),
        changed.queue@.len() == circuit.queue@.len(),
        changed.queue@[k].account_state.old_balance == circuit.queue@[k].account_state.old_balance,
        changed.queue@[k].account_state.new_balance == circuit.queue@[k].account_state.new_balance,
        circuit.queue@[k].amount matches Some(amount) && amount@ < fr_modulus(),
        changed.queue@[k].amount matches Some(amount) && amount@ < fr_modulus(),
        option_view(changed.queue@[k].amount) != option_view(circuit.queue@[k].amount),
    ensures
        !changed.constraints_hold(),
{
    if changed.constraints_hold() {
        OnchainWithdrawalBatchCircuit::lemma_chain_item(
            circuit.queue@,
            circuit.hash_params,
            option_view(circuit.old_account_root),
            k,
        );
        OnchainWithdrawalBatchCircuit::lemma_chain_item(
            changed.queue@,
            changed.hash_params,
            option_view(changed.old_account_root),
            k,
        );
        lemma_sum_fixes_summand(
            circuit.queue@[k].account_state.new_balance.unwrap()@,
            circuit.queue@[k].amount.unwrap()@,
            changed.queue@[k].amount.unwrap()@,
        );
    }
}

/// The new digest of a batch is bound to its old digest and its items: a
/// batch that meets what the circuit asks does so no more when its new
/// digest is another, with its old digest and its items as they were.
pub proof fn lemma_onchain_withdrawal_digest_is_bound(
    circuit: OnchainWithdrawalBatchCircuit,
    changed: OnchainWithdrawalBatchCircuit,
)
    requires
        circuit.constraints_hold(),
        changed.queue@ == circuit.queue@,
        changed.hash_params == circuit.hash_params,
        option_view(changed.old_accum_hash) == option_view(circuit.old_accum_hash),
        option_view(changed.new_accum_hash) != option_view(circuit.new_accum_hash),
    ensures
        !changed.constraints_hold(),
{
}

} // verus!
