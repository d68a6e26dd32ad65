//! The circuit of a batch of off-chain withdrawals.

use crate::account::{
    balance_layout, bits_of, key_x, key_y, known, lemma_bits_fix_value, lemma_decomposes_alike,
    lemma_recorded_roots, pubkey_layout, slot_balance_layout, slot_pubkey_layout, slot_roots_layout,
    slot_size, ACCOUNT_LEAF_SIZE, AccountCircuit, AccountState,
};
use crate::circuit::{
    bit_wires, input_layout, num_values, num_view, option_view, wire_at, wires, wires_from,
    AllocatedNum, AllocatedPoint, AllocatedSignature, ConstraintSystem, NUM_BITS, Shape, Wire,
};
use crate::data_structs::offchain_withdrawal::OffchainWithdrawal;
use crate::data_structs::sign::spec_signed_bytes;
use crate::eddsa::{NUM_BYTES_TO_SIGN, PublicKey, Signature, SignParams};
use crate::field::{fr_modulus, lemma_word_fits, lemma_word_in_field, FieldElement};
use crate::hash::HashParams;
use crate::tree::account::{AccountsTree, AccountView};
use crate::tree::merkle_tree::two_pow;
use crate::utils::calc::{
    check_decomposition_le, decomposition_layout, enforce_same, field_sum, lemma_sum_fixes_summand,
    same_layout, same_value,
};
use crate::utils::sign::{signature_checks, signature_layout, verify_signature};
use crate::utils::tree::{hash_shape, tree_layout};
use vstd::arithmetic::div_mod::lemma_small_mod;
use vstd::prelude::*;

verus! {

/// One executed off-chain withdrawal, as its proof needs it.
#[derive(Clone, Debug)]
pub struct OffchainWithdrawalCircuit {
    pub account_state: AccountState,
    pub account_id: Option<FieldElement>,
    pub amount: Option<FieldElement>,
    pub nonce: Option<FieldElement>,
    pub sign: Option<Signature>,
    pub pubkey: Option<PublicKey>,
}

impl OffchainWithdrawalCircuit {
    /// The item's path has `depth` levels.
    pub open spec fn shaped(&self, depth: usize) -> bool {
        &&& self.account_state.account_path@.len() == depth
        &&& self.account_state.account_indices@.len() == depth
    }

    /// This item holds `withdrawal` as it was applied to `ledger`, with its
    /// signature and the slot's key.
    pub open spec fn witnesses(
        &self,
        params: &HashParams,
        depth: nat,
        ledger: Seq<AccountView>,
        withdrawal: OffchainWithdrawal,
    ) -> bool {
        &&& self.account_state.records(
            params,
            depth,
            ledger,
            withdrawal.account_id as nat,
            withdrawal.apply(ledger)[withdrawal.account_id as int],
        )
        &&& known(self.account_id, withdrawal.account_id as nat)
        &&& known(self.amount, withdrawal.amount as nat)
        &&& known(self.nonce, withdrawal.nonce as nat)
        &&& self.sign.is_some()
        &&& self.sign == withdrawal.sign
        &&& self.pubkey matches Some(key) && key@ == ledger[withdrawal.account_id as int].key
    }
}

impl OffchainWithdrawalCircuit {
    /// The hash that the item's signature is of, where all that it is
    /// hashed from is known.
    pub open spec fn spec_message_hash(&self, params: &HashParams) -> Option<nat> {
        if self.account_id is Some && self.amount is Some && self.nonce is Some {
            Some(
                params.spec_hash(
                    seq![self.account_id.unwrap()@, self.amount.unwrap()@, self.nonce.unwrap()@],
                ),
            )
        } else {
            None
        }
    }

    /// The item's signature is given, and so are the key and all that is
    /// signed, and the signature verifies under the key.
    pub open spec fn signature_holds(&self, params: &HashParams) -> bool {
        &&& self.sign is Some
        &&& self.pubkey is Some
        &&& self.spec_message_hash(params) is Some
        &&& self.sign.unwrap().verifies(
            self.pubkey.unwrap()@,
            spec_signed_bytes(self.spec_message_hash(params).unwrap()),
        )
    }

    /// What the circuit asks of this item when it starts from the root
    /// `old_root`: the signature verifies under the key, the key is the
    /// slot's before and after, the slot's index bits are the bits of the
    /// slot's number, the old balance is the new one and the amount, the new
    /// balance fits the machine word, the nonce stays, and the slot as it
    /// was leads to `old_root`.
    pub open spec fn constraints_hold(&self, params: &HashParams, old_root: Option<nat>) -> bool {
        let state = self.account_state;
        &&& self.signature_holds(params)
        &&& Self::key_stays(self.pubkey, &state)
        &&& bits_of(self.account_id, state.account_indices@)
        &&& field_sum(state.old_balance, state.new_balance, self.amount)
        &&& state.new_balance.unwrap()@ < two_pow(usize::BITS as nat)
        &&& same_value(state.old_nonce, state.new_nonce)
        &&& state.root_known(state.old_leaf())
        &&& old_root == Some(state.root_from(params, state.old_leaf()))
    }

    /// The values that this item makes public inputs: the slot's number and
    /// the amount.
    pub open spec fn spec_inputs(&self) -> Seq<Option<nat>> {
        seq![option_view(self.account_id), option_view(self.amount)]
    }

    /// The root that this item ends in, where all that leads to it is known.
    pub open spec fn spec_new_root(&self, params: &HashParams) -> Option<nat> {
        let state = self.account_state;
        if state.root_known(state.new_leaf()) {
            Some(state.root_from(params, state.new_leaf()))
        } else {
            None
        }
    }

    /// The steps of an item's layout from place `start` on, after the root
    /// that the given place holds: the slot's numbers and bits; the
    /// withdrawal's slot number and amount, both public, and its nonce; the
    /// hash that is signed; the signature and its check; the steps that ask
    /// the signer's key to be the slot's, the slot number to be the sum of
    /// the path's bits, and the balance to go down by the amount; and the
    /// two roots.
    pub open spec fn layout(start: nat, depth: nat, params: &HashParams, old_root: Wire) -> Seq<
        Shape,
    > {
        let own = start + slot_size(depth);
        tree_layout(4, depth) + input_layout(own) + input_layout(own + 2) + seq![Shape::Alloc]
            + seq![
            hash_shape(params, seq![wire_at(own, 0), wire_at(own + 2, 0), wire_at(own + 4, 0)]),
        ] + signature_layout(own + 6, wire_at(own + 5, 0), NUM_BYTES_TO_SIGN) + slot_pubkey_layout(
            start,
            wire_at(own + 8, 0),
            wire_at(own + 8, 1),
        ) + decomposition_layout(own + 14, wire_at(own, 0), wires_from(start + 8 + depth, depth))
            + slot_balance_layout(start, wire_at(own + 2, 0), false) + slot_roots_layout(
            own + depth + 19,
            params,
            start,
            depth,
            old_root,
        )
    }

    /// The number of steps of an item's layout.
    pub open spec fn size(depth: nat) -> nat {
        7 * depth + 30
    }

    /// What is laid out piece by piece, each piece after the one before, is
    /// the item's layout.
    proof fn lemma_layout(
        laid: Seq<ConstraintSystem>,
        slot: AccountCircuit,
        depth: nat,
        params: &HashParams,
        old_root: AllocatedNum,
        own: Seq<AllocatedNum>,
        signature: AllocatedSignature,
        new_root: AllocatedNum,
    )
        requires
            laid.len() == 11,
            own.len() == 4,
            slot.accounts_tree.params == params,
            slot.accounts_tree.laid_at(laid[0]@.len(), ACCOUNT_LEAF_SIZE as nat, depth),
            slot.accounts_tree.path_alloc@.len() == depth,
            slot.accounts_tree.indices_alloc@.len() == depth,
            laid[1].lays(&laid[0], tree_layout(ACCOUNT_LEAF_SIZE as nat, depth)),
            laid[1]@.len() == laid[0]@.len() + slot_size(depth),
            laid[2].lays(&laid[1], input_layout(laid[1]@.len())),
            laid[2]@.len() == laid[1]@.len() + 2,
            own[0].source == laid[1]@.len() && own[0].slot == 0,
            laid[3].lays(&laid[2], input_layout(laid[2]@.len())),
            laid[3]@.len() == laid[2]@.len() + 2,
            own[1].source == laid[2]@.len() && own[1].slot == 0,
            laid[4].lays(&laid[3], seq![Shape::Alloc]),
            laid[4]@.len() == laid[3]@.len() + 1,
            own[2].source == laid[3]@.len() && own[2].slot == 0,
            laid[5].lays(
                &laid[4],
                seq![hash_shape(params, seq![own[0].wire(), own[1].wire(), own[2].wire()])],
            ),
            laid[5]@.len() == laid[4]@.len() + 1,
            own[3].wire() == wire_at(laid[4]@.len(), 0),
            laid[6].lays(
                &laid[5],
                signature_layout(laid[5]@.len(), own[3].wire(), NUM_BYTES_TO_SIGN),
            ),
            laid[6]@.len() == laid[5]@.len() + 4,
            signature.laid_at(laid[5]@.len()),
            laid[7].lays(
                &laid[6],
                pubkey_layout(
                    signature.pk.x.wire(),
                    signature.pk.y.wire(),
                    wires(slot.accounts_tree.old_leaf_alloc@),
                    wires(slot.accounts_tree.new_leaf_alloc@),
                ),
            ),
            laid[7]@.len() == laid[6]@.len() + 4,
            laid[8].lays(
                &laid[7],
                decomposition_layout(
                    laid[7]@.len(),
                    own[0].wire(),
                    bit_wires(slot.accounts_tree.indices_alloc@),
                ),
            ),
            laid[8]@.len() == laid[7]@.len() + depth + 2,
            laid[9].lays(
                &laid[8],
                balance_layout(
                    wires(slot.accounts_tree.old_leaf_alloc@),
                    wires(slot.accounts_tree.new_leaf_alloc@),
                    own[1].wire(),
                    false,
                ),
            ),
            laid[9]@.len() == laid[8]@.len() + 3,
            laid[10].lays(&laid[9], slot.roots_layout(laid[9]@.len(), old_root.wire())),
            laid[10]@.len() == laid[9]@.len() + 4 * slot.spec_levels() + 3,
            new_root.wire() == wire_at(laid[9]@.len() + 4 * slot.spec_levels() + 2, 0),
        ensures
            laid[10].lays(&laid[0], Self::layout(laid[0]@.len(), depth, params, old_root.wire())),
            laid[10]@.len() == laid[0]@.len() + Self::size(depth),
            new_root.wire() == wire_at(laid[0]@.len() + 7 * depth + 29, 0),
    {
        let start = laid[0]@.len();
        let first = start + slot_size(depth);
        slot.lemma_slot_layouts(start, depth);
        let l1 = tree_layout(4, depth);
        let l2 = l1 + input_layout(first);
        laid[2].lemma_lays_more(&laid[1], &laid[0], l1, input_layout(first));
        let l3 = l2 + input_layout(first + 2);
        laid[3].lemma_lays_more(&laid[2], &laid[0], l2, input_layout(first + 2));
        let l4 = l3 + seq![Shape::Alloc];
        laid[4].lemma_lays_more(&laid[3], &laid[0], l3, seq![Shape::Alloc]);
        let hashed = seq![
            hash_shape(
                params,
                seq![wire_at(first, 0), wire_at(first + 2, 0), wire_at(first + 4, 0)],
            ),
        ];
        let l5 = l4 + hashed;
        laid[5].lemma_lays_more(&laid[4], &laid[0], l4, hashed);
        let signed = signature_layout(first + 6, wire_at(first + 5, 0), NUM_BYTES_TO_SIGN);
        let l6 = l5 + signed;
        laid[6].lemma_lays_more(&laid[5], &laid[0], l5, signed);
        let keyed = slot_pubkey_layout(start, wire_at(first + 8, 0), wire_at(first + 8, 1));
        let l7 = l6 + keyed;
        laid[7].lemma_lays_more(&laid[6], &laid[0], l6, keyed);
        let asked = decomposition_layout(
            first + 14,
            wire_at(first, 0),
            wires_from(start + 8 + depth, depth),
        );
        let l8 = l7 + asked;
        laid[8].lemma_lays_more(&laid[7], &laid[0], l7, asked);
        let debit = slot_balance_layout(start, wire_at(first + 2, 0), false);
        let l9 = l8 + debit;
        laid[9].lemma_lays_more(&laid[8], &laid[0], l8, debit);
        let roots = slot_roots_layout(first + depth + 19, params, start, depth, old_root.wire());
        laid[10].lemma_lays_more(&laid[9], &laid[0], l9, roots);
    }

    /// Lays out this item after the root `old_root`, and gives the root
    /// after it.
    #[verifier::rlimit(30)]
    pub fn process(
        &self,
        cs: &mut ConstraintSystem,
        account_depth: usize,
        hash_params: &HashParams,
        old_root: &AllocatedNum,
    ) -> (new_root: AllocatedNum)
        requires
            self.account_state.account_path@.len() == account_depth,
            self.account_state.account_indices@.len() == account_depth,
            account_depth <= NUM_BITS,
            old(cs).owns(*old_root),
        ensures
            final(cs).owns(new_root),
            final(cs).adds_inputs(
                old(cs),
                self.constraints_hold(hash_params, num_view(*old_root)),
                self.spec_inputs(),
            ),
            final(cs).lays(
                old(cs),
                Self::layout(old(cs)@.len(), account_depth as nat, hash_params, old_root.wire()),
            ),
            final(cs)@.len() == old(cs)@.len() + Self::size(account_depth as nat),
            new_root.wire() == wire_at((old(cs)@.len() + 7 * account_depth + 29) as nat, 0),
            num_view(new_root) == self.spec_new_root(hash_params),
    {
        let ghost c0 = *cs;
        let account_circuit = AccountCircuit::new(
            cs,
            account_depth,
            hash_params,
            &self.account_state,
        );
        let tree = &account_circuit.accounts_tree;
        let ghost c1 = *cs;

        let account_id_alloc = cs.alloc_input(self.account_id);
        let ghost c2 = *cs;
        let amount_alloc = cs.alloc_input(self.amount);
        let ghost c3 = *cs;
        assert(cs.inputs() =~= old(cs).inputs() + self.spec_inputs());

        let nonce_alloc = cs.alloc_num(self.nonce);
        let ghost c4 = *cs;

        let withdrawal_hash = request_digest(
            cs,
            hash_params,
            &account_id_alloc,
            &amount_alloc,
            &nonce_alloc,
        );
        let ghost c5 = *cs;
        proof {
            assert(signature_checks(self.sign, self.pubkey, withdrawal_hash, NUM_BYTES_TO_SIGN)
                == self.signature_holds(hash_params));
        }

        let sign_alloc = verify_signature(
            cs,
            self.sign,
            self.pubkey,
            &withdrawal_hash,
            NUM_BYTES_TO_SIGN,
        );
        let ghost c6 = *cs;

        Self::check_pubkey(cs, &sign_alloc.pk, &account_circuit);
        let ghost c7 = *cs;

        check_decomposition_le(cs, &account_id_alloc, &tree.indices_alloc);
        let ghost c8 = *cs;
        proof {
            lemma_decomposes_alike(
                account_id_alloc,
                tree.indices_alloc@,
                self.account_state.account_indices@,
            );
        }

        account_circuit.check_balance(cs, &amount_alloc, false);
        let ghost c9 = *cs;
        let new_root = account_circuit.check_roots(cs, old_root);
        proof {
            Self::lemma_layout(
                seq![c0, c1, c2, c3, c4, c5, c6, c7, c8, c9, *cs],
                account_circuit,
                account_depth as nat,
                hash_params,
                *old_root,
                seq![account_id_alloc, amount_alloc, nonce_alloc, withdrawal_hash],
                sign_alloc,
                new_root,
            );
        }
        proof {
            let state = self.account_state;
            assert(account_circuit.balance_moves(amount_alloc, false) == {
                &&& field_sum(state.old_balance, state.new_balance, self.amount)
                &&& state.new_balance is Some
                &&& state.new_balance.unwrap()@ < two_pow(usize::BITS as nat)
                &&& same_value(state.old_nonce, state.new_nonce)
            });
        }
        new_root
    }

    /// The key is the key of the slot before and after.
    pub open spec fn key_stays(pubkey: Option<PublicKey>, state: &AccountState) -> bool {
        &&& same_value(key_x(pubkey), state.old_leaf()[0])
        &&& same_value(key_x(pubkey), state.new_leaf()[0])
        &&& same_value(key_y(pubkey), state.old_leaf()[1])
        &&& same_value(key_y(pubkey), state.new_leaf()[1])
    }

    /// The point's coordinates are the first two values of the slot before
    /// and after.
    pub open spec fn key_matches(pubkey: AllocatedPoint, account_circuit: &AccountCircuit) -> bool {
        let tree = account_circuit.accounts_tree;
        &&& same_value(pubkey.x.value, tree.old_leaf_alloc@[0].value)
        &&& same_value(pubkey.x.value, tree.new_leaf_alloc@[0].value)
        &&& same_value(pubkey.y.value, tree.old_leaf_alloc@[1].value)
        &&& same_value(pubkey.y.value, tree.new_leaf_alloc@[1].value)
    }

    /// Asks that a key be the key of a slot before and after.
    pub fn check_pubkey(
        cs: &mut ConstraintSystem,
        pubkey: &AllocatedPoint,
        account_circuit: &AccountCircuit,
    )
        requires
            account_circuit.accounts_tree.old_leaf_alloc@.len() == 4,
            account_circuit.accounts_tree.new_leaf_alloc@.len() == 4,
            account_circuit.accounts_tree.owned_by(old(cs)),
            old(cs).owns(pubkey.x),
            old(cs).owns(pubkey.y),
        ensures
            final(cs).adds(old(cs), Self::key_matches(*pubkey, account_circuit)),
            final(cs).lays(
                old(cs),
                pubkey_layout(
                    pubkey.x.wire(),
                    pubkey.y.wire(),
                    wires(account_circuit.accounts_tree.old_leaf_alloc@),
                    wires(account_circuit.accounts_tree.new_leaf_alloc@),
                ),
            ),
            final(cs)@.len() == old(cs)@.len() + 4,
    {
        let tree = &account_circuit.accounts_tree;
        let ghost c0 = *cs;
        enforce_same(cs, &pubkey.x, &tree.old_leaf_alloc[0]);
        let ghost c1 = *cs;
        enforce_same(cs, &pubkey.x, &tree.new_leaf_alloc[0]);
        let ghost c2 = *cs;
        enforce_same(cs, &pubkey.y, &tree.old_leaf_alloc[1]);
        let ghost c3 = *cs;
        enforce_same(cs, &pubkey.y, &tree.new_leaf_alloc[1]);
        proof {
            let (x, y) = (pubkey.x.wire(), pubkey.y.wire());
            let (before, after) = (wires(tree.old_leaf_alloc@), wires(tree.new_leaf_alloc@));
            let l1 = same_layout(x, before[0]);
            let l2 = l1 + same_layout(x, after[0]);
            c2.lemma_lays_more(&c1, &c0, l1, same_layout(x, after[0]));
            let l3 = l2 + same_layout(y, before[1]);
            c3.lemma_lays_more(&c2, &c0, l2, same_layout(y, before[1]));
            cs.lemma_lays_more(&c3, &c0, l3, same_layout(y, after[1]));
        }
    }
}

/// The hash that a withdrawal's signature is of: of the slot number, the
/// amount and the nonce. Its value is known where theirs are.
fn request_digest(
    cs: &mut ConstraintSystem,
    params: &HashParams,
    account_id: &AllocatedNum,
    amount: &AllocatedNum,
    nonce: &AllocatedNum,
) -> (hash: AllocatedNum)
    requires
        old(cs).owns(*account_id),
        old(cs).owns(*amount),
        old(cs).owns(*nonce),
    ensures
        final(cs).adds(old(cs), true),
        final(cs).owns(hash),
        final(cs).lays(
            old(cs),
            seq![hash_shape(params, seq![account_id.wire(), amount.wire(), nonce.wire()])],
        ),
        final(cs)@.len() == old(cs)@.len() + 1,
        hash.wire() == wire_at(old(cs)@.len(), 0),
        hash.value is Some == (account_id.value is Some && amount.value is Some && nonce.value
            is Some),
        hash.value is Some ==> hash.spec_value() == params.spec_hash(
            seq![account_id.spec_value(), amount.spec_value(), nonce.spec_value()],
        ),
{
    let mut request: Vec<AllocatedNum> = Vec::new();
    request.push(*account_id);
    request.push(*amount);
    request.push(*nonce);
    assert(cs.owns_all(request@)) by {
        assert(request@[0] == *account_id);
        assert(request@[1] == *amount);
        assert(request@[2] == *nonce);
    }
    let hash = cs.poseidon_hash(&request, params);
    proof {
        assert(wires(request@) =~= seq![account_id.wire(), amount.wire(), nonce.wire()]);
        if account_id.value.is_some() && amount.value.is_some() && nonce.value.is_some() {
            assert forall|j: int| 0 <= j < request@.len() implies (
            #[trigger] request@[j]).value.is_some() by {}
            assert(num_values(request@) =~= seq![
                account_id.spec_value(),
                amount.spec_value(),
                nonce.spec_value(),
            ]);
        } else {
            assert(request@[0] == *account_id);
            assert(request@[1] == *amount);
            assert(request@[2] == *nonce);
        }
    }
    hash
}

/// A batch of executed off-chain withdrawals between two roots.
#[derive(Clone)]
pub struct OffchainWithdrawalBatchCircuit<'a> {
    pub batch_size: usize,
    pub account_depth: usize,
    pub hash_params: &'a HashParams,
    pub sign_params: &'a SignParams,
    pub queue: Vec<OffchainWithdrawalCircuit>,
    pub old_account_root: Option<FieldElement>,
    pub new_account_root: Option<FieldElement>,
}

impl<'a> OffchainWithdrawalBatchCircuit<'a> {
    /// The batch holds as many items as it says, and each item's path has
    /// as many levels as the batch says.
    pub open spec fn well_shaped(&self) -> bool {
        &&& self.batch_size == self.queue@.len()
        &&& self.account_depth <= NUM_BITS
        &&& forall|k: int| 0 <= k < self.queue@.len() ==>
            (#[trigger] self.queue@[k]).shaped(self.account_depth)
    }

    /// The root after the given items, starting from `old_root`.
    pub open spec fn chain_root(
        items: Seq<OffchainWithdrawalCircuit>,
        params: &HashParams,
        old_root: Option<nat>,
    ) -> Option<nat> {
        if items.len() == 0 {
            old_root
        } else {
            items.last().spec_new_root(params)
        }
    }

    /// What the circuit asks of the given items in turn, each starting from
    /// the root that the one before it ended in.
    pub open spec fn chain_holds(
        items: Seq<OffchainWithdrawalCircuit>,
        params: &HashParams,
        old_root: Option<nat>,
    ) -> bool
        decreases items.len(),
    {
        items.len() == 0 || (Self::chain_holds(items.drop_last(), params, old_root)
            && items.last().constraints_hold(
            params,
            Self::chain_root(items.drop_last(), params, old_root),
        ))
    }

    /// Where the circuit's demands hold of items in turn, they hold of each
    /// item, from the root that the items before it end in.
    pub proof fn lemma_chain_item(
        items: Seq<OffchainWithdrawalCircuit>,
        params: &HashParams,
        old_root: Option<nat>,
        k: int,
    )
        requires
            Self::chain_holds(items, params, old_root),
            0 <= k < items.len(),
        ensures
            items[k].constraints_hold(params, Self::chain_root(items.take(k), params, old_root)),
        decreases items.len(),
    {
        if k == items.len() - 1 {
            assert(items.take(k) =~= items.drop_last());
        } else {
            Self::lemma_chain_item(items.drop_last(), params, old_root, k);
            assert(items.drop_last().take(k) =~= items.take(k));
        }
    }

    /// The values that the given items make public inputs, item by item.
    pub open spec fn items_inputs(items: Seq<OffchainWithdrawalCircuit>) -> Seq<Option<nat>>
        decreases items.len(),
    {
        if items.len() == 0 {
            Seq::empty()
        } else {
            Self::items_inputs(items.drop_last()) + items.last().spec_inputs()
        }
    }

    /// The values that the batch begins its public inputs with.
    pub open spec fn head_inputs(&self) -> Seq<Option<nat>> {
        seq![option_view(self.old_account_root), option_view(self.new_account_root)]
    }

    /// The values that the batch makes public inputs, in their order.
    pub open spec fn spec_inputs(&self) -> Seq<Option<nat>> {
        self.head_inputs() + Self::items_inputs(self.queue@)
    }

    /// What the circuit asks of the batch: of each item in turn what it asks
    /// of an item, and that the items lead from the batch's old root to its
    /// new one.
    pub open spec fn constraints_hold(&self) -> bool {
        let params = self.hash_params;
        let old_root = option_view(self.old_account_root);
        &&& Self::chain_holds(self.queue@, params, old_root)
        &&& self.new_account_root is Some
        &&& Self::chain_root(self.queue@, params, old_root) == option_view(self.new_account_root)
    }

    /// The place of the first step of item `k` of a batch that is laid out
    /// from place `start` on.
    pub open spec fn item_start(start: nat, depth: nat, k: nat) -> nat
        decreases k,
    {
        if k == 0 {
            start + 4
        } else {
            Self::item_start(start, depth, (k - 1) as nat) + OffchainWithdrawalCircuit::size(depth)
        }
    }

    /// Where the root is made that item `k` starts from.
    pub open spec fn root_wire(start: nat, depth: nat, k: nat) -> Wire {
        if k == 0 {
            wire_at(start, 0)
        } else {
            wire_at(Self::item_start(start, depth, (k - 1) as nat) + 7 * depth + 29, 0)
        }
    }

    /// The steps that make the batch's public inputs, from place `start` on.
    pub open spec fn head_layout(start: nat) -> Seq<Shape> {
        input_layout(start) + input_layout(start + 2)
    }

    /// The steps of the first `n` items of a batch that is laid out from
    /// place `start` on, each item after what the one before it ends in.
    pub open spec fn items_layout(start: nat, depth: nat, params: &HashParams, n: nat) -> Seq<
        Shape,
    >
        decreases n,
    {
        if n == 0 {
            Seq::empty()
        } else {
            let k = (n - 1) as nat;
            Self::items_layout(start, depth, params, k) + OffchainWithdrawalCircuit::layout(
                Self::item_start(start, depth, k),
                depth,
                params,
                Self::root_wire(start, depth, k),
            )
        }
    }

    /// The steps of a batch of `n` items for a tree of the given depth, from
    /// place `start` on: the public inputs, the items, and the steps that
    /// ask what the last item ends in to be what the batch says. They
    /// depend on no value that the batch holds.
    pub open spec fn layout(start: nat, depth: nat, params: &HashParams, n: nat) -> Seq<Shape> {
        Self::head_layout(start) + Self::items_layout(start, depth, params, n) + same_layout(
            Self::root_wire(start, depth, n),
            wire_at(start + 2, 0),
        )
    }

    /// The public inputs, laid out one after the other, are the batch's
    /// head.
    proof fn lemma_head_layout(laid: Seq<ConstraintSystem>, depth: nat, params: &HashParams)
        requires
            laid.len() == 3,
            laid[1].lays(&laid[0], input_layout(laid[0]@.len())),
            laid[1]@.len() == laid[0]@.len() + 2,
            laid[2].lays(&laid[1], input_layout(laid[1]@.len())),
            laid[2]@.len() == laid[1]@.len() + 2,
        ensures
            laid[2].lays(
                &laid[0],
                Self::head_layout(laid[0]@.len()) + Self::items_layout(
                    laid[0]@.len(),
                    depth,
                    params,
                    0,
                ),
            ),
            laid[2]@.len() == Self::item_start(laid[0]@.len(), depth, 0),
    {
        let start = laid[0]@.len();
        assert(laid[1].lays(&laid[0], input_layout(start)));
        assert(laid[2].lays(&laid[1], input_layout(start + 2)));
        laid[2].lemma_lays_more(&laid[1], &laid[0], input_layout(start), input_layout(start + 2));
        assert(Self::head_layout(start) + Self::items_layout(start, depth, params, 0)
            =~= Self::head_layout(start));
    }

    /// One more item after `k` items is `k + 1` items.
    proof fn lemma_item_layout(
        before: ConstraintSystem,
        mid: ConstraintSystem,
        after: ConstraintSystem,
        depth: nat,
        params: &HashParams,
        k: nat,
    )
        requires
            mid.lays(
                &before,
                Self::head_layout(before@.len()) + Self::items_layout(
                    before@.len(),
                    depth,
                    params,
                    k,
                ),
            ),
            mid@.len() == Self::item_start(before@.len(), depth, k),
            after.lays(
                &mid,
                OffchainWithdrawalCircuit::layout(
                    mid@.len(),
                    depth,
                    params,
                    Self::root_wire(before@.len(), depth, k),
                ),
            ),
            after@.len() == mid@.len() + OffchainWithdrawalCircuit::size(depth),
        ensures
            after.lays(
                &before,
                Self::head_layout(before@.len()) + Self::items_layout(
                    before@.len(),
                    depth,
                    params,
                    k + 1,
                ),
            ),
            after@.len() == Self::item_start(before@.len(), depth, k + 1),
    {
        let start = before@.len();
        let head = Self::head_layout(start);
        let seen = Self::items_layout(start, depth, params, k);
        let item = OffchainWithdrawalCircuit::layout(
            mid@.len(),
            depth,
            params,
            Self::root_wire(start, depth, k),
        );
        after.lemma_lays_more(&mid, &before, head + seen, item);
        assert(head + seen + item =~= head + (seen + item));
    }

    /// The steps that close the batch, after its items, make its layout.
    proof fn lemma_tail_layout(
        laid: Seq<ConstraintSystem>,
        depth: nat,
        params: &HashParams,
        n: nat,
    )
        requires
            laid.len() == 3,
            laid[1].lays(
                &laid[0],
                Self::head_layout(laid[0]@.len()) + Self::items_layout(
                    laid[0]@.len(),
                    depth,
                    params,
                    n,
                ),
            ),
            laid[2].lays(
                &laid[1],
                same_layout(Self::root_wire(laid[0]@.len(), depth, n), wire_at(laid[0]@.len() + 2, 0)),
            ),
        ensures
            laid[2].lays(&laid[0], Self::layout(laid[0]@.len(), depth, params, n)),
    {
        let start = laid[0]@.len();
        let body = Self::head_layout(start) + Self::items_layout(start, depth, params, n);
        let last = same_layout(Self::root_wire(start, depth, n), wire_at(start + 2, 0));
        laid[2].lemma_lays_more(&laid[1], &laid[0], body, last);
    }

    /// Lays out the batch.
    pub fn synthesize(&self, cs: &mut ConstraintSystem)
        requires
            self.well_shaped(),
        ensures
            final(cs).adds_inputs(old(cs), self.constraints_hold(), self.spec_inputs()),
            final(cs).lays(
                old(cs),
                Self::layout(
                    old(cs)@.len(),
                    self.account_depth as nat,
                    self.hash_params,
                    self.batch_size as nat,
                ),
            ),
    {
        let ghost start = cs@.len();
        let ghost depth = self.account_depth as nat;
        let ghost c0 = *cs;
        let mut prev_root = cs.alloc_input(self.old_account_root);
        let ghost c1 = *cs;
        let new_root = cs.alloc_input(self.new_account_root);
        proof {
            Self::lemma_head_layout(seq![c0, c1, *cs], depth, self.hash_params);
        }

        let ghost old_root = option_view(self.old_account_root);
        let mut i: usize = 0;
        assert(self.queue@.take(0) =~= Seq::<OffchainWithdrawalCircuit>::empty());
        assert(cs.inputs() =~= old(cs).inputs() + (self.head_inputs() + Self::items_inputs(
            self.queue@.take(0),
        )));
        while i < self.queue.len()
            invariant
                self.well_shaped(),
                i <= self.queue@.len(),
                cs.adds_inputs(
                    old(cs),
                    Self::chain_holds(self.queue@.take(i as int), self.hash_params, old_root),
                    self.head_inputs() + Self::items_inputs(self.queue@.take(i as int)),
                ),
                num_view(prev_root) == Self::chain_root(
                    self.queue@.take(i as int),
                    self.hash_params,
                    old_root,
                ),
                old_root == option_view(self.old_account_root),
                new_root.value == self.new_account_root,
                cs.owns(prev_root),
                cs.owns(new_root),
                start == old(cs)@.len(),
                depth == self.account_depth,
                c0 == *old(cs),
                cs.lays(
                    &c0,
                    Self::head_layout(start) + Self::items_layout(
                        start,
                        depth,
                        self.hash_params,
                        i as nat,
                    ),
                ),
                cs@.len() == Self::item_start(start, depth, i as nat),
                prev_root.wire() == Self::root_wire(start, depth, i as nat),
                new_root.wire() == wire_at(start + 2, 0),
            decreases self.queue@.len() - i,
        {
            assert(self.queue@[i as int].shaped(self.account_depth));
            let ghost mid = *cs;
            let root = self.queue[i].process(cs, self.account_depth, self.hash_params, &prev_root);
            proof {
                assert(self.queue@.take(i + 1).drop_last() =~= self.queue@.take(i as int));
                assert(self.queue@.take(i + 1).last() == self.queue@[i as int]);
                assert(cs.inputs() =~= old(cs).inputs() + (self.head_inputs() + Self::items_inputs(
                    self.queue@.take(i + 1),
                )));
            }
            proof {
                Self::lemma_item_layout(c0, mid, *cs, depth, self.hash_params, i as nat);
            }
            prev_root = root;
            i += 1;
        }
        assert(self.queue@.take(i as int) =~= self.queue@);

        let ghost c4 = *cs;
        enforce_same(cs, &prev_root, &new_root);
        proof {
            Self::lemma_tail_layout(seq![c0, c4, *cs], depth, self.hash_params, i as nat);
        }
    }
}

/// An item that holds an authentic withdrawal as it was applied to a ledger
/// meets what the circuit asks of it from the ledger's root, and ends in the
/// root of the ledger after the withdrawal.
pub proof fn lemma_offchain_withdrawal_satisfies(
    item: OffchainWithdrawalCircuit,
    params: &HashParams,
    depth: nat,
    ledger: Seq<AccountView>,
    withdrawal: OffchainWithdrawal,
)
    requires
        ledger.len() == two_pow(depth),
        withdrawal.applicable(ledger),
        withdrawal.signed_by(ledger[withdrawal.account_id as int].key, params),
        item.witnesses(params, depth, ledger, withdrawal),
    ensures
        item.constraints_hold(params, Some(AccountsTree::root_of(params, depth, ledger))),
        item.spec_new_root(params) == Some(
            AccountsTree::root_of(params, depth, withdrawal.apply(ledger)),
        ),
{
    let id = withdrawal.account_id as nat;
    let state = item.account_state;
    lemma_recorded_roots(state, params, depth, ledger, id, withdrawal.apply(ledger)[id as int]);
    assert(
        withdrawal.apply(ledger) =~= ledger.update(id as int, withdrawal.apply(ledger)[id as int])
    );
    lemma_word_fits();
    lemma_word_in_field();
    lemma_small_mod(ledger[id as int].balance, fr_modulus());
    assert(state.old_leaf()[0] == key_x(state.old_pubkey));
    assert(state.new_leaf()[0] == key_x(state.new_pubkey));
    assert(state.old_leaf()[1] == key_y(state.old_pubkey));
    assert(state.new_leaf()[1] == key_y(state.new_pubkey));
    assert(item.spec_message_hash(params) == Some(withdrawal.spec_hash(params)));
}

/// The slot number of an item is bound to the slot that the item's path
/// leads to: a batch that meets what the circuit asks does so no more when
/// the slot number of one item is another, with that item's path as it was.
pub proof fn lemma_offchain_withdrawal_slot_number_is_bound(
    circuit: OffchainWithdrawalBatchCircuit,
    changed: OffchainWithdrawalBatchCircuit,
    k: int,
)
    requires
        circuit.constraints_hold(),
        0 <= k < circuit.queue@.len(),
        changed.queue@.len() == circuit.queue@.len(),
        changed.queue@[k].account_state.account_indices@
            == circuit.queue@[k].account_state.account_indices@,
        option_view(changed.queue@[k].account_id) != option_view(circuit.queue@[k].account_id),
    ensures
        !changed.constraints_hold(),
{
    if changed.constraints_hold() {
        OffchainWithdrawalBatchCircuit::lemma_chain_item(
            circuit.queue@,
            circuit.hash_params,
            option_view(circuit.old_account_root),
            k,
        );
        OffchainWithdrawalBatchCircuit::lemma_chain_item(
            changed.queue@,
            changed.hash_params,
            option_view(changed.old_account_root),
            k,
        );
        lemma_bits_fix_value(
            circuit.queue@[k].account_id,
            changed.queue@[k].account_id,
            circuit.queue@[k].account_state.account_indices@,
        );
    }
}

/// The roots of a batch are bound to its items: a batch of at least one item
/// that meets what the circuit asks does so no more when its old root or
/// its new root is another, with its items as they were.
pub proof fn lemma_offchain_withdrawal_roots_are_bound(
    circuit: OffchainWithdrawalBatchCircuit,
    changed: OffchainWithdrawalBatchCircuit,
)
    requires
        circuit.constraints_hold(),
        circuit.queue@.len() > 0,
        changed.queue@ == circuit.queue@,
        changed.hash_params == circuit.hash_params,
        option_view(changed.old_account_root) != option_view(circuit.old_account_root)
            || option_view(changed.new_account_root) != option_view(circuit.new_account_root),
    ensures
        !changed.constraints_hold(),
{
    if changed.constraints_hold() {
        let items = circuit.queue@;
        let params = circuit.hash_params;
        assert(items.take(0) =~= Seq::<OffchainWithdrawalCircuit>::empty());
        OffchainWithdrawalBatchCircuit::lemma_chain_item(
            items,
            params,
            option_view(circuit.old_account_root),
            0,
        );
        OffchainWithdrawalBatchCircuit::lemma_chain_item(
            items,
            params,
            option_view(changed.old_account_root),
            0,
        );
    }
}

/// The amount of an item is bound to the slot's balances: a batch that meets
/// what the circuit asks does so no more when the amount of one item is
/// another, with that item's balances as they were.
pub proof fn lemma_offchain_withdrawal_amount_is_bound(
    circuit: OffchainWithdrawalBatchCircuit,
    changed: OffchainWithdrawalBatchCircuit,
    k: int,
)
    requires
        circuit.constraints_hold(),
        0 <= k < circuit.queue@.len(),
        changed.queue@.len() == circuit.queue@.len(),
        changed.queue@[k].account_state.old_balance == circuit.queue@[k].account_state.old_balance,
        changed.queue@[k].account_state.new_balance == circuit.queue@[k].account_state.new_balance,
        circuit.queue@[k].amount matches Some(amount) && amount@ < fr_modulus(),
        changed.queue@[k].amount matches Some(amount) && amount@ < fr_modulus(),
        option_view(changed.queue@[k].amount) != option_view(circuit.queue@[k].amount),
    ensures
        !changed.constraints_hold(),
{
    if changed.constraints_hold() {
        OffchainWithdrawalBatchCircuit::lemma_chain_item(
            circuit.queue@,
            circuit.hash_params,
            option_view(circuit.old_account_root),
            k,
        );
        OffchainWithdrawalBatchCircuit::lemma_chain_item(
            changed.queue@,
            changed.hash_params,
            option_view(changed.old_account_root),
            k,
        );
        lemma_sum_fixes_summand(
            circuit.queue@[k].account_state.new_balance.unwrap()@,
            circuit.queue@[k].amount.unwrap()@,
            changed.queue@[k].amount.unwrap()@,
        );
    }
}

} // verus!
