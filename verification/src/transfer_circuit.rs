//! The circuit of a batch of transfers.

use crate::account::{
    bits_of, key_x, key_y, known, lemma_decomposes_alike, lemma_recorded_roots, pubkey_layout,
    slot_pubkey_layout, slot_size, ACCOUNT_LEAF_SIZE, AccountCircuit, AccountState,
};
use crate::circuit::{
    allocs, bit_wires, input_layout, num_values, num_view, option_view, wire_at, wires, wires_from,
    AllocatedNum, AllocatedPoint, ConstraintSystem, NUM_BITS, Shape, Wire,
};
use crate::data_structs::sign::spec_signed_bytes;
use crate::data_structs::transfer::Transfer;
use crate::eddsa::{NUM_BYTES_TO_SIGN, PublicKey, Signature, SignParams};
use crate::field::{fr_modulus, lemma_word_fits, lemma_word_in_field, FieldElement};
use crate::hash::HashParams;
use crate::tree::account::{AccountsTree, AccountView};
use crate::tree::merkle_tree::two_pow;
use crate::utils::calc::{
    check_decomposition_le, decomposition_layout, enforce_next, enforce_same, enforce_sum,
    field_sum, next_layout, next_value, same_layout, same_value, sum_layout,
};
use crate::utils::sign::{signature_checks, signature_layout, verify_signature};
use crate::utils::tree::{hash_shape, root_layout, tree_layout, verify_layout, TreeCircuit};
use vstd::arithmetic::div_mod::lemma_small_mod;
use vstd::prelude::*;

verus! {

/// One executed transfer, as its proof needs it.
#[derive(Clone, Debug)]
pub struct TransferCircuit {
    pub account_state_from: AccountState,
    pub account_state_to: AccountState,
    pub account_id_from: Option<FieldElement>,
    pub account_id_to: Option<FieldElement>,
    pub amount: Option<FieldElement>,
    pub nonce: Option<FieldElement>,
    pub sign: Option<Signature>,
    pub pubkey: Option<PublicKey>,
}

impl TransferCircuit {
    /// The item's paths have `depth` levels.
    pub open spec fn shaped(&self, depth: usize) -> bool {
        &&& self.account_state_from.account_path@.len() == depth
        &&& self.account_state_from.account_indices@.len() == depth
        &&& self.account_state_to.account_path@.len() == depth
        &&& self.account_state_to.account_indices@.len() == depth
    }

    /// This item holds `transfer` as it was applied to `ledger`: the sender's
    /// slot in `ledger`, the receiver's slot once the sender has paid, the
    /// transfer's signature and the sender's key.
    pub open spec fn witnesses(
        &self,
        params: &HashParams,
        depth: nat,
        ledger: Seq<AccountView>,
        transfer: Transfer,
    ) -> bool {
        &&& self.account_state_from.records(
            params,
            depth,
            ledger,
            transfer.account_id_from as nat,
            transfer.debit(ledger)[transfer.account_id_from as int],
        )
        &&& self.account_state_to.records(
            params,
            depth,
            transfer.debit(ledger),
            transfer.account_id_to as nat,
            transfer.apply(ledger)[transfer.account_id_to as int],
        )
        &&& known(self.account_id_from, transfer.account_id_from as nat)
        &&& known(self.account_id_to, transfer.account_id_to as nat)
        &&& known(self.amount, transfer.amount as nat)
        &&& known(self.nonce, transfer.nonce as nat)
        &&& self.sign.is_some()
        &&& self.sign == transfer.sign
        &&& self.pubkey matches Some(key) && key@ == ledger[transfer.account_id_from as int].key
    }
}

impl TransferCircuit {
    /// The hash that the item's signature is of, where all that it is
    /// hashed from is known.
    pub open spec fn spec_message_hash(&self, params: &HashParams) -> Option<nat> {
        if self.account_id_from is Some && self.account_id_to is Some && self.amount is Some
            && self.nonce is Some {
            Some(
                params.spec_hash(
                    seq![
                        self.account_id_from.unwrap()@,
                        self.account_id_to.unwrap()@,
                        self.amount.unwrap()@,
                        self.nonce.unwrap()@,
                    ],
                ),
            )
        } else {
            None
        }
    }

    /// The item's signature is given, and so are the key and all that is
    /// signed, and the signature verifies under the key.
    pub open spec fn signature_holds(&self, params: &HashParams) -> bool {
        &&& self.sign is Some
        &&& self.pubkey is Some
        &&& self.spec_message_hash(params) is Some
        &&& self.sign.unwrap().verifies(
            self.pubkey.unwrap()@,
            spec_signed_bytes(self.spec_message_hash(params).unwrap()),
        )
    }

    /// What the circuit asks of this item when it starts from the root
    /// `old_root`: the signature verifies under the key; the key is the
    /// sender's before and after; each slot's index bits are the bits of its
    /// number; the sender's old balance is its new one and the amount, the
    /// receiver's new balance is its old one and the amount, and both new
    /// balances fit the machine word; the transfer's nonce and the sender's
    /// new nonce are the sender's old nonce and one; the receiver's key and
    /// nonce stay; the sender's slot as it was leads to `old_root`, and the
    /// receiver's slot as it was leads to the root that the sender's new slot
    /// leads to.
    pub open spec fn constraints_hold(&self, params: &HashParams, old_root: Option<nat>) -> bool {
        let from = self.account_state_from;
        let to = self.account_state_to;
        &&& self.signature_holds(params)
        &&& Self::key_stays(self.pubkey, &from)
        &&& bits_of(self.account_id_from, from.account_indices@)
        &&& bits_of(self.account_id_to, to.account_indices@)
        &&& field_sum(from.old_balance, from.new_balance, self.amount)
        &&& field_sum(to.new_balance, to.old_balance, self.amount)
        &&& from.new_balance.unwrap()@ < two_pow(usize::BITS as nat)
        &&& to.new_balance.unwrap()@ < two_pow(usize::BITS as nat)
        &&& next_value(from.old_nonce, self.nonce)
        &&& next_value(from.old_nonce, from.new_nonce)
        &&& same_value(to.old_nonce, to.new_nonce)
        &&& same_value(to.old_leaf()[0], to.new_leaf()[0])
        &&& same_value(to.old_leaf()[1], to.new_leaf()[1])
        &&& from.root_known(from.old_leaf())
        &&& old_root == Some(from.root_from(params, from.old_leaf()))
        &&& from.root_known(from.new_leaf())
        &&& to.root_known(to.old_leaf())
        &&& to.root_from(params, to.old_leaf()) == from.root_from(params, from.new_leaf())
    }

    /// The root that this item ends in, where all that leads to it is known.
    pub open spec fn spec_new_root(&self, params: &HashParams) -> Option<nat> {
        let to = self.account_state_to;
        if to.root_known(to.new_leaf()) {
            Some(to.root_from(params, to.new_leaf()))
        } else {
            None
        }
    }

    /// The values that the second phase of the layout constrains meet what
    /// it asks of them: the balances, the nonces and the receiver's key.
    pub open spec fn amounts_hold(
        from: &TreeCircuit,
        to: &TreeCircuit,
        amount: AllocatedNum,
        nonce: AllocatedNum,
    ) -> bool {
        &&& field_sum(from.old_leaf_alloc@[3].value, from.new_leaf_alloc@[3].value, amount.value)
        &&& field_sum(to.new_leaf_alloc@[3].value, to.old_leaf_alloc@[3].value, amount.value)
        &&& from.new_leaf_alloc@[3].spec_value() < two_pow(usize::BITS as nat)
        &&& to.new_leaf_alloc@[3].spec_value() < two_pow(usize::BITS as nat)
        &&& next_value(from.old_leaf_alloc@[2].value, nonce.value)
        &&& next_value(from.old_leaf_alloc@[2].value, from.new_leaf_alloc@[2].value)
        &&& same_value(to.old_leaf_alloc@[2].value, to.new_leaf_alloc@[2].value)
        &&& same_value(to.old_leaf_alloc@[0].value, to.new_leaf_alloc@[0].value)
        &&& same_value(to.old_leaf_alloc@[1].value, to.new_leaf_alloc@[1].value)
    }

    /// Asks of the balances, the nonces and the receiver's key what a
    /// transfer asks of them.
    fn check_amounts(
        cs: &mut ConstraintSystem,
        tree_from: &TreeCircuit,
        tree_to: &TreeCircuit,
        amount_alloc: &AllocatedNum,
        nonce_alloc: &AllocatedNum,
    )
        requires
            tree_from.old_leaf_alloc@.len() == 4,
            tree_from.new_leaf_alloc@.len() == 4,
            tree_to.old_leaf_alloc@.len() == 4,
            tree_to.new_leaf_alloc@.len() == 4,
            tree_from.owned_by(old(cs)),
            tree_to.owned_by(old(cs)),
            old(cs).owns(*amount_alloc),
            old(cs).owns(*nonce_alloc),
        ensures
            final(cs).adds(
                old(cs),
                Self::amounts_hold(tree_from, tree_to, *amount_alloc, *nonce_alloc),
            ),
            final(cs).lays(
                old(cs),
                amounts_layout(
                    wires(tree_from.old_leaf_alloc@),
                    wires(tree_from.new_leaf_alloc@),
                    wires(tree_to.old_leaf_alloc@),
                    wires(tree_to.new_leaf_alloc@),
                    amount_alloc.wire(),
                    nonce_alloc.wire(),
                ),
            ),
            final(cs)@.len() == old(cs)@.len() + 9,
    {
        let ghost c0 = *cs;
        enforce_sum(cs, &tree_from.old_leaf_alloc[3], &tree_from.new_leaf_alloc[3], amount_alloc);
        let ghost c1 = *cs;
        enforce_sum(cs, &tree_to.new_leaf_alloc[3], &tree_to.old_leaf_alloc[3], amount_alloc);
        let ghost c2 = *cs;

        cs.limit_number_of_bits(&tree_from.new_leaf_alloc[3], usize::BITS as usize);
        let ghost c3 = *cs;
        cs.limit_number_of_bits(&tree_to.new_leaf_alloc[3], usize::BITS as usize);
        let ghost c4 = *cs;

        enforce_next(cs, &tree_from.old_leaf_alloc[2], nonce_alloc);
        let ghost c5 = *cs;
        enforce_next(cs, &tree_from.old_leaf_alloc[2], &tree_from.new_leaf_alloc[2]);
        let ghost c6 = *cs;

        enforce_same(cs, &tree_to.old_leaf_alloc[2], &tree_to.new_leaf_alloc[2]);
        let ghost c7 = *cs;
        enforce_same(cs, &tree_to.old_leaf_alloc[0], &tree_to.new_leaf_alloc[0]);
        let ghost c8 = *cs;
        enforce_same(cs, &tree_to.old_leaf_alloc[1], &tree_to.new_leaf_alloc[1]);
        proof {
            lemma_amounts_layout(
                seq![c0, c1, c2, c3, c4, c5, c6, c7, c8, *cs],
                wires(tree_from.old_leaf_alloc@),
                wires(tree_from.new_leaf_alloc@),
                wires(tree_to.old_leaf_alloc@),
                wires(tree_to.new_leaf_alloc@),
                amount_alloc.wire(),
                nonce_alloc.wire(),
            );
        }
    }

    /// The sender's slot as it was leads to `old_root`, and the receiver's
    /// slot as it was leads to the root that the sender's new slot leads to.
    pub open spec fn roots_hold(
        from: &TreeCircuit,
        to: &TreeCircuit,
        old_root: AllocatedNum,
    ) -> bool {
        &&& from.old_root_known()
        &&& old_root.value.is_some()
        &&& from.spec_old_root() == old_root.spec_value()
        &&& from.new_root_known()
        &&& to.old_root_known()
        &&& to.spec_old_root() == from.spec_new_root()
    }

    /// Asks that the two slots lead from `old_root` to the root that is
    /// given back.
    fn chain_roots(
        cs: &mut ConstraintSystem,
        tree_from: &TreeCircuit,
        tree_to: &TreeCircuit,
        old_root: &AllocatedNum,
    ) -> (new_root: AllocatedNum)
        requires
            tree_from.owned_by(old(cs)),
            tree_to.owned_by(old(cs)),
            old(cs).owns(*old_root),
        ensures
            final(cs).owns(new_root),
            final(cs).adds(old(cs), Self::roots_hold(tree_from, tree_to, *old_root)),
            final(cs).lays(
                old(cs),
                chain_layout(old(cs)@.len(), tree_from, tree_to, old_root.wire()),
            ),
            final(cs)@.len() == old(cs)@.len() + 4 * tree_from.spec_levels() + 4
                * tree_to.spec_levels() + 6,
            new_root.wire() == wire_at(
                old(cs)@.len() + 4 * tree_from.spec_levels() + 4 * tree_to.spec_levels() + 5,
                0,
            ),
            new_root.value.is_some() == tree_to.new_root_known(),
            tree_to.new_root_known() ==> new_root.spec_value() == tree_to.spec_new_root(),
    {
        let ghost c0 = *cs;
        tree_from.verify_old_root(cs, old_root);
        let ghost c1 = *cs;
        let root = tree_from.calc_new_root(cs);
        let ghost c2 = *cs;
        tree_to.verify_old_root(cs, &root);
        let ghost c3 = *cs;
        let new_root = tree_to.calc_new_root(cs);
        proof {
            lemma_chain_layout(seq![c0, c1, c2, c3, *cs], tree_from, tree_to, *old_root, root);
        }
        new_root
    }

    /// Lays out the hash that is signed and the signature, and asks that the
    /// signature verify.
    fn check_signature(
        &self,
        cs: &mut ConstraintSystem,
        hash_params: &HashParams,
        account_id_alloc_from: &AllocatedNum,
        account_id_alloc_to: &AllocatedNum,
        amount_alloc: &AllocatedNum,
        nonce_alloc: &AllocatedNum,
    ) -> (sig: AllocatedPoint)
        requires
            account_id_alloc_from.value == self.account_id_from,
            account_id_alloc_to.value == self.account_id_to,
            amount_alloc.value == self.amount,
            nonce_alloc.value == self.nonce,
            old(cs).owns(*account_id_alloc_from),
            old(cs).owns(*account_id_alloc_to),
            old(cs).owns(*amount_alloc),
            old(cs).owns(*nonce_alloc),
        ensures
            final(cs).owns(sig.x),
            final(cs).owns(sig.y),
            final(cs).adds(old(cs), self.signature_holds(hash_params)),
            final(cs).lays(
                old(cs),
                request_layout(
                    old(cs)@.len(),
                    hash_params,
                    seq![
                        account_id_alloc_from.wire(),
                        account_id_alloc_to.wire(),
                        amount_alloc.wire(),
                        nonce_alloc.wire(),
                    ],
                ),
            ),
            final(cs)@.len() == old(cs)@.len() + 5,
            sig.x.wire() == wire_at(old(cs)@.len() + 3, 0),
            sig.y.wire() == wire_at(old(cs)@.len() + 3, 1),
            sig.x.value == key_x(self.pubkey),
            sig.y.value == key_y(self.pubkey),
    {
        let ghost c0 = *cs;
        let mut request: Vec<AllocatedNum> = Vec::new();
        request.push(*account_id_alloc_from);
        request.push(*account_id_alloc_to);
        request.push(*amount_alloc);
        request.push(*nonce_alloc);
        assert(cs.owns_all(request@)) by {
            assert(request@[0] == *account_id_alloc_from);
            assert(request@[1] == *account_id_alloc_to);
            assert(request@[2] == *amount_alloc);
            assert(request@[3] == *nonce_alloc);
        }
        let transfer_hash = cs.poseidon_hash(&request, hash_params);
        let ghost c1 = *cs;
        proof {
            assert(wires(request@) =~= seq![
                account_id_alloc_from.wire(),
                account_id_alloc_to.wire(),
                amount_alloc.wire(),
                nonce_alloc.wire(),
            ]);
            if self.account_id_from is Some && self.account_id_to is Some && self.amount is Some
                && self.nonce is Some {
                assert forall|j: int| 0 <= j < request@.len() implies
                    (#[trigger] request@[j]).value.is_some() by {}
                assert(num_values(request@) =~= seq![
                    self.account_id_from.unwrap()@,
                    self.account_id_to.unwrap()@,
                    self.amount.unwrap()@,
                    self.nonce.unwrap()@,
                ]);
            } else {
                assert(request@[0] == *account_id_alloc_from);
                assert(request@[1] == *account_id_alloc_to);
                assert(request@[2] == *amount_alloc);
                assert(request@[3] == *nonce_alloc);
            }
            assert(signature_checks(self.sign, self.pubkey, transfer_hash, NUM_BYTES_TO_SIGN)
                == self.signature_holds(hash_params));
        }
        let sign_alloc = verify_signature(
            cs,
            self.sign,
            self.pubkey,
            &transfer_hash,
            NUM_BYTES_TO_SIGN,
        );
        proof {
            cs.lemma_lays_more(
                &c1,
                &c0,
                seq![hash_shape(hash_params, wires(request@))],
                signature_layout(c0@.len() + 1, wire_at(c0@.len(), 0), NUM_BYTES_TO_SIGN),
            );
        }
        sign_alloc.pk
    }

    /// The steps of an item's layout from place `start` on, after the root
    /// that the given place holds: the numbers and bits of the sender's slot
    /// and of the receiver's; the transfer's two slot numbers, amount and
    /// nonce; the hash that is signed, the signature and its check; the
    /// steps that ask the signer's key to be the sender's, each slot number
    /// to be the sum of its path's bits, and of balances, nonces and the
    /// receiver's key what a transfer asks; and the roots from the sender's
    /// slot to the receiver's.
    pub open spec fn layout(start: nat, depth: nat, params: &HashParams, old_root: Wire) -> Seq<
        Shape,
    > {
        let to = start + slot_size(depth);
        let own = to + slot_size(depth);
        tree_layout(4, depth) + tree_layout(4, depth) + allocs(4) + request_layout(
            own + 4,
            params,
            seq![wire_at(own, 0), wire_at(own + 1, 0), wire_at(own + 2, 0), wire_at(own + 3, 0)],
        ) + slot_pubkey_layout(start, wire_at(own + 7, 0), wire_at(own + 7, 1))
            + decomposition_layout(own + 13, wire_at(own, 0), wires_from(start + 8 + depth, depth))
            + decomposition_layout(
            own + depth + 15,
            wire_at(own + 1, 0),
            wires_from(to + 8 + depth, depth),
        ) + slot_amounts_layout(start, to, wire_at(own + 2, 0), wire_at(own + 3, 0))
            + slot_chain_layout(own + 2 * depth + 26, params, start, to, depth, old_root)
    }

    /// The number of steps of an item's layout.
    pub open spec fn size(depth: nat) -> nat {
        14 * depth + 48
    }

    /// What is laid out piece by piece, each piece after the one before, is
    /// the item's layout.
    proof fn lemma_layout(
        laid: Seq<ConstraintSystem>,
        from: AccountCircuit,
        to: AccountCircuit,
        depth: nat,
        params: &HashParams,
        old_root: AllocatedNum,
        own: Seq<AllocatedNum>,
        key: AllocatedPoint,
        new_root: AllocatedNum,
    )
        requires
            laid.len() == 13,
            own.len() == 4,
            from.accounts_tree.params == params,
            from.accounts_tree.laid_at(laid[0]@.len(), ACCOUNT_LEAF_SIZE as nat, depth),
            from.accounts_tree.path_alloc@.len() == depth,
            from.accounts_tree.indices_alloc@.len() == depth,
            to.accounts_tree.params == params,
            to.accounts_tree.laid_at(laid[1]@.len(), ACCOUNT_LEAF_SIZE as nat, depth),
            to.accounts_tree.path_alloc@.len() == depth,
            to.accounts_tree.indices_alloc@.len() == depth,
            laid[1].lays(&laid[0], tree_layout(ACCOUNT_LEAF_SIZE as nat, depth)),
            laid[1]@.len() == laid[0]@.len() + slot_size(depth),
            laid[2].lays(&laid[1], tree_layout(ACCOUNT_LEAF_SIZE as nat, depth)),
            laid[2]@.len() == laid[1]@.len() + slot_size(depth),
            laid[3].lays(&laid[2], seq![Shape::Alloc]),
            laid[3]@.len() == laid[2]@.len() + 1,
            own[0].source == laid[2]@.len() && own[0].slot == 0,
            laid[4].lays(&laid[3], seq![Shape::Alloc]),
            laid[4]@.len() == laid[3]@.len() + 1,
            own[1].source == laid[3]@.len() && own[1].slot == 0,
            laid[5].lays(&laid[4], seq![Shape::Alloc]),
            laid[5]@.len() == laid[4]@.len() + 1,
            own[2].source == laid[4]@.len() && own[2].slot == 0,
            laid[6].lays(&laid[5], seq![Shape::Alloc]),
            laid[6]@.len() == laid[5]@.len() + 1,
            own[3].source == laid[5]@.len() && own[3].slot == 0,
            laid[7].lays(
                &laid[6],
                request_layout(
                    laid[6]@.len(),
                    params,
                    seq![own[0].wire(), own[1].wire(), own[2].wire(), own[3].wire()],
                ),
            ),
            laid[7]@.len() == laid[6]@.len() + 5,
            key.x.wire() == wire_at(laid[6]@.len() + 3, 0),
            key.y.wire() == wire_at(laid[6]@.len() + 3, 1),
            laid[8].lays(
                &laid[7],
                pubkey_layout(
                    key.x.wire(),
                    key.y.wire(),
                    wires(from.accounts_tree.old_leaf_alloc@),
                    wires(from.accounts_tree.new_leaf_alloc@),
                ),
            ),
            laid[8]@.len() == laid[7]@.len() + 4,
            laid[9].lays(
                &laid[8],
                decomposition_layout(
                    laid[8]@.len(),
                    own[0].wire(),
                    bit_wires(from.accounts_tree.indices_alloc@),
                ),
            ),
            laid[9]@.len() == laid[8]@.len() + depth + 2,
            laid[10].lays(
                &laid[9],
                decomposition_layout(
                    laid[9]@.len(),
                    own[1].wire(),
                    bit_wires(to.accounts_tree.indices_alloc@),
                ),
            ),
            laid[10]@.len() == laid[9]@.len() + depth + 2,
            laid[11].lays(
                &laid[10],
                amounts_layout(
                    wires(from.accounts_tree.old_leaf_alloc@),
                    wires(from.accounts_tree.new_leaf_alloc@),
                    wires(to.accounts_tree.old_leaf_alloc@),
                    wires(to.accounts_tree.new_leaf_alloc@),
                    own[2].wire(),
                    own[3].wire(),
                ),
            ),
            laid[11]@.len() == laid[10]@.len() + 9,
            laid[12].lays(
                &laid[11],
                chain_layout(
                    laid[11]@.len(),
                    &from.accounts_tree,
                    &to.accounts_tree,
                    old_root.wire(),
                ),
            ),
            laid[12]@.len() == laid[11]@.len() + 4 * from.accounts_tree.spec_levels() + 4
                * to.accounts_tree.spec_levels() + 6,
            new_root.wire() == wire_at(
                laid[11]@.len() + 4 * from.accounts_tree.spec_levels() + 4
                    * to.accounts_tree.spec_levels() + 5,
                0,
            ),
        ensures
            laid[12].lays(&laid[0], Self::layout(laid[0]@.len(), depth, params, old_root.wire())),
            laid[12]@.len() == laid[0]@.len() + Self::size(depth),
            new_root.wire() == wire_at(laid[0]@.len() + 14 * depth + 47, 0),
    {
        reveal(TreeCircuit::laid_at);
        let start = laid[0]@.len();
        let other = start + slot_size(depth);
        let first = other + slot_size(depth);
        let slot = tree_layout(4, depth);
        laid[2].lemma_lays_more(&laid[1], &laid[0], slot, slot);
        let made = seq![Shape::Alloc];
        laid[4].lemma_lays_more(&laid[3], &laid[2], made, made);
        laid[5].lemma_lays_more(&laid[4], &laid[2], made + made, made);
        laid[6].lemma_lays_more(&laid[5], &laid[2], made + made + made, made);
        assert(made + made + made + made =~= allocs(4));
        let l3 = slot + slot + allocs(4);
        laid[6].lemma_lays_more(&laid[2], &laid[0], slot + slot, allocs(4));
        let request = request_layout(
            first + 4,
            params,
            seq![
                wire_at(first, 0),
                wire_at(first + 1, 0),
                wire_at(first + 2, 0),
                wire_at(first + 3, 0),
            ],
        );
        let l4 = l3 + request;
        laid[7].lemma_lays_more(&laid[6], &laid[0], l3, request);
        let keyed = slot_pubkey_layout(start, wire_at(first + 7, 0), wire_at(first + 7, 1));
        let l5 = l4 + keyed;
        laid[8].lemma_lays_more(&laid[7], &laid[0], l4, keyed);
        let asked_from = decomposition_layout(
            first + 13,
            wire_at(first, 0),
            wires_from(start + 8 + depth, depth),
        );
        let l6 = l5 + asked_from;
        laid[9].lemma_lays_more(&laid[8], &laid[0], l5, asked_from);
        let asked_to = decomposition_layout(
            first + depth + 15,
            wire_at(first + 1, 0),
            wires_from(other + 8 + depth, depth),
        );
        let l7 = l6 + asked_to;
        laid[10].lemma_lays_more(&laid[9], &laid[0], l6, asked_to);
        let moved = slot_amounts_layout(start, other, wire_at(first + 2, 0), wire_at(first + 3, 0));
        let l8 = l7 + moved;
        laid[11].lemma_lays_more(&laid[10], &laid[0], l7, moved);
        let chained = slot_chain_layout(
            first + 2 * depth + 26,
            params,
            start,
            other,
            depth,
            old_root.wire(),
        );
        laid[12].lemma_lays_more(&laid[11], &laid[0], l8, chained);
    }

    /// Lays out this item after the root `old_root`, and gives the root
    /// after it.
    #[verifier::rlimit(30)]
    pub fn process(
        &self,
        cs: &mut ConstraintSystem,
        account_depth: usize,
        hash_params: &HashParams,
        old_root: &AllocatedNum,
    ) -> (new_root: AllocatedNum)
        requires
            self.shaped(account_depth),
            account_depth <= NUM_BITS,
            old(cs).owns(*old_root),
        ensures
            final(cs).owns(new_root),
            final(cs).adds(old(cs), self.constraints_hold(hash_params, num_view(*old_root))),
            final(cs).lays(
                old(cs),
                Self::layout(old(cs)@.len(), account_depth as nat, hash_params, old_root.wire()),
            ),
            final(cs)@.len() == old(cs)@.len() + Self::size(account_depth as nat),
            new_root.wire() == wire_at((old(cs)@.len() + 14 * account_depth + 47) as nat, 0),
            num_view(new_root) == self.spec_new_root(hash_params),
    {
        let ghost c0 = *cs;
        let account_circuit_from = AccountCircuit::new(
            cs,
            account_depth,
            hash_params,
            &self.account_state_from,
        );
        let ghost c1 = *cs;
        let account_circuit_to = AccountCircuit::new(
            cs,
            account_depth,
            hash_params,
            &self.account_state_to,
        );
        let ghost c2 = *cs;
        let tree_from = &account_circuit_from.accounts_tree;
        let tree_to = &account_circuit_to.accounts_tree;

        let account_id_alloc_from = cs.alloc_num(self.account_id_from);
        let ghost c3 = *cs;
        let account_id_alloc_to = cs.alloc_num(self.account_id_to);
        let ghost c4 = *cs;
        let amount_alloc = cs.alloc_num(self.amount);
        let ghost c5 = *cs;
        let nonce_alloc = cs.alloc_num(self.nonce);
        let ghost c6 = *cs;

        let pk = self.check_signature(
            cs,
            hash_params,
            &account_id_alloc_from,
            &account_id_alloc_to,
            &amount_alloc,
            &nonce_alloc,
        );
        let ghost c7 = *cs;

        Self::check_pubkey(cs, &pk, &account_circuit_from);
        let ghost c8 = *cs;

        check_decomposition_le(cs, &account_id_alloc_from, &tree_from.indices_alloc);
        let ghost c9 = *cs;
        check_decomposition_le(cs, &account_id_alloc_to, &tree_to.indices_alloc);
        let ghost c10 = *cs;
        proof {
            lemma_decomposes_alike(
                account_id_alloc_from,
                tree_from.indices_alloc@,
                self.account_state_from.account_indices@,
            );
            lemma_decomposes_alike(
                account_id_alloc_to,
                tree_to.indices_alloc@,
                self.account_state_to.account_indices@,
            );
        }

        Self::check_amounts(cs, tree_from, tree_to, &amount_alloc, &nonce_alloc);
        let ghost c11 = *cs;
        let new_root = Self::chain_roots(cs, tree_from, tree_to, old_root);
        proof {
            Self::lemma_layout(
                seq![c0, c1, c2, c3, c4, c5, c6, c7, c8, c9, c10, c11, *cs],
                account_circuit_from,
                account_circuit_to,
                account_depth as nat,
                hash_params,
                *old_root,
                seq![account_id_alloc_from, account_id_alloc_to, amount_alloc, nonce_alloc],
                pk,
                new_root,
            );
        }
        proof {
            let from = self.account_state_from;
            let to = self.account_state_to;
            assert(Self::key_matches(pk, &account_circuit_from) == Self::key_stays(
                self.pubkey,
                &from,
            ));
            assert(Self::amounts_hold(tree_from, tree_to, amount_alloc, nonce_alloc) == {
                &&& field_sum(from.old_balance, from.new_balance, self.amount)
                &&& field_sum(to.new_balance, to.old_balance, self.amount)
                &&& from.new_balance.unwrap()@ < two_pow(usize::BITS as nat)
                &&& to.new_balance.unwrap()@ < two_pow(usize::BITS as nat)
                &&& next_value(from.old_nonce, self.nonce)
                &&& next_value(from.old_nonce, from.new_nonce)
                &&& same_value(to.old_nonce, to.new_nonce)
                &&& same_value(to.old_leaf()[0], to.new_leaf()[0])
                &&& same_value(to.old_leaf()[1], to.new_leaf()[1])
            });
            assert(Self::roots_hold(tree_from, tree_to, *old_root) == {
                &&& from.root_known(from.old_leaf())
                &&& num_view(*old_root) == Some(from.root_from(hash_params, from.old_leaf()))
                &&& from.root_known(from.new_leaf())
                &&& to.root_known(to.old_leaf())
                &&& to.root_from(hash_params, to.old_leaf()) == from.root_from(
                    hash_params,
                    from.new_leaf(),
                )
            });
        }
        new_root
    }

    /// The key is the key of the slot before and after.
    pub open spec fn key_stays(pubkey: Option<PublicKey>, state: &AccountState) -> bool {
        &&& same_value(key_x(pubkey), state.old_leaf()[0])
        &&& same_value(key_x(pubkey), state.new_leaf()[0])
        &&& same_value(key_y(pubkey), state.old_leaf()[1])
        &&& same_value(key_y(pubkey), state.new_leaf()[1])
    }

    /// The point's coordinates are the first two values of the slot before
    /// and after.
    pub open spec fn key_matches(pubkey: AllocatedPoint, account_circuit: &AccountCircuit) -> bool {
        let tree = account_circuit.accounts_tree;
        &&& same_value(pubkey.x.value, tree.old_leaf_alloc@[0].value)
        &&& same_value(pubkey.x.value, tree.new_leaf_alloc@[0].value)
        &&& same_value(pubkey.y.value, tree.old_leaf_alloc@[1].value)
        &&& same_value(pubkey.y.value, tree.new_leaf_alloc@[1].value)
    }

    /// Asks that a key be the key of a slot before and after.
    pub fn check_pubkey(
        cs: &mut ConstraintSystem,
        pubkey: &AllocatedPoint,
        account_circuit: &AccountCircuit,
    )
        requires
            account_circuit.accounts_tree.old_leaf_alloc@.len() == 4,
            account_circuit.accounts_tree.new_leaf_alloc@.len() == 4,
            account_circuit.accounts_tree.owned_by(old(cs)),
            old(cs).owns(pubkey.x),
            old(cs).owns(pubkey.y),
        ensures
            final(cs).adds(old(cs), Self::key_matches(*pubkey, account_circuit)),
            final(cs).lays(
                old(cs),
                pubkey_layout(
                    pubkey.x.wire(),
                    pubkey.y.wire(),
                    wires(account_circuit.accounts_tree.old_leaf_alloc@),
                    wires(account_circuit.accounts_tree.new_leaf_alloc@),
                ),
            ),
            final(cs)@.len() == old(cs)@.len() + 4,
    {
        let tree = &account_circuit.accounts_tree;
        let ghost c0 = *cs;
        enforce_same(cs, &pubkey.x, &tree.old_leaf_alloc[0]);
        let ghost c1 = *cs;
        enforce_same(cs, &pubkey.x, &tree.new_leaf_alloc[0]);
        let ghost c2 = *cs;
        enforce_same(cs, &pubkey.y, &tree.old_leaf_alloc[1]);
        let ghost c3 = *cs;
        enforce_same(cs, &pubkey.y, &tree.new_leaf_alloc[1]);
        proof {
            let (x, y) = (pubkey.x.wire(), pubkey.y.wire());
            let (before, after) = (wires(tree.old_leaf_alloc@), wires(tree.new_leaf_alloc@));
            let l1 = same_layout(x, before[0]);
            let l2 = l1 + same_layout(x, after[0]);
            c2.lemma_lays_more(&c1, &c0, l1, same_layout(x, after[0]));
            let l3 = l2 + same_layout(y, before[1]);
            c3.lemma_lays_more(&c2, &c0, l2, same_layout(y, before[1]));
            cs.lemma_lays_more(&c3, &c0, l3, same_layout(y, after[1]));
        }
    }
}

/// The steps, from place `start` on, that hash a transfer's request and
/// check its signature: the hash of the given numbers, and the signature
/// with its check.
pub open spec fn request_layout(start: nat, params: &HashParams, request: Seq<Wire>) -> Seq<Shape> {
    seq![hash_shape(params, request)] + signature_layout(
        start + 1,
        wire_at(start, 0),
        NUM_BYTES_TO_SIGN,
    )
}

/// The steps that ask of the balances, the nonces and the receiver's key
/// what a transfer asks of them.
pub open spec fn amounts_layout(
    from_old: Seq<Wire>,
    from_new: Seq<Wire>,
    to_old: Seq<Wire>,
    to_new: Seq<Wire>,
    amount: Wire,
    nonce: Wire,
) -> Seq<Shape> {
    sum_layout(from_old[3], from_new[3], amount) + sum_layout(to_new[3], to_old[3], amount) + seq![
        Shape::LimitBits { num: from_new[3], bits: usize::BITS as usize },
    ] + seq![Shape::LimitBits { num: to_new[3], bits: usize::BITS as usize }] + next_layout(
        from_old[2],
        nonce,
    ) + next_layout(from_old[2], from_new[2]) + same_layout(to_old[2], to_new[2]) + same_layout(
        to_old[0],
        to_new[0],
    ) + same_layout(to_old[1], to_new[1])
}

/// The steps, from place `start` on, that lead from the sender's slot to
/// the receiver's: they ask the sender's slot as it was to lead to a root,
/// lead from the sender's new slot to its root, ask the receiver's slot as
/// it was to lead to that root, and lead from the receiver's new slot to
/// its root.
pub open spec fn chain_layout(
    start: nat,
    from: &TreeCircuit,
    to: &TreeCircuit,
    old_root: Wire,
) -> Seq<Shape> {
    let levels_from = from.spec_levels();
    let levels_to = to.spec_levels();
    verify_layout(
        start,
        from.params,
        wires(from.old_leaf_alloc@),
        wires(from.path_alloc@),
        bit_wires(from.indices_alloc@),
        old_root,
    ) + root_layout(
        start + 2 * levels_from + 2,
        from.params,
        wires(from.new_leaf_alloc@),
        wires(from.path_alloc@),
        bit_wires(from.indices_alloc@),
    ) + verify_layout(
        start + 4 * levels_from + 3,
        to.params,
        wires(to.old_leaf_alloc@),
        wires(to.path_alloc@),
        bit_wires(to.indices_alloc@),
        wire_at(start + 4 * levels_from + 2, 0),
    ) + root_layout(
        start + 4 * levels_from + 2 * levels_to + 5,
        to.params,
        wires(to.new_leaf_alloc@),
        wires(to.path_alloc@),
        bit_wires(to.indices_alloc@),
    )
}

/// The steps of `amounts_layout` for the two slots whose numbers the steps
/// from the ones in places `from` and `to` on make.
pub open spec fn slot_amounts_layout(from: nat, to: nat, amount: Wire, nonce: Wire) -> Seq<Shape> {
    let leaf = ACCOUNT_LEAF_SIZE as nat;
    amounts_layout(
        wires_from(from, leaf),
        wires_from(from + leaf, leaf),
        wires_from(to, leaf),
        wires_from(to + leaf, leaf),
        amount,
        nonce,
    )
}

/// The steps of `chain_layout`, from place `start` on, for the two slots of
/// a tree of the given depth whose numbers and bits the steps from the ones
/// in places `from` and `to` on make.
pub open spec fn slot_chain_layout(
    start: nat,
    params: &HashParams,
    from: nat,
    to: nat,
    depth: nat,
    old_root: Wire,
) -> Seq<Shape> {
    let leaf = ACCOUNT_LEAF_SIZE as nat;
    verify_layout(
        start,
        params,
        wires_from(from, leaf),
        wires_from(from + 2 * leaf, depth),
        wires_from(from + 2 * leaf + depth, depth),
        old_root,
    ) + root_layout(
        start + 2 * depth + 2,
        params,
        wires_from(from + leaf, leaf),
        wires_from(from + 2 * leaf, depth),
        wires_from(from + 2 * leaf + depth, depth),
    ) + verify_layout(
        start + 4 * depth + 3,
        params,
        wires_from(to, leaf),
        wires_from(to + 2 * leaf, depth),
        wires_from(to + 2 * leaf + depth, depth),
        wire_at(start + 4 * depth + 2, 0),
    ) + root_layout(
        start + 6 * depth + 5,
        params,
        wires_from(to + leaf, leaf),
        wires_from(to + 2 * leaf, depth),
        wires_from(to + 2 * leaf + depth, depth),
    )
}

/// The nine steps of `check_amounts`, one after the other, are its layout.
proof fn lemma_amounts_layout(
    laid: Seq<ConstraintSystem>,
    from_old: Seq<Wire>,
    from_new: Seq<Wire>,
    to_old: Seq<Wire>,
    to_new: Seq<Wire>,
    amount: Wire,
    nonce: Wire,
)
    requires
        laid.len() == 10,
        laid[1].lays(&laid[0], sum_layout(from_old[3], from_new[3], amount)),
        laid[2].lays(&laid[1], sum_layout(to_new[3], to_old[3], amount)),
        laid[3].lays(
            &laid[2],
            seq![Shape::LimitBits { num: from_new[3], bits: usize::BITS as usize }],
        ),
        laid[4].lays(
            &laid[3],
            seq![Shape::LimitBits { num: to_new[3], bits: usize::BITS as usize }],
        ),
        laid[5].lays(&laid[4], next_layout(from_old[2], nonce)),
        laid[6].lays(&laid[5], next_layout(from_old[2], from_new[2])),
        laid[7].lays(&laid[6], same_layout(to_old[2], to_new[2])),
        laid[8].lays(&laid[7], same_layout(to_old[0], to_new[0])),
        laid[9].lays(&laid[8], same_layout(to_old[1], to_new[1])),
    ensures
        laid[9].lays(
            &laid[0],
            amounts_layout(from_old, from_new, to_old, to_new, amount, nonce),
        ),
{
    let limit_from = seq![Shape::LimitBits { num: from_new[3], bits: usize::BITS as usize }];
    let limit_to = seq![Shape::LimitBits { num: to_new[3], bits: usize::BITS as usize }];
    let debit = sum_layout(from_old[3], from_new[3], amount);
    let two = debit + sum_layout(to_new[3], to_old[3], amount);
    laid[2].lemma_lays_more(&laid[1], &laid[0], debit, sum_layout(to_new[3], to_old[3], amount));
    let three = two + limit_from;
    laid[3].lemma_lays_more(&laid[2], &laid[0], two, limit_from);
    let four = three + limit_to;
    laid[4].lemma_lays_more(&laid[3], &laid[0], three, limit_to);
    let five = four + next_layout(from_old[2], nonce);
    laid[5].lemma_lays_more(&laid[4], &laid[0], four, next_layout(from_old[2], nonce));
    let six = five + next_layout(from_old[2], from_new[2]);
    laid[6].lemma_lays_more(&laid[5], &laid[0], five, next_layout(from_old[2], from_new[2]));
    let seven = six + same_layout(to_old[2], to_new[2]);
    laid[7].lemma_lays_more(&laid[6], &laid[0], six, same_layout(to_old[2], to_new[2]));
    let eight = seven + same_layout(to_old[0], to_new[0]);
    laid[8].lemma_lays_more(&laid[7], &laid[0], seven, same_layout(to_old[0], to_new[0]));
    laid[9].lemma_lays_more(&laid[8], &laid[0], eight, same_layout(to_old[1], to_new[1]));
}

/// The four steps of `chain_roots`, one after the other, are its layout.
proof fn lemma_chain_layout(
    laid: Seq<ConstraintSystem>,
    from: &TreeCircuit,
    to: &TreeCircuit,
    old_root: AllocatedNum,
    mid_root: AllocatedNum,
)
    requires
        laid.len() == 5,
        laid[1].lays(
            &laid[0],
            verify_layout(
                laid[0]@.len(),
                from.params,
                wires(from.old_leaf_alloc@),
                wires(from.path_alloc@),
                bit_wires(from.indices_alloc@),
                old_root.wire(),
            ),
        ),
        laid[1]@.len() == laid[0]@.len() + 2 * from.spec_levels() + 2,
        laid[2].lays(
            &laid[1],
            root_layout(
                laid[1]@.len(),
                from.params,
                wires(from.new_leaf_alloc@),
                wires(from.path_alloc@),
                bit_wires(from.indices_alloc@),
            ),
        ),
        laid[2]@.len() == laid[1]@.len() + 2 * from.spec_levels() + 1,
        mid_root.wire() == wire_at(laid[1]@.len() + 2 * from.spec_levels(), 0),
        laid[3].lays(
            &laid[2],
            verify_layout(
                laid[2]@.len(),
                to.params,
                wires(to.old_leaf_alloc@),
                wires(to.path_alloc@),
                bit_wires(to.indices_alloc@),
                mid_root.wire(),
            ),
        ),
        laid[3]@.len() == laid[2]@.len() + 2 * to.spec_levels() + 2,
        laid[4].lays(
            &laid[3],
            root_layout(
                laid[3]@.len(),
                to.params,
                wires(to.new_leaf_alloc@),
                wires(to.path_alloc@),
                bit_wires(to.indices_alloc@),
            ),
        ),
        laid[4]@.len() == laid[3]@.len() + 2 * to.spec_levels() + 1,
    ensures
        laid[4].lays(&laid[0], chain_layout(laid[0]@.len(), from, to, old_root.wire())),
        laid[4]@.len() == laid[0]@.len() + 4 * from.spec_levels() + 4 * to.spec_levels() + 6,
{
    let start = laid[0]@.len();
    let first = verify_layout(
        start,
        from.params,
        wires(from.old_leaf_alloc@),
        wires(from.path_alloc@),
        bit_wires(from.indices_alloc@),
        old_root.wire(),
    );
    let second = root_layout(
        start + 2 * from.spec_levels() + 2,
        from.params,
        wires(from.new_leaf_alloc@),
        wires(from.path_alloc@),
        bit_wires(from.indices_alloc@),
    );
    laid[2].lemma_lays_more(&laid[1], &laid[0], first, second);
    let third = verify_layout(
        start + 4 * from.spec_levels() + 3,
        to.params,
        wires(to.old_leaf_alloc@),
        wires(to.path_alloc@),
        bit_wires(to.indices_alloc@),
        wire_at(start + 4 * from.spec_levels() + 2, 0),
    );
    laid[3].lemma_lays_more(&laid[2], &laid[0], first + second, third);
    let fourth = root_layout(
        start + 4 * from.spec_levels() + 2 * to.spec_levels() + 5,
        to.params,
        wires(to.new_leaf_alloc@),
        wires(to.path_alloc@),
        bit_wires(to.indices_alloc@),
    );
    laid[4].lemma_lays_more(&laid[3], &laid[0], first + second + third, fourth);
}

/// A batch of executed transfers between two roots.
#[derive(Clone)]
pub struct TransferBatchCircuit<'a> {
    pub batch_size: usize,
    pub account_depth: usize,
    pub hash_params: &'a HashParams,
    pub sign_params: &'a SignParams,
    pub queue: Vec<TransferCircuit>,
    pub old_account_root: Option<FieldElement>,
    pub new_account_root: Option<FieldElement>,
}

impl<'a> TransferBatchCircuit<'a> {
    /// The batch holds as many items as it says, and each item's path has
    /// as many levels as the batch says.
    pub open spec fn well_shaped(&self) -> bool {
        &&& self.batch_size == self.queue@.len()
        &&& self.account_depth <= NUM_BITS
        &&& forall|k: int| 0 <= k < self.queue@.len() ==>
            (#[trigger] self.queue@[k]).shaped(self.account_depth)
    }

    /// The root after the given items, starting from `old_root`.
    pub open spec fn chain_root(
        items: Seq<TransferCircuit>,
        params: &HashParams,
        old_root: Option<nat>,
    ) -> Option<nat> {
        if items.len() == 0 {
            old_root
        } else {
            items.last().spec_new_root(params)
        }
    }

    /// What the circuit asks of the given items in turn, each starting from
    /// the root that the one before it ended in.
    pub open spec fn chain_holds(
        items: Seq<TransferCircuit>,
        params: &HashParams,
        old_root: Option<nat>,
    ) -> bool
        decreases items.len(),
    {
        items.len() == 0 || (Self::chain_holds(items.drop_last(), params, old_root)
            && items.last().constraints_hold(
            params,
            Self::chain_root(items.drop_last(), params, old_root),
        ))
    }

    /// Where the circuit's demands hold of items in turn, they hold of each
    /// item, from the root that the items before it end in.
    pub proof fn lemma_chain_item(
        items: Seq<TransferCircuit>,
        params: &HashParams,
        old_root: Option<nat>,
        k: int,
    )
        requires
            Self::chain_holds(items, params, old_root),
            0 <= k < items.len(),
        ensures
            items[k].constraints_hold(params, Self::chain_root(items.take(k), params, old_root)),
        decreases items.len(),
    {
        if k == items.len() - 1 {
            assert(items.take(k) =~= items.drop_last());
        } else {
            Self::lemma_chain_item(items.drop_last(), params, old_root, k);
            assert(items.drop_last().take(k) =~= items.take(k));
        }
    }

    /// The values that the batch makes public inputs, in their order.
    pub open spec fn spec_inputs(&self) -> Seq<Option<nat>> {
        seq![option_view(self.old_account_root), option_view(self.new_account_root)]
    }

    /// What the circuit asks of the batch: of each item in turn what it asks
    /// of an item, and that the items lead from the batch's old root to its
    /// new one.
    pub open spec fn constraints_hold(&self) -> bool {
        let params = self.hash_params;
        let old_root = option_view(self.old_account_root);
        &&& Self::chain_holds(self.queue@, params, old_root)
        &&& self.new_account_root is Some
        &&& Self::chain_root(self.queue@, params, old_root) == option_view(self.new_account_root)
    }

    /// The place of the first step of item `k` of a batch that is laid out
    /// from place `start` on.
    pub open spec fn item_start(start: nat, depth: nat, k: nat) -> nat
        decreases k,
    {
        if k == 0 {
            start + 4
        } else {
            Self::item_start(start, depth, (k - 1) as nat) + TransferCircuit::size(depth)
        }
    }

    /// Where the root is made that item `k` starts from.
    pub open spec fn root_wire(start: nat, depth: nat, k: nat) -> Wire {
        if k == 0 {
            wire_at(start, 0)
        } else {
            wire_at(Self::item_start(start, depth, (k - 1) as nat) + 14 * depth + 47, 0)
        }
    }

    /// The steps that make the batch's public inputs, from place `start` on.
    pub open spec fn head_layout(start: nat) -> Seq<Shape> {
        input_layout(start) + input_layout(start + 2)
    }

    /// The steps of the first `n` items of a batch that is laid out from
    /// place `start` on, each item after what the one before it ends in.
    pub open spec fn items_layout(start: nat, depth: nat, params: &HashParams, n: nat) -> Seq<
        Shape,
    >
        decreases n,
    {
        if n == 0 {
            Seq::empty()
        } else {
            let k = (n - 1) as nat;
            Self::items_layout(start, depth, params, k) + TransferCircuit::layout(
                Self::item_start(start, depth, k),
                depth,
                params,
                Self::root_wire(start, depth, k),
            )
        }
    }

    /// The steps of a batch of `n` items for a tree of the given depth, from
    /// place `start` on: the public inputs, the items, and the steps that
    /// ask what the last item ends in to be what the batch says. They
    /// depend on no value that the batch holds.
    pub open spec fn layout(start: nat, depth: nat, params: &HashParams, n: nat) -> Seq<Shape> {
        Self::head_layout(start) + Self::items_layout(start, depth, params, n) + same_layout(
            Self::root_wire(start, depth, n),
            wire_at(start + 2, 0),
        )
    }

    /// The public inputs, laid out one after the other, are the batch's
    /// head.
    proof fn lemma_head_layout(laid: Seq<ConstraintSystem>, depth: nat, params: &HashParams)
        requires
            laid.len() == 3,
            laid[1].lays(&laid[0], input_layout(laid[0]@.len())),
            laid[1]@.len() == laid[0]@.len() + 2,
            laid[2].lays(&laid[1], input_layout(laid[1]@.len())),
            laid[2]@.len() == laid[1]@.len() + 2,
        ensures
            laid[2].lays(
                &laid[0],
                Self::head_layout(laid[0]@.len()) + Self::items_layout(
                    laid[0]@.len(),
                    depth,
                    params,
                    0,
                ),
            ),
            laid[2]@.len() == Self::item_start(laid[0]@.len(), depth, 0),
    {
        let start = laid[0]@.len();
        assert(laid[1].lays(&laid[0], input_layout(start)));
        assert(laid[2].lays(&laid[1], input_layout(start + 2)));
        laid[2].lemma_lays_more(&laid[1], &laid[0], input_layout(start), input_layout(start + 2));
        assert(Self::head_layout(start) + Self::items_layout(start, depth, params, 0)
            =~= Self::head_layout(start));
    }

    /// One more item after `k` items is `k + 1` items.
    proof fn lemma_item_layout(
        before: ConstraintSystem,
        mid: ConstraintSystem,
        after: ConstraintSystem,
        depth: nat,
        params: &HashParams,
        k: nat,
    )
        requires
            mid.lays(
                &before,
                Self::head_layout(before@.len()) + Self::items_layout(
                    before@.len(),
                    depth,
                    params,
                    k,
                ),
            ),
            mid@.len() == Self::item_start(before@.len(), depth, k),
            after.lays(
                &mid,
                TransferCircuit::layout(
                    mid@.len(),
                    depth,
                    params,
                    Self::root_wire(before@.len(), depth, k),
                ),
            ),
            after@.len() == mid@.len() + TransferCircuit::size(depth),
        ensures
            after.lays(
                &before,
                Self::head_layout(before@.len()) + Self::items_layout(
                    before@.len(),
                    depth,
                    params,
                    k + 1,
                ),
            ),
            after@.len() == Self::item_start(before@.len(), depth, k + 1),
    {
        let start = before@.len();
        let head = Self::head_layout(start);
        let seen = Self::items_layout(start, depth, params, k);
        let item = TransferCircuit::layout(
            mid@.len(),
            depth,
            params,
            Self::root_wire(start, depth, k),
        );
        after.lemma_lays_more(&mid, &before, head + seen, item);
        assert(head + seen + item =~= head + (seen + item));
    }

    /// The steps that close the batch, after its items, make its layout.
    proof fn lemma_tail_layout(
        laid: Seq<ConstraintSystem>,
        depth: nat,
        params: &HashParams,
        n: nat,
    )
        requires
            laid.len() == 3,
            laid[1].lays(
                &laid[0],
                Self::head_layout(laid[0]@.len()) + Self::items_layout(
                    laid[0]@.len(),
                    depth,
                    params,
                    n,
                ),
            ),
            laid[2].lays(
                &laid[1],
                same_layout(Self::root_wire(laid[0]@.len(), depth, n), wire_at(laid[0]@.len() + 2, 0)),
            ),
        ensures
            laid[2].lays(&laid[0], Self::layout(laid[0]@.len(), depth, params, n)),
    {
        let start = laid[0]@.len();
        let body = Self::head_layout(start) + Self::items_layout(start, depth, params, n);
        let last = same_layout(Self::root_wire(start, depth, n), wire_at(start + 2, 0));
        laid[2].lemma_lays_more(&laid[1], &laid[0], body, last);
    }

    /// Lays out the batch.
    pub fn synthesize(&self, cs: &mut ConstraintSystem)
        requires
            self.well_shaped(),
        ensures
            final(cs).adds_inputs(old(cs), self.constraints_hold(), self.spec_inputs()),
            final(cs).lays(
                old(cs),
                Self::layout(
                    old(cs)@.len(),
                    self.account_depth as nat,
                    self.hash_params,
                    self.batch_size as nat,
                ),
            ),
    {
        let ghost start = cs@.len();
        let ghost depth = self.account_depth as nat;
        let ghost c0 = *cs;
        let mut prev_root = cs.alloc_input(self.old_account_root);
        let ghost c1 = *cs;
        let new_root = cs.alloc_input(self.new_account_root);
        proof {
            Self::lemma_head_layout(seq![c0, c1, *cs], depth, self.hash_params);
        }

        let ghost old_root = option_view(self.old_account_root);
        assert(cs.inputs() =~= old(cs).inputs() + self.spec_inputs());
        let mut i: usize = 0;
        assert(self.queue@.take(0) =~= Seq::<TransferCircuit>::empty());
        while i < self.queue.len()
            invariant
                self.well_shaped(),
                i <= self.queue@.len(),
                cs.adds_inputs(
                    old(cs),
                    Self::chain_holds(self.queue@.take(i as int), self.hash_params, old_root),
                    self.spec_inputs(),
                ),
                num_view(prev_root) == Self::chain_root(
                    self.queue@.take(i as int),
                    self.hash_params,
                    old_root,
                ),
                old_root == option_view(self.old_account_root),
                new_root.value == self.new_account_root,
                cs.owns(prev_root),
                cs.owns(new_root),
                start == old(cs)@.len(),
                depth == self.account_depth,
                c0 == *old(cs),
                cs.lays(
                    &c0,
                    Self::head_layout(start) + Self::items_layout(
                        start,
                        depth,
                        self.hash_params,
                        i as nat,
                    ),
                ),
                cs@.len() == Self::item_start(start, depth, i as nat),
                prev_root.wire() == Self::root_wire(start, depth, i as nat),
                new_root.wire() == wire_at(start + 2, 0),
            decreases self.queue@.len() - i,
        {
            assert(self.queue@[i as int].shaped(self.account_depth));
            let ghost mid = *cs;
            let root = self.queue[i].process(cs, self.account_depth, self.hash_params, &prev_root);
            proof {
                assert(self.queue@.take(i + 1).drop_last() =~= self.queue@.take(i as int));
                assert(self.queue@.take(i + 1).last() == self.queue@[i as int]);
            }
            proof {
                Self::lemma_item_layout(c0, mid, *cs, depth, self.hash_params, i as nat);
            }
            prev_root = root;
            i += 1;
        }
        assert(self.queue@.take(i as int) =~= self.queue@);

        let ghost c4 = *cs;
        enforce_same(cs, &prev_root, &new_root);
        proof {
            Self::lemma_tail_layout(seq![c0, c4, *cs], depth, self.hash_params, i as nat);
        }
    }
}

/// An item that holds an authentic transfer as it was applied to a ledger
/// meets what the circuit asks of it from the ledger's root, and ends in the
/// root of the ledger after the transfer.
pub proof fn lemma_transfer_satisfies(
    item: TransferCircuit,
    params: &HashParams,
    depth: nat,
    ledger: Seq<AccountView>,
    transfer: Transfer,
)
    requires
        ledger.len() == two_pow(depth),
        transfer.applicable(ledger),
        transfer.signed_by(ledger[transfer.account_id_from as int].key, params),
        item.witnesses(params, depth, ledger, transfer),
    ensures
        item.constraints_hold(params, Some(AccountsTree::root_of(params, depth, ledger))),
        item.spec_new_root(params) == Some(
            AccountsTree::root_of(params, depth, transfer.apply(ledger)),
        ),
{
    let id_from = transfer.account_id_from as nat;
    let id_to = transfer.account_id_to as nat;
    let from = item.account_state_from;
    let to = item.account_state_to;
    let paid = transfer.debit(ledger);
    let done = transfer.apply(ledger);
    lemma_recorded_roots(from, params, depth, ledger, id_from, paid[id_from as int]);
    lemma_recorded_roots(to, params, depth, paid, id_to, done[id_to as int]);
    assert(paid =~= ledger.update(id_from as int, paid[id_from as int]));
    assert(done =~= paid.update(id_to as int, done[id_to as int]));
    lemma_word_fits();
    lemma_word_in_field();
    lemma_small_mod(ledger[id_from as int].balance, fr_modulus());
    lemma_small_mod(done[id_to as int].balance, fr_modulus());
    lemma_small_mod(transfer.nonce as nat, fr_modulus());
    assert(from.old_leaf()[0] == key_x(from.old_pubkey));
    assert(from.new_leaf()[0] == key_x(from.new_pubkey));
    assert(from.old_leaf()[1] == key_y(from.old_pubkey));
    assert(from.new_leaf()[1] == key_y(from.new_pubkey));
    assert(to.old_leaf()[0] == key_x(to.old_pubkey));
    assert(to.new_leaf()[0] == key_x(to.new_pubkey));
    assert(to.old_leaf()[1] == key_y(to.old_pubkey));
    assert(to.new_leaf()[1] == key_y(to.new_pubkey));
    assert(item.spec_message_hash(params) == Some(transfer.spec_hash(params)));
}

/// The roots of a batch are bound to its items: a batch of at least one item
/// that meets what the circuit asks does so no more when its old root or
/// its new root is another, with its items as they were.
pub proof fn lemma_transfer_roots_are_bound(
    circuit: TransferBatchCircuit,
    changed: TransferBatchCircuit,
)
    requires
        circuit.constraints_hold(),
        circuit.queue@.len() > 0,
        changed.queue@ == circuit.queue@,
        changed.hash_params == circuit.hash_params,
        option_view(changed.old_account_root) != option_view(circuit.old_account_root)
            || option_view(changed.new_account_root) != option_view(circuit.new_account_root),
    ensures
        !changed.constraints_hold(),
{
    if changed.constraints_hold() {
        let items = circuit.queue@;
        let params = circuit.hash_params;
        assert(items.take(0) =~= Seq::<TransferCircuit>::empty());
        TransferBatchCircuit::lemma_chain_item(
            items,
            params,
            option_view(circuit.old_account_root),
            0,
        );
        TransferBatchCircuit::lemma_chain_item(
            items,
            params,
            option_view(changed.old_account_root),
            0,
        );
    }
}

} // verus!
