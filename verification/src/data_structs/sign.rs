//! What is signed of a hash, and the hashing and signing of orders.

use crate::circuit::spec_le_bytes;
use crate::data_structs::order::{Order, SignedOrder};
use crate::eddsa::{public_key_of, NUM_BYTES_TO_SIGN, PrivateKey, PublicKey, SignParams};
use crate::field::FieldElement;
use crate::hash::{values, HashParams};
use crate::utils::utils::{bool_to_fr, fr_to_bytes_le, usize_to_fr};
use vstd::prelude::*;

verus! {

/// The bytes of a hash that are signed: the first 31 of its little-endian
/// encoding.
pub open spec fn spec_signed_bytes(hash: nat) -> Seq<u8> {
    spec_le_bytes(hash, NUM_BYTES_TO_SIGN as nat)
}

/// The bytes of a hash that are signed.
pub fn signed_bytes(hash: FieldElement) -> (bytes: Vec<u8>)
    ensures
        bytes@ == spec_signed_bytes(hash@),
{
    let bytes = fr_to_bytes_le(hash, NUM_BYTES_TO_SIGN);
    assert(bytes@ =~= spec_signed_bytes(hash@));
    bytes
}

/// One for true, zero for false.
pub open spec fn flag(b: bool) -> nat {
    if b {
        1
    } else {
        0
    }
}

/// The hash of an order: of its eight fields in their order.
pub open spec fn spec_order_hash(order: Order, params: &HashParams) -> nat {
    params.spec_hash(
        seq![
            order.order_id as nat,
            order.account_id as nat,
            order.token_s as nat,
            order.token_b as nat,
            order.amount_s as nat,
            order.amount_b as nat,
            flag(order.buy),
            flag(order.asset_b_basic),
        ],
    )
}

/// The hash of an order.
pub fn order_hash(order: &Order, hash_params: &HashParams) -> (h: FieldElement)
    ensures
        h@ == spec_order_hash(*order, hash_params),
{
    let mut leaf: Vec<FieldElement> = Vec::new();
    leaf.push(usize_to_fr(order.order_id));
    leaf.push(usize_to_fr(order.account_id));
    leaf.push(usize_to_fr(order.token_s));
    leaf.push(usize_to_fr(order.token_b));
    leaf.push(usize_to_fr(order.amount_s));
    leaf.push(usize_to_fr(order.amount_b));
    leaf.push(bool_to_fr(order.buy));
    leaf.push(bool_to_fr(order.asset_b_basic));
    assert(values(leaf@) =~= seq![
        order.order_id as nat,
        order.account_id as nat,
        order.token_s as nat,
        order.token_b as nat,
        order.amount_s as nat,
        order.amount_b as nat,
        flag(order.buy),
        flag(order.asset_b_basic),
    ]);
    hash_params.hash(&leaf)
}

/// The order with a signature by the given key; the signature verifies
/// under the key's public key.
pub fn sign_order(
    order: Order,
    seckey: &PrivateKey,
    hash_params: &HashParams,
    sign_params: &SignParams,
) -> (signed: SignedOrder)
    ensures
        signed.order == order,
        signed.sign.verifies(
            public_key_of(seckey.0@),
            spec_signed_bytes(spec_order_hash(order, hash_params)),
        ),
{
    let hash = order_hash(&order, hash_params);
    let hash_bytes = signed_bytes(hash);
    let sign = seckey.sign(&hash_bytes, sign_params);
    SignedOrder { order, sign }
}

/// Whether an order's signature verifies under the given key.
pub fn verify_order_signature(
    signed_order: &SignedOrder,
    pubkey: &PublicKey,
    hash_params: &HashParams,
    sign_params: &SignParams,
) -> (ok: bool)
    ensures
        ok == signed_order.sign.verifies(
            pubkey@,
            spec_signed_bytes(spec_order_hash(signed_order.order, hash_params)),
        ),
{
    let hash = order_hash(&signed_order.order, hash_params);
    let hash_bytes = signed_bytes(hash);
    pubkey.verify(&hash_bytes, &signed_order.sign, sign_params)
}

} // verus!
