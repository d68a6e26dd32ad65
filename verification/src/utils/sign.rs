//! Signatures in a circuit.

use crate::circuit::{
    shapes, spec_le_bytes, wire_at, AllocatedNum, AllocatedSignature, ConstraintSystem, Shape,
    Wire, NUM_BITS,
};
use crate::eddsa::{PublicKey, Signature};
use crate::utils::utils::fs_to_fr;
use vstd::prelude::*;

verus! {

/// The steps that make a signature and its key: the signature's point, its
/// scalar, and the key's point.
pub open spec fn signature_allocs() -> Seq<Shape> {
    seq![Shape::WitnessPoint, Shape::Alloc, Shape::WitnessPoint]
}

impl AllocatedSignature {
    /// The signature and its key were made by the three steps from the one
    /// in place `start` on.
    pub open spec fn laid_at(&self, start: nat) -> bool {
        &&& self.r.x.wire() == wire_at(start, 0)
        &&& self.r.y.wire() == wire_at(start, 1)
        &&& self.s.wire() == wire_at(start + 1, 0)
        &&& self.pk.x.wire() == wire_at(start + 2, 0)
        &&& self.pk.y.wire() == wire_at(start + 2, 1)
    }
}

/// The steps that make a signature and its key at `start` and ask the
/// signature of a hash's first bytes to verify.
pub open spec fn signature_layout(start: nat, hash: Wire, message_bytes: usize) -> Seq<Shape> {
    signature_allocs() + seq![
        Shape::VerifySignature {
            r_x: wire_at(start, 0),
            r_y: wire_at(start, 1),
            s: wire_at(start + 1, 0),
            key_x: wire_at(start + 2, 0),
            key_y: wire_at(start + 2, 1),
            hash,
            message_bytes,
        },
    ]
}

/// The parts of a signature and the key that it is checked under, as
/// numbers of the circuit.
pub fn alloc_signature(
    cs: &mut ConstraintSystem,
    sign: Option<Signature>,
    pk: Option<PublicKey>,
) -> (sig:
    AllocatedSignature)
    ensures
        final(cs).adds(old(cs), true),
        final(cs).lays(old(cs), signature_allocs()),
        sig.laid_at(old(cs)@.len()),
        final(cs)@.len() == old(cs)@.len() + 3,
        sign matches Some(s) ==> sig.r.x.value == Some(s.r_x) && sig.r.y.value == Some(s.r_y)
            && sig.s.is(s.s@),
        sign is None ==> sig.r.x.value is None && sig.r.y.value is None && sig.s.value is None,
        pk matches Some(key) ==> sig.pk.x.value == Some(key.x) && sig.pk.y.value == Some(key.y),
        pk is None ==> sig.pk.x.value is None && sig.pk.y.value is None,
        final(cs).owns_signature(sig),
{
    let (r, s) = match sign {
        Some(sign) => (Some(PublicKey { x: sign.r_x, y: sign.r_y }), Some(fs_to_fr(sign.s))),
        None => (None, None),
    };
    let r_alloc = cs.witness_point(r);
    let s_alloc = cs.alloc_num(s);
    let pk_alloc = cs.witness_point(pk);
    reveal(ConstraintSystem::lays);
    assert(shapes(cs@) =~= shapes(old(cs)@) + signature_allocs());
    AllocatedSignature { r: r_alloc, s: s_alloc, pk: pk_alloc }
}

/// The signature is given, and so are the key and the hash, and the
/// signature of the hash's first `msg_bytes_len` bytes verifies under the
/// key.
pub open spec fn signature_checks(
    sign: Option<Signature>,
    pk: Option<PublicKey>,
    leaf_hash: AllocatedNum,
    msg_bytes_len: usize,
) -> bool {
    &&& sign is Some
    &&& pk is Some
    &&& leaf_hash.value is Some
    &&& sign.unwrap().verifies(pk.unwrap()@, spec_le_bytes(leaf_hash.spec_value(), msg_bytes_len as nat))
}

/// Lays out a signature and its key, and asks that the signature of a hash's
/// first `msg_bytes_len` bytes verify under the key.
pub fn verify_signature(
    cs: &mut ConstraintSystem,
    sign: Option<Signature>,
    pk: Option<PublicKey>,
    leaf_hash: &AllocatedNum,
    msg_bytes_len: usize,
) -> (sig: AllocatedSignature)
    requires
        msg_bytes_len * 8 <= NUM_BITS,
        old(cs).owns(*leaf_hash),
    ensures
        final(cs).adds(old(cs), signature_checks(sign, pk, *leaf_hash, msg_bytes_len)),
        final(cs).owns_signature(sig),
        final(cs).lays(
            old(cs),
            signature_layout(old(cs)@.len(), leaf_hash.wire(), msg_bytes_len),
        ),
        sig.laid_at(old(cs)@.len()),
        final(cs)@.len() == old(cs)@.len() + 4,
        sign matches Some(s) ==> sig.r.x.value == Some(s.r_x) && sig.r.y.value == Some(s.r_y)
            && sig.s.is(s.s@),
        sign is None ==> sig.r.x.value is None && sig.r.y.value is None && sig.s.value is None,
        pk matches Some(key) ==> sig.pk.x.value == Some(key.x) && sig.pk.y.value == Some(key.y),
        pk is None ==> sig.pk.x.value is None && sig.pk.y.value is None,
{
    let sign_alloc = alloc_signature(cs, sign, pk);
    if let Some(s) = sign {
        proof {
            use_type_invariant(&s.s);
        }
    }
    cs.verify_raw_message_signature(&sign_alloc, leaf_hash, msg_bytes_len);
    reveal(ConstraintSystem::lays);
    assert(shapes(cs@) =~= shapes(old(cs)@) + signature_layout(
        old(cs)@.len(),
        leaf_hash.wire(),
        msg_bytes_len,
    ));
    sign_alloc
}

} // verus!
