//! Keys and signatures over the embedded curve.

use crate::field::{FieldElement, Scalar};
use ff_ce::PrimeField;
use pairing_ce::bn256::{Bn256, Fr, FrRepr};
use rand::thread_rng;
use sapling_crypto_ce::alt_babyjubjub::AltJubjubBn256;
use sapling_crypto_ce::alt_babyjubjub::fs::{Fs, FsRepr};
use sapling_crypto_ce::jubjub::FixedGenerators;
use sapling_crypto_ce::jubjub::edwards::Point;
use vstd::prelude::*;

verus! {

/// The embedded curve's parameters, as the curve library holds them.
#[verifier::external_type_specification]
#[verifier::external_body]
pub struct ExAltJubjubBn256(AltJubjubBn256);

/// The most bytes of a message that a signature covers.
pub const NUM_BYTES_TO_SIGN: usize = 31;

/// The coordinates of the public key that belongs to a private key.
pub uninterp spec fn public_key_of(secret: nat) -> (nat, nat);

/// Whether the signature `(r_x, r_y, s)` of `message` verifies under the
/// key `(key_x, key_y)`; no pair of coordinates off the curve verifies.
pub uninterp spec fn signature_verifies(
    key_x: nat,
    key_y: nat,
    message: Seq<u8>,
    r_x: nat,
    r_y: nat,
    s: nat,
) -> bool;

/// The coordinates of the point that stands in a slot before any key is
/// set: the point of the curve above zero whose first coordinate is odd.
pub open spec fn unset_key() -> (nat, nat) {
    (0xb3c4d79d41a91758cb49c3517c4604a520cff123608fc9cbnat, 0nat)
}

/// The parameters of the embedded curve, generated once and shared.
pub struct SignParams {
    inner: AltJubjubBn256,
}

/// A private key: a scalar of the embedded curve.
#[derive(Clone, Copy, Debug, PartialEq, Eq)]
pub struct PrivateKey(pub Scalar);

/// A public key: the coordinates of a point of the embedded curve.
#[derive(Clone, Copy, Debug, PartialEq, Eq)]
pub struct PublicKey {
    pub x: FieldElement,
    pub y: FieldElement,
}

impl View for PublicKey {
    type V = (nat, nat);

    open spec fn view(&self) -> (nat, nat) {
        (self.x@, self.y@)
    }
}

/// A signature: the coordinates of its point and its scalar.
#[derive(Clone, Copy, Debug, PartialEq, Eq)]
pub struct Signature {
    pub r_x: FieldElement,
    pub r_y: FieldElement,
    pub s: Scalar,
}

/// `AltJubjubBn256::new`: the curve's constants and generator tables.
#[verifier::external_body]
fn curve_params() -> (p: AltJubjubBn256) {
    AltJubjubBn256::new()
}

/// `Point::get_for_y` at zero with the odd first coordinate. The curve has
/// that point: its first coordinate is the odd square root of minus one.
#[verifier::external_body]
fn point_above_zero(params: &SignParams) -> (p: PublicKey)
    ensures
        p@ == unset_key(),
{
    let point = Point::<Bn256, _>::get_for_y(Fr::from_repr(FrRepr([0; 4])).unwrap(), true, &params.inner);
    let (x, y) = point.unwrap().into_xy();
    PublicKey { x: FieldElement { limbs: x.into_repr().0 }, y: FieldElement { limbs: y.into_repr().0 } }
}

/// `PublicKey::from_private` on the spending key generator: the generator
/// times the private key.
#[verifier::external_body]
fn derive_public(key: &PrivateKey, params: &SignParams) -> (p: PublicKey)
    ensures
        p@ == public_key_of(key.0@),
{
    let secret = sapling_crypto_ce::eddsa::PrivateKey::<Bn256>(Fs::from_repr(FsRepr(key.0.limbs)).unwrap());
    let generator = FixedGenerators::SpendingKeyGenerator;
    let (x, y) = sapling_crypto_ce::eddsa::PublicKey::from_private(&secret, generator, &params.inner).0.into_xy();
    PublicKey { x: FieldElement { limbs: x.into_repr().0 }, y: FieldElement { limbs: y.into_repr().0 } }
}

/// `PrivateKey::sign_raw_message` on the spending key generator, with the
/// thread's random number generator. The signature differs from call to
/// call; each one verifies under the key's public key.
#[verifier::external_body]
fn sign_raw(key: &PrivateKey, message: &Vec<u8>, params: &SignParams) -> (sig: Signature)
    requires
        message.len() <= NUM_BYTES_TO_SIGN,
    ensures
        signature_verifies(
            public_key_of(key.0@).0,
            public_key_of(key.0@).1,
            message@,
            sig.r_x@,
            sig.r_y@,
            sig.s@,
        ),
{
    let secret = sapling_crypto_ce::eddsa::PrivateKey::<Bn256>(Fs::from_repr(FsRepr(key.0.limbs)).unwrap());
    let generator = FixedGenerators::SpendingKeyGenerator;
    let sig = secret.sign_raw_message(message, &mut thread_rng(), generator, &params.inner, NUM_BYTES_TO_SIGN);
    let (x, y) = sig.r.into_xy();
    let (r_x, r_y) = (FieldElement { limbs: x.into_repr().0 }, FieldElement { limbs: y.into_repr().0 });
    Signature { r_x, r_y, s: Scalar { limbs: sig.s.into_repr().0 } }
}

/// `PublicKey::verify_for_raw_message` on the spending key generator, on the
/// points that `Point::from_xy` makes of the coordinates; where it makes
/// none, nothing verifies.
#[verifier::external_body]
fn verify_raw(key: &PublicKey, message: &Vec<u8>, sig: &Signature, params: &SignParams) -> (ok: bool)
    requires
        message.len() <= NUM_BYTES_TO_SIGN,
    ensures
        ok == signature_verifies(key.x@, key.y@, message@, sig.r_x@, sig.r_y@, sig.s@),
{
    let fr = |e: &FieldElement| Fr::from_repr(FrRepr(e.limbs)).unwrap();
    let key = Point::<Bn256, _>::from_xy(fr(&key.x), fr(&key.y), &params.inner);
    let r = Point::<Bn256, _>::from_xy(fr(&sig.r_x), fr(&sig.r_y), &params.inner);
    let s = Fs::from_repr(FsRepr(sig.s.limbs)).unwrap();
    let generator = FixedGenerators::SpendingKeyGenerator;
    match (key, r) {
        (Some(key), Some(r)) => sapling_crypto_ce::eddsa::PublicKey(key).verify_for_raw_message(
            message, &sapling_crypto_ce::eddsa::Signature { r, s }, generator, &params.inner, NUM_BYTES_TO_SIGN),
        _ => false,
    }
}

impl Signature {
    /// Whether this signature of `message` verifies under `key`.
    pub open spec fn verifies(&self, key: (nat, nat), message: Seq<u8>) -> bool {
        signature_verifies(key.0, key.1, message, self.r_x@, self.r_y@, self.s@)
    }
}

impl SignParams {
    /// The parameters of the embedded curve. They are the curve's fixed
    /// constants, and this is the only way to make a value of the type: every
    /// value holds the same ones, so no contract that takes one depends on it.
    pub fn new() -> (p: Self) {
        SignParams { inner: curve_params() }
    }
}

impl PublicKey {
    /// The public key of a private key.
    pub fn from_private(key: &PrivateKey, params: &SignParams) -> (p: Self)
        ensures
            p@ == public_key_of(key.0@),
    {
        derive_public(key, params)
    }

    /// The point that stands in a slot before any key is set: the one above
    /// zero whose first coordinate is odd.
    pub fn unset(params: &SignParams) -> (p: Self)
        ensures
            p@ == unset_key(),
    {
        point_above_zero(params)
    }

    /// Whether a signature of a message of at most 31 bytes verifies under
    /// this key.
    pub fn verify(&self, message: &Vec<u8>, sig: &Signature, params: &SignParams) -> (ok: bool)
        requires
            message.len() <= NUM_BYTES_TO_SIGN,
        ensures
            ok == sig.verifies(self@, message@),
    {
        verify_raw(self, message, sig, params)
    }
}

impl PrivateKey {
    /// A signature of a message of at most 31 bytes; it verifies under the
    /// key's public key.
    pub fn sign(&self, message: &Vec<u8>, params: &SignParams) -> (sig: Signature)
        requires
            message.len() <= NUM_BYTES_TO_SIGN,
        ensures
            sig.verifies(public_key_of(self.0@), message@),
    {
        sign_raw(self, message, params)
    }
}

} // verus!
