//! The sponge hash and its parameters.

use crate::field::FieldElement;
use ff_ce::PrimeField;
use pairing_ce::bn256::{Bn256, Fr, FrRepr};
use sapling_crypto_ce::group_hash::BlakeHasher;
use sapling_crypto_ce::poseidon::poseidon_hash;
use sapling_crypto_ce::poseidon::bn256::Bn256PoseidonParams;
use vstd::prelude::*;

verus! {

/// The sponge hash's parameters, as the hash library holds them.
#[verifier::external_type_specification]
#[verifier::external_body]
pub struct ExBn256PoseidonParams(Bn256PoseidonParams);

/// The first output element of the sponge hash with state width `t`, `r_f`
/// full rounds per half and `r_p` partial rounds, on the given elements.
pub uninterp spec fn poseidon(t: nat, r_f: nat, r_p: nat, input: Seq<nat>) -> nat;

/// The most round constants of one kind that a parameter set may call for.
pub const MAX_ROUND_KEYS: u32 = 65536;

/// The settings for which parameters are generated: somewhere to absorb, at
/// least one round of each kind, and round constants within the limit.
pub open spec fn settings_supported(t: u32, r_f: u32, r_p: u32) -> bool {
    &&& 2 <= t
    &&& 1 <= r_f
    &&& 1 <= r_p
    &&& 2 * r_f * t <= MAX_ROUND_KEYS
    &&& r_p * t <= MAX_ROUND_KEYS
}

/// The values of a sequence of field elements.
pub open spec fn values(s: Seq<FieldElement>) -> Seq<nat> {
    s.map_values(|e: FieldElement| e@)
}

/// The parameters of the sponge hash, generated once and shared.
pub struct HashParams {
    t: u32,
    r_f: u32,
    r_p: u32,
    security_level: u32,
    inner: Bn256PoseidonParams,
}

/// `Bn256PoseidonParams::new_for_params` with the Blake2s hasher: the round
/// constants and the matrix for the given settings. The settings are bounded
/// so that its products fit and its searches for constants end.
#[verifier::external_body]
fn generate_params(t: u32, r_f: u32, r_p: u32, security_level: u32) -> (p: Bn256PoseidonParams)
    requires
        settings_supported(t, r_f, r_p),
{
    Bn256PoseidonParams::new_for_params::<BlakeHasher>(t, r_f, r_p, security_level)
}

/// `poseidon_hash` on parameters that `generate_params` made: its first
/// output element, which the parameters' settings and the input determine.
#[verifier::external_body]
fn sponge(params: &HashParams, input: &Vec<FieldElement>) -> (h: FieldElement)
    ensures
        h@ == poseidon(params.t as nat, params.r_f as nat, params.r_p as nat, values(input@)),
{
    let input: Vec<Fr> = input.iter().map(|e| Fr::from_repr(FrRepr(e.limbs)).unwrap()).collect();
    let output = poseidon_hash::<Bn256>(&params.inner, &input);
    FieldElement { limbs: output[0].into_repr().0 }
}

impl HashParams {
    /// The width of the sponge's state.
    pub closed spec fn t(&self) -> nat {
        self.t as nat
    }

    /// The number of full rounds in each half.
    pub closed spec fn r_f(&self) -> nat {
        self.r_f as nat
    }

    /// The number of partial rounds.
    pub closed spec fn r_p(&self) -> nat {
        self.r_p as nat
    }

    /// The width of the sponge's state.
    pub fn state_width(&self) -> (t: u32)
        ensures
            t == self.t(),
    {
        self.t
    }

    /// The number of full rounds in each half.
    pub fn full_rounds(&self) -> (r_f: u32)
        ensures
            r_f == self.r_f(),
    {
        self.r_f
    }

    /// The number of partial rounds.
    pub fn partial_rounds(&self) -> (r_p: u32)
        ensures
            r_p == self.r_p(),
    {
        self.r_p
    }

    /// The security level that the parameters were asked for with.
    pub closed spec fn spec_security_level(&self) -> nat {
        self.security_level as nat
    }

    /// The security level that the parameters were asked for with.
    pub fn security_level(&self) -> (level: u32)
        ensures
            level == self.spec_security_level(),
    {
        self.security_level
    }

    /// What the hash of `input` under these parameters is.
    pub open spec fn spec_hash(&self, input: Seq<nat>) -> nat {
        poseidon(self.t(), self.r_f(), self.r_p(), input)
    }

    /// Parameters for the given settings, where they are supported.
    pub fn new(t: u32, r_f: u32, r_p: u32, security_level: u32) -> (r: Option<Self>)
        ensures
            r.is_some() <==> settings_supported(t, r_f, r_p),
            r matches Some(p) ==> p.t() == t && p.r_f() == r_f && p.r_p() == r_p
                && p.spec_security_level() == security_level,
    {
        if t < 2 || r_f < 1 || r_p < 1 {
            return None;
        }
        if t > MAX_ROUND_KEYS || r_f > MAX_ROUND_KEYS || r_p > MAX_ROUND_KEYS {
            assert(2 * r_f * t > 65536 || r_p * t > 65536) by (nonlinear_arith)
                requires
                    t >= 2,
                    r_f >= 1,
                    r_p >= 1,
                    t > 65536 || r_f > 65536 || r_p > 65536,
            ;
            return None;
        }
        assert(2 * (r_f as u64) * (t as u64) <= u64::MAX && (r_p as u64) * (t as u64) <= u64::MAX)
            by (nonlinear_arith)
            requires
                t <= 65536,
                r_f <= 65536,
                r_p <= 65536,
        ;
        let full: u64 = 2 * (r_f as u64) * (t as u64);
        let partial: u64 = (r_p as u64) * (t as u64);
        if full > MAX_ROUND_KEYS as u64 || partial > MAX_ROUND_KEYS as u64 {
            return None;
        }
        let inner = generate_params(t, r_f, r_p, security_level);
        Some(HashParams { t, r_f, r_p, security_level, inner })
    }

    /// The hash of a sequence of field elements.
    pub fn hash(&self, input: &Vec<FieldElement>) -> (h: FieldElement)
        ensures
            h@ == self.spec_hash(values(input@)),
    {
        sponge(self, input)
    }
}

} // verus!
