use bellman_ce::groth16::{
    create_random_proof, generate_random_parameters, prepare_verifying_key, verify_proof,
};
use bellman_ce::{Circuit, ConstraintSystem as Backend, LinearCombination, SynthesisError};
use ff_ce::PrimeField;
use openplasma_circuits::circuit::{AllocatedBit, AllocatedNum, ConstraintSystem, Step, Term};
use openplasma_circuits::account::AccountState;
use openplasma_circuits::data_structs::deposit::Deposit;
use openplasma_circuits::data_structs::onchain_withdrawal::OnchainWithdrawal;
use openplasma_circuits::eddsa::{PrivateKey, PublicKey, SignParams};
use openplasma_circuits::field::{FieldElement, Scalar};
use openplasma_circuits::hash::HashParams;
use openplasma_circuits::operator::Operator;
use pairing_ce::bn256::{Bn256, Fr, FrRepr};
use rand::thread_rng;
use sapling_crypto_ce::alt_babyjubjub::AltJubjubBn256;
use sapling_crypto_ce::circuit::baby_eddsa::EddsaSignature;
use sapling_crypto_ce::circuit::boolean::{AllocatedBit as BackendBit, Boolean};
use sapling_crypto_ce::circuit::ecc::EdwardsPoint;
use sapling_crypto_ce::circuit::num::AllocatedNum as BackendNum;
use sapling_crypto_ce::circuit::poseidon_hash::poseidon_hash;
use sapling_crypto_ce::group_hash::BlakeHasher;
use sapling_crypto_ce::jubjub::edwards::Point;
use sapling_crypto_ce::jubjub::{FixedGenerators, JubjubParams, Unknown};
use sapling_crypto_ce::poseidon::bn256::Bn256PoseidonParams;
use sapling_crypto_ce::poseidon::PoseidonHashParams;

/// What a step of a layout has made in the backend.
enum Made {
    Nothing,
    Num(BackendNum<Bn256>),
    Pair(BackendNum<Bn256>, BackendNum<Bn256>),
    Point(EdwardsPoint<Bn256>),
    Bit(Boolean),
    Bits(Vec<Boolean>),
}

fn to_fr(value: &FieldElement) -> Fr {
    Fr::from_repr(FrRepr(value.to_limbs())).unwrap()
}

fn num(made: &[Made], num: &AllocatedNum) -> Result<BackendNum<Bn256>, SynthesisError> {
    match (made.get(num.source), num.slot) {
        (Some(Made::Num(n)), 0) => Ok(n.clone()),
        (Some(Made::Pair(n, _)), 0) => Ok(n.clone()),
        (Some(Made::Pair(_, n)), 1) => Ok(n.clone()),
        (Some(Made::Point(p)), 0) => Ok(p.get_x().clone()),
        (Some(Made::Point(p)), 1) => Ok(p.get_y().clone()),
        _ => Err(SynthesisError::Unsatisfiable),
    }
}

fn bit(made: &[Made], bit: &AllocatedBit) -> Result<Boolean, SynthesisError> {
    match (made.get(bit.source), bit.slot) {
        (Some(Made::Bit(b)), 0) => Ok(b.clone()),
        (Some(Made::Bits(bits)), slot) if slot < bits.len() => Ok(bits[slot].clone()),
        _ => Err(SynthesisError::Unsatisfiable),
    }
}

fn point(made: &[Made], x: &AllocatedNum) -> Result<EdwardsPoint<Bn256>, SynthesisError> {
    match made.get(x.source) {
        Some(Made::Point(p)) => Ok(p.clone()),
        _ => Err(SynthesisError::Unsatisfiable),
    }
}

fn sum<CS: Backend<Bn256>>(
    made: &[Made],
    terms: &[Term],
) -> Result<LinearCombination<Bn256>, SynthesisError> {
    let mut lc = LinearCombination::zero();
    for term in terms {
        lc = match term {
            Term::One => lc + CS::one(),
            Term::Num(n) => lc + num(made, n)?.get_variable(),
        };
    }
    Ok(lc)
}

/// Lays the steps out in the backend.
fn replay<CS: Backend<Bn256>>(
    steps: &[Step],
    cs: &mut CS,
    hash_params: &Bn256PoseidonParams,
    sign_params: &AltJubjubBn256,
) -> Result<(), SynthesisError> {
    let mut made: Vec<Made> = Vec::with_capacity(steps.len());
    for (i, step) in steps.iter().enumerate() {
        let mut cs = cs.namespace(|| format!("step {}", i));
        let next = match step {
            Step::Alloc { value } => Made::Num(BackendNum::alloc(cs.namespace(|| "number"), || {
                value.as_ref().map(to_fr).ok_or(SynthesisError::AssignmentMissing)
            })?),
            Step::AllocBit { bit: value } => {
                Made::Bit(Boolean::from(BackendBit::alloc(cs.namespace(|| "bit"), *value)?))
            }
            Step::WitnessPoint { point: value } => {
                let value = match value {
                    Some(key) => Some(
                        Point::<Bn256, Unknown>::from_xy(to_fr(&key.x), to_fr(&key.y), sign_params)
                            .ok_or(SynthesisError::Unsatisfiable)?,
                    ),
                    None => None,
                };
                Made::Point(EdwardsPoint::witness(cs.namespace(|| "point"), value, sign_params)?)
            }
            Step::Hash { inputs, t, r_f, r_p } => {
                if (*t, *r_f, *r_p) != (hash_params.t(), hash_params.r_f(), hash_params.r_p()) {
                    return Err(SynthesisError::Unsatisfiable);
                }
                let inputs = inputs.iter().map(|n| num(&made, n)).collect::<Result<Vec<_>, _>>()?;
                let hash = poseidon_hash(cs.namespace(|| "hash"), &inputs, hash_params)?;
                Made::Num(hash[0].clone())
            }
            Step::ConditionallyReverse { a, b, condition } => {
                let (left, right) = BackendNum::conditionally_reverse(
                    cs.namespace(|| "reverse"),
                    &num(&made, a)?,
                    &num(&made, b)?,
                    &bit(&made, condition)?,
                )?;
                Made::Pair(left, right)
            }
            Step::ConditionallySelect { a, b, condition } => {
                Made::Num(BackendNum::conditionally_select(
                    cs.namespace(|| "select"),
                    &num(&made, a)?,
                    &num(&made, b)?,
                    &bit(&made, condition)?,
                )?)
            }
            Step::IntoBits { num: n } => {
                Made::Bits(num(&made, n)?.into_bits_le(cs.namespace(|| "bits"))?)
            }
            Step::Inputize { num: n } => {
                num(&made, n)?.inputize(cs.namespace(|| "input"))?;
                Made::Nothing
            }
            Step::Enforce { a, b, c } => {
                let (a, b, c) =
                    (sum::<CS>(&made, a)?, sum::<CS>(&made, b)?, sum::<CS>(&made, c)?);
                cs.enforce(|| "product", |lc| lc + &a, |lc| lc + &b, |lc| lc + &c);
                Made::Nothing
            }
            Step::EnforceEqual { a, b } => {
                Boolean::enforce_equal(cs.namespace(|| "equal"), &bit(&made, a)?, &bit(&made, b)?)?;
                Made::Nothing
            }
            Step::LimitBits { num: n, bits } => {
                num(&made, n)?.limit_number_of_bits(cs.namespace(|| "limit"), *bits)?;
                Made::Nothing
            }
            Step::VerifySignature { signature, hash, message_bytes } => {
                let message = num(&made, hash)?.into_bits_le(cs.namespace(|| "message"))?;
                let generator = EdwardsPoint::witness(
                    cs.namespace(|| "generator"),
                    Some(sign_params.generator(FixedGenerators::SpendingKeyGenerator).clone()),
                    sign_params,
                )?;
                let signature = EddsaSignature {
                    r: point(&made, &signature.r.x)?,
                    s: num(&made, &signature.s)?,
                    pk: point(&made, &signature.pk.x)?,
                };
                signature.verify_raw_message_signature(
                    cs.namespace(|| "signature"),
                    sign_params,
                    &message[..(message_bytes * 8)],
                    generator,
                    *message_bytes,
                )?;
                Made::Nothing
            }
        };
        made.push(next);
    }
    Ok(())
}

struct LaidOut<'a> {
    steps: Vec<Step>,
    hash_params: &'a Bn256PoseidonParams,
    sign_params: &'a AltJubjubBn256,
}

impl<'a> Circuit<Bn256> for LaidOut<'a> {
    fn synthesize<CS: Backend<Bn256>>(self, cs: &mut CS) -> Result<(), SynthesisError> {
        replay(&self.steps, cs, self.hash_params, self.sign_params)
    }
}

/// A slot's witness with nothing known, for a tree of the given depth.
fn blank_state(depth: usize) -> AccountState {
    AccountState {
        old_balance: None,
        new_balance: None,
        old_pubkey: None,
        new_pubkey: None,
        old_nonce: None,
        new_nonce: None,
        account_path: vec![None; depth],
        account_indices: vec![None; depth],
    }
}

/// Makes parameters for the layout without witnesses, proves the layout
/// with them, and checks that the proof verifies for the given inputs and
/// for no others that differ in one place.
fn proof_round(blank: &ConstraintSystem, laid: &ConstraintSystem, inputs: &[FieldElement]) {
    let backend_hash_params = Bn256PoseidonParams::new_for_params::<BlakeHasher>(3, 2, 4, 126);
    let backend_sign_params = AltJubjubBn256::new();
    let lay = |cs: &ConstraintSystem| LaidOut {
        steps: cs.steps().clone(),
        hash_params: &backend_hash_params,
        sign_params: &backend_sign_params,
    };
    let mut rng = thread_rng();
    let params = generate_random_parameters(lay(blank), &mut rng).unwrap();
    let proof = create_random_proof(lay(laid), &params, &mut rng).unwrap();
    let verifying_key = prepare_verifying_key(&params.vk);

    let public_inputs: Vec<Fr> = inputs.iter().map(to_fr).collect();
    assert!(verify_proof(&verifying_key, &proof, &public_inputs).unwrap());
    for i in 0..public_inputs.len() {
        let mut changed = public_inputs.clone();
        changed[i] = to_fr(&inputs[i].plus(&FieldElement::one()));
        assert!(!verify_proof(&verifying_key, &proof, &changed).unwrap());
    }
}

fn key(limbs: [u64; 4]) -> PrivateKey {
    PrivateKey(Scalar::from_limbs(limbs).unwrap())
}

/// An operator of two slots with batches of one, after a deposit of 100 to
/// each slot under the keys of the given secrets.
fn funded<'a>(
    hash_params: &'a HashParams,
    sign_params: &'a SignParams,
    first: &PrivateKey,
    second: &PrivateKey,
) -> Operator<'a> {
    let mut oper = Operator::new(1, 1, 1, 1, 1, hash_params, sign_params);
    let pubkey = Some(PublicKey::from_private(first, sign_params));
    oper.add_deposit(Deposit { pubkey, account_id: 0, amount: 100 }).unwrap();
    oper.execute_deposit_batch().unwrap();
    let pubkey = Some(PublicKey::from_private(second, sign_params));
    oper.add_deposit(Deposit { pubkey, account_id: 1, amount: 100 }).unwrap();
    oper.execute_deposit_batch().unwrap();
    oper
}

#[test]
fn a_deposit_s_proof_verifies_for_its_inputs_only() {
    let hash_params = HashParams::new(3, 2, 4, 126).unwrap();
    let sign_params = SignParams::new();

    let mut oper = Operator::new(1, 1, 1, 1, 1, &hash_params, &sign_params);
    let pubkey = Some(PublicKey::from_private(&key([3, 1, 4, 1]), &sign_params));
    oper.add_deposit(Deposit { pubkey, account_id: 1, amount: 100 }).unwrap();
    let (inputs, circuit) = oper.execute_deposit_batch().unwrap();
    let mut cs = ConstraintSystem::new();
    circuit.synthesize(&mut cs);

    let mut shape = circuit.clone();
    shape.old_accum_hash = None;
    shape.new_accum_hash = None;
    shape.old_account_root = None;
    shape.new_account_root = None;
    for item in shape.deposit_queue.iter_mut() {
        item.pubkey = None;
        item.account_id = None;
        item.amount = None;
        item.account_state = blank_state(1);
    }
    let mut topology = ConstraintSystem::new();
    shape.synthesize(&mut topology);

    assert_eq!(inputs.len(), 4);
    proof_round(&topology, &cs, &inputs);
}

#[test]
fn an_onchain_withdrawal_s_proof_verifies_for_its_inputs_only() {
    let hash_params = HashParams::new(3, 2, 4, 126).unwrap();
    let sign_params = SignParams::new();
    let (maker, taker) = (key([3, 1, 4, 1]), key([2, 7, 1, 8]));
    let mut oper = funded(&hash_params, &sign_params, &maker, &taker);

    oper.add_onchain_withdrawal(OnchainWithdrawal { account_id: 1, amount: None }).unwrap();
    assert!(oper.can_execute_onchain_withdrawal_batch());
    let (inputs, circuit) = oper.execute_onchain_withdrawal_batch().unwrap();
    let mut cs = ConstraintSystem::new();
    circuit.synthesize(&mut cs);

    let mut shape = circuit.clone();
    shape.old_accum_hash = None;
    shape.new_accum_hash = None;
    shape.old_account_root = None;
    shape.new_account_root = None;
    for item in shape.queue.iter_mut() {
        item.account_state = blank_state(1);
        item.account_id = None;
        item.amount = None;
    }
    let mut topology = ConstraintSystem::new();
    shape.synthesize(&mut topology);

    assert_eq!(inputs.len(), 6);
    proof_round(&topology, &cs, &inputs);
}
