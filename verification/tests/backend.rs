use bellman_ce::{ConstraintSystem as Backend, LinearCombination, SynthesisError};
use ff_ce::PrimeField;
use openplasma_circuits::circuit::{AllocatedBit, AllocatedNum, ConstraintSystem, Step, Term};
use openplasma_circuits::data_structs::deposit::Deposit;
use openplasma_circuits::data_structs::offchain_withdrawal::OffchainWithdrawal;
use openplasma_circuits::data_structs::onchain_withdrawal::OnchainWithdrawal;
use openplasma_circuits::data_structs::transfer::Transfer;
use openplasma_circuits::eddsa::{PrivateKey, PublicKey, SignParams};
use openplasma_circuits::field::{FieldElement, Scalar};
use openplasma_circuits::hash::HashParams;
use openplasma_circuits::operator::Operator;
use openplasma_circuits::utils::utils::usize_to_fr;
use pairing_ce::bn256::{Bn256, Fr, FrRepr};
use rand::{thread_rng, Rng};
use sapling_crypto_ce::alt_babyjubjub::fs::Fs;
use sapling_crypto_ce::alt_babyjubjub::AltJubjubBn256;
use sapling_crypto_ce::circuit::baby_eddsa::EddsaSignature;
use sapling_crypto_ce::circuit::boolean::{AllocatedBit as BackendBit, Boolean};
use sapling_crypto_ce::circuit::ecc::EdwardsPoint;
use sapling_crypto_ce::circuit::num::AllocatedNum as BackendNum;
use sapling_crypto_ce::circuit::poseidon_hash::poseidon_hash;
use sapling_crypto_ce::circuit::test::TestConstraintSystem;
use sapling_crypto_ce::group_hash::BlakeHasher;
use sapling_crypto_ce::jubjub::edwards::Point;
use sapling_crypto_ce::jubjub::{FixedGenerators, JubjubParams, Unknown};
use sapling_crypto_ce::poseidon::bn256::Bn256PoseidonParams;
use sapling_crypto_ce::poseidon::PoseidonHashParams;

/// What a step of a layout has made in the backend.
enum Made {
    Nothing,
    Num(BackendNum<Bn256>),
    Pair(BackendNum<Bn256>, BackendNum<Bn256>),
    Point(EdwardsPoint<Bn256>),
    Bit(Boolean),
    Bits(Vec<Boolean>),
}

fn to_fr(value: &FieldElement) -> Fr {
    Fr::from_repr(FrRepr(value.to_limbs())).unwrap()
}

fn num(made: &[Made], num: &AllocatedNum) -> Result<BackendNum<Bn256>, SynthesisError> {
    match (made.get(num.source), num.slot) {
        (Some(Made::Num(n)), 0) => Ok(n.clone()),
        (Some(Made::Pair(n, _)), 0) => Ok(n.clone()),
        (Some(Made::Pair(_, n)), 1) => Ok(n.clone()),
        (Some(Made::Point(p)), 0) => Ok(p.get_x().clone()),
        (Some(Made::Point(p)), 1) => Ok(p.get_y().clone()),
        _ => Err(SynthesisError::Unsatisfiable),
    }
}

fn bit(made: &[Made], bit: &AllocatedBit) -> Result<Boolean, SynthesisError> {
    match (made.get(bit.source), bit.slot) {
        (Some(Made::Bit(b)), 0) => Ok(b.clone()),
        (Some(Made::Bits(bits)), slot) if slot < bits.len() => Ok(bits[slot].clone()),
        _ => Err(SynthesisError::Unsatisfiable),
    }
}

fn point(made: &[Made], x: &AllocatedNum) -> Result<EdwardsPoint<Bn256>, SynthesisError> {
    match made.get(x.source) {
        Some(Made::Point(p)) => Ok(p.clone()),
        _ => Err(SynthesisError::Unsatisfiable),
    }
}

fn sum<CS: Backend<Bn256>>(
    made: &[Made],
    terms: &[Term],
) -> Result<LinearCombination<Bn256>, SynthesisError> {
    let mut lc = LinearCombination::zero();
    for term in terms {
        lc = match term {
            Term::One => lc + CS::one(),
            Term::Num(n) => lc + num(made, n)?.get_variable(),
        };
    }
    Ok(lc)
}

/// Lays the steps out in the backend.
fn replay<CS: Backend<Bn256>>(
    steps: &[Step],
    cs: &mut CS,
    hash_params: &Bn256PoseidonParams,
    sign_params: &AltJubjubBn256,
) -> Result<(), SynthesisError> {
    let mut made: Vec<Made> = Vec::with_capacity(steps.len());
    for (i, step) in steps.iter().enumerate() {
        let mut cs = cs.namespace(|| format!("step {}", i));
        let next = match step {
            Step::Alloc { value } => Made::Num(BackendNum::alloc(cs.namespace(|| "number"), || {
                value.as_ref().map(to_fr).ok_or(SynthesisError::AssignmentMissing)
            })?),
            Step::AllocBit { bit: value } => {
                Made::Bit(Boolean::from(BackendBit::alloc(cs.namespace(|| "bit"), *value)?))
            }
            Step::WitnessPoint { point: value } => {
                let value = match value {
                    Some(key) => Some(
                        Point::<Bn256, Unknown>::from_xy(to_fr(&key.x), to_fr(&key.y), sign_params)
                            .ok_or(SynthesisError::Unsatisfiable)?,
                    ),
                    None => None,
                };
                Made::Point(EdwardsPoint::witness(cs.namespace(|| "point"), value, sign_params)?)
            }
            Step::Hash { inputs, t, r_f, r_p } => {
                if (*t, *r_f, *r_p) != (hash_params.t(), hash_params.r_f(), hash_params.r_p()) {
                    return Err(SynthesisError::Unsatisfiable);
                }
                let inputs = inputs.iter().map(|n| num(&made, n)).collect::<Result<Vec<_>, _>>()?;
                let hash = poseidon_hash(cs.namespace(|| "hash"), &inputs, hash_params)?;
                Made::Num(hash[0].clone())
            }
            Step::ConditionallyReverse { a, b, condition } => {
                let (left, right) = BackendNum::conditionally_reverse(
                    cs.namespace(|| "reverse"),
                    &num(&made, a)?,
                    &num(&made, b)?,
                    &bit(&made, condition)?,
                )?;
                Made::Pair(left, right)
            }
            Step::ConditionallySelect { a, b, condition } => {
                Made::Num(BackendNum::conditionally_select(
                    cs.namespace(|| "select"),
                    &num(&made, a)?,
                    &num(&made, b)?,
                    &bit(&made, condition)?,
                )?)
            }
            Step::IntoBits { num: n } => {
                Made::Bits(num(&made, n)?.into_bits_le(cs.namespace(|| "bits"))?)
            }
            Step::Inputize { num: n } => {
                num(&made, n)?.inputize(cs.namespace(|| "input"))?;
                Made::Nothing
            }
            Step::Enforce { a, b, c } => {
                let (a, b, c) =
                    (sum::<CS>(&made, a)?, sum::<CS>(&made, b)?, sum::<CS>(&made, c)?);
                cs.enforce(|| "product", |lc| lc + &a, |lc| lc + &b, |lc| lc + &c);
                Made::Nothing
            }
            Step::EnforceEqual { a, b } => {
                Boolean::enforce_equal(cs.namespace(|| "equal"), &bit(&made, a)?, &bit(&made, b)?)?;
                Made::Nothing
            }
            Step::LimitBits { num: n, bits } => {
                num(&made, n)?.limit_number_of_bits(cs.namespace(|| "limit"), *bits)?;
                Made::Nothing
            }
            Step::VerifySignature { signature, hash, message_bytes } => {
                let message = num(&made, hash)?.into_bits_le(cs.namespace(|| "message"))?;
                let generator = EdwardsPoint::witness(
                    cs.namespace(|| "generator"),
                    Some(sign_params.generator(FixedGenerators::SpendingKeyGenerator).clone()),
                    sign_params,
                )?;
                let signature = EddsaSignature {
                    r: point(&made, &signature.r.x)?,
                    s: num(&made, &signature.s)?,
                    pk: point(&made, &signature.pk.x)?,
                };
                signature.verify_raw_message_signature(
                    cs.namespace(|| "signature"),
                    sign_params,
                    &message[..(message_bytes * 8)],
                    generator,
                    *message_bytes,
                )?;
                Made::Nothing
            }
        };
        made.push(next);
    }
    Ok(())
}

struct Setting {
    hash_params: HashParams,
    sign_params: SignParams,
    backend_hash_params: Bn256PoseidonParams,
    backend_sign_params: AltJubjubBn256,
}

fn setting() -> Setting {
    Setting {
        hash_params: HashParams::new(5, 6, 52, 126).unwrap(),
        sign_params: SignParams::new(),
        backend_hash_params: Bn256PoseidonParams::new_for_params::<BlakeHasher>(5, 6, 52, 126),
        backend_sign_params: AltJubjubBn256::new(),
    }
}

fn random_key() -> PrivateKey {
    let mut rng = thread_rng();
    let scalar: Fs = rng.gen();
    PrivateKey(Scalar::from_limbs(scalar.into_repr().0).unwrap())
}

/// Whether the backend finds the layout satisfied, and the public inputs
/// that it was given.
fn backend_verdict(setting: &Setting, cs: &ConstraintSystem, inputs: &[FieldElement]) -> (bool, bool) {
    let mut backend = TestConstraintSystem::<Bn256>::new();
    replay(cs.steps(), &mut backend, &setting.backend_hash_params, &setting.backend_sign_params)
        .unwrap();
    let inputs: Vec<Fr> = inputs.iter().map(to_fr).collect();
    (backend.is_satisfied(), backend.verify(&inputs))
}

fn funded_operator<'a>(
    setting: &'a Setting,
    deposit_batch: usize,
    onchain_batch: usize,
    keys: &[PrivateKey],
) -> Operator<'a> {
    let mut oper = Operator::new(
        deposit_batch,
        onchain_batch,
        1,
        1,
        2,
        &setting.hash_params,
        &setting.sign_params,
    );
    for (account_id, key) in keys.iter().enumerate() {
        let pubkey = PublicKey::from_private(key, &setting.sign_params);
        oper.add_deposit(Deposit { pubkey: Some(pubkey), account_id, amount: 100 }).unwrap();
    }
    oper
}

#[test]
fn deposit_layout_agrees_with_backend() {
    let setting = setting();
    let keys = [random_key(), random_key()];
    let mut oper = funded_operator(&setting, 2, 2, &keys);
    assert!(oper.can_execute_deposit_batch());
    let (inputs, circuit) = oper.execute_deposit_batch().unwrap();

    let mut cs = ConstraintSystem::new();
    circuit.synthesize(&mut cs);
    assert_eq!(cs.steps().len(), 84);
    assert!(cs.is_satisfied(&setting.sign_params));
    assert!(cs.verify(&inputs));
    assert_eq!(cs.public_inputs(), inputs.iter().map(|v| Some(*v)).collect::<Vec<_>>());
    assert_eq!(backend_verdict(&setting, &cs, &inputs), (true, true));

    for i in 0..inputs.len() {
        let mut tampered = inputs.clone();
        tampered[i] = tampered[i].plus(&FieldElement::one());
        assert!(!cs.verify(&tampered));
        assert_eq!(backend_verdict(&setting, &cs, &tampered), (true, false));
    }
    assert!(!cs.verify(&inputs[..3].to_vec()));
}

#[test]
fn tampered_deposit_batch_is_refused_by_both() {
    let setting = setting();
    let keys = [random_key(), random_key()];
    let mut oper = funded_operator(&setting, 2, 2, &keys);
    let (inputs, mut circuit) = oper.execute_deposit_batch().unwrap();
    circuit.new_account_root = Some(inputs[3].plus(&FieldElement::one()));

    let mut cs = ConstraintSystem::new();
    circuit.synthesize(&mut cs);
    assert!(!cs.is_satisfied(&setting.sign_params));
    let mut tampered = inputs.clone();
    tampered[3] = tampered[3].plus(&FieldElement::one());
    assert_eq!(backend_verdict(&setting, &cs, &tampered), (false, true));
}

#[test]
fn onchain_withdrawal_layout_agrees_with_backend() {
    let setting = setting();
    let keys = [random_key(), random_key()];
    let mut oper = funded_operator(&setting, 2, 2, &keys);
    oper.execute_deposit_batch().unwrap();
    oper.add_onchain_withdrawal(OnchainWithdrawal { account_id: 1, amount: None }).unwrap();
    oper.add_onchain_withdrawal(OnchainWithdrawal { account_id: 0, amount: None }).unwrap();
    assert!(oper.can_execute_onchain_withdrawal_batch());
    let (inputs, circuit) = oper.execute_onchain_withdrawal_batch().unwrap();
    assert_eq!(inputs.len(), 8);

    let mut cs = ConstraintSystem::new();
    circuit.synthesize(&mut cs);
    assert_eq!(cs.steps().len(), 84);
    assert!(cs.is_satisfied(&setting.sign_params));
    assert!(cs.verify(&inputs));
    assert_eq!(backend_verdict(&setting, &cs, &inputs), (true, true));
    let mut tampered = inputs.clone();
    tampered.swap(4, 6);
    assert!(!cs.verify(&tampered));
    assert_eq!(backend_verdict(&setting, &cs, &tampered), (true, false));
}

#[test]
fn slot_number_with_the_same_low_bits_is_refused_by_both() {
    let setting = setting();
    let keys = [random_key(), random_key()];
    let mut oper = funded_operator(&setting, 2, 2, &keys);
    oper.execute_deposit_batch().unwrap();
    oper.add_onchain_withdrawal(OnchainWithdrawal { account_id: 1, amount: None }).unwrap();
    oper.add_onchain_withdrawal(OnchainWithdrawal { account_id: 0, amount: None }).unwrap();
    let (inputs, mut circuit) = oper.execute_onchain_withdrawal_batch().unwrap();
    // slot 5 of a tree of four slots: the same two path bits as slot 1
    circuit.queue[0].account_id = Some(usize_to_fr(5));

    let mut cs = ConstraintSystem::new();
    circuit.synthesize(&mut cs);
    assert!(!cs.is_satisfied(&setting.sign_params));
    let mut tampered = inputs.clone();
    tampered[4] = usize_to_fr(5);
    assert_eq!(backend_verdict(&setting, &cs, &tampered), (false, true));
}

#[test]
fn offchain_withdrawal_layout_agrees_with_backend() {
    let setting = setting();
    let keys = [random_key(), random_key()];
    let mut oper = funded_operator(&setting, 2, 2, &keys);
    oper.execute_deposit_batch().unwrap();
    let mut withdrawal = OffchainWithdrawal { account_id: 1, amount: 30, nonce: 7, sign: None };
    withdrawal.sign(&keys[1], &setting.hash_params, &setting.sign_params);
    oper.add_offchain_withdrawal(withdrawal).unwrap();
    assert!(oper.can_execute_offchain_withdrawal_batch());
    let (inputs, circuit) = oper.execute_offchain_withdrawal_batch().unwrap();

    let mut cs = ConstraintSystem::new();
    circuit.synthesize(&mut cs);
    assert_eq!(cs.steps().len(), 49);
    assert!(cs.is_satisfied(&setting.sign_params));
    assert_eq!(backend_verdict(&setting, &cs, &inputs), (true, true));
}

#[test]
fn transfer_layout_agrees_with_backend() {
    let setting = setting();
    let keys = [random_key(), random_key()];
    let mut oper = funded_operator(&setting, 2, 2, &keys);
    oper.execute_deposit_batch().unwrap();
    let mut transfer =
        Transfer { account_id_from: 1, account_id_to: 3, amount: 40, nonce: 1, sign: None };
    transfer.sign(&keys[1], &setting.hash_params, &setting.sign_params);
    oper.add_transfer(transfer).unwrap();
    assert!(oper.can_execute_transfer_batch());
    let (inputs, circuit) = oper.execute_transfer_batch().unwrap();

    let mut cs = ConstraintSystem::new();
    circuit.synthesize(&mut cs);
    assert_eq!(cs.steps().len(), 81);
    assert!(cs.is_satisfied(&setting.sign_params));
    assert_eq!(backend_verdict(&setting, &cs, &inputs), (true, true));
}

#[test]
fn transfer_with_forged_signature_is_refused_by_both() {
    let setting = setting();
    let keys = [random_key(), random_key()];
    let mut oper = funded_operator(&setting, 2, 2, &keys);
    oper.execute_deposit_batch().unwrap();
    let mut transfer =
        Transfer { account_id_from: 1, account_id_to: 3, amount: 40, nonce: 1, sign: None };
    transfer.sign(&keys[1], &setting.hash_params, &setting.sign_params);
    oper.add_transfer(transfer).unwrap();
    let (inputs, mut circuit) = oper.execute_transfer_batch().unwrap();

    let mut other = transfer;
    other.amount = 41;
    other.sign(&keys[1], &setting.hash_params, &setting.sign_params);
    circuit.queue[0].sign = other.sign;

    let mut cs = ConstraintSystem::new();
    circuit.synthesize(&mut cs);
    assert!(!cs.is_satisfied(&setting.sign_params));
    assert_eq!(backend_verdict(&setting, &cs, &inputs), (false, true));
}

#[test]
fn layout_without_values_has_the_same_shape() {
    let setting = setting();
    let keys = [random_key(), random_key()];
    let mut oper = funded_operator(&setting, 2, 2, &keys);
    let (_, circuit) = oper.execute_deposit_batch().unwrap();

    let mut shape = circuit.clone();
    shape.old_accum_hash = None;
    shape.new_accum_hash = None;
    shape.old_account_root = None;
    shape.new_account_root = None;
    for item in shape.deposit_queue.iter_mut() {
        item.pubkey = None;
        item.account_id = None;
        item.amount = None;
        item.account_state.old_balance = None;
        item.account_state.new_balance = None;
        item.account_state.old_pubkey = None;
        item.account_state.new_pubkey = None;
        item.account_state.old_nonce = None;
        item.account_state.new_nonce = None;
        for value in item.account_state.account_path.iter_mut() {
            *value = None;
        }
        for value in item.account_state.account_indices.iter_mut() {
            *value = None;
        }
    }

    let mut with_values = ConstraintSystem::new();
    circuit.synthesize(&mut with_values);
    let mut without_values = ConstraintSystem::new();
    shape.synthesize(&mut without_values);
    assert_eq!(with_values.steps().len(), without_values.steps().len());
    assert!(!without_values.is_satisfied(&setting.sign_params));
    for (a, b) in with_values.steps().iter().zip(without_values.steps().iter()) {
        assert_eq!(std::mem::discriminant(a), std::mem::discriminant(b));
    }
}
