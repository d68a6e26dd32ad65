use ff_ce::PrimeField;
use openplasma_circuits::circuit::ConstraintSystem;
use openplasma_circuits::data_structs::deposit::Deposit;
use openplasma_circuits::data_structs::offchain_withdrawal::OffchainWithdrawal;
use openplasma_circuits::data_structs::onchain_withdrawal::OnchainWithdrawal;
use openplasma_circuits::data_structs::transfer::Transfer;
use openplasma_circuits::eddsa::{PrivateKey, PublicKey, SignParams};
use openplasma_circuits::field::Scalar;
use openplasma_circuits::hash::HashParams;
use openplasma_circuits::operator::{Operator, OperatorError};
use openplasma_circuits::utils::utils::{fr_to_usize, usize_to_fr};
use rand::{thread_rng, Rng};
use sapling_crypto_ce::alt_babyjubjub::fs::Fs;

fn random_key() -> PrivateKey {
    let mut rng = thread_rng();
    let scalar: Fs = rng.gen();
    PrivateKey(Scalar::from_limbs(scalar.into_repr().0).unwrap())
}

#[test]
pub fn happy_path() {
    let hash_params = HashParams::new(5, 6, 52, 126).unwrap();
    let sign_params = SignParams::new();

    let mut oper = Operator::new(2, 2, 1, 1, 2, &hash_params, &sign_params);

    let seckey_maker = random_key();
    let pubkey_maker = PublicKey::from_private(&seckey_maker, &sign_params);

    let seckey_taker = random_key();
    let pubkey_taker = PublicKey::from_private(&seckey_taker, &sign_params);

    // deposits

    let deposit_maker = Deposit { pubkey: Some(pubkey_maker), account_id: 0, amount: 100 };
    oper.add_deposit(deposit_maker).unwrap();

    let deposit_taker = Deposit { pubkey: Some(pubkey_taker), account_id: 1, amount: 100 };
    oper.add_deposit(deposit_taker).unwrap();

    let old_root = oper.tree.get_root();
    let (public_inputs, circuit) = oper.execute_deposit_batch().unwrap();
    assert_eq!(public_inputs.len(), 4);
    assert_eq!(public_inputs[0], usize_to_fr(0));
    assert_eq!(public_inputs[1], oper.deposit_accum_hash);
    assert_eq!(public_inputs[2], old_root);
    assert_eq!(public_inputs[3], oper.tree.get_root());
    assert_eq!(circuit.deposit_queue.len(), 2);

    // the deposits' proof

    let mut cs = ConstraintSystem::new();
    circuit.synthesize(&mut cs);
    let is_valid = cs.is_satisfied(&sign_params) && cs.verify(&public_inputs);
    assert!(is_valid);

    // after the deposits

    assert_eq!(fr_to_usize(oper.tree.get_balance(0)), 100);
    assert_eq!(fr_to_usize(oper.tree.get_balance(1)), 100);

    // a transfer

    let mut transfer =
        Transfer { account_id_from: 0, account_id_to: 1, amount: 1, nonce: 1, sign: None };

    transfer.sign(&seckey_maker, &hash_params, &sign_params);
    oper.add_transfer(transfer).unwrap();

    let old_root = oper.tree.get_root();
    let (public_inputs, circuit) = oper.execute_transfer_batch().unwrap();
    assert_eq!(public_inputs, vec![old_root, oper.tree.get_root()]);

    // the transfer's proof

    let mut cs = ConstraintSystem::new();
    circuit.synthesize(&mut cs);
    let is_valid = cs.is_satisfied(&sign_params) && cs.verify(&public_inputs);
    assert!(is_valid);

    // after the transfer

    assert_eq!(oper.transfer_queue.len(), 0);

    assert_eq!(fr_to_usize(oper.tree.get_balance(0)), 99);
    assert_eq!(fr_to_usize(oper.tree.get_balance(1)), 101);

    // an off-chain withdrawal

    let mut withdrawal = OffchainWithdrawal { account_id: 0, amount: 10, nonce: 2, sign: None };

    withdrawal.sign(&seckey_maker, &hash_params, &sign_params);
    oper.add_offchain_withdrawal(withdrawal).unwrap();

    let old_root = oper.tree.get_root();
    let (public_inputs, circuit) = oper.execute_offchain_withdrawal_batch().unwrap();
    assert_eq!(
        public_inputs,
        vec![old_root, oper.tree.get_root(), usize_to_fr(0), usize_to_fr(10)]
    );

    // the withdrawal's proof

    let mut cs = ConstraintSystem::new();
    circuit.synthesize(&mut cs);
    let is_valid = cs.is_satisfied(&sign_params) && cs.verify(&public_inputs);
    assert!(is_valid);

    // after the withdrawal

    assert_eq!(fr_to_usize(oper.tree.get_balance(0)), 89);

    // on-chain withdrawals

    let mut withdrawal = OnchainWithdrawal { account_id: 0, amount: None };
    oper.add_onchain_withdrawal(withdrawal).unwrap();

    withdrawal.account_id = 1;

    oper.add_onchain_withdrawal(withdrawal).unwrap();

    let old_root = oper.tree.get_root();
    let (public_inputs, circuit) = oper.execute_onchain_withdrawal_batch().unwrap();
    assert_eq!(
        public_inputs,
        vec![
            usize_to_fr(0),
            oper.withdrawal_accum_hash,
            old_root,
            oper.tree.get_root(),
            usize_to_fr(0),
            usize_to_fr(89),
            usize_to_fr(1),
            usize_to_fr(101),
        ]
    );

    // the withdrawals' proof

    let mut cs = ConstraintSystem::new();
    circuit.synthesize(&mut cs);
    let is_valid = cs.is_satisfied(&sign_params) && cs.verify(&public_inputs);
    assert!(is_valid);

    // after the withdrawals

    assert_eq!(fr_to_usize(oper.tree.get_balance(0)), 0);
    assert_eq!(fr_to_usize(oper.tree.get_balance(1)), 0);
}

#[test]
fn transfer_signed_with_wrong_key_is_refused() {
    let hash_params = HashParams::new(5, 6, 52, 126).unwrap();
    let sign_params = SignParams::new();
    let mut oper = Operator::new(2, 1, 1, 1, 2, &hash_params, &sign_params);

    let seckey_maker = random_key();
    let pubkey_maker = PublicKey::from_private(&seckey_maker, &sign_params);
    let seckey_taker = random_key();
    let pubkey_taker = PublicKey::from_private(&seckey_taker, &sign_params);

    oper.add_deposit(Deposit { pubkey: Some(pubkey_maker), account_id: 0, amount: 100 }).unwrap();
    oper.add_deposit(Deposit { pubkey: Some(pubkey_taker), account_id: 1, amount: 100 }).unwrap();
    oper.execute_deposit_batch().unwrap();

    let mut transfer =
        Transfer { account_id_from: 0, account_id_to: 1, amount: 1, nonce: 1, sign: None };
    transfer.sign(&seckey_taker, &hash_params, &sign_params);
    oper.add_transfer(transfer).unwrap();

    let root = oper.tree.get_root();
    let result = oper.execute_transfer_batch();
    assert!(matches!(result, Err(OperatorError::InvalidSignature)));
    assert_eq!(fr_to_usize(oper.tree.get_balance(0)), 100);
    assert_eq!(fr_to_usize(oper.tree.get_balance(1)), 100);
    assert_eq!(oper.tree.get_root(), root);
    assert_eq!(oper.transfer_queue.len(), 0);
}

#[test]
fn transfer_with_a_bad_signature_and_too_large_an_amount_is_refused_as_unsigned() {
    let hash_params = HashParams::new(5, 6, 52, 126).unwrap();
    let sign_params = SignParams::new();
    let mut oper = Operator::new(2, 1, 1, 2, 2, &hash_params, &sign_params);

    let seckey_maker = random_key();
    let pubkey_maker = PublicKey::from_private(&seckey_maker, &sign_params);
    let seckey_taker = random_key();
    let pubkey_taker = PublicKey::from_private(&seckey_taker, &sign_params);

    oper.add_deposit(Deposit { pubkey: Some(pubkey_maker), account_id: 0, amount: 100 }).unwrap();
    oper.add_deposit(Deposit { pubkey: Some(pubkey_taker), account_id: 1, amount: 100 }).unwrap();
    oper.execute_deposit_batch().unwrap();

    // signed, then changed: more than the sender has
    let mut first =
        Transfer { account_id_from: 0, account_id_to: 1, amount: 1, nonce: 1, sign: None };
    first.sign(&seckey_maker, &hash_params, &sign_params);
    first.amount = 1000;
    let mut second =
        Transfer { account_id_from: 1, account_id_to: 0, amount: 5, nonce: 1, sign: None };
    second.sign(&seckey_taker, &hash_params, &sign_params);
    let mut third =
        Transfer { account_id_from: 1, account_id_to: 0, amount: 6, nonce: 2, sign: None };
    third.sign(&seckey_taker, &hash_params, &sign_params);
    oper.add_transfer(second).unwrap();
    oper.add_transfer(first).unwrap();
    oper.add_transfer(third).unwrap();

    let root = oper.tree.get_root();
    assert!(oper.can_execute_transfer_batch());
    let result = oper.execute_transfer_batch();
    assert!(matches!(result, Err(OperatorError::InvalidSignature)));
    assert_eq!(fr_to_usize(oper.tree.get_balance(0)), 100);
    assert_eq!(fr_to_usize(oper.tree.get_balance(1)), 100);
    assert_eq!(fr_to_usize(oper.tree.get_nonce(1)), 0);
    assert_eq!(oper.tree.get_root(), root);
    // the two that were taken are gone, the one behind them waits
    assert_eq!(oper.transfer_queue.len(), 1);
    assert_eq!(oper.transfer_queue[0].amount, 6);
}

#[test]
fn offchain_withdrawal_changed_after_signing_is_refused_and_consumed() {
    let hash_params = HashParams::new(5, 6, 52, 126).unwrap();
    let sign_params = SignParams::new();
    let mut oper = Operator::new(1, 1, 1, 1, 2, &hash_params, &sign_params);

    let seckey = random_key();
    let pubkey = PublicKey::from_private(&seckey, &sign_params);
    oper.add_deposit(Deposit { pubkey: Some(pubkey), account_id: 2, amount: 50 }).unwrap();
    oper.execute_deposit_batch().unwrap();

    let mut withdrawal = OffchainWithdrawal { account_id: 2, amount: 10, nonce: 0, sign: None };
    withdrawal.sign(&seckey, &hash_params, &sign_params);
    withdrawal.amount = 60;
    oper.add_offchain_withdrawal(withdrawal).unwrap();

    let root = oper.tree.get_root();
    assert!(oper.can_execute_offchain_withdrawal_batch());
    let result = oper.execute_offchain_withdrawal_batch();
    assert!(matches!(result, Err(OperatorError::InvalidSignature)));
    assert_eq!(fr_to_usize(oper.tree.get_balance(2)), 50);
    assert_eq!(fr_to_usize(oper.tree.get_nonce(2)), 0);
    assert_eq!(oper.tree.get_root(), root);
    assert_eq!(oper.offchain_withdrawal_queue.len(), 0);
}

#[test]
fn a_verifying_transfer_of_too_much_cannot_be_executed() {
    let hash_params = HashParams::new(5, 6, 52, 126).unwrap();
    let sign_params = SignParams::new();
    let mut oper = Operator::new(1, 1, 1, 1, 1, &hash_params, &sign_params);

    let seckey = random_key();
    let pubkey = PublicKey::from_private(&seckey, &sign_params);
    oper.add_deposit(Deposit { pubkey: Some(pubkey), account_id: 0, amount: 50 }).unwrap();
    oper.execute_deposit_batch().unwrap();

    let mut transfer =
        Transfer { account_id_from: 0, account_id_to: 1, amount: 51, nonce: 1, sign: None };
    transfer.sign(&seckey, &hash_params, &sign_params);
    oper.add_transfer(transfer).unwrap();
    assert!(!oper.can_execute_transfer_batch());
}
