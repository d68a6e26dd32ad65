use openplasma_circuits::account::{path_witness, AccountCircuit};
use openplasma_circuits::circuit::{
    evaluate_sum, lc0, lc1, lc2, AllocatedNum, ConstraintSystem, Step, SynthesisError, Term,
    NUM_BITS,
};
use openplasma_circuits::data_structs::deposit::Deposit;
use openplasma_circuits::data_structs::offchain_withdrawal::OffchainWithdrawal;
use openplasma_circuits::data_structs::onchain_withdrawal::OnchainWithdrawal;
use openplasma_circuits::data_structs::sign::signed_bytes;
use openplasma_circuits::data_structs::transfer::Transfer;
use openplasma_circuits::eddsa::{PrivateKey, PublicKey, SignParams};
use openplasma_circuits::field::{FieldElement, Scalar};
use openplasma_circuits::hash::HashParams;
use openplasma_circuits::operator::{Operator, OperatorError};
use openplasma_circuits::tree::account::{Account, AccountsTree};
use openplasma_circuits::utils::allocate::{alloc_bits, alloc_nums};
use openplasma_circuits::utils::calc::{
    boolean_to_allocated_num, check_decomposition_le, enforce_next, enforce_same, enforce_sum,
};
use openplasma_circuits::utils::sign::{alloc_signature, verify_signature};
use openplasma_circuits::utils::tree::{calc_root, verify, TreeCircuit, TreeState};
use openplasma_circuits::utils::utils::{fr_to_bytes_le, fr_to_usize, optionalize, usize_to_fr};

fn params() -> (HashParams, SignParams) {
    (HashParams::new(5, 6, 52, 126).unwrap(), SignParams::new())
}

fn key(n: u64) -> PrivateKey {
    PrivateKey(Scalar::from_limbs([n, n + 1, n + 2, 3]).unwrap())
}

fn funded<'a>(hash_params: &'a HashParams, sign_params: &'a SignParams) -> AccountsTree<'a> {
    let mut tree = AccountsTree::new(2, hash_params, sign_params);
    for id in 0..3 {
        let deposit = Deposit {
            pubkey: Some(PublicKey::from_private(&key(id as u64), sign_params)),
            account_id: id,
            amount: 100 * (id + 1),
        };
        deposit.update_tree_and_record_state(&mut tree);
    }
    tree
}

fn balances(tree: &AccountsTree) -> Vec<usize> {
    (0..tree.accounts.len()).map(|id| fr_to_usize(tree.get_balance(id))).collect()
}

fn nonces(tree: &AccountsTree) -> Vec<usize> {
    (0..tree.accounts.len()).map(|id| fr_to_usize(tree.get_nonce(id))).collect()
}

#[test]
fn a_deposit_credits_the_slot_and_sets_its_key() {
    let (hash_params, sign_params) = params();
    let mut tree = AccountsTree::new(2, &hash_params, &sign_params);
    let old_root = tree.get_root();
    let (path, indices) = path_witness(&tree, 2);
    let pubkey = PublicKey::from_private(&key(1), &sign_params);
    let deposit = Deposit { pubkey: Some(pubkey), account_id: 2, amount: 150 };

    let state = deposit.update_tree_and_record_state(&mut tree);

    assert_eq!(balances(&tree), vec![0, 0, 150, 0]);
    assert_eq!(nonces(&tree), vec![0, 0, 0, 0]);
    assert_eq!(tree.get_pubkey(2), pubkey);
    assert_eq!(tree.get_pubkey(1), PublicKey::unset(&sign_params));
    assert_ne!(tree.get_root(), old_root);

    assert_eq!(state.old_balance, Some(usize_to_fr(0)));
    assert_eq!(state.new_balance, Some(usize_to_fr(150)));
    assert_eq!(state.old_pubkey, Some(PublicKey::unset(&sign_params)));
    assert_eq!(state.new_pubkey, Some(pubkey));
    assert_eq!(state.old_nonce, Some(usize_to_fr(0)));
    assert_eq!(state.new_nonce, Some(usize_to_fr(0)));
    assert_eq!(state.account_path, path);
    assert_eq!(state.account_indices, indices);
    assert_eq!(state.account_indices, vec![Some(false), Some(true)]);

    let again = deposit.update_tree_and_record_state(&mut tree);
    assert_eq!(balances(&tree), vec![0, 0, 300, 0]);
    assert_eq!(again.old_balance, Some(usize_to_fr(150)));
    // the slot's own path stays while the slot changes
    assert_eq!(again.account_path, state.account_path);
}

#[test]
fn a_transfer_moves_the_amount_and_advances_the_sender_s_nonce() {
    let (hash_params, sign_params) = params();
    let mut tree = funded(&hash_params, &sign_params);
    assert_eq!(balances(&tree), vec![100, 200, 300, 0]);
    let transfer =
        Transfer { account_id_from: 1, account_id_to: 3, amount: 60, nonce: 1, sign: None };
    let sender_key = tree.get_pubkey(1);
    let mid_path;
    {
        let mut scratch = tree.clone();
        scratch.update_balance(1, usize_to_fr(140));
        scratch.update_nonce(1, usize_to_fr(1));
        mid_path = path_witness(&scratch, 3).0;
    }
    let path_from = path_witness(&tree, 1).0;

    let (from, to) = transfer.update_tree_and_record_state(&mut tree);

    assert_eq!(balances(&tree), vec![100, 140, 300, 60]);
    assert_eq!(nonces(&tree), vec![0, 1, 0, 0]);
    assert_eq!(balances(&tree).iter().sum::<usize>(), 600);
    assert_eq!(tree.get_pubkey(1), sender_key);

    assert_eq!(from.old_balance, Some(usize_to_fr(200)));
    assert_eq!(from.new_balance, Some(usize_to_fr(140)));
    assert_eq!(from.old_nonce, Some(usize_to_fr(0)));
    assert_eq!(from.new_nonce, Some(usize_to_fr(1)));
    assert_eq!(from.old_pubkey, Some(sender_key));
    assert_eq!(from.new_pubkey, Some(sender_key));
    assert_eq!(from.account_path, path_from);
    assert_eq!(from.account_indices, vec![Some(true), Some(false)]);
    assert_eq!(to.old_balance, Some(usize_to_fr(0)));
    assert_eq!(to.new_balance, Some(usize_to_fr(60)));
    assert_eq!(to.old_nonce, to.new_nonce);
    assert_eq!(to.account_path, mid_path);
    assert_eq!(to.account_indices, vec![Some(true), Some(true)]);

    // to oneself: the balance stays, the nonce advances
    let own = Transfer { account_id_from: 1, account_id_to: 1, amount: 140, nonce: 2, sign: None };
    let (from, to) = own.update_tree_and_record_state(&mut tree);
    assert_eq!(balances(&tree), vec![100, 140, 300, 60]);
    assert_eq!(nonces(&tree), vec![0, 2, 0, 0]);
    assert_eq!(from.new_balance, Some(usize_to_fr(0)));
    assert_eq!(to.old_balance, Some(usize_to_fr(0)));
    assert_eq!(to.new_balance, Some(usize_to_fr(140)));
}

#[test]
fn withdrawals_debit_the_slot() {
    let (hash_params, sign_params) = params();
    let mut tree = funded(&hash_params, &sign_params);

    let offchain = OffchainWithdrawal { account_id: 2, amount: 300, nonce: 9, sign: None };
    let state = offchain.update_tree_and_record_state(&mut tree);
    assert_eq!(balances(&tree), vec![100, 200, 0, 0]);
    assert_eq!(nonces(&tree), vec![0, 0, 0, 0]);
    assert_eq!(state.old_balance, Some(usize_to_fr(300)));
    assert_eq!(state.new_balance, Some(usize_to_fr(0)));
    assert_eq!(state.old_nonce, state.new_nonce);
    assert_eq!(state.old_pubkey, state.new_pubkey);

    let onchain = OnchainWithdrawal { account_id: 1, amount: None };
    let state = onchain.update_tree_and_record_state(&mut tree);
    assert_eq!(balances(&tree), vec![100, 0, 0, 0]);
    assert_eq!(state.old_balance, Some(usize_to_fr(200)));
    assert_eq!(state.new_balance, Some(usize_to_fr(0)));
    assert_eq!(state.old_pubkey, state.new_pubkey);
    assert_eq!(state.old_nonce, state.new_nonce);
}

#[test]
fn requests_that_the_ledger_cannot_satisfy_are_told_apart() {
    let (hash_params, sign_params) = params();
    let tree = funded(&hash_params, &sign_params);
    let start: Vec<Account> = tree.accounts.clone();
    let pubkey = Some(PublicKey::from_private(&key(9), &sign_params));
    let try_on = |f: &dyn Fn(&mut Vec<Account>) -> bool| {
        let mut accounts = start.clone();
        let ok = f(&mut accounts);
        (ok, accounts == start)
    };

    // deposits
    assert_eq!(try_on(&|a| Deposit { pubkey, account_id: 3, amount: 1 }.apply_to_accounts(a)), (true, false));
    assert_eq!(try_on(&|a| Deposit { pubkey, account_id: 4, amount: 1 }.apply_to_accounts(a)), (false, true));
    assert_eq!(try_on(&|a| Deposit { pubkey: None, account_id: 3, amount: 1 }.apply_to_accounts(a)), (false, true));
    assert_eq!(
        try_on(&|a| Deposit { pubkey, account_id: 0, amount: usize::MAX - 99 }.apply_to_accounts(a)),
        (false, true)
    );
    assert_eq!(
        try_on(&|a| Deposit { pubkey, account_id: 0, amount: usize::MAX - 100 }.apply_to_accounts(a)),
        (true, false)
    );

    // transfers
    let transfer = |from, to, amount, nonce| Transfer {
        account_id_from: from,
        account_id_to: to,
        amount,
        nonce,
        sign: None,
    };
    assert_eq!(try_on(&|a| transfer(0, 1, 100, 1).apply_to_accounts(a)), (true, false));
    assert_eq!(try_on(&|a| transfer(0, 1, 101, 1).apply_to_accounts(a)), (false, true));
    assert_eq!(try_on(&|a| transfer(0, 1, 1, 0).apply_to_accounts(a)), (false, true));
    assert_eq!(try_on(&|a| transfer(0, 1, 1, 2).apply_to_accounts(a)), (false, true));
    assert_eq!(try_on(&|a| transfer(4, 1, 1, 1).apply_to_accounts(a)), (false, true));
    assert_eq!(try_on(&|a| transfer(0, 4, 1, 1).apply_to_accounts(a)), (false, true));
    assert_eq!(try_on(&|a| transfer(0, 0, 100, 1).apply_to_accounts(a)), (true, false));

    // withdrawals
    let offchain =
        |id, amount| OffchainWithdrawal { account_id: id, amount, nonce: 5, sign: None };
    assert_eq!(try_on(&|a| offchain(1, 200).apply_to_accounts(a)), (true, false));
    assert_eq!(try_on(&|a| offchain(1, 201).apply_to_accounts(a)), (false, true));
    assert_eq!(try_on(&|a| offchain(7, 0).apply_to_accounts(a)), (false, true));
    assert_eq!(
        try_on(&|a| OnchainWithdrawal { account_id: 2, amount: None }.apply_to_accounts(a)),
        (true, false)
    );
    assert_eq!(
        try_on(&|a| OnchainWithdrawal { account_id: 4, amount: None }.apply_to_accounts(a)),
        (false, true)
    );

    // a transfer as it is applied to plain slots is the transfer as it is
    // applied to the ledger
    let mut accounts = start.clone();
    let mut ledger = tree.clone();
    assert!(transfer(2, 0, 25, 1).apply_to_accounts(&mut accounts));
    transfer(2, 0, 25, 1).update_tree_and_record_state(&mut ledger);
    assert_eq!(accounts, ledger.accounts);
}

#[test]
fn transfers_are_hashed_from_their_four_fields() {
    let (hash_params, sign_params) = params();
    let mut transfer =
        Transfer { account_id_from: 3, account_id_to: 1, amount: 17, nonce: 4, sign: None };
    let fields = vec![usize_to_fr(3), usize_to_fr(1), usize_to_fr(17), usize_to_fr(4)];
    let hash = hash_params.hash(&fields);
    assert_eq!(transfer.hash(&hash_params), hash);
    assert_eq!(signed_bytes(hash), fr_to_bytes_le(hash, 31));
    assert_eq!(signed_bytes(hash).len(), 31);

    transfer.sign(&key(3), &hash_params, &sign_params);
    let public = PublicKey::from_private(&key(3), &sign_params);
    assert!(transfer.verify_signature(&public, &hash_params, &sign_params));
    assert!(public.verify(&signed_bytes(hash), &transfer.sign.unwrap(), &sign_params));
    let other = PublicKey::from_private(&key(4), &sign_params);
    assert!(!transfer.verify_signature(&other, &hash_params, &sign_params));
    transfer.amount = 18;
    assert!(!transfer.verify_signature(&public, &hash_params, &sign_params));

    let mut withdrawal = OffchainWithdrawal { account_id: 3, amount: 17, nonce: 4, sign: None };
    let fields = vec![usize_to_fr(3), usize_to_fr(17), usize_to_fr(4)];
    assert_eq!(withdrawal.hash(&hash_params), hash_params.hash(&fields));
    withdrawal.sign(&key(3), &hash_params, &sign_params);
    assert!(withdrawal.verify_signature(&public, &hash_params, &sign_params));
    assert!(!withdrawal.verify_signature(&other, &hash_params, &sign_params));
}

fn operator<'a>(hash_params: &'a HashParams, sign_params: &'a SignParams) -> Operator<'a> {
    let mut oper = Operator::new(3, 1, 2, 2, 2, hash_params, sign_params);
    for id in 0..3 {
        let pubkey = Some(PublicKey::from_private(&key(id as u64), sign_params));
        oper.add_deposit(Deposit { pubkey, account_id: id, amount: 100 * (id + 1) }).unwrap();
    }
    oper.execute_deposit_batch().unwrap();
    oper
}

#[test]
fn a_short_queue_starves_the_batch_and_changes_nothing() {
    let (hash_params, sign_params) = params();
    let mut oper = operator(&hash_params, &sign_params);
    let root = oper.tree.get_root();
    let digests = (oper.deposit_accum_hash, oper.withdrawal_accum_hash);

    let pubkey = Some(PublicKey::from_private(&key(5), &sign_params));
    oper.add_deposit(Deposit { pubkey, account_id: 3, amount: 5 }).unwrap();
    oper.add_deposit(Deposit { pubkey, account_id: 3, amount: 6 }).unwrap();
    let mut transfer =
        Transfer { account_id_from: 0, account_id_to: 1, amount: 1, nonce: 1, sign: None };
    transfer.sign(&key(0), &hash_params, &sign_params);
    oper.add_transfer(transfer).unwrap();
    let mut withdrawal = OffchainWithdrawal { account_id: 0, amount: 1, nonce: 1, sign: None };
    withdrawal.sign(&key(0), &hash_params, &sign_params);
    oper.add_offchain_withdrawal(withdrawal).unwrap();

    assert!(oper.can_execute_deposit_batch());
    assert!(oper.can_execute_transfer_batch());
    assert!(oper.can_execute_offchain_withdrawal_batch());
    assert!(oper.can_execute_onchain_withdrawal_batch());
    assert!(matches!(oper.execute_deposit_batch(), Err(OperatorError::NotEnoughObjects)));
    assert!(matches!(oper.execute_transfer_batch(), Err(OperatorError::NotEnoughObjects)));
    assert!(matches!(
        oper.execute_offchain_withdrawal_batch(),
        Err(OperatorError::NotEnoughObjects)
    ));
    assert!(matches!(
        oper.execute_onchain_withdrawal_batch(),
        Err(OperatorError::NotEnoughObjects)
    ));

    assert_eq!(oper.deposit_queue.len(), 2);
    assert_eq!(oper.transfer_queue.len(), 1);
    assert_eq!(oper.offchain_withdrawal_queue.len(), 1);
    assert_eq!(oper.onchain_withdrawal_queue.len(), 0);
    assert_eq!(oper.tree.get_root(), root);
    assert_eq!((oper.deposit_accum_hash, oper.withdrawal_accum_hash), digests);
    assert_eq!(balances(&oper.tree), vec![100, 200, 300, 0]);
}

#[test]
fn batches_take_the_oldest_requests_in_their_order() {
    let (hash_params, sign_params) = params();
    let mut oper = operator(&hash_params, &sign_params);
    for (from, to, amount, nonce) in [(0, 3, 100, 1), (3, 1, 70, 1), (1, 0, 200, 1)] {
        let mut transfer =
            Transfer { account_id_from: from, account_id_to: to, amount, nonce, sign: None };
        transfer.sign(&key(from as u64), &hash_params, &sign_params);
        oper.add_transfer(transfer).unwrap();
    }
    // slot 3 has no key of its own: its transfer is signed by key 3, which
    // is not the key that the slot holds
    assert!(oper.can_execute_transfer_batch());
    let root = oper.tree.get_root();
    let result = oper.execute_transfer_batch();
    assert!(matches!(result, Err(OperatorError::InvalidSignature)));
    assert_eq!(oper.tree.get_root(), root);
    assert_eq!(balances(&oper.tree), vec![100, 200, 300, 0]);
    // the first and the failing second request are gone, the third waits
    assert_eq!(oper.transfer_queue.len(), 1);
    assert_eq!(oper.transfer_queue[0].account_id_from, 1);

    let mut transfer =
        Transfer { account_id_from: 2, account_id_to: 1, amount: 70, nonce: 1, sign: None };
    transfer.sign(&key(2), &hash_params, &sign_params);
    oper.add_transfer(transfer).unwrap();
    assert!(oper.can_execute_transfer_batch());
    let (inputs, circuit) = oper.execute_transfer_batch().unwrap();
    assert_eq!(inputs, vec![root, oper.tree.get_root()]);
    assert_eq!(balances(&oper.tree), vec![300, 70, 230, 0]);
    assert_eq!(nonces(&oper.tree), vec![0, 1, 1, 0]);
    assert_eq!(circuit.batch_size, 2);
    assert_eq!(circuit.queue.len(), 2);
    assert_eq!(circuit.queue[0].account_id_from, Some(usize_to_fr(1)));
    assert_eq!(circuit.queue[1].account_id_from, Some(usize_to_fr(2)));
    assert_eq!(circuit.queue[1].amount, Some(usize_to_fr(70)));
    assert_eq!(circuit.old_account_root, Some(root));
    assert_eq!(circuit.new_account_root, Some(oper.tree.get_root()));
    assert_eq!(oper.transfer_queue.len(), 0);
}

#[test]
fn batches_that_cannot_be_applied_are_found_beforehand() {
    let (hash_params, sign_params) = params();
    let mut oper = operator(&hash_params, &sign_params);
    let signed = |from: usize, to, amount, nonce| {
        let mut transfer =
            Transfer { account_id_from: from, account_id_to: to, amount, nonce, sign: None };
        transfer.sign(&key(from as u64), &hash_params, &sign_params);
        transfer
    };

    // the second transfer spends what the first one brings
    oper.add_transfer(signed(0, 1, 100, 1)).unwrap();
    oper.add_transfer(signed(1, 2, 300, 1)).unwrap();
    assert!(oper.can_execute_transfer_batch());
    oper.execute_transfer_batch().unwrap();
    assert_eq!(balances(&oper.tree), vec![0, 0, 600, 0]);

    // more than the sender holds
    oper.add_transfer(signed(2, 0, 1, 1)).unwrap();
    oper.add_transfer(signed(0, 1, 2, 2)).unwrap();
    assert!(!oper.can_execute_transfer_batch());
    oper.transfer_queue.clear();

    // a nonce that is not the sender's next
    oper.add_transfer(signed(2, 0, 1, 1)).unwrap();
    oper.add_transfer(signed(2, 0, 1, 3)).unwrap();
    assert!(!oper.can_execute_transfer_batch());
    oper.transfer_queue.clear();

    // no signature, or a sender that is no slot
    oper.add_transfer(signed(2, 0, 1, 1)).unwrap();
    oper.add_transfer(Transfer { account_id_from: 2, account_id_to: 0, amount: 1, nonce: 2, sign: None })
        .unwrap();
    assert!(!oper.can_execute_transfer_batch());
    oper.transfer_queue.clear();
    oper.add_transfer(signed(9, 0, 1, 1)).unwrap();
    oper.add_transfer(signed(2, 0, 1, 1)).unwrap();
    assert!(!oper.can_execute_transfer_batch());
    oper.transfer_queue.clear();

    // withdrawals
    let mut withdrawal = OffchainWithdrawal { account_id: 2, amount: 400, nonce: 1, sign: None };
    withdrawal.sign(&key(2), &hash_params, &sign_params);
    oper.add_offchain_withdrawal(withdrawal).unwrap();
    oper.add_offchain_withdrawal(withdrawal).unwrap();
    assert!(!oper.can_execute_offchain_withdrawal_batch());
    oper.offchain_withdrawal_queue.clear();
    withdrawal.amount = 300;
    withdrawal.sign(&key(2), &hash_params, &sign_params);
    oper.add_offchain_withdrawal(withdrawal).unwrap();
    oper.add_offchain_withdrawal(withdrawal).unwrap();
    assert!(oper.can_execute_offchain_withdrawal_batch());
    oper.offchain_withdrawal_queue[1].sign = None;
    assert!(!oper.can_execute_offchain_withdrawal_batch());

    oper.add_onchain_withdrawal(OnchainWithdrawal { account_id: 4, amount: None }).unwrap();
    assert!(!oper.can_execute_onchain_withdrawal_batch());
    oper.onchain_withdrawal_queue.clear();
    oper.add_onchain_withdrawal(OnchainWithdrawal { account_id: 3, amount: None }).unwrap();
    assert!(oper.can_execute_onchain_withdrawal_batch());

    // deposits
    let pubkey = Some(PublicKey::from_private(&key(7), &sign_params));
    oper.add_deposit(Deposit { pubkey, account_id: 0, amount: usize::MAX }).unwrap();
    oper.add_deposit(Deposit { pubkey, account_id: 0, amount: 1 }).unwrap();
    oper.add_deposit(Deposit { pubkey, account_id: 1, amount: 1 }).unwrap();
    assert!(!oper.can_execute_deposit_batch());
    oper.deposit_queue[1].account_id = 1;
    assert!(oper.can_execute_deposit_batch());
    oper.deposit_queue[2].pubkey = None;
    assert!(!oper.can_execute_deposit_batch());
}

#[test]
fn an_off_chain_withdrawal_needs_its_slot_s_signature() {
    let (hash_params, sign_params) = params();
    let mut oper = operator(&hash_params, &sign_params);
    let mut good = OffchainWithdrawal { account_id: 1, amount: 50, nonce: 1, sign: None };
    good.sign(&key(1), &hash_params, &sign_params);
    let mut bad = OffchainWithdrawal { account_id: 1, amount: 50, nonce: 2, sign: None };
    bad.sign(&key(2), &hash_params, &sign_params);
    oper.add_offchain_withdrawal(good).unwrap();
    oper.add_offchain_withdrawal(bad).unwrap();
    oper.add_offchain_withdrawal(good).unwrap();
    oper.add_offchain_withdrawal(good).unwrap();

    let root = oper.tree.get_root();
    assert!(matches!(
        oper.execute_offchain_withdrawal_batch(),
        Err(OperatorError::InvalidSignature)
    ));
    assert_eq!(oper.tree.get_root(), root);
    assert_eq!(oper.offchain_withdrawal_queue.len(), 2);

    let (inputs, circuit) = oper.execute_offchain_withdrawal_batch().unwrap();
    assert_eq!(balances(&oper.tree), vec![100, 100, 300, 0]);
    assert_eq!(nonces(&oper.tree), vec![0, 0, 0, 0]);
    assert_eq!(
        inputs,
        vec![
            root,
            oper.tree.get_root(),
            usize_to_fr(1),
            usize_to_fr(50),
            usize_to_fr(1),
            usize_to_fr(50),
        ]
    );
    assert_eq!(circuit.queue[0].pubkey, Some(oper.tree.get_pubkey(1)));
    assert_eq!(circuit.queue[1].account_state.old_balance, Some(usize_to_fr(150)));
}

#[test]
fn the_history_digests_chain_the_executed_requests() {
    let (hash_params, sign_params) = params();
    let mut oper = Operator::new(2, 2, 1, 1, 1, &hash_params, &sign_params);
    assert_eq!(oper.deposit_accum_hash, FieldElement::zero());
    assert_eq!(oper.withdrawal_accum_hash, FieldElement::zero());
    let keys = [
        PublicKey::from_private(&key(0), &sign_params),
        PublicKey::from_private(&key(1), &sign_params),
    ];
    oper.add_deposit(Deposit { pubkey: Some(keys[0]), account_id: 1, amount: 8 }).unwrap();
    oper.add_deposit(Deposit { pubkey: Some(keys[1]), account_id: 0, amount: 9 }).unwrap();
    let (inputs, circuit) = oper.execute_deposit_batch().unwrap();

    let first = hash_params.hash(&vec![
        FieldElement::zero(),
        keys[0].x,
        keys[0].y,
        usize_to_fr(1),
        usize_to_fr(8),
    ]);
    let second =
        hash_params.hash(&vec![first, keys[1].x, keys[1].y, usize_to_fr(0), usize_to_fr(9)]);
    assert_eq!(oper.deposit_accum_hash, second);
    assert_eq!(inputs[0], FieldElement::zero());
    assert_eq!(inputs[1], second);
    assert_eq!(circuit.old_accum_hash, Some(FieldElement::zero()));
    assert_eq!(circuit.new_accum_hash, Some(second));
    assert_eq!(circuit.deposit_queue[1].account_state.old_balance, Some(usize_to_fr(0)));
    assert_eq!(circuit.deposit_queue[1].amount, Some(usize_to_fr(9)));
    assert_eq!(circuit.deposit_queue[0].pubkey, Some(keys[0]));

    oper.add_onchain_withdrawal(OnchainWithdrawal { account_id: 1, amount: None }).unwrap();
    oper.add_onchain_withdrawal(OnchainWithdrawal { account_id: 1, amount: None }).unwrap();
    let (inputs, circuit) = oper.execute_onchain_withdrawal_batch().unwrap();
    let first = hash_params.hash(&vec![FieldElement::zero(), usize_to_fr(1)]);
    let second = hash_params.hash(&vec![first, usize_to_fr(1)]);
    assert_eq!(oper.withdrawal_accum_hash, second);
    assert_eq!(inputs[0], FieldElement::zero());
    assert_eq!(inputs[1], second);
    // the second withdrawal finds the slot empty
    assert_eq!(
        inputs[4..].to_vec(),
        vec![usize_to_fr(1), usize_to_fr(8), usize_to_fr(1), usize_to_fr(0)]
    );
    assert_eq!(circuit.queue[0].amount, Some(usize_to_fr(8)));
    assert_eq!(circuit.queue[1].amount, Some(usize_to_fr(0)));
    assert_eq!(balances(&oper.tree), vec![9, 0]);
}

fn known(n: usize) -> Option<FieldElement> {
    Some(usize_to_fr(n))
}

#[test]
fn sums_and_products_are_asked_in_the_field() {
    let (_, sign_params) = params();
    let mut cs = ConstraintSystem::new();
    let three = cs.alloc_num(known(3));
    let four = cs.alloc_num(known(4));
    let seven = openplasma_circuits::utils::calc::add(&mut cs, &three, &four);
    assert_eq!(seven.value, known(7));
    let one = openplasma_circuits::utils::calc::sub(&mut cs, &four, &three);
    assert_eq!(one.value, known(1));
    let negative = openplasma_circuits::utils::calc::sub(&mut cs, &three, &four);
    assert_eq!(negative.value, Some(FieldElement::zero().minus(&FieldElement::one())));
    let quotient = openplasma_circuits::utils::calc::div(&mut cs, &seven, &four).unwrap();
    assert_eq!(quotient.value.unwrap().times(&usize_to_fr(4)), usize_to_fr(7));
    assert!(cs.is_satisfied(&sign_params));
    assert_eq!(cs.steps().len(), 10);

    let zero = cs.alloc_num(known(0));
    let steps = cs.steps().len();
    assert_eq!(
        openplasma_circuits::utils::calc::div(&mut cs, &seven, &zero),
        Err(SynthesisError::DivisionByZero)
    );
    assert_eq!(cs.steps().len(), steps);

    let unknown = cs.alloc_num(None);
    let sum = openplasma_circuits::utils::calc::add(&mut cs, &three, &unknown);
    assert_eq!(sum.value, None);
    assert!(!cs.is_satisfied(&sign_params));
    let quotient = openplasma_circuits::utils::calc::div(&mut cs, &three, &unknown).unwrap();
    assert_eq!(quotient.value, None);
}

#[test]
fn constraints_hold_where_the_values_meet_them() {
    let (_, sign_params) = params();
    let holds = |f: &dyn Fn(&mut ConstraintSystem)| {
        let mut cs = ConstraintSystem::new();
        f(&mut cs);
        cs.is_satisfied(&sign_params)
    };
    let num = |cs: &mut ConstraintSystem, n: usize| cs.alloc_num(known(n));

    assert!(holds(&|cs| {
        let (a, b, c) = (num(cs, 9), num(cs, 4), num(cs, 5));
        enforce_sum(cs, &a, &b, &c);
    }));
    assert!(!holds(&|cs| {
        let (a, b, c) = (num(cs, 9), num(cs, 4), num(cs, 6));
        enforce_sum(cs, &a, &b, &c);
    }));
    assert!(holds(&|cs| {
        let (a, b) = (num(cs, 9), num(cs, 9));
        enforce_same(cs, &a, &b);
    }));
    assert!(!holds(&|cs| {
        let (a, b) = (num(cs, 9), num(cs, 8));
        enforce_same(cs, &a, &b);
    }));
    assert!(holds(&|cs| {
        let (a, b) = (num(cs, 9), num(cs, 10));
        enforce_next(cs, &a, &b);
    }));
    assert!(!holds(&|cs| {
        let (a, b) = (num(cs, 9), num(cs, 9));
        enforce_next(cs, &a, &b);
    }));
    assert!(!holds(&|cs| {
        let (a, b) = (num(cs, 9), cs.alloc_num(None));
        enforce_same(cs, &a, &b);
    }));
    assert!(holds(&|cs| {
        let a = num(cs, 255);
        cs.limit_number_of_bits(&a, 8);
    }));
    assert!(!holds(&|cs| {
        let a = num(cs, 256);
        cs.limit_number_of_bits(&a, 8);
    }));
    assert!(holds(&|cs| {
        let (a, b, c) = (num(cs, 6), num(cs, 7), num(cs, 42));
        cs.enforce(lc1(Term::Num(a)), lc1(Term::Num(b)), lc1(Term::Num(c)));
        cs.enforce(lc0(), lc1(Term::Num(b)), lc0());
        cs.enforce(lc2(Term::Num(a), Term::One), lc1(Term::One), lc1(Term::Num(b)));
    }));
    assert!(!holds(&|cs| {
        let (a, b, c) = (num(cs, 6), num(cs, 7), num(cs, 43));
        cs.enforce(lc1(Term::Num(a)), lc1(Term::Num(b)), lc1(Term::Num(c)));
    }));
    assert!(holds(&|cs| {
        let (a, b) = (cs.alloc_bit(Some(true)), cs.alloc_bit(Some(true)));
        cs.enforce_equal(&a, &b);
    }));
    assert!(!holds(&|cs| {
        let (a, b) = (cs.alloc_bit(Some(true)), cs.alloc_bit(Some(false)));
        cs.enforce_equal(&a, &b);
    }));
    assert!(!holds(&|cs| {
        let (a, b) = (cs.alloc_bit(None), cs.alloc_bit(None));
        cs.enforce_equal(&a, &b);
    }));

    assert_eq!(evaluate_sum(&lc2(Term::One, Term::One)), known(2));
    assert_eq!(evaluate_sum(&lc0()), known(0));
    let unknown = AllocatedNum { source: 0, slot: 0, value: None };
    assert_eq!(evaluate_sum(&lc2(Term::One, Term::Num(unknown))), None);
}

#[test]
fn numbers_decompose_into_their_bits() {
    let (_, sign_params) = params();
    let check = |n: usize, bits: Vec<Option<bool>>| {
        let mut cs = ConstraintSystem::new();
        let num = cs.alloc_num(known(n));
        let bits = alloc_bits(&mut cs, &bits);
        check_decomposition_le(&mut cs, &num, &bits);
        cs.is_satisfied(&sign_params)
    };
    assert!(check(6, vec![Some(false), Some(true), Some(true)]));
    assert!(check(6, vec![Some(false), Some(true), Some(true), Some(false), Some(false)]));
    assert!(check(2, vec![Some(false), Some(true)]));
    assert!(check(0, vec![]));
    // the lowest bits alone do not do: the number has to be their sum
    assert!(!check(6, vec![Some(false), Some(true)]));
    assert!(!check(2, vec![Some(false)]));
    assert!(!check(6, vec![]));
    assert!(!check(6, vec![Some(true), Some(true), Some(true)]));
    assert!(!check(6, vec![Some(false), None]));

    let mut cs = ConstraintSystem::new();
    let num = cs.alloc_num(known(5));
    let bits = cs.into_bits_le(&num);
    assert_eq!(bits.len(), NUM_BITS);
    assert_eq!(bits.len(), 254);
    for (k, bit) in bits.iter().enumerate() {
        assert_eq!(bit.value, Some(k == 0 || k == 2));
        assert_eq!((bit.source, bit.slot), (1, k));
    }
    assert!(matches!(cs.steps()[1], Step::IntoBits { .. }));

    let yes = cs.alloc_bit(Some(true));
    let no = cs.alloc_bit(Some(false));
    let maybe = cs.alloc_bit(None);
    assert_eq!(boolean_to_allocated_num(&mut cs, &yes).value, known(1));
    assert_eq!(boolean_to_allocated_num(&mut cs, &no).value, known(0));
    assert_eq!(boolean_to_allocated_num(&mut cs, &maybe).value, None);
    assert!(cs.is_satisfied(&sign_params));
    let (a, b) = (cs.alloc_num(known(1)), cs.alloc_num(known(2)));
    assert_eq!(cs.conditionally_reverse(&a, &b, &yes).0.value, known(2));
    assert_eq!(cs.conditionally_reverse(&a, &b, &yes).1.value, known(1));
    assert_eq!(cs.conditionally_reverse(&a, &b, &no).0.value, known(1));
    assert_eq!(cs.conditionally_reverse(&a, &b, &maybe).0.value, None);
    assert_eq!(cs.conditionally_select(&a, &b, &yes).value, known(1));
    assert_eq!(cs.conditionally_select(&a, &b, &no).value, known(2));
}

#[test]
fn a_recorded_slot_leads_to_the_roots_before_and_after() {
    let (hash_params, sign_params) = params();
    let mut tree = funded(&hash_params, &sign_params);
    let old_root = tree.get_root();
    let transfer =
        Transfer { account_id_from: 2, account_id_to: 0, amount: 1, nonce: 1, sign: None };
    let (from, to) = transfer.update_tree_and_record_state(&mut tree);
    let new_root = tree.get_root();

    let mut cs = ConstraintSystem::new();
    let from_circuit = AccountCircuit::new(&mut cs, 2, &hash_params, &from);
    let to_circuit = AccountCircuit::new(&mut cs, 2, &hash_params, &to);
    assert_eq!(from_circuit.accounts_tree.calc_old_root(&mut cs).value, Some(old_root));
    let mid = from_circuit.accounts_tree.calc_new_root(&mut cs);
    assert_eq!(to_circuit.accounts_tree.calc_old_root(&mut cs).value, mid.value);
    assert_eq!(to_circuit.accounts_tree.calc_new_root(&mut cs).value, Some(new_root));
    let root = cs.alloc_num(Some(old_root));
    from_circuit.accounts_tree.verify_old_root(&mut cs, &root);
    assert!(cs.is_satisfied(&sign_params));
    to_circuit.accounts_tree.verify_old_root(&mut cs, &root);
    assert!(!cs.is_satisfied(&sign_params));

    let state = TreeState {
        old_leaf: vec![known(0)],
        new_leaf: vec![known(1)],
        path: from.account_path.clone(),
        indices: from.account_indices.clone(),
    };
    let mut cs = ConstraintSystem::new();
    let circuit = TreeCircuit::new(&mut cs, 1, 2, &hash_params, &state);
    assert_eq!(circuit.path_alloc.len(), 2);
    assert_eq!(circuit.indices_alloc[0].value, Some(false));
    assert_eq!(circuit.indices_alloc[1].value, Some(true));
    let leaf = alloc_nums(&mut cs, &optionalize(tree.accounts[1].compress_to_leaf()));
    let (path, bits) = path_witness(&tree, 1);
    let (path, bits) = (alloc_nums(&mut cs, &path), alloc_bits(&mut cs, &bits));
    assert_eq!(calc_root(&mut cs, &hash_params, &leaf, &path, &bits).value, Some(new_root));
    let root = cs.alloc_num(Some(new_root));
    verify(&mut cs, &hash_params, &leaf, &path, &bits, &root);
    assert!(cs.is_satisfied(&sign_params));
    let unknown = alloc_nums(&mut cs, &vec![None, None]);
    assert_eq!(calc_root(&mut cs, &hash_params, &leaf, &unknown, &bits).value, None);
}

#[test]
fn a_signature_is_checked_in_the_layout() {
    let (hash_params, sign_params) = params();
    let secret = key(11);
    let public = PublicKey::from_private(&secret, &sign_params);
    let hash = hash_params.hash(&vec![usize_to_fr(1), usize_to_fr(2)]);
    let signature = secret.sign(&signed_bytes(hash), &sign_params);
    let check = |sign, pk, hash: Option<FieldElement>, bytes| {
        let mut cs = ConstraintSystem::new();
        let hash = cs.alloc_num(hash);
        let laid_out = verify_signature(&mut cs, sign, pk, &hash, bytes);
        assert_eq!(laid_out.pk.x.value, pk.map(|k: PublicKey| k.x));
        assert_eq!(cs.steps().len(), 5);
        cs.is_satisfied(&sign_params)
    };
    assert!(check(Some(signature), Some(public), Some(hash), 31));
    assert!(!check(Some(signature), Some(public), Some(hash), 30));
    assert!(!check(Some(signature), Some(public), Some(hash.plus(&FieldElement::one())), 31));
    assert!(!check(Some(signature), Some(PublicKey::unset(&sign_params)), Some(hash), 31));
    assert!(!check(None, Some(public), Some(hash), 31));
    assert!(!check(Some(signature), None, Some(hash), 31));
    assert!(!check(Some(signature), Some(public), None, 31));

    let mut cs = ConstraintSystem::new();
    let laid_out = alloc_signature(&mut cs, Some(signature), Some(public));
    assert_eq!(laid_out.r.x.value, Some(signature.r_x));
    assert_eq!(laid_out.r.y.value, Some(signature.r_y));
    assert_eq!(laid_out.s.value.unwrap().to_limbs(), signature.s.to_limbs());
    assert_eq!(laid_out.pk.y.value, Some(public.y));
    assert_eq!(cs.steps().len(), 3);
    assert!(cs.is_satisfied(&sign_params));
}
