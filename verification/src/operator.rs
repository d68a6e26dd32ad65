//! The operator: the queues of requests, the ledger, and the execution of
//! batches.

use crate::batch::{
    apply_deposits, apply_offchain_withdrawals, apply_onchain_withdrawals, apply_transfers,
    deposit_batch_records, deposit_chain, deposits_applicable, lemma_deposit_batch_satisfies,
    lemma_deposits_applicable_prefix, lemma_depth_is_small,
    lemma_offchain_withdrawal_batch_satisfies, lemma_offchain_withdrawals_applicable_prefix,
    lemma_onchain_withdrawal_batch_satisfies, lemma_onchain_withdrawals_applicable_prefix,
    lemma_transfer_batch_satisfies, lemma_transfers_applicable_prefix,
    offchain_withdrawal_batch_records, offchain_withdrawal_inputs, offchain_withdrawals_applicable,
    onchain_withdrawal_batch_records, onchain_withdrawal_inputs, onchain_withdrawals_applicable,
    transfer_authentic, transfer_batch_records, transfers_applicable, transfers_authentic,
    transfers_checkable, withdrawal_authentic, withdrawals_authentic, withdrawals_checkable,
    withdrawal_chain,
};
use crate::circuit::{known_values, SynthesisError};
use crate::data_structs::deposit::Deposit;
use crate::data_structs::offchain_withdrawal::OffchainWithdrawal;
use crate::data_structs::onchain_withdrawal::OnchainWithdrawal;
use crate::data_structs::transfer::Transfer;
use crate::deposit_circuit::{DepositBatchCircuit, DepositCircuit};
use crate::eddsa::SignParams;
use crate::field::FieldElement;
use crate::hash::{values, HashParams};
use crate::offchain_withdrawal_circuit::{OffchainWithdrawalBatchCircuit, OffchainWithdrawalCircuit};
use crate::onchain_withdrawal_circuit::{OnchainWithdrawalBatchCircuit, OnchainWithdrawalCircuit};
use crate::transfer_circuit::{TransferBatchCircuit, TransferCircuit};
use crate::tree::account::{balances_fit, ledger, nonces_grow, AccountsTree};
use crate::tree::merkle_tree::two_pow;
use crate::utils::utils::{copy_vec, fr_to_usize, usize_to_fr};
use vstd::prelude::*;

verus! {

/// Why an operator's call failed.
#[derive(Clone, Copy, Debug, PartialEq, Eq)]
pub enum OperatorError {
    Unknown,
    /// The queue holds fewer requests than a batch takes.
    NotEnoughObjects,
    /// A request's signature does not verify under its slot's key.
    InvalidSignature,
    /// A circuit could not be laid out.
    CircuitError(SynthesisError),
}

impl OperatorError {
    /// The error in words.
    pub fn description(&self) -> (text: &'static str)
        ensures
            text@ == (match *self {
                OperatorError::Unknown => "Unknown error"@,
                OperatorError::NotEnoughObjects => "Not enough objects for batch"@,
                OperatorError::InvalidSignature => "Invalid order signature"@,
                OperatorError::CircuitError(_) => "Encountered a circuit error"@,
            }),
    {
        match *self {
            OperatorError::Unknown => "Unknown error",
            OperatorError::NotEnoughObjects => "Not enough objects for batch",
            OperatorError::InvalidSignature => "Invalid order signature",
            OperatorError::CircuitError(_) => "Encountered a circuit error",
        }
    }
}

/// The operator of one ledger: the requests that wait, the ledger, and the
/// digests of the deposits and withdrawals that were executed.
#[derive(Clone)]
pub struct Operator<'a> {
    pub transfer_batch: usize,
    pub transfer_queue: Vec<Transfer>,
    pub deposit_batch: usize,
    pub deposit_queue: Vec<Deposit>,
    pub onchain_withdrawal_batch: usize,
    pub onchain_withdrawal_queue: Vec<OnchainWithdrawal>,
    pub offchain_withdrawal_batch: usize,
    pub offchain_withdrawal_queue: Vec<OffchainWithdrawal>,
    pub tree: AccountsTree<'a>,
    pub deposit_accum_hash: FieldElement,
    pub withdrawal_accum_hash: FieldElement,
    pub account_depth: usize,
    pub hash_params: &'a HashParams,
    pub sign_params: &'a SignParams,
}

impl<'a> Operator<'a> {
    /// The ledger is well formed and is the one of the operator's settings,
    /// and every balance fits the machine word.
    pub open spec fn wf(&self) -> bool {
        &&& self.tree.wf()
        &&& self.tree.spec_params() == self.hash_params
        &&& self.tree.spec_depth() == self.account_depth
        &&& balances_fit(self.tree@)
    }

    /// The two operators have the same settings.
    pub open spec fn same_settings(&self, other: &Self) -> bool {
        &&& self.transfer_batch == other.transfer_batch
        &&& self.deposit_batch == other.deposit_batch
        &&& self.onchain_withdrawal_batch == other.onchain_withdrawal_batch
        &&& self.offchain_withdrawal_batch == other.offchain_withdrawal_batch
        &&& self.account_depth == other.account_depth
        &&& self.hash_params == other.hash_params
        &&& self.sign_params == other.sign_params
    }

    /// Too few deposits wait for a batch; or the oldest of them, as many as a
    /// batch takes, can be applied one after the other.
    pub open spec fn deposit_batch_ready(&self) -> bool {
        self.deposit_queue@.len() >= self.deposit_batch ==> deposits_applicable(
            self.tree@,
            self.deposit_queue@.take(self.deposit_batch as int),
        )
    }

    /// Too few on-chain withdrawals wait for a batch; or the oldest of them, as many as a
    /// batch takes, can be applied one after the other.
    pub open spec fn onchain_withdrawal_batch_ready(&self) -> bool {
        self.onchain_withdrawal_queue@.len() >= self.onchain_withdrawal_batch ==>
            onchain_withdrawals_applicable(
            self.tree@,
            self.onchain_withdrawal_queue@.take(self.onchain_withdrawal_batch as int),
        )
    }

    /// Too few off-chain withdrawals wait for a batch; or, of the oldest of
    /// them, as many as a batch takes, each one up to the first whose
    /// signature does not verify names a slot and carries a signature, and
    /// where every signature verifies they can be applied one after the
    /// other.
    pub open spec fn offchain_withdrawal_batch_ready(&self) -> bool {
        self.offchain_withdrawal_queue@.len() >= self.offchain_withdrawal_batch ==> {
            let items = self.offchain_withdrawal_queue@.take(self.offchain_withdrawal_batch as int);
            &&& withdrawals_checkable(self.tree@, self.hash_params, items)
            &&& withdrawals_authentic(self.tree@, self.hash_params, items)
                ==> offchain_withdrawals_applicable(self.tree@, items)
        }
    }

    /// Too few transfers wait for a batch; or, of the oldest of them, as many
    /// as a batch takes, each one up to the first whose signature does not
    /// verify names a sender's slot and carries a signature, and where every
    /// signature verifies they can be applied one after the other.
    pub open spec fn transfer_batch_ready(&self) -> bool {
        self.transfer_queue@.len() >= self.transfer_batch ==> {
            let items = self.transfer_queue@.take(self.transfer_batch as int);
            &&& transfers_checkable(self.tree@, self.hash_params, items)
            &&& transfers_authentic(self.tree@, self.hash_params, items) ==> transfers_applicable(
                self.tree@,
                items,
            )
        }
    }

    /// The ledger's root.
    pub open spec fn spec_root(&self) -> nat {
        self.tree.spec_root()
    }

    /// An operator of a ledger of `2^account_depth` empty slots, with nothing
    /// waiting and both digests zero.
    pub fn new(
        deposit_batch: usize,
        onchain_withdrawal_batch: usize,
        offchain_withdrawal_batch: usize,
        transfer_batch: usize,
        account_depth: usize,
        hash_params: &'a HashParams,
        sign_params: &'a SignParams,
    ) -> (op: Self)
        requires
            2 * two_pow(account_depth as nat) <= usize::MAX,
        ensures
            op.wf(),
            op.transfer_batch == transfer_batch,
            op.onchain_withdrawal_batch == onchain_withdrawal_batch,
            op.offchain_withdrawal_batch == offchain_withdrawal_batch,
            op.deposit_batch == deposit_batch,
            op.account_depth == account_depth,
            op.hash_params == hash_params,
            op.sign_params == sign_params,
            op.transfer_queue@.len() == 0,
            op.deposit_queue@.len() == 0,
            op.onchain_withdrawal_queue@.len() == 0,
            op.offchain_withdrawal_queue@.len() == 0,
            op.deposit_accum_hash@ == 0,
            op.withdrawal_accum_hash@ == 0,
            op.tree@.len() == two_pow(account_depth as nat),
            forall|j: int| 0 <= j < op.tree@.len() ==> op.tree@[j].is_empty(),
    {
        Operator {
            transfer_batch,
            transfer_queue: Vec::new(),
            deposit_batch,
            deposit_queue: Vec::new(),
            onchain_withdrawal_batch,
            onchain_withdrawal_queue: Vec::new(),
            offchain_withdrawal_batch,
            offchain_withdrawal_queue: Vec::new(),
            tree: AccountsTree::new(account_depth, hash_params, sign_params),
            deposit_accum_hash: FieldElement::zero(),
            withdrawal_accum_hash: FieldElement::zero(),
            account_depth,
            hash_params,
            sign_params,
        }
    }

    /// Puts a deposit at the end of its queue.
    pub fn add_deposit(&mut self, deposit: Deposit) -> (r: Result<(), OperatorError>)
        ensures
            r is Ok,
            final(self).deposit_queue@ == old(self).deposit_queue@.push(deposit),
            final(self).same_settings(old(self)),
            final(self).tree == old(self).tree,
            final(self).deposit_accum_hash == old(self).deposit_accum_hash,
            final(self).withdrawal_accum_hash == old(self).withdrawal_accum_hash,
            final(self).transfer_queue == old(self).transfer_queue,
            final(self).onchain_withdrawal_queue == old(self).onchain_withdrawal_queue,
            final(self).offchain_withdrawal_queue == old(self).offchain_withdrawal_queue,
    {
        self.deposit_queue.push(deposit);
        Ok(())
    }

    /// Executes the oldest deposits, as many as a batch takes.
    pub fn execute_deposit_batch(&mut self) -> (r: Result<
        (Vec<FieldElement>, DepositBatchCircuit<'a>),
        OperatorError,
    >)
        requires
            old(self).wf(),
            old(self).deposit_batch_ready(),
        ensures
            final(self).wf(),
            nonces_grow(old(self).tree@, final(self).tree@),
            final(self).same_settings(old(self)),
            final(self).withdrawal_accum_hash == old(self).withdrawal_accum_hash,
            final(self).transfer_queue == old(self).transfer_queue,
            final(self).onchain_withdrawal_queue == old(self).onchain_withdrawal_queue,
            final(self).offchain_withdrawal_queue == old(self).offchain_withdrawal_queue,
            old(self).deposit_queue@.len() < old(self).deposit_batch ==> r == Err::<
                (Vec<FieldElement>, DepositBatchCircuit<'a>),
                OperatorError,
            >(OperatorError::NotEnoughObjects) && *final(self) == *old(self),
            old(self).deposit_queue@.len() >= old(self).deposit_batch ==> {
                let items = old(self).deposit_queue@.take(old(self).deposit_batch as int);
                let ledger = old(self).tree@;
                let params = old(self).hash_params;
                &&& final(self).deposit_queue@ == old(self).deposit_queue@.skip(
                    old(self).deposit_batch as int,
                )
                &&& final(self).tree@ == apply_deposits(ledger, items)
                &&& final(self).deposit_accum_hash@ == deposit_chain(
                    params,
                    old(self).deposit_accum_hash@,
                    items,
                )
                &&& r matches Ok((inputs, circuit))
                &&& values(inputs@) == seq![
                    old(self).deposit_accum_hash@,
                    final(self).deposit_accum_hash@,
                    old(self).spec_root(),
                    final(self).spec_root(),
                ]
                &&& deposit_batch_records(
                    circuit,
                    old(self).account_depth as nat,
                    ledger,
                    items,
                    old(self).deposit_accum_hash@,
                )
                &&& circuit.hash_params == params
                &&& circuit.well_shaped()
                &&& circuit.constraints_hold()
                &&& circuit.spec_inputs() == known_values(values(inputs@))
            },
    {
        if self.deposit_queue.len() < self.deposit_batch {
            return Err(OperatorError::NotEnoughObjects);
        }
        let ghost items = self.deposit_queue@.take(self.deposit_batch as int);
        let ghost ledger = self.tree@;
        let ghost queue = self.deposit_queue@;

        let old_hash = self.deposit_accum_hash;
        let old_root = self.tree.get_root();
        let mut executed_deposits: Vec<DepositCircuit> = Vec::new();

        let mut k: usize = 0;
        while k < self.deposit_batch
            invariant
                self.wf(),
                self.same_settings(old(self)),
                self.withdrawal_accum_hash == old(self).withdrawal_accum_hash,
                self.transfer_queue == old(self).transfer_queue,
                self.onchain_withdrawal_queue == old(self).onchain_withdrawal_queue,
                self.offchain_withdrawal_queue == old(self).offchain_withdrawal_queue,
                k <= self.deposit_batch <= queue.len(),
                items == queue.take(self.deposit_batch as int),
                deposits_applicable(ledger, items),
                self.deposit_queue@ == queue.skip(k as int),
                nonces_grow(ledger, self.tree@),
                self.tree@ == apply_deposits(ledger, items.take(k as int)),
                self.deposit_accum_hash@ == deposit_chain(
                    self.hash_params,
                    old_hash@,
                    items.take(k as int),
                ),
                executed_deposits@.len() == k,
                forall|j: int|
                    0 <= j < k ==> (#[trigger] executed_deposits@[j]).witnesses(
                        self.hash_params,
                        self.account_depth as nat,
                        apply_deposits(ledger, items.take(j)),
                        items[j],
                    ),
            decreases self.deposit_batch - k,
        {
            let deposit = self.deposit_queue.remove(0);
            proof {
                lemma_deposits_applicable_prefix(ledger, items, k + 1);
                assert(items.take(k + 1).drop_last() =~= items.take(k as int));
                assert(items.take(k + 1).last() == deposit);
            }
            let pubkey = deposit.pubkey.unwrap();

            let mut record: Vec<FieldElement> = Vec::new();
            record.push(self.deposit_accum_hash);
            record.push(pubkey.x);
            record.push(pubkey.y);
            record.push(usize_to_fr(deposit.account_id));
            record.push(usize_to_fr(deposit.amount));
            assert(values(record@) =~= seq![
                self.deposit_accum_hash@,
                pubkey@.0,
                pubkey@.1,
                deposit.account_id as nat,
                deposit.amount as nat,
            ]);
            self.deposit_accum_hash = self.hash_params.hash(&record);

            let account_state = deposit.update_tree_and_record_state(&mut self.tree);

            let executed_deposit = DepositCircuit {
                account_state,
                pubkey: Some(pubkey),
                account_id: Some(usize_to_fr(deposit.account_id)),
                amount: Some(usize_to_fr(deposit.amount)),
            };
            executed_deposits.push(executed_deposit);
            k += 1;
            assert(self.deposit_queue@ =~= queue.skip(k as int));
        }
        assert(items.take(k as int) =~= items);

        let new_hash = self.deposit_accum_hash;
        let new_root = self.tree.get_root();

        let circuit = DepositBatchCircuit {
            deposit_batch: self.deposit_batch,
            account_depth: self.account_depth,
            hash_params: self.hash_params,
            deposit_queue: executed_deposits,
            old_accum_hash: Some(old_hash),
            new_accum_hash: Some(new_hash),
            old_account_root: Some(old_root),
            new_account_root: Some(new_root),
        };
        proof {
            lemma_depth_is_small(self.account_depth as nat);
            lemma_deposit_batch_satisfies(
                circuit,
                self.account_depth as nat,
                ledger,
                items,
                old_hash@,
            );
        }

        let mut public_inputs: Vec<FieldElement> = Vec::new();
        public_inputs.push(old_hash);
        public_inputs.push(new_hash);
        public_inputs.push(old_root);
        public_inputs.push(new_root);
        assert(values(public_inputs@) =~= seq![old_hash@, new_hash@, old_root@, new_root@]);

        Ok((public_inputs, circuit))
    }

    /// Puts an on-chain withdrawal at the end of its queue.
    pub fn add_onchain_withdrawal(
        &mut self,
        withdrawal: OnchainWithdrawal,
    ) -> (r: Result<(), OperatorError>)
        ensures
            r is Ok,
            final(self).onchain_withdrawal_queue@ == old(self).onchain_withdrawal_queue@.push(
                withdrawal,
            ),
            final(self).same_settings(old(self)),
            final(self).tree == old(self).tree,
            final(self).deposit_accum_hash == old(self).deposit_accum_hash,
            final(self).withdrawal_accum_hash == old(self).withdrawal_accum_hash,
            final(self).transfer_queue == old(self).transfer_queue,
            final(self).deposit_queue == old(self).deposit_queue,
            final(self).offchain_withdrawal_queue == old(self).offchain_withdrawal_queue,
    {
        self.onchain_withdrawal_queue.push(withdrawal);
        Ok(())
    }

    /// Puts an off-chain withdrawal at the end of its queue.
    pub fn add_offchain_withdrawal(
        &mut self,
        withdrawal: OffchainWithdrawal,
    ) -> (r: Result<(), OperatorError>)
        ensures
            r is Ok,
            final(self).offchain_withdrawal_queue@ == old(self).offchain_withdrawal_queue@.push(
                withdrawal,
            ),
            final(self).same_settings(old(self)),
            final(self).tree == old(self).tree,
            final(self).deposit_accum_hash == old(self).deposit_accum_hash,
            final(self).withdrawal_accum_hash == old(self).withdrawal_accum_hash,
            final(self).transfer_queue == old(self).transfer_queue,
            final(self).deposit_queue == old(self).deposit_queue,
            final(self).onchain_withdrawal_queue == old(self).onchain_withdrawal_queue,
    {
        self.offchain_withdrawal_queue.push(withdrawal);
        Ok(())
    }

    /// Puts a transfer at the end of its queue.
    pub fn add_transfer(&mut self, transfer: Transfer) -> (r: Result<(), OperatorError>)
        ensures
            r is Ok,
            final(self).transfer_queue@ == old(self).transfer_queue@.push(transfer),
            final(self).same_settings(old(self)),
            final(self).tree == old(self).tree,
            final(self).deposit_accum_hash == old(self).deposit_accum_hash,
            final(self).withdrawal_accum_hash == old(self).withdrawal_accum_hash,
            final(self).deposit_queue == old(self).deposit_queue,
            final(self).onchain_withdrawal_queue == old(self).onchain_withdrawal_queue,
            final(self).offchain_withdrawal_queue == old(self).offchain_withdrawal_queue,
    {
        self.transfer_queue.push(transfer);
        Ok(())
    }

    /// Executes the oldest on-chain withdrawals, as many as a batch takes.
    /// Each takes all that its slot holds.
    pub fn execute_onchain_withdrawal_batch(&mut self) -> (r: Result<
        (Vec<FieldElement>, OnchainWithdrawalBatchCircuit<'a>),
        OperatorError,
    >)
        requires
            old(self).wf(),
            old(self).onchain_withdrawal_batch_ready(),
        ensures
            final(self).wf(),
            nonces_grow(old(self).tree@, final(self).tree@),
            final(self).same_settings(old(self)),
            final(self).deposit_accum_hash == old(self).deposit_accum_hash,
            final(self).transfer_queue == old(self).transfer_queue,
            final(self).deposit_queue == old(self).deposit_queue,
            final(self).offchain_withdrawal_queue == old(self).offchain_withdrawal_queue,
            old(self).onchain_withdrawal_queue@.len() < old(self).onchain_withdrawal_batch ==> r
                == Err::<(Vec<FieldElement>, OnchainWithdrawalBatchCircuit<'a>), OperatorError>(
                OperatorError::NotEnoughObjects,
            ) && *final(self) == *old(self),
            old(self).onchain_withdrawal_queue@.len() >= old(self).onchain_withdrawal_batch ==> {
                let items = old(self).onchain_withdrawal_queue@.take(
                    old(self).onchain_withdrawal_batch as int,
                );
                let ledger = old(self).tree@;
                let params = old(self).hash_params;
                &&& final(self).onchain_withdrawal_queue@
                    == old(self).onchain_withdrawal_queue@.skip(
                    old(self).onchain_withdrawal_batch as int,
                )
                &&& final(self).tree@ == apply_onchain_withdrawals(ledger, items)
                &&& final(self).withdrawal_accum_hash@ == withdrawal_chain(
                    params,
                    old(self).withdrawal_accum_hash@,
                    items,
                )
                &&& r matches Ok((inputs, circuit))
                &&& values(inputs@) == seq![
                    old(self).withdrawal_accum_hash@,
                    final(self).withdrawal_accum_hash@,
                    old(self).spec_root(),
                    final(self).spec_root(),
                ] + onchain_withdrawal_inputs(ledger, items)
                &&& onchain_withdrawal_batch_records(
                    circuit,
                    old(self).account_depth as nat,
                    ledger,
                    items,
                    old(self).withdrawal_accum_hash@,
                )
                &&& circuit.hash_params == params
                &&& circuit.well_shaped()
                &&& circuit.constraints_hold()
                &&& circuit.spec_inputs() == known_values(values(inputs@))
            },
    {
        if self.onchain_withdrawal_queue.len() < self.onchain_withdrawal_batch {
            return Err(OperatorError::NotEnoughObjects);
        }
        let ghost items = self.onchain_withdrawal_queue@.take(self.onchain_withdrawal_batch as int);
        let ghost ledger = self.tree@;
        let ghost queue = self.onchain_withdrawal_queue@;

        let old_hash = self.withdrawal_accum_hash;
        let old_root = self.tree.get_root();
        let mut executed: Vec<OnchainWithdrawalCircuit> = Vec::new();

        let mut k: usize = 0;
        while k < self.onchain_withdrawal_batch
            invariant
                self.wf(),
                self.same_settings(old(self)),
                self.deposit_accum_hash == old(self).deposit_accum_hash,
                self.transfer_queue == old(self).transfer_queue,
                self.deposit_queue == old(self).deposit_queue,
                self.offchain_withdrawal_queue == old(self).offchain_withdrawal_queue,
                k <= self.onchain_withdrawal_batch <= queue.len(),
                items == queue.take(self.onchain_withdrawal_batch as int),
                onchain_withdrawals_applicable(ledger, items),
                self.onchain_withdrawal_queue@ == queue.skip(k as int),
                nonces_grow(ledger, self.tree@),
                self.tree@ == apply_onchain_withdrawals(ledger, items.take(k as int)),
                self.withdrawal_accum_hash@ == withdrawal_chain(
                    self.hash_params,
                    old_hash@,
                    items.take(k as int),
                ),
                executed@.len() == k,
                forall|j: int|
                    0 <= j < k ==> (#[trigger] executed@[j]).witnesses(
                        self.hash_params,
                        self.account_depth as nat,
                        apply_onchain_withdrawals(ledger, items.take(j)),
                        items[j],
                    ),
            decreases self.onchain_withdrawal_batch - k,
        {
            let mut withdrawal = self.onchain_withdrawal_queue.remove(0);
            proof {
                lemma_onchain_withdrawals_applicable_prefix(ledger, items, k + 1);
                assert(items.take(k + 1).drop_last() =~= items.take(k as int));
                assert(items.take(k + 1).last() == withdrawal);
            }
            let mut record: Vec<FieldElement> = Vec::new();
            record.push(self.withdrawal_accum_hash);
            record.push(usize_to_fr(withdrawal.account_id));
            assert(values(record@) =~= seq![
                self.withdrawal_accum_hash@,
                withdrawal.account_id as nat,
            ]);
            self.withdrawal_accum_hash = self.hash_params.hash(&record);

            let amount = fr_to_usize(self.tree.get_balance(withdrawal.account_id));
            withdrawal.amount = Some(amount);

            let account_state = withdrawal.update_tree_and_record_state(&mut self.tree);

            let executed_withdrawal = OnchainWithdrawalCircuit {
                account_state,
                account_id: Some(usize_to_fr(withdrawal.account_id)),
                amount: Some(usize_to_fr(amount)),
            };
            executed.push(executed_withdrawal);
            k += 1;
            assert(self.onchain_withdrawal_queue@ =~= queue.skip(k as int));
        }
        assert(items.take(k as int) =~= items);

        let new_hash = self.withdrawal_accum_hash;
        let new_root = self.tree.get_root();

        let mut public_inputs: Vec<FieldElement> = Vec::new();
        public_inputs.push(old_hash);
        public_inputs.push(new_hash);
        public_inputs.push(old_root);
        public_inputs.push(new_root);
        let ghost head = seq![old_hash@, new_hash@, old_root@, new_root@];
        assert(values(public_inputs@) =~= head + onchain_withdrawal_inputs(ledger, items.take(0)));
        let mut i: usize = 0;
        while i < self.onchain_withdrawal_batch
            invariant
                i <= self.onchain_withdrawal_batch,
                self.onchain_withdrawal_batch == items.len(),
                executed@.len() == items.len(),
                forall|j: int|
                    0 <= j < items.len() ==> (#[trigger] executed@[j]).witnesses(
                        self.hash_params,
                        self.account_depth as nat,
                        apply_onchain_withdrawals(ledger, items.take(j)),
                        items[j],
                    ),
                values(public_inputs@) == head + onchain_withdrawal_inputs(
                    ledger,
                    items.take(i as int),
                ),
            decreases self.onchain_withdrawal_batch - i,
        {
            assert(executed@[i as int].witnesses(
                self.hash_params,
                self.account_depth as nat,
                apply_onchain_withdrawals(ledger, items.take(i as int)),
                items[i as int],
            ));
            let ghost before = values(public_inputs@);
            let account_id = executed[i].account_id.unwrap();
            let amount = executed[i].amount.unwrap();
            public_inputs.push(account_id);
            public_inputs.push(amount);
            proof {
                assert(items.take(i + 1).drop_last() =~= items.take(i as int));
                assert(items.take(i + 1).last() == items[i as int]);
                assert(values(public_inputs@) =~= before + seq![account_id@, amount@]);
                assert(values(public_inputs@) =~= head + onchain_withdrawal_inputs(
                    ledger,
                    items.take(i + 1),
                ));
            }
            i += 1;
        }

        let circuit = OnchainWithdrawalBatchCircuit {
            batch_size: self.onchain_withdrawal_batch,
            account_depth: self.account_depth,
            hash_params: self.hash_params,
            queue: executed,
            old_accum_hash: Some(old_hash),
            new_accum_hash: Some(new_hash),
            old_account_root: Some(old_root),
            new_account_root: Some(new_root),
        };
        proof {
            lemma_depth_is_small(self.account_depth as nat);
            lemma_onchain_withdrawal_batch_satisfies(
                circuit,
                self.account_depth as nat,
                ledger,
                items,
                old_hash@,
            );
        }

        Ok((public_inputs, circuit))
    }

    /// Executes the oldest off-chain withdrawals, as many as a batch takes, if each of them
    /// carries a signature that verifies under its slot's key. They are taken
    /// from the queue one by one; at the first that does not verify the call
    /// fails, with the ledger as it was and the rest of the queue in place.
    pub fn execute_offchain_withdrawal_batch(&mut self) -> (r: Result<
        (Vec<FieldElement>, OffchainWithdrawalBatchCircuit<'a>),
        OperatorError,
    >)
        requires
            old(self).wf(),
            old(self).offchain_withdrawal_batch_ready(),
        ensures
            final(self).wf(),
            nonces_grow(old(self).tree@, final(self).tree@),
            final(self).same_settings(old(self)),
            final(self).deposit_accum_hash == old(self).deposit_accum_hash,
            final(self).withdrawal_accum_hash == old(self).withdrawal_accum_hash,
            final(self).transfer_queue == old(self).transfer_queue,
            final(self).deposit_queue == old(self).deposit_queue,
            final(self).onchain_withdrawal_queue == old(self).onchain_withdrawal_queue,
            old(self).offchain_withdrawal_queue@.len() < old(self).offchain_withdrawal_batch ==>
                r == Err::<
                (Vec<FieldElement>, OffchainWithdrawalBatchCircuit<'a>),
                OperatorError,
            >(OperatorError::NotEnoughObjects) && *final(self) == *old(self),
            old(self).offchain_withdrawal_queue@.len() >= old(self).offchain_withdrawal_batch ==> {
                let items = old(self).offchain_withdrawal_queue@.take(
                    old(self).offchain_withdrawal_batch as int,
                );
                let ledger = old(self).tree@;
                let params = old(self).hash_params;
                if forall|k: int| 0 <= k < items.len() ==>
                    withdrawal_authentic(ledger, params, #[trigger] items[k]) {
                    &&& final(self).offchain_withdrawal_queue@
                        == old(self).offchain_withdrawal_queue@.skip(
                        old(self).offchain_withdrawal_batch as int,
                    )
                    &&& final(self).tree@ == apply_offchain_withdrawals(ledger, items)
                    &&& r matches Ok((inputs, circuit))
                    &&& values(inputs@)
                        == seq![old(self).spec_root(), final(self).spec_root()] + offchain_withdrawal_inputs(
                        items,
                    )
                    &&& offchain_withdrawal_batch_records(
                        circuit,
                        old(self).account_depth as nat,
                        ledger,
                        items,
                    )
                    &&& circuit.hash_params == params
                    &&& circuit.sign_params == old(self).sign_params
                    &&& circuit.well_shaped()
                    &&& circuit.constraints_hold()
                    &&& circuit.spec_inputs() == known_values(values(inputs@))
                } else {
                    &&& r
                        == Err::<(Vec<FieldElement>, OffchainWithdrawalBatchCircuit<'a>), OperatorError>(
                        OperatorError::InvalidSignature,
                    )
                    &&& final(self).tree == old(self).tree
                    &&& exists|k: int|
                        0 <= k < items.len() && !withdrawal_authentic(
                            ledger,
                            params,
                            #[trigger] items[k],
                        )
                            && (
                        forall|j: int| 0 <= j < k ==>
                            withdrawal_authentic(ledger, params, #[trigger] items[j]))
                            && final(self).offchain_withdrawal_queue@
                                == old(self).offchain_withdrawal_queue@.skip(
                                k + 1,
                            )
                }
            },
    {
        if self.offchain_withdrawal_queue.len() < self.offchain_withdrawal_batch {
            return Err(OperatorError::NotEnoughObjects);
        }
        let ghost items = self.offchain_withdrawal_queue@.take(
            self.offchain_withdrawal_batch as int,
        );
        let ghost ledger = self.tree@;
        let ghost queue = self.offchain_withdrawal_queue@;

        let mut pending: Vec<OffchainWithdrawal> = Vec::new();
        let mut k: usize = 0;
        while k < self.offchain_withdrawal_batch
            invariant
                self.wf(),
                self.same_settings(old(self)),
                self.tree == old(self).tree,
                self.deposit_accum_hash == old(self).deposit_accum_hash,
                self.withdrawal_accum_hash == old(self).withdrawal_accum_hash,
                self.transfer_queue == old(self).transfer_queue,
                self.deposit_queue == old(self).deposit_queue,
                self.onchain_withdrawal_queue == old(self).onchain_withdrawal_queue,
                k <= self.offchain_withdrawal_batch <= queue.len(),
                queue == old(self).offchain_withdrawal_queue@,
                items == queue.take(self.offchain_withdrawal_batch as int),
                ledger == self.tree@,
                withdrawals_checkable(ledger, self.hash_params, items),
                withdrawals_authentic(ledger, self.hash_params, items) ==> offchain_withdrawals_applicable(ledger, items),
                self.offchain_withdrawal_queue@ == queue.skip(k as int),
                pending@ == items.take(k as int),
                forall|j: int|
                    0 <= j < k ==>
                        withdrawal_authentic(ledger, self.hash_params, #[trigger] items[j]),
            decreases self.offchain_withdrawal_batch - k,
        {
            let offchain_withdrawal = self.offchain_withdrawal_queue.remove(0);
            assert(offchain_withdrawal == items[k as int]);
            assert(self.offchain_withdrawal_queue@ =~= queue.skip(k + 1));
            proof {
                assert(withdrawals_authentic(ledger, self.hash_params, items.take(k as int)));
            }
            match self.check_offchain_withdrawal_signature(&offchain_withdrawal) {
                Err(e) => {
                    assert(!withdrawal_authentic(ledger, self.hash_params, items[k as int]));
                    assert(
                        self.offchain_withdrawal_queue@
                            == old(self).offchain_withdrawal_queue@.skip(
                            k + 1,
                        )
                    );
                    return Err(e);
                },
                Ok(()) => {},
            }
            pending.push(offchain_withdrawal);
            k += 1;
            assert(pending@ =~= items.take(k as int));
        }
        assert(pending@ =~= items);
        proof {
            assert(withdrawals_authentic(ledger, self.hash_params, items));
            assert forall|k: int| 0 <= k < items.len() implies (#[trigger] items[k]).account_id
                < old(self).tree@.len() && items[k].sign.is_some() by {
                assert(withdrawals_authentic(ledger, self.hash_params, items.take(k)));
            }
        }

        let old_root = self.tree.get_root();
        let mut executed: Vec<OffchainWithdrawalCircuit> = Vec::new();
        let mut i: usize = 0;
        while i < self.offchain_withdrawal_batch
            invariant
                self.wf(),
                self.same_settings(old(self)),
                self.deposit_accum_hash == old(self).deposit_accum_hash,
                self.withdrawal_accum_hash == old(self).withdrawal_accum_hash,
                self.transfer_queue == old(self).transfer_queue,
                self.deposit_queue == old(self).deposit_queue,
                self.onchain_withdrawal_queue == old(self).onchain_withdrawal_queue,
                self.offchain_withdrawal_queue@ == queue.skip(
                    self.offchain_withdrawal_batch as int,
                ),
                i <= self.offchain_withdrawal_batch,
                self.offchain_withdrawal_batch == items.len(),
                pending@ == items,
                forall|k: int| 0 <= k < items.len() ==>
                    (#[trigger] items[k]).account_id < old(self).tree@.len()
                        && items[k].sign.is_some(),
                offchain_withdrawals_applicable(ledger, items),
                nonces_grow(ledger, self.tree@),
                self.tree@ == apply_offchain_withdrawals(ledger, items.take(i as int)),
                executed@.len() == i,
                forall|j: int|
                    0 <= j < i ==> (#[trigger] executed@[j]).witnesses(
                        self.hash_params,
                        self.account_depth as nat,
                        apply_offchain_withdrawals(ledger, items.take(j)),
                        items[j],
                    ),
            decreases self.offchain_withdrawal_batch - i,
        {
            let offchain_withdrawal = pending[i];
            proof {
                lemma_offchain_withdrawals_applicable_prefix(ledger, items, i + 1);
                assert(items.take(i + 1).drop_last() =~= items.take(i as int));
                assert(items.take(i + 1).last() == offchain_withdrawal);
            }
            let account_state = offchain_withdrawal.update_tree_and_record_state(&mut self.tree);
            let pubkey = self.tree.get_pubkey(offchain_withdrawal.account_id);
            let executed_item = OffchainWithdrawalCircuit {
                account_state,
                account_id: Some(usize_to_fr(offchain_withdrawal.account_id)),
                amount: Some(usize_to_fr(offchain_withdrawal.amount)),
                nonce: Some(usize_to_fr(offchain_withdrawal.nonce)),
                sign: offchain_withdrawal.sign,
                pubkey: Some(pubkey),
            };
            executed.push(executed_item);
            i += 1;
        }
        assert(items.take(i as int) =~= items);

        let new_root = self.tree.get_root();

        let mut public_inputs: Vec<FieldElement> = Vec::new();
        public_inputs.push(old_root);
        public_inputs.push(new_root);
        let ghost head = seq![old_root@, new_root@];
        assert(values(public_inputs@) =~= head + offchain_withdrawal_inputs(items.take(0)));
        let mut n: usize = 0;
        while n < self.offchain_withdrawal_batch
            invariant
                n <= self.offchain_withdrawal_batch,
                self.offchain_withdrawal_batch == items.len(),
                executed@.len() == items.len(),
                forall|j: int|
                    0 <= j < items.len() ==> (#[trigger] executed@[j]).witnesses(
                        self.hash_params,
                        self.account_depth as nat,
                        apply_offchain_withdrawals(ledger, items.take(j)),
                        items[j],
                    ),
                values(public_inputs@) == head + offchain_withdrawal_inputs(items.take(n as int)),
            decreases self.offchain_withdrawal_batch - n,
        {
            assert(executed@[n as int].witnesses(
                self.hash_params,
                self.account_depth as nat,
                apply_offchain_withdrawals(ledger, items.take(n as int)),
                items[n as int],
            ));
            let ghost before = values(public_inputs@);
            let account_id = executed[n].account_id.unwrap();
            let amount = executed[n].amount.unwrap();
            public_inputs.push(account_id);
            public_inputs.push(amount);
            proof {
                assert(items.take(n + 1).drop_last() =~= items.take(n as int));
                assert(items.take(n + 1).last() == items[n as int]);
                assert(values(public_inputs@) =~= before + seq![account_id@, amount@]);
                assert(values(public_inputs@) =~= head + offchain_withdrawal_inputs(
                    items.take(n + 1),
                ));
            }
            n += 1;
        }
        assert(items.take(n as int) =~= items);

        let circuit = OffchainWithdrawalBatchCircuit {
            batch_size: self.offchain_withdrawal_batch,
            account_depth: self.account_depth,
            hash_params: self.hash_params,
            sign_params: self.sign_params,
            queue: executed,
            old_account_root: Some(old_root),
            new_account_root: Some(new_root),
        };
        proof {
            lemma_depth_is_small(self.account_depth as nat);
            lemma_offchain_withdrawal_batch_satisfies(
                circuit,
                self.account_depth as nat,
                ledger,
                items,
            );
        }

        Ok((public_inputs, circuit))
    }

    /// Whether a transfer's signature verifies under its sender's key.
    fn check_transfer_signature(&self, transfer: &Transfer) -> (r: Result<(), OperatorError>)
        requires
            transfer.account_id_from < self.tree@.len(),
            transfer.sign.is_some(),
        ensures
            r is Ok <==> transfer_authentic(self.tree@, self.hash_params, *transfer),
            r is Err ==> r == Err::<(), OperatorError>(OperatorError::InvalidSignature),
    {
        let pubkey = self.tree.get_pubkey(transfer.account_id_from);
        if !transfer.verify_signature(&pubkey, self.hash_params, self.sign_params) {
            return Err(OperatorError::InvalidSignature);
        }
        Ok(())
    }

    /// Whether a withdrawal's signature verifies under its slot's key.
    fn check_offchain_withdrawal_signature(&self, withdrawal: &OffchainWithdrawal) -> (r: Result<
        (),
        OperatorError,
    >)
        requires
            withdrawal.account_id < self.tree@.len(),
            withdrawal.sign.is_some(),
        ensures
            r is Ok <==> withdrawal_authentic(self.tree@, self.hash_params, *withdrawal),
            r is Err ==> r == Err::<(), OperatorError>(OperatorError::InvalidSignature),
    {
        let pubkey = self.tree.get_pubkey(withdrawal.account_id);
        if !withdrawal.verify_signature(&pubkey, self.hash_params, self.sign_params) {
            return Err(OperatorError::InvalidSignature);
        }
        Ok(())
    }

    /// Executes the oldest transfers, as many as a batch takes, if each of them
    /// carries a signature that verifies under its slot's key. They are taken
    /// from the queue one by one; at the first that does not verify the call
    /// fails, with the ledger as it was and the rest of the queue in place.
    pub fn execute_transfer_batch(&mut self) -> (r: Result<
        (Vec<FieldElement>, TransferBatchCircuit<'a>),
        OperatorError,
    >)
        requires
            old(self).wf(),
            old(self).transfer_batch_ready(),
        ensures
            final(self).wf(),
            nonces_grow(old(self).tree@, final(self).tree@),
            final(self).same_settings(old(self)),
            final(self).deposit_accum_hash == old(self).deposit_accum_hash,
            final(self).withdrawal_accum_hash == old(self).withdrawal_accum_hash,
            final(self).deposit_queue == old(self).deposit_queue,
            final(self).onchain_withdrawal_queue == old(self).onchain_withdrawal_queue,
            final(self).offchain_withdrawal_queue == old(self).offchain_withdrawal_queue,
            old(self).transfer_queue@.len() < old(self).transfer_batch ==> r == Err::<
                (Vec<FieldElement>, TransferBatchCircuit<'a>),
                OperatorError,
            >(OperatorError::NotEnoughObjects) && *final(self) == *old(self),
            old(self).transfer_queue@.len() >= old(self).transfer_batch ==> {
                let items = old(self).transfer_queue@.take(old(self).transfer_batch as int);
                let ledger = old(self).tree@;
                let params = old(self).hash_params;
                if forall|k: int| 0 <= k < items.len() ==>
                    transfer_authentic(ledger, params, #[trigger] items[k]) {
                    &&& final(self).transfer_queue@ == old(self).transfer_queue@.skip(
                        old(self).transfer_batch as int,
                    )
                    &&& final(self).tree@ == apply_transfers(ledger, items)
                    &&& r matches Ok((inputs, circuit))
                    &&& values(inputs@) == seq![old(self).spec_root(), final(self).spec_root()]
                    &&& transfer_batch_records(
                        circuit,
                        old(self).account_depth as nat,
                        ledger,
                        items,
                    )
                    &&& circuit.hash_params == params
                    &&& circuit.sign_params == old(self).sign_params
                    &&& circuit.well_shaped()
                    &&& circuit.constraints_hold()
                    &&& circuit.spec_inputs() == known_values(values(inputs@))
                } else {
                    &&& r == Err::<(Vec<FieldElement>, TransferBatchCircuit<'a>), OperatorError>(
                        OperatorError::InvalidSignature,
                    )
                    &&& final(self).tree == old(self).tree
                    &&& exists|k: int|
                        0 <= k < items.len() && !transfer_authentic(
                            ledger,
                            params,
                            #[trigger] items[k],
                        )
                            && (
                        forall|j: int| 0 <= j < k ==>
                            transfer_authentic(ledger, params, #[trigger] items[j]))
                            && final(self).transfer_queue@ == old(self).transfer_queue@.skip(k + 1)
                }
            },
    {
        if self.transfer_queue.len() < self.transfer_batch {
            return Err(OperatorError::NotEnoughObjects);
        }
        let ghost items = self.transfer_queue@.take(self.transfer_batch as int);
        let ghost ledger = self.tree@;
        let ghost queue = self.transfer_queue@;

        let mut pending: Vec<Transfer> = Vec::new();
        let mut k: usize = 0;
        while k < self.transfer_batch
            invariant
                self.wf(),
                self.same_settings(old(self)),
                self.tree == old(self).tree,
                self.deposit_accum_hash == old(self).deposit_accum_hash,
                self.withdrawal_accum_hash == old(self).withdrawal_accum_hash,
                self.deposit_queue == old(self).deposit_queue,
                self.onchain_withdrawal_queue == old(self).onchain_withdrawal_queue,
                self.offchain_withdrawal_queue == old(self).offchain_withdrawal_queue,
                k <= self.transfer_batch <= queue.len(),
                queue == old(self).transfer_queue@,
                items == queue.take(self.transfer_batch as int),
                ledger == self.tree@,
                transfers_checkable(ledger, self.hash_params, items),
                transfers_authentic(ledger, self.hash_params, items) ==> transfers_applicable(ledger, items),
                self.transfer_queue@ == queue.skip(k as int),
                pending@ == items.take(k as int),
                forall|j: int|
                    0 <= j < k ==>
                        transfer_authentic(ledger, self.hash_params, #[trigger] items[j]),
            decreases self.transfer_batch - k,
        {
            let transfer = self.transfer_queue.remove(0);
            assert(transfer == items[k as int]);
            assert(self.transfer_queue@ =~= queue.skip(k + 1));
            proof {
                assert(transfers_authentic(ledger, self.hash_params, items.take(k as int)));
            }
            match self.check_transfer_signature(&transfer) {
                Err(e) => {
                    assert(!transfer_authentic(ledger, self.hash_params, items[k as int]));
                    assert(self.transfer_queue@ == old(self).transfer_queue@.skip(k + 1));
                    return Err(e);
                },
                Ok(()) => {},
            }
            pending.push(transfer);
            k += 1;
            assert(pending@ =~= items.take(k as int));
        }
        assert(pending@ =~= items);
        proof {
            assert(transfers_authentic(ledger, self.hash_params, items));
            assert forall|k: int| 0 <= k < items.len() implies (#[trigger] items[k]).account_id_from
                < old(self).tree@.len() && items[k].sign.is_some() by {
                assert(transfers_authentic(ledger, self.hash_params, items.take(k)));
            }
        }

        let old_root = self.tree.get_root();
        let mut executed: Vec<TransferCircuit> = Vec::new();
        let mut i: usize = 0;
        while i < self.transfer_batch
            invariant
                self.wf(),
                self.same_settings(old(self)),
                self.deposit_accum_hash == old(self).deposit_accum_hash,
                self.withdrawal_accum_hash == old(self).withdrawal_accum_hash,
                self.deposit_queue == old(self).deposit_queue,
                self.onchain_withdrawal_queue == old(self).onchain_withdrawal_queue,
                self.offchain_withdrawal_queue == old(self).offchain_withdrawal_queue,
                self.transfer_queue@ == queue.skip(self.transfer_batch as int),
                i <= self.transfer_batch,
                self.transfer_batch == items.len(),
                pending@ == items,
                forall|k: int| 0 <= k < items.len() ==>
                    (#[trigger] items[k]).account_id_from < old(self).tree@.len()
                        && items[k].sign.is_some(),
                transfers_applicable(ledger, items),
                nonces_grow(ledger, self.tree@),
                self.tree@ == apply_transfers(ledger, items.take(i as int)),
                executed@.len() == i,
                forall|j: int|
                    0 <= j < i ==> (#[trigger] executed@[j]).witnesses(
                        self.hash_params,
                        self.account_depth as nat,
                        apply_transfers(ledger, items.take(j)),
                        items[j],
                    ),
            decreases self.transfer_batch - i,
        {
            let transfer = pending[i];
            proof {
                lemma_transfers_applicable_prefix(ledger, items, i + 1);
                assert(items.take(i + 1).drop_last() =~= items.take(i as int));
                assert(items.take(i + 1).last() == transfer);
            }
            let ghost before = self.tree@;
            let (account_state_from, account_state_to) = transfer.update_tree_and_record_state(
                &mut self.tree,
            );
            assert(transfer.apply(before)[transfer.account_id_from as int].key
                == before[transfer.account_id_from as int].key);
            let pubkey = self.tree.get_pubkey(transfer.account_id_from);
            let executed_item = TransferCircuit {
                account_state_from,
                account_state_to,
                account_id_from: Some(usize_to_fr(transfer.account_id_from)),
                account_id_to: Some(usize_to_fr(transfer.account_id_to)),
                amount: Some(usize_to_fr(transfer.amount)),
                nonce: Some(usize_to_fr(transfer.nonce)),
                sign: transfer.sign,
                pubkey: Some(pubkey),
            };
            executed.push(executed_item);
            i += 1;
        }
        assert(items.take(i as int) =~= items);

        let new_root = self.tree.get_root();

        let mut public_inputs: Vec<FieldElement> = Vec::new();
        public_inputs.push(old_root);
        public_inputs.push(new_root);
        let ghost head = seq![old_root@, new_root@];
        assert(values(public_inputs@) =~= head);

        let circuit = TransferBatchCircuit {
            batch_size: self.transfer_batch,
            account_depth: self.account_depth,
            hash_params: self.hash_params,
            sign_params: self.sign_params,
            queue: executed,
            old_account_root: Some(old_root),
            new_account_root: Some(new_root),
        };
        proof {
            lemma_depth_is_small(self.account_depth as nat);
            lemma_transfer_batch_satisfies(circuit, self.account_depth as nat, ledger, items);
        }

        Ok((public_inputs, circuit))
    }

    /// Whether a batch of deposits can be executed as the queue and the
    /// ledger stand: whether the call of the executor is allowed.
    pub fn can_execute_deposit_batch(&self) -> (ok: bool)
        ensures
            ok == self.deposit_batch_ready(),
    {
        if self.deposit_queue.len() < self.deposit_batch {
            return true;
        }
        let ghost items = self.deposit_queue@.take(self.deposit_batch as int);
        let ghost start = self.tree@;
        let mut accounts = copy_vec(&self.tree.accounts);
        let mut k: usize = 0;
        assert(items.take(0) =~= Seq::<Deposit>::empty());
        while k < self.deposit_batch
            invariant
                start == self.tree@,
                k <= self.deposit_batch <= self.deposit_queue@.len(),
                items == self.deposit_queue@.take(self.deposit_batch as int),
                deposits_applicable(start, items.take(k as int)),
                ledger(accounts@) == apply_deposits(start, items.take(k as int)),
            decreases self.deposit_batch - k,
        {
            proof {
                assert(items.take(k + 1).drop_last() =~= items.take(k as int));
                assert(items.take(k + 1).last() == self.deposit_queue@[k as int]);
                if deposits_applicable(start, items) {
                    lemma_deposits_applicable_prefix(start, items, k + 1);
                }
            }
            if !self.deposit_queue[k].apply_to_accounts(&mut accounts) {
                return false;
            }
            k += 1;
        }
        assert(items.take(k as int) =~= items);
        true
    }

    /// Whether a batch of on-chain withdrawals can be executed as the queue and the
    /// ledger stand: whether the call of the executor is allowed.
    pub fn can_execute_onchain_withdrawal_batch(&self) -> (ok: bool)
        ensures
            ok == self.onchain_withdrawal_batch_ready(),
    {
        if self.onchain_withdrawal_queue.len() < self.onchain_withdrawal_batch {
            return true;
        }
        let ghost items = self.onchain_withdrawal_queue@.take(self.onchain_withdrawal_batch as int);
        let ghost start = self.tree@;
        let mut accounts = copy_vec(&self.tree.accounts);
        let mut k: usize = 0;
        assert(items.take(0) =~= Seq::<OnchainWithdrawal>::empty());
        while k < self.onchain_withdrawal_batch
            invariant
                start == self.tree@,
                k <= self.onchain_withdrawal_batch <= self.onchain_withdrawal_queue@.len(),
                items == self.onchain_withdrawal_queue@.take(self.onchain_withdrawal_batch as int),
                onchain_withdrawals_applicable(start, items.take(k as int)),
                ledger(accounts@) == apply_onchain_withdrawals(start, items.take(k as int)),
            decreases self.onchain_withdrawal_batch - k,
        {
            proof {
                assert(items.take(k + 1).drop_last() =~= items.take(k as int));
                assert(items.take(k + 1).last() == self.onchain_withdrawal_queue@[k as int]);
                if onchain_withdrawals_applicable(start, items) {
                    lemma_onchain_withdrawals_applicable_prefix(start, items, k + 1);
                }
            }
            if !self.onchain_withdrawal_queue[k].apply_to_accounts(&mut accounts) {
                return false;
            }
            k += 1;
        }
        assert(items.take(k as int) =~= items);
        true
    }

    /// Whether a batch of off-chain withdrawals can be executed as the queue and the
    /// ledger stand: whether the call of the executor is allowed.
    pub fn can_execute_offchain_withdrawal_batch(&self) -> (ok: bool)
        ensures
            ok == self.offchain_withdrawal_batch_ready(),
    {
        if self.offchain_withdrawal_queue.len() < self.offchain_withdrawal_batch {
            return true;
        }
        let ghost items = self.offchain_withdrawal_queue@.take(self.offchain_withdrawal_batch as int);
        let ghost start = self.tree@;
        let mut n: usize = 0;
        while n < self.offchain_withdrawal_batch
            invariant
                n <= self.offchain_withdrawal_batch <= self.offchain_withdrawal_queue@.len(),
                items == self.offchain_withdrawal_queue@.take(self.offchain_withdrawal_batch as int),
                start == self.tree@,
                forall|k: int| 0 <= k < n ==>
                    (#[trigger] items[k]).account_id < start.len() && items[k].sign.is_some(),
                forall|k: int| 0 <= k < n ==>
                    withdrawal_authentic(start, self.hash_params, #[trigger] items[k]),
            decreases self.offchain_withdrawal_batch - n,
        {
            assert(withdrawals_authentic(start, self.hash_params, items.take(n as int)));
            if self.offchain_withdrawal_queue[n].account_id >= self.tree.accounts.len()
                || self.offchain_withdrawal_queue[n].sign.is_none() {
                assert(!(items[n as int].account_id < start.len() && items[n as int].sign.is_some()));
                return false;
            }
            if self.check_offchain_withdrawal_signature(&self.offchain_withdrawal_queue[n]).is_err() {
                proof {
                    assert(!withdrawal_authentic(start, self.hash_params, items[n as int]));
                    assert forall|k: int|
                        0 <= k < items.len() && withdrawals_authentic(
                            start,
                            self.hash_params,
                            items.take(k),
                        ) implies (#[trigger] items[k]).account_id < start.len()
                        && items[k].sign.is_some() by {
                        if k > n {
                            assert(items.take(k)[n as int] == items[n as int]);
                        }
                    }
                }
                return true;
            }
            n += 1;
        }
        assert(withdrawals_authentic(start, self.hash_params, items));
        assert(withdrawals_checkable(start, self.hash_params, items));
        let mut accounts = copy_vec(&self.tree.accounts);
        let mut k: usize = 0;
        assert(items.take(0) =~= Seq::<OffchainWithdrawal>::empty());
        while k < self.offchain_withdrawal_batch
            invariant
                start == self.tree@,
                k <= self.offchain_withdrawal_batch <= self.offchain_withdrawal_queue@.len(),
                items == self.offchain_withdrawal_queue@.take(
                    self.offchain_withdrawal_batch as int,
                ),
                withdrawals_authentic(start, self.hash_params, items),
                offchain_withdrawals_applicable(start, items.take(k as int)),
                ledger(accounts@) == apply_offchain_withdrawals(start, items.take(k as int)),
            decreases self.offchain_withdrawal_batch - k,
        {
            proof {
                assert(items.take(k + 1).drop_last() =~= items.take(k as int));
                assert(items.take(k + 1).last() == self.offchain_withdrawal_queue@[k as int]);
                if offchain_withdrawals_applicable(start, items) {
                    lemma_offchain_withdrawals_applicable_prefix(start, items, k + 1);
                }
            }
            if !self.offchain_withdrawal_queue[k].apply_to_accounts(&mut accounts) {
                return false;
            }
            k += 1;
        }
        assert(items.take(k as int) =~= items);
        true
    }

    /// Whether a batch of transfers can be executed as the queue and the
    /// ledger stand: whether the call of the executor is allowed.
    pub fn can_execute_transfer_batch(&self) -> (ok: bool)
        ensures
            ok == self.transfer_batch_ready(),
    {
        if self.transfer_queue.len() < self.transfer_batch {
            return true;
        }
        let ghost items = self.transfer_queue@.take(self.transfer_batch as int);
        let ghost start = self.tree@;
        let mut n: usize = 0;
        while n < self.transfer_batch
            invariant
                n <= self.transfer_batch <= self.transfer_queue@.len(),
                items == self.transfer_queue@.take(self.transfer_batch as int),
                start == self.tree@,
                forall|k: int| 0 <= k < n ==>
                    (#[trigger] items[k]).account_id_from < start.len() && items[k].sign.is_some(),
                forall|k: int| 0 <= k < n ==>
                    transfer_authentic(start, self.hash_params, #[trigger] items[k]),
            decreases self.transfer_batch - n,
        {
            assert(transfers_authentic(start, self.hash_params, items.take(n as int)));
            if self.transfer_queue[n].account_id_from >= self.tree.accounts.len()
                || self.transfer_queue[n].sign.is_none() {
                assert(!(items[n as int].account_id_from < start.len() && items[n as int].sign.is_some()));
                return false;
            }
            if self.check_transfer_signature(&self.transfer_queue[n]).is_err() {
                proof {
                    assert(!transfer_authentic(start, self.hash_params, items[n as int]));
                    assert forall|k: int|
                        0 <= k < items.len() && transfers_authentic(
                            start,
                            self.hash_params,
                            items.take(k),
                        ) implies (#[trigger] items[k]).account_id_from < start.len()
                        && items[k].sign.is_some() by {
                        if k > n {
                            assert(items.take(k)[n as int] == items[n as int]);
                        }
                    }
                }
                return true;
            }
            n += 1;
        }
        assert(transfers_authentic(start, self.hash_params, items));
        assert(transfers_checkable(start, self.hash_params, items));
        let mut accounts = copy_vec(&self.tree.accounts);
        let mut k: usize = 0;
        assert(items.take(0) =~= Seq::<Transfer>::empty());
        while k < self.transfer_batch
            invariant
                start == self.tree@,
                k <= self.transfer_batch <= self.transfer_queue@.len(),
                items == self.transfer_queue@.take(self.transfer_batch as int),
                transfers_authentic(start, self.hash_params, items),
                transfers_applicable(start, items.take(k as int)),
                ledger(accounts@) == apply_transfers(start, items.take(k as int)),
            decreases self.transfer_batch - k,
        {
            proof {
                assert(items.take(k + 1).drop_last() =~= items.take(k as int));
                assert(items.take(k + 1).last() == self.transfer_queue@[k as int]);
                if transfers_applicable(start, items) {
                    lemma_transfers_applicable_prefix(start, items, k + 1);
                }
            }
            if !self.transfer_queue[k].apply_to_accounts(&mut accounts) {
                return false;
            }
            k += 1;
        }
        assert(items.take(k as int) =~= items);
        true
    }
}

} // verus!
