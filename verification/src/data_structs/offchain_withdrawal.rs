//! Off-chain withdrawals.

use crate::account::{path_witness, AccountState};
use crate::data_structs::sign::{signed_bytes, spec_signed_bytes};
use crate::eddsa::{public_key_of, PrivateKey, PublicKey, Signature, SignParams};
use crate::field::FieldElement;
use crate::hash::{values, HashParams};
use crate::tree::account::{
    balances_fit, ledger, lemma_total_balance_update, nonces_grow, total_balance, Account,
    AccountsTree, AccountView,
};
use crate::utils::utils::{fr_to_usize, usize_to_fr};
use vstd::prelude::*;

verus! {

/// A signed request to take an amount out of a slot.
#[derive(Clone, Copy, Debug)]
pub struct OffchainWithdrawal {
    pub account_id: usize,
    pub amount: usize,
    pub nonce: usize,
    pub sign: Option<Signature>,
}

impl OffchainWithdrawal {
    /// The hash that is signed: of the slot, the amount and the nonce.
    pub open spec fn spec_hash(&self, params: &HashParams) -> nat {
        params.spec_hash(seq![self.account_id as nat, self.amount as nat, self.nonce as nat])
    }

    /// The withdrawal names a slot of the ledger that holds the amount.
    pub open spec fn applicable(&self, ledger: Seq<AccountView>) -> bool {
        &&& self.account_id < ledger.len()
        &&& self.amount <= ledger[self.account_id as int].balance <= usize::MAX
    }

    /// The ledger after the withdrawal: the slot's balance is smaller by the
    /// amount.
    pub open spec fn apply(&self, ledger: Seq<AccountView>) -> Seq<AccountView> {
        ledger.update(
            self.account_id as int,
            AccountView {
                key: ledger[self.account_id as int].key,
                nonce: ledger[self.account_id as int].nonce,
                balance: (ledger[self.account_id as int].balance - self.amount) as nat,
            },
        )
    }

    /// Whether the withdrawal carries a signature that verifies under `key`.
    pub open spec fn signed_by(&self, key: (nat, nat), params: &HashParams) -> bool {
        self.sign matches Some(sig) && sig.verifies(key, spec_signed_bytes(self.spec_hash(params)))
    }

    /// The hash that is signed.
    pub fn hash(&self, hash_params: &HashParams) -> (h: FieldElement)
        ensures
            h@ == self.spec_hash(hash_params),
    {
        let mut request: Vec<FieldElement> = Vec::new();
        request.push(usize_to_fr(self.account_id));
        request.push(usize_to_fr(self.amount));
        request.push(usize_to_fr(self.nonce));
        assert(values(request@) =~= seq![
            self.account_id as nat,
            self.amount as nat,
            self.nonce as nat,
        ]);
        hash_params.hash(&request)
    }

    /// Signs the withdrawal with the given key.
    pub fn sign(&mut self, seckey: &PrivateKey, hash_params: &HashParams, sign_params: &SignParams)
        ensures
            final(self).account_id == old(self).account_id,
            final(self).amount == old(self).amount,
            final(self).nonce == old(self).nonce,
            final(self).signed_by(public_key_of(seckey.0@), hash_params),
    {
        let hash = self.hash(hash_params);
        let hash_bytes = signed_bytes(hash);
        let sign = seckey.sign(&hash_bytes, sign_params);
        self.sign = Some(sign);
    }

    /// Whether the withdrawal's signature verifies under the given key.
    pub fn verify_signature(
        &self,
        pubkey: &PublicKey,
        hash_params: &HashParams,
        sign_params: &SignParams,
    ) -> (ok: bool)
        requires
            self.sign.is_some(),
        ensures
            ok == self.signed_by(pubkey@, hash_params),
    {
        let hash = self.hash(hash_params);
        let hash_bytes = signed_bytes(hash);
        let sign = self.sign.unwrap();
        pubkey.verify(&hash_bytes, &sign, sign_params)
    }

    /// Applies the withdrawal to the ledger and records the slot before and
    /// after, with its path as it was before.
    pub fn update_tree_and_record_state(&self, tree: &mut AccountsTree) -> (state: AccountState)
        requires
            old(tree).wf(),
            self.applicable(old(tree)@),
        ensures
            final(tree).wf(),
            final(tree).spec_depth() == old(tree).spec_depth(),
            final(tree).spec_params() == old(tree).spec_params(),
            final(tree)@ == self.apply(old(tree)@),
            balances_fit(old(tree)@) ==> balances_fit(final(tree)@),
            nonces_grow(old(tree)@, final(tree)@),
            state.records(
                old(tree).spec_params(),
                old(tree).spec_depth(),
                old(tree)@,
                self.account_id as nat,
                final(tree)@[self.account_id as int],
            ),
    {
        proof {
            if balances_fit(tree@) {
                lemma_offchain_withdrawal_keeps_ledger(*self, tree@);
            }
        }
        let old_balance = tree.accounts[self.account_id].balance;
        let new_balance = usize_to_fr(fr_to_usize(old_balance) - self.amount);

        let pubkey = tree.accounts[self.account_id].pubkey;
        let nonce = tree.accounts[self.account_id].nonce;
        let (account_path, account_indices) = path_witness(tree, self.account_id);

        tree.update_balance(self.account_id, new_balance);

        AccountState {
            old_balance: Some(old_balance),
            new_balance: Some(new_balance),
            old_pubkey: Some(pubkey),
            new_pubkey: Some(pubkey),
            old_nonce: Some(nonce),
            new_nonce: Some(nonce),
            account_path,
            account_indices,
        }
    }

    /// Applies the withdrawal to the given slots, where it is applicable to
    /// them, and says whether it was.
    pub fn apply_to_accounts(&self, accounts: &mut Vec<Account>) -> (ok: bool)
        ensures
            ok == self.applicable(ledger(old(accounts)@)),
            ok ==> ledger(final(accounts)@) == self.apply(ledger(old(accounts)@)),
            !ok ==> final(accounts)@ == old(accounts)@,
    {
        if self.account_id >= accounts.len() {
            return false;
        }
        let account = accounts[self.account_id];
        let balance = match account.balance.to_u64() {
            Some(balance) => balance,
            None => {
                return false;
            },
        };
        if balance > usize::MAX as u64 || self.amount > balance as usize {
            return false;
        }
        let balance = usize_to_fr(balance as usize - self.amount);
        accounts.set(
            self.account_id,
            Account { pubkey: account.pubkey, nonce: account.nonce, balance },
        );
        assert(ledger(accounts@) =~= self.apply(ledger(old(accounts)@)));
        true
    }
}

/// An applicable off-chain withdrawal leaves every balance within the machine word and no
/// nonce smaller.
pub proof fn lemma_offchain_withdrawal_keeps_ledger(withdrawal: OffchainWithdrawal, ledger: Seq<AccountView>)
    requires
        withdrawal.applicable(ledger),
        balances_fit(ledger),
    ensures
        balances_fit(withdrawal.apply(ledger)),
        nonces_grow(ledger, withdrawal.apply(ledger)),
{
}

/// An applicable off-chain withdrawal lowers the sum of all balances by its
/// amount.
pub proof fn lemma_offchain_withdrawal_lowers_total(
    withdrawal: OffchainWithdrawal,
    ledger: Seq<AccountView>,
)
    requires
        withdrawal.applicable(ledger),
    ensures
        total_balance(withdrawal.apply(ledger)) + withdrawal.amount == total_balance(ledger),
{
    lemma_total_balance_update(
        ledger,
        withdrawal.account_id as int,
        withdrawal.apply(ledger)[withdrawal.account_id as int],
    );
}

} // verus!
