//! Deposits.

use crate::account::{path_witness, AccountState};
use crate::eddsa::PublicKey;
use crate::tree::account::{
    balances_fit, ledger, lemma_total_balance_update, nonces_grow, total_balance, Account,
    AccountsTree, AccountView,
};
use crate::utils::utils::{fr_to_usize, usize_to_fr};
use vstd::prelude::*;

verus! {

/// A request to credit a slot and to set its key.
#[derive(Clone, Copy, Debug)]
pub struct Deposit {
    pub pubkey: Option<PublicKey>,
    pub account_id: usize,
    pub amount: usize,
}

impl Deposit {
    /// The deposit names a slot of the ledger and a key, and the slot's
    /// balance stays within the machine word.
    pub open spec fn applicable(&self, ledger: Seq<AccountView>) -> bool {
        &&& self.account_id < ledger.len()
        &&& self.pubkey.is_some()
        &&& ledger[self.account_id as int].balance + self.amount <= usize::MAX
    }

    /// The ledger after the deposit: the slot has the deposit's key and its
    /// balance is larger by the amount.
    pub open spec fn apply(&self, ledger: Seq<AccountView>) -> Seq<AccountView> {
        ledger.update(
            self.account_id as int,
            AccountView {
                key: self.pubkey.unwrap()@,
                nonce: ledger[self.account_id as int].nonce,
                balance: ledger[self.account_id as int].balance + self.amount as nat,
            },
        )
    }

    /// Applies the deposit to the ledger and records the slot before and
    /// after, with its path as it was before.
    pub fn update_tree_and_record_state(&self, tree: &mut AccountsTree) -> (state: AccountState)
        requires
            old(tree).wf(),
            self.applicable(old(tree)@),
        ensures
            final(tree).wf(),
            final(tree).spec_depth() == old(tree).spec_depth(),
            final(tree).spec_params() == old(tree).spec_params(),
            final(tree)@ == self.apply(old(tree)@),
            balances_fit(old(tree)@) ==> balances_fit(final(tree)@),
            nonces_grow(old(tree)@, final(tree)@),
            state.records(
                old(tree).spec_params(),
                old(tree).spec_depth(),
                old(tree)@,
                self.account_id as nat,
                final(tree)@[self.account_id as int],
            ),
    {
        proof {
            if balances_fit(tree@) {
                lemma_deposit_keeps_ledger(*self, tree@);
            }
        }
        let old_balance = tree.accounts[self.account_id].balance;
        let new_balance = usize_to_fr(fr_to_usize(old_balance) + self.amount);

        let old_pubkey = tree.accounts[self.account_id].pubkey;
        let nonce = tree.accounts[self.account_id].nonce;
        let new_pubkey = self.pubkey.unwrap();
        let (account_path, account_indices) = path_witness(tree, self.account_id);

        tree.update_balance(self.account_id, new_balance);
        tree.update_account(self.account_id, new_pubkey, nonce);
        assert(tree@ =~= self.apply(old(tree)@));

        AccountState {
            old_balance: Some(old_balance),
            new_balance: Some(new_balance),
            old_pubkey: Some(old_pubkey),
            new_pubkey: Some(new_pubkey),
            old_nonce: Some(nonce),
            new_nonce: Some(nonce),
            account_path,
            account_indices,
        }
    }

    /// Applies the deposit to the given slots, where it is applicable to
    /// them, and says whether it was.
    pub fn apply_to_accounts(&self, accounts: &mut Vec<Account>) -> (ok: bool)
        ensures
            ok == self.applicable(ledger(old(accounts)@)),
            ok ==> ledger(final(accounts)@) == self.apply(ledger(old(accounts)@)),
            !ok ==> final(accounts)@ == old(accounts)@,
    {
        if self.account_id >= accounts.len() {
            return false;
        }
        let pubkey = match self.pubkey {
            Some(pubkey) => pubkey,
            None => {
                return false;
            },
        };
        let account = accounts[self.account_id];
        let balance = match account.balance.to_u64() {
            Some(balance) => balance,
            None => {
                return false;
            },
        };
        if balance > usize::MAX as u64 || self.amount > usize::MAX - balance as usize {
            return false;
        }
        let balance = usize_to_fr(balance as usize + self.amount);
        accounts.set(self.account_id, Account { pubkey, nonce: account.nonce, balance });
        assert(ledger(accounts@) =~= self.apply(ledger(old(accounts)@)));
        true
    }
}

/// An applicable deposit leaves every balance within the machine word and no
/// nonce smaller.
pub proof fn lemma_deposit_keeps_ledger(deposit: Deposit, ledger: Seq<AccountView>)
    requires
        deposit.applicable(ledger),
        balances_fit(ledger),
    ensures
        balances_fit(deposit.apply(ledger)),
        nonces_grow(ledger, deposit.apply(ledger)),
{
}

/// An applicable deposit raises the sum of all balances by its amount.
pub proof fn lemma_deposit_raises_total(deposit: Deposit, ledger: Seq<AccountView>)
    requires
        deposit.applicable(ledger),
    ensures
        total_balance(deposit.apply(ledger)) == total_balance(ledger) + deposit.amount,
{
    lemma_total_balance_update(
        ledger,
        deposit.account_id as int,
        deposit.apply(ledger)[deposit.account_id as int],
    );
}

} // verus!
