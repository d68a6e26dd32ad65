//! On-chain withdrawals.

use crate::account::{path_witness, AccountState};
use crate::tree::account::{
    balances_fit, ledger, lemma_total_balance_update, nonces_grow, total_balance, Account,
    AccountsTree, AccountView,
};
use crate::utils::utils::usize_to_fr;
use vstd::prelude::*;

verus! {

/// A request to take out all that a slot holds. The amount is set when the
/// request is executed.
#[derive(Clone, Copy, Debug)]
pub struct OnchainWithdrawal {
    pub account_id: usize,
    pub amount: Option<usize>,
}

impl OnchainWithdrawal {
    /// The withdrawal names a slot of the ledger.
    pub open spec fn applicable(&self, ledger: Seq<AccountView>) -> bool {
        self.account_id < ledger.len()
    }

    /// The ledger after the withdrawal: the slot's balance is zero.
    pub open spec fn apply(&self, ledger: Seq<AccountView>) -> Seq<AccountView> {
        ledger.update(
            self.account_id as int,
            AccountView {
                key: ledger[self.account_id as int].key,
                nonce: ledger[self.account_id as int].nonce,
                balance: 0,
            },
        )
    }

    /// Applies the withdrawal to the ledger and records the slot before and
    /// after, with its path as it was before.
    pub fn update_tree_and_record_state(&self, tree: &mut AccountsTree) -> (state: AccountState)
        requires
            old(tree).wf(),
            self.applicable(old(tree)@),
        ensures
            final(tree).wf(),
            final(tree).spec_depth() == old(tree).spec_depth(),
            final(tree).spec_params() == old(tree).spec_params(),
            final(tree)@ == self.apply(old(tree)@),
            balances_fit(old(tree)@) ==> balances_fit(final(tree)@),
            nonces_grow(old(tree)@, final(tree)@),
            state.records(
                old(tree).spec_params(),
                old(tree).spec_depth(),
                old(tree)@,
                self.account_id as nat,
                final(tree)@[self.account_id as int],
            ),
    {
        proof {
            if balances_fit(tree@) {
                lemma_onchain_withdrawal_keeps_ledger(*self, tree@);
            }
        }
        let old_balance = tree.accounts[self.account_id].balance;
        let new_balance = usize_to_fr(0);

        let pubkey = tree.accounts[self.account_id].pubkey;
        let nonce = tree.accounts[self.account_id].nonce;
        let (account_path, account_indices) = path_witness(tree, self.account_id);

        tree.update_balance(self.account_id, new_balance);

        AccountState {
            old_balance: Some(old_balance),
            new_balance: Some(new_balance),
            old_pubkey: Some(pubkey),
            new_pubkey: Some(pubkey),
            old_nonce: Some(nonce),
            new_nonce: Some(nonce),
            account_path,
            account_indices,
        }
    }

    /// Applies the withdrawal to the given slots, where it is applicable to
    /// them and takes an amount within the machine word, and says whether it
    /// was.
    pub fn apply_to_accounts(&self, accounts: &mut Vec<Account>) -> (ok: bool)
        ensures
            ok == (self.applicable(ledger(old(accounts)@)) && ledger(
                old(accounts)@,
            )[self.account_id as int].balance <= usize::MAX),
            ok ==> ledger(final(accounts)@) == self.apply(ledger(old(accounts)@)),
            !ok ==> final(accounts)@ == old(accounts)@,
    {
        if self.account_id >= accounts.len() {
            return false;
        }
        let account = accounts[self.account_id];
        let fits = match account.balance.to_u64() {
            Some(balance) => balance <= usize::MAX as u64,
            None => false,
        };
        if !fits {
            return false;
        }
        accounts.set(
            self.account_id,
            Account { pubkey: account.pubkey, nonce: account.nonce, balance: usize_to_fr(0) },
        );
        assert(ledger(accounts@) =~= self.apply(ledger(old(accounts)@)));
        true
    }
}

/// An applicable on-chain withdrawal leaves every balance within the machine word and no
/// nonce smaller.
pub proof fn lemma_onchain_withdrawal_keeps_ledger(withdrawal: OnchainWithdrawal, ledger: Seq<AccountView>)
    requires
        withdrawal.applicable(ledger),
        balances_fit(ledger),
    ensures
        balances_fit(withdrawal.apply(ledger)),
        nonces_grow(ledger, withdrawal.apply(ledger)),
{
}

/// An applicable on-chain withdrawal lowers the sum of all balances by what
/// its slot held.
pub proof fn lemma_onchain_withdrawal_lowers_total(
    withdrawal: OnchainWithdrawal,
    ledger: Seq<AccountView>,
)
    requires
        withdrawal.applicable(ledger),
    ensures
        total_balance(withdrawal.apply(ledger)) + ledger[withdrawal.account_id as int].balance
            == total_balance(ledger),
{
    lemma_total_balance_update(
        ledger,
        withdrawal.account_id as int,
        withdrawal.apply(ledger)[withdrawal.account_id as int],
    );
}

} // verus!
