//! Transfers.

use crate::account::{path_witness, AccountState};
use crate::data_structs::sign::{signed_bytes, spec_signed_bytes};
use crate::eddsa::{public_key_of, PrivateKey, PublicKey, Signature, SignParams};
use crate::field::FieldElement;
use crate::hash::{values, HashParams};
use crate::tree::account::{
    balances_fit, ledger, lemma_total_balance_update, nonces_grow, total_balance, Account,
    AccountsTree, AccountView,
};
use crate::utils::utils::{fr_to_usize, usize_to_fr};
use vstd::prelude::*;

verus! {

/// A signed request to move an amount from one slot to another.
#[derive(Clone, Copy, Debug)]
pub struct Transfer {
    pub account_id_from: usize,
    pub account_id_to: usize,
    pub amount: usize,
    pub nonce: usize,
    pub sign: Option<Signature>,
}

impl Transfer {
    /// The hash that is signed: of the two slots, the amount and the nonce.
    pub open spec fn spec_hash(&self, params: &HashParams) -> nat {
        params.spec_hash(
            seq![
                self.account_id_from as nat,
                self.account_id_to as nat,
                self.amount as nat,
                self.nonce as nat,
            ],
        )
    }

    /// The ledger once the sender has paid: its balance is smaller by the
    /// amount and its nonce is the transfer's.
    pub open spec fn debit(&self, ledger: Seq<AccountView>) -> Seq<AccountView> {
        ledger.update(
            self.account_id_from as int,
            AccountView {
                key: ledger[self.account_id_from as int].key,
                nonce: self.nonce as nat,
                balance: (ledger[self.account_id_from as int].balance - self.amount) as nat,
            },
        )
    }

    /// The ledger once the receiver has been paid: its balance is larger by
    /// the amount.
    pub open spec fn credit(&self, ledger: Seq<AccountView>) -> Seq<AccountView> {
        ledger.update(
            self.account_id_to as int,
            AccountView {
                key: ledger[self.account_id_to as int].key,
                nonce: ledger[self.account_id_to as int].nonce,
                balance: ledger[self.account_id_to as int].balance + self.amount as nat,
            },
        )
    }

    /// The transfer names two slots of the ledger, the sender holds the
    /// amount, the transfer's nonce is the sender's next one, and the
    /// receiver's balance stays within the machine word.
    pub open spec fn applicable(&self, ledger: Seq<AccountView>) -> bool {
        &&& self.account_id_from < ledger.len()
        &&& self.account_id_to < ledger.len()
        &&& self.amount <= ledger[self.account_id_from as int].balance <= usize::MAX
        &&& self.nonce >= 1
        &&& ledger[self.account_id_from as int].nonce == self.nonce - 1
        &&& self.debit(ledger)[self.account_id_to as int].balance + self.amount <= usize::MAX
    }

    /// The ledger after the transfer: the sender has paid, then the receiver
    /// has been paid.
    pub open spec fn apply(&self, ledger: Seq<AccountView>) -> Seq<AccountView> {
        self.credit(self.debit(ledger))
    }

    /// Whether the transfer carries a signature that verifies under `key`.
    pub open spec fn signed_by(&self, key: (nat, nat), params: &HashParams) -> bool {
        self.sign matches Some(sig) && sig.verifies(key, spec_signed_bytes(self.spec_hash(params)))
    }

    /// The hash that is signed.
    pub fn hash(&self, hash_params: &HashParams) -> (h: FieldElement)
        ensures
            h@ == self.spec_hash(hash_params),
    {
        let mut request: Vec<FieldElement> = Vec::new();
        request.push(usize_to_fr(self.account_id_from));
        request.push(usize_to_fr(self.account_id_to));
        request.push(usize_to_fr(self.amount));
        request.push(usize_to_fr(self.nonce));
        assert(values(request@) =~= seq![
            self.account_id_from as nat,
            self.account_id_to as nat,
            self.amount as nat,
            self.nonce as nat,
        ]);
        hash_params.hash(&request)
    }

    /// Signs the transfer with the given key.
    pub fn sign(&mut self, seckey: &PrivateKey, hash_params: &HashParams, sign_params: &SignParams)
        ensures
            final(self).account_id_from == old(self).account_id_from,
            final(self).account_id_to == old(self).account_id_to,
            final(self).amount == old(self).amount,
            final(self).nonce == old(self).nonce,
            final(self).signed_by(public_key_of(seckey.0@), hash_params),
    {
        let hash = self.hash(hash_params);
        let hash_bytes = signed_bytes(hash);
        let sign = seckey.sign(&hash_bytes, sign_params);
        self.sign = Some(sign);
    }

    /// Whether the transfer's signature verifies under the given key.
    pub fn verify_signature(
        &self,
        pubkey: &PublicKey,
        hash_params: &HashParams,
        sign_params: &SignParams,
    ) -> (ok: bool)
        requires
            self.sign.is_some(),
        ensures
            ok == self.signed_by(pubkey@, hash_params),
    {
        let hash = self.hash(hash_params);
        let hash_bytes = signed_bytes(hash);
        let sign = self.sign.unwrap();
        pubkey.verify(&hash_bytes, &sign, sign_params)
    }

    /// Applies the transfer to the ledger: first the sender pays, then the
    /// receiver is paid. Records each of the two slots before and after its
    /// change, with its path as it was just before that change.
    pub fn update_tree_and_record_state(&self, tree: &mut AccountsTree) -> (states: (
        AccountState,
        AccountState,
    ))
        requires
            old(tree).wf(),
            self.applicable(old(tree)@),
        ensures
            final(tree).wf(),
            final(tree).spec_depth() == old(tree).spec_depth(),
            final(tree).spec_params() == old(tree).spec_params(),
            final(tree)@ == self.apply(old(tree)@),
            balances_fit(old(tree)@) ==> balances_fit(final(tree)@),
            nonces_grow(old(tree)@, final(tree)@),
            states.0.records(
                old(tree).spec_params(),
                old(tree).spec_depth(),
                old(tree)@,
                self.account_id_from as nat,
                self.debit(old(tree)@)[self.account_id_from as int],
            ),
            states.1.records(
                old(tree).spec_params(),
                old(tree).spec_depth(),
                self.debit(old(tree)@),
                self.account_id_to as nat,
                final(tree)@[self.account_id_to as int],
            ),
    {
        proof {
            if balances_fit(tree@) {
                lemma_transfer_keeps_ledger(*self, tree@);
            }
        }
        // the sender
        let old_balance = tree.accounts[self.account_id_from].balance;
        let new_balance = usize_to_fr(fr_to_usize(old_balance) - self.amount);

        let pubkey = tree.accounts[self.account_id_from].pubkey;
        let old_nonce = tree.accounts[self.account_id_from].nonce;
        let new_nonce = usize_to_fr(self.nonce);
        let (account_path, account_indices) = path_witness(tree, self.account_id_from);

        tree.update_balance(self.account_id_from, new_balance);
        tree.update_nonce(self.account_id_from, new_nonce);
        assert(tree@ =~= self.debit(old(tree)@));

        let account_state_from = AccountState {
            old_balance: Some(old_balance),
            new_balance: Some(new_balance),
            old_pubkey: Some(pubkey),
            new_pubkey: Some(pubkey),
            old_nonce: Some(old_nonce),
            new_nonce: Some(new_nonce),
            account_path,
            account_indices,
        };

        // the receiver
        let old_balance = tree.accounts[self.account_id_to].balance;
        let new_balance = usize_to_fr(fr_to_usize(old_balance) + self.amount);

        let pubkey = tree.accounts[self.account_id_to].pubkey;
        let nonce = tree.accounts[self.account_id_to].nonce;
        let (account_path, account_indices) = path_witness(tree, self.account_id_to);

        tree.update_balance(self.account_id_to, new_balance);

        let account_state_to = AccountState {
            old_balance: Some(old_balance),
            new_balance: Some(new_balance),
            old_pubkey: Some(pubkey),
            new_pubkey: Some(pubkey),
            old_nonce: Some(nonce),
            new_nonce: Some(nonce),
            account_path,
            account_indices,
        };

        (account_state_from, account_state_to)
    }

    /// Applies the transfer to the given slots, where it is applicable to
    /// them, and says whether it was.
    pub fn apply_to_accounts(&self, accounts: &mut Vec<Account>) -> (ok: bool)
        ensures
            ok == self.applicable(ledger(old(accounts)@)),
            ok ==> ledger(final(accounts)@) == self.apply(ledger(old(accounts)@)),
            !ok ==> final(accounts)@ == old(accounts)@,
    {
        if self.account_id_from >= accounts.len() || self.account_id_to >= accounts.len() {
            return false;
        }
        let sender = accounts[self.account_id_from];
        let balance = match sender.balance.to_u64() {
            Some(balance) => balance,
            None => {
                return false;
            },
        };
        if balance > usize::MAX as u64 || self.amount > balance as usize || self.nonce < 1 {
            return false;
        }
        if !sender.nonce.equals(&usize_to_fr(self.nonce - 1)) {
            return false;
        }
        let paid = Account {
            pubkey: sender.pubkey,
            nonce: usize_to_fr(self.nonce),
            balance: usize_to_fr(balance as usize - self.amount),
        };
        let receiver = if self.account_id_to == self.account_id_from {
            paid
        } else {
            accounts[self.account_id_to]
        };
        assert(receiver@ == self.debit(ledger(accounts@))[self.account_id_to as int]);
        let balance = match receiver.balance.to_u64() {
            Some(balance) => balance,
            None => {
                return false;
            },
        };
        if balance > usize::MAX as u64 || self.amount > usize::MAX - balance as usize {
            return false;
        }
        accounts.set(self.account_id_from, paid);
        accounts.set(
            self.account_id_to,
            Account {
                pubkey: receiver.pubkey,
                nonce: receiver.nonce,
                balance: usize_to_fr(balance as usize + self.amount),
            },
        );
        assert(ledger(accounts@) =~= self.apply(ledger(old(accounts)@)));
        true
    }
}

/// A transfer between two different slots leaves the sum of their balances
/// as it was.
pub proof fn lemma_transfer_conserves_balance(transfer: Transfer, ledger: Seq<AccountView>)
    requires
        transfer.applicable(ledger),
        transfer.account_id_from != transfer.account_id_to,
    ensures
        transfer.apply(ledger)[transfer.account_id_from as int].balance + transfer.apply(
            ledger,
        )[transfer.account_id_to as int].balance == ledger[transfer.account_id_from as int].balance
            + ledger[transfer.account_id_to as int].balance,
{
}

/// An applicable transfer leaves every balance within the machine word and no
/// nonce smaller.
pub proof fn lemma_transfer_keeps_ledger(transfer: Transfer, ledger: Seq<AccountView>)
    requires
        transfer.applicable(ledger),
        balances_fit(ledger),
    ensures
        balances_fit(transfer.apply(ledger)),
        nonces_grow(ledger, transfer.apply(ledger)),
{
}

/// An applicable transfer leaves the sum of all balances as it was.
pub proof fn lemma_transfer_keeps_total(transfer: Transfer, ledger: Seq<AccountView>)
    requires
        transfer.applicable(ledger),
    ensures
        total_balance(transfer.apply(ledger)) == total_balance(ledger),
{
    let paid = transfer.debit(ledger);
    lemma_total_balance_update(
        ledger,
        transfer.account_id_from as int,
        paid[transfer.account_id_from as int],
    );
    lemma_total_balance_update(
        paid,
        transfer.account_id_to as int,
        transfer.apply(ledger)[transfer.account_id_to as int],
    );
}

} // verus!
