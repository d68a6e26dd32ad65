//! The slots of the ledger and the hash tree over them.

use crate::eddsa::{unset_key, PublicKey, SignParams};
use crate::field::FieldElement;
use crate::hash::{values, HashParams};
use crate::tree::merkle_tree::{
    lemma_two_pow_grows, lemma_two_pow_injective, merkle_root, two_pow, PoseidonMerkleTree,
};
use vstd::prelude::*;

verus! {

/// One slot of the ledger.
#[derive(Clone, Copy, Debug, PartialEq, Eq)]
pub struct Account {
    pub pubkey: PublicKey,
    pub nonce: FieldElement,
    pub balance: FieldElement,
}

/// What a slot holds, as numbers.
pub struct AccountView {
    pub key: (nat, nat),
    pub nonce: nat,
    pub balance: nat,
}

impl AccountView {
    /// The four values that a slot is hashed from: the key's coordinates,
    /// the nonce and the balance.
    pub open spec fn leaf(&self) -> Seq<nat> {
        seq![self.key.0, self.key.1, self.nonce, self.balance]
    }

    /// A slot that nobody owns yet.
    pub open spec fn is_empty(&self) -> bool {
        &&& self.key == unset_key()
        &&& self.nonce == 0
        &&& self.balance == 0
    }
}

impl View for Account {
    type V = AccountView;

    open spec fn view(&self) -> AccountView {
        AccountView { key: self.pubkey@, nonce: self.nonce@, balance: self.balance@ }
    }
}

/// What each of the given slots holds.
pub open spec fn ledger(accounts: Seq<Account>) -> Seq<AccountView> {
    accounts.map_values(|a: Account| a@)
}

impl Account {

    /// A slot that nobody owns yet.
    pub fn new(sign_params: &SignParams) -> (a: Self)
        ensures
            a@.is_empty(),
    {
        let pubkey = PublicKey::unset(sign_params);
        Account { pubkey, nonce: FieldElement::zero(), balance: FieldElement::zero() }
    }

    /// The four values that the slot is hashed from.
    pub fn compress_to_leaf(&self) -> (leaf: Vec<FieldElement>)
        ensures
            values(leaf@) == self@.leaf(),
    {
        let mut leaf: Vec<FieldElement> = Vec::new();
        leaf.push(self.pubkey.x);
        leaf.push(self.pubkey.y);
        leaf.push(self.nonce);
        leaf.push(self.balance);
        assert(values(leaf@) =~= self@.leaf());
        leaf
    }
}

/// Every balance fits the machine word, so that it goes into the field and
/// back unchanged.
pub open spec fn balances_fit(ledger: Seq<AccountView>) -> bool {
    forall|j: int| 0 <= j < ledger.len() ==> (#[trigger] ledger[j]).balance <= usize::MAX
}

/// The ledger `after` has the slots of `before`, none with a smaller nonce.
pub open spec fn nonces_grow(before: Seq<AccountView>, after: Seq<AccountView>) -> bool {
    &&& before.len() == after.len()
    &&& forall|j: int| 0 <= j < before.len() ==> before[j].nonce <= (#[trigger] after[j]).nonce
}

/// The sum of all balances.
pub open spec fn total_balance(ledger: Seq<AccountView>) -> nat
    decreases ledger.len(),
{
    if ledger.len() == 0 {
        0
    } else {
        total_balance(ledger.drop_last()) + ledger.last().balance
    }
}

/// Replacing a slot changes the sum of all balances by what the slot's
/// balance changes by.
pub proof fn lemma_total_balance_update(ledger: Seq<AccountView>, i: int, slot: AccountView)
    requires
        0 <= i < ledger.len(),
    ensures
        total_balance(ledger.update(i, slot)) + ledger[i].balance == total_balance(ledger)
            + slot.balance,
    decreases ledger.len(),
{
    let changed = ledger.update(i, slot);
    if i == ledger.len() - 1 {
        assert(changed.drop_last() =~= ledger.drop_last());
    } else {
        assert(changed.drop_last() =~= ledger.drop_last().update(i, slot));
        lemma_total_balance_update(ledger.drop_last(), i, slot);
    }
}

/// The hashes of the given slots.
pub open spec fn account_hashes(params: &HashParams, accounts: Seq<AccountView>) -> Seq<nat> {
    Seq::new(accounts.len(), |j: int| params.spec_hash(accounts[j].leaf()))
}

/// The ledger: its slots and the hash tree over them.
#[derive(Clone)]
pub struct AccountsTree<'a> {
    pub accounts: Vec<Account>,
    pub accounts_tree: PoseidonMerkleTree<'a>,
}

impl<'a> View for AccountsTree<'a> {
    type V = Seq<AccountView>;

    open spec fn view(&self) -> Seq<AccountView> {
        ledger(self.accounts@)
    }
}

impl<'a> AccountsTree<'a> {
    /// The tree is well formed and its leaves are the hashes of the slots.
    pub open spec fn wf(&self) -> bool {
        &&& self.accounts_tree.wf()
        &&& self.accounts@.len() == self.accounts_tree.spec_num_leaves()
        &&& self.accounts_tree.leaves() == account_hashes(self.accounts_tree.spec_params(), self@)
    }

    /// The number of levels of the tree above the slots.
    pub open spec fn spec_depth(&self) -> nat {
        self.accounts_tree.spec_depth()
    }

    /// The parameters that the ledger is hashed with.
    pub open spec fn spec_params(&self) -> &HashParams {
        self.accounts_tree.spec_params()
    }

    /// The root that the given slots hash to.
    pub open spec fn root_of(params: &HashParams, depth: nat, accounts: Seq<AccountView>) -> nat {
        merkle_root(params, account_hashes(params, accounts), depth)
    }

    /// The ledger's root.
    pub open spec fn spec_root(&self) -> nat {
        Self::root_of(self.spec_params(), self.spec_depth(), self@)
    }

    /// A ledger of `2^account_depth` empty slots.
    pub fn new(account_depth: usize, hash_params: &'a HashParams, sign_params: &SignParams) -> (t:
        Self)
        requires
            2 * two_pow(account_depth as nat) <= usize::MAX,
        ensures
            t.wf(),
            t.spec_depth() == account_depth,
            t.spec_params() == hash_params,
            t.accounts@.len() == two_pow(account_depth as nat),
            forall|j: int| 0 <= j < t@.len() ==> t@[j].is_empty(),
            balances_fit(t@),
    {
        let mut num_accounts: usize = 1;
        let mut k: usize = 0;
        while k < account_depth
            invariant
                k <= account_depth,
                num_accounts == two_pow(k as nat),
                2 * two_pow(account_depth as nat) <= usize::MAX,
            decreases account_depth - k,
        {
            proof {
                lemma_two_pow_grows((k + 1) as nat, account_depth as nat);
            }
            num_accounts = num_accounts * 2;
            k += 1;
        }
        let mut accounts: Vec<Account> = Vec::new();
        let mut leaves: Vec<Vec<FieldElement>> = Vec::new();
        let mut j: usize = 0;
        while j < num_accounts
            invariant
                j <= num_accounts,
                accounts.len() == j,
                leaves.len() == j,
                forall|q: int| 0 <= q < j ==> accounts@[q]@.is_empty(),
                forall|q: int| 0 <= q < j ==> values(leaves@[q]@) == accounts@[q]@.leaf(),
            decreases num_accounts - j,
        {
            let account = Account::new(sign_params);
            leaves.push(account.compress_to_leaf());
            accounts.push(account);
            j += 1;
        }
        let accounts_tree = PoseidonMerkleTree::new(leaves, hash_params);
        let t = AccountsTree { accounts, accounts_tree };
        assert(t.accounts_tree.leaves() =~= account_hashes(hash_params, t@));
        proof {
            lemma_two_pow_injective(t.spec_depth(), account_depth as nat);
        }
        t
    }

    fn rehash(&mut self, account_id: usize)
        requires
            old(self).accounts_tree.wf(),
            old(self).accounts@.len() == old(self).accounts_tree.spec_num_leaves(),
            account_id < old(self).accounts@.len(),
            forall|j: int|
                0 <= j < old(self).accounts@.len() && j != account_id ==> old(
                    self,
                ).accounts_tree.leaves()[j] == old(self).spec_params().spec_hash(
                    old(self).accounts@[j]@.leaf(),
                ),
        ensures
            final(self).wf(),
            final(self).accounts@ == old(self).accounts@,
            final(self).spec_depth() == old(self).spec_depth(),
            final(self).spec_params() == old(self).spec_params(),
    {
        let leaf = self.accounts[account_id].compress_to_leaf();
        self.accounts_tree.update_leaf(account_id, leaf);
        assert(self.accounts_tree.leaves() =~= account_hashes(
            self.accounts_tree.spec_params(),
            self@,
        ));
    }

    /// Sets the key and the nonce of a slot.
    pub fn update_account(&mut self, account_id: usize, pubkey: PublicKey, nonce: FieldElement)
        requires
            old(self).wf(),
            account_id < old(self).accounts@.len(),
        ensures
            final(self).wf(),
            final(self).spec_depth() == old(self).spec_depth(),
            final(self).spec_params() == old(self).spec_params(),
            final(self).accounts@ == old(self).accounts@.update(
                account_id as int,
                (Account { pubkey, nonce, balance: old(self).accounts@[account_id as int].balance }),
            ),
            final(self)@ == old(self)@.update(
                account_id as int,
                (AccountView {
                    key: pubkey@,
                    nonce: nonce@,
                    balance: old(self)@[account_id as int].balance,
                }),
            ),
    {
        let mut account = self.accounts[account_id];
        account.pubkey = pubkey;
        account.nonce = nonce;
        self.accounts.set(account_id, account);
        self.rehash(account_id);
        assert(self@ =~= old(self)@.update(account_id as int, account@));
    }

    /// Sets the nonce of a slot.
    pub fn update_nonce(&mut self, account_id: usize, nonce: FieldElement)
        requires
            old(self).wf(),
            account_id < old(self).accounts@.len(),
        ensures
            final(self).wf(),
            final(self).spec_depth() == old(self).spec_depth(),
            final(self).spec_params() == old(self).spec_params(),
            final(self).accounts@ == old(self).accounts@.update(
                account_id as int,
                (Account {
                    pubkey: old(self).accounts@[account_id as int].pubkey,
                    nonce,
                    balance: old(self).accounts@[account_id as int].balance,
                }),
            ),
            final(self)@ == old(self)@.update(
                account_id as int,
                (AccountView {
                    key: old(self)@[account_id as int].key,
                    nonce: nonce@,
                    balance: old(self)@[account_id as int].balance,
                }),
            ),
    {
        let mut account = self.accounts[account_id];
        account.nonce = nonce;
        self.accounts.set(account_id, account);
        self.rehash(account_id);
        assert(self@ =~= old(self)@.update(account_id as int, account@));
    }

    /// Sets the balance of a slot.
    pub fn update_balance(&mut self, account_id: usize, new_balance: FieldElement)
        requires
            old(self).wf(),
            account_id < old(self).accounts@.len(),
        ensures
            final(self).wf(),
            final(self).spec_depth() == old(self).spec_depth(),
            final(self).spec_params() == old(self).spec_params(),
            final(self).accounts@ == old(self).accounts@.update(
                account_id as int,
                (Account {
                    pubkey: old(self).accounts@[account_id as int].pubkey,
                    nonce: old(self).accounts@[account_id as int].nonce,
                    balance: new_balance,
                }),
            ),
            final(self)@ == old(self)@.update(
                account_id as int,
                (AccountView {
                    key: old(self)@[account_id as int].key,
                    nonce: old(self)@[account_id as int].nonce,
                    balance: new_balance@,
                }),
            ),
    {
        let mut account = self.accounts[account_id];
        account.balance = new_balance;
        self.accounts.set(account_id, account);
        self.rehash(account_id);
        assert(self@ =~= old(self)@.update(account_id as int, account@));
    }

    /// The key of a slot.
    pub fn get_pubkey(&self, account_id: usize) -> (pubkey: PublicKey)
        requires
            account_id < self.accounts@.len(),
        ensures
            pubkey == self.accounts@[account_id as int].pubkey,
    {
        self.accounts[account_id].pubkey
    }

    /// The nonce of a slot.
    pub fn get_nonce(&self, account_id: usize) -> (nonce: FieldElement)
        requires
            account_id < self.accounts@.len(),
        ensures
            nonce == self.accounts@[account_id as int].nonce,
    {
        self.accounts[account_id].nonce
    }

    /// The balance of a slot.
    pub fn get_balance(&self, account_id: usize) -> (balance: FieldElement)
        requires
            account_id < self.accounts@.len(),
        ensures
            balance == self.accounts@[account_id as int].balance,
    {
        self.accounts[account_id].balance
    }

    /// The ledger's root.
    pub fn get_root(&self) -> (root: FieldElement)
        requires
            self.wf(),
        ensures
            root@ == self.spec_root(),
    {
        self.accounts_tree.root()
    }
}

} // verus!
