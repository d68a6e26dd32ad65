//! What a batch of requests does to the ledger, and that the circuit of a batch
//! that was executed is met by what the execution recorded.

use crate::account::known;
use crate::circuit::{known_values, NUM_BITS};
use crate::data_structs::deposit::Deposit;
use crate::data_structs::offchain_withdrawal::OffchainWithdrawal;
use crate::data_structs::onchain_withdrawal::OnchainWithdrawal;
use crate::data_structs::transfer::Transfer;
use crate::deposit_circuit::{lemma_deposit_satisfies, DepositBatchCircuit, DepositCircuit};
use crate::hash::HashParams;
use crate::offchain_withdrawal_circuit::{
    lemma_offchain_withdrawal_satisfies, OffchainWithdrawalBatchCircuit, OffchainWithdrawalCircuit,
};
use crate::onchain_withdrawal_circuit::{
    lemma_onchain_withdrawal_satisfies, OnchainWithdrawalBatchCircuit, OnchainWithdrawalCircuit,
};
use crate::transfer_circuit::{lemma_transfer_satisfies, TransferBatchCircuit, TransferCircuit};
use crate::tree::account::{ledger, AccountsTree, AccountView};
use crate::tree::merkle_tree::{lemma_depth_fits, two_pow};
use vstd::prelude::*;

verus! {

/// The given deposits can be applied to the ledger one after the other.
pub open spec fn deposits_applicable(ledger: Seq<AccountView>, items: Seq<Deposit>) -> bool
    decreases items.len(),
{
    items.len() == 0 || (deposits_applicable(ledger, items.drop_last()) && items.last().applicable(
        apply_deposits(ledger, items.drop_last()),
    ))
}

/// The ledger after the given deposits, applied one after the other.
pub open spec fn apply_deposits(ledger: Seq<AccountView>, items: Seq<Deposit>) -> Seq<AccountView>
    decreases items.len(),
{
    if items.len() == 0 {
        ledger
    } else {
        items.last().apply(apply_deposits(ledger, items.drop_last()))
    }
}

/// The digest of the deposit history after one more deposit.
pub open spec fn deposit_digest(params: &HashParams, digest: nat, deposit: Deposit) -> nat {
    params.spec_hash(
        seq![
            digest,
            deposit.pubkey.unwrap()@.0,
            deposit.pubkey.unwrap()@.1,
            deposit.account_id as nat,
            deposit.amount as nat,
        ],
    )
}

/// The digest of the deposit history after the given deposits.
pub open spec fn deposit_chain(params: &HashParams, start: nat, items: Seq<Deposit>) -> nat
    decreases items.len(),
{
    if items.len() == 0 {
        start
    } else {
        deposit_digest(params, deposit_chain(params, start, items.drop_last()), items.last())
    }
}

/// Deposits that can be applied one after the other can be applied up to any
/// point.
pub proof fn lemma_deposits_applicable_prefix(
    ledger: Seq<AccountView>,
    items: Seq<Deposit>,
    k: int,
)
    requires
        deposits_applicable(ledger, items),
        0 <= k <= items.len(),
    ensures
        deposits_applicable(ledger, items.take(k)),
    decreases items.len(),
{
    if k == items.len() {
        assert(items.take(k) =~= items);
    } else {
        lemma_deposits_applicable_prefix(ledger, items.drop_last(), k);
        assert(items.drop_last().take(k) =~= items.take(k));
    }
}

/// The given on-chain withdrawals can be applied to the ledger one after the
/// other, and each takes an amount within the machine word.
pub open spec fn onchain_withdrawals_applicable(
    ledger: Seq<AccountView>,
    items: Seq<OnchainWithdrawal>,
) -> bool
    decreases items.len(),
{
    items.len() == 0 || {
        let before = apply_onchain_withdrawals(ledger, items.drop_last());
        &&& onchain_withdrawals_applicable(ledger, items.drop_last())
        &&& items.last().applicable(before)
        &&& before[items.last().account_id as int].balance <= usize::MAX
    }
}

/// The ledger after the given on-chain withdrawals, applied one after the
/// other.
pub open spec fn apply_onchain_withdrawals(
    ledger: Seq<AccountView>,
    items: Seq<OnchainWithdrawal>,
) -> Seq<AccountView>
    decreases items.len(),
{
    if items.len() == 0 {
        ledger
    } else {
        items.last().apply(apply_onchain_withdrawals(ledger, items.drop_last()))
    }
}

/// The digest of the withdrawal history after the given withdrawals.
pub open spec fn withdrawal_chain(
    params: &HashParams,
    start: nat,
    items: Seq<OnchainWithdrawal>,
) -> nat
    decreases items.len(),
{
    if items.len() == 0 {
        start
    } else {
        params.spec_hash(
            seq![
                withdrawal_chain(params, start, items.drop_last()),
                items.last().account_id as nat,
            ],
        )
    }
}

/// For each of the given on-chain withdrawals in turn, its slot and the
/// amount that it took: all that the slot held when its turn came.
pub open spec fn onchain_withdrawal_inputs(
    ledger: Seq<AccountView>,
    items: Seq<OnchainWithdrawal>,
) -> Seq<nat>
    decreases items.len(),
{
    if items.len() == 0 {
        Seq::empty()
    } else {
        let before = apply_onchain_withdrawals(ledger, items.drop_last());
        onchain_withdrawal_inputs(ledger, items.drop_last()) + seq![
            items.last().account_id as nat,
            before[items.last().account_id as int].balance,
        ]
    }
}

/// On-chain withdrawals that can be applied one after the other can be
/// applied up to any point.
pub proof fn lemma_onchain_withdrawals_applicable_prefix(
    ledger: Seq<AccountView>,
    items: Seq<OnchainWithdrawal>,
    k: int,
)
    requires
        onchain_withdrawals_applicable(ledger, items),
        0 <= k <= items.len(),
    ensures
        onchain_withdrawals_applicable(ledger, items.take(k)),
    decreases items.len(),
{
    if k == items.len() {
        assert(items.take(k) =~= items);
    } else {
        lemma_onchain_withdrawals_applicable_prefix(ledger, items.drop_last(), k);
        assert(items.drop_last().take(k) =~= items.take(k));
    }
}

/// The given off-chain withdrawals can be applied to the ledger one after
/// the other.
pub open spec fn offchain_withdrawals_applicable(
    ledger: Seq<AccountView>,
    items: Seq<OffchainWithdrawal>,
) -> bool
    decreases items.len(),
{
    items.len() == 0 || (offchain_withdrawals_applicable(ledger, items.drop_last())
        && items.last().applicable(apply_offchain_withdrawals(ledger, items.drop_last())))
}

/// The ledger after the given off-chain withdrawals, applied one after the
/// other.
pub open spec fn apply_offchain_withdrawals(
    ledger: Seq<AccountView>,
    items: Seq<OffchainWithdrawal>,
) -> Seq<AccountView>
    decreases items.len(),
{
    if items.len() == 0 {
        ledger
    } else {
        items.last().apply(apply_offchain_withdrawals(ledger, items.drop_last()))
    }
}

/// For each of the given off-chain withdrawals in turn, its slot and its
/// amount.
pub open spec fn offchain_withdrawal_inputs(items: Seq<OffchainWithdrawal>) -> Seq<nat>
    decreases items.len(),
{
    if items.len() == 0 {
        Seq::empty()
    } else {
        offchain_withdrawal_inputs(items.drop_last()) + seq![
            items.last().account_id as nat,
            items.last().amount as nat,
        ]
    }
}

/// Off-chain withdrawals that can be applied one after the other can be
/// applied up to any point.
pub proof fn lemma_offchain_withdrawals_applicable_prefix(
    ledger: Seq<AccountView>,
    items: Seq<OffchainWithdrawal>,
    k: int,
)
    requires
        offchain_withdrawals_applicable(ledger, items),
        0 <= k <= items.len(),
    ensures
        offchain_withdrawals_applicable(ledger, items.take(k)),
    decreases items.len(),
{
    if k == items.len() {
        assert(items.take(k) =~= items);
    } else {
        lemma_offchain_withdrawals_applicable_prefix(ledger, items.drop_last(), k);
        assert(items.drop_last().take(k) =~= items.take(k));
    }
}

/// The given transfers can be applied to the ledger one after the other.
pub open spec fn transfers_applicable(ledger: Seq<AccountView>, items: Seq<Transfer>) -> bool
    decreases items.len(),
{
    items.len() == 0 || (transfers_applicable(ledger, items.drop_last()) && items.last().applicable(
        apply_transfers(ledger, items.drop_last()),
    ))
}

/// The ledger after the given transfers, applied one after the other.
pub open spec fn apply_transfers(ledger: Seq<AccountView>, items: Seq<Transfer>) -> Seq<
    AccountView,
>
    decreases items.len(),
{
    if items.len() == 0 {
        ledger
    } else {
        items.last().apply(apply_transfers(ledger, items.drop_last()))
    }
}

/// Transfers that can be applied one after the other can be applied up to
/// any point.
pub proof fn lemma_transfers_applicable_prefix(
    ledger: Seq<AccountView>,
    items: Seq<Transfer>,
    k: int,
)
    requires
        transfers_applicable(ledger, items),
        0 <= k <= items.len(),
    ensures
        transfers_applicable(ledger, items.take(k)),
    decreases items.len(),
{
    if k == items.len() {
        assert(items.take(k) =~= items);
    } else {
        lemma_transfers_applicable_prefix(ledger, items.drop_last(), k);
        assert(items.drop_last().take(k) =~= items.take(k));
    }
}

/// The transfer names a slot of the ledger as its sender, carries a
/// signature, and the signature verifies under that slot's key.
pub open spec fn transfer_authentic(
    ledger: Seq<AccountView>,
    params: &HashParams,
    transfer: Transfer,
) -> bool {
    transfer.signed_by(ledger[transfer.account_id_from as int].key, params)
}

/// The withdrawal carries a signature that verifies under its slot's key.
pub open spec fn withdrawal_authentic(
    ledger: Seq<AccountView>,
    params: &HashParams,
    withdrawal: OffchainWithdrawal,
) -> bool {
    withdrawal.signed_by(ledger[withdrawal.account_id as int].key, params)
}

/// Every one of the transfers is authentic.
pub open spec fn transfers_authentic(
    ledger: Seq<AccountView>,
    params: &HashParams,
    items: Seq<Transfer>,
) -> bool {
    forall|k: int| 0 <= k < items.len() ==> transfer_authentic(ledger, params, #[trigger] items[k])
}

/// Each of the transfers, up to the first that is not authentic, names a
/// slot of the ledger as its sender and carries a signature.
pub open spec fn transfers_checkable(
    ledger: Seq<AccountView>,
    params: &HashParams,
    items: Seq<Transfer>,
) -> bool {
    forall|k: int|
        0 <= k < items.len() && transfers_authentic(ledger, params, items.take(k)) ==> (
        #[trigger] items[k]).account_id_from < ledger.len() && items[k].sign.is_some()
}

/// Every one of the withdrawals is authentic.
pub open spec fn withdrawals_authentic(
    ledger: Seq<AccountView>,
    params: &HashParams,
    items: Seq<OffchainWithdrawal>,
) -> bool {
    forall|k: int|
        0 <= k < items.len() ==> withdrawal_authentic(ledger, params, #[trigger] items[k])
}

/// Each of the withdrawals, up to the first that is not authentic, names a
/// slot of the ledger and carries a signature.
pub open spec fn withdrawals_checkable(
    ledger: Seq<AccountView>,
    params: &HashParams,
    items: Seq<OffchainWithdrawal>,
) -> bool {
    forall|k: int|
        0 <= k < items.len() && withdrawals_authentic(ledger, params, items.take(k)) ==> (
        #[trigger] items[k]).account_id < ledger.len() && items[k].sign.is_some()
}

/// The batch holds the given deposits as they were applied to the ledger one
/// after the other, between the digests and the roots before and after them.
pub open spec fn deposit_batch_records(
    circuit: DepositBatchCircuit,
    depth: nat,
    ledger: Seq<AccountView>,
    items: Seq<Deposit>, old_hash: nat,
) -> bool {
    &&& circuit.deposit_batch == items.len()
    &&& circuit.account_depth == depth
    &&& known(circuit.old_accum_hash, old_hash)
    &&& known(circuit.new_accum_hash, deposit_chain(circuit.hash_params, old_hash, items))
    &&& known(circuit.old_account_root, AccountsTree::root_of(circuit.hash_params, depth, ledger))
    &&& known(
        circuit.new_account_root,
        AccountsTree::root_of(circuit.hash_params, depth, apply_deposits(ledger, items)),
    )
    &&& circuit.deposit_queue@.len() == items.len()
    &&& forall|j: int|
        0 <= j < items.len() ==> (#[trigger] circuit.deposit_queue@[j]).witnesses(
            circuit.hash_params,
            depth,
            apply_deposits(ledger, items.take(j)),
            items[j],
        )
}

/// The batch holds the given on-chain withdrawals as they were applied to the ledger one
/// after the other, between the digests and the roots before and after them.
pub open spec fn onchain_withdrawal_batch_records(
    circuit: OnchainWithdrawalBatchCircuit,
    depth: nat,
    ledger: Seq<AccountView>,
    items: Seq<OnchainWithdrawal>, old_hash: nat,
) -> bool {
    &&& circuit.batch_size == items.len()
    &&& circuit.account_depth == depth
    &&& known(circuit.old_accum_hash, old_hash)
    &&& known(circuit.new_accum_hash, withdrawal_chain(circuit.hash_params, old_hash, items))
    &&& known(circuit.old_account_root, AccountsTree::root_of(circuit.hash_params, depth, ledger))
    &&& known(
        circuit.new_account_root,
        AccountsTree::root_of(circuit.hash_params, depth, apply_onchain_withdrawals(ledger, items)),
    )
    &&& circuit.queue@.len() == items.len()
    &&& forall|j: int|
        0 <= j < items.len() ==> (#[trigger] circuit.queue@[j]).witnesses(
            circuit.hash_params,
            depth,
            apply_onchain_withdrawals(ledger, items.take(j)),
            items[j],
        )
}

/// The batch holds the given off-chain withdrawals as they were applied to the ledger one
/// after the other, between the roots before and after them.
pub open spec fn offchain_withdrawal_batch_records(
    circuit: OffchainWithdrawalBatchCircuit,
    depth: nat,
    ledger: Seq<AccountView>,
    items: Seq<OffchainWithdrawal>,
) -> bool {
    &&& circuit.batch_size == items.len()
    &&& circuit.account_depth == depth
    &&& known(circuit.old_account_root, AccountsTree::root_of(circuit.hash_params, depth, ledger))
    &&& known(
        circuit.new_account_root,
        AccountsTree::root_of(
            circuit.hash_params,
            depth,
            apply_offchain_withdrawals(ledger, items),
        ),
    )
    &&& circuit.queue@.len() == items.len()
    &&& forall|j: int|
        0 <= j < items.len() ==> (#[trigger] circuit.queue@[j]).witnesses(
            circuit.hash_params,
            depth,
            apply_offchain_withdrawals(ledger, items.take(j)),
            items[j],
        )
}

/// The batch holds the given transfers as they were applied to the ledger one
/// after the other, between the roots before and after them.
pub open spec fn transfer_batch_records(
    circuit: TransferBatchCircuit,
    depth: nat,
    ledger: Seq<AccountView>,
    items: Seq<Transfer>,
) -> bool {
    &&& circuit.batch_size == items.len()
    &&& circuit.account_depth == depth
    &&& known(circuit.old_account_root, AccountsTree::root_of(circuit.hash_params, depth, ledger))
    &&& known(
        circuit.new_account_root,
        AccountsTree::root_of(circuit.hash_params, depth, apply_transfers(ledger, items)),
    )
    &&& circuit.queue@.len() == items.len()
    &&& forall|j: int|
        0 <= j < items.len() ==> (#[trigger] circuit.queue@[j]).witnesses(
            circuit.hash_params,
            depth,
            apply_transfers(ledger, items.take(j)),
            items[j],
        )
}

/// A ledger whose tree fits the machine has fewer levels than a field
/// element has bits.
pub proof fn lemma_depth_is_small(depth: nat)
    requires
        2 * two_pow(depth) <= usize::MAX,
    ensures
        depth <= NUM_BITS,
{
    lemma_depth_fits(depth);
}

/// The items that hold the first `k` of a run of applicable on-chain
/// withdrawals meet what the circuit asks of them from the ledger's root,
/// and end in the root and the digest after those withdrawals.
pub proof fn lemma_onchain_withdrawal_chain(
    queue: Seq<OnchainWithdrawalCircuit>,
    params: &HashParams,
    depth: nat,
    ledger: Seq<AccountView>,
    items: Seq<OnchainWithdrawal>,
    old_hash: nat,
    k: int,
)
    requires
        ledger.len() == two_pow(depth),
        onchain_withdrawals_applicable(ledger, items),
        queue.len() == items.len(),
        forall|j: int|
            0 <= j < items.len() ==> (#[trigger] queue[j]).witnesses(
                params,
                depth,
                apply_onchain_withdrawals(ledger, items.take(j)),
                items[j],
            ),
        0 <= k <= items.len(),
    ensures
        apply_onchain_withdrawals(ledger, items.take(k)).len() == ledger.len(),
        OnchainWithdrawalBatchCircuit::chain_holds(
            queue.take(k),
            params,
            Some(AccountsTree::root_of(params, depth, ledger)),
        ),
        OnchainWithdrawalBatchCircuit::chain_root(
            queue.take(k),
            params,
            Some(AccountsTree::root_of(params, depth, ledger)),
        ) == Some(
            AccountsTree::root_of(params, depth, apply_onchain_withdrawals(ledger, items.take(k))),
        ),
        OnchainWithdrawalBatchCircuit::chain_hash(queue.take(k), params, Some(old_hash)) == Some(
            withdrawal_chain(params, old_hash, items.take(k)),
        ),
        OnchainWithdrawalBatchCircuit::items_inputs(queue.take(k)) == known_values(
            onchain_withdrawal_inputs(ledger, items.take(k)),
        ),
    decreases k,
{
    if k == 0 {
        assert(items.take(0) =~= Seq::<OnchainWithdrawal>::empty());
        assert(queue.take(0) =~= Seq::<OnchainWithdrawalCircuit>::empty());
        assert(OnchainWithdrawalBatchCircuit::items_inputs(queue.take(0)) =~= known_values(
            onchain_withdrawal_inputs(ledger, items.take(0)),
        ));
    } else {
        lemma_onchain_withdrawal_chain(queue, params, depth, ledger, items, old_hash, k - 1);
        lemma_onchain_withdrawals_applicable_prefix(ledger, items, k);
        assert(items.take(k).drop_last() =~= items.take(k - 1));
        assert(queue.take(k).drop_last() =~= queue.take(k - 1));
        assert(items.take(k).last() == items[k - 1]);
        assert(queue.take(k).last() == queue[k - 1]);
        let before = apply_onchain_withdrawals(ledger, items.take(k - 1));
        assert(queue[k - 1].witnesses(params, depth, before, items[k - 1]));
        lemma_onchain_withdrawal_satisfies(queue[k - 1], params, depth, before, items[k - 1]);
        assert(OnchainWithdrawalBatchCircuit::items_inputs(queue.take(k)) =~= known_values(
            onchain_withdrawal_inputs(ledger, items.take(k)),
        ));
    }
}

/// A batch that holds a run of applicable on-chain withdrawals as they were
/// applied to a ledger, between the digests and the roots before and after
/// them, meets all that its circuit asks.
pub proof fn lemma_onchain_withdrawal_batch_satisfies(
    circuit: OnchainWithdrawalBatchCircuit,
    depth: nat,
    ledger: Seq<AccountView>,
    items: Seq<OnchainWithdrawal>,
    old_hash: nat,
)
    requires
        ledger.len() == two_pow(depth),
        onchain_withdrawals_applicable(ledger, items),
        onchain_withdrawal_batch_records(circuit, depth, ledger, items, old_hash),
    ensures
        circuit.constraints_hold(),
        circuit.spec_inputs() == known_values(
            seq![
                old_hash,
                withdrawal_chain(circuit.hash_params, old_hash, items),
                AccountsTree::root_of(circuit.hash_params, depth, ledger),
                AccountsTree::root_of(
                    circuit.hash_params,
                    depth,
                    apply_onchain_withdrawals(ledger, items),
                ),
            ] + onchain_withdrawal_inputs(ledger, items),
        ),
{
    lemma_onchain_withdrawal_chain(
        circuit.queue@,
        circuit.hash_params,
        depth,
        ledger,
        items,
        old_hash,
        items.len() as int,
    );
    assert(items.take(items.len() as int) =~= items);
    assert(circuit.queue@.take(items.len() as int) =~= circuit.queue@);
    assert(circuit.spec_inputs() =~= known_values(
        seq![
            old_hash,
            withdrawal_chain(circuit.hash_params, old_hash, items),
            AccountsTree::root_of(circuit.hash_params, depth, ledger),
            AccountsTree::root_of(
                circuit.hash_params,
                depth,
                apply_onchain_withdrawals(ledger, items),
            ),
        ] + onchain_withdrawal_inputs(ledger, items),
    ));
}

/// The items that hold the first `k` of a run of applicable deposits meet
/// what the circuit asks of them from the ledger's root, and end in the
/// root and the digest after those deposits.
pub proof fn lemma_deposit_chain(
    queue: Seq<DepositCircuit>,
    params: &HashParams,
    depth: nat,
    ledger: Seq<AccountView>,
    items: Seq<Deposit>,
    old_hash: nat,
    k: int,
)
    requires
        ledger.len() == two_pow(depth),
        deposits_applicable(ledger, items),
        queue.len() == items.len(),
        forall|j: int|
            0 <= j < items.len() ==> (#[trigger] queue[j]).witnesses(
                params,
                depth,
                apply_deposits(ledger, items.take(j)),
                items[j],
            ),
        0 <= k <= items.len(),
    ensures
        apply_deposits(ledger, items.take(k)).len() == ledger.len(),
        DepositBatchCircuit::chain_holds(
            queue.take(k),
            params,
            Some(AccountsTree::root_of(params, depth, ledger)),
        ),
        DepositBatchCircuit::chain_root(
            queue.take(k),
            params,
            Some(AccountsTree::root_of(params, depth, ledger)),
        ) == Some(AccountsTree::root_of(params, depth, apply_deposits(ledger, items.take(k)))),
        DepositBatchCircuit::chain_hash(queue.take(k), params, Some(old_hash)) == Some(
            deposit_chain(params, old_hash, items.take(k)),
        ),
    decreases k,
{
    if k == 0 {
        assert(items.take(0) =~= Seq::<Deposit>::empty());
        assert(queue.take(0) =~= Seq::<DepositCircuit>::empty());
    } else {
        lemma_deposit_chain(queue, params, depth, ledger, items, old_hash, k - 1);
        lemma_deposits_applicable_prefix(ledger, items, k);
        assert(items.take(k).drop_last() =~= items.take(k - 1));
        assert(queue.take(k).drop_last() =~= queue.take(k - 1));
        assert(items.take(k).last() == items[k - 1]);
        assert(queue.take(k).last() == queue[k - 1]);
        let before = apply_deposits(ledger, items.take(k - 1));
        assert(queue[k - 1].witnesses(params, depth, before, items[k - 1]));
        lemma_deposit_satisfies(queue[k - 1], params, depth, before, items[k - 1]);
    }
}

/// A batch that holds a run of applicable deposits as they were applied to
/// a ledger, between the digests and the roots before and after them, meets
/// all that its circuit asks.
pub proof fn lemma_deposit_batch_satisfies(
    circuit: DepositBatchCircuit,
    depth: nat,
    ledger: Seq<AccountView>,
    items: Seq<Deposit>,
    old_hash: nat,
)
    requires
        ledger.len() == two_pow(depth),
        deposits_applicable(ledger, items),
        deposit_batch_records(circuit, depth, ledger, items, old_hash),
    ensures
        circuit.constraints_hold(),
        circuit.spec_inputs() == known_values(
            seq![
                old_hash,
                deposit_chain(circuit.hash_params, old_hash, items),
                AccountsTree::root_of(circuit.hash_params, depth, ledger),
                AccountsTree::root_of(circuit.hash_params, depth, apply_deposits(ledger, items)),
            ],
        ),
{
    assert(circuit.spec_inputs() =~= known_values(
        seq![
            old_hash,
            deposit_chain(circuit.hash_params, old_hash, items),
            AccountsTree::root_of(circuit.hash_params, depth, ledger),
            AccountsTree::root_of(circuit.hash_params, depth, apply_deposits(ledger, items)),
        ],
    ));
    lemma_deposit_chain(
        circuit.deposit_queue@,
        circuit.hash_params,
        depth,
        ledger,
        items,
        old_hash,
        items.len() as int,
    );
    assert(items.take(items.len() as int) =~= items);
    assert(circuit.deposit_queue@.take(items.len() as int) =~= circuit.deposit_queue@);
}

/// A run of applicable off-chain withdrawals leaves the number of slots and every key as
/// they were.
pub proof fn lemma_offchain_withdrawals_keep_keys(
    ledger: Seq<AccountView>,
    items: Seq<OffchainWithdrawal>,
)
    requires
        offchain_withdrawals_applicable(ledger, items),
    ensures
        apply_offchain_withdrawals(ledger, items).len() == ledger.len(),
        forall|i: int|
            0 <= i < ledger.len() ==>
                (#[trigger] apply_offchain_withdrawals(ledger, items)[i]).key == ledger[i].key,
    decreases items.len(),
{
    if items.len() > 0 {
        lemma_offchain_withdrawals_keep_keys(ledger, items.drop_last());
    }
}

/// The items that hold the first `k` of a run of applicable, authentic
/// off-chain withdrawals meet what the circuit asks of them from the ledger's root, and
/// end in the root after those off-chain withdrawals.
pub proof fn lemma_offchain_withdrawal_chain(
    queue: Seq<OffchainWithdrawalCircuit>,
    params: &HashParams,
    depth: nat,
    ledger: Seq<AccountView>,
    items: Seq<OffchainWithdrawal>,
    k: int,
)
    requires
        ledger.len() == two_pow(depth),
        offchain_withdrawals_applicable(ledger, items),
        forall|j: int| 0 <= j < items.len() ==>
            withdrawal_authentic(ledger, params, #[trigger] items[j]),
        queue.len() == items.len(),
        forall|j: int|
            0 <= j < items.len() ==> (#[trigger] queue[j]).witnesses(
                params,
                depth,
                apply_offchain_withdrawals(ledger, items.take(j)),
                items[j],
            ),
        0 <= k <= items.len(),
    ensures
        OffchainWithdrawalBatchCircuit::chain_holds(
            queue.take(k),
            params,
            Some(AccountsTree::root_of(params, depth, ledger)),
        ),
        OffchainWithdrawalBatchCircuit::chain_root(
            queue.take(k),
            params,
            Some(AccountsTree::root_of(params, depth, ledger)),
        ) == Some(
            AccountsTree::root_of(params, depth, apply_offchain_withdrawals(ledger, items.take(k))),
        ),
        OffchainWithdrawalBatchCircuit::items_inputs(queue.take(k)) == known_values(
            offchain_withdrawal_inputs(items.take(k)),
        ),
    decreases k,
{
    if k == 0 {
        assert(items.take(0) =~= Seq::<OffchainWithdrawal>::empty());
        assert(queue.take(0) =~= Seq::<OffchainWithdrawalCircuit>::empty());
        assert(OffchainWithdrawalBatchCircuit::items_inputs(queue.take(0)) =~= known_values(
            offchain_withdrawal_inputs(items.take(0)),
        ));
    } else {
        lemma_offchain_withdrawal_chain(queue, params, depth, ledger, items, k - 1);
        lemma_offchain_withdrawals_applicable_prefix(ledger, items, k);
        lemma_offchain_withdrawals_applicable_prefix(ledger, items, k - 1);
        assert(items.take(k).drop_last() =~= items.take(k - 1));
        assert(queue.take(k).drop_last() =~= queue.take(k - 1));
        assert(items.take(k).last() == items[k - 1]);
        assert(queue.take(k).last() == queue[k - 1]);
        let before = apply_offchain_withdrawals(ledger, items.take(k - 1));
        lemma_offchain_withdrawals_keep_keys(ledger, items.take(k - 1));
        assert(queue[k - 1].witnesses(params, depth, before, items[k - 1]));
        assert(withdrawal_authentic(ledger, params, items[k - 1]));
        assert(
            before[items[k - 1].account_id as int].key
                == ledger[items[k - 1].account_id as int].key
        );
        lemma_offchain_withdrawal_satisfies(queue[k - 1], params, depth, before, items[k - 1]);
        assert(OffchainWithdrawalBatchCircuit::items_inputs(queue.take(k)) =~= known_values(
            offchain_withdrawal_inputs(items.take(k)),
        ));
    }
}

/// A batch that holds a run of applicable, authentic off-chain withdrawals as they were
/// applied to a ledger, between the roots before and after them, meets all
/// that its circuit asks.
pub proof fn lemma_offchain_withdrawal_batch_satisfies(
    circuit: OffchainWithdrawalBatchCircuit,
    depth: nat,
    ledger: Seq<AccountView>,
    items: Seq<OffchainWithdrawal>,
)
    requires
        ledger.len() == two_pow(depth),
        offchain_withdrawals_applicable(ledger, items),
        forall|j: int|
            0 <= j < items.len() ==>
                withdrawal_authentic(ledger, circuit.hash_params, #[trigger] items[j]),
        offchain_withdrawal_batch_records(circuit, depth, ledger, items),
    ensures
        circuit.constraints_hold(),
        circuit.spec_inputs() == known_values(
            seq![
                AccountsTree::root_of(circuit.hash_params, depth, ledger),
                AccountsTree::root_of(
                    circuit.hash_params,
                    depth,
                    apply_offchain_withdrawals(ledger, items),
                ),
            ] + offchain_withdrawal_inputs(items),
        ),
{
    lemma_offchain_withdrawal_chain(
        circuit.queue@,
        circuit.hash_params,
        depth,
        ledger,
        items,
        items.len() as int,
    );
    assert(items.take(items.len() as int) =~= items);
    assert(circuit.queue@.take(items.len() as int) =~= circuit.queue@);
    assert(circuit.spec_inputs() =~= known_values(
        seq![
            AccountsTree::root_of(circuit.hash_params, depth, ledger),
            AccountsTree::root_of(
                circuit.hash_params,
                depth,
                apply_offchain_withdrawals(ledger, items),
            ),
        ] + offchain_withdrawal_inputs(items),
    ));
}

/// A run of applicable transfers leaves the number of slots and every key as
/// they were.
pub proof fn lemma_transfers_keep_keys(ledger: Seq<AccountView>, items: Seq<Transfer>)
    requires
        transfers_applicable(ledger, items),
    ensures
        apply_transfers(ledger, items).len() == ledger.len(),
        forall|i: int|
            0 <= i < ledger.len() ==>
                (#[trigger] apply_transfers(ledger, items)[i]).key == ledger[i].key,
    decreases items.len(),
{
    if items.len() > 0 {
        lemma_transfers_keep_keys(ledger, items.drop_last());
    }
}

/// The items that hold the first `k` of a run of applicable, authentic
/// transfers meet what the circuit asks of them from the ledger's root, and
/// end in the root after those transfers.
pub proof fn lemma_transfer_chain(
    queue: Seq<TransferCircuit>,
    params: &HashParams,
    depth: nat,
    ledger: Seq<AccountView>,
    items: Seq<Transfer>,
    k: int,
)
    requires
        ledger.len() == two_pow(depth),
        transfers_applicable(ledger, items),
        forall|j: int| 0 <= j < items.len() ==>
            transfer_authentic(ledger, params, #[trigger] items[j]),
        queue.len() == items.len(),
        forall|j: int|
            0 <= j < items.len() ==> (#[trigger] queue[j]).witnesses(
                params,
                depth,
                apply_transfers(ledger, items.take(j)),
                items[j],
            ),
        0 <= k <= items.len(),
    ensures
        TransferBatchCircuit::chain_holds(
            queue.take(k),
            params,
            Some(AccountsTree::root_of(params, depth, ledger)),
        ),
        TransferBatchCircuit::chain_root(
            queue.take(k),
            params,
            Some(AccountsTree::root_of(params, depth, ledger)),
        ) == Some(AccountsTree::root_of(params, depth, apply_transfers(ledger, items.take(k)))),
    decreases k,
{
    if k == 0 {
        assert(items.take(0) =~= Seq::<Transfer>::empty());
        assert(queue.take(0) =~= Seq::<TransferCircuit>::empty());
    } else {
        lemma_transfer_chain(queue, params, depth, ledger, items, k - 1);
        lemma_transfers_applicable_prefix(ledger, items, k);
        lemma_transfers_applicable_prefix(ledger, items, k - 1);
        assert(items.take(k).drop_last() =~= items.take(k - 1));
        assert(queue.take(k).drop_last() =~= queue.take(k - 1));
        assert(items.take(k).last() == items[k - 1]);
        assert(queue.take(k).last() == queue[k - 1]);
        let before = apply_transfers(ledger, items.take(k - 1));
        lemma_transfers_keep_keys(ledger, items.take(k - 1));
        assert(queue[k - 1].witnesses(params, depth, before, items[k - 1]));
        assert(transfer_authentic(ledger, params, items[k - 1]));
        assert(
            before[items[k - 1].account_id_from as int].key
                == ledger[items[k - 1].account_id_from as int].key
        );
        lemma_transfer_satisfies(queue[k - 1], params, depth, before, items[k - 1]);
    }
}

/// A batch that holds a run of applicable, authentic transfers as they were
/// applied to a ledger, between the roots before and after them, meets all
/// that its circuit asks.
pub proof fn lemma_transfer_batch_satisfies(
    circuit: TransferBatchCircuit,
    depth: nat,
    ledger: Seq<AccountView>,
    items: Seq<Transfer>,
)
    requires
        ledger.len() == two_pow(depth),
        transfers_applicable(ledger, items),
        forall|j: int|
            0 <= j < items.len() ==>
                transfer_authentic(ledger, circuit.hash_params, #[trigger] items[j]),
        transfer_batch_records(circuit, depth, ledger, items),
    ensures
        circuit.constraints_hold(),
        circuit.spec_inputs() == known_values(
            seq![
                AccountsTree::root_of(circuit.hash_params, depth, ledger),
                AccountsTree::root_of(circuit.hash_params, depth, apply_transfers(ledger, items)),
            ],
        ),
{
    lemma_transfer_chain(
        circuit.queue@,
        circuit.hash_params,
        depth,
        ledger,
        items,
        items.len() as int,
    );
    assert(items.take(items.len() as int) =~= items);
    assert(circuit.queue@.take(items.len() as int) =~= circuit.queue@);
    assert(circuit.spec_inputs() =~= known_values(
        seq![
            AccountsTree::root_of(circuit.hash_params, depth, ledger),
            AccountsTree::root_of(circuit.hash_params, depth, apply_transfers(ledger, items)),
        ],
    ));
}

} // verus!
