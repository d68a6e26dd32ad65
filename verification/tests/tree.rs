use openplasma_circuits::eddsa::{PrivateKey, PublicKey, SignParams};
use openplasma_circuits::field::{FieldElement, Scalar};
use openplasma_circuits::hash::HashParams;
use openplasma_circuits::tree::account::{Account, AccountsTree};
use openplasma_circuits::tree::merkle_tree::PoseidonMerkleTree;
use openplasma_circuits::utils::utils::usize_to_fr;

fn params() -> HashParams {
    HashParams::new(5, 6, 52, 126).unwrap()
}

fn leaf(n: usize) -> Vec<FieldElement> {
    vec![usize_to_fr(n), usize_to_fr(n + 1000), usize_to_fr(7)]
}

fn pair(params: &HashParams, left: FieldElement, right: FieldElement) -> FieldElement {
    params.hash(&vec![left, right])
}

/// The root that a leaf's hash, its path and its index bits lead to.
fn fold(
    params: &HashParams,
    start: FieldElement,
    path: &[FieldElement],
    bits: &[bool],
) -> FieldElement {
    let mut hash = start;
    for (sibling, bit) in path.iter().zip(bits.iter()) {
        hash = if *bit { pair(params, *sibling, hash) } else { pair(params, hash, *sibling) };
    }
    hash
}

#[test]
fn a_tree_of_four_leaves_is_hashed_pair_by_pair() {
    let params = params();
    let tree = PoseidonMerkleTree::new((0..4).map(leaf).collect(), &params);
    let hashes: Vec<FieldElement> = (0..4).map(|n| params.hash(&leaf(n))).collect();
    let left = pair(&params, hashes[0], hashes[1]);
    let right = pair(&params, hashes[2], hashes[3]);

    assert_eq!(tree.num_leaves(), 4);
    assert_eq!(tree.depth(), 2);
    assert_eq!(tree.root(), pair(&params, left, right));
    assert_eq!(tree.hash(&leaf(3)), hashes[3]);

    assert_eq!(tree.levels(), vec![hashes.clone(), vec![left, right], vec![tree.root()]]);

    assert_eq!(tree.get_leaf_indices(0), vec![false, false]);
    assert_eq!(tree.get_leaf_indices(1), vec![true, false]);
    assert_eq!(tree.get_leaf_indices(2), vec![false, true]);
    assert_eq!(tree.get_leaf_indices(3), vec![true, true]);

    assert_eq!(tree.get_leaf_path(0), vec![hashes[1], right]);
    assert_eq!(tree.get_leaf_path(1), vec![hashes[0], right]);
    assert_eq!(tree.get_leaf_path(2), vec![hashes[3], left]);
    assert_eq!(tree.get_leaf_path(3), vec![hashes[2], left]);
}

#[test]
fn a_tree_of_one_leaf_is_its_leaf() {
    let params = params();
    let tree = PoseidonMerkleTree::new(vec![leaf(5)], &params);
    assert_eq!(tree.num_leaves(), 1);
    assert_eq!(tree.depth(), 0);
    assert_eq!(tree.root(), params.hash(&leaf(5)));
    assert_eq!(tree.get_leaf_path(0), vec![]);
    assert_eq!(tree.get_leaf_indices(0), Vec::<bool>::new());
    assert_eq!(tree.levels(), vec![vec![params.hash(&leaf(5))]]);
}

#[test]
fn every_path_leads_to_the_root() {
    let params = params();
    for depth in 0..5 {
        let count = 1usize << depth;
        let tree = PoseidonMerkleTree::new((0..count).map(leaf).collect(), &params);
        assert_eq!(tree.depth(), depth);
        for i in 0..count {
            let path = tree.get_leaf_path(i);
            let bits = tree.get_leaf_indices(i);
            assert_eq!(path.len(), depth);
            assert_eq!(bits.len(), depth);
            for (k, bit) in bits.iter().enumerate() {
                assert_eq!(*bit, (i >> k) & 1 == 1);
            }
            assert_eq!(fold(&params, params.hash(&leaf(i)), &path, &bits), tree.root());
        }
    }
}

#[test]
fn an_update_changes_the_paths_below_shared_ancestors_only() {
    let params = params();
    let mut tree = PoseidonMerkleTree::new((0..8).map(leaf).collect(), &params);
    let before: Vec<Vec<FieldElement>> = (0..8).map(|j| tree.get_leaf_path(j)).collect();
    let old_root = tree.root();

    tree.update_leaf(5, leaf(77));

    let rebuilt = PoseidonMerkleTree::new(
        (0..8).map(|n| if n == 5 { leaf(77) } else { leaf(n) }).collect(),
        &params,
    );
    assert_eq!(tree.root(), rebuilt.root());
    assert_ne!(tree.root(), old_root);
    assert_eq!(tree.num_leaves(), 8);
    assert_eq!(tree.depth(), 3);

    for j in 0..8usize {
        let after = tree.get_leaf_path(j);
        assert_eq!(after, rebuilt.get_leaf_path(j));
        for k in 0..3 {
            // the sibling at level k lies above leaf 5 where it is 5's own
            // ancestor at that level
            let changed = ((j >> k) ^ 1) == (5 >> k);
            assert_eq!(after[k] != before[j][k], changed);
            if (j >> (k + 1)) != (5 >> (k + 1)) {
                assert_eq!(after[k], before[j][k]);
            }
        }
        let bits = tree.get_leaf_indices(j);
        let start = if j == 5 { params.hash(&leaf(77)) } else { params.hash(&leaf(j)) };
        assert_eq!(fold(&params, start, &after, &bits), tree.root());
    }
    // the leaf's own path stays
    assert_eq!(tree.get_leaf_path(5), before[5]);
}

#[test]
fn a_new_ledger_holds_empty_slots() {
    let hash_params = params();
    let sign_params = SignParams::new();
    let tree = AccountsTree::new(2, &hash_params, &sign_params);
    let empty = Account::new(&sign_params);
    assert_eq!(empty.nonce, FieldElement::zero());
    assert_eq!(empty.balance, FieldElement::zero());
    assert_eq!(empty.pubkey, PublicKey::unset(&sign_params));
    assert_eq!(
        empty.compress_to_leaf(),
        vec![empty.pubkey.x, FieldElement::zero(), FieldElement::zero(), FieldElement::zero()]
    );
    assert_eq!(tree.accounts.len(), 4);
    for id in 0..4 {
        assert_eq!(tree.accounts[id], empty);
        assert_eq!(tree.get_balance(id), FieldElement::zero());
        assert_eq!(tree.get_nonce(id), FieldElement::zero());
        assert_eq!(tree.get_pubkey(id), empty.pubkey);
    }
    let leaves = PoseidonMerkleTree::new(vec![empty.compress_to_leaf(); 4], &hash_params);
    assert_eq!(tree.get_root(), leaves.root());
    assert_eq!(AccountsTree::new(0, &hash_params, &sign_params).accounts.len(), 1);
}

#[test]
fn a_slot_s_update_is_rehashed_into_the_root() {
    let hash_params = params();
    let sign_params = SignParams::new();
    let mut tree = AccountsTree::new(2, &hash_params, &sign_params);
    let key = PublicKey::from_private(
        &PrivateKey(Scalar::from_limbs([5, 0, 0, 0]).unwrap()),
        &sign_params,
    );

    tree.update_balance(2, usize_to_fr(40));
    assert_eq!(tree.get_balance(2), usize_to_fr(40));
    assert_eq!(tree.get_nonce(2), usize_to_fr(0));
    tree.update_account(2, key, usize_to_fr(3));
    assert_eq!(tree.get_pubkey(2), key);
    assert_eq!(tree.get_nonce(2), usize_to_fr(3));
    assert_eq!(tree.get_balance(2), usize_to_fr(40));
    tree.update_nonce(2, usize_to_fr(4));
    assert_eq!(tree.get_nonce(2), usize_to_fr(4));
    assert_eq!(tree.get_pubkey(2), key);
    assert_eq!(tree.get_balance(1), usize_to_fr(0));

    let leaves: Vec<Vec<FieldElement>> =
        tree.accounts.iter().map(|account| account.compress_to_leaf()).collect();
    assert_eq!(leaves[2], vec![key.x, key.y, usize_to_fr(4), usize_to_fr(40)]);
    assert_eq!(tree.get_root(), PoseidonMerkleTree::new(leaves, &hash_params).root());
    assert_eq!(tree.accounts_tree.root(), tree.get_root());
}
