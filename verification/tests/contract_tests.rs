use airdrop_merkle::contract::{AirdropContract, AirdropError, AirdropInfo};
use airdrop_merkle::merkle::MerkleTree;

fn records() -> Vec<AirdropInfo> {
    vec![
        AirdropInfo { address: b"alice".to_vec(), amount: b"100".to_vec() },
        AirdropInfo { address: b"bob".to_vec(), amount: b"200".to_vec() },
        AirdropInfo { address: b"carol".to_vec(), amount: b"300".to_vec() },
        AirdropInfo { address: b"dave".to_vec(), amount: b"400".to_vec() },
    ]
}

fn build_tree(items: &[AirdropInfo]) -> MerkleTree {
    let leaves: Vec<Vec<u8>> = items.iter().map(|item| item.encode()).collect();
    MerkleTree::create(leaves).expect("non-empty")
}

#[test]
fn can_claim_ok() {
    let items = records();
    let merkle_tree = build_tree(&items);
    let airdrop_contract = AirdropContract::new(b"owner".to_vec(), merkle_tree.root_hash());
    for i in 0..items.len() {
        assert!(airdrop_contract.can_claim(
            &items[i].address,
            &items[i].amount,
            &merkle_tree.get_proof(i)
        ));
    }
}

#[test]
fn can_claim_wrong_amount() {
    let items = records();
    let merkle_tree = build_tree(&items);
    let contract = AirdropContract::new(b"owner".to_vec(), merkle_tree.root_hash());
    for i in 0..items.len() {
        assert!(!contract.can_claim(
            &items[i].address,
            &b"999".to_vec(),
            &merkle_tree.get_proof(i)
        ));
    }
}

#[test]
fn can_claim_wrong_proof() {
    let items = records();
    let merkle_tree = build_tree(&items);
    let contract = AirdropContract::new(b"owner".to_vec(), merkle_tree.root_hash());
    assert!(!contract.can_claim(&items[0].address, &items[0].amount, &merkle_tree.get_proof(1)));
}

#[test]
fn claim_lifecycle_for_bob() {
    let items = records();
    let merkle_tree = build_tree(&items);
    let mut contract = AirdropContract::new(b"owner".to_vec(), merkle_tree.root_hash());
    let bob = b"bob".to_vec();
    let proof = merkle_tree.get_proof(1);

    assert!(contract.can_claim(&bob, &b"200".to_vec(), &proof));
    assert_eq!(contract.claim(&bob, &b"200".to_vec(), &proof), Ok(200));

    // Claimed is terminal: the same proof no longer qualifies, and a second
    // claim is refused without a second transfer.
    assert!(!contract.can_claim(&bob, &b"200".to_vec(), &proof));
    assert_eq!(
        contract.claim(&bob, &b"200".to_vec(), &proof),
        Err(AirdropError::Unauthorized)
    );

    // Amount tampering never qualifies.
    assert!(!contract.can_claim(&bob, &b"201".to_vec(), &proof));

    // Other accounts are unaffected.
    assert!(contract.can_claim(&b"carol".to_vec(), &b"300".to_vec(), &merkle_tree.get_proof(2)));
}

#[test]
fn claim_with_bad_proof_is_unauthorized() {
    let items = records();
    let merkle_tree = build_tree(&items);
    let mut contract = AirdropContract::new(b"owner".to_vec(), merkle_tree.root_hash());
    let outcome = contract.claim(&b"alice".to_vec(), &b"100".to_vec(), &merkle_tree.get_proof(1));
    assert_eq!(outcome, Err(AirdropError::Unauthorized));
    // The failed claim changed nothing: the entitled claim still succeeds.
    assert_eq!(
        contract.claim(&b"alice".to_vec(), &b"100".to_vec(), &merkle_tree.get_proof(0)),
        Ok(100)
    );
}

#[test]
fn claim_of_committed_malformed_amount_is_invalid() {
    // The tree commits an amount that is not a numeral: the proof verifies,
    // but the claim is rejected as malformed and nothing is marked claimed.
    let items = vec![AirdropInfo { address: b"erin".to_vec(), amount: b"12x".to_vec() }];
    let merkle_tree = build_tree(&items);
    let mut contract = AirdropContract::new(b"owner".to_vec(), merkle_tree.root_hash());
    let proof = merkle_tree.get_proof(0);
    assert!(contract.can_claim(&b"erin".to_vec(), &b"12x".to_vec(), &proof));
    assert_eq!(
        contract.claim(&b"erin".to_vec(), &b"12x".to_vec(), &proof),
        Err(AirdropError::InvalidAmount)
    );
    // No state change: the account is still unclaimed.
    assert!(contract.can_claim(&b"erin".to_vec(), &b"12x".to_vec(), &proof));
}

#[test]
fn claim_of_oversized_committed_amount_is_invalid() {
    let over = b"340282366920938463463374607431768211456".to_vec();
    let items = vec![AirdropInfo { address: b"frank".to_vec(), amount: over.clone() }];
    let merkle_tree = build_tree(&items);
    let mut contract = AirdropContract::new(b"owner".to_vec(), merkle_tree.root_hash());
    let proof = merkle_tree.get_proof(0);
    assert_eq!(
        contract.claim(&b"frank".to_vec(), &over, &proof),
        Err(AirdropError::InvalidAmount)
    );
}

#[test]
fn change_root_hash_is_owner_gated() {
    let items = records();
    let merkle_tree = build_tree(&items);
    let root = merkle_tree.root_hash();
    let mut contract = AirdropContract::new(b"owner".to_vec(), root.clone());

    // A non-owner is refused and the root stays.
    let outcome = contract.change_root_hash(&b"mallory".to_vec(), vec![9u8; 32]);
    assert_eq!(outcome, Err(AirdropError::Forbidden));
    assert_eq!(contract.get_root_hash(), root);

    // The owner replaces it.
    let new_root = vec![7u8; 32];
    assert_eq!(contract.change_root_hash(&b"owner".to_vec(), new_root.clone()), Ok(()));
    assert_eq!(contract.get_root_hash(), new_root);
}

#[test]
fn root_rotation_leaves_the_claimed_set_alone() {
    let items = records();
    let merkle_tree = build_tree(&items);
    let mut contract = AirdropContract::new(b"owner".to_vec(), merkle_tree.root_hash());
    let proof = merkle_tree.get_proof(1);
    assert_eq!(contract.claim(&b"bob".to_vec(), &b"200".to_vec(), &proof), Ok(200));

    // Rotate to a different root, then back to the original one: bob is
    // still marked claimed, so his otherwise-valid proof is refused.
    let old_root = contract.get_root_hash();
    assert_eq!(contract.change_root_hash(&b"owner".to_vec(), vec![1u8; 32]), Ok(()));
    assert_eq!(contract.change_root_hash(&b"owner".to_vec(), old_root), Ok(()));
    assert!(!contract.can_claim(&b"bob".to_vec(), &b"200".to_vec(), &proof));
    assert_eq!(
        contract.claim(&b"bob".to_vec(), &b"200".to_vec(), &proof),
        Err(AirdropError::Unauthorized)
    );
    // Accounts that had not claimed remain entitled.
    assert!(contract.can_claim(&b"alice".to_vec(), &b"100".to_vec(), &merkle_tree.get_proof(0)));
}

#[test]
fn get_root_hash_reads_back_the_stored_root() {
    let contract = AirdropContract::new(b"owner".to_vec(), vec![3u8; 32]);
    assert_eq!(contract.get_root_hash(), vec![3u8; 32]);
}

#[test]
fn init_refuses_existing_state() {
    let outcome = AirdropContract::init(true, b"owner".to_vec(), vec![1u8; 32]);
    assert!(matches!(outcome, Err(AirdropError::AlreadyInitialized)));
    let fresh = AirdropContract::init(false, b"owner".to_vec(), vec![1u8; 32]).unwrap();
    assert_eq!(fresh.get_root_hash(), vec![1u8; 32]);
}

#[test]
fn restore_keeps_the_claimed_set() {
    let items = records();
    let merkle_tree = build_tree(&items);
    let contract = AirdropContract::restore(
        b"owner".to_vec(),
        vec![b"bob".to_vec()],
        merkle_tree.root_hash(),
    );
    assert!(!contract.can_claim(&b"bob".to_vec(), &b"200".to_vec(), &merkle_tree.get_proof(1)));
    assert!(contract.can_claim(&b"alice".to_vec(), &b"100".to_vec(), &merkle_tree.get_proof(0)));
}
