use budzkvm::keccak::{hash_pair, keccak256_hash, pair_preimage};
use budzkvm::smt::{get_empty_hash, verify_account_proof};
use budzkvm::state::{account_preimage, hash_account, Account, State, StateBackend};
use std::collections::HashMap;
use tiny_keccak::{Hasher, Keccak};

fn keccak(data: &[u8]) -> [u8; 32] {
    let mut hasher = Keccak::v256();
    hasher.update(data);
    let mut out = [0u8; 32];
    hasher.finalize(&mut out);
    out
}

fn account(nonce: u64, balance: u64) -> Account {
    Account {
        nonce,
        balance,
        code_hash: [0u8; 32],
        storage_root: [0u8; 32],
    }
}

#[test]
fn test_state_root_determinism() {
    let mut state1 = State::new("temp1.json");
    let mut state2 = State::new("temp2.json");

    let acc_a = Account {
        nonce: 1,
        balance: 100,
        code_hash: [0u8; 32],
        storage_root: [0u8; 32],
    };
    let acc_b = Account {
        nonce: 2,
        balance: 200,
        code_hash: [0u8; 32],
        storage_root: [0u8; 32],
    };

    // Insert in different order
    state1.set_account(1, acc_a.clone());
    state1.set_account(2, acc_b.clone());

    state2.set_account(2, acc_b.clone());
    state2.set_account(1, acc_a.clone());

    assert_eq!(state1.root(), state2.root());
}

#[test]
fn test_smt_proofs() {
    let mut state = State::new("temp_smt.json");

    let acc_a = Account {
        nonce: 1,
        balance: 100,
        code_hash: [0u8; 32],
        storage_root: [0u8; 32],
    };
    let acc_b = Account {
        nonce: 2,
        balance: 200,
        code_hash: [0u8; 32],
        storage_root: [0u8; 32],
    };

    state.set_account(42, acc_a.clone());
    state.set_account(1337, acc_b.clone());

    let root = state.root();

    // 1. Verify proof for an active account (42)
    let hash_a = hash_account(&acc_a);
    let proof_a = state.get_account_proof(42);
    assert_eq!(proof_a.len(), 64);
    assert!(verify_account_proof(root, 42, hash_a, &proof_a));

    // 2. Verify proof for a non-existent account (non-membership proof)
    let proof_empty = state.get_account_proof(999);
    assert_eq!(proof_empty.len(), 64);
    assert!(verify_account_proof(
        root,
        999,
        get_empty_hash(0),
        &proof_empty
    ));
}

#[test]
fn account_crud_in_memory() {
    let mut state = State::new("unused.json");
    assert!(state.get_account(1).is_none());
    let acc = account(5, 1000);
    state.set_account(1, acc.clone());
    assert_eq!(state.get_account(1), Some(acc));
    assert!(state.get_account(2).is_none());
}

#[test]
fn state_transactions_in_memory() {
    let mut state = State::new("unused.json");
    state.set_account(1, account(1, 500));

    state.begin_transaction();
    state.set_account(1, account(2, 1000));
    state.set_account(2, account(1, 200));
    assert_eq!(state.get_account(1).unwrap().balance, 1000);

    state.rollback();
    assert_eq!(state.get_account(1).unwrap().balance, 500);
    assert!(state.get_account(2).is_none());

    state.begin_transaction();
    state.set_account(1, account(3, 1500));
    state.commit();
    assert_eq!(state.get_account(1).unwrap().balance, 1500);

    // Without an open transaction, rolling back changes nothing.
    state.rollback();
    assert_eq!(state.get_account(1).unwrap().balance, 1500);
}

#[test]
fn rollback_restores_the_root() {
    let mut state = State::new("unused.json");
    state.set_account(7, account(1, 10));
    let before = state.root();
    state.begin_transaction();
    state.set_account(7, account(2, 20));
    state.set_account(8, account(3, 30));
    assert_ne!(state.root(), before);
    state.rollback();
    assert_eq!(state.root(), before);
}

#[test]
fn empty_hashes_chain() {
    assert_eq!(get_empty_hash(0), [0u8; 32]);
    let mut expected = [0u8; 32];
    for depth in 1..=64 {
        let mut both = expected.to_vec();
        both.extend_from_slice(&expected);
        expected = keccak(&both);
        assert_eq!(get_empty_hash(depth), expected);
    }
}

#[test]
fn empty_state_root_is_top_empty_hash() {
    let state = State::new("unused.json");
    assert_eq!(state.root(), get_empty_hash(64));
    let proof = state.get_account_proof(12345);
    assert_eq!(proof.len(), 64);
    for (i, sibling) in proof.iter().enumerate() {
        assert_eq!(*sibling, get_empty_hash(63 - i));
    }
    assert!(verify_account_proof(state.root(), 12345, get_empty_hash(0), &proof));
}

#[test]
fn single_account_root_by_hand() {
    let mut state = State::new("unused.json");
    let acc = account(9, 77);
    state.set_account(0, acc.clone());
    // Key 0 is the leftmost leaf: every sibling is an empty subtree on the right.
    let mut current = hash_account(&acc);
    for depth in 0..64 {
        let mut both = current.to_vec();
        both.extend_from_slice(&get_empty_hash(depth));
        current = keccak(&both);
    }
    assert_eq!(state.root(), current);
}

#[test]
fn proof_rejects_wrong_leaf_and_wrong_length() {
    let mut state = State::new("unused.json");
    let acc = account(1, 100);
    state.set_account(42, acc.clone());
    let root = state.root();
    let proof = state.get_account_proof(42);
    assert!(verify_account_proof(root, 42, hash_account(&acc), &proof));
    assert!(!verify_account_proof(root, 42, hash_account(&account(1, 101)), &proof));
    assert!(!verify_account_proof(root, 43, hash_account(&acc), &proof));
    assert!(!verify_account_proof(root, 42, hash_account(&acc), &proof[..63]));
    // The account's absence cannot be shown while it is present.
    assert!(!verify_account_proof(root, 42, get_empty_hash(0), &proof));
}

#[test]
fn proofs_for_many_accounts() {
    let mut state = State::new("unused.json");
    let ids: [u64; 6] = [0, 1, 2, 1u64 << 63, u64::MAX, 123456789];
    for (i, id) in ids.iter().enumerate() {
        state.set_account(*id, account(i as u64, 1000 + i as u64));
    }
    let root = state.root();
    for (i, id) in ids.iter().enumerate() {
        let proof = state.get_account_proof(*id);
        let leaf = hash_account(&account(i as u64, 1000 + i as u64));
        assert!(verify_account_proof(root, *id, leaf, &proof));
    }
    let absent = state.get_account_proof(3);
    assert!(verify_account_proof(root, 3, get_empty_hash(0), &absent));
}

#[test]
fn account_hash_is_keccak_of_preimage() {
    let acc = Account {
        nonce: 0x0102030405060708,
        balance: 0x1112131415161718,
        code_hash: [0xaa; 32],
        storage_root: [0xbb; 32],
    };
    let mut bytes = Vec::new();
    bytes.extend_from_slice(&acc.balance.to_le_bytes());
    bytes.extend_from_slice(&acc.nonce.to_le_bytes());
    bytes.extend_from_slice(&acc.code_hash);
    bytes.extend_from_slice(&acc.storage_root);
    assert_eq!(account_preimage(&acc), bytes);
    assert_eq!(hash_account(&acc), keccak(&bytes));
    assert_ne!(hash_account(&acc).to_vec(), bytes[..32].to_vec());
}

#[test]
fn keccak_known_digest() {
    let empty: [u8; 32] = [
        0xc5, 0xd2, 0x46, 0x01, 0x86, 0xf7, 0x23, 0x3c, 0x92, 0x7e, 0x7d, 0xb2, 0xdc, 0xc7, 0x03,
        0xc0, 0xe5, 0x00, 0xb6, 0x53, 0xca, 0x82, 0x27, 0x3b, 0x7b, 0xfa, 0xd8, 0x04, 0x5d, 0x85,
        0xa4, 0x70,
    ];
    assert_eq!(keccak256_hash(&[]), empty);
    let left = [1u8; 32];
    let right = [2u8; 32];
    let mut both = left.to_vec();
    both.extend_from_slice(&right);
    assert_eq!(pair_preimage(&left, &right), both);
    assert_eq!(hash_pair(&left, &right), keccak(&both));
    assert_ne!(hash_pair(&left, &right), hash_pair(&right, &left));
}

#[test]
fn state_from_accounts_and_accessors() {
    let mut accounts = HashMap::new();
    accounts.insert(5u64, account(1, 2));
    let state = State::from_accounts("s.json", accounts);
    assert_eq!(state.path(), "s.json");
    assert_eq!(state.accounts().len(), 1);
    assert_eq!(state.get_account(5), Some(account(1, 2)));
}

#[test]
fn proof_unchanged_by_own_write() {
    let mut state = State::new("unused.json");
    state.set_account(5, account(1, 10));
    state.set_account(9, account(2, 20));
    let before = state.get_account_proof(5);
    state.set_account(5, account(7, 70));
    let after = state.get_account_proof(5);
    assert_eq!(before, after);
    let fresh = state.get_account_proof(12);
    state.set_account(12, account(3, 30));
    assert_eq!(fresh, state.get_account_proof(12));
    state.set_account(4, account(4, 40));
    assert_ne!(fresh, state.get_account_proof(12));
}

#[test]
fn empty_state_proof_is_empty_hashes() {
    let state = State::new("unused.json");
    let proof = state.get_account_proof(77);
    assert_eq!(proof.len(), 64);
    for (i, sibling) in proof.iter().enumerate() {
        assert_eq!(*sibling, get_empty_hash(63 - i));
    }
}

#[test]
fn rollback_undoes_many_writes() {
    let mut state = State::new("unused.json");
    for id in 0..5u64 {
        state.set_account(id, account(id, 100 * id));
    }
    let root_before = state.root();
    state.begin_transaction();
    for round in 0..3u64 {
        for id in 0..10u64 {
            state.set_account(id * 3, account(round, id + round));
        }
    }
    state.set_account(u64::MAX, account(9, 9));
    assert_ne!(state.root(), root_before);
    state.rollback();
    for id in 0..5u64 {
        assert_eq!(state.get_account(id), Some(account(id, 100 * id)));
    }
    for id in 5..31u64 {
        assert!(state.get_account(id).is_none());
    }
    assert!(state.get_account(u64::MAX).is_none());
    assert_eq!(state.root(), root_before);
    state.set_account(1, account(5, 5));
    state.rollback();
    assert_eq!(state.get_account(1), Some(account(5, 5)));
}
