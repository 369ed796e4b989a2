use alloy_primitives::{keccak256, B256, U256};
use alloy_trie::proof::ProofRetainer;
use alloy_trie::{HashBuilder, Nibbles};
use pool_lib::{
    compute_commitment, compute_inclusion_root, encode_value, hash_block_header, process_withdrawal,
    verify_mpt_proof, verify_storage_slot, AccountProof, InclusionBranches, StorageProof, TrieAccount,
    TrieValue, WithdrawalError, WithdrawalInput,
};

const CONTRACT: [u8; 20] = [0x11; 20];
const CODE_HASH: [u8; 32] = [0x22; 32];
const SECRET: [u8; 32] = [0x42; 32];

fn word(n: u64) -> [u8; 32] {
    U256::from(n).to_be_bytes::<32>()
}

fn element_key(index: u64) -> [u8; 32] {
    (U256::from_be_bytes(keccak256(word(0)).0) + U256::from(index)).to_be_bytes::<32>()
}

/// Builds a hashed-key trie from raw keys and encoded values; returns its
/// root and, for each entry, the nodes proving it.
fn build_trie(entries: &[(Vec<u8>, Vec<u8>)]) -> ([u8; 32], Vec<Vec<Vec<u8>>>) {
    let mut leaves: Vec<(B256, Vec<u8>)> = entries.iter().map(|(k, v)| (keccak256(k), v.clone())).collect();
    let targets: Vec<Nibbles> = leaves.iter().map(|(k, _)| Nibbles::unpack(k)).collect();
    leaves.sort_by(|a, b| a.0.cmp(&b.0));
    let mut hb = HashBuilder::default().with_proof_retainer(ProofRetainer::new(targets.clone()));
    for (k, v) in &leaves {
        hb.add_leaf(Nibbles::unpack(k), v);
    }
    let root = hb.root();
    let nodes = hb.take_proof_nodes();
    let proofs = targets
        .iter()
        .map(|t| nodes.matching_nodes_sorted(t).into_iter().map(|(_, n)| n.to_vec()).collect())
        .collect();
    (root.0, proofs)
}

struct Scenario {
    state_root: [u8; 32],
    bundle: AccountProof,
    header: Vec<u8>,
    element_proofs: Vec<Vec<Vec<u8>>>,
}

fn scenario() -> Scenario {
    scenario_for(&SECRET)
}

/// A pool whose array at slot 0 has length 5, with the secret's commitment
/// at indices 2 and 4; storage words are RLP integers.
fn scenario_for(secret: &[u8; 32]) -> Scenario {
    let (commitment, _) = compute_commitment(secret);
    let storage = vec![
        (word(0).to_vec(), alloy_rlp::encode(U256::from(5u8))),
        (element_key(2).to_vec(), alloy_rlp::encode(U256::from_be_bytes(commitment))),
        (element_key(4).to_vec(), alloy_rlp::encode(U256::from_be_bytes(commitment))),
        (element_key(3).to_vec(), alloy_rlp::encode(U256::from_be_bytes([0x33u8; 32]))),
    ];
    let (storage_root, storage_proofs) = build_trie(&storage);
    let account = alloy_trie::TrieAccount {
        nonce: 1,
        balance: U256::from(1000u32),
        storage_root: storage_root.into(),
        code_hash: CODE_HASH.into(),
    };
    let other = alloy_trie::TrieAccount { nonce: 3, ..account };
    let accounts = vec![
        (CONTRACT.to_vec(), alloy_rlp::encode(account)),
        ([0x99u8; 20].to_vec(), alloy_rlp::encode(other)),
    ];
    let (state_root, account_proofs) = build_trie(&accounts);
    let header = alloy_consensus::Header { state_root: state_root.into(), number: 7, ..Default::default() };
    let bundle = AccountProof {
        address: CONTRACT,
        balance: word(1000),
        code_hash: CODE_HASH,
        nonce: 1,
        storage_hash: storage_root,
        account_proof: account_proofs[0].clone(),
        storage_proof: vec![
            StorageProof { key: word(0), value: word(5), proof: storage_proofs[0].clone() },
            StorageProof { key: element_key(2), value: commitment, proof: storage_proofs[1].clone() },
        ],
    };
    Scenario { state_root, bundle, header: alloy_rlp::encode(&header), element_proofs: storage_proofs }
}

fn input(s: &Scenario, index: u64) -> WithdrawalInput {
    WithdrawalInput {
        secret: SECRET,
        array_index: word(index),
        account_proof: s.bundle.clone(),
        block_header: s.header.clone(),
        inclusion_set_branches: None,
        contract_address: CONTRACT,
        array_slot: word(0),
        relayer_fee: word(17),
        recipient: [0xaa; 20],
        relayer: [0xbb; 20],
    }
}

#[test]
fn end_to_end_withdrawal() {
    let s = scenario();
    let out = process_withdrawal(&input(&s, 2)).unwrap();
    let mut next = SECRET;
    next[31] += 1;
    assert_eq!(out.nullifier, keccak256(next).0);
    assert_eq!(out.exclusion_set_root, [0u8; 32]);
    assert_eq!(out.block_number, 7);
    let header: alloy_consensus::Header = alloy_rlp::decode_exact(&s.header).unwrap();
    assert_eq!(out.block_hash, header.hash_slow().0);
    assert_eq!(out.relayer_fee, word(17));
    assert_eq!(out.recipient, [0xaa; 20]);
    assert_eq!(out.relayer, [0xbb; 20]);
    assert_eq!(out.contract_address, CONTRACT);
}

#[test]
fn missing_inclusion_branches_give_zero_root() {
    let s = scenario();
    let mut i = input(&s, 2);
    i.relayer_fee = [0xff; 32];
    i.recipient = [0x01; 20];
    let out = process_withdrawal(&i).unwrap();
    assert_eq!(out.exclusion_set_root, [0u8; 32]);
}

#[test]
fn inclusion_branches_give_their_root() {
    let s = scenario();
    let mut i = input(&s, 2);
    let branches = InclusionBranches { index: 1, proof: vec![[5u8; 32], [6u8; 32]] };
    i.inclusion_set_branches = Some(branches.clone());
    let out = process_withdrawal(&i).unwrap();
    let (commitment, _) = compute_commitment(&SECRET);
    assert_eq!(out.exclusion_set_root, compute_inclusion_root(commitment, branches));
    assert_ne!(out.exclusion_set_root, [0u8; 32]);
}

#[test]
fn address_mismatch_is_refused() {
    let s = scenario();
    let (commitment, _) = compute_commitment(&SECRET);
    let r = verify_storage_slot(&[0x12; 20], &word(0), &commitment, &word(2), &s.state_root, &s.bundle);
    assert_eq!(r, Err(WithdrawalError::AddressMismatch));
    let mut i = input(&s, 2);
    i.contract_address = [0x12; 20];
    assert_eq!(process_withdrawal(&i), Err(WithdrawalError::AddressMismatch));
}

#[test]
fn index_past_length_is_refused() {
    let s = scenario();
    let (commitment, _) = compute_commitment(&SECRET);
    for index in [5u64, 6, u64::MAX] {
        let r = verify_storage_slot(&CONTRACT, &word(0), &commitment, &word(index), &s.state_root, &s.bundle);
        assert_eq!(r, Err(WithdrawalError::IndexOutOfRange));
    }
    let r = verify_storage_slot(&CONTRACT, &word(0), &commitment, &[0xff; 32], &s.state_root, &s.bundle);
    assert_eq!(r, Err(WithdrawalError::IndexOutOfRange));
}

#[test]
fn last_index_is_accepted() {
    let s = scenario();
    let (commitment, _) = compute_commitment(&SECRET);
    let mut bundle = s.bundle.clone();
    bundle.storage_proof[1].proof = s.element_proofs[2].clone();
    let r = verify_storage_slot(&CONTRACT, &word(0), &commitment, &word(4), &s.state_root, &bundle);
    assert_eq!(r, Ok(()));
}

#[test]
fn wrong_element_is_refused() {
    let s = scenario();
    let (commitment, _) = compute_commitment(&SECRET);
    let mut bundle = s.bundle.clone();
    bundle.storage_proof[1].proof = s.element_proofs[3].clone();
    let r = verify_storage_slot(&CONTRACT, &word(0), &commitment, &word(3), &s.state_root, &bundle);
    assert_eq!(r, Err(WithdrawalError::InvalidElementProof));
    let r = verify_storage_slot(&CONTRACT, &word(0), &commitment, &word(3), &s.state_root, &s.bundle);
    assert_eq!(r, Err(WithdrawalError::InvalidElementProof));
}

#[test]
fn tampered_account_proof_is_refused() {
    let s = scenario();
    let (commitment, _) = compute_commitment(&SECRET);
    for node in 0..s.bundle.account_proof.len() {
        for at in [0usize, 1, 7] {
            let mut bundle = s.bundle.clone();
            if at < bundle.account_proof[node].len() {
                bundle.account_proof[node][at] ^= 0x01;
                let r = verify_storage_slot(&CONTRACT, &word(0), &commitment, &word(2), &s.state_root, &bundle);
                assert_eq!(r, Err(WithdrawalError::InvalidAccountProof));
            }
        }
    }
    let mut bundle = s.bundle.clone();
    bundle.nonce = 2;
    let r = verify_storage_slot(&CONTRACT, &word(0), &commitment, &word(2), &s.state_root, &bundle);
    assert_eq!(r, Err(WithdrawalError::InvalidAccountProof));
}

#[test]
fn storage_proof_count_must_be_two() {
    let s = scenario();
    let (commitment, _) = compute_commitment(&SECRET);
    let mut bundle = s.bundle.clone();
    bundle.storage_proof.pop();
    let r = verify_storage_slot(&CONTRACT, &word(0), &commitment, &word(2), &s.state_root, &bundle);
    assert_eq!(r, Err(WithdrawalError::MalformedProofShape));
}

#[test]
fn wrong_length_is_refused() {
    let s = scenario();
    let (commitment, _) = compute_commitment(&SECRET);
    let mut bundle = s.bundle.clone();
    bundle.storage_proof[0].value = word(6);
    let r = verify_storage_slot(&CONTRACT, &word(0), &commitment, &word(2), &s.state_root, &bundle);
    assert_eq!(r, Err(WithdrawalError::InvalidLengthProof));
}

#[test]
fn wrong_secret_is_refused() {
    let s = scenario();
    let mut i = input(&s, 2);
    i.secret = [0x43; 32];
    assert_eq!(process_withdrawal(&i), Err(WithdrawalError::InvalidElementProof));
}

#[test]
fn header_for_another_state_is_refused() {
    let s = scenario();
    let mut i = input(&s, 2);
    let header = alloy_consensus::Header { state_root: [0x01u8; 32].into(), number: 7, ..Default::default() };
    i.block_header = alloy_rlp::encode(&header);
    assert_eq!(process_withdrawal(&i), Err(WithdrawalError::InvalidAccountProof));
}

#[test]
fn malformed_header_is_refused() {
    let s = scenario();
    let mut i = input(&s, 2);
    i.block_header = vec![0xc0, 0x01];
    assert_eq!(process_withdrawal(&i), Err(WithdrawalError::MalformedInput));
    assert_eq!(hash_block_header(&[]), Err(WithdrawalError::MalformedInput));
    let mut trailing = s.header.clone();
    trailing.push(0);
    assert_eq!(hash_block_header(&trailing), Err(WithdrawalError::MalformedInput));
}

#[test]
fn block_hash_is_the_header_hash() {
    let s = scenario();
    let b = hash_block_header(&s.header).unwrap();
    assert_eq!(b.number, 7);
    assert_eq!(b.hash, keccak256(&s.header).0);
}

#[test]
fn mpt_proof_checks_value_and_nodes() {
    let s = scenario();
    let (commitment, _) = compute_commitment(&SECRET);
    let proof = &s.element_proofs[1];
    let key = element_key(2);
    let root = s.bundle.storage_hash;
    assert_eq!(verify_mpt_proof(&root, &key, &TrieValue::Uint(commitment), proof), Ok(()));
    assert_eq!(verify_mpt_proof(&root, &key, &TrieValue::Uint([0u8; 32]), proof), Err(WithdrawalError::InvalidProof));
    assert_eq!(verify_mpt_proof(&[0u8; 32], &key, &TrieValue::Uint(commitment), proof), Err(WithdrawalError::InvalidProof));
    assert_eq!(verify_mpt_proof(&root, &key, &TrieValue::Uint(commitment), &vec![]), Err(WithdrawalError::InvalidProof));
    for node in 0..proof.len() {
        for at in 0..proof[node].len() {
            let mut tampered = proof.clone();
            tampered[node][at] ^= 0x80;
            assert_eq!(
                verify_mpt_proof(&root, &key, &TrieValue::Uint(commitment), &tampered),
                Err(WithdrawalError::InvalidProof)
            );
        }
    }
}

#[test]
fn values_are_rlp_encoded() {
    assert_eq!(encode_value(&TrieValue::Uint(word(0))), vec![0x80]);
    assert_eq!(encode_value(&TrieValue::Uint(word(5))), vec![0x05]);
    assert_eq!(encode_value(&TrieValue::Uint(word(0x80))), vec![0x81, 0x80]);
    assert_eq!(encode_value(&TrieValue::Uint(word(0x1234))), vec![0x82, 0x12, 0x34]);
    let mut w = vec![0xa0];
    w.extend_from_slice(&[0x07u8; 32]);
    assert_eq!(encode_value(&TrieValue::Word([0x07; 32])), w);
    let account = TrieAccount { nonce: 1, balance: word(1000), storage_root: [3u8; 32], code_hash: CODE_HASH };
    let expected = alloy_rlp::encode(alloy_trie::TrieAccount {
        nonce: 1,
        balance: U256::from(1000u32),
        storage_root: [3u8; 32].into(),
        code_hash: CODE_HASH.into(),
    });
    assert_eq!(encode_value(&TrieValue::Account(account)), expected);
    assert_ne!(expected[0], 0x01);
}

#[test]
fn commitment_with_leading_zero_is_accepted() {
    let mut secret = [0u8; 32];
    for i in 0u32..10_000 {
        secret[28..].copy_from_slice(&i.to_be_bytes());
        if compute_commitment(&secret).0[0] == 0 {
            break;
        }
    }
    assert_eq!(compute_commitment(&secret).0[0], 0);
    let s = scenario_for(&secret);
    let mut i = input(&s, 2);
    i.secret = secret;
    let out = process_withdrawal(&i).unwrap();
    assert_eq!(out.nullifier, compute_commitment(&secret).1);
}

#[test]
fn oversized_leaf_key_is_refused_without_panic() {
    // a leaf whose compact key holds 34 bytes, with the value 0x05
    let mut node = vec![0xe4u8, 0xa2, 0x20];
    node.extend_from_slice(&[0x11u8; 33]);
    node.push(0x05);
    let root = keccak256(&node).0;
    let key = [0x44u8; 32];
    assert_eq!(verify_mpt_proof(&root, &key, &TrieValue::Uint(word(5)), &vec![node]), Err(WithdrawalError::InvalidProof));
}

#[test]
fn overlong_walked_path_is_refused_without_panic() {
    // a leaf of 64 nibbles given twice would walk 128 nibbles
    let mut leaf: Vec<u8> = Vec::new();
    let mut key = vec![0xa1u8, 0x20];
    key.extend_from_slice(&[0x22u8; 32]);
    let payload_len = key.len() + 1;
    leaf.push(0xc0 + payload_len as u8);
    leaf.extend_from_slice(&key);
    leaf.push(0x05);
    let root = keccak256(&leaf).0;
    let nodes = vec![leaf.clone(), leaf];
    assert_eq!(verify_mpt_proof(&root, &[0x22u8; 32], &TrieValue::Uint(word(5)), &nodes), Err(WithdrawalError::InvalidProof));
}
