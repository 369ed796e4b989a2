//! Membership of a commitment in a dynamic array held in a contract's
//! storage, proved against a state root.
use vstd::prelude::*;
use crate::error::WithdrawalError;
use crate::trie::{rlp_account, rlp_uint, trie_proves, verify_mpt_proof, TrieAccount, TrieValue};
use crate::word::{be_nat, bytes_eq, keccak, keccak256, word_add, word_lt, word_of};

verus! {

/// A proof of one storage slot: its key, its value, and the trie nodes from
/// the storage root down to it.
#[derive(Debug, Clone)]
pub struct StorageProof {
    pub key: [u8; 32],
    pub value: [u8; 32],
    pub proof: Vec<Vec<u8>>,
}

/// An account, the trie nodes proving it under a state root, and proofs of
/// slots of its storage.
#[derive(Debug, Clone)]
pub struct AccountProof {
    pub address: [u8; 20],
    pub balance: [u8; 32],
    pub code_hash: [u8; 32],
    pub nonce: u64,
    pub storage_hash: [u8; 32],
    pub account_proof: Vec<Vec<u8>>,
    pub storage_proof: Vec<StorageProof>,
}

/// The storage slot of element `index` of the array whose length is at
/// `slot`: the hash of the slot plus the index, modulo 2^256.
pub open spec fn element_slot(slot: Seq<u8>, index: Seq<u8>) -> Seq<u8> {
    word_of(be_nat(keccak(slot)) + be_nat(index))
}

/// The encoded account record that a proof bundle claims.
pub open spec fn claimed_account(p: AccountProof) -> Seq<u8> {
    rlp_account(p.nonce, p.balance@, p.storage_hash@, p.code_hash@)
}

/// The outcome of checking that `commitment` is element `array_index` of
/// the array at `array_slot` of `contract`, under `state_root`. Storage holds
/// the array's length and its elements as words, each encoded as an RLP
/// integer without leading zero bytes.
pub open spec fn storage_slot_outcome(
    contract: Seq<u8>,
    array_slot: Seq<u8>,
    commitment: Seq<u8>,
    array_index: Seq<u8>,
    state_root: Seq<u8>,
    p: AccountProof,
) -> Result<(), WithdrawalError> {
    if p.address@ != contract {
        Err(WithdrawalError::AddressMismatch)
    } else if !trie_proves(state_root, contract, claimed_account(p), p.account_proof@) {
        Err(WithdrawalError::InvalidAccountProof)
    } else if p.storage_proof@.len() != 2 {
        Err(WithdrawalError::MalformedProofShape)
    } else if !trie_proves(p.storage_hash@, array_slot, rlp_uint(p.storage_proof@[0].value@), p.storage_proof@[0].proof@) {
        Err(WithdrawalError::InvalidLengthProof)
    } else if be_nat(array_index) >= be_nat(p.storage_proof@[0].value@) {
        Err(WithdrawalError::IndexOutOfRange)
    } else if !trie_proves(p.storage_hash@, element_slot(array_slot, array_index), rlp_uint(commitment), p.storage_proof@[1].proof@) {
        Err(WithdrawalError::InvalidElementProof)
    } else {
        Ok(())
    }
}

/// Returns the storage keys of the array's length and of its element
/// `array_index`.
pub fn compute_storage_keys(array_slot: [u8; 32], array_index: [u8; 32]) -> (r: ([u8; 32], [u8; 32]))
    ensures
        r.0@ == array_slot@,
        r.1@ == element_slot(array_slot@, array_index@),
{
    let base_key = keccak256(array_slot.as_slice());
    let index_key = word_add(&base_key, &array_index);
    (array_slot, index_key)
}

/// Verifies that `commitment` is element `array_index` of the dynamic array
/// stored at `array_slot` of `contract_address`, under `state_root`.
pub fn verify_storage_slot(
    contract_address: &[u8; 20],
    array_slot: &[u8; 32],
    commitment: &[u8; 32],
    array_index: &[u8; 32],
    state_root: &[u8; 32],
    proof: &AccountProof,
) -> (r: Result<(), WithdrawalError>)
    ensures
        r == storage_slot_outcome(contract_address@, array_slot@, commitment@, array_index@, state_root@, *proof),
{
    if !bytes_eq(contract_address.as_slice(), proof.address.as_slice()) {
        return Err(WithdrawalError::AddressMismatch);
    }
    let account = TrieValue::Account(
        TrieAccount {
            nonce: proof.nonce,
            balance: proof.balance,
            storage_root: proof.storage_hash,
            code_hash: proof.code_hash,
        },
    );
    if verify_mpt_proof(state_root, contract_address.as_slice(), &account, &proof.account_proof).is_err() {
        return Err(WithdrawalError::InvalidAccountProof);
    }
    if proof.storage_proof.len() != 2 {
        return Err(WithdrawalError::MalformedProofShape);
    }
    let length_proof = &proof.storage_proof[0];
    let length = TrieValue::Uint(length_proof.value);
    if verify_mpt_proof(&proof.storage_hash, array_slot.as_slice(), &length, &length_proof.proof).is_err() {
        return Err(WithdrawalError::InvalidLengthProof);
    }
    if !word_lt(array_index, &length_proof.value) {
        return Err(WithdrawalError::IndexOutOfRange);
    }
    let element_proof = &proof.storage_proof[1];
    let (_, index_key) = compute_storage_keys(*array_slot, *array_index);
    let element = TrieValue::Uint(*commitment);
    if verify_mpt_proof(&proof.storage_hash, index_key.as_slice(), &element, &element_proof.proof).is_err() {
        return Err(WithdrawalError::InvalidElementProof);
    }
    Ok(())
}

} // verus!

verus! {

/// A proof bundle for another address than the contract is refused with
/// `AddressMismatch`, whatever else it holds.
pub proof fn lemma_address_mismatch(
    contract: Seq<u8>,
    array_slot: Seq<u8>,
    commitment: Seq<u8>,
    array_index: Seq<u8>,
    state_root: Seq<u8>,
    p: AccountProof,
)
    requires
        p.address@ != contract,
    ensures
        storage_slot_outcome(contract, array_slot, commitment, array_index, state_root, p)
            == Err::<(), WithdrawalError>(WithdrawalError::AddressMismatch),
{
}

/// Once the account and the array length are proved, an index at or past
/// the length is refused with `IndexOutOfRange`, and the last index is
/// accepted wherever its element proof holds.
pub proof fn lemma_index_bounds(
    contract: Seq<u8>,
    array_slot: Seq<u8>,
    commitment: Seq<u8>,
    array_index: Seq<u8>,
    state_root: Seq<u8>,
    p: AccountProof,
)
    requires
        p.address@ == contract,
        trie_proves(state_root, contract, claimed_account(p), p.account_proof@),
        p.storage_proof@.len() == 2,
        trie_proves(p.storage_hash@, array_slot, rlp_uint(p.storage_proof@[0].value@), p.storage_proof@[0].proof@),
    ensures
        be_nat(array_index) >= be_nat(p.storage_proof@[0].value@) ==> storage_slot_outcome(
            contract,
            array_slot,
            commitment,
            array_index,
            state_root,
            p,
        ) == Err::<(), WithdrawalError>(WithdrawalError::IndexOutOfRange),
        be_nat(array_index) + 1 == be_nat(p.storage_proof@[0].value@) && trie_proves(
            p.storage_hash@,
            element_slot(array_slot, array_index),
            rlp_uint(commitment),
            p.storage_proof@[1].proof@,
        ) ==> storage_slot_outcome(contract, array_slot, commitment, array_index, state_root, p) is Ok,
{
}

} // verus!
