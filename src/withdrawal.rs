//! The withdrawal check: one all-or-nothing decision from the private
//! input to the public record.
use vstd::prelude::*;
use crate::abi::WithdrawalData;
use crate::commitment::{
    commitment_of, compute_commitment, compute_inclusion_root, inclusion_root, nullifier_of,
    siblings_view, InclusionBranches,
};
use crate::error::WithdrawalError;
use crate::storage::{storage_slot_outcome, verify_storage_slot, AccountProof};
use crate::word::{keccak, keccak256};

verus! {

/// The state root and number of a block header given by its RLP encoding,
/// or `None` where the bytes are not exactly one header.
pub uninterp spec fn header_fields(encoded: Seq<u8>) -> Option<(Seq<u8>, u64)>;

/// Relies on alloy_rlp::decode_exact of an alloy_consensus `Header`: it
/// succeeds on the bytes alone, and then gives the header's state root and
/// number.
#[verifier::external_body]
fn decode_header(encoded: &[u8]) -> (r: Option<([u8; 32], u64)>)
    ensures
        r is None <==> header_fields(encoded@) is None,
        r matches Some(f) ==> header_fields(encoded@) == Some((f.0@, f.1)),
{
    alloy_rlp::decode_exact::<alloy_consensus::Header>(encoded).ok().map(|h| (h.state_root.0, h.number))
}

/// A block's number and hash.
#[derive(Debug, Clone, Copy, PartialEq, Eq)]
pub struct BlockNumHash {
    pub number: u64,
    pub hash: [u8; 32],
}

/// The private input of a withdrawal. The block header is given by its RLP
/// encoding, from which its hash is recomputed.
#[derive(Debug, Clone)]
pub struct WithdrawalInput {
    pub secret: [u8; 32],
    pub array_index: [u8; 32],
    pub account_proof: AccountProof,
    pub block_header: Vec<u8>,
    pub inclusion_set_branches: Option<InclusionBranches>,
    pub contract_address: [u8; 20],
    pub array_slot: [u8; 32],
    pub relayer_fee: [u8; 32],
    pub recipient: [u8; 20],
    pub relayer: [u8; 20],
}

/// Returns the number and the hash of a block header given by its RLP
/// encoding; the hash is that of the encoding.
pub fn hash_block_header(header: &[u8]) -> (r: Result<BlockNumHash, WithdrawalError>)
    ensures
        header_fields(header@) is None ==> r == Err::<BlockNumHash, WithdrawalError>(WithdrawalError::MalformedInput),
        header_fields(header@) matches Some(f) ==> r matches Ok(b) && b.number == f.1 && b.hash@ == keccak(header@),
{
    match decode_header(header) {
        None => Err(WithdrawalError::MalformedInput),
        Some((_, number)) => Ok(BlockNumHash { number, hash: keccak256(header) }),
    }
}

/// The inclusion-set root of a withdrawal: the root of the path from the
/// commitment where a path is given, all zero bytes where none is.
pub open spec fn inclusion_outcome(commitment: Seq<u8>, branches: Option<InclusionBranches>) -> Seq<u8> {
    match branches {
        None => Seq::new(32, |i: int| 0u8),
        Some(b) => inclusion_root(commitment, b.index, siblings_view(b.proof@)),
    }
}

/// Whether `d` is the public record of a successful withdrawal of `input`
/// in the block of number `number`.
pub open spec fn is_withdrawal_record(d: WithdrawalData, input: WithdrawalInput, number: u64) -> bool {
    &&& d.nullifier@ == nullifier_of(input.secret@)
    &&& d.block_number == number
    &&& d.block_hash@ == keccak(input.block_header@)
    &&& d.exclusion_set_root@ == inclusion_outcome(commitment_of(input.secret@), input.inclusion_set_branches)
    &&& d.relayer_fee == input.relayer_fee
    &&& d.recipient == input.recipient
    &&& d.relayer == input.relayer
    &&& d.contract_address == input.contract_address
}

/// The storage check of a withdrawal against the state root `state_root`.
pub open spec fn membership_outcome(input: WithdrawalInput, state_root: Seq<u8>) -> Result<(), WithdrawalError> {
    storage_slot_outcome(
        input.contract_address@,
        input.array_slot@,
        commitment_of(input.secret@),
        input.array_index@,
        state_root,
        input.account_proof,
    )
}

fn copy_branches(b: &InclusionBranches) -> (r: InclusionBranches)
    ensures
        r.index == b.index,
        r.proof@ == b.proof@,
{
    let mut proof: Vec<[u8; 32]> = Vec::new();
    let mut i: usize = 0;
    while i < b.proof.len()
        invariant
            0 <= i <= b.proof@.len(),
            proof@ == b.proof@.take(i as int),
        decreases b.proof@.len() - i,
    {
        proof.push(b.proof[i]);
        i += 1;
        assert(proof@ =~= b.proof@.take(i as int));
    }
    assert(b.proof@.take(i as int) =~= b.proof@);
    InclusionBranches { index: b.index, proof }
}

/// Verifies a withdrawal and returns its public record: the secret's
/// commitment must be the array element that the storage proofs show under
/// the header's state root.
pub fn process_withdrawal(input: &WithdrawalInput) -> (r: Result<WithdrawalData, WithdrawalError>)
    ensures
        header_fields(input.block_header@) is None ==> r == Err::<WithdrawalData, WithdrawalError>(WithdrawalError::MalformedInput),
        header_fields(input.block_header@) matches Some(f) ==> {
            let check = membership_outcome(*input, f.0);
            &&& check matches Err(e) ==> r == Err::<WithdrawalData, WithdrawalError>(e)
            &&& check is Ok ==> (r matches Ok(d) && is_withdrawal_record(d, *input, f.1))
        },
{
    let (commitment, nullifier) = compute_commitment(&input.secret);
    let state_root = match decode_header(input.block_header.as_slice()) {
        None => return Err(WithdrawalError::MalformedInput),
        Some((root, _)) => root,
    };
    let block = match hash_block_header(input.block_header.as_slice()) {
        Err(e) => return Err(e),
        Ok(b) => b,
    };
    match verify_storage_slot(
        &input.contract_address,
        &input.array_slot,
        &commitment,
        &input.array_index,
        &state_root,
        &input.account_proof,
    ) {
        Err(e) => return Err(e),
        Ok(()) => {},
    }
    let inclusion_root = match &input.inclusion_set_branches {
        None => [0u8; 32],
        Some(b) => compute_inclusion_root(commitment, copy_branches(b)),
    };
    proof {
        if input.inclusion_set_branches is None {
            assert(inclusion_root@ =~= Seq::new(32, |i: int| 0u8));
        }
    }
    Ok(WithdrawalData {
        nullifier,
        block_number: block.number,
        block_hash: block.hash,
        exclusion_set_root: inclusion_root,
        relayer_fee: input.relayer_fee,
        recipient: input.recipient,
        relayer: input.relayer,
        contract_address: input.contract_address,
    })
}

} // verus!

verus! {

/// Without inclusion branches the record's inclusion-set root is zero,
/// whatever else the input holds.
pub proof fn lemma_no_branches_zero_root(d: WithdrawalData, input: WithdrawalInput, number: u64)
    requires
        is_withdrawal_record(d, input, number),
        input.inclusion_set_branches is None,
    ensures
        d.exclusion_set_root@ == Seq::new(32, |i: int| 0u8),
{
}

} // verus!
