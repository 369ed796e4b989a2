//! Proofs of a key's value under a hashed-key Merkle-Patricia trie root.
use vstd::prelude::*;
use crate::error::WithdrawalError;
use crate::node::{nodes_view, proof_is_walkable, walkable};
use crate::word::{be_bytes, keccak, keccak256};

verus! {

/// An account's record in the world-state trie.
#[derive(Debug, Clone)]
pub struct TrieAccount {
    pub nonce: u64,
    pub balance: [u8; 32],
    pub storage_root: [u8; 32],
    pub code_hash: [u8; 32],
}

/// A value whose encoding a trie proof is checked against.
#[derive(Debug, Clone)]
pub enum TrieValue {
    /// An account record.
    Account(TrieAccount),
    /// An unsigned 256-bit number, big-endian.
    Uint([u8; 32]),
    /// A fixed 32-byte string.
    Word([u8; 32]),
}

/// A byte string without its leading zero bytes.
pub open spec fn strip_leading_zeros(s: Seq<u8>) -> Seq<u8>
    decreases s.len(),
{
    if s.len() > 0 && s[0] == 0 {
        strip_leading_zeros(s.drop_first())
    } else {
        s
    }
}

/// The RLP encoding of a 256-bit number given big-endian: its minimal
/// big-endian bytes, alone if that is one byte below 0x80, else behind a
/// one-byte length header.
pub open spec fn rlp_uint(be: Seq<u8>) -> Seq<u8> {
    let m = strip_leading_zeros(be);
    if m.len() == 1 && m[0] < 0x80 {
        m
    } else {
        seq![(0x80 + m.len()) as u8] + m
    }
}

/// The RLP encoding of a 32-byte string.
pub open spec fn rlp_word(w: Seq<u8>) -> Seq<u8> {
    seq![0xa0u8] + w
}

/// The RLP encoding of an account record: a list of the nonce, the balance,
/// the storage root and the code hash. Its payload is 68 to 108 bytes long,
/// so the list header is `0xf8` and one length byte.
pub open spec fn rlp_account(nonce: u64, balance: Seq<u8>, storage_root: Seq<u8>, code_hash: Seq<u8>) -> Seq<u8> {
    let payload = rlp_uint(be_bytes(32, nonce as nat)) + rlp_uint(balance) + rlp_word(storage_root) + rlp_word(code_hash);
    seq![0xf8u8, payload.len() as u8] + payload
}

/// Whether the proof nodes prove `value` at trie path `path` under `root`.
pub uninterp spec fn mpt_proves(root: Seq<u8>, path: Seq<u8>, value: Seq<u8>, nodes: Seq<Seq<u8>>) -> bool;

/// The encoding of a trie value.
pub open spec fn encoded_value(v: TrieValue) -> Seq<u8> {
    match v {
        TrieValue::Account(a) => rlp_account(a.nonce, a.balance@, a.storage_root@, a.code_hash@),
        TrieValue::Uint(n) => rlp_uint(n@),
        TrieValue::Word(w) => rlp_word(w@),
    }
}

/// Whether the nodes prove that `raw_key` maps to the encoded `value` under
/// `root`. The nodes must be `walkable`, which leaves out nodes encoded
/// inline in their parent;
/// the trie is keyed by the hash of the raw key.
pub open spec fn trie_proves(root: Seq<u8>, raw_key: Seq<u8>, value: Seq<u8>, nodes: Seq<Vec<u8>>) -> bool {
    walkable(nodes_view(nodes)) && mpt_proves(root, keccak(raw_key), value, nodes_view(nodes))
}

/// Relies on alloy_rlp::encode of a ruint `U256`: the minimal big-endian
/// bytes as an RLP string.
#[verifier::external_body]
fn encode_uint(n: &[u8; 32]) -> (r: Vec<u8>)
    ensures
        r@ == rlp_uint(n@),
{
    alloy_rlp::encode(alloy_primitives::U256::from_be_bytes(*n))
}

/// Relies on alloy_rlp::encode of a `B256`: a 32-byte RLP string.
#[verifier::external_body]
fn encode_word(w: &[u8; 32]) -> (r: Vec<u8>)
    ensures
        r@ == rlp_word(w@),
{
    alloy_rlp::encode(alloy_primitives::B256::from(*w))
}

/// Relies on alloy_rlp::encode of an alloy_trie `TrieAccount`; the encoding
/// depends on the four fields alone.
#[verifier::external_body]
fn encode_account(a: &TrieAccount) -> (r: Vec<u8>)
    ensures
        r@ == rlp_account(a.nonce, a.balance@, a.storage_root@, a.code_hash@),
{
    alloy_rlp::encode(alloy_trie::TrieAccount {
        nonce: a.nonce,
        balance: alloy_primitives::U256::from_be_bytes(a.balance),
        storage_root: a.storage_root.into(),
        code_hash: a.code_hash.into(),
    })
}

/// Relies on alloy_trie::proof::verify_proof with the path unpacked into
/// nibbles by `Nibbles::unpack`: whether the nodes prove the value, a
/// function of the four arguments alone. An empty node list proves no value.
/// On walkable nodes it does not panic: every key it unpacks holds at most
/// 32 bytes, the walked path stays within 64 nibbles, and no child is
/// decoded inline.
#[verifier::external_body]
fn check_trie_proof(root: &[u8; 32], path: &[u8; 32], value: Vec<u8>, nodes: &Vec<Vec<u8>>) -> (r: bool)
    requires
        walkable(nodes_view(nodes@)),
    ensures
        r == mpt_proves(root@, path@, value@, nodes_view(nodes@)),
        nodes@.len() == 0 ==> !r,
{
    let nodes: Vec<alloy_primitives::Bytes> =
        nodes.iter().map(|n| alloy_primitives::Bytes::copy_from_slice(n)).collect();
    let key = alloy_trie::Nibbles::unpack(path);
    alloy_trie::proof::verify_proof((*root).into(), key, Some(value), &nodes).is_ok()
}

/// The canonical encoding of a trie value.
pub fn encode_value(value: &TrieValue) -> (r: Vec<u8>)
    ensures
        r@ == encoded_value(*value),
{
    match value {
        TrieValue::Account(a) => encode_account(a),
        TrieValue::Uint(n) => encode_uint(n),
        TrieValue::Word(w) => encode_word(w),
    }
}

/// Verifies that `raw_key` maps to `raw_value` under `root`, the trie being
/// keyed by the hash of the raw key and holding encoded values.
pub fn verify_mpt_proof(root: &[u8; 32], raw_key: &[u8], raw_value: &TrieValue, proof: &Vec<Vec<u8>>) -> (r: Result<(), WithdrawalError>)
    ensures
        r is Ok <==> trie_proves(root@, raw_key@, encoded_value(*raw_value), proof@),
        r is Err ==> r == Err::<(), WithdrawalError>(WithdrawalError::InvalidProof),
{
    if !proof_is_walkable(proof) {
        return Err(WithdrawalError::InvalidProof);
    }
    let path = keccak256(raw_key);
    let value = encode_value(raw_value);
    if check_trie_proof(root, &path, value, proof) {
        Ok(())
    } else {
        Err(WithdrawalError::InvalidProof)
    }
}

} // verus!
