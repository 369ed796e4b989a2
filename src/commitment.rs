//! Commitments and nullifiers derived from a secret, and roots of binary
//! Merkle inclusion paths.
use vstd::prelude::*;
use vstd::arithmetic::power2::pow2;
use crate::word::{be_nat, keccak, keccak256, lemma_be_nat_bound, lemma_be_nat_of_be_bytes, word_add, word_of, word_one};

verus! {

/// The public commitment of a secret: the hash of its 32 bytes.
pub open spec fn commitment_of(secret: Seq<u8>) -> Seq<u8> {
    keccak(secret)
}

/// The public nullifier of a secret: the hash of the secret plus one,
/// modulo 2^256.
pub open spec fn nullifier_of(secret: Seq<u8>) -> Seq<u8> {
    keccak(word_of(be_nat(secret) + 1))
}

/// Returns `(commitment, nullifier)` for a secret read as a big-endian
/// 256-bit number.
pub fn compute_commitment(secret: &[u8; 32]) -> (r: ([u8; 32], [u8; 32]))
    ensures
        r.0@ == commitment_of(secret@),
        r.1@ == nullifier_of(secret@),
{
    let commitment = keccak256(secret.as_slice());
    let one = word_one();
    let next = word_add(secret, &one);
    let nullifier = keccak256(next.as_slice());
    (commitment, nullifier)
}

/// A binary Merkle authentication path: bit `i` of `index` tells whether the
/// node at depth `i` is a right child, and `proof[i]` is its sibling, from
/// the leaf up.
#[derive(Debug, Clone)]
pub struct InclusionBranches {
    pub index: u32,
    pub proof: Vec<[u8; 32]>,
}

/// The sibling hashes of a path as byte strings.
pub open spec fn siblings_view(proof: Seq<[u8; 32]>) -> Seq<Seq<u8>> {
    proof.map_values(|h: [u8; 32]| h@)
}

/// Whether bit `i` of `index` is set; bits from 32 on are clear.
pub open spec fn index_bit(index: u32, i: int) -> bool {
    0 <= i < 32 && (index >> (i as u32)) & 1u32 == 1u32
}

/// What is hashed at depth `i`: the node below, then its sibling when the
/// node is a left child, and the other way round when it is a right child.
pub open spec fn level_input(node: Seq<u8>, sibling: Seq<u8>, index: u32, i: int) -> Seq<u8> {
    if index_bit(index, i) {
        sibling + node
    } else {
        node + sibling
    }
}

/// The root reached from `leaf` through the given siblings.
pub open spec fn inclusion_root(leaf: Seq<u8>, index: u32, siblings: Seq<Seq<u8>>) -> Seq<u8>
    decreases siblings.len(),
{
    if siblings.len() == 0 {
        leaf
    } else {
        let below = inclusion_root(leaf, index, siblings.drop_last());
        keccak(level_input(below, siblings.last(), index, siblings.len() - 1))
    }
}

fn concat_words(a: &[u8; 32], b: &[u8; 32]) -> (r: Vec<u8>)
    ensures
        r@ == a@ + b@,
{
    let mut r: Vec<u8> = Vec::new();
    let mut i: usize = 0;
    while i < 32
        invariant
            0 <= i <= 32,
            r@ == a@.take(i as int),
        decreases 32 - i,
    {
        r.push(a[i]);
        i += 1;
        assert(r@ =~= a@.take(i as int));
    }
    let mut j: usize = 0;
    while j < 32
        invariant
            0 <= j <= 32,
            r@ == a@ + b@.take(j as int),
        decreases 32 - j,
    {
        r.push(b[j]);
        j += 1;
        assert(r@ =~= a@ + b@.take(j as int));
    }
    assert(b@.take(32) =~= b@);
    r
}

/// Recomputes the root of a binary Merkle tree from a leaf and its
/// authentication path.
pub fn compute_inclusion_root(commitment: [u8; 32], proof: InclusionBranches) -> (r: [u8; 32])
    ensures
        r@ == inclusion_root(commitment@, proof.index, siblings_view(proof.proof@)),
{
    let bits = proof.index;
    let ghost siblings = siblings_view(proof.proof@);
    let mut root = commitment;
    let mut i: usize = 0;
    while i < proof.proof.len()
        invariant
            0 <= i <= proof.proof@.len(),
            siblings == siblings_view(proof.proof@),
            bits == proof.index,
            root@ == inclusion_root(commitment@, bits, siblings.take(i as int)),
        decreases proof.proof@.len() - i,
    {
        let hash = &proof.proof[i];
        let right = i < 32 && (bits >> (i as u32)) & 1u32 == 1u32;
        let input = if right {
            concat_words(hash, &root)
        } else {
            concat_words(&root, hash)
        };
        root = keccak256(input.as_slice());
        proof {
            let next = siblings.take(i + 1);
            assert(next.drop_last() =~= siblings.take(i as int));
            assert(next.last() == hash@);
        }
        i += 1;
    }
    assert(siblings.take(i as int) =~= siblings);
    root
}

} // verus!

verus! {

/// Whether the hash inputs at depth `j` of the paths of indices `a` and `b`
/// differ and still hash alike: a Keccak-256 collision.
pub open spec fn level_inputs_collide(leaf: Seq<u8>, a: u32, b: u32, siblings: Seq<Seq<u8>>, j: int) -> bool {
    let x = level_input(inclusion_root(leaf, a, siblings.take(j)), siblings[j], a, j);
    let y = level_input(inclusion_root(leaf, b, siblings.take(j)), siblings[j], b, j);
    x != y && keccak(x) == keccak(y)
}

/// Derivation depends on the secret alone, and the commitment and the
/// nullifier hash different inputs: they are equal only on a Keccak-256
/// collision.
pub proof fn lemma_commitment_determinism(s: Seq<u8>, t: Seq<u8>)
    requires
        s.len() == 32,
    ensures
        s == t ==> commitment_of(s) == commitment_of(t) && nullifier_of(s) == nullifier_of(t),
        s != word_of(be_nat(s) + 1),
{
    lemma_be_nat_bound(s);
    assert(8 * s.len() == 256);
    vstd::arithmetic::power2::lemma2_to64();
    vstd::arithmetic::power2::lemma_pow2_strictly_increases(1, 256);
    let v = be_nat(s);
    let m = pow2(256);
    let w = (v + 1) % m;
    lemma_be_nat_of_be_bytes(32, w);
    vstd::arithmetic::power2::lemma_pow2_pos(256);
    vstd::arithmetic::div_mod::lemma_small_mod(w, m);
    assert(be_nat(word_of(v + 1)) == w);
    if v + 1 < m {
        vstd::arithmetic::div_mod::lemma_small_mod(v + 1, m);
    } else {
        vstd::arithmetic::div_mod::lemma_mod_self_0(m as int);
    }
}

/// With no siblings the root is the leaf itself.
pub proof fn lemma_empty_path_root(leaf: Seq<u8>, index: u32)
    ensures
        inclusion_root(leaf, index, Seq::empty()) == leaf,
{
}

proof fn lemma_flip_bits(index: u32, k: u32, i: u32)
    requires
        k < 32,
        i < 32,
    ensures
        i != k ==> index_bit(index ^ (1u32 << k), i as int) == index_bit(index, i as int),
        i == k ==> index_bit(index ^ (1u32 << k), i as int) != index_bit(index, i as int),
{
    let f = index ^ (1u32 << k);
    assert(i != k ==> (f >> i) & 1u32 == (index >> i) & 1u32) by (bit_vector)
        requires
            f == index ^ (1u32 << k),
            k < 32,
            i < 32,
    ;
    assert(i == k ==> (((f >> i) & 1u32 == 1u32) != ((index >> i) & 1u32 == 1u32))) by (bit_vector)
        requires
            f == index ^ (1u32 << k),
            k < 32,
            i < 32,
    ;
}

proof fn lemma_roots_agree_below(leaf: Seq<u8>, index: u32, k: u32, siblings: Seq<Seq<u8>>, m: int)
    requires
        k < 32,
        0 <= m <= k,
        m <= siblings.len(),
    ensures
        inclusion_root(leaf, index, siblings.take(m)) == inclusion_root(leaf, index ^ (1u32 << k), siblings.take(m)),
    decreases m,
{
    if m > 0 {
        let t = siblings.take(m);
        assert(t.drop_last() =~= siblings.take(m - 1));
        lemma_roots_agree_below(leaf, index, k, siblings, m - 1);
        lemma_flip_bits(index, k, (m - 1) as u32);
    }
}

proof fn lemma_concat_cancel(a: Seq<u8>, b: Seq<u8>, c: Seq<u8>)
    ensures
        a + c == b + c ==> a == b,
        c + a == c + b ==> a == b,
{
    if a + c == b + c {
        assert((a + c).len() == a.len() + c.len());
        assert((b + c).len() == b.len() + c.len());
        assert(a =~= (a + c).take(a.len() as int));
        assert(b =~= (b + c).take(b.len() as int));
    }
    if c + a == c + b {
        assert((c + a).len() == a.len() + c.len());
        assert((c + b).len() == b.len() + c.len());
        assert(a.len() == b.len());
        assert(a =~= (c + a).skip(c.len() as int));
        assert(b =~= (c + b).skip(c.len() as int));
    }
}

proof fn lemma_swap_differs(a: Seq<u8>, b: Seq<u8>)
    requires
        a.len() == 32,
        b.len() == 32,
        a != b,
    ensures
        a + b != b + a,
{
    if a + b == b + a {
        assert(a =~= (a + b).take(32));
        assert(b =~= (b + a).take(32));
    }
}

proof fn lemma_root_len(leaf: Seq<u8>, index: u32, siblings: Seq<Seq<u8>>)
    requires
        leaf.len() == 32,
        forall|d: Seq<u8>| (#[trigger] keccak(d)).len() == 32,
    ensures
        inclusion_root(leaf, index, siblings).len() == 32,
{
}

proof fn lemma_flip_up_to(leaf: Seq<u8>, index: u32, k: u32, siblings: Seq<Seq<u8>>, n: int)
    requires
        k < 32,
        k < n <= siblings.len(),
        forall|i: int| 0 <= i < siblings.len() ==> (#[trigger] siblings[i]).len() == 32,
        leaf.len() == 32,
        forall|d: Seq<u8>| (#[trigger] keccak(d)).len() == 32,
        inclusion_root(leaf, index, siblings.take(k as int)) != siblings[k as int],
    ensures
        inclusion_root(leaf, index, siblings.take(n)) != inclusion_root(leaf, index ^ (1u32 << k), siblings.take(n))
            || exists|j: int| k <= j < n && level_inputs_collide(leaf, index, index ^ (1u32 << k), siblings, j),
    decreases n,
{
    let f = index ^ (1u32 << k);
    let t = siblings.take(n);
    let j = n - 1;
    assert(t.drop_last() =~= siblings.take(j));
    assert(t.last() == siblings[j]);
    let r1 = inclusion_root(leaf, index, siblings.take(j));
    let r2 = inclusion_root(leaf, f, siblings.take(j));
    let x = level_input(r1, siblings[j], index, j);
    let y = level_input(r2, siblings[j], f, j);
    lemma_root_len(leaf, index, siblings.take(j));
    if j == k {
        lemma_roots_agree_below(leaf, index, k, siblings, k as int);
        lemma_flip_bits(index, k, k);
        lemma_swap_differs(r1, siblings[j]);
        assert(x != y);
    } else {
        lemma_flip_up_to(leaf, index, k, siblings, j);
        if r1 != r2 {
            if j < 32 {
                lemma_flip_bits(index, k, j as u32);
            }
            lemma_concat_cancel(r1, r2, siblings[j]);
            assert(x != y);
        }
    }
    if x != y && keccak(x) == keccak(y) {
        assert(level_inputs_collide(leaf, index, f, siblings, j));
    }
}

/// Flipping bit `k` of the path index, at a depth below the path's length,
/// changes the root, unless the node at depth `k` equals its sibling there
/// (then the two orders hash alike) or two different hash inputs on the way
/// up share a Keccak-256 hash.
pub proof fn lemma_index_bit_flip(leaf: Seq<u8>, index: u32, k: u32, siblings: Seq<Seq<u8>>)
    requires
        k < 32,
        k < siblings.len(),
        forall|i: int| 0 <= i < siblings.len() ==> (#[trigger] siblings[i]).len() == 32,
        leaf.len() == 32,
        forall|d: Seq<u8>| (#[trigger] keccak(d)).len() == 32,
        inclusion_root(leaf, index, siblings.take(k as int)) != siblings[k as int],
    ensures
        inclusion_root(leaf, index, siblings) != inclusion_root(leaf, index ^ (1u32 << k), siblings)
            || exists|j: int| k <= j < siblings.len() && level_inputs_collide(leaf, index, index ^ (1u32 << k), siblings, j),
{
    lemma_flip_up_to(leaf, index, k, siblings, siblings.len() as int);
    assert(siblings.take(siblings.len() as int) =~= siblings);
}

} // verus!
