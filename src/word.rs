//! 256-bit words held as 32 big-endian bytes, and the Keccak-256 hash.
use vstd::prelude::*;
use vstd::arithmetic::power2::pow2;

verus! {

/// The value of a big-endian byte string.
pub open spec fn be_nat(s: Seq<u8>) -> nat
    decreases s.len(),
{
    if s.len() == 0 {
        0
    } else {
        be_nat(s.drop_last()) * 256 + s.last() as nat
    }
}

/// The `len` low bytes of `n`, big-endian.
pub open spec fn be_bytes(len: nat, n: nat) -> Seq<u8>
    decreases len,
{
    if len == 0 {
        Seq::empty()
    } else {
        be_bytes((len - 1) as nat, n / 256).push((n % 256) as u8)
    }
}

/// The 32-byte big-endian encoding of `n` modulo 2^256.
pub open spec fn word_of(n: nat) -> Seq<u8> {
    be_bytes(32, n % pow2(256))
}

/// Keccak-256 of a byte string.
pub uninterp spec fn keccak(data: Seq<u8>) -> Seq<u8>;

/// Relies on alloy_primitives::keccak256: the 32-byte Keccak-256 digest of
/// the input, a function of the input bytes alone.
#[verifier::external_body]
pub(crate) fn keccak256(data: &[u8]) -> (r: [u8; 32])
    ensures
        r@ == keccak(data@),
{
    alloy_primitives::keccak256(data).0
}

/// Relies on ruint's `Uint::wrapping_add` on `U256` read from and written
/// to big-endian bytes: the sum modulo 2^256.
#[verifier::external_body]
pub(crate) fn word_add(a: &[u8; 32], b: &[u8; 32]) -> (r: [u8; 32])
    ensures
        r@ == word_of(be_nat(a@) + be_nat(b@)),
{
    let x = alloy_primitives::U256::from_be_bytes(*a);
    let y = alloy_primitives::U256::from_be_bytes(*b);
    x.wrapping_add(y).to_be_bytes::<32>()
}

/// Relies on the numeric order of `U256` (ruint's `Ord`), read from
/// big-endian bytes.
#[verifier::external_body]
pub(crate) fn word_lt(a: &[u8; 32], b: &[u8; 32]) -> (r: bool)
    ensures
        r == (be_nat(a@) < be_nat(b@)),
{
    alloy_primitives::U256::from_be_bytes(*a) < alloy_primitives::U256::from_be_bytes(*b)
}

proof fn lemma_be_nat_zeros(s: Seq<u8>)
    requires
        forall|i: int| 0 <= i < s.len() ==> s[i] == 0,
    ensures
        be_nat(s) == 0,
    decreases s.len(),
{
    if s.len() > 0 {
        lemma_be_nat_zeros(s.drop_last());
    }
}

/// The word whose value is one.
pub(crate) fn word_one() -> (r: [u8; 32])
    ensures
        be_nat(r@) == 1,
{
    let mut r = [0u8; 32];
    r[31] = 1;
    proof {
        lemma_be_nat_zeros(r@.drop_last());
        assert(r@.drop_last().len() == 31);
    }
    r
}

/// Whether two byte strings are equal.
pub fn bytes_eq(a: &[u8], b: &[u8]) -> (r: bool)
    ensures
        r == (a@ == b@),
{
    if a.len() != b.len() {
        return false;
    }
    let mut i: usize = 0;
    while i < a.len()
        invariant
            a@.len() == b@.len(),
            0 <= i <= a@.len(),
            forall|j: int| 0 <= j < i ==> a@[j] == b@[j],
        decreases a@.len() - i,
    {
        if a[i] != b[i] {
            return false;
        }
        i += 1;
    }
    assert(a@ =~= b@);
    true
}

} // verus!

verus! {

/// A byte string of `len` bytes has a value below 2^(8 len).
pub proof fn lemma_be_nat_bound(s: Seq<u8>)
    ensures
        be_nat(s) < pow2(8 * s.len()),
    decreases s.len(),
{
    if s.len() == 0 {
        vstd::arithmetic::power2::lemma2_to64();
    } else {
        let p = s.drop_last();
        lemma_be_nat_bound(p);
        vstd::arithmetic::power2::lemma_pow2_adds(8 * p.len(), 8);
        vstd::arithmetic::power2::lemma2_to64();
        assert(be_nat(p) * 256 + s.last() < pow2(8 * p.len()) * 256) by (nonlinear_arith)
            requires
                be_nat(p) < pow2(8 * p.len()),
                s.last() < 256,
        ;
    }
}

/// Reading back the `len` low bytes of `n` gives `n` modulo 2^(8 len).
pub proof fn lemma_be_nat_of_be_bytes(len: nat, n: nat)
    ensures
        be_bytes(len, n).len() == len,
        be_nat(be_bytes(len, n)) == n % pow2(8 * len),
    decreases len,
{
    vstd::arithmetic::power2::lemma2_to64();
    if len == 0 {
        assert(n % 1 == 0);
    } else {
        let l1 = (len - 1) as nat;
        lemma_be_nat_of_be_bytes(l1, n / 256);
        let b = be_bytes(len, n);
        assert(b.drop_last() == be_bytes(l1, n / 256));
        vstd::arithmetic::power2::lemma_pow2_adds(8, 8 * l1);
        vstd::arithmetic::power2::lemma_pow2_pos(8 * l1);
        vstd::arithmetic::div_mod::lemma_mod_breakdown(n as int, 256, pow2(8 * l1) as int);
        assert(256 * ((n / 256) % pow2(8 * l1)) == ((n / 256) % pow2(8 * l1)) * 256) by (nonlinear_arith);
    }
}

} // verus!
