//! The public record of a withdrawal and its fixed contract-ABI layout:
//! eight 32-byte slots, each value right-aligned behind zero bytes.
use vstd::prelude::*;

verus! {

/// The public record of a verified withdrawal.
#[derive(Debug, Clone, Copy, PartialEq, Eq)]
pub struct WithdrawalData {
    pub nullifier: [u8; 32],
    pub block_number: u64,
    pub block_hash: [u8; 32],
    pub exclusion_set_root: [u8; 32],
    pub relayer_fee: [u8; 32],
    pub recipient: [u8; 20],
    pub relayer: [u8; 20],
    pub contract_address: [u8; 20],
}

/// Byte `k` of `n`, counting from the least significant.
pub open spec fn byte_of(n: u64, k: u64) -> u8 {
    ((n >> (8 * k)) & 0xff) as u8
}

/// `n` zero bytes.
pub open spec fn zeros(n: nat) -> Seq<u8> {
    Seq::new(n, |i: int| 0u8)
}

/// A `uint64` slot: 24 zero bytes, then the number big-endian.
pub open spec fn u64_slot(n: u64) -> Seq<u8> {
    zeros(24) + seq![
        byte_of(n, 7),
        byte_of(n, 6),
        byte_of(n, 5),
        byte_of(n, 4),
        byte_of(n, 3),
        byte_of(n, 2),
        byte_of(n, 1),
        byte_of(n, 0),
    ]
}

/// An `address` slot: 12 zero bytes, then the 20-byte address.
pub open spec fn address_slot(a: Seq<u8>) -> Seq<u8> {
    zeros(12) + a
}

/// The encoding of a record, slot by slot: nullifier, block number, block
/// hash, inclusion-set root, relayer fee, recipient, relayer, contract.
pub open spec fn abi_layout(d: WithdrawalData) -> Seq<u8> {
    d.nullifier@ + u64_slot(d.block_number) + d.block_hash@ + d.exclusion_set_root@ + d.relayer_fee@
        + address_slot(d.recipient@) + address_slot(d.relayer@) + address_slot(d.contract_address@)
}

/// Whether `b[from..to]` is all zero.
pub open spec fn zero_between(b: Seq<u8>, from: int, to: int) -> bool {
    forall|i: int| from <= i < to ==> b[i] == 0
}

/// Whether bytes have the shape of an encoded record: eight slots, with
/// zero padding in front of the block number and of each address.
pub open spec fn abi_accepts(b: Seq<u8>) -> bool {
    &&& b.len() == 256
    &&& zero_between(b, 32, 56)
    &&& zero_between(b, 160, 172)
    &&& zero_between(b, 192, 204)
    &&& zero_between(b, 224, 236)
}

fn push_bytes(out: &mut Vec<u8>, b: &[u8])
    ensures
        final(out)@ == old(out)@ + b@,
{
    let mut i: usize = 0;
    while i < b.len()
        invariant
            0 <= i <= b@.len(),
            out@ == old(out)@ + b@.take(i as int),
        decreases b@.len() - i,
    {
        out.push(b[i]);
        i += 1;
        assert(out@ =~= old(out)@ + b@.take(i as int));
    }
    assert(b@.take(i as int) =~= b@);
}

fn push_zeros(out: &mut Vec<u8>, n: usize)
    ensures
        final(out)@ == old(out)@ + zeros(n as nat),
{
    let mut i: usize = 0;
    while i < n
        invariant
            0 <= i <= n,
            out@ == old(out)@ + zeros(i as nat),
        decreases n - i,
    {
        out.push(0u8);
        i += 1;
        assert(out@ =~= old(out)@ + zeros(i as nat));
    }
}

fn read_bytes<const N: usize>(b: &[u8], off: usize) -> (r: [u8; N])
    requires
        off + N <= b@.len(),
    ensures
        r@ == b@.subrange(off as int, off + N),
{
    let len = b.len();
    let mut r = [0u8; N];
    let mut i: usize = 0;
    while i < N
        invariant
            0 <= i <= N,
            off + N <= b@.len(),
            len == b@.len(),
            forall|j: int| 0 <= j < i ==> r@[j] == b@[off + j],
        decreases N - i,
    {
        r[i] = b[off + i];
        i += 1;
    }
    assert(r@ =~= b@.subrange(off as int, off + N));
    r
}

fn all_zero(b: &[u8], from: usize, to: usize) -> (r: bool)
    requires
        from <= to <= b@.len(),
    ensures
        r == zero_between(b@, from as int, to as int),
{
    let mut i: usize = from;
    while i < to
        invariant
            from <= i <= to <= b@.len(),
            zero_between(b@, from as int, i as int),
        decreases to - i,
    {
        if b[i] != 0 {
            return false;
        }
        i += 1;
    }
    true
}

proof fn lemma_u64_bytes(n: u64, b: Seq<u8>)
    requires
        b.len() == 8,
        n == (b[0] as u64) << 56 | (b[1] as u64) << 48 | (b[2] as u64) << 40 | (b[3] as u64) << 32
            | (b[4] as u64) << 24 | (b[5] as u64) << 16 | (b[6] as u64) << 8 | (b[7] as u64),
    ensures
        b =~= seq![
            byte_of(n, 7),
            byte_of(n, 6),
            byte_of(n, 5),
            byte_of(n, 4),
            byte_of(n, 3),
            byte_of(n, 2),
            byte_of(n, 1),
            byte_of(n, 0),
        ],
{
    let (b0, b1, b2, b3, b4, b5, b6, b7) = (b[0], b[1], b[2], b[3], b[4], b[5], b[6], b[7]);
    assert({
        &&& ((n >> 56u64) & 0xff) as u8 == b0
        &&& ((n >> 48u64) & 0xff) as u8 == b1
        &&& ((n >> 40u64) & 0xff) as u8 == b2
        &&& ((n >> 32u64) & 0xff) as u8 == b3
        &&& ((n >> 24u64) & 0xff) as u8 == b4
        &&& ((n >> 16u64) & 0xff) as u8 == b5
        &&& ((n >> 8u64) & 0xff) as u8 == b6
        &&& ((n >> 0u64) & 0xff) as u8 == b7
    }) by (bit_vector)
        requires
            n == (b0 as u64) << 56 | (b1 as u64) << 48 | (b2 as u64) << 40 | (b3 as u64) << 32
                | (b4 as u64) << 24 | (b5 as u64) << 16 | (b6 as u64) << 8 | (b7 as u64),
    ;
}

proof fn lemma_u64_bytes_determine(n: u64, m: u64)
    requires
        forall|k: u64| k < 8 ==> byte_of(n, k) == byte_of(m, k),
    ensures
        n == m,
{
    assert(byte_of(n, 0) == byte_of(m, 0));
    assert(byte_of(n, 1) == byte_of(m, 1));
    assert(byte_of(n, 2) == byte_of(m, 2));
    assert(byte_of(n, 3) == byte_of(m, 3));
    assert(byte_of(n, 4) == byte_of(m, 4));
    assert(byte_of(n, 5) == byte_of(m, 5));
    assert(byte_of(n, 6) == byte_of(m, 6));
    assert(byte_of(n, 7) == byte_of(m, 7));
    assert(n == m) by (bit_vector)
        requires
            ((n >> 0u64) & 0xff) as u8 == ((m >> 0u64) & 0xff) as u8,
            ((n >> 8u64) & 0xff) as u8 == ((m >> 8u64) & 0xff) as u8,
            ((n >> 16u64) & 0xff) as u8 == ((m >> 16u64) & 0xff) as u8,
            ((n >> 24u64) & 0xff) as u8 == ((m >> 24u64) & 0xff) as u8,
            ((n >> 32u64) & 0xff) as u8 == ((m >> 32u64) & 0xff) as u8,
            ((n >> 40u64) & 0xff) as u8 == ((m >> 40u64) & 0xff) as u8,
            ((n >> 48u64) & 0xff) as u8 == ((m >> 48u64) & 0xff) as u8,
            ((n >> 56u64) & 0xff) as u8 == ((m >> 56u64) & 0xff) as u8,
    ;
}

impl WithdrawalData {
    /// The record in its 256-byte ABI layout.
    pub fn abi_encode(&self) -> (r: Vec<u8>)
        ensures
            r@ == abi_layout(*self),
    {
        let n = self.block_number;
        let number: [u8; 8] = [
            ((n >> 56u64) & 0xff) as u8,
            ((n >> 48u64) & 0xff) as u8,
            ((n >> 40u64) & 0xff) as u8,
            ((n >> 32u64) & 0xff) as u8,
            ((n >> 24u64) & 0xff) as u8,
            ((n >> 16u64) & 0xff) as u8,
            ((n >> 8u64) & 0xff) as u8,
            (n & 0xff) as u8,
        ];
        let mut out: Vec<u8> = Vec::new();
        push_bytes(&mut out, self.nullifier.as_slice());
        push_zeros(&mut out, 24);
        push_bytes(&mut out, number.as_slice());
        push_bytes(&mut out, self.block_hash.as_slice());
        push_bytes(&mut out, self.exclusion_set_root.as_slice());
        push_bytes(&mut out, self.relayer_fee.as_slice());
        push_zeros(&mut out, 12);
        push_bytes(&mut out, self.recipient.as_slice());
        push_zeros(&mut out, 12);
        push_bytes(&mut out, self.relayer.as_slice());
        push_zeros(&mut out, 12);
        push_bytes(&mut out, self.contract_address.as_slice());
        proof {
            assert(n >> 0u64 == n) by (bit_vector);
            assert(number@ =~= seq![
                byte_of(n, 7),
                byte_of(n, 6),
                byte_of(n, 5),
                byte_of(n, 4),
                byte_of(n, 3),
                byte_of(n, 2),
                byte_of(n, 1),
                byte_of(n, 0),
            ]);
            assert(out@ =~= abi_layout(*self));
        }
        out
    }

    /// Reads a record from its ABI layout; `None` where the bytes are not
    /// 256 long or a padding byte is not zero.
    pub fn abi_decode(bytes: &[u8]) -> (r: Option<WithdrawalData>)
        ensures
            r is Some <==> abi_accepts(bytes@),
            r matches Some(d) ==> abi_layout(d) == bytes@,
    {
        if bytes.len() != 256 || !all_zero(bytes, 32, 56) || !all_zero(bytes, 160, 172)
            || !all_zero(bytes, 192, 204) || !all_zero(bytes, 224, 236) {
            return None;
        }
        let number: [u8; 8] = read_bytes(bytes, 56);
        let block_number: u64 = (number[0] as u64) << 56u64 | (number[1] as u64) << 48u64
            | (number[2] as u64) << 40u64 | (number[3] as u64) << 32u64 | (number[4] as u64) << 24u64
            | (number[5] as u64) << 16u64 | (number[6] as u64) << 8u64 | (number[7] as u64);
        let d = WithdrawalData {
            nullifier: read_bytes(bytes, 0),
            block_number,
            block_hash: read_bytes(bytes, 64),
            exclusion_set_root: read_bytes(bytes, 96),
            relayer_fee: read_bytes(bytes, 128),
            recipient: read_bytes(bytes, 172),
            relayer: read_bytes(bytes, 204),
            contract_address: read_bytes(bytes, 236),
        };
        proof {
            lemma_u64_bytes(block_number, number@);
            assert(bytes@.subrange(32, 56) =~= zeros(24));
            assert(bytes@.subrange(160, 172) =~= zeros(12));
            assert(bytes@.subrange(192, 204) =~= zeros(12));
            assert(bytes@.subrange(224, 236) =~= zeros(12));
            assert(abi_layout(d) =~= bytes@);
        }
        Some(d)
    }
}

/// Encoding a record and decoding it per the layout gives the record back:
/// every layout is accepted, and no two records share one.
pub proof fn lemma_abi_round_trip(d: WithdrawalData, e: WithdrawalData)
    ensures
        abi_accepts(abi_layout(d)),
        abi_layout(e) == abi_layout(d) ==> e == d,
{
    let b = abi_layout(d);
    assert(b.len() == 256);
    assert(zero_between(b, 32, 56));
    assert(zero_between(b, 160, 172));
    assert(zero_between(b, 192, 204));
    assert(zero_between(b, 224, 236));
    if abi_layout(e) == b {
        let c = abi_layout(e);
        assert(c.subrange(0, 32) =~= e.nullifier@ && b.subrange(0, 32) =~= d.nullifier@);
        assert(c.subrange(64, 96) =~= e.block_hash@ && b.subrange(64, 96) =~= d.block_hash@);
        assert(c.subrange(96, 128) =~= e.exclusion_set_root@ && b.subrange(96, 128) =~= d.exclusion_set_root@);
        assert(c.subrange(128, 160) =~= e.relayer_fee@ && b.subrange(128, 160) =~= d.relayer_fee@);
        assert(c.subrange(172, 192) =~= e.recipient@ && b.subrange(172, 192) =~= d.recipient@);
        assert(c.subrange(204, 224) =~= e.relayer@ && b.subrange(204, 224) =~= d.relayer@);
        assert(c.subrange(236, 256) =~= e.contract_address@ && b.subrange(236, 256) =~= d.contract_address@);
        assert(e.nullifier =~= d.nullifier);
        assert(e.block_hash =~= d.block_hash);
        assert(e.exclusion_set_root =~= d.exclusion_set_root);
        assert(e.relayer_fee =~= d.relayer_fee);
        assert(e.recipient =~= d.recipient);
        assert(e.relayer =~= d.relayer);
        assert(e.contract_address =~= d.contract_address);
        assert forall|k: u64| k < 8 implies byte_of(e.block_number, k) == byte_of(d.block_number, k) by {
            assert(c[63 - k] == b[63 - k]);
        }
        lemma_u64_bytes_determine(e.block_number, d.block_number);
    }
}

} // verus!
