//! SHA-256 over batches and the FNV-1a 64-bit hash.

use vstd::prelude::*;
use sha2::Digest;

verus! {

/// FNV-1a 64-bit offset basis.
pub const FNV_OFFSET_BASIS: u64 = 0xcbf2_9ce4_8422_2325;

/// FNV-1a 64-bit prime.
pub const FNV_PRIME: u64 = 0x0100_0000_01b3;

/// FNV-1a over `s`: start from the offset basis, and for each byte xor it in
/// and multiply by the prime modulo `2^64`.
pub open spec fn fnv1a(s: Seq<u8>) -> u64
    decreases s.len(),
{
    if s.len() == 0 {
        FNV_OFFSET_BASIS
    } else {
        (fnv1a(s.drop_last()) ^ (s.last() as u64)).wrapping_mul(FNV_PRIME)
    }
}

/// Xoring a byte value (below 256) into a word changes only its low byte,
/// where it xors that byte.
proof fn lemma_xor_low_byte(h: u64, b: u64)
    by (bit_vector)
    requires
        b < 256,
    ensures
        (h ^ b) / 256 == h / 256,
        (h ^ b) % 256 == (h % 256) ^ b,
{
}

/// FNV-1a 64-bit, stated over all inputs: the empty input hashes to the
/// offset basis `0xcbf29ce484222325`; appending a byte `b` xors `b`, taken as
/// its value `0..=255`, into the low byte of the previous hash (the upper 56
/// bits are untouched) and multiplies by the prime `0x100000001b3` modulo
/// `2^64`. So the one-byte input `[0xFF]` hashes to `0xaf64724c8602eb6e`.
pub proof fn law_fnv1a_appends_byte_value(s: Seq<u8>, b: u8)
    ensures
        fnv1a(Seq::empty()) == 0xcbf2_9ce4_8422_2325u64,
        ({
            let h = fnv1a(s);
            let x = h ^ (b as u64);
            &&& (b as u64) < 256
            &&& x / 256 == h / 256
            &&& x % 256 == (h % 256) ^ (b as u64)
            &&& fnv1a(s.push(b)) as int == (x as int * 0x0100_0000_01b3int) % 0x1_0000_0000_0000_0000int
        }),
        fnv1a(seq![0xFFu8]) == 0xaf64_724c_8602_eb6eu64,
{
    let h = fnv1a(s);
    lemma_xor_low_byte(h, b as u64);
    assert(s.push(b).drop_last() =~= s);
    assert(s.push(b).last() == b);
    let one = seq![0xFFu8];
    assert(one.drop_last() =~= Seq::<u8>::empty());
    assert(0xcbf2_9ce4_8422_2325u64 ^ 0xFFu64 == 0xcbf2_9ce4_8422_23dau64) by (bit_vector);
    assert((0xcbf2_9ce4_8422_23dau64 as nat * 0x0100_0000_01b3u64 as nat) % 0x1_0000_0000_0000_0000nat
        == 0xaf64_724c_8602_eb6enat);
}

/// The SHA-256 digest of `data`, as the `sha2` crate computes it.
pub uninterp spec fn sha256_digest(data: Seq<u8>) -> Seq<u8>;

/// Calls `<sha2::Sha256 as Digest>::digest`. Claimed: the 32 returned bytes
/// are the named SHA-256 digest of `data`.
#[verifier::external_body]
fn sha256(data: &[u8]) -> (r: [u8; 32])
    ensures
        r@ == sha256_digest(data@),
{
    sha2::Sha256::digest(data).into()
}

/// Hashing helpers.
pub struct SIMDHash;

impl SIMDHash {
    /// The SHA-256 digest of each item, in order.
    pub fn hash_batch_sha256(data: &[&[u8]]) -> (r: Vec<[u8; 32]>)
        ensures
            r@.len() == data@.len(),
            forall|i: int| 0 <= i < data@.len() ==> #[trigger] r@[i]@ == sha256_digest(data@[i]@),
    {
        let mut result: Vec<[u8; 32]> = Vec::with_capacity(data.len());
        let mut i: usize = 0;
        while i < data.len()
            invariant
                i <= data@.len(),
                result@.len() == i,
                forall|j: int| 0 <= j < i ==> #[trigger] result@[j]@ == sha256_digest(data@[j]@),
            decreases data@.len() - i,
        {
            let digest = sha256(data[i]);
            result.push(digest);
            i = i + 1;
        }
        result
    }

    /// FNV-1a 64-bit hash of `data` (not cryptographic).
    pub fn fast_hash_u64(data: &[u8]) -> (r: u64)
        ensures
            r == fnv1a(data@),
    {
        let mut hash: u64 = FNV_OFFSET_BASIS;
        let mut i: usize = 0;
        while i < data.len()
            invariant
                i <= data@.len(),
                hash == fnv1a(data@.take(i as int)),
            decreases data@.len() - i,
        {
            let byte = data[i];
            hash = hash ^ (byte as u64);
            hash = hash.wrapping_mul(FNV_PRIME);
            proof {
                assert(data@.take(i + 1).drop_last() =~= data@.take(i as int));
            }
            i = i + 1;
        }
        assert(data@.take(data@.len() as int) =~= data@);
        hash
    }
}

} // verus!
