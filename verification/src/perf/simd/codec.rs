//! Little-endian batch codecs for `u64` values and the Base64 text form.

use vstd::prelude::*;
use base64::Engine;
use vstd::bytes::{spec_u64_to_le_bytes, spec_u64_from_le_bytes, u64_to_le_bytes, u64_from_le_bytes, lemma_auto_spec_u64_to_from_le_bytes};

verus! {

/// The little-endian encoding of every value of `s`, in order, 8 bytes each.
pub open spec fn le_bytes_of(s: Seq<u64>) -> Seq<u8> {
    Seq::new(8 * s.len(), |j: int| spec_u64_to_le_bytes(s[j / 8])[j % 8])
}

/// The values read from each whole 8-byte little-endian group of `b`;
/// a trailing group shorter than 8 bytes is ignored.
pub open spec fn u64s_from_le(b: Seq<u8>) -> Seq<u64> {
    Seq::new(b.len() / 8, |i: int| spec_u64_from_le_bytes(b.subrange(8 * i, 8 * i + 8)))
}

proof fn lemma_div_mod_8(i: int, j: int)
    requires
        0 <= i,
        8 * i <= j < 8 * i + 8,
    ensures
        j / 8 == i,
        j % 8 == j - 8 * i,
{
}

/// Extending the value sequence by one value appends its 8 bytes.
proof fn lemma_le_bytes_push(s: Seq<u64>, x: u64)
    ensures
        le_bytes_of(s.push(x)) == le_bytes_of(s) + spec_u64_to_le_bytes(x),
{
    lemma_auto_spec_u64_to_from_le_bytes();
    let lhs = le_bytes_of(s.push(x));
    let rhs = le_bytes_of(s) + spec_u64_to_le_bytes(x);
    assert forall|j: int| 0 <= j < lhs.len() implies lhs[j] == rhs[j] by {
        if j < 8 * s.len() {
            let i = j / 8;
            assert(0 <= i < s.len()) by (nonlinear_arith)
                requires
                    0 <= j < 8 * s.len(),
                    i == j / 8,
            ;
        } else {
            lemma_div_mod_8(s.len() as int, j);
        }
    }
    assert(lhs =~= rhs);
}

/// Reading back what `serialize_u64_batch` wrote gives the original values.
pub proof fn lemma_deserialize_of_serialize(s: Seq<u64>)
    ensures
        u64s_from_le(le_bytes_of(s)) == s,
{
    lemma_auto_spec_u64_to_from_le_bytes();
    let b = le_bytes_of(s);
    assert(b.len() / 8 == s.len()) by (nonlinear_arith)
        requires
            b.len() == 8 * s.len(),
    ;
    assert forall|i: int| 0 <= i < s.len() implies #[trigger] u64s_from_le(b)[i] == s[i] by {
        let g = b.subrange(8 * i, 8 * i + 8);
        assert(8 * i + 8 <= b.len()) by (nonlinear_arith)
            requires
                0 <= i < s.len(),
                b.len() == 8 * s.len(),
        ;
        assert forall|r: int| 0 <= r < 8 implies #[trigger] g[r] == spec_u64_to_le_bytes(s[i])[r] by {
            lemma_div_mod_8(i, 8 * i + r);
        }
        assert(g =~= spec_u64_to_le_bytes(s[i]));
    }
    assert(u64s_from_le(b) =~= s);
}

/// Writing out what `deserialize_u64_batch` read gives back the input
/// without its trailing partial group.
pub proof fn lemma_serialize_of_deserialize(b: Seq<u8>)
    ensures
        le_bytes_of(u64s_from_le(b)) == b.take(8 * (b.len() as int / 8)),
{
    lemma_auto_spec_u64_to_from_le_bytes();
    let s = u64s_from_le(b);
    let n = b.len() / 8;
    assert(8 * n <= b.len()) by (nonlinear_arith)
        requires
            n == b.len() / 8,
    ;
    assert forall|j: int| 0 <= j < 8 * n implies #[trigger] le_bytes_of(s)[j] == b[j] by {
        let i = j / 8;
        let r = j % 8;
        assert(0 <= i < n && 8 * i + 8 <= b.len() && j == 8 * i + r && 0 <= r < 8) by (nonlinear_arith)
            requires
                0 <= j < 8 * n,
                8 * n <= b.len(),
                i == j / 8,
                r == j % 8,
        ;
        let g = b.subrange(8 * i, 8 * i + 8);
        assert(spec_u64_to_le_bytes(spec_u64_from_le_bytes(g)) == g);
        assert(g[r] == b[j]);
    }
    assert(le_bytes_of(s) =~= b.take(8 * n as int));
}

/// The character of 6-bit value `v` in the standard Base64 alphabet
/// `A-Z a-z 0-9 + /`.
pub open spec fn base64_digit(v: int) -> char {
    if v < 26 {
        (65 + v) as char
    } else if v < 52 {
        (71 + v) as char
    } else if v < 62 {
        (v - 4) as char
    } else if v == 62 {
        '+'
    } else {
        '/'
    }
}

/// The four characters of the 24-bit group `b0 b1 b2`, high bits first.
pub open spec fn base64_group(b0: int, b1: int, b2: int) -> Seq<char> {
    let n = b0 * 65536 + b1 * 256 + b2;
    seq![base64_digit(n / 262144), base64_digit((n / 4096) % 64), base64_digit((n / 64) % 64), base64_digit(n % 64)]
}

/// The standard-alphabet, padded Base64 text of `data` (RFC 4648): each
/// group of three bytes gives four characters; a final group of one or two
/// bytes is zero-filled, keeps two or three characters and is padded with
/// `=` to four.
pub open spec fn base64_standard(data: Seq<u8>) -> Seq<char>
    decreases data.len(),
{
    if data.len() == 0 {
        Seq::empty()
    } else if data.len() == 1 {
        base64_group(data[0] as int, 0, 0).take(2) + seq!['=', '=']
    } else if data.len() == 2 {
        base64_group(data[0] as int, data[1] as int, 0).take(3) + seq!['=']
    } else {
        base64_group(data[0] as int, data[1] as int, data[2] as int) + base64_standard(data.subrange(3, data.len() as int))
    }
}

/// Base64 output of `n` input bytes fits in `usize`.
pub open spec fn base64_len_fits(n: nat) -> bool {
    base64_len(n) <= usize::MAX
}

/// Length of the padded Base64 text of `n` bytes: four characters for every
/// started group of three bytes.
pub open spec fn base64_len(n: nat) -> nat {
    4 * ((n + 2) / 3)
}

/// The padded Base64 text of `n` bytes has `base64_len(n)` characters.
pub proof fn lemma_base64_standard_len(data: Seq<u8>)
    ensures
        base64_standard(data).len() == base64_len(data.len()),
    decreases data.len(),
{
    if data.len() >= 3 {
        let rest = data.subrange(3, data.len() as int);
        lemma_base64_standard_len(rest);
        assert(base64_len(data.len()) == 4 + base64_len(rest.len()));
    }
}

/// Calls `base64::engine::general_purpose::STANDARD.encode`. Claimed: the
/// result is the standard-alphabet, padded Base64 text of `data`, which is
/// what the `STANDARD` engine (standard alphabet, padding on) produces. The
/// encoder panics when the output length overflows `usize`, which `requires`
/// leaves out.
#[verifier::external_body]
fn standard_encode(data: &[u8]) -> (r: String)
    requires
        base64_len_fits(data@.len()),
    ensures
        r@ == base64_standard(data@),
{
    base64::engine::general_purpose::STANDARD.encode(data)
}

/// Batch codecs.
pub struct SIMDSerializer;

impl SIMDSerializer {
    /// Concatenates the little-endian bytes of every value of `data`.
    pub fn serialize_u64_batch(data: &[u64]) -> (r: Vec<u8>)
        ensures
            r@ == le_bytes_of(data@),
    {
        // A slice occupies at most `usize::MAX` bytes, so its byte length
        // `8 * len` fits in `usize`.
        let byte_len = std::mem::size_of_val(data);
        proof {
            broadcast use vstd::layout::layout_of_slices, vstd::layout::layout_of_primitives;
            assert(byte_len == 8 * data@.len());
        }
        let mut result: Vec<u8> = Vec::with_capacity(byte_len);
        let mut i: usize = 0;
        while i < data.len()
            invariant
                i <= data@.len(),
                result@ == le_bytes_of(data@.take(i as int)),
            decreases data@.len() - i,
        {
            let value = data[i];
            let bytes = u64_to_le_bytes(value);
            result.extend_from_slice(bytes.as_slice());
            proof {
                lemma_le_bytes_push(data@.take(i as int), value);
                assert(data@.take(i as int).push(value) =~= data@.take(i + 1));
            }
            i = i + 1;
        }
        assert(data@.take(data@.len() as int) =~= data@);
        result
    }

    /// Reads one `u64` from each whole 8-byte little-endian group of `data`;
    /// trailing bytes that do not fill a group are ignored.
    pub fn deserialize_u64_batch(data: &[u8]) -> (r: Vec<u64>)
        ensures
            r@ == u64s_from_le(data@),
    {
        let data_len = data.len();
        let count = data_len / 8;
        let mut result: Vec<u64> = Vec::with_capacity(count);
        let mut i: usize = 0;
        while i < count
            invariant
                data_len == data@.len(),
                count == data_len / 8,
                i <= count,
                result@ == u64s_from_le(data@).take(i as int),
            decreases count - i,
        {
            assert(8 * i + 8 <= data_len) by (nonlinear_arith)
                requires
                    i < count,
                    count == data_len / 8,
            ;
            let offset = i * 8;
            let group = &data[offset..offset + 8];
            let value = u64_from_le_bytes(group);
            result.push(value);
            proof {
                assert(u64s_from_le(data@).take(i + 1) =~= u64s_from_le(data@).take(i as int).push(value));
            }
            i = i + 1;
        }
        assert(u64s_from_le(data@).take(count as int) =~= u64s_from_le(data@));
        result
    }

    /// Standard-alphabet, padded Base64 text of `data`.
    pub fn encode_base64_simd(data: &[u8]) -> (r: String)
        requires
            base64_len_fits(data@.len()),
        ensures
            r@ == base64_standard(data@),
            r@.len() == base64_len(data@.len()),
    {
        proof {
            lemma_base64_standard_len(data@);
        }
        standard_encode(data)
    }
}

} // verus!
