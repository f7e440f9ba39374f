use sol_trade_sdk::perf::simd::SIMDSerializer;
use sol_trade_sdk::perf::simd::SIMDHash;
use sol_trade_sdk::perf::simd::SIMDMath;
use sol_trade_sdk::perf::simd::SIMDIterator;

#[test]
fn test_simd_math() {
    let a = vec![1u64, 2, 3, 4];
    let b = vec![5u64, 6, 7, 8];
    let mut result = vec![0u64; 4];

    SIMDMath::add_u64_batch(&a, &b, &mut result);

    assert_eq!(result, vec![6, 8, 10, 12]);
}

#[test]
fn add_batch_wraps_and_handles_the_tail() {
    let a = vec![u64::MAX, 1, 2, 3, 4, 5];
    let b = vec![2u64, 1, 1, 1, 1, u64::MAX];
    let mut result = vec![0u64; 6];
    SIMDMath::add_u64_batch(&a, &b, &mut result);
    assert_eq!(result, vec![1, 2, 3, 4, 5, 4]);
}

#[test]
fn max_and_min_of_a_batch() {
    let data = [5u64, 1, 9, 3, 9, 0, 7];
    assert_eq!(SIMDMath::max_u64_batch(&data), 9);
    assert_eq!(SIMDMath::min_u64_batch(&data), 0);
    assert_eq!(SIMDMath::max_u64_batch(&[]), 0);
    assert_eq!(SIMDMath::min_u64_batch(&[]), 0);
    assert_eq!(SIMDMath::max_u64_batch(&[42]), 42);
    assert_eq!(SIMDMath::min_u64_batch(&[42]), 42);
}

#[test]
fn test_fast_hash() {
    let data = b"hello world";
    let hash1 = SIMDHash::fast_hash_u64(data);
    let hash2 = SIMDHash::fast_hash_u64(data);

    assert_eq!(hash1, hash2);
}

#[test]
fn fast_hash_is_fnv1a() {
    assert_eq!(SIMDHash::fast_hash_u64(b""), 0xcbf29ce484222325);
    assert_eq!(SIMDHash::fast_hash_u64(b"a"), 0xaf63dc4c8601ec8c);
    assert_eq!(SIMDHash::fast_hash_u64(b"hello world"), 0x779a65e7023cd2e7);
}

#[test]
fn sha256_batch_hashes_each_item() {
    let items: [&[u8]; 2] = [b"abc", b""];
    let digests = SIMDHash::hash_batch_sha256(&items);
    assert_eq!(digests.len(), 2);
    let hex = |d: &[u8; 32]| d.iter().map(|b| format!("{:02x}", b)).collect::<String>();
    assert_eq!(hex(&digests[0]), "ba7816bf8f01cfea414140de5dae2223b00361a396177a9cb410ff61f20015ad");
    assert_eq!(hex(&digests[1]), "e3b0c44298fc1c149afbf4c8996fb92427ae41e4649b934ca495991b7852b855");
    assert!(SIMDHash::hash_batch_sha256(&[]).is_empty());
}

#[test]
fn u64_batch_is_little_endian() {
    let bytes = SIMDSerializer::serialize_u64_batch(&[1, 0x0102030405060708]);
    assert_eq!(bytes, vec![1, 0, 0, 0, 0, 0, 0, 0, 8, 7, 6, 5, 4, 3, 2, 1]);
}

#[test]
fn u64_batch_round_trips() {
    let values = vec![0u64, 1, u64::MAX, 0xdead_beef_cafe_babe];
    let bytes = SIMDSerializer::serialize_u64_batch(&values);
    assert_eq!(bytes.len(), 32);
    assert_eq!(SIMDSerializer::deserialize_u64_batch(&bytes), values);
}

#[test]
fn deserialize_ignores_a_trailing_partial_group() {
    let mut bytes = SIMDSerializer::serialize_u64_batch(&[7, 8]);
    bytes.extend_from_slice(&[1, 2, 3]);
    assert_eq!(SIMDSerializer::deserialize_u64_batch(&bytes), vec![7, 8]);
    assert!(SIMDSerializer::deserialize_u64_batch(&[1, 2, 3]).is_empty());
    let again = SIMDSerializer::serialize_u64_batch(&SIMDSerializer::deserialize_u64_batch(&bytes));
    assert_eq!(&again[..], &bytes[..16]);
}

#[test]
fn base64_batch_encoder_uses_the_standard_alphabet() {
    assert_eq!(SIMDSerializer::encode_base64_simd(b"Hello, World!"), "SGVsbG8sIFdvcmxkIQ==");
    assert_eq!(SIMDSerializer::encode_base64_simd(b""), "");
}

#[test]
fn map_applies_the_function_in_order() {
    let data = [1u32, 2, 3];
    assert_eq!(SIMDIterator::parallel_map(&data, |x| x * 10), vec![10, 20, 30]);
    assert!(SIMDIterator::parallel_map(&[] as &[u32], |x| x + 1).is_empty());
}

#[test]
fn filter_keeps_matching_items_in_order() {
    let data = [5u32, 2, 8, 1, 9, 4];
    assert_eq!(SIMDIterator::parallel_filter(&data, |x| *x > 4), vec![5, 8, 9]);
    assert!(SIMDIterator::parallel_filter(&data, |_| false).is_empty());
}
