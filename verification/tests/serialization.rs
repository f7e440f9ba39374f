use base64::engine::general_purpose::STANDARD;
use base64::Engine;
use sol_trade_sdk::swqos::serialization::{
    serialize_transaction, serialize_transactions_batch, Base64Encoder, SerializationError,
    TransactionEncoding, ZeroAllocSerializer,
};

#[test]
fn test_base64_encode() {
    let data = b"Hello, World!";
    let encoded = Base64Encoder::encode(data);
    assert!(!encoded.is_empty());

    let decoded = STANDARD.decode(&encoded).unwrap();
    assert_eq!(&decoded[..data.len()], data);
}

#[test]
fn test_serializer_stats() {
    let serializer = ZeroAllocSerializer::new(10_000, 256 * 1024);
    let (available, capacity) = serializer.get_pool_stats();
    assert!(available <= capacity);
    assert_eq!(capacity, 10_000);
}

#[test]
fn base64_encoder_gives_exact_text() {
    assert_eq!(Base64Encoder::encode(b"Hello, World!"), "SGVsbG8sIFdvcmxkIQ==");
    assert_eq!(Base64Encoder::encode(b"M"), "TQ==");
    assert_eq!(Base64Encoder::encode(b"Ma"), "TWE=");
    assert_eq!(Base64Encoder::encode(b"Man"), "TWFu");
    assert_eq!(Base64Encoder::encode(&[0xfb, 0xff, 0xbf]), "+/+/");
}

#[test]
fn pool_stats_report_available_and_capacity() {
    let serializer = ZeroAllocSerializer::new(4, 16);
    let (available, capacity) = serializer.get_pool_stats();
    assert!(available <= capacity);
    assert_eq!(capacity, 4);
    assert_eq!(available, 4);

    let buffer = serializer.serialize_zero_alloc(&[1, 2, 3], "label");
    assert_eq!(buffer, vec![1, 2, 3]);
    assert_eq!(serializer.get_pool_stats(), (3, 4));

    serializer.return_buffer(buffer);
    assert_eq!(serializer.get_pool_stats(), (4, 4));
    serializer.return_buffer(vec![0; 16]);
    assert_eq!(serializer.get_pool_stats(), (4, 4));
}

#[test]
fn empty_pool_allocates_a_fresh_buffer() {
    let serializer = ZeroAllocSerializer::new(1, 8);
    let first = serializer.serialize_zero_alloc(&[9], "a");
    let second = serializer.serialize_zero_alloc(&[7, 7], "b");
    assert_eq!(first, vec![9]);
    assert_eq!(second, vec![7, 7]);
    assert_eq!(serializer.get_pool_stats(), (0, 1));
}

#[test]
fn transaction_text_in_base58_and_base64() {
    let serializer = ZeroAllocSerializer::new(2, 8);
    assert_eq!(
        serialize_transaction(&serializer, b"Hello World!", TransactionEncoding::Base58),
        Ok("2NEpo7TZRRrLZSi2U".to_string())
    );
    assert_eq!(
        serialize_transaction(&serializer, &[0, 0, 1], TransactionEncoding::Base58),
        Ok("112".to_string())
    );
    assert_eq!(
        serialize_transaction(&serializer, b"Hello, World!", TransactionEncoding::Base64),
        Ok("SGVsbG8sIFdvcmxkIQ==".to_string())
    );
    assert_eq!(serializer.get_pool_stats(), (2, 2));
}

#[test]
fn other_encodings_are_refused() {
    let serializer = ZeroAllocSerializer::new(2, 8);
    for encoding in [TransactionEncoding::Binary, TransactionEncoding::Json, TransactionEncoding::JsonParsed] {
        assert_eq!(
            serialize_transaction(&serializer, &[1, 2], encoding),
            Err(SerializationError::UnsupportedEncoding)
        );
    }
    assert_eq!(serializer.get_pool_stats(), (2, 2));
}

#[test]
fn batch_encodes_each_transaction() {
    let serializer = ZeroAllocSerializer::new(2, 8);
    let txs = vec![vec![1u8, 2, 3], b"Hello World!".to_vec()];
    assert_eq!(
        serialize_transactions_batch(&serializer, &txs, TransactionEncoding::Base58),
        Ok(vec!["Ldp".to_string(), "2NEpo7TZRRrLZSi2U".to_string()])
    );
    assert_eq!(
        serialize_transactions_batch(&serializer, &txs, TransactionEncoding::Json),
        Err(SerializationError::UnsupportedEncoding)
    );
    assert_eq!(
        serialize_transactions_batch(&serializer, &[], TransactionEncoding::Json),
        Ok(vec![])
    );
}
