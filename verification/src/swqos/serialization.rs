//! Pooled serialization buffers and the text encodings of serialized
//! transactions.

use vstd::prelude::*;
use std::sync::Arc;
use crossbeam_queue::ArrayQueue;
use crate::perf::simd::codec::{SIMDSerializer, base64_standard, base64_len, base64_len_fits};

verus! {

/// `crossbeam_queue::ArrayQueue<T>`: a bounded multi-producer
/// multi-consumer queue.
#[verifier::external_type_specification]
#[verifier::external_body]
#[verifier::reject_recursive_types(T)]
pub struct ExArrayQueue<T>(ArrayQueue<T>);

/// The capacity a queue of byte buffers was created with.
pub uninterp spec fn queue_capacity(q: ArrayQueue<Vec<u8>>) -> nat;

/// Calls `ArrayQueue::new(cap)`. Claimed: the queue has capacity `cap`. The
/// constructor panics for a zero capacity and for one whose successor has no
/// power of two in `usize`; `requires` leaves both out.
#[verifier::external_body]
fn queue_new(cap: usize) -> (q: ArrayQueue<Vec<u8>>)
    requires
        0 < cap <= usize::MAX / 2,
    ensures
        queue_capacity(q) == cap,
{
    ArrayQueue::new(cap)
}

/// Calls `ArrayQueue::push`. Claimed: when the queue is full the buffer is
/// handed back unchanged. Whether it was full depends on other threads, so
/// which outcome comes is not stated.
#[verifier::external_body]
fn queue_push(q: &ArrayQueue<Vec<u8>>, value: Vec<u8>) -> (r: Result<(), Vec<u8>>)
    ensures
        r matches Err(back) ==> back@ == value@,
{
    q.push(value)
}

/// Calls `ArrayQueue::pop`. Nothing is claimed: what comes out depends on
/// what other threads pushed and popped.
#[verifier::external_body]
fn queue_pop(q: &ArrayQueue<Vec<u8>>) -> Option<Vec<u8>> {
    q.pop()
}

/// Calls `ArrayQueue::len`. Claimed: the count never exceeds the capacity
/// (the source computes it from two slot indices below the capacity).
#[verifier::external_body]
fn queue_len(q: &ArrayQueue<Vec<u8>>) -> (r: usize)
    ensures
        r <= queue_capacity(*q),
{
    q.len()
}

/// Calls `ArrayQueue::capacity`. Claimed: it is the capacity the queue was
/// created with.
#[verifier::external_body]
fn queue_capacity_of(q: &ArrayQueue<Vec<u8>>) -> (r: usize)
    ensures
        r == queue_capacity(*q),
{
    q.capacity()
}

/// Serializer that reuses byte buffers from a bounded pool.
pub struct ZeroAllocSerializer {
    buffer_pool: Arc<ArrayQueue<Vec<u8>>>,
    buffer_size: usize,
    /// The buffers handed to the pool when it was created, in order.
    prefill: Ghost<Seq<Seq<u8>>>,
}

/// Every slot of a new pool is offered a zeroed buffer of the pool's buffer
/// size: for a pool of `n` slots and buffers of `size` bytes, `n` buffers,
/// each of `size` zero bytes.
pub proof fn law_prefill_fills_every_slot(n: nat, size: nat)
    ensures
        zeroed_buffers(n, size).len() == n,
        forall|i: int| 0 <= i < n ==> (#[trigger] zeroed_buffers(n, size)[i]).len() == size,
        forall|i: int, j: int| 0 <= i < n && 0 <= j < size ==> #[trigger] zeroed_buffers(n, size)[i][j] == 0u8,
{
}

/// `count` zero-filled buffers of `size` bytes each.
pub open spec fn zeroed_buffers(count: nat, size: nat) -> Seq<Seq<u8>> {
    Seq::new(count, |i: int| Seq::new(size, |j: int| 0u8))
}

impl ZeroAllocSerializer {
    /// Number of buffers the pool can hold.
    pub closed spec fn pool_capacity(&self) -> nat {
        queue_capacity(*self.buffer_pool)
    }

    /// Size of a freshly allocated buffer.
    pub closed spec fn buffer_size(&self) -> nat {
        self.buffer_size as nat
    }

    /// The buffers pushed into the pool when it was created, in order.
    pub closed spec fn prefilled(&self) -> Seq<Seq<u8>> {
        self.prefill@
    }

    /// A serializer whose pool holds up to `pool_size` buffers, filled with
    /// zeroed buffers of `buffer_size` bytes: one buffer is pushed for every
    /// slot of the pool.
    pub fn new(pool_size: usize, buffer_size: usize) -> (s: Self)
        requires
            0 < pool_size <= usize::MAX / 2,
        ensures
            s.pool_capacity() == pool_size,
            s.buffer_size() == buffer_size,
            s.prefilled() == zeroed_buffers(pool_size as nat, buffer_size as nat),
    {
        let pool = queue_new(pool_size);
        let ghost mut pushed: Seq<Seq<u8>> = Seq::empty();
        let mut i: usize = 0;
        while i < pool_size
            invariant
                i <= pool_size,
                queue_capacity(pool) == pool_size,
                pushed == zeroed_buffers(i as nat, buffer_size as nat),
            decreases pool_size - i,
        {
            let buffer: Vec<u8> = vec![0u8; buffer_size];
            proof {
                assert(buffer@ =~= Seq::new(buffer_size as nat, |j: int| 0u8));
                pushed = pushed.push(buffer@);
                assert(pushed =~= zeroed_buffers((i + 1) as nat, buffer_size as nat));
            }
            let _ = queue_push(&pool, buffer);
            i = i + 1;
        }
        ZeroAllocSerializer { buffer_pool: Arc::new(pool), buffer_size, prefill: Ghost(pushed) }
    }

    /// Places already-serialized bytes into a buffer taken from the pool (or
    /// a fresh one when the pool is empty) and returns it.
    pub fn serialize_zero_alloc(&self, serialized: &[u8], _label: &str) -> (r: Vec<u8>)
        ensures
            r@ == serialized@,
    {
        let mut buffer = match queue_pop(&self.buffer_pool) {
            Some(b) => b,
            None => vec![0u8; self.buffer_size],
        };
        buffer.clear();
        buffer.extend_from_slice(serialized);
        buffer
    }

    /// Offers `buffer` back to the pool; it is dropped when the pool is full.
    pub fn return_buffer(&self, buffer: Vec<u8>) {
        let _ = queue_push(&self.buffer_pool, buffer);
    }

    /// `(available, capacity)`: buffers currently pooled, and the most the
    /// pool can hold.
    pub fn get_pool_stats(&self) -> (r: (usize, usize))
        ensures
            r.0 <= r.1,
            r.1 == self.pool_capacity(),
    {
        let available = queue_len(&self.buffer_pool);
        let capacity = queue_capacity_of(&self.buffer_pool);
        (available, capacity)
    }
}

/// The Base58 text of `data` (Bitcoin alphabet), as the `bs58` crate
/// produces it.
pub uninterp spec fn base58_text(data: Seq<u8>) -> Seq<char>;

/// Base58 output of `n` input bytes fits the encoder's `n + (n + 1) / 2`
/// byte scratch space in `usize`.
pub open spec fn base58_len_fits(n: nat) -> bool {
    n + (n + 1) / 2 <= usize::MAX
}

/// Calls `bs58::encode(data).into_string()`. Claimed: the result is the named
/// Base58 text of `data`. The encoder sizes its output as
/// `n + (n + 1) / 2`, which `requires` keeps in `usize`.
#[verifier::external_body]
fn base58_encode(data: &[u8]) -> (r: String)
    requires
        base58_len_fits(data@.len()),
    ensures
        r@ == base58_text(data@),
{
    bs58::encode(data).into_string()
}

/// Text encodings a serialized transaction can be asked for.
#[derive(Debug, Clone, Copy, PartialEq, Eq, Structural)]
pub enum TransactionEncoding {
    Binary,
    Base64,
    Base58,
    Json,
    JsonParsed,
}

/// Why serialized transactions could not be encoded.
#[derive(Debug, Clone, Copy, PartialEq, Eq, Structural)]
pub enum SerializationError {
    /// Only Base58 and Base64 text is produced.
    UnsupportedEncoding,
}

/// The text of `bytes` under `encoding`, or `None` for an encoding that is
/// not produced.
pub open spec fn encoded_text(bytes: Seq<u8>, encoding: TransactionEncoding) -> Option<Seq<char>> {
    match encoding {
        TransactionEncoding::Base58 => Some(base58_text(bytes)),
        TransactionEncoding::Base64 => Some(base64_standard(bytes)),
        _ => None,
    }
}

/// The encoder chosen by `encoding` can take `n` bytes.
pub open spec fn encoding_fits(n: nat, encoding: TransactionEncoding) -> bool {
    &&& encoding == TransactionEncoding::Base58 ==> base58_len_fits(n)
    &&& encoding == TransactionEncoding::Base64 ==> base64_len_fits(n)
}

/// Base64 front end.
pub struct Base64Encoder;

impl Base64Encoder {
    /// Standard-alphabet, padded Base64 text of `data`.
    pub fn encode(data: &[u8]) -> (r: String)
        requires
            base64_len_fits(data@.len()),
        ensures
            r@ == base64_standard(data@),
            r@.len() == base64_len(data@.len()),
    {
        SIMDSerializer::encode_base64_simd(data)
    }
}

/// Encodes one serialized transaction as Base58 or Base64 text, passing the
/// bytes through a pooled buffer that goes straight back to the pool. Any
/// other encoding is refused; the buffer goes back to the pool then too.
pub fn serialize_transaction(
    serializer: &ZeroAllocSerializer,
    serialized: &[u8],
    encoding: TransactionEncoding,
) -> (r: Result<String, SerializationError>)
    requires
        encoding_fits(serialized@.len(), encoding),
    ensures
        match encoded_text(serialized@, encoding) {
            Some(text) => r matches Ok(s) && s@ == text,
            None => r == Err::<String, SerializationError>(SerializationError::UnsupportedEncoding),
        },
{
    let serialized_tx = serializer.serialize_zero_alloc(serialized, "transaction");
    let text = match encoding {
        TransactionEncoding::Base58 => base58_encode(serialized_tx.as_slice()),
        TransactionEncoding::Base64 => SIMDSerializer::encode_base64_simd(serialized_tx.as_slice()),
        _ => {
            serializer.return_buffer(serialized_tx);
            return Err(SerializationError::UnsupportedEncoding);
        },
    };
    serializer.return_buffer(serialized_tx);
    Ok(text)
}

/// Encodes each serialized transaction in turn, as `serialize_transaction`
/// does. An unsupported encoding is reported at the first transaction, so an
/// empty batch always succeeds.
pub fn serialize_transactions_batch(
    serializer: &ZeroAllocSerializer,
    serialized: &[Vec<u8>],
    encoding: TransactionEncoding,
) -> (r: Result<Vec<String>, SerializationError>)
    requires
        forall|i: int| 0 <= i < serialized@.len() ==> encoding_fits(#[trigger] serialized@[i]@.len(), encoding),
    ensures
        serialized@.len() > 0 && encoded_text(serialized@[0]@, encoding) is None ==> r == Err::<
            Vec<String>,
            SerializationError,
        >(SerializationError::UnsupportedEncoding),
        serialized@.len() == 0 || encoded_text(serialized@[0]@, encoding) is Some ==> (r matches Ok(texts)
            && texts@.len() == serialized@.len()
            && forall|i: int| 0 <= i < serialized@.len() ==> Some(#[trigger] texts@[i]@) == encoded_text(serialized@[i]@, encoding)),
{
    let mut results: Vec<String> = Vec::with_capacity(serialized.len());
    let mut i: usize = 0;
    while i < serialized.len()
        invariant
            i <= serialized@.len(),
            results@.len() == i,
            forall|k: int| 0 <= k < serialized@.len() ==> encoding_fits(#[trigger] serialized@[k]@.len(), encoding),
            i > 0 ==> encoded_text(serialized@[0]@, encoding) is Some,
            forall|k: int| 0 <= k < i ==> Some(#[trigger] results@[k]@) == encoded_text(serialized@[k]@, encoding),
        decreases serialized@.len() - i,
    {
        let encoded = serialize_transaction(serializer, serialized[i].as_slice(), encoding);
        match encoded {
            Ok(text) => {
                results.push(text);
            },
            Err(e) => {
                return Err(e);
            },
        }
        i = i + 1;
    }
    Ok(results)
}

} // verus!
