use vstd::prelude::*;
use vstd::arithmetic::power2::{pow2, lemma2_to64, lemma_pow2_adds, lemma_pow2_pos, lemma_pow2_strictly_increases};
use vstd::arithmetic::div_mod::{lemma_mod_mod, lemma_small_mod, lemma_mod_equivalence, lemma_mod_sub_multiples_vanish, lemma_mod_add_multiples_vanish, lemma_add_mod_noop_right, lemma_add_mod_noop, lemma_sub_mod_noop, lemma_mod_self_0};
use vstd::bits::{low_bits_mask, lemma_u64_low_bits_mask_is_mod};
use aligned::{Aligned, A64};
use crate::perf::hardware_optimizations::cache::{CacheLineAligned, is_cache_line_aligned, line_aligned, line_address};

verus! {

/// `n` is a power of two: `n == 2^k` for some natural `k`.
pub open spec fn power_of_two(n: int) -> bool {
    exists|k: nat| pow2(k) == n
}

/// `usize::is_power_of_two`: std documents that it returns `true` if and only
/// if the value is `2^k` for some natural `k`.
pub assume_specification[ <usize>::is_power_of_two ](x: usize) -> (r: bool)
    ensures
        r == power_of_two(x as int),
;

/// Number of distinct `u64` values; positions wrap modulo this.
pub open spec fn u64_modulus() -> int {
    0x1_0000_0000_0000_0000
}

/// Why a ring buffer could not be created.
#[derive(Debug, Clone, Copy, PartialEq, Eq, Structural)]
pub enum RingBufferError {
    /// The requested capacity is not a power of two (zero included).
    CapacityNotPowerOfTwo,
}

/// Single-owner ring buffer over a power-of-two slot array.
///
/// `producer_head` and `consumer_tail` are free-running `u64` positions that
/// wrap modulo `2^64`; a position `p` lives in slot `p & mask`. One slot is
/// always left unused, so at most `capacity - 1` items are held. The
/// zero-sized 64-byte aligned marker makes the whole buffer start on a cache
/// line.
pub struct CacheOptimizedRingBuffer<T> {
    line: Aligned<A64, ()>,
    buffer: Vec<T>,
    producer_head: u64,
    consumer_tail: u64,
    capacity: usize,
    mask: usize,
}

impl<T> CacheOptimizedRingBuffer<T> {
    /// Number of slots the buffer was created with.
    pub closed spec fn capacity(&self) -> nat {
        self.capacity as nat
    }

    /// Number of items held: the distance from tail to head modulo `2^64`.
    pub closed spec fn count(&self) -> nat {
        ((self.producer_head as int - self.consumer_tail as int) % u64_modulus()) as nat
    }

    /// Slot index of the item `i` places after the tail.
    closed spec fn slot_of(&self, i: int) -> int {
        (self.consumer_tail as int + i) % (self.capacity as int)
    }

    /// The queued items, oldest first.
    pub closed spec fn view(&self) -> Seq<T> {
        Seq::new(self.count(), |i: int| self.buffer@[self.slot_of(i)])
    }

    /// Well-formedness: the capacity is a power of two below `2^64`, the mask
    /// is `capacity - 1`, every slot exists, and fewer than `capacity` items
    /// are held.
    pub closed spec fn wf(&self) -> bool {
        &&& exists|k: nat| k < 64 && pow2(k) == self.capacity
        &&& self.mask == self.capacity - 1
        &&& self.buffer@.len() == self.capacity
        &&& self.count() < self.capacity
    }
}

/// Masking a `u64` with `2^k - 1` keeps its remainder modulo `2^k`.
proof fn lemma_mask_is_mod(x: u64, cap: int, k: nat)
    requires
        k < 64,
        pow2(k) == cap,
    ensures
        0 < cap < u64_modulus(),
        x & ((cap - 1) as u64) == x % (cap as u64),
{
    lemma_pow2_pos(k);
    lemma2_to64();
    lemma_pow2_strictly_increases(k, 64);
    lemma_u64_low_bits_mask_is_mod(x, k);
    assert(low_bits_mask(k) == cap - 1);
}

/// A power of two below `2^64` divides `2^64`, so reducing modulo `2^64`
/// first does not change the remainder modulo it.
proof fn lemma_wrap_then_mod(y: int, cap: int, k: nat)
    requires
        k < 64,
        pow2(k) == cap,
    ensures
        (y % u64_modulus()) % cap == y % cap,
{
    lemma_pow2_pos(k);
    lemma_pow2_pos((64 - k) as nat);
    lemma2_to64();
    lemma_pow2_adds(k, (64 - k) as nat);
    assert(k + (64 - k) as nat == 64);
    lemma_mod_mod(y, cap, pow2((64 - k) as nat) as int);
}

/// `wrapping_add` on `u64` is addition modulo `2^64`.
proof fn lemma_wrapping_add(x: u64, y: u64)
    ensures
        x.wrapping_add(y) as int == (x + y) % u64_modulus(),
{
    let m = u64_modulus();
    if x + y >= m {
        lemma_mod_sub_multiples_vanish(x + y, m);
        lemma_small_mod((x + y - m) as nat, m as nat);
    } else {
        lemma_small_mod((x + y) as nat, m as nat);
    }
}

/// `wrapping_sub` on `u64` is subtraction modulo `2^64`.
proof fn lemma_wrapping_sub(x: u64, y: u64)
    ensures
        x.wrapping_sub(y) as int == (x - y) % u64_modulus(),
{
    let m = u64_modulus();
    if x - y < 0 {
        lemma_mod_add_multiples_vanish(x - y, m);
        lemma_small_mod((x - y + m) as nat, m as nat);
    } else {
        lemma_small_mod((x - y) as nat, m as nat);
    }
}

/// Two items less than `cap` places apart sit in different slots.
proof fn lemma_slots_distinct(t: int, i: int, j: int, cap: int)
    requires
        0 <= i < j < cap,
    ensures
        (t + i) % cap != (t + j) % cap,
{
    lemma_mod_equivalence(t + j, t + i, cap);
    assert(t + j - (t + i) == j - i);
    lemma_small_mod((j - i) as nat, cap as nat);
}

/// `(x + d) % m` equals `x % m` exactly when `d` is a multiple of `m`.
proof fn lemma_shift_mod(x: int, d: int, m: int)
    requires
        0 < m,
    ensures
        (x + d) % m == x % m <==> d % m == 0,
{
    lemma_mod_equivalence(x + d, x, m);
    assert(x + d - x == d);
}

impl<T> CacheOptimizedRingBuffer<T> {
    /// The head position is the tail advanced by the item count, modulo `2^64`.
    proof fn lemma_head_is_tail_plus_count(&self)
        requires
            self.wf(),
        ensures
            self.producer_head as int == (self.consumer_tail as int + self.count()) % u64_modulus(),
    {
        let m = u64_modulus();
        let h = self.producer_head as int;
        let t = self.consumer_tail as int;
        lemma_add_mod_noop_right(t, h - t, m);
        assert(t + (h - t) == h);
        lemma_small_mod(h as nat, m as nat);
    }
}

impl<T: Copy + Default> CacheOptimizedRingBuffer<T> {
    /// Creates an empty ring buffer with `capacity` slots.
    ///
    /// Fails unless `capacity` is a power of two (zero is not one).
    pub fn new(capacity: usize) -> (r: Result<Self, RingBufferError>)
        ensures
            match r {
                Ok(rb) => {
                    &&& power_of_two(capacity as int)
                    &&& rb.wf()
                    &&& rb.capacity() == capacity
                    &&& rb@ == Seq::<T>::empty()
                },
                Err(e) => {
                    &&& !power_of_two(capacity as int)
                    &&& e == RingBufferError::CapacityNotPowerOfTwo
                },
            },
    {
        if !capacity.is_power_of_two() {
            return Err(RingBufferError::CapacityNotPowerOfTwo);
        }
        proof {
            let k = choose|k: nat| pow2(k) == capacity;
            lemma2_to64();
            if k > 64 {
                lemma_pow2_strictly_increases(64, k);
            }
            assert(k < 64);
            lemma_pow2_pos(k);
        }
        let mut buffer: Vec<T> = Vec::with_capacity(capacity);
        let mut i: usize = 0;
        while i < capacity
            invariant
                i <= capacity,
                buffer@.len() == i,
            decreases capacity - i,
        {
            buffer.push(T::default());
            i = i + 1;
        }
        let rb = CacheOptimizedRingBuffer {
            line: line_aligned(()),
            buffer,
            producer_head: 0,
            consumer_tail: 0,
            capacity,
            mask: capacity - 1,
        };
        assert(rb.count() == 0);
        assert(rb@ =~= Seq::<T>::empty());
        Ok(rb)
    }

    /// Appends `item` at the head unless the buffer already holds
    /// `capacity - 1` items; returns whether it was stored.
    pub fn try_push(&mut self, item: T) -> (pushed: bool)
        requires
            old(self).wf(),
        ensures
            final(self).wf(),
            final(self).capacity() == old(self).capacity(),
            pushed == (old(self)@.len() + 1 < old(self).capacity()),
            pushed ==> final(self)@ == old(self)@.push(item),
            !pushed ==> final(self)@ == old(self)@,
    {
        let current_head = self.producer_head;
        let current_tail = self.consumer_tail;
        let mask = self.mask as u64;
        let next_head = current_head.wrapping_add(1);
        let ghost t = current_tail as int;
        let ghost n = self.count() as int;
        let ghost cap = self.capacity as int;
        let ghost m = u64_modulus();
        let ghost k = choose|k: nat| k < 64 && pow2(k) == self.capacity;
        proof {
            self.lemma_head_is_tail_plus_count();
            lemma_mask_is_mod(next_head, cap, k);
            lemma_mask_is_mod(current_tail, cap, k);
            lemma_mask_is_mod(current_head, cap, k);
            lemma_wrapping_add(current_head, 1);
            // next_head == (t + n + 1) % 2^64
            lemma_add_mod_noop(t + n, 1, m);
            lemma_small_mod(1, m as nat);
            assert(next_head as int == (t + n + 1) % m);
            lemma_wrap_then_mod(t + n + 1, cap, k);
            lemma_wrap_then_mod(t + n, cap, k);
            lemma_shift_mod(t, n + 1, cap);
            assert(t + (n + 1) == t + n + 1);
            if n + 1 < cap {
                lemma_small_mod((n + 1) as nat, cap as nat);
            } else {
                lemma_mod_self_0(cap);
            }
        }
        if next_head & mask == current_tail & mask {
            return false;
        }
        let index = current_head & mask;
        let ghost old_self = *self;
        self.buffer[index as usize] = item;
        self.producer_head = next_head;
        proof {
            // the new count is n + 1
            lemma_sub_mod_noop(t + n + 1, t, m);
            lemma_small_mod(t as nat, m as nat);
            assert(t + n + 1 - t == n + 1);
            lemma_small_mod((n + 1) as nat, m as nat);
            assert(self.count() == n + 1);
            assert forall|i: int| 0 <= i < n implies #[trigger] self.slot_of(i) != index as int by {
                lemma_slots_distinct(t, i, n, cap);
            }
            assert(self@ =~= old_self@.push(item));
        }
        true
    }

    /// Removes and returns the oldest item, or `None` when empty.
    pub fn try_pop(&mut self) -> (r: Option<T>)
        requires
            old(self).wf(),
        ensures
            final(self).wf(),
            final(self).capacity() == old(self).capacity(),
            old(self)@.len() == 0 ==> r is None && final(self)@ == old(self)@,
            old(self)@.len() > 0 ==> r == Some(old(self)@[0]) && final(self)@ == old(self)@.drop_first(),
    {
        let current_tail = self.consumer_tail;
        let current_head = self.producer_head;
        let ghost t = current_tail as int;
        let ghost n = self.count() as int;
        let ghost cap = self.capacity as int;
        let ghost m = u64_modulus();
        let ghost k = choose|k: nat| k < 64 && pow2(k) == self.capacity;
        proof {
            self.lemma_head_is_tail_plus_count();
            lemma_mask_is_mod(current_tail, cap, k);
            lemma_shift_mod(t, n, m);
            lemma_small_mod(t as nat, m as nat);
            if n > 0 {
                lemma_small_mod(n as nat, m as nat);
            }
        }
        if current_tail == current_head {
            return None;
        }
        let index = current_tail & self.mask as u64;
        let item = self.buffer[index as usize];
        let next_tail = current_tail.wrapping_add(1);
        let ghost old_self = *self;
        self.consumer_tail = next_tail;
        proof {
            lemma_wrapping_add(current_tail, 1);
            lemma_small_mod(1, m as nat);
            // the new count is n - 1
            lemma_sub_mod_noop(t + n, t + 1, m);
            assert(t + n - (t + 1) == n - 1);
            lemma_small_mod((n - 1) as nat, m as nat);
            assert(self.count() == n - 1);
            assert forall|i: int| 0 <= i < n - 1 implies #[trigger] self.slot_of(i) == old_self.slot_of(i + 1) by {
                let a = next_tail as int;
                lemma_add_mod_noop_right(i, a, cap);
                lemma_add_mod_noop_right(i, t + 1, cap);
                lemma_wrap_then_mod(t + 1, cap, k);
                assert(a + i == i + a);
                assert(i + (t + 1) == t + (i + 1));
            }
            assert(self@ =~= old_self@.drop_first());
        }
        Some(item)
    }

    /// Number of items held.
    pub fn len(&self) -> (n: usize)
        requires
            self.wf(),
        ensures
            n == self@.len(),
    {
        let head = self.producer_head;
        let tail = self.consumer_tail;
        let span = head.wrapping_add(self.capacity as u64).wrapping_sub(tail);
        let ghost t = tail as int;
        let ghost h = head as int;
        let ghost n = self.count() as int;
        let ghost cap = self.capacity as int;
        let ghost m = u64_modulus();
        let ghost k = choose|k: nat| k < 64 && pow2(k) == self.capacity;
        proof {
            lemma_mask_is_mod(span, cap, k);
            lemma_wrapping_add(head, self.capacity as u64);
            lemma_wrapping_sub(head.wrapping_add(self.capacity as u64), tail);
            // span == (h + cap - t) % 2^64
            lemma_sub_mod_noop(h + cap, t, m);
            lemma_small_mod(t as nat, m as nat);
            assert(span as int == (h + cap - t) % m);
            lemma_wrap_then_mod(h + cap - t, cap, k);
            lemma_wrap_then_mod(h - t, cap, k);
            lemma_mod_add_multiples_vanish(h - t, cap);
            assert(h - t + cap == h + cap - t);
            lemma_small_mod(n as nat, cap as nat);
        }
        (span & self.mask as u64) as usize
    }

    /// Whether the buffer holds no item.
    pub fn is_empty(&self) -> (b: bool)
        requires
            self.wf(),
        ensures
            b == (self@.len() == 0),
    {
        proof {
            self.lemma_head_is_tail_plus_count();
            let t = self.consumer_tail as int;
            let n = self.count() as int;
            lemma_shift_mod(t, n, u64_modulus());
            lemma_small_mod(t as nat, u64_modulus() as nat);
            if n > 0 {
                lemma_small_mod(n as nat, u64_modulus() as nat);
            }
        }
        self.producer_head == self.consumer_tail
    }
}

/// First in, first out: a pushed item comes out after every item already
/// queued, and the queued items come out in their order.
pub proof fn law_ring_fifo<T>(q: Seq<T>, x: T)
    ensures
        q.len() == 0 ==> q.push(x)[0] == x && q.push(x).drop_first() == q,
        q.len() > 0 ==> q.push(x)[0] == q[0] && q.push(x).drop_first() == q.drop_first().push(x),
{
    if q.len() == 0 {
        assert(q.push(x).drop_first() =~= q);
    } else {
        assert(q.push(x).drop_first() =~= q.drop_first().push(x));
    }
}

/// A well-formed ring buffer always holds fewer items than its capacity, so
/// one slot stays free.
pub proof fn law_ring_bounded<T>(rb: &CacheOptimizedRingBuffer<T>)
    requires
        rb.wf(),
    ensures
        rb@.len() < rb.capacity(),
{
}

impl<T> CacheLineAligned for CacheOptimizedRingBuffer<T> {
    /// Whether the buffer's aligned marker starts on a cache line; the
    /// marker is 64-byte aligned, so it always does.
    fn ensure_cache_aligned(&self) -> (r: bool)
        ensures
            r,
    {
        is_cache_line_aligned(line_address(&self.line))
    }
}

} // verus!
