use vstd::prelude::*;

verus! {

/// Batch arithmetic over `u64` slices.
pub struct SIMDMath;

impl SIMDMath {
    /// Adds `a` and `b` lane by lane, wrapping on overflow, into `result`.
    ///
    /// The three slices must have the same length (the lanes are paired by
    /// index). Four lanes are handled per step, then the tail one by one.
    pub fn add_u64_batch(a: &[u64], b: &[u64], result: &mut [u64])
        requires
            a@.len() == b@.len(),
            a@.len() == old(result)@.len(),
        ensures
            final(result)@.len() == a@.len(),
            forall|i: int| 0 <= i < a@.len() ==> #[trigger] final(result)@[i] == a@[i].wrapping_add(b@[i]),
    {
        let len = a.len();
        let mut i: usize = 0;
        while len - i >= 4
            invariant
                len == a@.len(),
                a@.len() == b@.len(),
                result@.len() == len,
                i <= len,
                forall|j: int| 0 <= j < i ==> #[trigger] result@[j] == a@[j].wrapping_add(b@[j]),
            decreases len - i,
        {
            result[i] = a[i].wrapping_add(b[i]);
            result[i + 1] = a[i + 1].wrapping_add(b[i + 1]);
            result[i + 2] = a[i + 2].wrapping_add(b[i + 2]);
            result[i + 3] = a[i + 3].wrapping_add(b[i + 3]);
            i = i + 4;
        }
        while i < len
            invariant
                len == a@.len(),
                a@.len() == b@.len(),
                result@.len() == len,
                i <= len,
                forall|j: int| 0 <= j < i ==> #[trigger] result@[j] == a@[j].wrapping_add(b@[j]),
            decreases len - i,
        {
            result[i] = a[i].wrapping_add(b[i]);
            i = i + 1;
        }
    }

    /// The largest value of `data`, or `0` when `data` is empty.
    pub fn max_u64_batch(data: &[u64]) -> (r: u64)
        ensures
            data@.len() == 0 ==> r == 0,
            data@.len() > 0 ==> data@.contains(r),
            forall|i: int| 0 <= i < data@.len() ==> #[trigger] data@[i] <= r,
    {
        if data.len() == 0 {
            return 0;
        }
        let mut max = data[0];
        let mut k: usize = 0;
        let mut i: usize = 1;
        while i < data.len()
            invariant
                1 <= i <= data@.len(),
                k < i,
                max == data@[k as int],
                forall|j: int| 0 <= j < i ==> #[trigger] data@[j] <= max,
            decreases data@.len() - i,
        {
            let val = data[i];
            if val > max {
                max = val;
                k = i;
            }
            i = i + 1;
        }
        assert(data@[k as int] == max);
        max
    }

    /// The smallest value of `data`, or `0` when `data` is empty.
    pub fn min_u64_batch(data: &[u64]) -> (r: u64)
        ensures
            data@.len() == 0 ==> r == 0,
            data@.len() > 0 ==> data@.contains(r),
            forall|i: int| 0 <= i < data@.len() ==> r <= #[trigger] data@[i],
    {
        if data.len() == 0 {
            return 0;
        }
        let mut min = data[0];
        let mut k: usize = 0;
        let mut i: usize = 1;
        while i < data.len()
            invariant
                1 <= i <= data@.len(),
                k < i,
                min == data@[k as int],
                forall|j: int| 0 <= j < i ==> min <= #[trigger] data@[j],
            decreases data@.len() - i,
        {
            let val = data[i];
            if val < min {
                min = val;
                k = i;
            }
            i = i + 1;
        }
        assert(data@[k as int] == min);
        min
    }
}

} // verus!
