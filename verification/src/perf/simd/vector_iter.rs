//! Element-wise map and filter over slices of `Copy` values.

use vstd::prelude::*;

verus! {

/// The items of `s` whose flag in `keep` is `true`, in their original order.
pub open spec fn select<T>(s: Seq<T>, keep: Seq<bool>) -> Seq<T>
    decreases s.len(),
{
    if s.len() == 0 {
        Seq::empty()
    } else {
        let rest = select(s.drop_last(), keep.drop_last());
        if keep.last() {
            rest.push(s.last())
        } else {
            rest
        }
    }
}

/// Slice iteration helpers.
pub struct SIMDIterator;

impl SIMDIterator {
    /// Applies `f` to every item, keeping the order.
    pub fn parallel_map<T, F>(data: &[T], f: F) -> (r: Vec<T>)
        where
            T: Copy + Send + Sync,
            F: Fn(T) -> T + Send + Sync,
        requires
            forall|i: int| 0 <= i < data@.len() ==> f.requires((#[trigger] data@[i],)),
        ensures
            r@.len() == data@.len(),
            forall|i: int| 0 <= i < data@.len() ==> f.ensures((data@[i],), #[trigger] r@[i]),
    {
        let mut result: Vec<T> = Vec::with_capacity(data.len());
        let mut i: usize = 0;
        while i < data.len()
            invariant
                i <= data@.len(),
                result@.len() == i,
                forall|k: int| 0 <= k < data@.len() ==> f.requires((#[trigger] data@[k],)),
                forall|k: int| 0 <= k < i ==> f.ensures((data@[k],), #[trigger] result@[k]),
            decreases data@.len() - i,
        {
            let x = data[i];
            let y = f(x);
            result.push(y);
            i = i + 1;
        }
        result
    }

    /// The items for which `predicate` answers `true`, keeping the order.
    pub fn parallel_filter<T, F>(data: &[T], predicate: F) -> (r: Vec<T>)
        where
            T: Copy + Send + Sync,
            F: Fn(&T) -> bool + Send + Sync,
        requires
            forall|i: int| 0 <= i < data@.len() ==> predicate.requires((&#[trigger] data@[i],)),
        ensures
            exists|keep: Seq<bool>|
                {
                    &&& keep.len() == data@.len()
                    &&& forall|i: int|
                        0 <= i < data@.len() ==> predicate.ensures((&data@[i],), #[trigger] keep[i])
                    &&& r@ == select(data@, keep)
                },
    {
        let mut result: Vec<T> = Vec::new();
        let ghost mut keep: Seq<bool> = Seq::empty();
        let mut i: usize = 0;
        while i < data.len()
            invariant
                i <= data@.len(),
                keep.len() == i,
                forall|k: int| 0 <= k < data@.len() ==> predicate.requires((&#[trigger] data@[k],)),
                forall|k: int| 0 <= k < i ==> predicate.ensures((&data@[k],), #[trigger] keep[k]),
                result@ == select(data@.take(i as int), keep),
            decreases data@.len() - i,
        {
            let x = &data[i];
            let b = predicate(x);
            let ghost old_keep = keep;
            if b {
                result.push(*x);
            }
            proof {
                keep = keep.push(b);
                assert(data@.take(i + 1).drop_last() =~= data@.take(i as int));
                assert(keep.drop_last() =~= old_keep);
            }
            i = i + 1;
        }
        assert(data@.take(data@.len() as int) =~= data@);
        result
    }
}

} // verus!
