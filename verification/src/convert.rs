//! The narrowing conversion applied once at the mix-to-output boundary:
//! the engine accumulates in `i64` and converts each finished sample to
//! the session's output numeric type.

use vstd::prelude::*;

verus! {

/// A lossy numeric conversion: the counterpart of `From` for narrowing
/// casts, with `as`-truncation semantics pinned by `lossy_spec`.
pub trait LossyFrom<T>: Sized {
    /// What the conversion returns, as contracts see it.
    spec fn lossy_spec(v: T) -> Self;

    /// Converts, truncating as the `as` operator does.
    fn lossy_from(v: T) -> (r: Self)
        ensures
            r == Self::lossy_spec(v),
    ;
}

impl LossyFrom<i64> for i16 {
    open spec fn lossy_spec(v: i64) -> i16 {
        v as i16
    }

    fn lossy_from(v: i64) -> (r: i16) {
        #[verifier::truncate]
        (v as i16)
    }
}

impl LossyFrom<i64> for u16 {
    open spec fn lossy_spec(v: i64) -> u16 {
        v as u16
    }

    fn lossy_from(v: i64) -> (r: u16) {
        #[verifier::truncate]
        (v as u16)
    }
}

impl LossyFrom<i64> for i32 {
    open spec fn lossy_spec(v: i64) -> i32 {
        v as i32
    }

    fn lossy_from(v: i64) -> (r: i32) {
        #[verifier::truncate]
        (v as i32)
    }
}

impl LossyFrom<i64> for u32 {
    open spec fn lossy_spec(v: i64) -> u32 {
        v as u32
    }

    fn lossy_from(v: i64) -> (r: u32) {
        #[verifier::truncate]
        (v as u32)
    }
}

impl LossyFrom<i64> for i64 {
    open spec fn lossy_spec(v: i64) -> i64 {
        v
    }

    fn lossy_from(v: i64) -> (r: i64) {
        v
    }
}

impl LossyFrom<i64> for u64 {
    open spec fn lossy_spec(v: i64) -> u64 {
        v as u64
    }

    fn lossy_from(v: i64) -> (r: u64) {
        #[verifier::truncate]
        (v as u64)
    }
}

/// Converts a whole period buffer to the output numeric type, sample by
/// sample, keeping order and length.
pub fn convert_period<T: LossyFrom<i64>>(samples: &Vec<i64>) -> (r: Vec<T>)
    ensures
        r@.len() == samples@.len(),
        forall|i: int| 0 <= i < samples@.len() ==> #[trigger] r@[i] == T::lossy_spec(samples@[i]),
{
    let mut out: Vec<T> = Vec::new();
    let mut i: usize = 0;
    while i < samples.len()
        invariant
            i <= samples@.len(),
            out@.len() == i,
            forall|j: int| 0 <= j < i ==> #[trigger] out@[j] == T::lossy_spec(samples@[j]),
        decreases samples@.len() - i,
    {
        out.push(T::lossy_from(samples[i]));
        i = i + 1;
    }
    out
}

} // verus!
