//! Window functions: normalization strategies, and the assembly of composite
//! windows from the windows of their parts.

use vstd::prelude::*;

verus! {

/// Strategy for normalizing a window slice.
#[derive(Debug, Clone, Copy, PartialEq, Eq, Hash, Structural)]
pub enum WindowNormalization {
    /// No scaling applied. Return raw mathematical values.
    Raw,
    /// Scale so the maximum peak is exactly 1.0 (the default).
    Peak,
    /// Scale so the sum of absolute values is exactly 1.0.
    Sum,
    /// Scale so the root mean square is 1.0.
    Rms,
}

impl Default for WindowNormalization {
    fn default() -> (n: Self)
        ensures
            n == WindowNormalization::Peak,
    {
        WindowNormalization::Peak
    }
}

/// Normalization mode applied after window generation.
#[derive(Debug, Clone, Copy, PartialEq, Eq, Hash, Structural)]
pub enum NormalizationMode {
    /// No normalization: raw window values.
    Raw,
    /// Normalize so the peak absolute value is 1.0.
    Peak,
    /// Normalize so the RMS of the window is 1.0.
    Rms,
    /// Normalize so the sum of the window is 1.0.
    Sum,
}

/// An asymmetric window of `len` samples: the first half from the rising
/// half of `left`, the rest from the falling half of `right`, both generated
/// at the even length `2 * (len / 2)`. For odd `len` the last sample repeats
/// the last sample of `right`.
pub fn compose_asymmetric<T: Copy>(left: &[T], right: &[T], len: usize) -> (out: Vec<T>)
    requires
        len >= 2,
        left@.len() == 2 * (len / 2),
        right@.len() == 2 * (len / 2),
    ensures
        out@.len() == len,
        forall|i: int| 0 <= i < len / 2 ==> #[trigger] out@[i] == left@[i],
        forall|i: int| len / 2 <= i < 2 * (len / 2) ==> #[trigger] out@[i] == right@[i],
        len % 2 == 1 ==> out@[len - 1] == right@[2 * (len / 2) - 1],
{
    let mid = len / 2;
    let mut out: Vec<T> = Vec::new();
    let mut i: usize = 0;
    while i < mid
        invariant
            mid == len / 2,
            left@.len() == 2 * mid,
            i <= mid,
            out@.len() == i,
            forall|k: int| 0 <= k < i ==> #[trigger] out@[k] == left@[k],
        decreases mid - i,
    {
        out.push(left[i]);
        i = i + 1;
    }
    let mut j: usize = mid;
    while j < 2 * mid
        invariant
            mid == len / 2,
            right@.len() == 2 * mid,
            mid <= j <= 2 * mid,
            out@.len() == j,
            forall|k: int| 0 <= k < mid ==> #[trigger] out@[k] == left@[k],
            forall|k: int| mid <= k < j ==> #[trigger] out@[k] == right@[k],
        decreases 2 * mid - j,
    {
        out.push(right[j]);
        j = j + 1;
    }
    if len % 2 != 0 {
        out.push(right[2 * mid - 1]);
    }
    out
}

/// The rising half of a symmetric window: the first `len` samples of `base`,
/// which has `2 * len - 1` samples.
pub fn half_left<T: Copy>(base: &[T], len: usize) -> (out: Vec<T>)
    requires
        len >= 1,
        base@.len() == 2 * len - 1,
    ensures
        out@ == base@.subrange(0, len as int),
{
    let mut out: Vec<T> = Vec::new();
    let mut i: usize = 0;
    while i < len
        invariant
            i <= len,
            base@.len() == 2 * len - 1,
            out@ == base@.subrange(0, i as int),
        decreases len - i,
    {
        out.push(base[i]);
        i = i + 1;
        assert(out@ =~= base@.subrange(0, i as int));
    }
    out
}

/// The falling half of a symmetric window: the last `len` samples of
/// `base`, which has `2 * len - 1` samples.
pub fn half_right<T: Copy>(base: &[T], len: usize) -> (out: Vec<T>)
    requires
        len >= 1,
        base@.len() == 2 * len - 1,
    ensures
        out@ == base@.subrange(len - 1, 2 * len - 1),
{
    let mut out: Vec<T> = Vec::new();
    let total = base.len();
    let mut i: usize = len - 1;
    while i < total
        invariant
            total == 2 * len - 1,
            len - 1 <= i <= 2 * len - 1,
            base@.len() == 2 * len - 1,
            out@ == base@.subrange(len - 1, i as int),
        decreases total - i,
    {
        out.push(base[i]);
        i = i + 1;
        assert(out@ =~= base@.subrange(len - 1, i as int));
    }
    out
}

} // verus!
