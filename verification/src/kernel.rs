//! Low-level compute kernels over contiguous slices.
//!
//! Kernels are the innermost compute loops: plain functions over contiguous
//! slices, written once and reused by the eager tensor operations and by the
//! streaming engine's batch operators.
//!
//! Binary kernels require all slices to have the same length, and every
//! element operation to be defined (for integers: not to overflow).

use crate::summand::Summand;
use std::ops::{Add, Mul, Sub};
use vstd::prelude::*;
use vstd::slice::*;
use vstd::std_specs::ops::*;

verus! {

/// `z` is what `x + y` gives, as far as `T` says what that is.
pub open spec fn adds_to<T: Add<Output = T>>(x: T, y: T, z: T) -> bool {
    &&& call_ensures(T::add, (x, y), z)
    &&& T::obeys_add_spec() ==> z == x.add_spec(y)
}

/// `z` is what `x - y` gives, as far as `T` says what that is.
pub open spec fn subtracts_to<T: Sub<Output = T>>(x: T, y: T, z: T) -> bool {
    &&& call_ensures(T::sub, (x, y), z)
    &&& T::obeys_sub_spec() ==> z == x.sub_spec(y)
}

/// `z` is what `x * y` gives, as far as `T` says what that is.
pub open spec fn multiplies_to<T: Mul<Output = T>>(x: T, y: T, z: T) -> bool {
    &&& call_ensures(T::mul, (x, y), z)
    &&& T::obeys_mul_spec() ==> z == x.mul_spec(y)
}

/// Writes `a[i] + b[i]` into `out[i]` for every index.
pub fn add<T: Copy + Add<Output = T>>(a: &[T], b: &[T], out: &mut [T])
    requires
        a@.len() == b@.len() == old(out)@.len(),
        forall|i: int| 0 <= i < a@.len() ==> (#[trigger] a@[i]).add_req(b@[i]),
    ensures
        final(out)@.len() == a@.len(),
        forall|i: int|
            0 <= i < a@.len() ==> adds_to(a@[i], b@[i], #[trigger] final(out)@[i]),
        T::obeys_add_spec() ==> forall|i: int|
            0 <= i < a@.len() ==> #[trigger] final(out)@[i] == a@[i].add_spec(b@[i]),
{
    let mut i: usize = 0;
    while i < a.len()
        invariant
            i <= a@.len(),
            a@.len() == b@.len() == out@.len(),
            forall|j: int| 0 <= j < a@.len() ==> (#[trigger] a@[j]).add_req(b@[j]),
            forall|j: int| 0 <= j < i ==> adds_to(a@[j], b@[j], #[trigger] out@[j]),
        decreases a@.len() - i,
    {
        out[i] = a[i] + b[i];
        i = i + 1;
    }
}

/// Writes `a[i] - b[i]` into `out[i]` for every index.
pub fn sub<T: Copy + Sub<Output = T>>(a: &[T], b: &[T], out: &mut [T])
    requires
        a@.len() == b@.len() == old(out)@.len(),
        forall|i: int| 0 <= i < a@.len() ==> (#[trigger] a@[i]).sub_req(b@[i]),
    ensures
        final(out)@.len() == a@.len(),
        forall|i: int|
            0 <= i < a@.len() ==> subtracts_to(a@[i], b@[i], #[trigger] final(out)@[i]),
        T::obeys_sub_spec() ==> forall|i: int|
            0 <= i < a@.len() ==> #[trigger] final(out)@[i] == a@[i].sub_spec(b@[i]),
{
    let mut i: usize = 0;
    while i < a.len()
        invariant
            i <= a@.len(),
            a@.len() == b@.len() == out@.len(),
            forall|j: int| 0 <= j < a@.len() ==> (#[trigger] a@[j]).sub_req(b@[j]),
            forall|j: int| 0 <= j < i ==> subtracts_to(a@[j], b@[j], #[trigger] out@[j]),
        decreases a@.len() - i,
    {
        out[i] = a[i] - b[i];
        i = i + 1;
    }
}

/// Writes `a[i] * b[i]` into `out[i]` for every index (element-wise product).
pub fn mul<T: Copy + Mul<Output = T>>(a: &[T], b: &[T], out: &mut [T])
    requires
        a@.len() == b@.len() == old(out)@.len(),
        forall|i: int| 0 <= i < a@.len() ==> (#[trigger] a@[i]).mul_req(b@[i]),
    ensures
        final(out)@.len() == a@.len(),
        forall|i: int|
            0 <= i < a@.len() ==> multiplies_to(a@[i], b@[i], #[trigger] final(out)@[i]),
        T::obeys_mul_spec() ==> forall|i: int|
            0 <= i < a@.len() ==> #[trigger] final(out)@[i] == a@[i].mul_spec(b@[i]),
{
    let mut i: usize = 0;
    while i < a.len()
        invariant
            i <= a@.len(),
            a@.len() == b@.len() == out@.len(),
            forall|j: int| 0 <= j < a@.len() ==> (#[trigger] a@[j]).mul_req(b@[j]),
            forall|j: int| 0 <= j < i ==> multiplies_to(a@[j], b@[j], #[trigger] out@[j]),
        decreases a@.len() - i,
    {
        out[i] = a[i] * b[i];
        i = i + 1;
    }
}

/// Writes `a[i] * scalar` into `out[i]` for every index.
pub fn mul_scalar<T: Copy + Mul<Output = T>>(a: &[T], scalar: T, out: &mut [T])
    requires
        a@.len() == old(out)@.len(),
        forall|i: int| 0 <= i < a@.len() ==> (#[trigger] a@[i]).mul_req(scalar),
    ensures
        final(out)@.len() == a@.len(),
        forall|i: int|
            0 <= i < a@.len() ==> multiplies_to(a@[i], scalar, #[trigger] final(out)@[i]),
        T::obeys_mul_spec() ==> forall|i: int|
            0 <= i < a@.len() ==> #[trigger] final(out)@[i] == a@[i].mul_spec(scalar),
{
    let mut i: usize = 0;
    while i < a.len()
        invariant
            i <= a@.len(),
            a@.len() == out@.len(),
            forall|j: int| 0 <= j < a@.len() ==> (#[trigger] a@[j]).mul_req(scalar),
            forall|j: int| 0 <= j < i ==> multiplies_to(a@[j], scalar, #[trigger] out@[j]),
        decreases a@.len() - i,
    {
        out[i] = a[i] * scalar;
        i = i + 1;
    }
}

/// Number of independent accumulators in the base case of [`sum`].
pub const SUM_LANES: usize = 8;

/// Length up to which [`sum`] uses the blocked base case directly; longer
/// inputs are split recursively (pairwise summation).
pub const SUM_BLOCK: usize = 256;

/// The addition of two numbers of a sum.
pub open spec fn join<T: Summand>() -> spec_fn(T, T) -> T {
    |x: T, y: T| x.joined(y)
}

/// Numbers added up by a naive loop: to zero, one after the other, from left
/// to right.
pub open spec fn naive_sum<T: Summand>(items: Seq<T>) -> T {
    items.fold_left(T::nil(), join::<T>())
}

/// Every [`SUM_LANES`]-th number from the `k`-th on, `rows` of them.
pub open spec fn lane<T>(items: Seq<T>, k: int, rows: nat) -> Seq<T> {
    Seq::new(rows, |row: int| items[SUM_LANES * row + k])
}

/// The sum of each of the lanes of the first `rows` rows.
pub open spec fn lane_sums<T: Summand>(items: Seq<T>, rows: nat) -> Seq<T> {
    Seq::new(SUM_LANES as nat, |k: int| naive_sum(lane(items, k, rows)))
}

/// The sum of a short block: each lane by itself, then the lanes, then what
/// is left over.
pub open spec fn block_sum<T: Summand>(items: Seq<T>) -> T {
    let rows = items.len() / SUM_LANES as nat;
    items.skip((SUM_LANES * rows) as int).fold_left(
        naive_sum(lane_sums(items, rows)),
        join::<T>(),
    )
}

/// Where a long input is split: in the middle, rounded up to whole rows.
pub open spec fn split_point(len: nat) -> nat {
    (len / 2 + SUM_LANES as nat - 1) as nat / SUM_LANES as nat * SUM_LANES as nat
}

/// The sum of numbers in the fixed order of pairwise summation: long inputs
/// are split and the sums of the parts added.
pub open spec fn pairwise_sum<T: Summand>(items: Seq<T>) -> T
    decreases items.len(),
{
    if items.len() <= SUM_BLOCK {
        block_sum(items)
    } else {
        let mid = split_point(items.len()) as int;
        pairwise_sum(items.take(mid)).joined(pairwise_sum(items.skip(mid)))
    }
}

/// The sum so far and the sum of one more batch.
pub open spec fn sum_step<T: Summand>() -> spec_fn(T, Seq<T>) -> T {
    |so_far: T, batch: Seq<T>| so_far.joined(pairwise_sum(batch))
}

/// Returns the sum of all elements, starting from `T::default()` (zero for
/// every primitive).
///
/// Uses pairwise summation with a multi-accumulator base case: the input is
/// split recursively into halves, and short blocks are reduced with
/// independent accumulator lanes. The order of additions is fixed and
/// deterministic, but differs from a strict left-to-right fold. For integers
/// the result is identical to that of the naive loop.
#[must_use]
pub fn sum<T: Summand>(a: &[T]) -> (total: T)
    ensures
        total == pairwise_sum(a@),
        T::exact() ==> total == naive_sum(a@),
    decreases a@.len(),
{
    proof {
        if T::exact() {
            crate::sum_laws::law_sum_is_the_naive_loop(a@);
        }
    }
    if a.len() <= SUM_BLOCK {
        return sum_block(a);
    }
    // Split on a lane-aligned midpoint so every base-case block (except the
    // final one) is a whole number of lanes.

    let mid: usize = (a.len() / 2 + (SUM_LANES - 1)) / SUM_LANES * SUM_LANES;
    let left = slice_subrange(a, 0, mid);
    let right = slice_subrange(a, mid, a.len());
    proof {
        assert(left@ =~= a@.take(mid as int));
        assert(right@ =~= a@.skip(mid as int));
    }
    sum(left).plus(sum(right))
}

/// One more addition.
proof fn lemma_one_more<T: Summand>(start: T, items: Seq<T>, n: int)
    requires
        0 <= n < items.len(),
    ensures
        items.take(n + 1).fold_left(start, join::<T>()) == items.take(n).fold_left(
            start,
            join::<T>(),
        ).joined(items[n]),
{
    assert(items.take(n + 1).drop_last() =~= items.take(n));
}

/// Base case of [`sum`]: reduces a short block with independent accumulator
/// lanes, then combines the lanes and folds the remainder.
fn sum_block<T: Summand>(a: &[T]) -> (total: T)
    ensures
        total == block_sum(a@),
{
    let rows: usize = a.len() / SUM_LANES;
    let zero: T = T::default();
    proof {
        T::lemma_nil(zero);
    }
    let mut lanes: Vec<T> = Vec::new();
    let mut filled: usize = 0;
    while filled < SUM_LANES
        invariant
            filled <= SUM_LANES,
            lanes@.len() == filled,
            forall|k: int| 0 <= k < filled ==> lanes@[k] == zero,
        decreases SUM_LANES - filled,
    {
        lanes.push(zero);
        filled = filled + 1;
    }
    let mut row: usize = 0;
    while row < rows
        invariant
            row <= rows,
            rows == a@.len() / SUM_LANES as nat,
            a@.len() <= usize::MAX,
            lanes@.len() == SUM_LANES,
            forall|k: int|
                0 <= k < SUM_LANES ==> #[trigger] lanes@[k] == naive_sum(lane(a@, k, row as nat)),
        decreases rows - row,
    {
        let mut k: usize = 0;
        while k < SUM_LANES
            invariant
                k <= SUM_LANES,
                row < rows,
                rows == a@.len() / SUM_LANES as nat,
                a@.len() <= usize::MAX,
                lanes@.len() == SUM_LANES,
                forall|j: int|
                    0 <= j < k ==> #[trigger] lanes@[j] == naive_sum(
                        lane(a@, j, (row + 1) as nat),
                    ),
                forall|j: int|
                    k <= j < SUM_LANES ==> #[trigger] lanes@[j] == naive_sum(
                        lane(a@, j, row as nat),
                    ),
            decreases SUM_LANES - k,
        {
            proof {
                let longer = lane(a@, k as int, (row + 1) as nat);
                assert(longer.take(row as int) =~= lane(a@, k as int, row as nat));
                assert(longer.take(row + 1) =~= longer);
                lemma_one_more(T::nil(), longer, row as int);
            }
            lanes[k] = lanes[k].plus(a[SUM_LANES * row + k]);
            k = k + 1;
        }
        row = row + 1;
    }
    assert(lanes@ =~= lane_sums(a@, rows as nat));
    let mut total: T = zero;
    let mut k: usize = 0;
    assert(lanes@.take(0) =~= Seq::empty());
    while k < SUM_LANES
        invariant
            k <= SUM_LANES,
            lanes@.len() == SUM_LANES,
            total == naive_sum(lanes@.take(k as int)),
        decreases SUM_LANES - k,
    {
        proof {
            lemma_one_more(T::nil(), lanes@, k as int);
        }
        total = total.plus(lanes[k]);
        k = k + 1;
    }
    assert(lanes@.take(k as int) =~= lanes@);
    let start: usize = SUM_LANES * rows;
    let mut i: usize = start;
    let ghost combined = total;
    let ghost rest = a@.skip(start as int);
    assert(rest.take(0) =~= Seq::empty());
    while i < a.len()
        invariant
            start <= i <= a@.len(),
            rest == a@.skip(start as int),
            total == rest.take(i - start).fold_left(combined, join::<T>()),
        decreases a@.len() - i,
    {
        proof {
            lemma_one_more(combined, rest, i - start);
        }
        total = total.plus(a[i]);
        i = i + 1;
    }
    assert(rest.take(i - start) =~= rest);
    total
}

} // verus!
