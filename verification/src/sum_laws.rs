//! What the fixed summation order of [`kernel::sum`](crate::kernel::sum) means
//! where the order of additions does not matter, as for integers: the result is
//! that of a naive loop, and the total wherever the total fits.

use crate::summand::Summand;
use std::ops::Add;
use vstd::prelude::*;
use vstd::std_specs::ops::*;

verus! {

// Numbers whose order does not matter.

/// A sum can start anywhere.
proof fn lemma_start<T: Summand>(start: T, items: Seq<T>)
    requires
        T::exact(),
    ensures
        items.fold_left(start, crate::kernel::join::<T>()) == start.joined(
            crate::kernel::naive_sum(items),
        ),
    decreases items.len(),
{
    if items.len() == 0 {
        start.lemma_exact(start, start);
    } else {
        lemma_start(start, items.drop_last());
        start.lemma_exact(crate::kernel::naive_sum(items.drop_last()), items.last());
    }
}

/// The sum of a concatenation is the sum of the sums.
proof fn lemma_concat<T: Summand>(a: Seq<T>, b: Seq<T>)
    requires
        T::exact(),
    ensures
        crate::kernel::naive_sum(a + b) == crate::kernel::naive_sum(a).joined(
            crate::kernel::naive_sum(b),
        ),
    decreases b.len(),
{
    let first = crate::kernel::naive_sum(a);
    if b.len() == 0 {
        assert(a + b =~= a);
        first.lemma_exact(first, first);
    } else {
        lemma_concat(a, b.drop_last());
        assert((a + b).drop_last() =~= a + b.drop_last());
        first.lemma_exact(crate::kernel::naive_sum(b.drop_last()), b.last());
    }
}

/// Sums can be added pair by pair.
proof fn lemma_pointwise<T: Summand>(a: Seq<T>, b: Seq<T>, c: Seq<T>)
    requires
        T::exact(),
        a.len() == b.len() == c.len(),
        forall|i: int| 0 <= i < a.len() ==> #[trigger] c[i] == a[i].joined(b[i]),
    ensures
        crate::kernel::naive_sum(c) == crate::kernel::naive_sum(a).joined(
            crate::kernel::naive_sum(b),
        ),
    decreases a.len(),
{
    if a.len() == 0 {
        T::nil().lemma_exact(T::nil(), T::nil());
    } else {
        lemma_pointwise(a.drop_last(), b.drop_last(), c.drop_last());
        let p = crate::kernel::naive_sum(a.drop_last());
        let q = crate::kernel::naive_sum(b.drop_last());
        let x = a.last();
        let y = b.last();
        // (p + q) + (x + y) == (p + x) + (q + y)
        p.lemma_exact(q, x.joined(y));
        q.lemma_exact(x, y);
        x.lemma_exact(q, y);
        p.lemma_exact(x, q.joined(y));
    }
}

proof fn lemma_zeros<T: Summand>(items: Seq<T>)
    requires
        T::exact(),
        forall|i: int| 0 <= i < items.len() ==> items[i] == T::nil(),
    ensures
        crate::kernel::naive_sum(items) == T::nil(),
    decreases items.len(),
{
    if items.len() > 0 {
        lemma_zeros(items.drop_last());
        T::nil().lemma_exact(T::nil(), T::nil());
    }
}

/// The sums of the lanes add up to the sum of the rows.
proof fn lemma_lanes<T: Summand>(items: Seq<T>, rows: nat)
    requires
        T::exact(),
        crate::kernel::SUM_LANES * rows <= items.len(),
    ensures
        crate::kernel::naive_sum(crate::kernel::lane_sums(items, rows))
            == crate::kernel::naive_sum(items.take((crate::kernel::SUM_LANES * rows) as int)),
    decreases rows,
{
    let lanes = crate::kernel::SUM_LANES as int;
    if rows == 0 {
        assert forall|k: int| 0 <= k < lanes implies crate::kernel::lane_sums(items, 0)[k]
            == T::nil() by {}
        assert(items.take(0) =~= Seq::<T>::empty());
        lemma_zeros(crate::kernel::lane_sums(items, 0));
    } else {
        let before = (rows - 1) as nat;
        lemma_lanes(items, before);
        let row = items.subrange(lanes * before, lanes * rows);
        let sums = crate::kernel::lane_sums(items, rows);
        let sums_before = crate::kernel::lane_sums(items, before);
        assert forall|k: int| 0 <= k < lanes implies #[trigger] sums[k] == sums_before[k].joined(
            row[k],
        ) by {
            let longer = crate::kernel::lane(items, k, rows);
            assert(longer.drop_last() =~= crate::kernel::lane(items, k, before));
        }
        lemma_pointwise(sums_before, row, sums);
        lemma_concat(items.take(lanes * before), row);
        assert(items.take(lanes * before) + row =~= items.take(lanes * rows));
    }
}

/// Where the order of additions does not matter, as for integers, pairwise
/// summation gives what a naive loop gives.
pub proof fn law_sum_is_the_naive_loop<T: Summand>(items: Seq<T>)
    requires
        T::exact(),
    ensures
        crate::kernel::pairwise_sum(items) == crate::kernel::naive_sum(items),
    decreases items.len(),
{
    if items.len() <= crate::kernel::SUM_BLOCK {
        let rows = items.len() / crate::kernel::SUM_LANES as nat;
        let cut = (crate::kernel::SUM_LANES * rows) as int;
        lemma_lanes(items, rows);
        lemma_start(
            crate::kernel::naive_sum(crate::kernel::lane_sums(items, rows)),
            items.skip(cut),
        );
        lemma_concat(items.take(cut), items.skip(cut));
        assert(items.take(cut) + items.skip(cut) =~= items);
    } else {
        let mid = crate::kernel::split_point(items.len()) as int;
        law_sum_is_the_naive_loop(items.take(mid));
        law_sum_is_the_naive_loop(items.skip(mid));
        lemma_concat(items.take(mid), items.skip(mid));
        assert(items.take(mid) + items.skip(mid) =~= items);
    }
}

/// Numbers added with `+` one after the other, `None` where an addition is not
/// defined (for integers: where it overflows).
pub open spec fn plain_loop<T: Add<Output = T>>(start: T, items: Seq<T>) -> Option<T>
    decreases items.len(),
{
    if items.len() == 0 {
        Some(start)
    } else {
        match plain_loop(start, items.drop_last()) {
            Some(so_far) => if so_far.add_req(items.last()) {
                Some(so_far.add_spec(items.last()))
            } else {
                None
            },
            None => None,
        }
    }
}

/// Where a loop that adds with `+` from zero on meets no overflow, the sum is
/// what the loop gives, though additions in another order might overflow.
pub proof fn law_sum_is_the_plain_loop<T: Summand>(items: Seq<T>)
    requires
        T::exact(),
        T::obeys_add_spec(),
    ensures
        plain_loop(T::nil(), items) matches Some(total) ==> crate::kernel::pairwise_sum(items)
            == total,
    decreases items.len(),
{
    law_sum_is_the_naive_loop(items);
    if plain_loop(T::nil(), items) is Some && items.len() > 0 {
        law_sum_is_the_plain_loop(items.drop_last());
        law_sum_is_the_naive_loop(items.drop_last());
        plain_loop(T::nil(), items.drop_last())->0.lemma_joined(items.last());
    }
}

/// The sum of a concatenation is the sum of the sums.
pub proof fn law_sum_of_concatenation<T: Summand>(a: Seq<T>, b: Seq<T>)
    requires
        T::exact(),
    ensures
        crate::kernel::pairwise_sum(a + b) == crate::kernel::pairwise_sum(a).joined(
            crate::kernel::pairwise_sum(b),
        ),
{
    law_sum_is_the_naive_loop(a + b);
    law_sum_is_the_naive_loop(a);
    law_sum_is_the_naive_loop(b);
    lemma_concat(a, b);
}

/// The sum does not depend on the order of the numbers.
pub proof fn law_sum_of_permutation<T: Summand>(a: Seq<T>, b: Seq<T>)
    requires
        T::exact(),
        a.to_multiset() == b.to_multiset(),
    ensures
        crate::kernel::pairwise_sum(a) == crate::kernel::pairwise_sum(b),
{
    let join = crate::kernel::join::<T>();
    law_sum_is_the_naive_loop(a);
    law_sum_is_the_naive_loop(b);
    assert forall|x: T, y: T, v: T| #[trigger] join(join(v, x), y) == join(join(v, y), x) by {
        v.lemma_exact(x, y);
        v.lemma_exact(y, x);
        x.lemma_exact(y, v);
    }
    assert(vstd::seq_lib::commutative_foldl(join));
    vstd::seq_lib::lemma_fold_left_permutation(a, b, join, T::nil());
}

/// The sum of numbers that come in batches of the given sizes, each batch
/// summed by itself and added to the sum so far.
pub open spec fn batched_sum<T: Summand>(items: Seq<T>, layout: Seq<nat>) -> T {
    crate::flow::split(items, layout).fold_left(T::nil(), crate::kernel::sum_step::<T>())
}

/// Numbers summed batch by batch give what they give at once, however they are
/// cut into batches.
pub proof fn law_batched_sum<T: Summand>(items: Seq<T>, layout: Seq<nat>)
    requires
        T::exact(),
        items.len() == crate::flow::total(layout),
    ensures
        batched_sum(items, layout) == crate::kernel::pairwise_sum(items),
        batched_sum(items, layout) == crate::kernel::naive_sum(items),
    decreases layout.len(),
{
    law_sum_is_the_naive_loop(items);
    if layout.len() == 0 {
        assert(items =~= Seq::<T>::empty());
    } else {
        let at = crate::flow::total(layout.drop_last()) as int;
        let parts = crate::flow::split(items, layout);
        law_batched_sum(items.take(at), layout.drop_last());
        law_sum_is_the_naive_loop(items.skip(at));
        assert(parts.drop_last() =~= crate::flow::split(items.take(at), layout.drop_last()));
        lemma_concat(items.take(at), items.skip(at));
        assert(items.take(at) + items.skip(at) =~= items);
    }
}

/// A streaming sum does not depend on batches.
pub proof fn lemma_sums_are_batch_free<T: Summand>()
    requires
        T::exact(),
    ensures
        crate::flow::batch_free(T::nil(), crate::kernel::sum_step::<T>()),
{
    let step = crate::kernel::sum_step::<T>();
    assert forall|items: Seq<T>, layout: Seq<nat>, other: Seq<nat>|
        #![trigger crate::flow::split(items, layout), crate::flow::split(items, other)]
        items.len() == crate::flow::total(layout) && items.len() == crate::flow::total(
            other,
        ) implies crate::flow::split(items, layout).fold_left(T::nil(), step)
        == crate::flow::split(items, other).fold_left(T::nil(), step) by {
        law_batched_sum(items, layout);
        law_batched_sum(items, other);
    }
}

// Numbers of any kind.

proof fn lemma_total_concat(a: Seq<int>, b: Seq<int>)
    ensures
        int_total(a + b) == int_total(a) + int_total(b),
    decreases b.len(),
{
    if b.len() == 0 {
        assert(a + b =~= a);
    } else {
        lemma_total_concat(a, b.drop_last());
        assert((a + b).drop_last() =~= a + b.drop_last());
    }
}

proof fn lemma_total_pointwise(a: Seq<int>, b: Seq<int>, c: Seq<int>)
    requires
        a.len() == b.len() == c.len(),
        forall|i: int| 0 <= i < a.len() ==> #[trigger] c[i] == a[i] + b[i],
    ensures
        int_total(c) == int_total(a) + int_total(b),
    decreases a.len(),
{
    if a.len() > 0 {
        lemma_total_pointwise(a.drop_last(), b.drop_last(), c.drop_last());
    }
}

proof fn lemma_total_zeros(values: Seq<int>)
    requires
        forall|i: int| 0 <= i < values.len() ==> values[i] == 0,
    ensures
        int_total(values) == 0,
    decreases values.len(),
{
    if values.len() > 0 {
        lemma_total_zeros(values.drop_last());
    }
}

spec fn lane_totals(values: Seq<int>, rows: nat) -> Seq<int> {
    Seq::new(
        crate::kernel::SUM_LANES as nat,
        |k: int| int_total(crate::kernel::lane(values, k, rows)),
    )
}

/// The totals of the lanes add up to the total of the rows.
proof fn lemma_lane_totals(values: Seq<int>, rows: nat)
    requires
        crate::kernel::SUM_LANES * rows <= values.len(),
    ensures
        int_total(lane_totals(values, rows)) == int_total(
            values.take((crate::kernel::SUM_LANES * rows) as int),
        ),
    decreases rows,
{
    let lanes = crate::kernel::SUM_LANES as int;
    if rows == 0 {
        assert forall|k: int| 0 <= k < lanes implies lane_totals(values, 0)[k] == 0 by {}
        assert(values.take(0) =~= Seq::<int>::empty());
        lemma_total_zeros(lane_totals(values, 0));
    } else {
        let before = (rows - 1) as nat;
        lemma_lane_totals(values, before);
        let row = values.subrange(lanes * before, lanes * rows);
        assert forall|k: int| 0 <= k < lanes implies lane_totals(values, rows)[k] == lane_totals(
            values,
            before,
        )[k] + row[k] by {
            let longer = crate::kernel::lane(values, k, rows);
            assert(longer.drop_last() =~= crate::kernel::lane(values, k, before));
        }
        lemma_total_pointwise(lane_totals(values, before), row, lane_totals(values, rows));
        lemma_total_concat(values.take(lanes * before), row);
        assert(values.take(lanes * before) + row =~= values.take(lanes * rows));
    }
}

proof fn lemma_total_is_fold(values: Seq<int>)
    ensures
        int_total(values) == values.fold_left(0int, |a: int, b: int| a + b),
    decreases values.len(),
{
    if values.len() > 0 {
        lemma_total_is_fold(values.drop_last());
    }
}

proof fn lemma_fold_measure<T: Summand>(measure: spec_fn(T) -> int, start: T, items: Seq<T>)
    requires
        forall|x: T, y: T| #[trigger] measure(x.joined(y)) == measure(x) + measure(y),
    ensures
        measure(items.fold_left(start, crate::kernel::join::<T>())) == measure(start) + int_total(
            items.map_values(measure),
        ),
    decreases items.len(),
{
    if items.len() > 0 {
        lemma_fold_measure(measure, start, items.drop_last());
        assert(items.map_values(measure).drop_last() =~= items.drop_last().map_values(measure));
    }
}

proof fn lemma_sum_measure<T: Summand>(measure: spec_fn(T) -> int, items: Seq<T>)
    requires
        forall|x: T, y: T| #[trigger] measure(x.joined(y)) == measure(x) + measure(y),
        measure(T::nil()) == 0,
    ensures
        measure(crate::kernel::pairwise_sum(items)) == int_total(items.map_values(measure)),
    decreases items.len(),
{
    let values = items.map_values(measure);
    if items.len() <= crate::kernel::SUM_BLOCK {
        let rows = items.len() / crate::kernel::SUM_LANES as nat;
        let cut = (crate::kernel::SUM_LANES * rows) as int;
        let sums = crate::kernel::lane_sums(items, rows);
        assert forall|k: int| 0 <= k < crate::kernel::SUM_LANES implies sums.map_values(measure)[k]
            == lane_totals(values, rows)[k] by {
            let lane = crate::kernel::lane(items, k, rows);
            lemma_fold_measure(measure, T::nil(), lane);
            assert(lane.map_values(measure) =~= crate::kernel::lane(values, k, rows));
        }
        assert(sums.map_values(measure) =~= lane_totals(values, rows));
        lemma_fold_measure(measure, T::nil(), sums);
        lemma_fold_measure(measure, crate::kernel::naive_sum(sums), items.skip(cut));
        lemma_lane_totals(values, rows);
        lemma_total_concat(values.take(cut), values.skip(cut));
        assert(values.take(cut) + values.skip(cut) =~= values);
        assert(items.skip(cut).map_values(measure) =~= values.skip(cut));
    } else {
        let mid = crate::kernel::split_point(items.len()) as int;
        lemma_sum_measure(measure, items.take(mid));
        lemma_sum_measure(measure, items.skip(mid));
        lemma_total_concat(values.take(mid), values.skip(mid));
        assert(values.take(mid) + values.skip(mid) =~= values);
        assert(items.take(mid).map_values(measure) =~= values.take(mid));
        assert(items.skip(mid).map_values(measure) =~= values.skip(mid));
    }
}

/// Every number goes into a sum exactly once, and nothing else does, whatever
/// the kind of the numbers: whatever addition adds up is the sum over the
/// numbers.
pub proof fn law_every_number_is_added_once<T: Summand>(
    measure: spec_fn(T) -> int,
    items: Seq<T>,
)
    requires
        forall|x: T, y: T| #[trigger] measure(x.joined(y)) == measure(x) + measure(y),
        measure(T::nil()) == 0,
    ensures
        measure(crate::kernel::pairwise_sum(items)) == items.map_values(measure).fold_left(
            0int,
            |a: int, b: int| a + b,
        ),
{
    lemma_sum_measure(measure, items);
    lemma_total_is_fold(items.map_values(measure));
}

/// Every number goes into a sum of batches exactly once, and nothing else does.
pub proof fn law_every_number_is_added_once_in_batches<T: Summand>(
    measure: spec_fn(T) -> int,
    items: Seq<T>,
    layout: Seq<nat>,
)
    requires
        forall|x: T, y: T| #[trigger] measure(x.joined(y)) == measure(x) + measure(y),
        measure(T::nil()) == 0,
        items.len() == crate::flow::total(layout),
    ensures
        measure(batched_sum(items, layout)) == items.map_values(measure).fold_left(
            0int,
            |a: int, b: int| a + b,
        ),
    decreases layout.len(),
{
    let values = items.map_values(measure);
    lemma_total_is_fold(values);
    if layout.len() == 0 {
        assert(values =~= Seq::<int>::empty());
    } else {
        let at = crate::flow::total(layout.drop_last()) as int;
        let parts = crate::flow::split(items, layout);
        law_every_number_is_added_once_in_batches(measure, items.take(at), layout.drop_last());
        lemma_total_is_fold(items.take(at).map_values(measure));
        lemma_sum_measure(measure, items.skip(at));
        assert(parts.drop_last() =~= crate::flow::split(items.take(at), layout.drop_last()));
        lemma_total_concat(values.take(at), values.skip(at));
        assert(values.take(at) + values.skip(at) =~= values);
        assert(items.take(at).map_values(measure) =~= values.take(at));
        assert(items.skip(at).map_values(measure) =~= values.skip(at));
    }
}

/// The larger of two depths.
spec fn deeper(a: nat, b: nat) -> nat {
    if a <= b {
        b
    } else {
        a
    }
}

proof fn lemma_fold_depth<T: Summand>(
    depth: spec_fn(T) -> nat,
    start: T,
    items: Seq<T>,
    bound: nat,
)
    requires
        forall|x: T, y: T| #[trigger]
            depth(x.joined(y)) <= 1 + (if depth(x) <= depth(y) {
                depth(y)
            } else {
                depth(x)
            }),
        depth(start) <= bound,
        forall|i: int| 0 <= i < items.len() ==> depth(#[trigger] items[i]) <= bound,
    ensures
        depth(items.fold_left(start, crate::kernel::join::<T>())) <= bound + items.len(),
    decreases items.len(),
{
    if items.len() > 0 {
        lemma_fold_depth(depth, start, items.drop_last(), bound);
        let so_far = items.drop_last().fold_left(start, crate::kernel::join::<T>());
        assert(depth(items[items.len() - 1]) <= bound);
        assert(depth(so_far.joined(items.last())) <= 1 + deeper(depth(so_far), depth(items.last())));
    }
}

/// Additions are nested no deeper than a constant and the number of times that
/// the numbers can be halved: rounding errors grow that slowly, where a naive
/// loop nests as deep as there are numbers.
pub proof fn law_sums_are_shallow<T: Summand>(
    depth: spec_fn(T) -> nat,
    items: Seq<T>,
    halvings: nat,
)
    requires
        forall|x: T, y: T| #[trigger]
            depth(x.joined(y)) <= 1 + (if depth(x) <= depth(y) {
                depth(y)
            } else {
                depth(x)
            }),
        depth(T::nil()) == 0,
        forall|i: int| 0 <= i < items.len() ==> depth(#[trigger] items[i]) == 0,
        items.len() <= 256 * vstd::arithmetic::power2::pow2(halvings),
    ensures
        depth(crate::kernel::pairwise_sum(items)) <= 47 + halvings,
    decreases items.len(),
{
    if items.len() <= crate::kernel::SUM_BLOCK {
        let rows = items.len() / crate::kernel::SUM_LANES as nat;
        let cut = (crate::kernel::SUM_LANES * rows) as int;
        let sums = crate::kernel::lane_sums(items, rows);
        assert forall|k: int| 0 <= k < sums.len() implies depth(#[trigger] sums[k]) <= 32 by {
            let lane = crate::kernel::lane(items, k, rows);
            assert forall|i: int| 0 <= i < lane.len() implies depth(#[trigger] lane[i]) <= 0 by {
                assert(lane[i] == items[crate::kernel::SUM_LANES * i + k]);
            }
            lemma_fold_depth(depth, T::nil(), lane, 0);
        }
        lemma_fold_depth(depth, T::nil(), sums, 32);
        let rest = items.skip(cut);
        assert forall|i: int| 0 <= i < rest.len() implies depth(#[trigger] rest[i]) <= 40 by {
            assert(rest[i] == items[cut + i]);
        }
        lemma_fold_depth(depth, crate::kernel::naive_sum(sums), rest, 40);
    } else {
        let mid = crate::kernel::split_point(items.len()) as int;
        vstd::arithmetic::power2::lemma2_to64();
        assert(halvings > 0);
        vstd::arithmetic::power2::lemma_pow2_unfold(halvings);
        let left = items.take(mid);
        let right = items.skip(mid);
        assert forall|i: int| 0 <= i < left.len() implies depth(#[trigger] left[i]) == 0 by {
            assert(left[i] == items[i]);
        }
        assert forall|i: int| 0 <= i < right.len() implies depth(#[trigger] right[i]) == 0 by {
            assert(right[i] == items[mid + i]);
        }
        law_sums_are_shallow(depth, left, (halvings - 1) as nat);
        law_sums_are_shallow(depth, right, (halvings - 1) as nat);
        let a = crate::kernel::pairwise_sum(left);
        let b = crate::kernel::pairwise_sum(right);
        assert(depth(a.joined(b)) <= 1 + deeper(depth(a), depth(b)));
    }
}

// Integers.

/// The sum of integers.
pub open spec fn int_total(values: Seq<int>) -> int
    decreases values.len(),
{
    if values.len() == 0 {
        0
    } else {
        int_total(values.drop_last()) + values.last()
    }
}

/// The sum of the magnitudes of integers.
pub open spec fn magnitude(values: Seq<int>) -> int
    decreases values.len(),
{
    if values.len() == 0 {
        0
    } else {
        magnitude(values.drop_last()) + if values.last() < 0 {
            -values.last()
        } else {
            values.last()
        }
    }
}

/// No total is larger than the sum of the magnitudes.
pub proof fn lemma_magnitude(values: Seq<int>)
    ensures
        -magnitude(values) <= int_total(values) <= magnitude(values),
    decreases values.len(),
{
    if values.len() > 0 {
        lemma_magnitude(values.drop_last());
    }
}

/// Numbers of type `T` are the integers from `min` to `max`, and their addition
/// wraps around.
pub open spec fn integers<T: Summand>(value: spec_fn(T) -> int, min: int, max: int) -> bool {
    &&& T::exact()
    &&& value(T::nil()) == 0
    &&& forall|a: T| min <= #[trigger] value(a) <= max
    &&& forall|a: T, b: T| #[trigger] value(a) == #[trigger] value(b) ==> a == b
    &&& forall|a: T, b: T| #[trigger]
        value(a.joined(b)) == wrapped(value(a) + value(b), min, max)
}

/// The number from `min` to `max` that differs from `v` by a multiple of the
/// length of that range.
pub open spec fn wrapped(v: int, min: int, max: int) -> int {
    min + (v - min) % (max - min + 1)
}

proof fn lemma_wrapped(u: int, v: int, min: int, max: int)
    requires
        min <= max,
    ensures
        wrapped(wrapped(u, min, max) + v, min, max) == wrapped(u + v, min, max),
        min <= u <= max ==> wrapped(u, min, max) == u,
{
    let m = max - min + 1;
    vstd::arithmetic::div_mod::lemma_add_mod_noop_right(v, u - min, m);
    if min <= u <= max {
        vstd::arithmetic::div_mod::lemma_small_mod((u - min) as nat, m as nat);
    }
}

/// Going round once changes nothing.
proof fn lemma_one_turn(v: int, min: int, max: int)
    requires
        min <= max,
    ensures
        wrapped(v - (max - min + 1), min, max) == wrapped(v, min, max),
        wrapped(v + (max - min + 1), min, max) == wrapped(v, min, max),
{
    let m = max - min + 1;
    vstd::arithmetic::div_mod::lemma_mod_add_multiples_vanish(v - min, m);
    vstd::arithmetic::div_mod::lemma_mod_sub_multiples_vanish(v - min, m);
}

/// The total of numbers that are not negative is not negative.
proof fn lemma_not_negative(values: Seq<int>)
    requires
        forall|i: int| 0 <= i < values.len() ==> 0 <= #[trigger] values[i],
    ensures
        0 <= int_total(values),
    decreases values.len(),
{
    if values.len() > 0 {
        lemma_not_negative(values.drop_last());
    }
}

/// A sum of integers is their total, wrapped around at the ends of the range:
/// the total itself wherever that fits.
pub proof fn law_sum_is_the_total<T: Summand>(
    value: spec_fn(T) -> int,
    min: int,
    max: int,
    items: Seq<T>,
)
    requires
        integers(value, min, max),
    ensures
        value(crate::kernel::pairwise_sum(items)) == wrapped(
            int_total(items.map_values(value)),
            min,
            max,
        ),
        min <= int_total(items.map_values(value)) <= max ==> value(
            crate::kernel::pairwise_sum(items),
        ) == int_total(items.map_values(value)),
    decreases items.len(),
{
    let values = items.map_values(value);
    law_sum_is_the_naive_loop(items);
    assert(min <= value(T::nil()) <= max);
    if items.len() == 0 {
        lemma_wrapped(0, 0, min, max);
    } else {
        let front = items.drop_last();
        law_sum_is_the_total(value, min, max, front);
        law_sum_is_the_naive_loop(front);
        assert(front.map_values(value) =~= values.drop_last());
        lemma_wrapped(int_total(values.drop_last()), values.last(), min, max);
        assert(value(crate::kernel::naive_sum(front).joined(items.last())) == wrapped(
            value(crate::kernel::naive_sum(front)) + value(items.last()),
            min,
            max,
        ));
    }
    lemma_wrapped(int_total(values), 0, min, max);
}

/// `u8` is a type of integers.
pub proof fn law_integers_u8()
    ensures
        integers(|x: u8| x as int, u8::MIN as int, u8::MAX as int),
{
    let value = |x: u8| x as int;
    assert forall|a: u8, b: u8| #[trigger] value(a.joined(b)) == wrapped(
        value(a) + value(b),
        u8::MIN as int,
        u8::MAX as int,
    ) by {
        let v = a + b;
        let m = u8::MAX - u8::MIN + 1;
        let away = if v > u8::MAX {
            v - m
        } else if v < u8::MIN {
            v + m
        } else {
            v as int
        };
        assert(a.joined(b) == away);
        lemma_wrapped(away, 0, u8::MIN as int, u8::MAX as int);
        lemma_one_turn(v, u8::MIN as int, u8::MAX as int);
    }
}

/// `u16` is a type of integers.
pub proof fn law_integers_u16()
    ensures
        integers(|x: u16| x as int, u16::MIN as int, u16::MAX as int),
{
    let value = |x: u16| x as int;
    assert forall|a: u16, b: u16| #[trigger] value(a.joined(b)) == wrapped(
        value(a) + value(b),
        u16::MIN as int,
        u16::MAX as int,
    ) by {
        let v = a + b;
        let m = u16::MAX - u16::MIN + 1;
        let away = if v > u16::MAX {
            v - m
        } else if v < u16::MIN {
            v + m
        } else {
            v as int
        };
        assert(a.joined(b) == away);
        lemma_wrapped(away, 0, u16::MIN as int, u16::MAX as int);
        lemma_one_turn(v, u16::MIN as int, u16::MAX as int);
    }
}

/// `u32` is a type of integers.
pub proof fn law_integers_u32()
    ensures
        integers(|x: u32| x as int, u32::MIN as int, u32::MAX as int),
{
    let value = |x: u32| x as int;
    assert forall|a: u32, b: u32| #[trigger] value(a.joined(b)) == wrapped(
        value(a) + value(b),
        u32::MIN as int,
        u32::MAX as int,
    ) by {
        let v = a + b;
        let m = u32::MAX - u32::MIN + 1;
        let away = if v > u32::MAX {
            v - m
        } else if v < u32::MIN {
            v + m
        } else {
            v as int
        };
        assert(a.joined(b) == away);
        lemma_wrapped(away, 0, u32::MIN as int, u32::MAX as int);
        lemma_one_turn(v, u32::MIN as int, u32::MAX as int);
    }
}

/// `u64` is a type of integers.
pub proof fn law_integers_u64()
    ensures
        integers(|x: u64| x as int, u64::MIN as int, u64::MAX as int),
{
    let value = |x: u64| x as int;
    assert forall|a: u64, b: u64| #[trigger] value(a.joined(b)) == wrapped(
        value(a) + value(b),
        u64::MIN as int,
        u64::MAX as int,
    ) by {
        let v = a + b;
        let m = u64::MAX - u64::MIN + 1;
        let away = if v > u64::MAX {
            v - m
        } else if v < u64::MIN {
            v + m
        } else {
            v as int
        };
        assert(a.joined(b) == away);
        lemma_wrapped(away, 0, u64::MIN as int, u64::MAX as int);
        lemma_one_turn(v, u64::MIN as int, u64::MAX as int);
    }
}

/// `u128` is a type of integers.
pub proof fn law_integers_u128()
    ensures
        integers(|x: u128| x as int, u128::MIN as int, u128::MAX as int),
{
    let value = |x: u128| x as int;
    assert forall|a: u128, b: u128| #[trigger] value(a.joined(b)) == wrapped(
        value(a) + value(b),
        u128::MIN as int,
        u128::MAX as int,
    ) by {
        let v = a + b;
        let m = u128::MAX - u128::MIN + 1;
        let away = if v > u128::MAX {
            v - m
        } else if v < u128::MIN {
            v + m
        } else {
            v as int
        };
        assert(a.joined(b) == away);
        lemma_wrapped(away, 0, u128::MIN as int, u128::MAX as int);
        lemma_one_turn(v, u128::MIN as int, u128::MAX as int);
    }
}

/// `usize` is a type of integers.
pub proof fn law_integers_usize()
    ensures
        integers(|x: usize| x as int, usize::MIN as int, usize::MAX as int),
{
    let value = |x: usize| x as int;
    assert forall|a: usize, b: usize| #[trigger] value(a.joined(b)) == wrapped(
        value(a) + value(b),
        usize::MIN as int,
        usize::MAX as int,
    ) by {
        let v = a + b;
        let m = usize::MAX - usize::MIN + 1;
        let away = if v > usize::MAX {
            v - m
        } else if v < usize::MIN {
            v + m
        } else {
            v as int
        };
        assert(a.joined(b) == away);
        lemma_wrapped(away, 0, usize::MIN as int, usize::MAX as int);
        lemma_one_turn(v, usize::MIN as int, usize::MAX as int);
    }
}

/// `i8` is a type of integers.
pub proof fn law_integers_i8()
    ensures
        integers(|x: i8| x as int, i8::MIN as int, i8::MAX as int),
{
    let value = |x: i8| x as int;
    assert forall|a: i8, b: i8| #[trigger] value(a.joined(b)) == wrapped(
        value(a) + value(b),
        i8::MIN as int,
        i8::MAX as int,
    ) by {
        let v = a + b;
        let m = i8::MAX - i8::MIN + 1;
        let away = if v > i8::MAX {
            v - m
        } else if v < i8::MIN {
            v + m
        } else {
            v as int
        };
        assert(a.joined(b) == away);
        lemma_wrapped(away, 0, i8::MIN as int, i8::MAX as int);
        lemma_one_turn(v, i8::MIN as int, i8::MAX as int);
    }
}

/// `i16` is a type of integers.
pub proof fn law_integers_i16()
    ensures
        integers(|x: i16| x as int, i16::MIN as int, i16::MAX as int),
{
    let value = |x: i16| x as int;
    assert forall|a: i16, b: i16| #[trigger] value(a.joined(b)) == wrapped(
        value(a) + value(b),
        i16::MIN as int,
        i16::MAX as int,
    ) by {
        let v = a + b;
        let m = i16::MAX - i16::MIN + 1;
        let away = if v > i16::MAX {
            v - m
        } else if v < i16::MIN {
            v + m
        } else {
            v as int
        };
        assert(a.joined(b) == away);
        lemma_wrapped(away, 0, i16::MIN as int, i16::MAX as int);
        lemma_one_turn(v, i16::MIN as int, i16::MAX as int);
    }
}

/// `i32` is a type of integers.
pub proof fn law_integers_i32()
    ensures
        integers(|x: i32| x as int, i32::MIN as int, i32::MAX as int),
{
    let value = |x: i32| x as int;
    assert forall|a: i32, b: i32| #[trigger] value(a.joined(b)) == wrapped(
        value(a) + value(b),
        i32::MIN as int,
        i32::MAX as int,
    ) by {
        let v = a + b;
        let m = i32::MAX - i32::MIN + 1;
        let away = if v > i32::MAX {
            v - m
        } else if v < i32::MIN {
            v + m
        } else {
            v as int
        };
        assert(a.joined(b) == away);
        lemma_wrapped(away, 0, i32::MIN as int, i32::MAX as int);
        lemma_one_turn(v, i32::MIN as int, i32::MAX as int);
    }
}

/// `i64` is a type of integers.
pub proof fn law_integers_i64()
    ensures
        integers(|x: i64| x as int, i64::MIN as int, i64::MAX as int),
{
    let value = |x: i64| x as int;
    assert forall|a: i64, b: i64| #[trigger] value(a.joined(b)) == wrapped(
        value(a) + value(b),
        i64::MIN as int,
        i64::MAX as int,
    ) by {
        let v = a + b;
        let m = i64::MAX - i64::MIN + 1;
        let away = if v > i64::MAX {
            v - m
        } else if v < i64::MIN {
            v + m
        } else {
            v as int
        };
        assert(a.joined(b) == away);
        lemma_wrapped(away, 0, i64::MIN as int, i64::MAX as int);
        lemma_one_turn(v, i64::MIN as int, i64::MAX as int);
    }
}

/// `i128` is a type of integers.
pub proof fn law_integers_i128()
    ensures
        integers(|x: i128| x as int, i128::MIN as int, i128::MAX as int),
{
    let value = |x: i128| x as int;
    assert forall|a: i128, b: i128| #[trigger] value(a.joined(b)) == wrapped(
        value(a) + value(b),
        i128::MIN as int,
        i128::MAX as int,
    ) by {
        let v = a + b;
        let m = i128::MAX - i128::MIN + 1;
        let away = if v > i128::MAX {
            v - m
        } else if v < i128::MIN {
            v + m
        } else {
            v as int
        };
        assert(a.joined(b) == away);
        lemma_wrapped(away, 0, i128::MIN as int, i128::MAX as int);
        lemma_one_turn(v, i128::MIN as int, i128::MAX as int);
    }
}

/// `isize` is a type of integers.
pub proof fn law_integers_isize()
    ensures
        integers(|x: isize| x as int, isize::MIN as int, isize::MAX as int),
{
    let value = |x: isize| x as int;
    assert forall|a: isize, b: isize| #[trigger] value(a.joined(b)) == wrapped(
        value(a) + value(b),
        isize::MIN as int,
        isize::MAX as int,
    ) by {
        let v = a + b;
        let m = isize::MAX - isize::MIN + 1;
        let away = if v > isize::MAX {
            v - m
        } else if v < isize::MIN {
            v + m
        } else {
            v as int
        };
        assert(a.joined(b) == away);
        lemma_wrapped(away, 0, isize::MIN as int, isize::MAX as int);
        lemma_one_turn(v, isize::MIN as int, isize::MAX as int);
    }
}

/// The sum of `u8` numbers is what a naive loop gives, and the total of the
/// numbers wherever that fits.
pub proof fn law_sum_u8(items: Seq<u8>)
    ensures
        crate::kernel::pairwise_sum(items) == crate::kernel::naive_sum(items),
        crate::kernel::pairwise_sum(items) == items.fold_left(
            0u8,
            |a: u8, b: u8| a.wrapping_add(b),
        ),
        u8::MIN <= items.map_values(|x: u8| x as int).fold_left(0int, |a: int, b: int| a + b)
            <= u8::MAX ==> crate::kernel::pairwise_sum(items) == items.map_values(
            |x: u8| x as int,
        ).fold_left(0int, |a: int, b: int| a + b),
        plain_loop(0u8, items) matches Some(total) ==> crate::kernel::pairwise_sum(items) == total,
        u8::MIN <= int_total(items.map_values(|x: u8| x as int)) <= u8::MAX
            ==> crate::kernel::pairwise_sum(items) == int_total(
            items.map_values(|x: u8| x as int),
        ),
        magnitude(items.map_values(|x: u8| x as int)) <= u8::MAX
            ==> crate::kernel::pairwise_sum(items) == int_total(
            items.map_values(|x: u8| x as int),
        ),
{
    let value = |x: u8| x as int;
    law_integers_u8();
    law_sum_is_the_naive_loop(items);
    assert(crate::kernel::join::<u8>() =~= |a: u8, b: u8| a.wrapping_add(b));
    lemma_total_is_fold(items.map_values(value));
    law_sum_is_the_plain_loop(items);
    law_sum_is_the_total(value, u8::MIN as int, u8::MAX as int, items);
    lemma_magnitude(items.map_values(value));
    lemma_not_negative(items.map_values(value));
}

/// The sum of `u16` numbers is what a naive loop gives, and the total of the
/// numbers wherever that fits.
pub proof fn law_sum_u16(items: Seq<u16>)
    ensures
        crate::kernel::pairwise_sum(items) == crate::kernel::naive_sum(items),
        crate::kernel::pairwise_sum(items) == items.fold_left(
            0u16,
            |a: u16, b: u16| a.wrapping_add(b),
        ),
        u16::MIN <= items.map_values(|x: u16| x as int).fold_left(0int, |a: int, b: int| a + b)
            <= u16::MAX ==> crate::kernel::pairwise_sum(items) == items.map_values(
            |x: u16| x as int,
        ).fold_left(0int, |a: int, b: int| a + b),
        plain_loop(0u16, items) matches Some(total) ==> crate::kernel::pairwise_sum(items) == total,
        u16::MIN <= int_total(items.map_values(|x: u16| x as int)) <= u16::MAX
            ==> crate::kernel::pairwise_sum(items) == int_total(
            items.map_values(|x: u16| x as int),
        ),
        magnitude(items.map_values(|x: u16| x as int)) <= u16::MAX
            ==> crate::kernel::pairwise_sum(items) == int_total(
            items.map_values(|x: u16| x as int),
        ),
{
    let value = |x: u16| x as int;
    law_integers_u16();
    law_sum_is_the_naive_loop(items);
    assert(crate::kernel::join::<u16>() =~= |a: u16, b: u16| a.wrapping_add(b));
    lemma_total_is_fold(items.map_values(value));
    law_sum_is_the_plain_loop(items);
    law_sum_is_the_total(value, u16::MIN as int, u16::MAX as int, items);
    lemma_magnitude(items.map_values(value));
    lemma_not_negative(items.map_values(value));
}

/// The sum of `u32` numbers is what a naive loop gives, and the total of the
/// numbers wherever that fits.
pub proof fn law_sum_u32(items: Seq<u32>)
    ensures
        crate::kernel::pairwise_sum(items) == crate::kernel::naive_sum(items),
        crate::kernel::pairwise_sum(items) == items.fold_left(
            0u32,
            |a: u32, b: u32| a.wrapping_add(b),
        ),
        u32::MIN <= items.map_values(|x: u32| x as int).fold_left(0int, |a: int, b: int| a + b)
            <= u32::MAX ==> crate::kernel::pairwise_sum(items) == items.map_values(
            |x: u32| x as int,
        ).fold_left(0int, |a: int, b: int| a + b),
        plain_loop(0u32, items) matches Some(total) ==> crate::kernel::pairwise_sum(items) == total,
        u32::MIN <= int_total(items.map_values(|x: u32| x as int)) <= u32::MAX
            ==> crate::kernel::pairwise_sum(items) == int_total(
            items.map_values(|x: u32| x as int),
        ),
        magnitude(items.map_values(|x: u32| x as int)) <= u32::MAX
            ==> crate::kernel::pairwise_sum(items) == int_total(
            items.map_values(|x: u32| x as int),
        ),
{
    let value = |x: u32| x as int;
    law_integers_u32();
    law_sum_is_the_naive_loop(items);
    assert(crate::kernel::join::<u32>() =~= |a: u32, b: u32| a.wrapping_add(b));
    lemma_total_is_fold(items.map_values(value));
    law_sum_is_the_plain_loop(items);
    law_sum_is_the_total(value, u32::MIN as int, u32::MAX as int, items);
    lemma_magnitude(items.map_values(value));
    lemma_not_negative(items.map_values(value));
}

/// The sum of `u64` numbers is what a naive loop gives, and the total of the
/// numbers wherever that fits.
pub proof fn law_sum_u64(items: Seq<u64>)
    ensures
        crate::kernel::pairwise_sum(items) == crate::kernel::naive_sum(items),
        crate::kernel::pairwise_sum(items) == items.fold_left(
            0u64,
            |a: u64, b: u64| a.wrapping_add(b),
        ),
        u64::MIN <= items.map_values(|x: u64| x as int).fold_left(0int, |a: int, b: int| a + b)
            <= u64::MAX ==> crate::kernel::pairwise_sum(items) == items.map_values(
            |x: u64| x as int,
        ).fold_left(0int, |a: int, b: int| a + b),
        plain_loop(0u64, items) matches Some(total) ==> crate::kernel::pairwise_sum(items) == total,
        u64::MIN <= int_total(items.map_values(|x: u64| x as int)) <= u64::MAX
            ==> crate::kernel::pairwise_sum(items) == int_total(
            items.map_values(|x: u64| x as int),
        ),
        magnitude(items.map_values(|x: u64| x as int)) <= u64::MAX
            ==> crate::kernel::pairwise_sum(items) == int_total(
            items.map_values(|x: u64| x as int),
        ),
{
    let value = |x: u64| x as int;
    law_integers_u64();
    law_sum_is_the_naive_loop(items);
    assert(crate::kernel::join::<u64>() =~= |a: u64, b: u64| a.wrapping_add(b));
    lemma_total_is_fold(items.map_values(value));
    law_sum_is_the_plain_loop(items);
    law_sum_is_the_total(value, u64::MIN as int, u64::MAX as int, items);
    lemma_magnitude(items.map_values(value));
    lemma_not_negative(items.map_values(value));
}

/// The sum of `u128` numbers is what a naive loop gives, and the total of the
/// numbers wherever that fits.
pub proof fn law_sum_u128(items: Seq<u128>)
    ensures
        crate::kernel::pairwise_sum(items) == crate::kernel::naive_sum(items),
        crate::kernel::pairwise_sum(items) == items.fold_left(
            0u128,
            |a: u128, b: u128| a.wrapping_add(b),
        ),
        u128::MIN <= items.map_values(|x: u128| x as int).fold_left(0int, |a: int, b: int| a + b)
            <= u128::MAX ==> crate::kernel::pairwise_sum(items) == items.map_values(
            |x: u128| x as int,
        ).fold_left(0int, |a: int, b: int| a + b),
        plain_loop(0u128, items) matches Some(total) ==> crate::kernel::pairwise_sum(items) == total,
        u128::MIN <= int_total(items.map_values(|x: u128| x as int)) <= u128::MAX
            ==> crate::kernel::pairwise_sum(items) == int_total(
            items.map_values(|x: u128| x as int),
        ),
        magnitude(items.map_values(|x: u128| x as int)) <= u128::MAX
            ==> crate::kernel::pairwise_sum(items) == int_total(
            items.map_values(|x: u128| x as int),
        ),
{
    let value = |x: u128| x as int;
    law_integers_u128();
    law_sum_is_the_naive_loop(items);
    assert(crate::kernel::join::<u128>() =~= |a: u128, b: u128| a.wrapping_add(b));
    lemma_total_is_fold(items.map_values(value));
    law_sum_is_the_plain_loop(items);
    law_sum_is_the_total(value, u128::MIN as int, u128::MAX as int, items);
    lemma_magnitude(items.map_values(value));
    lemma_not_negative(items.map_values(value));
}

/// The sum of `usize` numbers is what a naive loop gives, and the total of the
/// numbers wherever that fits.
pub proof fn law_sum_usize(items: Seq<usize>)
    ensures
        crate::kernel::pairwise_sum(items) == crate::kernel::naive_sum(items),
        crate::kernel::pairwise_sum(items) == items.fold_left(
            0usize,
            |a: usize, b: usize| a.wrapping_add(b),
        ),
        usize::MIN <= items.map_values(|x: usize| x as int).fold_left(0int, |a: int, b: int| a + b)
            <= usize::MAX ==> crate::kernel::pairwise_sum(items) == items.map_values(
            |x: usize| x as int,
        ).fold_left(0int, |a: int, b: int| a + b),
        plain_loop(0usize, items) matches Some(total) ==> crate::kernel::pairwise_sum(items) == total,
        usize::MIN <= int_total(items.map_values(|x: usize| x as int)) <= usize::MAX
            ==> crate::kernel::pairwise_sum(items) == int_total(
            items.map_values(|x: usize| x as int),
        ),
        magnitude(items.map_values(|x: usize| x as int)) <= usize::MAX
            ==> crate::kernel::pairwise_sum(items) == int_total(
            items.map_values(|x: usize| x as int),
        ),
{
    let value = |x: usize| x as int;
    law_integers_usize();
    law_sum_is_the_naive_loop(items);
    assert(crate::kernel::join::<usize>() =~= |a: usize, b: usize| a.wrapping_add(b));
    lemma_total_is_fold(items.map_values(value));
    law_sum_is_the_plain_loop(items);
    law_sum_is_the_total(value, usize::MIN as int, usize::MAX as int, items);
    lemma_magnitude(items.map_values(value));
    lemma_not_negative(items.map_values(value));
}

/// The sum of `i8` numbers is what a naive loop gives, and the total of the
/// numbers wherever that fits.
pub proof fn law_sum_i8(items: Seq<i8>)
    ensures
        crate::kernel::pairwise_sum(items) == crate::kernel::naive_sum(items),
        crate::kernel::pairwise_sum(items) == items.fold_left(
            0i8,
            |a: i8, b: i8| a.wrapping_add(b),
        ),
        i8::MIN <= items.map_values(|x: i8| x as int).fold_left(0int, |a: int, b: int| a + b)
            <= i8::MAX ==> crate::kernel::pairwise_sum(items) == items.map_values(
            |x: i8| x as int,
        ).fold_left(0int, |a: int, b: int| a + b),
        plain_loop(0i8, items) matches Some(total) ==> crate::kernel::pairwise_sum(items) == total,
        i8::MIN <= int_total(items.map_values(|x: i8| x as int)) <= i8::MAX
            ==> crate::kernel::pairwise_sum(items) == int_total(
            items.map_values(|x: i8| x as int),
        ),
        magnitude(items.map_values(|x: i8| x as int)) <= i8::MAX
            ==> crate::kernel::pairwise_sum(items) == int_total(
            items.map_values(|x: i8| x as int),
        ),
{
    let value = |x: i8| x as int;
    law_integers_i8();
    law_sum_is_the_naive_loop(items);
    assert(crate::kernel::join::<i8>() =~= |a: i8, b: i8| a.wrapping_add(b));
    lemma_total_is_fold(items.map_values(value));
    law_sum_is_the_plain_loop(items);
    law_sum_is_the_total(value, i8::MIN as int, i8::MAX as int, items);
    lemma_magnitude(items.map_values(value));
}

/// The sum of `i16` numbers is what a naive loop gives, and the total of the
/// numbers wherever that fits.
pub proof fn law_sum_i16(items: Seq<i16>)
    ensures
        crate::kernel::pairwise_sum(items) == crate::kernel::naive_sum(items),
        crate::kernel::pairwise_sum(items) == items.fold_left(
            0i16,
            |a: i16, b: i16| a.wrapping_add(b),
        ),
        i16::MIN <= items.map_values(|x: i16| x as int).fold_left(0int, |a: int, b: int| a + b)
            <= i16::MAX ==> crate::kernel::pairwise_sum(items) == items.map_values(
            |x: i16| x as int,
        ).fold_left(0int, |a: int, b: int| a + b),
        plain_loop(0i16, items) matches Some(total) ==> crate::kernel::pairwise_sum(items) == total,
        i16::MIN <= int_total(items.map_values(|x: i16| x as int)) <= i16::MAX
            ==> crate::kernel::pairwise_sum(items) == int_total(
            items.map_values(|x: i16| x as int),
        ),
        magnitude(items.map_values(|x: i16| x as int)) <= i16::MAX
            ==> crate::kernel::pairwise_sum(items) == int_total(
            items.map_values(|x: i16| x as int),
        ),
{
    let value = |x: i16| x as int;
    law_integers_i16();
    law_sum_is_the_naive_loop(items);
    assert(crate::kernel::join::<i16>() =~= |a: i16, b: i16| a.wrapping_add(b));
    lemma_total_is_fold(items.map_values(value));
    law_sum_is_the_plain_loop(items);
    law_sum_is_the_total(value, i16::MIN as int, i16::MAX as int, items);
    lemma_magnitude(items.map_values(value));
}

/// The sum of `i32` numbers is what a naive loop gives, and the total of the
/// numbers wherever that fits.
pub proof fn law_sum_i32(items: Seq<i32>)
    ensures
        crate::kernel::pairwise_sum(items) == crate::kernel::naive_sum(items),
        crate::kernel::pairwise_sum(items) == items.fold_left(
            0i32,
            |a: i32, b: i32| a.wrapping_add(b),
        ),
        i32::MIN <= items.map_values(|x: i32| x as int).fold_left(0int, |a: int, b: int| a + b)
            <= i32::MAX ==> crate::kernel::pairwise_sum(items) == items.map_values(
            |x: i32| x as int,
        ).fold_left(0int, |a: int, b: int| a + b),
        plain_loop(0i32, items) matches Some(total) ==> crate::kernel::pairwise_sum(items) == total,
        i32::MIN <= int_total(items.map_values(|x: i32| x as int)) <= i32::MAX
            ==> crate::kernel::pairwise_sum(items) == int_total(
            items.map_values(|x: i32| x as int),
        ),
        magnitude(items.map_values(|x: i32| x as int)) <= i32::MAX
            ==> crate::kernel::pairwise_sum(items) == int_total(
            items.map_values(|x: i32| x as int),
        ),
{
    let value = |x: i32| x as int;
    law_integers_i32();
    law_sum_is_the_naive_loop(items);
    assert(crate::kernel::join::<i32>() =~= |a: i32, b: i32| a.wrapping_add(b));
    lemma_total_is_fold(items.map_values(value));
    law_sum_is_the_plain_loop(items);
    law_sum_is_the_total(value, i32::MIN as int, i32::MAX as int, items);
    lemma_magnitude(items.map_values(value));
}

/// The sum of `i64` numbers is what a naive loop gives, and the total of the
/// numbers wherever that fits.
pub proof fn law_sum_i64(items: Seq<i64>)
    ensures
        crate::kernel::pairwise_sum(items) == crate::kernel::naive_sum(items),
        crate::kernel::pairwise_sum(items) == items.fold_left(
            0i64,
            |a: i64, b: i64| a.wrapping_add(b),
        ),
        i64::MIN <= items.map_values(|x: i64| x as int).fold_left(0int, |a: int, b: int| a + b)
            <= i64::MAX ==> crate::kernel::pairwise_sum(items) == items.map_values(
            |x: i64| x as int,
        ).fold_left(0int, |a: int, b: int| a + b),
        plain_loop(0i64, items) matches Some(total) ==> crate::kernel::pairwise_sum(items) == total,
        i64::MIN <= int_total(items.map_values(|x: i64| x as int)) <= i64::MAX
            ==> crate::kernel::pairwise_sum(items) == int_total(
            items.map_values(|x: i64| x as int),
        ),
        magnitude(items.map_values(|x: i64| x as int)) <= i64::MAX
            ==> crate::kernel::pairwise_sum(items) == int_total(
            items.map_values(|x: i64| x as int),
        ),
{
    let value = |x: i64| x as int;
    law_integers_i64();
    law_sum_is_the_naive_loop(items);
    assert(crate::kernel::join::<i64>() =~= |a: i64, b: i64| a.wrapping_add(b));
    lemma_total_is_fold(items.map_values(value));
    law_sum_is_the_plain_loop(items);
    law_sum_is_the_total(value, i64::MIN as int, i64::MAX as int, items);
    lemma_magnitude(items.map_values(value));
}

/// The sum of `i128` numbers is what a naive loop gives, and the total of the
/// numbers wherever that fits.
pub proof fn law_sum_i128(items: Seq<i128>)
    ensures
        crate::kernel::pairwise_sum(items) == crate::kernel::naive_sum(items),
        crate::kernel::pairwise_sum(items) == items.fold_left(
            0i128,
            |a: i128, b: i128| a.wrapping_add(b),
        ),
        i128::MIN <= items.map_values(|x: i128| x as int).fold_left(0int, |a: int, b: int| a + b)
            <= i128::MAX ==> crate::kernel::pairwise_sum(items) == items.map_values(
            |x: i128| x as int,
        ).fold_left(0int, |a: int, b: int| a + b),
        plain_loop(0i128, items) matches Some(total) ==> crate::kernel::pairwise_sum(items) == total,
        i128::MIN <= int_total(items.map_values(|x: i128| x as int)) <= i128::MAX
            ==> crate::kernel::pairwise_sum(items) == int_total(
            items.map_values(|x: i128| x as int),
        ),
        magnitude(items.map_values(|x: i128| x as int)) <= i128::MAX
            ==> crate::kernel::pairwise_sum(items) == int_total(
            items.map_values(|x: i128| x as int),
        ),
{
    let value = |x: i128| x as int;
    law_integers_i128();
    law_sum_is_the_naive_loop(items);
    assert(crate::kernel::join::<i128>() =~= |a: i128, b: i128| a.wrapping_add(b));
    lemma_total_is_fold(items.map_values(value));
    law_sum_is_the_plain_loop(items);
    law_sum_is_the_total(value, i128::MIN as int, i128::MAX as int, items);
    lemma_magnitude(items.map_values(value));
}

/// The sum of `isize` numbers is what a naive loop gives, and the total of the
/// numbers wherever that fits.
pub proof fn law_sum_isize(items: Seq<isize>)
    ensures
        crate::kernel::pairwise_sum(items) == crate::kernel::naive_sum(items),
        crate::kernel::pairwise_sum(items) == items.fold_left(
            0isize,
            |a: isize, b: isize| a.wrapping_add(b),
        ),
        isize::MIN <= items.map_values(|x: isize| x as int).fold_left(0int, |a: int, b: int| a + b)
            <= isize::MAX ==> crate::kernel::pairwise_sum(items) == items.map_values(
            |x: isize| x as int,
        ).fold_left(0int, |a: int, b: int| a + b),
        plain_loop(0isize, items) matches Some(total) ==> crate::kernel::pairwise_sum(items) == total,
        isize::MIN <= int_total(items.map_values(|x: isize| x as int)) <= isize::MAX
            ==> crate::kernel::pairwise_sum(items) == int_total(
            items.map_values(|x: isize| x as int),
        ),
        magnitude(items.map_values(|x: isize| x as int)) <= isize::MAX
            ==> crate::kernel::pairwise_sum(items) == int_total(
            items.map_values(|x: isize| x as int),
        ),
{
    let value = |x: isize| x as int;
    law_integers_isize();
    law_sum_is_the_naive_loop(items);
    assert(crate::kernel::join::<isize>() =~= |a: isize, b: isize| a.wrapping_add(b));
    lemma_total_is_fold(items.map_values(value));
    law_sum_is_the_plain_loop(items);
    law_sum_is_the_total(value, isize::MIN as int, isize::MAX as int, items);
    lemma_magnitude(items.map_values(value));
}

} // verus!
