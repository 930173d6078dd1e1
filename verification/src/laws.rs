//! Laws of the library as a whole: what holds of storages, tensors and plans
//! whatever they hold.

use crate::flow::Flow;
use crate::summand::Summand;
use crate::tensor::Tensor;
use crate::view::Element;
use std::ops::{Add, Mul, Sub};
use vstd::prelude::*;
use vstd::std_specs::ops::*;

verus! {

/// A window of a window is a window: slicing composes.
pub proof fn law_slices_compose(bytes: Seq<u8>, from: int, len: int, inner: int, inner_len: int)
    requires
        0 <= from,
        0 <= len,
        from + len <= bytes.len(),
        0 <= inner,
        0 <= inner_len,
        inner + inner_len <= len,
    ensures
        bytes.subrange(from, from + len).subrange(inner, inner + inner_len) == bytes.subrange(
            from + inner,
            from + inner + inner_len,
        ),
{
    assert(bytes.subrange(from, from + len).subrange(inner, inner + inner_len) =~= bytes.subrange(
        from + inner,
        from + inner + inner_len,
    ));
}

/// Elements written to a file one batch after the other form the file of all
/// elements: what is sunk in batches is read back, in order, by a scan.
pub proof fn law_batches_concatenate<T: Element>(first: Seq<T>, second: Seq<T>)
    ensures
        crate::view::encode_all(first) + crate::view::encode_all(second) == crate::view::encode_all(
            first + second,
        ),
        crate::view::decode_all::<T>(
            crate::view::encode_all(first) + crate::view::encode_all(second),
        ) == first + second,
    decreases second.len(),
{
    let all = crate::view::encoded(first + second);
    if second.len() == 0 {
        assert(first + second =~= first);
        assert(crate::view::encoded(second) =~= Seq::<Seq<u8>>::empty());
        assert(crate::view::encode_all(second) =~= Seq::<u8>::empty());
        assert(crate::view::encode_all(first) + crate::view::encode_all(second)
            =~= crate::view::encode_all(first));
    } else {
        law_batches_concatenate(first, second.drop_last());
        assert(all.drop_last() =~= crate::view::encoded(first + second.drop_last()));
        assert(crate::view::encoded(second).drop_last() =~= crate::view::encoded(
            second.drop_last(),
        ));
        assert(all.last() == crate::view::encoded(second).last());
        assert(crate::view::encode_all(first) + crate::view::encode_all(second)
            =~= crate::view::encode_all(first + second));
    }
    crate::view::lemma_decode_all_encoded(first + second);
}

/// Two flows hand out the same elements, though perhaps in other batches.
pub open spec fn same_elements<A>(a: Flow<A>, b: Flow<A>) -> bool {
    &&& a.matched == b.matched
    &&& a.count() == b.count()
    &&& a.emits == b.emits
}

/// The elements of a source do not depend on the batch size.
pub proof fn law_batching_keeps_source_elements<A>(items: Seq<A>, per_batch: nat, other: nat)
    requires
        per_batch > 0,
        other > 0,
    ensures
        same_elements(crate::flow::listed(items, per_batch), crate::flow::listed(items, other)),
{
    crate::flow::lemma_even_layout(items.len(), per_batch);
    crate::flow::lemma_even_layout(items.len(), other);
}

/// Generated elements do not depend on the batch size.
pub proof fn law_batching_keeps_generated_elements<A>(
    len: nat,
    accepts: spec_fn(nat) -> bool,
    gives: spec_fn(nat, A) -> bool,
    room: spec_fn(nat) -> bool,
    per_batch: nat,
    other: nat,
)
    requires
        per_batch > 0,
        other > 0,
    ensures
        same_elements(
            crate::flow::generated(len, per_batch, accepts, gives, room),
            crate::flow::generated(len, other, accepts, gives, room),
        ),
{
    crate::flow::lemma_even_layout(len, per_batch);
    crate::flow::lemma_even_layout(len, other);
}

/// A transformation hands out the same elements whatever batches it is given
/// them in.
pub proof fn law_batching_keeps_mapped_elements<A, B>(
    input: Flow<A>,
    other: Flow<A>,
    accepts: spec_fn(A) -> bool,
    gives: spec_fn(A, B) -> bool,
    room: spec_fn(nat) -> bool,
)
    requires
        same_elements(input, other),
    ensures
        same_elements(
            crate::flow::mapped(input, accepts, gives, room),
            crate::flow::mapped(other, accepts, gives, room),
        ),
{
    let a = crate::flow::mapped(input, accepts, gives, room);
    let b = crate::flow::mapped(other, accepts, gives, room);
    assert forall|first: Seq<B>| #[trigger] (a.emits)(first) == (b.emits)(first) by {}
    assert(a.emits =~= b.emits);
}

/// A combination of two inputs hands out the same elements whatever batches it
/// is given them in: re-chunking is invisible.
pub proof fn law_batching_keeps_zipped_elements<A, B, C>(
    left: Flow<A>,
    right: Flow<B>,
    other_left: Flow<A>,
    other_right: Flow<B>,
    accepts: spec_fn(A, B) -> bool,
    gives: spec_fn(A, B, C) -> bool,
    room: spec_fn(nat) -> bool,
)
    requires
        same_elements(left, other_left),
        same_elements(right, other_right),
        crate::flow::positive(left.layout),
        crate::flow::positive(right.layout),
        crate::flow::positive(other_left.layout),
        crate::flow::positive(other_right.layout),
    ensures
        same_elements(
            crate::flow::zipped(left, right, accepts, gives, room),
            crate::flow::zipped(other_left, other_right, accepts, gives, room),
        ),
{
    crate::flow::lemma_merged_layout(left.layout, right.layout);
    crate::flow::lemma_merged_layout(other_left.layout, other_right.layout);
    let a = crate::flow::zipped(left, right, accepts, gives, room);
    let b = crate::flow::zipped(other_left, other_right, accepts, gives, room);
    assert forall|first: Seq<C>| #[trigger] (a.emits)(first) == (b.emits)(first) by {}
    assert(a.emits =~= b.emits);
}

/// Memory stays bounded: no batch of a source holds more elements than the
/// batch size allows.
pub proof fn law_source_batches_are_bounded(len: nat, per_batch: nat, i: int)
    requires
        0 <= i < crate::flow::even_layout(len, per_batch).len(),
    ensures
        0 < crate::flow::even_layout(len, per_batch)[i] <= per_batch,
    decreases len,
{
    if len > per_batch && i > 0 {
        law_source_batches_are_bounded((len - per_batch) as nat, per_batch, i - 1);
    }
}

/// Memory stays bounded: no batch of a combination is larger than the batches
/// of either input may be.
pub proof fn law_zipped_batches_are_bounded(
    left: Seq<nat>,
    right: Seq<nat>,
    left_bound: nat,
    right_bound: nat,
    i: int,
)
    requires
        crate::flow::at_most(left, left_bound),
        crate::flow::at_most(right, right_bound),
        0 <= i < crate::flow::merged_layout(left, right).len(),
    ensures
        crate::flow::merged_layout(left, right)[i] <= left_bound,
        crate::flow::merged_layout(left, right)[i] <= right_bound,
    decreases left.len() + right.len(),
{
    let n = crate::flow::overlap(left, right);
    if i > 0 {
        let l = crate::flow::consume(left, n);
        let r = crate::flow::consume(right, n);
        assert forall|j: int| 0 <= j < l.len() implies #[trigger] l[j] <= left_bound by {
            if left[0] <= n {
                assert(l[j] == left[j + 1]);
            } else if j > 0 {
                assert(l[j] == left[j]);
            } else {
                assert(left[0] <= left_bound);
            }
        }
        assert forall|j: int| 0 <= j < r.len() implies #[trigger] r[j] <= right_bound by {
            if right[0] <= n {
                assert(r[j] == right[j + 1]);
            } else if j > 0 {
                assert(r[j] == right[j]);
            } else {
                assert(right[0] <= right_bound);
            }
        }
        law_zipped_batches_are_bounded(l, r, left_bound, right_bound, i - 1);
    }
}

/// A batch holds at least one element, and no more bytes than the setting
/// unless a single element does.
pub proof fn law_batch_size(batch_bytes: nat, size: nat)
    requires
        size > 0,
    ensures
        crate::lazy::batch_elems(batch_bytes, size) >= 1,
        crate::lazy::batch_elems(batch_bytes, size) == 1 || crate::lazy::batch_elems(
            batch_bytes,
            size,
        ) * size <= batch_bytes,
{
    vstd::arithmetic::div_mod::lemma_fundamental_div_mod(batch_bytes as int, size as int);
    vstd::arithmetic::mul::lemma_mul_is_commutative(
        size as int,
        batch_bytes as int / size as int,
    );
}

/// A reduction that does not depend on batches hands out the same whatever
/// batches it is given.
pub proof fn law_batching_keeps_reduced_elements<A>(
    input: Flow<A>,
    other: Flow<A>,
    start: A,
    step: spec_fn(A, Seq<A>) -> A,
    room: spec_fn(nat) -> bool,
)
    requires
        same_elements(input, other),
        crate::flow::batch_free(start, step),
    ensures
        same_elements(
            crate::flow::reduced(input, start, step, room),
            crate::flow::reduced(other, start, step, room),
        ),
{
    let a = crate::flow::reduced(input, start, step, room);
    let b = crate::flow::reduced(other, start, step, room);
    assert forall|items: Seq<A>|
        #![trigger input.yields(items)]
        #![trigger other.yields(items)]
        input.yields(items) == other.yields(items) && (input.yields(items) ==> crate::flow::split(
            items,
            input.layout,
        ).fold_left(start, step) == crate::flow::split(items, other.layout).fold_left(
            start,
            step,
        )) by {}
    assert forall|first: Seq<A>| #[trigger] (a.emits)(first) == (b.emits)(first) by {}
    assert(a.emits =~= b.emits);
}

/// A lazy sum yields one element, the sum of the batches, if its input yields
/// elements.
pub proof fn lemma_summed<T: Summand>(input: Flow<T>, items: Seq<T>)
    ensures
        crate::lazy::summed(input).yields(items) <==> {
            &&& items.len() == 1
            &&& exists|ins: Seq<T>| #[trigger]
                input.yields(ins) && items[0] == crate::sum_laws::batched_sum(ins, input.layout)
        },
{
    crate::flow::lemma_total_front(1, Seq::empty());
    assert(seq![1nat] + Seq::<nat>::empty() =~= seq![1nat]);
}

/// The sum of no elements is zero.
pub proof fn law_empty_sum_is_zero<T: Summand>(input: Flow<T>, items: Seq<T>)
    requires
        input.matched,
        input.layout.len() == 0,
        (input.emits)(Seq::empty()),
    ensures
        crate::lazy::summed(input).yields(items) <==> items == seq![T::nil()],
{
    lemma_summed(input, items);
    assert(input.yields(Seq::<T>::empty()));
    if crate::lazy::summed(input).yields(items) {
        assert(items =~= seq![T::nil()]);
    }
}

/// A lazy sum yields one element, if its input yields elements, and fails if
/// that fails. Where the order of additions does not matter, as for integers,
/// it is what a naive loop over the input's elements gives, for every batch
/// size.
pub proof fn law_lazy_sum<T: Summand>(input: Flow<T>, items: Seq<T>)
    requires
        T::exact(),
    ensures
        crate::lazy::summed(input).matched == input.matched,
        crate::lazy::summed(input).safe == input.safe,
        crate::lazy::summed(input).yields(items) <==> {
            &&& items.len() == 1
            &&& exists|ins: Seq<T>| #[trigger]
                input.yields(ins) && items[0] == crate::kernel::naive_sum(ins)
        },
{
    lemma_summed(input, items);
    assert forall|ins: Seq<T>| #[trigger] input.yields(ins) implies crate::sum_laws::batched_sum(
        ins,
        input.layout,
    ) == crate::kernel::naive_sum(ins) by {
        crate::sum_laws::law_batched_sum(ins, input.layout);
    }
}

/// A lazy sum of integers is the total of the elements that its input yields
/// wherever that fits, for every batch size.
pub proof fn law_lazy_sum_is_the_total<T: Summand>(
    value: spec_fn(T) -> int,
    min: int,
    max: int,
    input: Flow<T>,
    items: Seq<T>,
)
    requires
        crate::sum_laws::integers(value, min, max),
        forall|ins: Seq<T>| #[trigger]
            input.yields(ins) ==> min <= crate::sum_laws::int_total(ins.map_values(value)) <= max,
    ensures
        crate::lazy::summed(input).yields(items) <==> {
            &&& items.len() == 1
            &&& exists|ins: Seq<T>| #[trigger]
                input.yields(ins) && value(items[0]) == crate::sum_laws::int_total(
                    ins.map_values(value),
                )
        },
{
    law_lazy_sum(input, items);
    assert forall|ins: Seq<T>| #[trigger] input.yields(ins) implies value(
        crate::kernel::naive_sum(ins),
    ) == crate::sum_laws::int_total(ins.map_values(value)) by {
        crate::sum_laws::law_sum_is_the_naive_loop(ins);
        crate::sum_laws::law_sum_is_the_total(value, min, max, ins);
    }
}

/// A lazy sum of the elements of a tensor is what the eager sum gives, whatever
/// the batch size, where the order of additions does not matter.
pub proof fn law_lazy_sum_matches_eager<T: Summand>(
    elements: Seq<T>,
    per_batch: nat,
    items: Seq<T>,
)
    requires
        T::exact(),
        per_batch > 0,
    ensures
        crate::lazy::summed(crate::flow::listed(elements, per_batch)).yields(items) <==> items
            == seq![crate::kernel::pairwise_sum(elements)],
{
    let input = crate::flow::listed(elements, per_batch);
    law_lazy_sum(input, items);
    law_lazy_round_trip(elements, per_batch, elements);
    crate::sum_laws::law_sum_is_the_naive_loop(elements);
    if crate::lazy::summed(input).yields(items) {
        let ins = choose|ins: Seq<T>| #[trigger]
            input.yields(ins) && items[0] == crate::kernel::naive_sum(ins);
        law_lazy_round_trip(elements, per_batch, ins);
        assert(items =~= seq![crate::kernel::pairwise_sum(elements)]);
    }
}

/// Summing a sum changes nothing, where the order of additions does not matter.
pub proof fn law_sum_of_a_sum<T: Summand>(input: Flow<T>, items: Seq<T>)
    requires
        T::exact(),
    ensures
        crate::lazy::summed(crate::lazy::summed(input)).matched == crate::lazy::summed(
            input,
        ).matched,
        crate::lazy::summed(crate::lazy::summed(input)).safe == crate::lazy::summed(input).safe,
        crate::lazy::summed(crate::lazy::summed(input)).yields(items) <==> crate::lazy::summed(
            input,
        ).yields(items),
{
    let once = crate::lazy::summed(input);
    let twice = crate::lazy::summed(once);
    law_lazy_sum(once, items);
    lemma_summed(input, items);
    if twice.yields(items) {
        let ins = choose|ins: Seq<T>| #[trigger]
            once.yields(ins) && items[0] == crate::kernel::naive_sum(ins);
        lemma_summed(input, ins);
        lemma_sum_of_one(ins);
        assert(items =~= ins);
    }
    if once.yields(items) {
        lemma_sum_of_one(items);
    }
}

proof fn lemma_sum_of_one<T: Summand>(items: Seq<T>)
    requires
        T::exact(),
        items.len() == 1,
    ensures
        crate::kernel::naive_sum(items) == items[0],
{
    reveal_with_fuel(Seq::fold_left, 2);
    items[0].lemma_exact(T::nil(), items[0]);
}

/// A combination of two tensors succeeds exactly if they are equally long, and
/// then yields as many elements, each one that the function gives for the two
/// elements in its place.
pub proof fn law_zipped_elements<A, B, C>(
    left: Seq<A>,
    right: Seq<B>,
    left_batch: nat,
    right_batch: nat,
    accepts: spec_fn(A, B) -> bool,
    gives: spec_fn(A, B, C) -> bool,
    room: spec_fn(nat) -> bool,
    items: Seq<C>,
)
    requires
        left_batch > 0,
        right_batch > 0,
    ensures
        crate::flow::zipped(
            crate::flow::listed(left, left_batch),
            crate::flow::listed(right, right_batch),
            accepts,
            gives,
            room,
        ).matched <==> left.len() == right.len(),
        crate::flow::zipped(
            crate::flow::listed(left, left_batch),
            crate::flow::listed(right, right_batch),
            accepts,
            gives,
            room,
        ).yields(items) <==> {
            &&& left.len() == right.len() == items.len()
            &&& crate::flow::zip_related(left, right, items, gives)
        },
{
    let l = crate::flow::listed(left, left_batch);
    let r = crate::flow::listed(right, right_batch);
    let flow = crate::flow::zipped(l, r, accepts, gives, room);
    crate::flow::lemma_even_layout(left.len(), left_batch);
    crate::flow::lemma_even_layout(right.len(), right_batch);
    crate::flow::lemma_merged_layout(l.layout, r.layout);
    assert(left.take(left.len() as int) =~= left);
    assert(right.take(right.len() as int) =~= right);
    if flow.yields(items) {
        let (ls, rs) = choose|ls: Seq<A>, rs: Seq<B>|
            #![trigger (l.emits)(ls), (r.emits)(rs)]
            (l.emits)(ls) && (r.emits)(rs) && crate::flow::zip_related(ls, rs, items, gives);
        assert(ls =~= left);
        assert(rs =~= right);
    }
    if left.len() == right.len() == items.len() && crate::flow::zip_related(
        left,
        right,
        items,
        gives,
    ) {
        assert((l.emits)(left) && (r.emits)(right));
        assert((flow.emits)(items));
    }
}

/// Lazy and eager addition agree: what adding two plans yields, element by
/// element, is what adding two tensors of their elements gives, and it yields
/// something only if they are equally long.
pub proof fn law_lazy_add_matches_eager<T: Element + Add<Output = T>>(
    left: Seq<T>,
    right: Seq<T>,
    left_batch: nat,
    right_batch: nat,
    items: Seq<T>,
)
    requires
        left_batch > 0,
        right_batch > 0,
    ensures
        crate::flow::zipped(
            crate::flow::listed(left, left_batch),
            crate::flow::listed(right, right_batch),
            crate::lazy::add_accepts::<T>(),
            crate::lazy::add_gives::<T>(),
            crate::lazy::room_of::<T>(),
        ).yields(items) <==> {
            &&& left.len() == right.len() == items.len()
            &&& forall|i: int|
                0 <= i < items.len() ==> crate::kernel::adds_to(
                    left[i],
                    right[i],
                    #[trigger] items[i],
                )
        },
{
    let gives = crate::lazy::add_gives::<T>();
    law_zipped_elements(
        left,
        right,
        left_batch,
        right_batch,
        crate::lazy::add_accepts::<T>(),
        gives,
        crate::lazy::room_of::<T>(),
        items,
    );
    if left.len() == right.len() == items.len() && crate::flow::zip_related(
        left,
        right,
        items,
        gives,
    ) {
        assert forall|i: int| 0 <= i < items.len() implies crate::kernel::adds_to(
            left[i],
            right[i],
            #[trigger] items[i],
        ) by {
            assert(gives(left[i], right[i], items[i]));
        }
    }
}

/// On tensors, `a + b` is `zip_with` a function that adds two elements: it is
/// defined for the same elements, succeeds or fails with it, comes in the same
/// batches and yields the same elements.
pub proof fn law_zip_with_is_add<T: Add<Output = T>, F: Fn(T, T) -> T>(
    f: F,
    left: Seq<T>,
    right: Seq<T>,
    left_batch: nat,
    right_batch: nat,
    items: Seq<T>,
    others: Seq<T>,
)
    requires
        T::obeys_add_spec(),
        forall|x: T, y: T| #[trigger] call_requires(f, (x, y)) == x.add_req(y),
        forall|x: T, y: T, z: T| #[trigger]
            call_ensures(f, (x, y), z) ==> z == x.add_spec(y),
        left_batch > 0,
        right_batch > 0,
    ensures
        ({
            let zip = crate::flow::zipped(
                crate::flow::listed(left, left_batch),
                crate::flow::listed(right, right_batch),
                crate::lazy::pair_accepts(f),
                crate::lazy::pair_gives(f),
                crate::lazy::room_of::<T>(),
            );
            let op = crate::flow::zipped(
                crate::flow::listed(left, left_batch),
                crate::flow::listed(right, right_batch),
                crate::lazy::add_accepts::<T>(),
                crate::lazy::add_gives::<T>(),
                crate::lazy::room_of::<T>(),
            );
            &&& zip.layout == op.layout
            &&& zip.matched == op.matched
            &&& zip.safe == op.safe
            &&& zip.fits == op.fits
            &&& zip.yields(items) && op.yields(others) ==> items == others
        }),
{
    let accepts = crate::lazy::add_accepts::<T>();
    let gives = crate::lazy::add_gives::<T>();
    let with = crate::lazy::pair_gives(f);
    let room = crate::lazy::room_of::<T>();
    assert(crate::lazy::pair_accepts(f) =~= accepts);
    law_zipped_elements(left, right, left_batch, right_batch, accepts, with, room, items);
    law_zipped_elements(left, right, left_batch, right_batch, accepts, gives, room, others);
    let l = crate::flow::listed(left, left_batch);
    let r = crate::flow::listed(right, right_batch);
    if crate::flow::zipped(l, r, accepts, with, room).yields(items) && crate::flow::zipped(
        l,
        r,
        accepts,
        gives,
        room,
    ).yields(others) {
        assert forall|i: int| 0 <= i < items.len() implies items[i] == others[i] by {
            assert(with(left[i], right[i], items[i]));
            assert(gives(left[i], right[i], others[i]));
        }
        assert(items =~= others);
    }
}

/// Lazy and eager subtraction agree.
pub proof fn law_lazy_sub_matches_eager<T: Element + Sub<Output = T>>(
    left: Seq<T>,
    right: Seq<T>,
    left_batch: nat,
    right_batch: nat,
    items: Seq<T>,
)
    requires
        left_batch > 0,
        right_batch > 0,
    ensures
        crate::flow::zipped(
            crate::flow::listed(left, left_batch),
            crate::flow::listed(right, right_batch),
            crate::lazy::sub_accepts::<T>(),
            crate::lazy::sub_gives::<T>(),
            crate::lazy::room_of::<T>(),
        ).yields(items) <==> {
            &&& left.len() == right.len() == items.len()
            &&& forall|i: int|
                0 <= i < items.len() ==> crate::kernel::subtracts_to(
                    left[i],
                    right[i],
                    #[trigger] items[i],
                )
        },
{
    let gives = crate::lazy::sub_gives::<T>();
    law_zipped_elements(
        left,
        right,
        left_batch,
        right_batch,
        crate::lazy::sub_accepts::<T>(),
        gives,
        crate::lazy::room_of::<T>(),
        items,
    );
    if left.len() == right.len() == items.len() && crate::flow::zip_related(
        left,
        right,
        items,
        gives,
    ) {
        assert forall|i: int| 0 <= i < items.len() implies crate::kernel::subtracts_to(
            left[i],
            right[i],
            #[trigger] items[i],
        ) by {
            assert(gives(left[i], right[i], items[i]));
        }
    }
}

/// On tensors, `a - b` is `zip_with` a function that subtracts two elements: it is
/// defined for the same elements, succeeds or fails with it, comes in the same
/// batches and yields the same elements.
pub proof fn law_zip_with_is_sub<T: Sub<Output = T>, F: Fn(T, T) -> T>(
    f: F,
    left: Seq<T>,
    right: Seq<T>,
    left_batch: nat,
    right_batch: nat,
    items: Seq<T>,
    others: Seq<T>,
)
    requires
        T::obeys_sub_spec(),
        forall|x: T, y: T| #[trigger] call_requires(f, (x, y)) == x.sub_req(y),
        forall|x: T, y: T, z: T| #[trigger]
            call_ensures(f, (x, y), z) ==> z == x.sub_spec(y),
        left_batch > 0,
        right_batch > 0,
    ensures
        ({
            let zip = crate::flow::zipped(
                crate::flow::listed(left, left_batch),
                crate::flow::listed(right, right_batch),
                crate::lazy::pair_accepts(f),
                crate::lazy::pair_gives(f),
                crate::lazy::room_of::<T>(),
            );
            let op = crate::flow::zipped(
                crate::flow::listed(left, left_batch),
                crate::flow::listed(right, right_batch),
                crate::lazy::sub_accepts::<T>(),
                crate::lazy::sub_gives::<T>(),
                crate::lazy::room_of::<T>(),
            );
            &&& zip.layout == op.layout
            &&& zip.matched == op.matched
            &&& zip.safe == op.safe
            &&& zip.fits == op.fits
            &&& zip.yields(items) && op.yields(others) ==> items == others
        }),
{
    let accepts = crate::lazy::sub_accepts::<T>();
    let gives = crate::lazy::sub_gives::<T>();
    let with = crate::lazy::pair_gives(f);
    let room = crate::lazy::room_of::<T>();
    assert(crate::lazy::pair_accepts(f) =~= accepts);
    law_zipped_elements(left, right, left_batch, right_batch, accepts, with, room, items);
    law_zipped_elements(left, right, left_batch, right_batch, accepts, gives, room, others);
    let l = crate::flow::listed(left, left_batch);
    let r = crate::flow::listed(right, right_batch);
    if crate::flow::zipped(l, r, accepts, with, room).yields(items) && crate::flow::zipped(
        l,
        r,
        accepts,
        gives,
        room,
    ).yields(others) {
        assert forall|i: int| 0 <= i < items.len() implies items[i] == others[i] by {
            assert(with(left[i], right[i], items[i]));
            assert(gives(left[i], right[i], others[i]));
        }
        assert(items =~= others);
    }
}

/// Lazy and eager multiplication agree.
pub proof fn law_lazy_mul_matches_eager<T: Element + Mul<Output = T>>(
    left: Seq<T>,
    right: Seq<T>,
    left_batch: nat,
    right_batch: nat,
    items: Seq<T>,
)
    requires
        left_batch > 0,
        right_batch > 0,
    ensures
        crate::flow::zipped(
            crate::flow::listed(left, left_batch),
            crate::flow::listed(right, right_batch),
            crate::lazy::mul_accepts::<T>(),
            crate::lazy::mul_gives::<T>(),
            crate::lazy::room_of::<T>(),
        ).yields(items) <==> {
            &&& left.len() == right.len() == items.len()
            &&& forall|i: int|
                0 <= i < items.len() ==> crate::kernel::multiplies_to(
                    left[i],
                    right[i],
                    #[trigger] items[i],
                )
        },
{
    let gives = crate::lazy::mul_gives::<T>();
    law_zipped_elements(
        left,
        right,
        left_batch,
        right_batch,
        crate::lazy::mul_accepts::<T>(),
        gives,
        crate::lazy::room_of::<T>(),
        items,
    );
    if left.len() == right.len() == items.len() && crate::flow::zip_related(
        left,
        right,
        items,
        gives,
    ) {
        assert forall|i: int| 0 <= i < items.len() implies crate::kernel::multiplies_to(
            left[i],
            right[i],
            #[trigger] items[i],
        ) by {
            assert(gives(left[i], right[i], items[i]));
        }
    }
}

/// On tensors, `a * b` is `zip_with` a function that multiplies two elements: it is
/// defined for the same elements, succeeds or fails with it, comes in the same
/// batches and yields the same elements.
pub proof fn law_zip_with_is_mul<T: Mul<Output = T>, F: Fn(T, T) -> T>(
    f: F,
    left: Seq<T>,
    right: Seq<T>,
    left_batch: nat,
    right_batch: nat,
    items: Seq<T>,
    others: Seq<T>,
)
    requires
        T::obeys_mul_spec(),
        forall|x: T, y: T| #[trigger] call_requires(f, (x, y)) == x.mul_req(y),
        forall|x: T, y: T, z: T| #[trigger]
            call_ensures(f, (x, y), z) ==> z == x.mul_spec(y),
        left_batch > 0,
        right_batch > 0,
    ensures
        ({
            let zip = crate::flow::zipped(
                crate::flow::listed(left, left_batch),
                crate::flow::listed(right, right_batch),
                crate::lazy::pair_accepts(f),
                crate::lazy::pair_gives(f),
                crate::lazy::room_of::<T>(),
            );
            let op = crate::flow::zipped(
                crate::flow::listed(left, left_batch),
                crate::flow::listed(right, right_batch),
                crate::lazy::mul_accepts::<T>(),
                crate::lazy::mul_gives::<T>(),
                crate::lazy::room_of::<T>(),
            );
            &&& zip.layout == op.layout
            &&& zip.matched == op.matched
            &&& zip.safe == op.safe
            &&& zip.fits == op.fits
            &&& zip.yields(items) && op.yields(others) ==> items == others
        }),
{
    let accepts = crate::lazy::mul_accepts::<T>();
    let gives = crate::lazy::mul_gives::<T>();
    let with = crate::lazy::pair_gives(f);
    let room = crate::lazy::room_of::<T>();
    assert(crate::lazy::pair_accepts(f) =~= accepts);
    law_zipped_elements(left, right, left_batch, right_batch, accepts, with, room, items);
    law_zipped_elements(left, right, left_batch, right_batch, accepts, gives, room, others);
    let l = crate::flow::listed(left, left_batch);
    let r = crate::flow::listed(right, right_batch);
    if crate::flow::zipped(l, r, accepts, with, room).yields(items) && crate::flow::zipped(
        l,
        r,
        accepts,
        gives,
        room,
    ).yields(others) {
        assert forall|i: int| 0 <= i < items.len() implies items[i] == others[i] by {
            assert(with(left[i], right[i], items[i]));
            assert(gives(left[i], right[i], others[i]));
        }
        assert(items =~= others);
    }
}

/// A combination of two plans that succeed fails exactly if they hand out
/// different numbers of elements.
pub proof fn law_length_mismatch<A, B, C>(
    left: Flow<A>,
    right: Flow<B>,
    accepts: spec_fn(A, B) -> bool,
    gives: spec_fn(A, B, C) -> bool,
    room: spec_fn(nat) -> bool,
)
    requires
        left.matched,
        right.matched,
    ensures
        crate::flow::zipped(left, right, accepts, gives, room).matched <==> left.count()
            == right.count(),
{
}

/// Turning a tensor into a plan and executing it gives the elements back.
pub proof fn law_lazy_round_trip<A>(elements: Seq<A>, per_batch: nat, items: Seq<A>)
    requires
        per_batch > 0,
    ensures
        crate::flow::listed(elements, per_batch).yields(items) <==> items == elements,
{
    crate::flow::lemma_even_layout(elements.len(), per_batch);
    assert(elements.take(elements.len() as int) =~= elements);
}

/// Executing the plan of a tensor gives its bytes back.
pub proof fn law_lazy_round_trip_of_bytes<T: Element>(
    tensor: Tensor<T>,
    per_batch: nat,
    collected: Tensor<T>,
)
    requires
        tensor.wf(),
        collected.wf(),
        per_batch > 0,
        crate::flow::listed(tensor.elements(), per_batch).yields(collected.elements()),
    ensures
        collected.elements() == tensor.elements(),
        collected.bytes()@ == tensor.bytes()@,
{
    law_lazy_round_trip(tensor.elements(), per_batch, collected.elements());
    crate::view::lemma_encode_all_decoded::<T>(tensor.bytes()@);
    crate::view::lemma_encode_all_decoded::<T>(collected.bytes()@);
}

/// A plan that generates elements yields exactly as many as asked for, each
/// one that the function gives for its index.
pub proof fn law_generated_elements<A>(
    len: nat,
    per_batch: nat,
    accepts: spec_fn(nat) -> bool,
    gives: spec_fn(nat, A) -> bool,
    room: spec_fn(nat) -> bool,
    items: Seq<A>,
)
    requires
        per_batch > 0,
    ensures
        crate::flow::generated(len, per_batch, accepts, gives, room).yields(items) <==> {
            &&& items.len() == len
            &&& forall|i: int| 0 <= i < len ==> gives(i as nat, #[trigger] items[i])
        },
{
    crate::flow::lemma_even_layout(len, per_batch);
}

/// A transformed tensor yields as many elements as the tensor holds, each one
/// that the function gives for the element in its place.
pub proof fn law_mapped_elements<A, B>(
    elements: Seq<A>,
    per_batch: nat,
    accepts: spec_fn(A) -> bool,
    gives: spec_fn(A, B) -> bool,
    room: spec_fn(nat) -> bool,
    items: Seq<B>,
)
    requires
        per_batch > 0,
    ensures
        crate::flow::mapped(
            crate::flow::listed(elements, per_batch),
            accepts,
            gives,
            room,
        ).yields(items) <==> crate::flow::related(elements, items, gives),
{
    let input = crate::flow::listed(elements, per_batch);
    let flow = crate::flow::mapped(input, accepts, gives, room);
    crate::flow::lemma_even_layout(elements.len(), per_batch);
    assert(elements.take(elements.len() as int) =~= elements);
    if flow.yields(items) {
        let ins = choose|ins: Seq<A>| #[trigger]
            (input.emits)(ins) && crate::flow::related(ins, items, gives);
        assert(ins =~= elements);
    }
    if crate::flow::related(elements, items, gives) {
        assert((input.emits)(elements));
    }
}

/// What is sunk into a file and scanned again comes back as it was.
pub proof fn law_sink_then_scan<T: Element>(elements: Seq<T>, per_batch: nat, items: Seq<T>)
    requires
        per_batch > 0,
    ensures
        crate::flow::listed(
            crate::view::decode_all::<T>(crate::view::encode_all(elements)),
            per_batch,
        ).yields(items) <==> items == elements,
{
    crate::view::lemma_decode_all_encoded(elements);
    law_lazy_round_trip(elements, per_batch, items);
}

} // verus!
