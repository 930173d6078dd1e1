//! What plans hand out, in terms of the functions and elements that they were
//! made of.

use crate::flow::Flow;
use crate::lazy::LazyTensor;
use crate::summand::Summand;
use crate::tensor::{Tensor, TensorFileError};
use crate::view::Element;
use std::ops::{Add, Mul, Sub};
use vstd::prelude::*;
use vstd::std_specs::ops::*;

verus! {

/// The setting of a combination is the smaller of the two.
pub proof fn law_smaller(a: nat, b: nat)
    ensures
        crate::lazy::smaller(a, b) <= a,
        crate::lazy::smaller(a, b) <= b,
        crate::lazy::smaller(a, b) == a || crate::lazy::smaller(a, b) == b,
{
}

/// A combination fails as its left side does, otherwise as its right side does.
pub proof fn law_either_failure(left: Option<TensorFileError>, right: Option<TensorFileError>)
    ensures
        left is Some ==> crate::lazy::either_failure(left, right) == left,
        left is None ==> crate::lazy::either_failure(left, right) == right,
{
}

/// A batch holds as many elements as the setting has room for, and one where
/// it has room for none.
pub proof fn law_batches_are_filled(batch_bytes: nat, size: nat)
    requires
        size > 0,
    ensures
        batch_bytes < size ==> crate::lazy::batch_elems(batch_bytes, size) == 1,
        size <= batch_bytes ==> {
            &&& crate::lazy::batch_elems(batch_bytes, size) * size <= batch_bytes
            &&& batch_bytes < (crate::lazy::batch_elems(batch_bytes, size) + 1) * size
        },
{
    vstd::arithmetic::div_mod::lemma_fundamental_div_mod(batch_bytes as int, size as int);
    let n = batch_bytes as int / size as int;
    let rest = batch_bytes as int % size as int;
    if batch_bytes < size {
        vstd::arithmetic::div_mod::lemma_basic_div(batch_bytes as int, size as int);
    } else {
        assert(n > 0) by (nonlinear_arith)
            requires
                batch_bytes == size * n + rest,
                rest < size,
                size <= batch_bytes,
        ;
        assert(n * size <= batch_bytes < (n + 1) * size) by (nonlinear_arith)
            requires
                batch_bytes == size * n + rest,
                0 <= rest < size,
        ;
    }
}

/// The number of elements in batches is the sum of the sizes of the batches.
pub proof fn law_total(layout: Seq<nat>)
    ensures
        crate::flow::total(layout) == layout.fold_left(0int, |sum: int, n: nat| sum + n),
    decreases layout.len(),
{
    if layout.len() > 0 {
        law_total(layout.drop_last());
    }
}

/// A source is cut into full batches and a last one with what is left over.
pub proof fn law_source_batches(len: nat, per_batch: nat, i: int)
    requires
        per_batch > 0,
        0 <= i,
    ensures
        i < crate::flow::even_layout(len, per_batch).len() <==> i * per_batch < len,
        i < crate::flow::even_layout(len, per_batch).len() ==> crate::flow::even_layout(
            len,
            per_batch,
        )[i] == if (i + 1) * per_batch <= len {
            per_batch as int
        } else {
            len - i * per_batch
        },
    decreases len,
{
    assert((i + 1) * per_batch == i * per_batch + per_batch) by (nonlinear_arith);
    assert(0 <= i * per_batch) by (nonlinear_arith)
        requires
            0 <= i,
    ;
    if i > 0 {
        assert(i * per_batch >= per_batch) by (nonlinear_arith)
            requires
                i > 0,
        ;
    }
    if len > per_batch {
        let rest = (len - per_batch) as nat;
        if i > 0 {
            law_source_batches(rest, per_batch, i - 1);
            assert((i - 1) * per_batch == i * per_batch - per_batch) by (nonlinear_arith);
        }
    }
}

/// A batch ends after the first `p` elements.
pub open spec fn ends_at(layout: Seq<nat>, p: int) -> bool
    decreases layout.len(),
{
    p == 0 || (layout.len() > 0 && p >= layout[0] && ends_at(layout.skip(1), p - layout[0]))
}

proof fn lemma_ends_consumed(layout: Seq<nat>, n: nat, p: int)
    requires
        crate::flow::positive(layout),
        layout.len() > 0,
        0 < n <= layout[0],
        p >= n,
    ensures
        ends_at(crate::flow::consume(layout, n), p - n) <==> p == n || ends_at(layout, p),
{
    let rest = crate::flow::consume(layout, n);
    assert(layout[0] > 0);
    if layout[0] > n {
        assert(rest.skip(1) =~= layout.skip(1));
    }
}

/// Two streams are re-chunked where either of their batches ends, and nowhere
/// else, as far as both reach.
pub proof fn law_rechunked_batches(left: Seq<nat>, right: Seq<nat>, p: int)
    requires
        forall|i: int| 0 <= i < left.len() ==> #[trigger] left[i] > 0,
        forall|i: int| 0 <= i < right.len() ==> #[trigger] right[i] > 0,
        0 <= p,
    ensures
        ends_at(crate::flow::merged_layout(left, right), p) <==> {
            &&& p <= crate::flow::total(left)
            &&& p <= crate::flow::total(right)
            &&& ends_at(left, p) || ends_at(right, p)
        },
    decreases left.len() + right.len(),
{
    crate::flow::lemma_positive_total(left);
    crate::flow::lemma_positive_total(right);
    if left.len() == 0 || right.len() == 0 {
        if left.len() == 0 {
            assert(crate::flow::total(left) == 0);
        } else {
            assert(crate::flow::total(right) == 0);
        }
    } else {
        let n = crate::flow::overlap(left, right);
        let l = crate::flow::consume(left, n);
        let r = crate::flow::consume(right, n);
        let rest = crate::flow::merged_layout(l, r);
        assert(left[0] > 0 && right[0] > 0);
        crate::flow::lemma_consume(left, n);
        crate::flow::lemma_consume(right, n);
        assert(crate::flow::merged_layout(left, right).skip(1) =~= rest);
        if p >= n {
            law_rechunked_batches(l, r, p - n);
            lemma_ends_consumed(left, n, p);
            lemma_ends_consumed(right, n, p);
            assert(ends_at(left, n as int) || ends_at(right, n as int)) by {
                reveal_with_fuel(ends_at, 2);
            }
        }
    }
}

/// A source that holds elements hands them out, in order: what it has handed
/// out is always the first of them, and in the end all.
pub proof fn law_held_elements<A>(elements: Seq<A>, per_batch: nat, items: Seq<A>)
    requires
        per_batch > 0,
    ensures
        ({
            let flow = crate::flow::listed(elements, per_batch);
            &&& flow.layout == crate::flow::even_layout(elements.len(), per_batch)
            &&& flow.matched && flow.safe && flow.fits
            &&& (flow.emits)(items) <==> items.is_prefix_of(elements)
            &&& flow.yields(items) <==> items == elements
        }),
{
    crate::laws::law_lazy_round_trip(elements, per_batch, items);
    if items.is_prefix_of(elements) {
        assert(items =~= elements.take(items.len() as int));
    }
}

/// A scan hands out what the bytes of the file represent, element by element.
pub proof fn law_scanned_elements<T: Element>(bytes: Seq<u8>, per_batch: nat, items: Seq<T>)
    requires
        per_batch > 0,
    ensures
        crate::flow::listed(crate::view::decode_all::<T>(bytes), per_batch).yields(items) <==> {
            &&& items.len() == bytes.len() / vstd::layout::size_of::<T>()
            &&& forall|i: int|
                0 <= i < items.len() ==> #[trigger] items[i] == T::decodes(
                    bytes.subrange(
                        i * vstd::layout::size_of::<T>(),
                        i * vstd::layout::size_of::<T>() + vstd::layout::size_of::<T>(),
                    ),
                )
        },
{
    T::lemma_size();
    let elements = crate::view::decode_all::<T>(bytes);
    let size = vstd::layout::size_of::<T>();
    crate::laws::law_lazy_round_trip(elements, per_batch, items);
    if items.len() == bytes.len() / size && forall|i: int|
        0 <= i < items.len() ==> #[trigger] items[i] == T::decodes(
            bytes.subrange(i * size, i * size + size),
        ) {
        assert(items =~= elements);
    }
}

/// A generated plan has element `i` be what the function returns for `i`, for
/// as many indices as asked for; it can be executed exactly if the function can
/// be called with each of them.
pub proof fn law_generated_by_function<T, F: Fn(usize) -> T>(
    f: F,
    len: usize,
    per_batch: nat,
    items: Seq<T>,
)
    requires
        per_batch > 0,
    ensures
        ({
            let flow = crate::flow::generated(
                len as nat,
                per_batch,
                crate::lazy::index_accepts(f),
                crate::lazy::index_gives(f),
                crate::lazy::room_of::<T>(),
            );
            &&& flow.layout == crate::flow::even_layout(len as nat, per_batch)
            &&& flow.matched
            &&& flow.safe <==> forall|i: usize| i < len ==> #[trigger] call_requires(f, (i,))
            &&& (flow.emits)(items) <==> items.len() <= len && forall|i: usize|
                i < items.len() ==> #[trigger] call_ensures(f, (i,), items[i as int])
            &&& flow.yields(items) <==> items.len() == len && forall|i: usize|
                i < len ==> #[trigger] call_ensures(f, (i,), items[i as int])
        }),
{
    let accepts = crate::lazy::index_accepts(f);
    let gives = crate::lazy::index_gives(f);
    let room = crate::lazy::room_of::<T>();
    let flow = crate::flow::generated(len as nat, per_batch, accepts, gives, room);
    crate::flow::lemma_even_layout(len as nat, per_batch);
    if flow.safe {
        assert forall|i: usize| i < len implies #[trigger] call_requires(f, (i,)) by {
            assert(accepts(i as nat));
        }
    }
    if forall|i: usize| i < len ==> #[trigger] call_requires(f, (i,)) {
        assert forall|i: nat| i < len implies #[trigger] accepts(i) by {
            assert(call_requires(f, (i as usize,)));
        }
    }
    if (flow.emits)(items) {
        assert forall|i: usize| i < items.len() implies #[trigger] call_ensures(
            f,
            (i,),
            items[i as int],
        ) by {
            assert(gives(i as nat, items[i as int]));
        }
    }
    if items.len() <= len && forall|i: usize|
        i < items.len() ==> #[trigger] call_ensures(f, (i,), items[i as int]) {
        assert forall|i: int| 0 <= i < items.len() implies gives(
            i as nat,
            #[trigger] items[i],
        ) by {
            assert(call_ensures(f, (i as usize,), items[i as usize as int]));
        }
    }
}

/// A transformed plan yields, in the place of each element, what the function
/// returns for it; it comes in the same batches, fails if its input does, and
/// can be executed exactly if the function can be called with every element.
pub proof fn law_mapped_by_function<T, U, F: Fn(T) -> U>(f: F, input: Flow<T>, items: Seq<U>)
    ensures
        ({
            let flow = crate::flow::mapped(
                input,
                crate::lazy::fn_accepts(f),
                crate::lazy::fn_gives(f),
                crate::lazy::room_of::<U>(),
            );
            &&& flow.layout == input.layout
            &&& flow.matched == input.matched
            &&& flow.safe <==> input.safe && forall|ins: Seq<T>, i: int|
                #![trigger (input.emits)(ins), ins[i]]
                (input.emits)(ins) && 0 <= i < ins.len() ==> call_requires(f, (ins[i],))
            &&& (flow.emits)(items) <==> exists|ins: Seq<T>| #[trigger]
                (input.emits)(ins) && ins.len() == items.len() && forall|i: int|
                    0 <= i < items.len() ==> call_ensures(f, (ins[i],), #[trigger] items[i])
            &&& flow.yields(items) <==> exists|ins: Seq<T>| #[trigger]
                input.yields(ins) && ins.len() == items.len() && forall|i: int|
                    0 <= i < items.len() ==> call_ensures(f, (ins[i],), #[trigger] items[i])
        }),
{
    let accepts = crate::lazy::fn_accepts(f);
    let gives = crate::lazy::fn_gives(f);
    let flow = crate::flow::mapped(input, accepts, gives, crate::lazy::room_of::<U>());
    if flow.safe {
        assert forall|ins: Seq<T>, i: int|
            #![trigger (input.emits)(ins), ins[i]]
            (input.emits)(ins) && 0 <= i < ins.len() implies call_requires(f, (ins[i],)) by {
            assert(accepts(ins[i]));
        }
    }
    if input.safe && forall|ins: Seq<T>, i: int|
        #![trigger (input.emits)(ins), ins[i]]
        (input.emits)(ins) && 0 <= i < ins.len() ==> call_requires(f, (ins[i],)) {
        assert forall|ins: Seq<T>, i: int| #[trigger]
            (input.emits)(ins) && 0 <= i < ins.len() implies accepts(#[trigger] ins[i]) by {}
    }
    if (flow.emits)(items) {
        let ins = choose|ins: Seq<T>| #[trigger]
            (input.emits)(ins) && crate::flow::related(ins, items, gives);
        if flow.yields(items) {
            assert(input.yields(ins));
        }
        assert forall|i: int| 0 <= i < items.len() implies call_ensures(
            f,
            (ins[i],),
            #[trigger] items[i],
        ) by {
            assert(gives(ins[i], items[i]));
        }
    }
    if exists|ins: Seq<T>| #[trigger]
        (input.emits)(ins) && ins.len() == items.len() && forall|i: int|
            0 <= i < items.len() ==> call_ensures(f, (ins[i],), #[trigger] items[i]) {
        let ins = choose|ins: Seq<T>| #[trigger]
            (input.emits)(ins) && ins.len() == items.len() && forall|i: int|
                0 <= i < items.len() ==> call_ensures(f, (ins[i],), #[trigger] items[i]);
        assert(crate::flow::related(ins, items, gives));
    }
    if exists|ins: Seq<T>| #[trigger]
        input.yields(ins) && ins.len() == items.len() && forall|i: int|
            0 <= i < items.len() ==> call_ensures(f, (ins[i],), #[trigger] items[i]) {
        let ins = choose|ins: Seq<T>| #[trigger]
            input.yields(ins) && ins.len() == items.len() && forall|i: int|
                0 <= i < items.len() ==> call_ensures(f, (ins[i],), #[trigger] items[i]);
        assert((input.emits)(ins));
        assert(crate::flow::related(ins, items, gives));
    }
}

/// Two tensors combined with a function yield, in each place, what the function
/// returns for the two elements there. This succeeds exactly if the tensors are
/// equally long, and can be executed exactly if the function can be called with
/// the pairs of elements, as far as there are pairs.
pub proof fn law_zipped_by_function<T, U, V, F: Fn(T, U) -> V>(
    f: F,
    left: Seq<T>,
    right: Seq<U>,
    left_batch: nat,
    right_batch: nat,
    items: Seq<V>,
)
    requires
        left_batch > 0,
        right_batch > 0,
    ensures
        ({
            let flow = crate::flow::zipped(
                crate::flow::listed(left, left_batch),
                crate::flow::listed(right, right_batch),
                crate::lazy::pair_accepts(f),
                crate::lazy::pair_gives(f),
                crate::lazy::room_of::<V>(),
            );
            &&& flow.matched <==> left.len() == right.len()
            &&& flow.safe <==> forall|i: int|
                0 <= i < left.len() && i < right.len() ==> call_requires(
                    f,
                    (#[trigger] left[i], right[i]),
                )
            &&& flow.yields(items) <==> left.len() == right.len() == items.len() && forall|i: int|
                0 <= i < items.len() ==> call_ensures(f, (left[i], right[i]), #[trigger] items[i])
        }),
{
    let accepts = crate::lazy::pair_accepts(f);
    let gives = crate::lazy::pair_gives(f);
    let room = crate::lazy::room_of::<V>();
    let l = crate::flow::listed(left, left_batch);
    let r = crate::flow::listed(right, right_batch);
    let flow = crate::flow::zipped(l, r, accepts, gives, room);
    crate::laws::law_zipped_elements(
        left,
        right,
        left_batch,
        right_batch,
        accepts,
        gives,
        room,
        items,
    );
    assert(left.take(left.len() as int) =~= left);
    assert(right.take(right.len() as int) =~= right);
    assert((l.emits)(left) && (r.emits)(right));
    if flow.safe {
        assert forall|i: int| 0 <= i < left.len() && i < right.len() implies call_requires(
            f,
            (#[trigger] left[i], right[i]),
        ) by {
            assert(accepts(left[i], right[i]));
        }
    }
    if forall|i: int|
        0 <= i < left.len() && i < right.len() ==> call_requires(
            f,
            (#[trigger] left[i], right[i]),
        ) {
        assert forall|ls: Seq<T>, rs: Seq<U>, i: int|
            #![trigger (l.emits)(ls), (r.emits)(rs), ls[i]]
            (l.emits)(ls) && (r.emits)(rs) && 0 <= i < ls.len() && i < rs.len() implies accepts(
            ls[i],
            rs[i],
        ) by {
            assert(ls[i] == left.take(ls.len() as int)[i]);
            assert(rs[i] == right.take(rs.len() as int)[i]);
            assert(call_requires(f, (left[i], right[i])));
        }
    }
    if crate::flow::zip_related(left, right, items, gives) {
        assert forall|i: int| 0 <= i < items.len() implies call_ensures(
            f,
            (left[i], right[i]),
            #[trigger] items[i],
        ) by {
            assert(gives(left[i], right[i], items[i]));
        }
    }
}

/// Two plans combined with a function: the combination succeeds exactly if both
/// do and hand out equally many elements, and what it has handed out is what the
/// function returns for elements that the two may have handed out, in the same
/// places.
pub proof fn law_zipped_plans<T, U, V, F: Fn(T, U) -> V>(
    f: F,
    left: Flow<T>,
    right: Flow<U>,
    items: Seq<V>,
)
    ensures
        ({
            let flow = crate::flow::zipped(
                left,
                right,
                crate::lazy::pair_accepts(f),
                crate::lazy::pair_gives(f),
                crate::lazy::room_of::<V>(),
            );
            &&& flow.layout == crate::flow::merged_layout(left.layout, right.layout)
            &&& flow.matched <==> left.matched && right.matched && crate::flow::total(left.layout)
                == crate::flow::total(right.layout)
            &&& (flow.emits)(items) <==> exists|l: Seq<T>, r: Seq<U>|
                #![trigger (left.emits)(l), (right.emits)(r)]
                (left.emits)(l) && (right.emits)(r) && items.len() <= l.len() && items.len()
                    <= r.len() && forall|i: int|
                    0 <= i < items.len() ==> call_ensures(f, (l[i], r[i]), #[trigger] items[i])
            &&& flow.safe <==> left.safe && right.safe && forall|l: Seq<T>, r: Seq<U>, i: int|
                #![trigger (left.emits)(l), (right.emits)(r), l[i]]
                (left.emits)(l) && (right.emits)(r) && 0 <= i < l.len() && i < r.len()
                    ==> call_requires(f, (l[i], r[i]))
        }),
{
    let accepts = crate::lazy::pair_accepts(f);
    let gives = crate::lazy::pair_gives(f);
    let room = crate::lazy::room_of::<V>();
    let flow = crate::flow::zipped(left, right, accepts, gives, room);
    if (flow.emits)(items) {
        let (l, r) = choose|l: Seq<T>, r: Seq<U>|
            #![trigger (left.emits)(l), (right.emits)(r)]
            (left.emits)(l) && (right.emits)(r) && crate::flow::zip_related(l, r, items, gives);
        assert(crate::flow::zip_related(l, r, items, gives));
        assert forall|i: int| 0 <= i < items.len() implies call_ensures(
            f,
            (l[i], r[i]),
            #[trigger] items[i],
        ) by {
            assert(gives(l[i], r[i], items[i]));
        }
    }
    if exists|l: Seq<T>, r: Seq<U>|
        #![trigger (left.emits)(l), (right.emits)(r)]
        (left.emits)(l) && (right.emits)(r) && items.len() <= l.len() && items.len() <= r.len()
            && forall|i: int|
            0 <= i < items.len() ==> call_ensures(f, (l[i], r[i]), #[trigger] items[i]) {
        let (l, r) = choose|l: Seq<T>, r: Seq<U>|
            #![trigger (left.emits)(l), (right.emits)(r)]
            (left.emits)(l) && (right.emits)(r) && items.len() <= l.len() && items.len() <= r.len()
                && forall|i: int|
                0 <= i < items.len() ==> call_ensures(f, (l[i], r[i]), #[trigger] items[i]);
        assert(crate::flow::zip_related(l, r, items, gives));
    }
    if flow.safe {
        assert forall|l: Seq<T>, r: Seq<U>, i: int|
            #![trigger (left.emits)(l), (right.emits)(r), l[i]]
            (left.emits)(l) && (right.emits)(r) && 0 <= i < l.len() && i
                < r.len() implies call_requires(f, (l[i], r[i])) by {
            assert(accepts(l[i], r[i]));
        }
    }
}

/// Files are sound exactly if every one that was opened is.
pub proof fn law_sound_files(files: crate::lazy::Files)
    ensures
        crate::lazy::files_wf(files) <==> forall|i: int|
            0 <= i < files.len() && (#[trigger] files[i]) is Ok ==> files[i]->Ok_0.wf(),
{
    if crate::lazy::files_wf(files) {
        assert forall|i: int|
            0 <= i < files.len() && (#[trigger] files[i]) is Ok implies files[i]->Ok_0.wf() by {}
    }
}

/// `a + b` on plans: it succeeds exactly if both do and hand out equally many
/// elements, what it has handed out is what the elements' own operator gives for
/// those that the two may have handed out, in the same places, and it can be
/// executed exactly if that operator is defined for them.
pub proof fn law_add_of_plans<T: Add<Output = T>>(left: Flow<T>, right: Flow<T>, items: Seq<T>)
    ensures
        ({
            let flow = crate::flow::zipped(
                left,
                right,
                crate::lazy::add_accepts::<T>(),
                crate::lazy::add_gives::<T>(),
                crate::lazy::room_of::<T>(),
            );
            &&& flow.layout == crate::flow::merged_layout(left.layout, right.layout)
            &&& flow.matched <==> left.matched && right.matched && crate::flow::total(left.layout)
                == crate::flow::total(right.layout)
            &&& (flow.emits)(items) ==> exists|l: Seq<T>, r: Seq<T>|
                #![trigger (left.emits)(l), (right.emits)(r)]
                (left.emits)(l) && (right.emits)(r) && items.len() <= l.len() && items.len()
                    <= r.len() && forall|i: int|
                    0 <= i < items.len() ==> call_ensures(T::add, (l[i], r[i]), #[trigger] items[i])
                        && (T::obeys_add_spec() ==> items[i] == l[i].add_spec(r[i]))
            &&& flow.safe <==> left.safe && right.safe && forall|l: Seq<T>, r: Seq<T>, i: int|
                #![trigger (left.emits)(l), (right.emits)(r), l[i]]
                (left.emits)(l) && (right.emits)(r) && 0 <= i < l.len() && i < r.len()
                    ==> l[i].add_req(r[i])
        }),
{
    let accepts = crate::lazy::add_accepts::<T>();
    let gives = crate::lazy::add_gives::<T>();
    let room = crate::lazy::room_of::<T>();
    let flow = crate::flow::zipped(left, right, accepts, gives, room);
    if (flow.emits)(items) {
        let (l, r) = choose|l: Seq<T>, r: Seq<T>|
            #![trigger (left.emits)(l), (right.emits)(r)]
            (left.emits)(l) && (right.emits)(r) && crate::flow::zip_related(l, r, items, gives);
        assert(crate::flow::zip_related(l, r, items, gives));
        assert forall|i: int| 0 <= i < items.len() implies call_ensures(
            T::add,
            (l[i], r[i]),
            #[trigger] items[i],
        ) && (T::obeys_add_spec() ==> items[i] == l[i].add_spec(r[i])) by {
            assert(gives(l[i], r[i], items[i]));
        }
    }
    if flow.safe {
        assert forall|l: Seq<T>, r: Seq<T>, i: int|
            #![trigger (left.emits)(l), (right.emits)(r), l[i]]
            (left.emits)(l) && (right.emits)(r) && 0 <= i < l.len() && i
                < r.len() implies l[i].add_req(r[i]) by {
            assert(accepts(l[i], r[i]));
        }
    }
}

/// `a + b` on tensors is defined exactly if they are equally long, the result
/// can be held, and the elements' own operator is defined in every place; on
/// plans it is defined for any two.
pub proof fn law_add_is_defined<T: Element + Add<Output = T>>(
    a: Tensor<T>,
    b: Tensor<T>,
    left: LazyTensor<T>,
    right: LazyTensor<T>,
)
    ensures
        AddSpec::add_req(&a, &b) <==> {
            &&& a.elements().len() == b.elements().len()
            &&& crate::tensor::holdable::<T>(a.elements().len())
            &&& forall|i: int|
                0 <= i < a.elements().len() ==> (#[trigger] a.elements()[i]).add_req(
                    b.elements()[i],
                )
        },
        AddSpec::add_req(left, right) <==> left.wf() && right.wf(),
{
}

/// `a - b` on plans: it succeeds exactly if both do and hand out equally many
/// elements, what it has handed out is what the elements' own operator gives for
/// those that the two may have handed out, in the same places, and it can be
/// executed exactly if that operator is defined for them.
pub proof fn law_sub_of_plans<T: Sub<Output = T>>(left: Flow<T>, right: Flow<T>, items: Seq<T>)
    ensures
        ({
            let flow = crate::flow::zipped(
                left,
                right,
                crate::lazy::sub_accepts::<T>(),
                crate::lazy::sub_gives::<T>(),
                crate::lazy::room_of::<T>(),
            );
            &&& flow.layout == crate::flow::merged_layout(left.layout, right.layout)
            &&& flow.matched <==> left.matched && right.matched && crate::flow::total(left.layout)
                == crate::flow::total(right.layout)
            &&& (flow.emits)(items) ==> exists|l: Seq<T>, r: Seq<T>|
                #![trigger (left.emits)(l), (right.emits)(r)]
                (left.emits)(l) && (right.emits)(r) && items.len() <= l.len() && items.len()
                    <= r.len() && forall|i: int|
                    0 <= i < items.len() ==> call_ensures(T::sub, (l[i], r[i]), #[trigger] items[i])
                        && (T::obeys_sub_spec() ==> items[i] == l[i].sub_spec(r[i]))
            &&& flow.safe <==> left.safe && right.safe && forall|l: Seq<T>, r: Seq<T>, i: int|
                #![trigger (left.emits)(l), (right.emits)(r), l[i]]
                (left.emits)(l) && (right.emits)(r) && 0 <= i < l.len() && i < r.len()
                    ==> l[i].sub_req(r[i])
        }),
{
    let accepts = crate::lazy::sub_accepts::<T>();
    let gives = crate::lazy::sub_gives::<T>();
    let room = crate::lazy::room_of::<T>();
    let flow = crate::flow::zipped(left, right, accepts, gives, room);
    if (flow.emits)(items) {
        let (l, r) = choose|l: Seq<T>, r: Seq<T>|
            #![trigger (left.emits)(l), (right.emits)(r)]
            (left.emits)(l) && (right.emits)(r) && crate::flow::zip_related(l, r, items, gives);
        assert(crate::flow::zip_related(l, r, items, gives));
        assert forall|i: int| 0 <= i < items.len() implies call_ensures(
            T::sub,
            (l[i], r[i]),
            #[trigger] items[i],
        ) && (T::obeys_sub_spec() ==> items[i] == l[i].sub_spec(r[i])) by {
            assert(gives(l[i], r[i], items[i]));
        }
    }
    if flow.safe {
        assert forall|l: Seq<T>, r: Seq<T>, i: int|
            #![trigger (left.emits)(l), (right.emits)(r), l[i]]
            (left.emits)(l) && (right.emits)(r) && 0 <= i < l.len() && i
                < r.len() implies l[i].sub_req(r[i]) by {
            assert(accepts(l[i], r[i]));
        }
    }
}

/// `a - b` on tensors is defined exactly if they are equally long, the result
/// can be held, and the elements' own operator is defined in every place; on
/// plans it is defined for any two.
pub proof fn law_sub_is_defined<T: Element + Sub<Output = T>>(
    a: Tensor<T>,
    b: Tensor<T>,
    left: LazyTensor<T>,
    right: LazyTensor<T>,
)
    ensures
        SubSpec::sub_req(&a, &b) <==> {
            &&& a.elements().len() == b.elements().len()
            &&& crate::tensor::holdable::<T>(a.elements().len())
            &&& forall|i: int|
                0 <= i < a.elements().len() ==> (#[trigger] a.elements()[i]).sub_req(
                    b.elements()[i],
                )
        },
        SubSpec::sub_req(left, right) <==> left.wf() && right.wf(),
{
}

/// `a * b` on plans: it succeeds exactly if both do and hand out equally many
/// elements, what it has handed out is what the elements' own operator gives for
/// those that the two may have handed out, in the same places, and it can be
/// executed exactly if that operator is defined for them.
pub proof fn law_mul_of_plans<T: Mul<Output = T>>(left: Flow<T>, right: Flow<T>, items: Seq<T>)
    ensures
        ({
            let flow = crate::flow::zipped(
                left,
                right,
                crate::lazy::mul_accepts::<T>(),
                crate::lazy::mul_gives::<T>(),
                crate::lazy::room_of::<T>(),
            );
            &&& flow.layout == crate::flow::merged_layout(left.layout, right.layout)
            &&& flow.matched <==> left.matched && right.matched && crate::flow::total(left.layout)
                == crate::flow::total(right.layout)
            &&& (flow.emits)(items) ==> exists|l: Seq<T>, r: Seq<T>|
                #![trigger (left.emits)(l), (right.emits)(r)]
                (left.emits)(l) && (right.emits)(r) && items.len() <= l.len() && items.len()
                    <= r.len() && forall|i: int|
                    0 <= i < items.len() ==> call_ensures(T::mul, (l[i], r[i]), #[trigger] items[i])
                        && (T::obeys_mul_spec() ==> items[i] == l[i].mul_spec(r[i]))
            &&& flow.safe <==> left.safe && right.safe && forall|l: Seq<T>, r: Seq<T>, i: int|
                #![trigger (left.emits)(l), (right.emits)(r), l[i]]
                (left.emits)(l) && (right.emits)(r) && 0 <= i < l.len() && i < r.len()
                    ==> l[i].mul_req(r[i])
        }),
{
    let accepts = crate::lazy::mul_accepts::<T>();
    let gives = crate::lazy::mul_gives::<T>();
    let room = crate::lazy::room_of::<T>();
    let flow = crate::flow::zipped(left, right, accepts, gives, room);
    if (flow.emits)(items) {
        let (l, r) = choose|l: Seq<T>, r: Seq<T>|
            #![trigger (left.emits)(l), (right.emits)(r)]
            (left.emits)(l) && (right.emits)(r) && crate::flow::zip_related(l, r, items, gives);
        assert(crate::flow::zip_related(l, r, items, gives));
        assert forall|i: int| 0 <= i < items.len() implies call_ensures(
            T::mul,
            (l[i], r[i]),
            #[trigger] items[i],
        ) && (T::obeys_mul_spec() ==> items[i] == l[i].mul_spec(r[i])) by {
            assert(gives(l[i], r[i], items[i]));
        }
    }
    if flow.safe {
        assert forall|l: Seq<T>, r: Seq<T>, i: int|
            #![trigger (left.emits)(l), (right.emits)(r), l[i]]
            (left.emits)(l) && (right.emits)(r) && 0 <= i < l.len() && i
                < r.len() implies l[i].mul_req(r[i]) by {
            assert(accepts(l[i], r[i]));
        }
    }
}

/// `a * b` on tensors is defined exactly if they are equally long, the result
/// can be held, and the elements' own operator is defined in every place; on
/// plans it is defined for any two.
pub proof fn law_mul_is_defined<T: Element + Mul<Output = T>>(
    a: Tensor<T>,
    b: Tensor<T>,
    left: LazyTensor<T>,
    right: LazyTensor<T>,
)
    ensures
        MulSpec::mul_req(&a, &b) <==> {
            &&& a.elements().len() == b.elements().len()
            &&& crate::tensor::holdable::<T>(a.elements().len())
            &&& forall|i: int|
                0 <= i < a.elements().len() ==> (#[trigger] a.elements()[i]).mul_req(
                    b.elements()[i],
                )
        },
        MulSpec::mul_req(left, right) <==> left.wf() && right.wf(),
{
}

/// A tensor can be multiplied by a number exactly if the result can be held and
/// each element can be.
pub proof fn law_scaling_is_defined<T: Element + Mul<Output = T>>(a: Tensor<T>, scalar: T)
    ensures
        MulSpec::mul_req(&a, scalar) <==> {
            &&& crate::tensor::holdable::<T>(a.elements().len())
            &&& forall|i: int|
                0 <= i < a.elements().len() ==> (#[trigger] a.elements()[i]).mul_req(scalar)
        },
{
}

/// A lazy sum of integers is the one element that adding the input's elements
/// from left to right gives, for every batch size.
pub proof fn law_summed_elements<T: Summand>(input: Flow<T>, items: Seq<T>)
    requires
        T::exact(),
    ensures
        crate::lazy::summed(input).yields(items) <==> exists|ins: Seq<T>| #[trigger]
            input.yields(ins) && items == seq![
                ins.fold_left(T::nil(), |x: T, y: T| x.joined(y)),
            ],
{
    crate::laws::law_lazy_sum(input, items);
    assert(crate::kernel::join::<T>() =~= |x: T, y: T| x.joined(y));
    if crate::lazy::summed(input).yields(items) {
        let ins = choose|ins: Seq<T>| #[trigger]
            input.yields(ins) && items[0] == crate::kernel::naive_sum(ins);
        assert(items =~= seq![ins.fold_left(T::nil(), |x: T, y: T| x.joined(y))]);
    }
    if exists|ins: Seq<T>| #[trigger]
        input.yields(ins) && items == seq![ins.fold_left(T::nil(), |x: T, y: T| x.joined(y))] {
        let ins = choose|ins: Seq<T>| #[trigger]
            input.yields(ins) && items == seq![ins.fold_left(T::nil(), |x: T, y: T| x.joined(y))];
        assert(input.yields(ins) && items[0] == crate::kernel::naive_sum(ins));
    }
}

/// A lazy sum of numbers of any kind takes in every element that its input
/// yields exactly once, and yields one element: whatever addition adds up is
/// the sum over the elements.
pub proof fn law_every_element_is_summed_once<T: Summand>(
    measure: spec_fn(T) -> int,
    input: Flow<T>,
    items: Seq<T>,
)
    requires
        forall|x: T, y: T| #[trigger] measure(x.joined(y)) == measure(x) + measure(y),
        measure(T::nil()) == 0,
        crate::lazy::summed(input).yields(items),
    ensures
        items.len() == 1,
        exists|ins: Seq<T>| #[trigger]
            input.yields(ins) && measure(items[0]) == ins.map_values(measure).fold_left(
                0int,
                |a: int, b: int| a + b,
            ),
{
    crate::laws::lemma_summed(input, items);
    let ins = choose|ins: Seq<T>| #[trigger]
        input.yields(ins) && items[0] == crate::sum_laws::batched_sum(ins, input.layout);
    crate::sum_laws::law_every_number_is_added_once_in_batches(measure, ins, input.layout);
    assert(input.yields(ins) && measure(items[0]) == ins.map_values(measure).fold_left(
        0int,
        |a: int, b: int| a + b,
    ));
}

/// A lazy sum yields exactly one element wherever its input yields elements, and
/// nothing where the input fails; it needs no more than its input to be
/// executed.
pub proof fn law_sums_succeed_with_their_input<T: Summand>(input: Flow<T>, ins: Seq<T>)
    ensures
        crate::lazy::summed(input).matched == input.matched,
        crate::lazy::summed(input).safe == input.safe,
        crate::lazy::summed(input).fits <==> input.fits && crate::tensor::holdable::<T>(1),
        input.matched ==> crate::lazy::summed(input).layout == seq![1nat],
        input.yields(ins) ==> exists|total: T| #[trigger]
            crate::lazy::summed(input).yields(seq![total]),
{
    if input.yields(ins) {
        let total = crate::sum_laws::batched_sum(ins, input.layout);
        crate::laws::lemma_summed(input, seq![total]);
        assert(crate::lazy::summed(input).yields(seq![total]));
    }
}

/// What a plan needs room for is its batches: one that generates, transforms or
/// combines has to allocate each of them.
pub proof fn law_room<T, U, V>(
    len: nat,
    per_batch: nat,
    at: spec_fn(nat) -> bool,
    gives: spec_fn(nat, T) -> bool,
    input: Flow<T>,
    takes: spec_fn(T) -> bool,
    makes: spec_fn(T, V) -> bool,
    other: Flow<U>,
    pairs: spec_fn(T, U) -> bool,
    results: spec_fn(T, U, V) -> bool,
)
    ensures
        crate::flow::generated(len, per_batch, at, gives, crate::lazy::room_of::<T>()).fits
            <==> forall|i: int|
            0 <= i < crate::flow::even_layout(len, per_batch).len() ==> crate::tensor::holdable::<
                T,
            >(#[trigger] crate::flow::even_layout(len, per_batch)[i]),
        crate::flow::mapped(input, takes, makes, crate::lazy::room_of::<V>()).fits
            <==> input.fits && forall|i: int|
            0 <= i < input.layout.len() ==> crate::tensor::holdable::<V>(
                #[trigger] input.layout[i],
            ),
        crate::flow::zipped(input, other, pairs, results, crate::lazy::room_of::<V>()).fits
            <==> input.fits && other.fits && forall|i: int|
            0 <= i < crate::flow::merged_layout(input.layout, other.layout).len()
                ==> crate::tensor::holdable::<V>(
                #[trigger] crate::flow::merged_layout(input.layout, other.layout)[i],
            ),
{
}

} // verus!
