//! What a lazy plan means: the batches it hands out and the elements in them.
//!
//! A [`Flow`] describes every execution of a plan at one batch size. How many
//! elements there are, and how they are cut into batches, is fixed by the
//! plan; which values they have is a relation, since the functions that a plan
//! applies are known by their contracts only.
//!
//! The functions below build the flow of each kind of node from the flows of
//! its inputs.

use crate::view::Element;
use vstd::prelude::*;

verus! {

/// The number of elements in batches of the given sizes.
pub open spec fn total(layout: Seq<nat>) -> nat
    decreases layout.len(),
{
    if layout.len() == 0 {
        0
    } else {
        total(layout.drop_last()) + layout.last()
    }
}

/// The sizes of the batches that `len` elements are cut into, `per_batch` in
/// each but the last.
pub open spec fn even_layout(len: nat, per_batch: nat) -> Seq<nat>
    decreases len,
{
    if len == 0 || per_batch == 0 {
        Seq::empty()
    } else if len <= per_batch {
        seq![len]
    } else {
        seq![per_batch] + even_layout((len - per_batch) as nat, per_batch)
    }
}

/// `layout` with the first `n` elements of its first batch consumed.
pub open spec fn consume(layout: Seq<nat>, n: nat) -> Seq<nat> {
    if layout[0] <= n {
        layout.skip(1)
    } else {
        layout.update(0, (layout[0] - n) as nat)
    }
}

/// The size of the overlap of the first batches of two streams.
pub open spec fn overlap(left: Seq<nat>, right: Seq<nat>) -> nat {
    if left[0] <= right[0] {
        left[0]
    } else {
        right[0]
    }
}

/// The sizes of the batches that two streams are re-chunked into: each time
/// the overlap of the two current batches, until one of them ends.
pub open spec fn merged_layout(left: Seq<nat>, right: Seq<nat>) -> Seq<nat>
    decreases left.len() + right.len(),
{
    if left.len() == 0 || right.len() == 0 {
        Seq::empty()
    } else {
        let n = overlap(left, right);
        seq![n] + merged_layout(consume(left, n), consume(right, n))
    }
}

/// No batch is empty.
pub open spec fn positive(layout: Seq<nat>) -> bool {
    forall|i: int| 0 <= i < layout.len() ==> #[trigger] layout[i] > 0
}

/// No batch holds more than `bound` elements.
pub open spec fn at_most(layout: Seq<nat>, bound: nat) -> bool {
    forall|i: int| 0 <= i < layout.len() ==> #[trigger] layout[i] <= bound
}

/// `items` cut into consecutive parts of the given sizes.
pub open spec fn split<A>(items: Seq<A>, layout: Seq<nat>) -> Seq<Seq<A>>
    decreases layout.len(),
{
    if layout.len() == 0 {
        Seq::empty()
    } else {
        let at = total(layout.drop_last()) as int;
        split(items.take(at), layout.drop_last()).push(items.skip(at))
    }
}

/// A reduction ends in the same, however what it takes in is cut into batches.
pub open spec fn batch_free<A>(start: A, step: spec_fn(A, Seq<A>) -> A) -> bool {
    forall|items: Seq<A>, layout: Seq<nat>, other: Seq<nat>|
        #![trigger split(items, layout), split(items, other)]
        items.len() == total(layout) && items.len() == total(other) ==> split(
            items,
            layout,
        ).fold_left(start, step) == split(items, other).fold_left(start, step)
}

/// What the executions of a plan hand out.
#[verifier::ext_equal]
#[verifier::reject_recursive_types(A)]
pub struct Flow<A> {
    /// The number of elements in each batch, in order.
    pub layout: Seq<nat>,
    /// The two sides of every binary operation are equally long. Otherwise an
    /// execution fails once it has handed out the batches of `layout`.
    pub matched: bool,
    /// Every function is applied to arguments that its precondition admits.
    pub safe: bool,
    /// Every batch that has to be allocated can be.
    pub fits: bool,
    /// Whether the given elements may be the first ones of an execution.
    pub emits: spec_fn(Seq<A>) -> bool,
}

impl<A> Flow<A> {
    /// The number of elements handed out, before failing if the plan fails.
    pub open spec fn count(self) -> nat {
        total(self.layout)
    }

    /// The given elements may be all elements of an execution, one that
    /// succeeds.
    pub open spec fn yields(self, items: Seq<A>) -> bool {
        &&& self.matched
        &&& items.len() == self.count()
        &&& (self.emits)(items)
    }
}

/// There is room for each batch.
pub open spec fn all_fit(layout: Seq<nat>, room: spec_fn(nat) -> bool) -> bool {
    forall|i: int| 0 <= i < layout.len() ==> room(#[trigger] layout[i])
}

/// The flow of a source that holds `items`.
pub open spec fn listed<A>(items: Seq<A>, per_batch: nat) -> Flow<A> {
    Flow {
        layout: even_layout(items.len(), per_batch),
        matched: true,
        safe: true,
        fits: true,
        emits: |first: Seq<A>| first.len() <= items.len() && first == items.take(
            first.len() as int,
        ),
    }
}

/// The flow of a source of `len` elements, of which the `i`-th is one that
/// `gives` relates to `i`.
pub open spec fn generated<A>(
    len: nat,
    per_batch: nat,
    accepts: spec_fn(nat) -> bool,
    gives: spec_fn(nat, A) -> bool,
    room: spec_fn(nat) -> bool,
) -> Flow<A> {
    Flow {
        layout: even_layout(len, per_batch),
        matched: true,
        safe: forall|i: nat| i < len ==> #[trigger] accepts(i),
        fits: all_fit(even_layout(len, per_batch), room),
        emits: |first: Seq<A>|
            first.len() <= len && forall|i: int|
                0 <= i < first.len() ==> gives(i as nat, #[trigger] first[i]),
    }
}

/// `outs` are element-wise related to `ins`.
pub open spec fn related<A, B>(ins: Seq<A>, outs: Seq<B>, gives: spec_fn(A, B) -> bool) -> bool {
    &&& ins.len() == outs.len()
    &&& forall|i: int| 0 <= i < outs.len() ==> gives(ins[i], #[trigger] outs[i])
}

/// The flow of an element-wise transformation.
pub open spec fn mapped<A, B>(
    input: Flow<A>,
    accepts: spec_fn(A) -> bool,
    gives: spec_fn(A, B) -> bool,
    room: spec_fn(nat) -> bool,
) -> Flow<B> {
    Flow {
        layout: input.layout,
        matched: input.matched,
        safe: input.safe && forall|ins: Seq<A>, i: int| #[trigger]
            (input.emits)(ins) && 0 <= i < ins.len() ==> accepts(#[trigger] ins[i]),
        fits: input.fits && all_fit(input.layout, room),
        emits: |first: Seq<B>|
            exists|ins: Seq<A>| #[trigger] (input.emits)(ins) && related(ins, first, gives),
    }
}

/// `outs` are element-wise related to the elements of two sides, of which
/// there are enough.
pub open spec fn zip_related<A, B, C>(
    left: Seq<A>,
    right: Seq<B>,
    outs: Seq<C>,
    gives: spec_fn(A, B, C) -> bool,
) -> bool {
    &&& outs.len() <= left.len()
    &&& outs.len() <= right.len()
    &&& forall|i: int| 0 <= i < outs.len() ==> gives(left[i], right[i], #[trigger] outs[i])
}

/// The flow of an element-wise combination of two inputs.
pub open spec fn zipped<A, B, C>(
    left: Flow<A>,
    right: Flow<B>,
    accepts: spec_fn(A, B) -> bool,
    gives: spec_fn(A, B, C) -> bool,
    room: spec_fn(nat) -> bool,
) -> Flow<C> {
    Flow {
        layout: merged_layout(left.layout, right.layout),
        matched: left.matched && right.matched && left.count() == right.count(),
        safe: left.safe && right.safe && forall|l: Seq<A>, r: Seq<B>, i: int|
            #![trigger (left.emits)(l), (right.emits)(r), l[i]]
            (left.emits)(l) && (right.emits)(r) && 0 <= i < l.len() && i < r.len() ==> accepts(
                l[i],
                r[i],
            ),
        fits: left.fits && right.fits && all_fit(merged_layout(left.layout, right.layout), room),
        emits: |first: Seq<C>|
            exists|l: Seq<A>, r: Seq<B>|
                #![trigger (left.emits)(l), (right.emits)(r)]
                (left.emits)(l) && (right.emits)(r) && zip_related(l, r, first, gives),
    }
}

/// The flow of a reduction, which takes in one batch after the other from
/// `start` on: one element, if the input succeeds.
pub open spec fn reduced<A>(
    input: Flow<A>,
    start: A,
    step: spec_fn(A, Seq<A>) -> A,
    room: spec_fn(nat) -> bool,
) -> Flow<A> {
    Flow {
        layout: if input.matched {
            seq![1nat]
        } else {
            Seq::empty()
        },
        matched: input.matched,
        safe: input.safe,
        fits: input.fits && room(1),
        emits: |first: Seq<A>|
            first.len() == 0 || {
                &&& first.len() == 1
                &&& exists|ins: Seq<A>| #[trigger]
                    input.yields(ins) && first[0] == split(ins, input.layout).fold_left(start, step)
            },
    }
}

// Batch sizes.

pub proof fn lemma_total_push(layout: Seq<nat>, n: nat)
    ensures
        total(layout.push(n)) == total(layout) + n,
{
    assert(layout.push(n).drop_last() =~= layout);
}

pub proof fn lemma_total_front(n: nat, rest: Seq<nat>)
    ensures
        total(seq![n] + rest) == n + total(rest),
    decreases rest.len(),
{
    let all = seq![n] + rest;
    if rest.len() == 0 {
        assert(all.drop_last() =~= Seq::<nat>::empty());
        assert(total(all.drop_last()) == 0);
    } else {
        lemma_total_front(n, rest.drop_last());
        assert(all.drop_last() =~= seq![n] + rest.drop_last());
    }
}

/// The batches up to one, that one, and those after it make up the whole.
pub proof fn lemma_total_at(layout: Seq<nat>, i: int)
    requires
        0 <= i <= layout.len(),
    ensures
        total(layout.take(i)) + total(layout.skip(i)) == total(layout),
        i < layout.len() ==> total(layout.take(i + 1)) == total(layout.take(i)) + layout[i],
        i < layout.len() ==> layout.take(i + 1) == layout.take(i).push(layout[i]),
        i < layout.len() ==> layout.skip(i) == seq![layout[i]] + layout.skip(i + 1),
    decreases layout.len() - i,
{
    if i == layout.len() {
        assert(layout.take(i) =~= layout);
        assert(layout.skip(i) =~= Seq::<nat>::empty());
    } else {
        lemma_total_at(layout, i + 1);
        assert(layout.take(i + 1) =~= layout.take(i).push(layout[i]));
        lemma_total_push(layout.take(i), layout[i]);
        assert(layout.skip(i) =~= seq![layout[i]] + layout.skip(i + 1));
        lemma_total_front(layout[i], layout.skip(i + 1));
    }
}

pub proof fn lemma_positive_total(layout: Seq<nat>)
    requires
        positive(layout),
    ensures
        total(layout) == 0 <==> layout.len() == 0,
{
    if layout.len() > 0 {
        assert(layout[layout.len() - 1] > 0);
    }
}

pub proof fn lemma_even_layout(len: nat, per_batch: nat)
    requires
        per_batch > 0,
    ensures
        positive(even_layout(len, per_batch)),
        total(even_layout(len, per_batch)) == len,
    decreases len,
{
    if len == 0 {
    } else if len <= per_batch {
        lemma_total_front(len, Seq::empty());
        assert(seq![len] + Seq::<nat>::empty() =~= seq![len]);
    } else {
        let rest = (len - per_batch) as nat;
        lemma_even_layout(rest, per_batch);
        lemma_total_front(per_batch, even_layout(rest, per_batch));
    }
}

/// Consuming elements of the first batch keeps the rest.
pub proof fn lemma_consume(layout: Seq<nat>, n: nat)
    requires
        positive(layout),
        layout.len() > 0,
        n <= layout[0],
    ensures
        positive(consume(layout, n)),
        total(consume(layout, n)) + n == total(layout),
{
    let rest = layout.skip(1);
    assert(layout =~= seq![layout[0]] + rest);
    lemma_total_front(layout[0], rest);
    if n < layout[0] {
        let left = (layout[0] - n) as nat;
        assert(consume(layout, n) =~= seq![left] + rest);
        lemma_total_front(left, rest);
    }
}

/// Re-chunking two streams hands out as many elements as the shorter has.
pub proof fn lemma_merged_layout(left: Seq<nat>, right: Seq<nat>)
    requires
        positive(left),
        positive(right),
    ensures
        positive(merged_layout(left, right)),
        total(merged_layout(left, right)) == if total(left) <= total(right) {
            total(left)
        } else {
            total(right)
        },
    decreases left.len() + right.len(),
{
    lemma_positive_total(left);
    lemma_positive_total(right);
    if left.len() > 0 && right.len() > 0 {
        let n = overlap(left, right);
        lemma_consume(left, n);
        lemma_consume(right, n);
        lemma_merged_layout(consume(left, n), consume(right, n));
        lemma_total_front(n, merged_layout(consume(left, n), consume(right, n)));
    }
}

/// Appending a batch appends a part.
pub proof fn lemma_split_push<A>(items: Seq<A>, layout: Seq<nat>, more: Seq<A>, n: nat)
    requires
        items.len() == total(layout),
        more.len() == n,
    ensures
        split(items + more, layout.push(n)) == split(items, layout).push(more),
{
    assert(layout.push(n).drop_last() =~= layout);
    assert((items + more).take(items.len() as int) =~= items);
    assert((items + more).skip(items.len() as int) =~= more);
}

// Elements and their bytes. Inside a plan, elements are known by the bytes that
// represent them.

/// The elements that `parts` represent.
pub open spec fn decoded<T: Element>(parts: Seq<Seq<u8>>) -> Seq<T> {
    parts.map_values(|part: Seq<u8>| T::decodes(part))
}

/// Every emitted element is represented by `size` bytes.
pub open spec fn sized(flow: Flow<Seq<u8>>, size: nat) -> bool {
    forall|items: Seq<Seq<u8>>| #[trigger]
        (flow.emits)(items) ==> crate::chunks::uniform(items, size)
}

/// A flow of bytes as one of the elements they represent.
pub open spec fn typed<T: Element>(flow: Flow<Seq<u8>>) -> Flow<T> {
    Flow {
        layout: flow.layout,
        matched: flow.matched,
        safe: flow.safe,
        fits: flow.fits,
        emits: |first: Seq<T>| (flow.emits)(crate::view::encoded(first)),
    }
}

pub proof fn lemma_decoded_encoded<T: Element>(items: Seq<T>)
    ensures
        decoded::<T>(crate::view::encoded(items)) == items,
{
    assert forall|i: int| 0 <= i < items.len() implies decoded::<T>(crate::view::encoded(items))[i]
        == items[i] by {
        items[i].lemma_decode_encoded();
    }
    assert(decoded::<T>(crate::view::encoded(items)) =~= items);
}

pub proof fn lemma_encoded_decoded<T: Element>(parts: Seq<Seq<u8>>)
    requires
        crate::chunks::uniform(parts, crate::view::elem_size::<T>()),
    ensures
        crate::view::encoded(decoded::<T>(parts)) == parts,
{
    assert forall|i: int| 0 <= i < parts.len() implies crate::view::encoded(
        decoded::<T>(parts),
    )[i] == parts[i] by {
        T::lemma_encode_decoded(parts[i]);
    }
    assert(crate::view::encoded(decoded::<T>(parts)) =~= parts);
}

pub proof fn lemma_typed_listed<T: Element>(bytes: Seq<u8>, per_batch: nat)
    ensures
        typed::<T>(listed(crate::chunks::chunks(bytes, crate::view::elem_size::<T>()), per_batch))
            == listed(crate::view::decode_all::<T>(bytes), per_batch),
        sized(
            listed(crate::chunks::chunks(bytes, crate::view::elem_size::<T>()), per_batch),
            crate::view::elem_size::<T>(),
        ),
{
    T::lemma_size();
    let size = crate::view::elem_size::<T>();
    let parts = crate::chunks::chunks(bytes, size);
    let items = crate::view::decode_all::<T>(bytes);
    let flow = listed(parts, per_batch);
    crate::chunks::lemma_chunks_uniform(bytes, size);
    assert(decoded::<T>(parts) =~= items);
    assert forall|first: Seq<T>| #[trigger] (typed::<T>(flow).emits)(first) == (listed(
        items,
        per_batch,
    ).emits)(first) by {
        let n = first.len() as int;
        lemma_decoded_encoded(first);
        if n <= items.len() {
            lemma_encoded_decoded::<T>(parts.take(n));
            assert(decoded::<T>(parts.take(n)) =~= items.take(n));
        }
    }
    assert(typed::<T>(flow) =~= listed(items, per_batch));
}

pub proof fn lemma_typed_generated<T: Element>(
    len: nat,
    per_batch: nat,
    accepts: spec_fn(nat) -> bool,
    gives: spec_fn(nat, T) -> bool,
    room: spec_fn(nat) -> bool,
    flow: Flow<Seq<u8>>,
)
    requires
        flow == generated(
            len,
            per_batch,
            accepts,
            |i: nat, part: Seq<u8>|
                part.len() == crate::view::elem_size::<T>() && gives(i, T::decodes(part)),
            room,
        ),
    ensures
        typed::<T>(flow) == generated(len, per_batch, accepts, gives, room),
        sized(flow, crate::view::elem_size::<T>()),
{
    let target = generated(len, per_batch, accepts, gives, room);
    assert forall|first: Seq<T>| #[trigger] (typed::<T>(flow).emits)(first) == (target.emits)(first) by {
        let parts = crate::view::encoded(first);
        lemma_decoded_encoded(first);
        crate::view::lemma_encoded_uniform(first);
        assert forall|i: int| 0 <= i < first.len() implies T::decodes(#[trigger] parts[i])
            == first[i] by {
            assert(decoded::<T>(parts)[i] == first[i]);
        }
        if (typed::<T>(flow).emits)(first) {
            assert forall|i: int| 0 <= i < first.len() implies gives(
                i as nat,
                #[trigger] first[i],
            ) by {
                assert(parts[i].len() == crate::view::elem_size::<T>());
            }
        }
    }
    assert(typed::<T>(flow) =~= target);
}

pub proof fn lemma_typed_mapped<T: Element, U: Element>(
    input: Flow<Seq<u8>>,
    accepts: spec_fn(T) -> bool,
    gives: spec_fn(T, U) -> bool,
    room: spec_fn(nat) -> bool,
    flow: Flow<Seq<u8>>,
)
    requires
        sized(input, crate::view::elem_size::<T>()),
        flow == mapped(
            input,
            |part: Seq<u8>| accepts(T::decodes(part)),
            |part: Seq<u8>, out: Seq<u8>|
                out.len() == crate::view::elem_size::<U>() && gives(
                    T::decodes(part),
                    U::decodes(out),
                ),
            room,
        ),
    ensures
        typed::<U>(flow) == mapped(typed::<T>(input), accepts, gives, room),
        sized(flow, crate::view::elem_size::<U>()),
{
    let target = mapped(typed::<T>(input), accepts, gives, room);
    let gives_bytes = |part: Seq<u8>, out: Seq<u8>|
        out.len() == crate::view::elem_size::<U>() && gives(T::decodes(part), U::decodes(out));
    assert forall|first: Seq<U>| #[trigger] (typed::<U>(flow).emits)(first) == (target.emits)(first) by {
        let outs = crate::view::encoded(first);
        lemma_decoded_encoded(first);
        crate::view::lemma_encoded_uniform(first);
        assert forall|i: int| 0 <= i < first.len() implies U::decodes(#[trigger] outs[i])
            == first[i] by {
            assert(decoded::<U>(outs)[i] == first[i]);
        }
        if (flow.emits)(outs) {
            let ins = choose|ins: Seq<Seq<u8>>| #[trigger]
                (input.emits)(ins) && related(ins, outs, gives_bytes);
            let items = decoded::<T>(ins);
            lemma_encoded_decoded::<T>(ins);
            assert((typed::<T>(input).emits)(items));
            assert forall|i: int| 0 <= i < first.len() implies gives(
                items[i],
                #[trigger] first[i],
            ) by {
                assert(gives_bytes(ins[i], outs[i]));
            }
            assert(related(items, first, gives));
        }
        if (target.emits)(first) {
            let items = choose|items: Seq<T>| #[trigger]
                (typed::<T>(input).emits)(items) && related(items, first, gives);
            let ins = crate::view::encoded(items);
            lemma_decoded_encoded(items);
            assert forall|i: int| 0 <= i < outs.len() implies gives_bytes(
                ins[i],
                #[trigger] outs[i],
            ) by {
                assert(decoded::<T>(ins)[i] == items[i]);
                assert(gives(items[i], first[i]));
            }
            assert(related(ins, outs, gives_bytes));
            assert((input.emits)(ins));
        }
    }
    if flow.safe {
        assert forall|items: Seq<T>, i: int| #[trigger]
            (typed::<T>(input).emits)(items) && 0 <= i < items.len() implies accepts(
            #[trigger] items[i],
        ) by {
            let ins = crate::view::encoded(items);
            lemma_decoded_encoded(items);
            assert((input.emits)(ins));
            assert(decoded::<T>(ins)[i] == T::decodes(ins[i]));
        }
    }
    if target.safe {
        assert forall|ins: Seq<Seq<u8>>, i: int| #[trigger]
            (input.emits)(ins) && 0 <= i < ins.len() implies accepts(
            T::decodes(#[trigger] ins[i]),
        ) by {
            let items = decoded::<T>(ins);
            lemma_encoded_decoded::<T>(ins);
            assert((typed::<T>(input).emits)(items));
            assert(items[i] == T::decodes(ins[i]));
        }
    }
    assert forall|items: Seq<Seq<u8>>| #[trigger] (flow.emits)(items) implies crate::chunks::uniform(
        items,
        crate::view::elem_size::<U>(),
    ) by {
        let ins = choose|ins: Seq<Seq<u8>>| #[trigger]
            (input.emits)(ins) && related(ins, items, gives_bytes);
        assert(related(ins, items, gives_bytes));
    }
    assert(typed::<U>(flow) =~= target);
}

pub proof fn lemma_typed_zipped<T: Element, U: Element, V: Element>(
    left: Flow<Seq<u8>>,
    right: Flow<Seq<u8>>,
    accepts: spec_fn(T, U) -> bool,
    gives: spec_fn(T, U, V) -> bool,
    room: spec_fn(nat) -> bool,
    flow: Flow<Seq<u8>>,
)
    requires
        sized(left, crate::view::elem_size::<T>()),
        sized(right, crate::view::elem_size::<U>()),
        flow == zipped(
            left,
            right,
            |l: Seq<u8>, r: Seq<u8>| accepts(T::decodes(l), U::decodes(r)),
            |l: Seq<u8>, r: Seq<u8>, out: Seq<u8>|
                out.len() == crate::view::elem_size::<V>() && gives(
                    T::decodes(l),
                    U::decodes(r),
                    V::decodes(out),
                ),
            room,
        ),
    ensures
        typed::<V>(flow) == zipped(typed::<T>(left), typed::<U>(right), accepts, gives, room),
        sized(flow, crate::view::elem_size::<V>()),
{
    let target = zipped(typed::<T>(left), typed::<U>(right), accepts, gives, room);
    let gives_bytes = |l: Seq<u8>, r: Seq<u8>, out: Seq<u8>|
        out.len() == crate::view::elem_size::<V>() && gives(
            T::decodes(l),
            U::decodes(r),
            V::decodes(out),
        );
    assert forall|first: Seq<V>| #[trigger] (typed::<V>(flow).emits)(first) == (target.emits)(
        first,
    ) by {
        let outs = crate::view::encoded(first);
        lemma_decoded_encoded(first);
        crate::view::lemma_encoded_uniform(first);
        assert forall|i: int| 0 <= i < first.len() implies V::decodes(#[trigger] outs[i])
            == first[i] by {
            assert(decoded::<V>(outs)[i] == first[i]);
        }
        if (flow.emits)(outs) {
            let (ls, rs) = choose|ls: Seq<Seq<u8>>, rs: Seq<Seq<u8>>|
                #![trigger (left.emits)(ls), (right.emits)(rs)]
                (left.emits)(ls) && (right.emits)(rs) && zip_related(ls, rs, outs, gives_bytes);
            let l = decoded::<T>(ls);
            let r = decoded::<U>(rs);
            lemma_encoded_decoded::<T>(ls);
            lemma_encoded_decoded::<U>(rs);
            assert((typed::<T>(left).emits)(l));
            assert((typed::<U>(right).emits)(r));
            assert forall|i: int| 0 <= i < first.len() implies gives(
                l[i],
                r[i],
                #[trigger] first[i],
            ) by {
                assert(gives_bytes(ls[i], rs[i], outs[i]));
            }
            assert(zip_related(l, r, first, gives));
        }
        if (target.emits)(first) {
            let (l, r) = choose|l: Seq<T>, r: Seq<U>|
                #![trigger (typed::<T>(left).emits)(l), (typed::<U>(right).emits)(r)]
                (typed::<T>(left).emits)(l) && (typed::<U>(right).emits)(r) && zip_related(
                    l,
                    r,
                    first,
                    gives,
                );
            let ls = crate::view::encoded(l);
            let rs = crate::view::encoded(r);
            lemma_decoded_encoded(l);
            lemma_decoded_encoded(r);
            assert forall|i: int| 0 <= i < outs.len() implies gives_bytes(
                ls[i],
                rs[i],
                #[trigger] outs[i],
            ) by {
                assert(decoded::<T>(ls)[i] == l[i]);
                assert(decoded::<U>(rs)[i] == r[i]);
                assert(gives(l[i], r[i], first[i]));
            }
            assert(zip_related(ls, rs, outs, gives_bytes));
            assert((left.emits)(ls));
            assert((right.emits)(rs));
        }
    }
    if flow.safe {
        assert forall|l: Seq<T>, r: Seq<U>, i: int|
            #![trigger (typed::<T>(left).emits)(l), (typed::<U>(right).emits)(r), l[i]]
            (typed::<T>(left).emits)(l) && (typed::<U>(right).emits)(r) && 0 <= i < l.len() && i
                < r.len() implies accepts(l[i], r[i]) by {
            let ls = crate::view::encoded(l);
            let rs = crate::view::encoded(r);
            lemma_decoded_encoded(l);
            lemma_decoded_encoded(r);
            assert((left.emits)(ls));
            assert((right.emits)(rs));
            assert(decoded::<T>(ls)[i] == T::decodes(ls[i]));
            assert(decoded::<U>(rs)[i] == U::decodes(rs[i]));
        }
    }
    if target.safe {
        assert forall|ls: Seq<Seq<u8>>, rs: Seq<Seq<u8>>, i: int|
            #![trigger (left.emits)(ls), (right.emits)(rs), ls[i]]
            (left.emits)(ls) && (right.emits)(rs) && 0 <= i < ls.len() && i
                < rs.len() implies accepts(T::decodes(ls[i]), U::decodes(rs[i])) by {
            let l = decoded::<T>(ls);
            let r = decoded::<U>(rs);
            lemma_encoded_decoded::<T>(ls);
            lemma_encoded_decoded::<U>(rs);
            assert((typed::<T>(left).emits)(l));
            assert((typed::<U>(right).emits)(r));
            assert(l[i] == T::decodes(ls[i]));
            assert(r[i] == U::decodes(rs[i]));
        }
    }
    assert forall|items: Seq<Seq<u8>>| #[trigger] (flow.emits)(items) implies crate::chunks::uniform(
        items,
        crate::view::elem_size::<V>(),
    ) by {
        let (ls, rs) = choose|ls: Seq<Seq<u8>>, rs: Seq<Seq<u8>>|
            #![trigger (left.emits)(ls), (right.emits)(rs)]
            (left.emits)(ls) && (right.emits)(rs) && zip_related(ls, rs, items, gives_bytes);
        assert(zip_related(ls, rs, items, gives_bytes));
    }
    assert(typed::<V>(flow) =~= target);
}

/// A step of a reduction on elements, as one on their bytes.
pub open spec fn step_on_bytes<T: Element>(step: spec_fn(T, Seq<T>) -> T) -> spec_fn(
    Seq<u8>,
    Seq<Seq<u8>>,
) -> Seq<u8> {
    |so_far: Seq<u8>, batch: Seq<Seq<u8>>|
        step(T::decodes(so_far), decoded::<T>(batch)).encodes()
}

spec fn decode_parts<T: Element>(parts: Seq<Seq<Seq<u8>>>) -> Seq<Seq<T>> {
    parts.map_values(|part: Seq<Seq<u8>>| decoded::<T>(part))
}

proof fn lemma_split_decoded<T: Element>(items: Seq<Seq<u8>>, layout: Seq<nat>)
    requires
        items.len() == total(layout),
    ensures
        split(decoded::<T>(items), layout) == decode_parts::<T>(split(items, layout)),
    decreases layout.len(),
{
    if layout.len() > 0 {
        let at = total(layout.drop_last()) as int;
        lemma_total_push(layout.drop_last(), layout.last());
        assert(layout.drop_last().push(layout.last()) =~= layout);
        lemma_split_decoded::<T>(items.take(at), layout.drop_last());
        assert(decoded::<T>(items).take(at) =~= decoded::<T>(items.take(at)));
        assert(decoded::<T>(items).skip(at) =~= decoded::<T>(items.skip(at)));
    }
    assert(split(decoded::<T>(items), layout) =~= decode_parts::<T>(split(items, layout)));
}

proof fn lemma_fold_on_bytes<T: Element>(
    start: T,
    step: spec_fn(T, Seq<T>) -> T,
    parts: Seq<Seq<Seq<u8>>>,
)
    ensures
        parts.fold_left(start.encodes(), step_on_bytes(step)) == decode_parts::<T>(
            parts,
        ).fold_left(start, step).encodes(),
    decreases parts.len(),
{
    if parts.len() > 0 {
        let front = parts.drop_last();
        lemma_fold_on_bytes(start, step, front);
        assert(decode_parts::<T>(parts).drop_last() =~= decode_parts::<T>(front));
        decode_parts::<T>(front).fold_left(start, step).lemma_decode_encoded();
    }
}

/// A reduction of elements on their bytes.
proof fn lemma_reduced_on_bytes<T: Element>(
    start: T,
    step: spec_fn(T, Seq<T>) -> T,
    items: Seq<Seq<u8>>,
    layout: Seq<nat>,
)
    requires
        items.len() == total(layout),
    ensures
        split(items, layout).fold_left(start.encodes(), step_on_bytes(step)) == split(
            decoded::<T>(items),
            layout,
        ).fold_left(start, step).encodes(),
{
    lemma_split_decoded::<T>(items, layout);
    lemma_fold_on_bytes(start, step, split(items, layout));
}

/// A reduction of elements that does not depend on batches does not depend on
/// them as one of bytes either.
pub proof fn lemma_batch_free_on_bytes<T: Element>(start: T, step: spec_fn(T, Seq<T>) -> T)
    requires
        batch_free(start, step),
    ensures
        batch_free(start.encodes(), step_on_bytes(step)),
{
    assert forall|items: Seq<Seq<u8>>, layout: Seq<nat>, other: Seq<nat>|
        #![trigger split(items, layout), split(items, other)]
        items.len() == total(layout) && items.len() == total(other) implies split(
        items,
        layout,
    ).fold_left(start.encodes(), step_on_bytes(step)) == split(items, other).fold_left(
        start.encodes(),
        step_on_bytes(step),
    ) by {
        lemma_reduced_on_bytes(start, step, items, layout);
        lemma_reduced_on_bytes(start, step, items, other);
    }
}

pub proof fn lemma_typed_reduced<T: Element>(
    input: Flow<Seq<u8>>,
    start: T,
    step: spec_fn(T, Seq<T>) -> T,
    room: spec_fn(nat) -> bool,
    flow: Flow<Seq<u8>>,
)
    requires
        sized(input, crate::view::elem_size::<T>()),
        flow == reduced(input, start.encodes(), step_on_bytes(step), room),
    ensures
        typed::<T>(flow) == reduced(typed::<T>(input), start, step, room),
        sized(flow, crate::view::elem_size::<T>()),
{
    let target = reduced(typed::<T>(input), start, step, room);
    let on_bytes = step_on_bytes(step);
    assert forall|first: Seq<T>| #[trigger] (typed::<T>(flow).emits)(first) == (target.emits)(
        first,
    ) by {
        let outs = crate::view::encoded(first);
        if first.len() == 1 {
            first[0].lemma_decode_encoded();
            if (flow.emits)(outs) {
                let ins = choose|ins: Seq<Seq<u8>>| #[trigger]
                    input.yields(ins) && outs[0] == split(ins, input.layout).fold_left(
                        start.encodes(),
                        on_bytes,
                    );
                let items = decoded::<T>(ins);
                lemma_encoded_decoded::<T>(ins);
                assert(typed::<T>(input).yields(items));
                lemma_reduced_on_bytes(start, step, ins, input.layout);
                split(items, input.layout).fold_left(start, step).lemma_decode_encoded();
            }
            if (target.emits)(first) {
                let items = choose|items: Seq<T>| #[trigger]
                    typed::<T>(input).yields(items) && first[0] == split(
                        items,
                        input.layout,
                    ).fold_left(start, step);
                let ins = crate::view::encoded(items);
                assert(input.yields(ins));
                lemma_decoded_encoded(items);
                lemma_reduced_on_bytes(start, step, ins, input.layout);
            }
        }
    }
    assert forall|items: Seq<Seq<u8>>| #[trigger] (flow.emits)(items) implies crate::chunks::uniform(
        items,
        crate::view::elem_size::<T>(),
    ) by {
        if items.len() == 1 {
            let ins = choose|ins: Seq<Seq<u8>>| #[trigger]
                input.yields(ins) && items[0] == split(ins, input.layout).fold_left(
                    start.encodes(),
                    on_bytes,
                );
            lemma_reduced_on_bytes(start, step, ins, input.layout);
            split(decoded::<T>(ins), input.layout).fold_left(start, step).lemma_decode_encoded();
        }
    }
    assert(typed::<T>(flow) =~= target);
}

} // verus!
