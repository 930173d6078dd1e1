//! The operations of a plan, on batches of elements whose types are erased.
//!
//! Types are checked when a plan is built and then erased, so that chains over
//! different element types share one representation: a batch is a [`Storage`],
//! and an operation reads and writes the bytes of elements whose [`Form`] it
//! knows.

use crate::storage::Storage;
use crate::summand::Summand;
use crate::tensor::Tensor;
use crate::view::{decode_slice, Element};
use std::marker::PhantomData;
use std::ops::{Add, Mul, Sub};
use vstd::prelude::*;
use vstd::std_specs::ops::*;

verus! {

/// The size and alignment of a type of elements.
pub struct Form {
    /// The size in bytes of one element.
    pub size: nat,
    /// The alignment in bytes of an element.
    pub align: nat,
}

/// The form of elements `T`.
pub open spec fn form_of<T>() -> Form {
    Form { size: crate::view::elem_size::<T>(), align: crate::view::elem_align::<T>() }
}

/// A batch of `n` elements of a form can be allocated.
pub open spec fn room(form: Form, n: nat) -> bool {
    crate::storage::allocatable(
        n * form.size,
        if form.align <= crate::storage::STORAGE_ALIGN {
            crate::storage::STORAGE_ALIGN as nat
        } else {
            form.align
        },
    )
}

/// `batch` holds `n` elements of a form.
pub open spec fn is_batch(batch: Storage, form: Form, n: nat) -> bool {
    &&& batch.wf()
    &&& batch@.len() == n * form.size
    &&& batch.viewable(form.size, form.align)
}

/// The elements of a batch, each by its bytes.
pub open spec fn parts(batch: Storage, form: Form) -> Seq<Seq<u8>> {
    crate::chunks::chunks(batch@, form.size)
}

/// A tensor's storage is a batch of its elements.
pub proof fn lemma_tensor_batch<T: Element>(tensor: Tensor<T>)
    requires
        tensor.wf(),
    ensures
        is_batch(tensor.bytes(), form_of::<T>(), tensor.elements().len()),
        parts(tensor.bytes(), form_of::<T>()) == crate::view::encoded(tensor.elements()),
        crate::chunks::uniform(
            parts(tensor.bytes(), form_of::<T>()),
            crate::view::elem_size::<T>(),
        ),
{
    tensor.lemma_bytes();
    T::lemma_size();
    crate::view::lemma_decode_all_encoded(tensor.elements());
    crate::view::lemma_encoded_uniform(tensor.elements());
}

/// What a batch of elements `T` holds.
pub proof fn lemma_batch_elements<T: Element>(batch: Storage, n: nat)
    requires
        is_batch(batch, form_of::<T>(), n),
    ensures
        parts(batch, form_of::<T>()).len() == n,
        crate::view::decode_all::<T>(batch@).len() == n,
        crate::view::view_error::<T>(batch) is None,
        crate::view::decode_all::<T>(batch@) == crate::flow::decoded::<T>(
            parts(batch, form_of::<T>()),
        ),
        crate::chunks::uniform(parts(batch, form_of::<T>()), crate::view::elem_size::<T>()),
{
    T::lemma_size();
    crate::chunks::lemma_whole_chunks(n, crate::view::elem_size::<T>());
    crate::chunks::lemma_chunks_uniform(batch@, crate::view::elem_size::<T>());
}

/// A source that makes elements out of their indices.
pub trait GenerateOp: Send {
    /// The form of the elements.
    spec fn form(&self) -> Form;

    /// Element `i` can be made.
    spec fn accepts(&self, i: nat) -> bool;

    /// Element `i` may have the bytes `out`.
    spec fn gives(&self, i: nat, out: Seq<u8>) -> bool;

    /// Makes the elements from index `from` up to `to`.
    fn generate(&self, from: usize, to: usize) -> (batch: Storage)
        requires
            from <= to,
            forall|i: nat| from <= i < to ==> #[trigger] self.accepts(i),
            room(self.form(), (to - from) as nat),
        ensures
            is_batch(batch, self.form(), (to - from) as nat),
            parts(batch, self.form()).len() == to - from,
            crate::chunks::uniform(parts(batch, self.form()), self.form().size),
            forall|i: int|
                0 <= i < to - from ==> self.gives(
                    (from + i) as nat,
                    #[trigger] parts(batch, self.form())[i],
                ),
    ;
}

/// An element-wise transformation.
pub trait MapOp: Send {
    /// The form of the elements that go in.
    spec fn takes(&self) -> Form;

    /// The form of the elements that come out.
    spec fn form(&self) -> Form;

    /// The element with the bytes `part` can be transformed.
    spec fn accepts(&self, part: Seq<u8>) -> bool;

    /// The element with the bytes `part` may be transformed into `out`.
    spec fn gives(&self, part: Seq<u8>, out: Seq<u8>) -> bool;

    /// Transforms a batch.
    fn apply(&self, batch: &Storage) -> (out: Storage)
        requires
            is_batch(*batch, self.takes(), parts(*batch, self.takes()).len()),
            forall|i: int|
                0 <= i < parts(*batch, self.takes()).len() ==> self.accepts(
                    #[trigger] parts(*batch, self.takes())[i],
                ),
            room(self.form(), parts(*batch, self.takes()).len()),
        ensures
            is_batch(out, self.form(), parts(*batch, self.takes()).len()),
            parts(out, self.form()).len() == parts(*batch, self.takes()).len(),
            crate::chunks::uniform(parts(out, self.form()), self.form().size),
            forall|i: int|
                0 <= i < parts(*batch, self.takes()).len() ==> self.gives(
                    parts(*batch, self.takes())[i],
                    #[trigger] parts(out, self.form())[i],
                ),
    ;
}

/// An element-wise combination of two inputs.
pub trait ZipOp: Send {
    /// The form of the elements on the left.
    spec fn takes_left(&self) -> Form;

    /// The form of the elements on the right.
    spec fn takes_right(&self) -> Form;

    /// The form of the elements that come out.
    spec fn form(&self) -> Form;

    /// The elements with the bytes `l` and `r` can be combined.
    spec fn accepts(&self, l: Seq<u8>, r: Seq<u8>) -> bool;

    /// The elements with the bytes `l` and `r` may be combined into `out`.
    spec fn gives(&self, l: Seq<u8>, r: Seq<u8>, out: Seq<u8>) -> bool;

    /// Combines two windows of the same length.
    fn apply(&self, left: &Storage, right: &Storage) -> (out: Storage)
        requires
            is_batch(*left, self.takes_left(), parts(*left, self.takes_left()).len()),
            is_batch(*right, self.takes_right(), parts(*right, self.takes_right()).len()),
            parts(*left, self.takes_left()).len() == parts(*right, self.takes_right()).len(),
            forall|i: int|
                0 <= i < parts(*left, self.takes_left()).len() ==> self.accepts(
                    #[trigger] parts(*left, self.takes_left())[i],
                    parts(*right, self.takes_right())[i],
                ),
            room(self.form(), parts(*left, self.takes_left()).len()),
        ensures
            is_batch(out, self.form(), parts(*left, self.takes_left()).len()),
            parts(out, self.form()).len() == parts(*left, self.takes_left()).len(),
            crate::chunks::uniform(parts(out, self.form()), self.form().size),
            forall|i: int|
                0 <= i < parts(*left, self.takes_left()).len() ==> self.gives(
                    parts(*left, self.takes_left())[i],
                    parts(*right, self.takes_right())[i],
                    #[trigger] parts(out, self.form())[i],
                ),
    ;
}

/// A reduction of batches, one after the other, to one element.
pub trait ReduceOp: Send {
    /// The form of the elements that go in and of the one that comes out.
    spec fn form(&self) -> Form;

    /// The bytes of the element that the reduction starts from.
    spec fn start(&self) -> Seq<u8>;

    /// The bytes of the element that a batch takes `so_far` to.
    spec fn step(&self, so_far: Seq<u8>, batch: Seq<Seq<u8>>) -> Seq<u8>;

    /// Returns what the reduction starts from.
    fn begin(&self) -> (start: Vec<u8>)
        ensures
            start@ == self.start(),
            start@.len() == self.form().size,
    ;

    /// Takes one batch in.
    fn advance(&self, so_far: Vec<u8>, batch: &Storage) -> (next: Vec<u8>)
        requires
            so_far@.len() == self.form().size,
            is_batch(*batch, self.form(), parts(*batch, self.form()).len()),
        ensures
            next@ == self.step(so_far@, parts(*batch, self.form())),
            next@.len() == self.form().size,
    ;

    /// Makes a batch of the one resulting element.
    fn finish(&self, result: Vec<u8>) -> (batch: Storage)
        requires
            result@.len() == self.form().size,
            room(self.form(), 1),
        ensures
            is_batch(batch, self.form(), 1),
            parts(batch, self.form()) == seq![result@],
    ;
}

/// Makes elements with a function of the index.
pub struct GenerateFn<T, F> {
    pub f: F,
    pub elem: PhantomData<T>,
}

impl<T: Element, F: Fn(usize) -> T + Send> GenerateOp for GenerateFn<T, F> {
    open spec fn form(&self) -> Form {
        form_of::<T>()
    }

    open spec fn accepts(&self, i: nat) -> bool {
        call_requires(self.f, (i as usize,))
    }

    open spec fn gives(&self, i: nat, out: Seq<u8>) -> bool {
        call_ensures(self.f, (i as usize,), T::decodes(out))
    }

    fn generate(&self, from: usize, to: usize) -> (batch: Storage) {
        let mut elements: Vec<T> = Vec::new();
        let mut i: usize = from;
        while i < to
            invariant
                from <= i <= to,
                elements@.len() == i - from,
                forall|j: nat| from <= j < to ==> #[trigger] self.accepts(j),
                forall|j: int|
                    0 <= j < elements@.len() ==> call_ensures(
                        self.f,
                        ((from + j) as usize,),
                        #[trigger] elements@[j],
                    ),
            decreases to - i,
        {
            assert(self.accepts(i as nat));
            elements.push((self.f)(i));
            i = i + 1;
        }
        let tensor = Tensor::from_elements(elements.as_slice());
        proof {
            lemma_tensor_batch(tensor);
            crate::flow::lemma_decoded_encoded(elements@);
            assert forall|j: int| 0 <= j < to - from implies self.gives(
                (from + j) as nat,
                #[trigger] parts(tensor.bytes(), form_of::<T>())[j],
            ) by {
                assert(crate::flow::decoded::<T>(crate::view::encoded(elements@))[j]
                    == elements@[j]);
            }
        }
        tensor.into_storage()
    }
}

/// Transforms elements with a function.
pub struct MapFn<T, U, F> {
    pub f: F,
    pub elem: PhantomData<(T, U)>,
}

impl<T: Element, U: Element, F: Fn(T) -> U + Send> MapOp for MapFn<T, U, F> {
    open spec fn takes(&self) -> Form {
        form_of::<T>()
    }

    open spec fn form(&self) -> Form {
        form_of::<U>()
    }

    open spec fn accepts(&self, part: Seq<u8>) -> bool {
        call_requires(self.f, (T::decodes(part),))
    }

    open spec fn gives(&self, part: Seq<u8>, out: Seq<u8>) -> bool {
        call_ensures(self.f, (T::decodes(part),), U::decodes(out))
    }

    fn apply(&self, batch: &Storage) -> (out: Storage) {
        let ghost ins = parts(*batch, form_of::<T>());
        proof {
            lemma_batch_elements::<T>(*batch, ins.len());
        }
        let elements: Vec<T> = decode_slice(batch.as_bytes());
        let mut outs: Vec<U> = Vec::new();
        let mut i: usize = 0;
        while i < elements.len()
            invariant
                i <= elements@.len(),
                outs@.len() == i,
                elements@ == crate::flow::decoded::<T>(ins),
                forall|j: int| 0 <= j < ins.len() ==> self.accepts(#[trigger] ins[j]),
                forall|j: int|
                    0 <= j < i ==> call_ensures(self.f, (elements@[j],), #[trigger] outs@[j]),
            decreases elements@.len() - i,
        {
            assert(self.accepts(ins[i as int]));
            outs.push((self.f)(elements[i]));
            i = i + 1;
        }
        let tensor = Tensor::from_elements(outs.as_slice());
        proof {
            lemma_tensor_batch(tensor);
            crate::flow::lemma_decoded_encoded(outs@);
            assert forall|j: int| 0 <= j < ins.len() implies self.gives(
                ins[j],
                #[trigger] parts(tensor.bytes(), form_of::<U>())[j],
            ) by {
                assert(crate::flow::decoded::<U>(crate::view::encoded(outs@))[j] == outs@[j]);
            }
        }
        tensor.into_storage()
    }
}

/// Combines elements with a function.
pub struct ZipFn<T, U, V, F> {
    pub f: F,
    pub elem: PhantomData<(T, U, V)>,
}

impl<T: Element, U: Element, V: Element, F: Fn(T, U) -> V + Send> ZipOp for ZipFn<T, U, V, F> {
    open spec fn takes_left(&self) -> Form {
        form_of::<T>()
    }

    open spec fn takes_right(&self) -> Form {
        form_of::<U>()
    }

    open spec fn form(&self) -> Form {
        form_of::<V>()
    }

    open spec fn accepts(&self, l: Seq<u8>, r: Seq<u8>) -> bool {
        call_requires(self.f, (T::decodes(l), U::decodes(r)))
    }

    open spec fn gives(&self, l: Seq<u8>, r: Seq<u8>, out: Seq<u8>) -> bool {
        call_ensures(self.f, (T::decodes(l), U::decodes(r)), V::decodes(out))
    }

    fn apply(&self, left: &Storage, right: &Storage) -> (out: Storage) {
        let ghost ls = parts(*left, form_of::<T>());
        let ghost rs = parts(*right, form_of::<U>());
        proof {
            lemma_batch_elements::<T>(*left, ls.len());
            lemma_batch_elements::<U>(*right, rs.len());
        }
        let l: Vec<T> = decode_slice(left.as_bytes());
        let r: Vec<U> = decode_slice(right.as_bytes());
        let mut outs: Vec<V> = Vec::new();
        let mut i: usize = 0;
        while i < l.len()
            invariant
                i <= l@.len(),
                l@.len() == r@.len(),
                outs@.len() == i,
                l@ == crate::flow::decoded::<T>(ls),
                r@ == crate::flow::decoded::<U>(rs),
                forall|j: int| 0 <= j < ls.len() ==> self.accepts(#[trigger] ls[j], rs[j]),
                forall|j: int|
                    0 <= j < i ==> call_ensures(self.f, (l@[j], r@[j]), #[trigger] outs@[j]),
            decreases l@.len() - i,
        {
            assert(self.accepts(ls[i as int], rs[i as int]));
            outs.push((self.f)(l[i], r[i]));
            i = i + 1;
        }
        let tensor = Tensor::from_elements(outs.as_slice());
        proof {
            lemma_tensor_batch(tensor);
            crate::flow::lemma_decoded_encoded(outs@);
            assert forall|j: int| 0 <= j < ls.len() implies self.gives(
                ls[j],
                rs[j],
                #[trigger] parts(tensor.bytes(), form_of::<V>())[j],
            ) by {
                assert(crate::flow::decoded::<V>(crate::view::encoded(outs@))[j] == outs@[j]);
            }
        }
        tensor.into_storage()
    }
}

/// Adds elements, with [`kernel::add`](crate::kernel::add).
pub struct AddElements<T> {
    pub elem: PhantomData<T>,
}

impl<T: Element + Add<Output = T>> ZipOp for AddElements<T> {
    open spec fn takes_left(&self) -> Form {
        form_of::<T>()
    }

    open spec fn takes_right(&self) -> Form {
        form_of::<T>()
    }

    open spec fn form(&self) -> Form {
        form_of::<T>()
    }

    open spec fn accepts(&self, l: Seq<u8>, r: Seq<u8>) -> bool {
        T::decodes(l).add_req(T::decodes(r))
    }

    open spec fn gives(&self, l: Seq<u8>, r: Seq<u8>, out: Seq<u8>) -> bool {
        crate::kernel::adds_to(T::decodes(l), T::decodes(r), T::decodes(out))
    }

    fn apply(&self, left: &Storage, right: &Storage) -> (out: Storage) {
        let ghost ls = parts(*left, form_of::<T>());
        let ghost rs = parts(*right, form_of::<T>());
        proof {
            lemma_batch_elements::<T>(*left, ls.len());
            lemma_batch_elements::<T>(*right, rs.len());
        }
        let l: Vec<T> = decode_slice(left.as_bytes());
        let r: Vec<T> = decode_slice(right.as_bytes());
        let mut outs: Vec<T> = decode_slice(left.as_bytes());
        proof {
            assert forall|i: int| 0 <= i < l@.len() implies (#[trigger] l@[i]).add_req(r@[i]) by {
                assert(self.accepts(ls[i], rs[i]));
            }
        }
        crate::kernel::add(l.as_slice(), r.as_slice(), outs.as_mut_slice());
        let tensor = Tensor::from_elements(outs.as_slice());
        proof {
            lemma_tensor_batch(tensor);
            crate::flow::lemma_decoded_encoded(outs@);
            assert forall|j: int| 0 <= j < ls.len() implies self.gives(
                ls[j],
                rs[j],
                #[trigger] parts(tensor.bytes(), form_of::<T>())[j],
            ) by {
                assert(crate::flow::decoded::<T>(crate::view::encoded(outs@))[j] == outs@[j]);
            }
        }
        tensor.into_storage()
    }
}

/// Subtracts elements, with [`kernel::sub`](crate::kernel::sub).
pub struct SubElements<T> {
    pub elem: PhantomData<T>,
}

impl<T: Element + Sub<Output = T>> ZipOp for SubElements<T> {
    open spec fn takes_left(&self) -> Form {
        form_of::<T>()
    }

    open spec fn takes_right(&self) -> Form {
        form_of::<T>()
    }

    open spec fn form(&self) -> Form {
        form_of::<T>()
    }

    open spec fn accepts(&self, l: Seq<u8>, r: Seq<u8>) -> bool {
        T::decodes(l).sub_req(T::decodes(r))
    }

    open spec fn gives(&self, l: Seq<u8>, r: Seq<u8>, out: Seq<u8>) -> bool {
        crate::kernel::subtracts_to(T::decodes(l), T::decodes(r), T::decodes(out))
    }

    fn apply(&self, left: &Storage, right: &Storage) -> (out: Storage) {
        let ghost ls = parts(*left, form_of::<T>());
        let ghost rs = parts(*right, form_of::<T>());
        proof {
            lemma_batch_elements::<T>(*left, ls.len());
            lemma_batch_elements::<T>(*right, rs.len());
        }
        let l: Vec<T> = decode_slice(left.as_bytes());
        let r: Vec<T> = decode_slice(right.as_bytes());
        let mut outs: Vec<T> = decode_slice(left.as_bytes());
        proof {
            assert forall|i: int| 0 <= i < l@.len() implies (#[trigger] l@[i]).sub_req(r@[i]) by {
                assert(self.accepts(ls[i], rs[i]));
            }
        }
        crate::kernel::sub(l.as_slice(), r.as_slice(), outs.as_mut_slice());
        let tensor = Tensor::from_elements(outs.as_slice());
        proof {
            lemma_tensor_batch(tensor);
            crate::flow::lemma_decoded_encoded(outs@);
            assert forall|j: int| 0 <= j < ls.len() implies self.gives(
                ls[j],
                rs[j],
                #[trigger] parts(tensor.bytes(), form_of::<T>())[j],
            ) by {
                assert(crate::flow::decoded::<T>(crate::view::encoded(outs@))[j] == outs@[j]);
            }
        }
        tensor.into_storage()
    }
}

/// Multiplies elements, with [`kernel::mul`](crate::kernel::mul).
pub struct MulElements<T> {
    pub elem: PhantomData<T>,
}

impl<T: Element + Mul<Output = T>> ZipOp for MulElements<T> {
    open spec fn takes_left(&self) -> Form {
        form_of::<T>()
    }

    open spec fn takes_right(&self) -> Form {
        form_of::<T>()
    }

    open spec fn form(&self) -> Form {
        form_of::<T>()
    }

    open spec fn accepts(&self, l: Seq<u8>, r: Seq<u8>) -> bool {
        T::decodes(l).mul_req(T::decodes(r))
    }

    open spec fn gives(&self, l: Seq<u8>, r: Seq<u8>, out: Seq<u8>) -> bool {
        crate::kernel::multiplies_to(T::decodes(l), T::decodes(r), T::decodes(out))
    }

    fn apply(&self, left: &Storage, right: &Storage) -> (out: Storage) {
        let ghost ls = parts(*left, form_of::<T>());
        let ghost rs = parts(*right, form_of::<T>());
        proof {
            lemma_batch_elements::<T>(*left, ls.len());
            lemma_batch_elements::<T>(*right, rs.len());
        }
        let l: Vec<T> = decode_slice(left.as_bytes());
        let r: Vec<T> = decode_slice(right.as_bytes());
        let mut outs: Vec<T> = decode_slice(left.as_bytes());
        proof {
            assert forall|i: int| 0 <= i < l@.len() implies (#[trigger] l@[i]).mul_req(r@[i]) by {
                assert(self.accepts(ls[i], rs[i]));
            }
        }
        crate::kernel::mul(l.as_slice(), r.as_slice(), outs.as_mut_slice());
        let tensor = Tensor::from_elements(outs.as_slice());
        proof {
            lemma_tensor_batch(tensor);
            crate::flow::lemma_decoded_encoded(outs@);
            assert forall|j: int| 0 <= j < ls.len() implies self.gives(
                ls[j],
                rs[j],
                #[trigger] parts(tensor.bytes(), form_of::<T>())[j],
            ) by {
                assert(crate::flow::decoded::<T>(crate::view::encoded(outs@))[j] == outs@[j]);
            }
        }
        tensor.into_storage()
    }
}

/// Sums elements up, batch by batch, each with
/// [`kernel::sum`](crate::kernel::sum).
pub struct SumElements<T> {
    pub elem: PhantomData<T>,
}

impl<T: Element + Summand> ReduceOp for SumElements<T> {
    open spec fn form(&self) -> Form {
        form_of::<T>()
    }

    open spec fn start(&self) -> Seq<u8> {
        T::nil().encodes()
    }

    open spec fn step(&self, so_far: Seq<u8>, batch: Seq<Seq<u8>>) -> Seq<u8> {
        (crate::flow::step_on_bytes(crate::kernel::sum_step::<T>()))(so_far, batch)
    }

    fn begin(&self) -> (start: Vec<u8>) {
        let zero: T = T::default();
        proof {
            T::lemma_nil(zero);
            zero.lemma_decode_encoded();
        }
        zero.encode()
    }

    fn advance(&self, so_far: Vec<u8>, batch: &Storage) -> (next: Vec<u8>) {
        proof {
            lemma_batch_elements::<T>(*batch, parts(*batch, form_of::<T>()).len());
        }
        let elements: Vec<T> = decode_slice(batch.as_bytes());
        let total = T::decode(so_far.as_slice());
        let next = total.plus(crate::kernel::sum(elements.as_slice()));
        proof {
            next.lemma_decode_encoded();
        }
        next.encode()
    }

    fn finish(&self, result: Vec<u8>) -> (batch: Storage) {
        let element = T::decode(result.as_slice());
        let elements: Vec<T> = vec![element];
        let tensor = Tensor::from_elements(elements.as_slice());
        proof {
            lemma_tensor_batch(tensor);
            T::lemma_encode_decoded(result@);
            assert(crate::view::encoded(elements@) =~= seq![result@]);
        }
        tensor.into_storage()
    }
}

/// Any source that makes elements out of their indices.
pub struct Generator {
    pub op: Box<dyn GenerateOp>,
}

impl Generator {
    pub open spec fn form(&self) -> Form {
        self.op.form()
    }

    pub open spec fn accepts(&self, i: nat) -> bool {
        self.op.accepts(i)
    }

    pub open spec fn gives(&self, i: nat, out: Seq<u8>) -> bool {
        self.op.gives(i, out)
    }
}

/// Any element-wise transformation.
pub struct Mapper {
    pub op: Box<dyn MapOp>,
}

impl Mapper {
    pub open spec fn takes(&self) -> Form {
        self.op.takes()
    }

    pub open spec fn form(&self) -> Form {
        self.op.form()
    }

    pub open spec fn accepts(&self, part: Seq<u8>) -> bool {
        self.op.accepts(part)
    }

    pub open spec fn gives(&self, part: Seq<u8>, out: Seq<u8>) -> bool {
        self.op.gives(part, out)
    }
}

/// Any element-wise combination.
pub struct Zipper {
    pub op: Box<dyn ZipOp>,
}

impl Zipper {
    pub open spec fn takes_left(&self) -> Form {
        self.op.takes_left()
    }

    pub open spec fn takes_right(&self) -> Form {
        self.op.takes_right()
    }

    pub open spec fn form(&self) -> Form {
        self.op.form()
    }

    pub open spec fn accepts(&self, l: Seq<u8>, r: Seq<u8>) -> bool {
        self.op.accepts(l, r)
    }

    pub open spec fn gives(&self, l: Seq<u8>, r: Seq<u8>, out: Seq<u8>) -> bool {
        self.op.gives(l, r, out)
    }
}

/// Any reduction.
pub struct Reducer {
    pub op: Box<dyn ReduceOp>,
}

impl Reducer {
    pub open spec fn form(&self) -> Form {
        self.op.form()
    }

    pub open spec fn start(&self) -> Seq<u8> {
        self.op.start()
    }

    pub open spec fn step(&self, so_far: Seq<u8>, batch: Seq<Seq<u8>>) -> Seq<u8> {
        self.op.step(so_far, batch)
    }
}

} // verus!
