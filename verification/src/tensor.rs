//! Owned, contiguous, typed one-dimensional tensors.
//!
//! A [`Tensor`] owns a [`Storage`] and interprets it as a fixed-length,
//! contiguous run of elements of type `T`: all the data is there, in one
//! contiguous allocation.
//!
//! Tensors have a **fixed length**: values can be mutated in place (through
//! [`Tensor::view_mut`] or [`Tensor::make_mut`]), but a tensor never grows or
//! shrinks.

use crate::storage::{Storage, STORAGE_ALIGN};
use crate::summand::Summand;
use crate::view::{decode_slice, encode_slice, Element, View, ViewError, ViewMut};
use memmap2::Mmap;
use std::marker::PhantomData;
use std::ops::{Add, Mul, Sub};
use vstd::prelude::*;
use vstd::std_specs::cmp::*;
use vstd::std_specs::ops::*;
use vstd::string::*;
use vstd::view::View as _;

verus! {

/// The reason a tensor could not be created from a file.
#[derive(Debug)]
pub enum TensorFileError {
    /// Opening or mapping the file failed, for the reason given.
    Io(String),
    /// The file's bytes cannot be viewed as the requested element type (e.g.
    /// its size is not a whole number of elements).
    View(ViewError),
}

impl TensorFileError {
    /// The text that describes the error.
    pub open spec fn message(self) -> Seq<char> {
        match self {
            TensorFileError::Io(reason) => "cannot map file: "@ + reason@,
            TensorFileError::View(error) => "file bytes do not form a tensor: "@ + error.message(),
        }
    }

    /// Describes the error.
    #[must_use]
    pub fn to_string(&self) -> (text: String)
        ensures
            text@ == self.message(),
    {
        let mut text = String::new();
        match self {
            TensorFileError::Io(reason) => {
                text.append("cannot map file: ");
                text.append(reason.as_str());
            },
            TensorFileError::View(error) => {
                text.append("file bytes do not form a tensor: ");
                let reason = error.to_string();
                text.append(reason.as_str());
            },
        }
        assert(text@ =~= self.message());
        text
    }

    /// Describes the error that caused this one: there always is one.
    #[must_use]
    pub fn source(&self) -> (text: Option<String>)
        ensures
            text matches Some(t) && t@ == match *self {
                TensorFileError::Io(reason) => reason@,
                TensorFileError::View(error) => error.message(),
            },
    {
        let mut text = String::new();
        match self {
            TensorFileError::Io(reason) => {
                text.append(reason.as_str());
                assert(text@ =~= reason@);
            },
            TensorFileError::View(error) => {
                text = error.to_string();
            },
        }
        Some(text)
    }
}

impl From<ViewError> for TensorFileError {
    fn from(error: ViewError) -> (converted: Self) {
        TensorFileError::View(error)
    }
}

impl vstd::std_specs::convert::FromSpecImpl<ViewError> for TensorFileError {
    open spec fn obeys_from_spec() -> bool {
        true
    }

    open spec fn from_spec(error: ViewError) -> Self {
        TensorFileError::View(error)
    }
}

/// The alignment of a tensor's allocation: the default one, or more if `T`
/// needs more.
pub open spec fn tensor_align<T>() -> nat {
    if crate::view::elem_align::<T>() <= STORAGE_ALIGN {
        STORAGE_ALIGN as nat
    } else {
        crate::view::elem_align::<T>()
    }
}

/// A tensor of `len` elements stays within the largest size that an
/// allocation can have.
pub open spec fn holdable<T>(len: nat) -> bool {
    crate::storage::allocatable(len * crate::view::elem_size::<T>(), tensor_align::<T>())
}

/// A tensor's allocation is aligned for its elements and at least by default,
/// and not more than one of the two asks for.
pub proof fn law_tensor_alignment<T>()
    ensures
        tensor_align::<T>() >= STORAGE_ALIGN,
        tensor_align::<T>() >= vstd::layout::align_of::<T>(),
        tensor_align::<T>() == STORAGE_ALIGN || tensor_align::<T>() == vstd::layout::align_of::<
            T,
        >(),
{
}

/// A tensor can be held exactly if its bytes, and what aligning them may cost,
/// stay within the largest size of an allocation.
pub proof fn law_holdable<T>(len: nat)
    ensures
        vstd::layout::align_of::<T>() <= STORAGE_ALIGN ==> (holdable::<T>(len) <==> len
            * vstd::layout::size_of::<T>() + STORAGE_ALIGN - 1 <= isize::MAX),
        vstd::layout::align_of::<T>() >= STORAGE_ALIGN ==> (holdable::<T>(len) <==> len
            * vstd::layout::size_of::<T>() + vstd::layout::align_of::<T>() - 1 <= isize::MAX),
{
}

/// The alignment of a tensor is a power of two, and an empty tensor can
/// always be held.
pub proof fn lemma_tensor_align<T>()
    ensures
        vstd::arithmetic::power2::is_pow2(tensor_align::<T>() as int),
        crate::view::elem_align::<T>() <= usize::MAX ==> holdable::<T>(0),
{
    broadcast use vstd::layout::align_properties;
    broadcast use vstd::layout::align_nonzero;

    crate::storage::lemma_storage_align();
    let align = crate::view::elem_align::<T>() as int;
    let space = usize::MAX + 1;
    assert(0 * crate::view::elem_size::<T>() == 0) by (nonlinear_arith);
    if STORAGE_ALIGN < align <= usize::MAX {
        vstd::layout::unsigned_int_max_values();
        assert(vstd::arithmetic::power2::is_pow2(0x1_0000_0000)) by {
            vstd::arithmetic::power2::lemma2_to64();
            vstd::arithmetic::power2::is_pow2_equiv(0x1_0000_0000);
            vstd::arithmetic::power2::lemma_pow2(32);
        }
        assert(vstd::arithmetic::power2::is_pow2(0x1_0000_0000_0000_0000)) by {
            vstd::arithmetic::power2::lemma2_to64();
            vstd::arithmetic::power2::is_pow2_equiv(0x1_0000_0000_0000_0000);
            vstd::arithmetic::power2::lemma_pow2(64);
        }
        assert(vstd::arithmetic::power2::is_pow2(space));
        crate::alignment::lemma_pow2_divides(align, space);
        vstd::arithmetic::div_mod::lemma_fundamental_div_mod(space, align);
        let q = space / align;
        assert(2 * align <= space) by (nonlinear_arith)
            requires
                space == align * q,
                0 < align < space,
        ;
    }
}

/// A tensor well within the largest size of an allocation can be held.
pub proof fn law_small_tensors_can_be_held<T: Element>(len: nat)
    requires
        len * crate::view::elem_size::<T>() + crate::view::elem_size::<T>() + STORAGE_ALIGN
            <= isize::MAX,
    ensures
        holdable::<T>(len),
{
    T::lemma_size();
    broadcast use vstd::layout::align_properties;
    broadcast use vstd::layout::align_nonzero;

    let size = crate::view::elem_size::<T>() as int;
    let align = crate::view::elem_align::<T>() as int;
    if align > size {
        vstd::arithmetic::div_mod::lemma_small_mod(size as nat, align as nat);
    }
}

fn alignment_for<T: Element>() -> (align: usize)
    ensures
        align == tensor_align::<T>(),
{
    let own: usize = core::mem::align_of::<T>();
    if own <= STORAGE_ALIGN {
        STORAGE_ALIGN
    } else {
        own
    }
}

/// An owned, contiguous, fixed-length one-dimensional tensor of elements `T`.
///
/// Cloning is **zero-copy** (the clone shares the bytes): while shared,
/// neither tensor is writable in place; mutate through the explicit
/// [`Tensor::make_mut`], which copies on write.
#[derive(Debug)]
pub struct Tensor<T: Element> {
    /// Invariant ([`Tensor::wf`]): the byte length is a multiple of the element
    /// size and the bytes are aligned for `T`, so the storage is always
    /// viewable as elements `T`.
    storage: Storage,
    _elem: PhantomData<T>,
}

impl<T: Element> Tensor<T> {
    /// The underlying byte storage.
    pub closed spec fn bytes(&self) -> Storage {
        self.storage
    }

    /// The storage is viewable as elements `T`.
    pub open spec fn wf(&self) -> bool {
        &&& self.bytes().wf()
        &&& crate::view::view_error::<T>(self.bytes()) is None
    }

    /// The elements of the tensor.
    pub open spec fn elements(&self) -> Seq<T> {
        crate::view::decode_all::<T>(self.bytes()@)
    }

    /// The tensor owns a heap allocation made for it.
    pub open spec fn fresh(&self) -> bool {
        &&& self.wf()
        &&& self.bytes().is_heap()
        &&& self.bytes().base_alignment() == tensor_align::<T>()
        &&& self.bytes().window_offset() == 0
    }

    /// A tensor's bytes are those of its elements.
    pub proof fn lemma_bytes(&self)
        requires
            self.wf(),
        ensures
            self.bytes()@ == crate::view::encode_all(self.elements()),
            self.bytes()@.len() == self.elements().len() * crate::view::elem_size::<T>(),
            self.elements().len() <= usize::MAX,
    {
        T::lemma_size();
        self.bytes().lemma_wf();
        crate::view::lemma_encode_all_decoded::<T>(self.bytes()@);
        crate::view::lemma_decode_all_encoded::<T>(self.elements());
        let n = self.elements().len();
        let size = crate::view::elem_size::<T>();
        assert(n <= n * size) by (nonlinear_arith)
            requires
                size > 0,
        ;
    }

    fn of_bytes(bytes: &[u8]) -> (tensor: Self)
        requires
            bytes@.len() % crate::view::elem_size::<T>() == 0,
            crate::storage::allocatable(bytes@.len(), tensor_align::<T>()),
        ensures
            tensor.fresh(),
            tensor.bytes()@ == bytes@,
    {
        proof {
            lemma_tensor_align::<T>();
        }
        let storage = Storage::from_bytes_aligned(bytes, alignment_for::<T>());
        proof {
            storage.lemma_wf();
            crate::view::lemma_aligned_for::<T>(
                storage.address() as int,
                storage.base_alignment() as int,
            );
        }
        Tensor { storage, _elem: PhantomData }
    }

    /// Creates a tensor of `len` elements, all set to the all-zero bit pattern
    /// (numeric zero for every primitive).
    #[must_use]
    pub fn zeros(len: usize) -> (tensor: Self)
        requires
            holdable::<T>(len as nat),
        ensures
            tensor.fresh(),
            tensor.bytes()@ == crate::storage::zeros(
                len as nat * crate::view::elem_size::<T>(),
            ),
            tensor.elements().len() == len,
            forall|i: int|
                0 <= i < len ==> #[trigger] tensor.elements()[i] == T::decodes(
                    crate::storage::zeros(crate::view::elem_size::<T>()),
                ),
    {
        proof {
            T::lemma_size();
            lemma_tensor_align::<T>();
            crate::chunks::lemma_whole_chunks(len as nat, crate::view::elem_size::<T>());
        }
        let size: usize = core::mem::size_of::<T>();
        let storage = Storage::zeroed_aligned(len * size, alignment_for::<T>());
        let tensor = Tensor { storage, _elem: PhantomData };
        proof {
            storage.lemma_wf();
            crate::view::lemma_aligned_for::<T>(
                storage.address() as int,
                storage.base_alignment() as int,
            );
            assert forall|i: int| 0 <= i < len implies #[trigger] tensor.elements()[i]
                == T::decodes(crate::storage::zeros(crate::view::elem_size::<T>())) by {
                crate::chunks::lemma_chunk_bounds(storage@.len(), size as nat, i);
                assert(crate::chunks::chunk(storage@, size as nat, i) =~= crate::storage::zeros(
                    size as nat,
                ));
            }
        }
        tensor
    }

    /// Creates a tensor holding a copy of `elements`.
    #[must_use]
    pub fn from_elements(elements: &[T]) -> (tensor: Self)
        requires
            holdable::<T>(elements@.len()),
        ensures
            tensor.fresh(),
            tensor.elements() == elements@,
            tensor.bytes()@ == crate::view::encode_all(elements@),
    {
        proof {
            crate::view::lemma_decode_all_encoded(elements@);
        }
        let bytes = encode_slice(elements);
        Self::of_bytes(bytes.as_slice())
    }

    /// Creates a tensor of `len` elements where element `i` is `f(i)`.
    #[must_use]
    pub fn from_fn(len: usize, mut f: impl FnMut(usize) -> T) -> (tensor: Self)
        requires
            holdable::<T>(len as nat),
            forall|i: usize| i < len ==> #[trigger] call_requires(f, (i,)),
        ensures
            tensor.fresh(),
            tensor.elements().len() == len,
            forall|i: usize|
                i < len ==> #[trigger] call_ensures(f, (i,), tensor.elements()[i as int]),
    {
        let mut elements: Vec<T> = Vec::new();
        let ghost given = f;
        let mut i: usize = 0;
        while i < len
            invariant
                i <= len,
                f == given,
                elements@.len() == i,
                forall|j: usize| j < len ==> #[trigger] call_requires(f, (j,)),
                forall|j: usize| j < i ==> #[trigger] call_ensures(f, (j,), elements@[j as int]),
            decreases len - i,
        {
            elements.push(f(i));
            i = i + 1;
        }
        Self::from_elements(elements.as_slice())
    }

    /// Wraps an existing storage, viewable as elements `T`, without copying.
    pub(crate) fn from_storage(storage: Storage) -> (tensor: Self)
        requires
            storage.wf(),
            crate::view::view_error::<T>(storage) is None,
        ensures
            tensor.wf(),
            tensor.bytes() == storage,
    {
        Tensor { storage, _elem: PhantomData }
    }

    /// Makes a read-only, disk-resident tensor of a file that was opened and
    /// mapped, or not.
    ///
    /// # Errors
    ///
    /// Returns [`TensorFileError::Io`] if the file was not opened or mapped,
    /// and [`TensorFileError::View`] if its bytes do not form elements `T`.
    pub fn from_opened_file(opened: Result<Storage, String>) -> (tensor: Result<
        Self,
        TensorFileError,
    >)
        requires
            opened matches Ok(storage) ==> storage.wf(),
        ensures
            match opened {
                Err(reason) => tensor == Err::<Self, TensorFileError>(TensorFileError::Io(reason)),
                Ok(storage) => match crate::view::view_error::<T>(storage) {
                    Some(error) => tensor == Err::<Self, TensorFileError>(
                        TensorFileError::View(error),
                    ),
                    None => tensor matches Ok(t) && t.wf() && t.bytes() == storage,
                },
            },
    {
        match opened {
            Err(reason) => Err(TensorFileError::Io(reason)),
            Ok(storage) => {
                let checked = match View::<T>::new(&storage) {
                    Ok(_) => None,
                    Err(error) => Some(error),
                };
                match checked {
                    None => Ok(Self::from_storage(storage)),
                    Some(error) => Err(TensorFileError::from(error)),
                }
            },
        }
    }

    /// Returns `true` if moving the elements to disk would release heap
    /// memory.
    #[must_use]
    pub fn needs_spill(&self) -> (needed: bool)
        requires
            self.wf(),
        ensures
            needed == (self.bytes().is_heap() && self.elements().len() > 0),
    {
        proof {
            T::lemma_size();
            self.lemma_bytes();
            let n = self.elements().len();
            let size = crate::view::elem_size::<T>();
            assert(n > 0 <==> n * size > 0) by (nonlinear_arith)
                requires
                    size > 0,
            ;
        }
        self.storage.needs_spill()
    }

    /// Replaces the elements by those of a mapping and lets go of the heap
    /// allocation: the last step of a spill, after the bytes have been written
    /// to the file that `map` shows. The tensor becomes read-only.
    ///
    /// # Errors
    ///
    /// Returns [`ViewError`], and changes nothing, if the mapping's bytes do
    /// not form elements `T`.
    pub fn adopt_mapping(&mut self, map: Mmap) -> (adopted: Result<(), ViewError>)
        ensures
            match adopted {
                Ok(_) => {
                    &&& final(self).wf()
                    &&& final(self).bytes()@ == crate::storage::mapped_bytes(map)
                    &&& !final(self).bytes().is_heap()
                },
                Err(error) => {
                    &&& *final(self) == *old(self)
                    &&& error is SizeMismatch || error is Misaligned
                    &&& error is SizeMismatch <==> crate::storage::mapped_bytes(map).len()
                        % crate::view::elem_size::<T>() != 0
                    &&& exists|shown: Storage|
                        {
                            &&& shown.wf()
                            &&& shown@ == crate::storage::mapped_bytes(map)
                            &&& !shown.is_heap()
                            &&& #[trigger] crate::view::view_error::<T>(shown) == Some(error)
                        }
                },
            },
            crate::storage::mapped_bytes(map).len() % crate::view::elem_size::<T>() == 0 && (
            crate::storage::mapped_bytes(map).len() == 0 || crate::view::elem_align::<T>() == 1)
                ==> adopted is Ok,
    {
        let mut storage = Storage::default();
        storage.adopt_mapping(map);
        let checked = match View::<T>::new(&storage) {
            Ok(_) => None,
            Err(error) => Some(error),
        };
        match checked {
            None => {
                *self = Self::from_storage(storage);
                Ok(())
            },
            Some(error) => Err(error),
        }
    }

    /// Returns `true` if the elements can be mutated in place: the tensor is
    /// neither backed by a file nor currently shared.
    ///
    /// Of a tensor on the heap either answer is possible: it rests on how many
    /// handles share the allocation at that moment, see
    /// [`Tensor::is_writable_with`].
    #[must_use]
    pub fn is_writable(&self) -> (writable: bool)
        ensures
            writable ==> self.bytes().is_heap(),
    {
        self.storage.is_writable()
    }

    /// What [`Tensor::is_writable`] answers when `holders` handles share the
    /// allocation.
    #[must_use]
    pub fn is_writable_with(&self, holders: usize) -> (writable: bool)
        ensures
            writable == (holders == 1 && self.bytes().is_heap()),
    {
        self.storage.is_writable_with(holders)
    }

    /// The first step of [`Tensor::make_mut`], where `writable` is what
    /// [`Tensor::is_writable`] answered: a writable tensor, whose storage is
    /// guaranteed to be aligned for `T`, stays as it is; any other becomes a
    /// copy.
    fn own_elements(&mut self, writable: bool)
        requires
            old(self).wf(),
            holdable::<T>(old(self).elements().len()),
            writable ==> old(self).bytes().is_heap(),
        ensures
            final(self).wf(),
            final(self).bytes()@ == old(self).bytes()@,
            final(self).bytes().is_heap(),
            final(self).bytes().guaranteed_alignment() >= crate::view::elem_align::<T>(),
            final(self).bytes().base_alignment() >= crate::view::elem_align::<T>(),
            ({
                if writable && old(self).bytes().guaranteed_alignment() >= crate::view::elem_align::<
                    T,
                >() {
                    *final(self) == *old(self)
                } else {
                    final(self).fresh()
                }
            }),
    {
        proof {
            self.lemma_bytes();
            broadcast use vstd::layout::align_nonzero;

        }
        if !writable || self.storage.alignment() < core::mem::align_of::<T>() {
            *self = Self::of_bytes(self.storage.as_bytes());
        }
    }

    /// Ensures the tensor is uniquely writable, then returns its mutable
    /// elements.
    ///
    /// If the tensor is file-backed or shared, its bytes are first **copied**
    /// into a fresh heap allocation, aligned for `T` (sharers keep the
    /// original). What is written through the view is what the tensor holds
    /// afterwards.
    pub fn make_mut(&mut self) -> (elements: ViewMut<'_, T>)
        requires
            old(self).wf(),
            holdable::<T>(old(self).elements().len()),
        ensures
            elements.wf(),
            elements.bytes@ == old(self).bytes()@,
            elements.elements() == old(self).elements(),
            final(elements.bytes)@.len() == elements.bytes@.len() ==> {
                &&& final(self).wf()
                &&& final(self).bytes()@ == final(elements.bytes)@
                &&& final(self).elements() == crate::view::decode_all::<T>(final(elements.bytes)@)
                &&& final(self).bytes().is_heap()
            },
    {
        proof {
            self.lemma_bytes();
            broadcast use vstd::layout::align_nonzero;

        }
        let writable = self.is_writable();
        self.own_elements(writable);
        let ghost before = self.storage;
        proof {
            before.lemma_wf();
        }
        let bytes = self.storage.make_mut();
        proof {
            assert forall|after: Storage|
                {
                    &&& after.wf()
                    &&& after@.len() == before@.len()
                    &&& after.base_alignment() == before.base_alignment()
                    &&& after.window_offset() == 0 || after.window_offset()
                        == before.window_offset()
                } implies #[trigger] crate::view::view_error::<T>(after) is None by {
                after.lemma_alignment_divides_address();
                crate::view::lemma_aligned_for::<T>(
                    after.address() as int,
                    after.guaranteed_alignment() as int,
                );
            }
        }
        ViewMut { bytes, elem: PhantomData }
    }

    /// Returns the number of elements.
    #[must_use]
    pub fn len(&self) -> (len: usize)
        requires
            self.wf(),
        ensures
            len == self.elements().len(),
    {
        proof {
            T::lemma_size();
        }
        self.storage.len() / core::mem::size_of::<T>()
    }

    /// Returns `true` if the tensor holds no elements.
    #[must_use]
    pub fn is_empty(&self) -> (empty: bool)
        requires
            self.wf(),
        ensures
            empty == (self.elements().len() == 0),
    {
        self.len() == 0
    }

    /// Returns the elements.
    #[must_use]
    pub fn as_slice(&self) -> (elements: Vec<T>)
        ensures
            elements@ == self.elements(),
    {
        decode_slice(self.storage.as_bytes())
    }

    /// Returns the bytes of the elements, mutable.
    ///
    /// # Errors
    ///
    /// Returns [`ViewError::ReadOnly`] if the tensor is not writable in place
    /// (file-backed or shared): promote it with [`Tensor::make_mut`] first.
    pub fn as_mut_slice(&mut self) -> (bytes: Result<&mut [u8], ViewError>)
        requires
            old(self).wf(),
        ensures
            !old(self).bytes().is_heap() ==> bytes is Err,
            match bytes {
                Ok(b) => {
                    &&& b@ == old(self).bytes()@
                    &&& final(b)@.len() == b@.len() ==> {
                        &&& final(self).wf()
                        &&& final(self).bytes()@ == final(b)@
                        &&& final(self).bytes().is_heap()
                    }
                },
                Err(error) => error == ViewError::ReadOnly && *final(self) == *old(self),
            },
    {
        match self.view_mut() {
            Ok(view) => Ok(view.into_slice_mut()),
            Err(error) => Err(error),
        }
    }

    /// Returns an immutable typed view of the tensor.
    #[must_use]
    pub fn view(&self) -> (view: View<'_, T>)
        requires
            self.wf(),
        ensures
            view.elements() == self.elements(),
    {
        View::of_storage(&self.storage)
    }

    /// Returns a mutable typed view of the tensor.
    ///
    /// # Errors
    ///
    /// Returns [`ViewError::ReadOnly`] if the tensor is not writable in place
    /// (file-backed or shared): promote it with [`Tensor::make_mut`] first.
    pub fn view_mut(&mut self) -> (view: Result<ViewMut<'_, T>, ViewError>)
        requires
            old(self).wf(),
        ensures
            !old(self).bytes().is_heap() ==> view is Err,
            match view {
                Ok(v) => {
                    &&& v.wf()
                    &&& v.bytes@ == old(self).bytes()@
                    &&& v.elements() == old(self).elements()
                    &&& final(v.bytes)@.len() == v.bytes@.len() ==> {
                        &&& final(self).wf()
                        &&& final(self).bytes()@ == final(v.bytes)@
                        &&& final(self).elements() == crate::view::decode_all::<T>(
                            final(v.bytes)@,
                        )
                        &&& final(self).bytes().is_heap()
                    }
                },
                Err(error) => error == ViewError::ReadOnly && *final(self) == *old(self),
            },
    {
        ViewMut::new(&mut self.storage)
    }

    /// Returns a reference to the underlying byte storage.
    #[must_use]
    pub fn storage(&self) -> (storage: &Storage)
        ensures
            *storage == self.bytes(),
    {
        &self.storage
    }

    /// Consumes the tensor, returning the underlying byte storage.
    #[must_use]
    pub fn into_storage(self) -> (storage: Storage)
        ensures
            storage == self.bytes(),
    {
        self.storage
    }

    /// Returns the single element of a one-element tensor: the way to read a
    /// reduction's result.
    #[must_use]
    pub fn item(&self) -> (element: T)
        requires
            self.elements().len() == 1,
        ensures
            element == self.elements()[0],
    {
        let elements = self.as_slice();
        elements[0]
    }

    /// Returns the sum of all elements (zero for an empty tensor), in the
    /// order of [`kernel::sum`](crate::kernel::sum).
    #[must_use]
    pub fn sum(&self) -> (total: T) where T: Summand
        ensures
            total == crate::kernel::pairwise_sum(self.elements()),
            T::exact() ==> total == crate::kernel::naive_sum(self.elements()),
    {
        let elements = self.as_slice();
        crate::kernel::sum(elements.as_slice())
    }

    /// Returns a new tensor where element `i` is `f(self[i])`.
    ///
    /// The output element type may differ from the input's.
    #[must_use]
    pub fn map<U: Element>(&self, mut f: impl FnMut(T) -> U) -> (mapped: Tensor<U>)
        requires
            self.wf(),
            holdable::<U>(self.elements().len()),
            forall|i: int|
                0 <= i < self.elements().len() ==> #[trigger] call_requires(
                    f,
                    (self.elements()[i],),
                ),
        ensures
            mapped.fresh(),
            mapped.elements().len() == self.elements().len(),
            forall|i: int|
                0 <= i < self.elements().len() ==> #[trigger] call_ensures(
                    f,
                    (self.elements()[i],),
                    mapped.elements()[i],
                ),
    {
        let elements = self.as_slice();
        let mut out: Vec<U> = Vec::new();
        let ghost given = f;
        let mut i: usize = 0;
        while i < elements.len()
            invariant
                i <= elements@.len(),
                f == given,
                out@.len() == i,
                forall|j: int|
                    0 <= j < elements@.len() ==> #[trigger] call_requires(f, (elements@[j],)),
                forall|j: int|
                    0 <= j < i ==> #[trigger] call_ensures(f, (elements@[j],), out@[j]),
            decreases elements@.len() - i,
        {
            out.push(f(elements[i]));
            i = i + 1;
        }
        Tensor::<U>::from_elements(out.as_slice())
    }

    /// Collects elements into a tensor.
    #[must_use]
    pub fn from_vec(elements: Vec<T>) -> (tensor: Self)
        requires
            holdable::<T>(elements@.len()),
        ensures
            tensor.fresh(),
            tensor.elements() == elements@,
    {
        Self::from_elements(elements.as_slice())
    }
}

/// Element-wise addition: `&a + &b`, of tensors of the same length.
impl<T: Element + Add<Output = T>> Add for &Tensor<T> {
    type Output = Tensor<T>;

    fn add(self, rhs: Self) -> (sum: Tensor<T>)
        ensures
            sum.fresh(),
            sum.elements().len() == self.elements().len(),
            forall|i: int|
                0 <= i < self.elements().len() ==> crate::kernel::adds_to(
                    self.elements()[i],
                    rhs.elements()[i],
                    #[trigger] sum.elements()[i],
                ),
            T::obeys_add_spec() ==> forall|i: int|
                0 <= i < self.elements().len() ==> #[trigger] sum.elements()[i]
                    == self.elements()[i].add_spec(rhs.elements()[i]),
    {
        let a = self.as_slice();
        let b = rhs.as_slice();
        let mut out = self.as_slice();
        crate::kernel::add(a.as_slice(), b.as_slice(), out.as_mut_slice());
        Tensor::from_elements(out.as_slice())
    }
}

impl<T: Element + Add<Output = T>> vstd::std_specs::ops::AddSpecImpl for &Tensor<T> {
    open spec fn obeys_add_spec() -> bool {
        false
    }

    open spec fn add_req(self, rhs: Self) -> bool {
        &&& self.elements().len() == rhs.elements().len()
        &&& holdable::<T>(self.elements().len())
        &&& forall|i: int|
            0 <= i < self.elements().len() ==> (#[trigger] self.elements()[i]).add_req(
                rhs.elements()[i],
            )
    }

    open spec fn add_spec(self, rhs: Self) -> Tensor<T> {
        arbitrary()
    }
}

/// Element-wise subtraction: `&a - &b`, of tensors of the same length.
impl<T: Element + Sub<Output = T>> Sub for &Tensor<T> {
    type Output = Tensor<T>;

    fn sub(self, rhs: Self) -> (difference: Tensor<T>)
        ensures
            difference.fresh(),
            difference.elements().len() == self.elements().len(),
            forall|i: int|
                0 <= i < self.elements().len() ==> crate::kernel::subtracts_to(
                    self.elements()[i],
                    rhs.elements()[i],
                    #[trigger] difference.elements()[i],
                ),
            T::obeys_sub_spec() ==> forall|i: int|
                0 <= i < self.elements().len() ==> #[trigger] difference.elements()[i]
                    == self.elements()[i].sub_spec(rhs.elements()[i]),
    {
        let a = self.as_slice();
        let b = rhs.as_slice();
        let mut out = self.as_slice();
        crate::kernel::sub(a.as_slice(), b.as_slice(), out.as_mut_slice());
        Tensor::from_elements(out.as_slice())
    }
}

impl<T: Element + Sub<Output = T>> vstd::std_specs::ops::SubSpecImpl for &Tensor<T> {
    open spec fn obeys_sub_spec() -> bool {
        false
    }

    open spec fn sub_req(self, rhs: Self) -> bool {
        &&& self.elements().len() == rhs.elements().len()
        &&& holdable::<T>(self.elements().len())
        &&& forall|i: int|
            0 <= i < self.elements().len() ==> (#[trigger] self.elements()[i]).sub_req(
                rhs.elements()[i],
            )
    }

    open spec fn sub_spec(self, rhs: Self) -> Tensor<T> {
        arbitrary()
    }
}

/// Element-wise product: `&a * &b`, of tensors of the same length.
impl<T: Element + Mul<Output = T>> Mul for &Tensor<T> {
    type Output = Tensor<T>;

    fn mul(self, rhs: Self) -> (product: Tensor<T>)
        ensures
            product.fresh(),
            product.elements().len() == self.elements().len(),
            forall|i: int|
                0 <= i < self.elements().len() ==> crate::kernel::multiplies_to(
                    self.elements()[i],
                    rhs.elements()[i],
                    #[trigger] product.elements()[i],
                ),
            T::obeys_mul_spec() ==> forall|i: int|
                0 <= i < self.elements().len() ==> #[trigger] product.elements()[i]
                    == self.elements()[i].mul_spec(rhs.elements()[i]),
    {
        let a = self.as_slice();
        let b = rhs.as_slice();
        let mut out = self.as_slice();
        crate::kernel::mul(a.as_slice(), b.as_slice(), out.as_mut_slice());
        Tensor::from_elements(out.as_slice())
    }
}

impl<T: Element + Mul<Output = T>> vstd::std_specs::ops::MulSpecImpl for &Tensor<T> {
    open spec fn obeys_mul_spec() -> bool {
        false
    }

    open spec fn mul_req(self, rhs: Self) -> bool {
        &&& self.elements().len() == rhs.elements().len()
        &&& holdable::<T>(self.elements().len())
        &&& forall|i: int|
            0 <= i < self.elements().len() ==> (#[trigger] self.elements()[i]).mul_req(
                rhs.elements()[i],
            )
    }

    open spec fn mul_spec(self, rhs: Self) -> Tensor<T> {
        arbitrary()
    }
}

/// Scalar multiplication: `&a * scalar`.
impl<T: Element + Mul<Output = T>> Mul<T> for &Tensor<T> {
    type Output = Tensor<T>;

    fn mul(self, scalar: T) -> (product: Tensor<T>)
        ensures
            product.fresh(),
            product.elements().len() == self.elements().len(),
            forall|i: int|
                0 <= i < self.elements().len() ==> crate::kernel::multiplies_to(
                    self.elements()[i],
                    scalar,
                    #[trigger] product.elements()[i],
                ),
            T::obeys_mul_spec() ==> forall|i: int|
                0 <= i < self.elements().len() ==> #[trigger] product.elements()[i]
                    == self.elements()[i].mul_spec(scalar),
    {
        let a = self.as_slice();
        let mut out = self.as_slice();
        crate::kernel::mul_scalar(a.as_slice(), scalar, out.as_mut_slice());
        Tensor::from_elements(out.as_slice())
    }
}

impl<T: Element + Mul<Output = T>> vstd::std_specs::ops::MulSpecImpl<T> for &Tensor<T> {
    open spec fn obeys_mul_spec() -> bool {
        false
    }

    open spec fn mul_req(self, scalar: T) -> bool {
        &&& holdable::<T>(self.elements().len())
        &&& forall|i: int|
            0 <= i < self.elements().len() ==> (#[trigger] self.elements()[i]).mul_req(scalar)
    }

    open spec fn mul_spec(self, scalar: T) -> Tensor<T> {
        arbitrary()
    }
}

impl<T: Element> Clone for Tensor<T> {
    /// Zero-copy: the clone shares the same bytes. While both are alive,
    /// neither is writable in place.
    fn clone(&self) -> (copy: Self)
        ensures
            copy == *self,
    {
        Tensor { storage: self.storage.clone(), _elem: PhantomData }
    }
}

/// Elements that compare equal one by one.
pub open spec fn all_equal<T: PartialEq>(a: Seq<T>, b: Seq<T>) -> bool {
    &&& a.len() == b.len()
    &&& forall|i: int| 0 <= i < a.len() ==> (#[trigger] a[i]).eq_spec(&b[i])
}

impl<T: Element + PartialEq> PartialEq for Tensor<T> {
    /// Two tensors are equal when their elements are equal (element
    /// semantics).
    fn eq(&self, other: &Self) -> (same: bool) {
        let a = self.as_slice();
        let b = other.as_slice();
        if a.len() != b.len() {
            return false;
        }
        let mut i: usize = 0;
        while i < a.len()
            invariant
                i <= a@.len(),
                a@.len() == b@.len(),
                a@ == self.elements(),
                b@ == other.elements(),
                T::obeys_eq_spec() ==> forall|j: int|
                    0 <= j < i ==> (#[trigger] a@[j]).eq_spec(&b@[j]),
            decreases a@.len() - i,
        {
            if !(a[i] == b[i]) {
                return false;
            }
            i = i + 1;
        }
        true
    }
}

impl<T: Element + PartialEq> vstd::std_specs::cmp::PartialEqSpecImpl for Tensor<T> {
    open spec fn obeys_eq_spec() -> bool {
        T::obeys_eq_spec()
    }

    open spec fn eq_spec(&self, other: &Self) -> bool {
        all_equal(self.elements(), other.elements())
    }
}

/// Tensors compare equal exactly if they are equally long and all elements, in
/// the same places, compare equal.
pub proof fn law_equality_is_elementwise<T: Element + PartialEq>(a: Tensor<T>, b: Tensor<T>)
    requires
        T::obeys_eq_spec(),
    ensures
        <Tensor<T> as PartialEqSpec>::obeys_eq_spec(),
        PartialEqSpec::eq_spec(&a, &b) <==> {
            &&& a.elements().len() == b.elements().len()
            &&& forall|i: int|
                0 <= i < a.elements().len() ==> (#[trigger] a.elements()[i]).eq_spec(
                    &b.elements()[i],
                )
        },
{
}

/// Tensors of elements that compare equal only to themselves, such as integers,
/// compare equal exactly if they hold the same elements.
pub proof fn law_equality_is_that_of_elements<T: Element + PartialEq>(a: Tensor<T>, b: Tensor<T>)
    requires
        T::obeys_eq_spec(),
        forall|x: T, y: T| #[trigger] x.eq_spec(&y) == (x == y),
    ensures
        <Tensor<T> as PartialEqSpec>::obeys_eq_spec(),
        PartialEqSpec::eq_spec(&a, &b) <==> a.elements() == b.elements(),
{
    law_equality_is_elementwise(a, b);
    if PartialEqSpec::eq_spec(&a, &b) {
        assert forall|i: int| 0 <= i < a.elements().len() implies a.elements()[i]
            == b.elements()[i] by {
            assert(a.elements()[i].eq_spec(&b.elements()[i]));
        }
        assert(a.elements() =~= b.elements());
    }
}

/// Tensors of `u8` compare equal exactly if they hold the same numbers.
pub proof fn law_equality_u8(a: Tensor<u8>, b: Tensor<u8>)
    ensures
        <Tensor<u8> as PartialEqSpec>::obeys_eq_spec(),
        PartialEqSpec::eq_spec(&a, &b) <==> a.elements() == b.elements(),
{
    law_equality_is_that_of_elements(a, b);
}

/// Tensors of `u16` compare equal exactly if they hold the same numbers.
pub proof fn law_equality_u16(a: Tensor<u16>, b: Tensor<u16>)
    ensures
        <Tensor<u16> as PartialEqSpec>::obeys_eq_spec(),
        PartialEqSpec::eq_spec(&a, &b) <==> a.elements() == b.elements(),
{
    law_equality_is_that_of_elements(a, b);
}

/// Tensors of `u32` compare equal exactly if they hold the same numbers.
pub proof fn law_equality_u32(a: Tensor<u32>, b: Tensor<u32>)
    ensures
        <Tensor<u32> as PartialEqSpec>::obeys_eq_spec(),
        PartialEqSpec::eq_spec(&a, &b) <==> a.elements() == b.elements(),
{
    law_equality_is_that_of_elements(a, b);
}

/// Tensors of `u64` compare equal exactly if they hold the same numbers.
pub proof fn law_equality_u64(a: Tensor<u64>, b: Tensor<u64>)
    ensures
        <Tensor<u64> as PartialEqSpec>::obeys_eq_spec(),
        PartialEqSpec::eq_spec(&a, &b) <==> a.elements() == b.elements(),
{
    law_equality_is_that_of_elements(a, b);
}

/// Tensors of `u128` compare equal exactly if they hold the same numbers.
pub proof fn law_equality_u128(a: Tensor<u128>, b: Tensor<u128>)
    ensures
        <Tensor<u128> as PartialEqSpec>::obeys_eq_spec(),
        PartialEqSpec::eq_spec(&a, &b) <==> a.elements() == b.elements(),
{
    law_equality_is_that_of_elements(a, b);
}

/// Tensors of `usize` compare equal exactly if they hold the same numbers.
pub proof fn law_equality_usize(a: Tensor<usize>, b: Tensor<usize>)
    ensures
        <Tensor<usize> as PartialEqSpec>::obeys_eq_spec(),
        PartialEqSpec::eq_spec(&a, &b) <==> a.elements() == b.elements(),
{
    law_equality_is_that_of_elements(a, b);
}

/// Tensors of `i8` compare equal exactly if they hold the same numbers.
pub proof fn law_equality_i8(a: Tensor<i8>, b: Tensor<i8>)
    ensures
        <Tensor<i8> as PartialEqSpec>::obeys_eq_spec(),
        PartialEqSpec::eq_spec(&a, &b) <==> a.elements() == b.elements(),
{
    law_equality_is_that_of_elements(a, b);
}

/// Tensors of `i16` compare equal exactly if they hold the same numbers.
pub proof fn law_equality_i16(a: Tensor<i16>, b: Tensor<i16>)
    ensures
        <Tensor<i16> as PartialEqSpec>::obeys_eq_spec(),
        PartialEqSpec::eq_spec(&a, &b) <==> a.elements() == b.elements(),
{
    law_equality_is_that_of_elements(a, b);
}

/// Tensors of `i32` compare equal exactly if they hold the same numbers.
pub proof fn law_equality_i32(a: Tensor<i32>, b: Tensor<i32>)
    ensures
        <Tensor<i32> as PartialEqSpec>::obeys_eq_spec(),
        PartialEqSpec::eq_spec(&a, &b) <==> a.elements() == b.elements(),
{
    law_equality_is_that_of_elements(a, b);
}

/// Tensors of `i64` compare equal exactly if they hold the same numbers.
pub proof fn law_equality_i64(a: Tensor<i64>, b: Tensor<i64>)
    ensures
        <Tensor<i64> as PartialEqSpec>::obeys_eq_spec(),
        PartialEqSpec::eq_spec(&a, &b) <==> a.elements() == b.elements(),
{
    law_equality_is_that_of_elements(a, b);
}

/// Tensors of `i128` compare equal exactly if they hold the same numbers.
pub proof fn law_equality_i128(a: Tensor<i128>, b: Tensor<i128>)
    ensures
        <Tensor<i128> as PartialEqSpec>::obeys_eq_spec(),
        PartialEqSpec::eq_spec(&a, &b) <==> a.elements() == b.elements(),
{
    law_equality_is_that_of_elements(a, b);
}

/// Tensors of `isize` compare equal exactly if they hold the same numbers.
pub proof fn law_equality_isize(a: Tensor<isize>, b: Tensor<isize>)
    ensures
        <Tensor<isize> as PartialEqSpec>::obeys_eq_spec(),
        PartialEqSpec::eq_spec(&a, &b) <==> a.elements() == b.elements(),
{
    law_equality_is_that_of_elements(a, b);
}

impl<T: Element + Eq> Eq for Tensor<T> {

}

impl<T: Element> Default for Tensor<T> {
    /// A tensor without elements.
    fn default() -> (tensor: Self)
        ensures
            tensor.fresh(),
            tensor.elements() == Seq::<T>::empty(),
    {
        let align: usize = core::mem::align_of::<T>();
        proof {
            lemma_tensor_align::<T>();
        }
        let tensor = Self::zeros(0);
        assert(tensor.elements() =~= Seq::<T>::empty());
        tensor
    }
}

impl<T: Element> From<&[T]> for Tensor<T> {
    /// Copies the elements, like [`Tensor::from_elements`]. (No slice is so
    /// long that its copy could not be held; one that were would give an empty
    /// tensor.)
    fn from(elements: &[T]) -> (tensor: Self)
        ensures
            tensor.fresh(),
            holdable::<T>(elements@.len()) ==> tensor.elements() == elements@,
            !holdable::<T>(elements@.len()) ==> tensor.elements() == Seq::<T>::empty(),
    {
        if can_hold::<T>(elements.len()) {
            Self::from_elements(elements)
        } else {
            Self::default()
        }
    }
}

impl<T: Element> vstd::std_specs::convert::FromSpecImpl<&[T]> for Tensor<T> {
    open spec fn obeys_from_spec() -> bool {
        false
    }

    open spec fn from_spec(elements: &[T]) -> Self {
        arbitrary()
    }
}

/// Returns `true` if a tensor of `len` elements stays within the largest size
/// that an allocation can have.
#[must_use]
pub fn can_hold<T: Element>(len: usize) -> (held: bool)
    ensures
        held == holdable::<T>(len as nat),
{
    let size: usize = core::mem::size_of::<T>();
    let align: usize = alignment_for::<T>();
    match len.checked_mul(size) {
        Some(bytes) => bytes <= isize::MAX as usize && align - 1 <= isize::MAX as usize - bytes,
        None => false,
    }
}

} // verus!
