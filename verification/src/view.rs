//! Typed views over raw [`Storage`] bytes.
//!
//! A view is a non-owning, typed lens: it reads the raw bytes of a
//! [`Storage`] as elements of some type `T` (an [`Element`]), so callers can
//! read and write numbers instead of bytes. Creating a view is checked and
//! zero-copy: it borrows the storage and interprets its bytes in place, one
//! element at a time, as they are asked for.
//!
//! [`View`] gives read-only access; [`ViewMut`] also allows writing.

use crate::storage::Storage;
use crate::tensor::Tensor;
use crate::text::push_decimal;
use std::marker::PhantomData;
use vstd::prelude::*;
use vstd::slice::*;
use vstd::string::*;
use vstd::view::View as _;

verus! {

/// The size in bytes of a `T`.
pub open spec fn elem_size<T>() -> nat {
    vstd::layout::size_of::<T>()
}

/// The alignment in bytes of a `T`.
pub open spec fn elem_align<T>() -> nat {
    vstd::layout::align_of::<T>()
}

/// Bytes as contracts speak of them.
pub type Bytes = Seq<u8>;

/// Text as contracts speak of it.
pub type Text = Seq<char>;

/// Types that can be reinterpreted from raw bytes.
///
/// Elements are plain data through and through: the `Copy + Send + Sync +
/// 'static` supertraits mean an element owns no resources and can freely cross
/// thread boundaries. Its representation is fixed in size, without padding,
/// and every bit pattern is a value: decoding and encoding undo each other.
pub trait Element: Copy + Send + Sync + 'static {
    /// The value that `bytes` represent.
    spec fn decodes(bytes: Bytes) -> Self;

    /// The bytes that represent `self`.
    spec fn encodes(self) -> Bytes;

    /// The name of the type.
    spec fn type_label() -> Text;

    /// An element has a size other than zero.
    proof fn lemma_size()
        ensures
            elem_size::<Self>() > 0,
    ;

    /// An element is what its bytes represent.
    proof fn lemma_decode_encoded(self)
        ensures
            self.encodes().len() == elem_size::<Self>(),
            Self::decodes(self.encodes()) == self,
    ;

    /// Every bit pattern is a value, and there is no padding.
    proof fn lemma_encode_decoded(bytes: Bytes)
        requires
            bytes.len() == elem_size::<Self>(),
        ensures
            Self::decodes(bytes).encodes() == bytes,
    ;

    /// Returns the name of the type, as plans show it.
    fn label() -> (text: &'static str)
        ensures
            text@ == Self::type_label(),
    ;

    /// Returns the value that `bytes` represent.
    fn decode(bytes: &[u8]) -> (value: Self)
        requires
            bytes@.len() == elem_size::<Self>(),
        ensures
            value == Self::decodes(bytes@),
    ;

    /// Returns the bytes that represent `self`.
    fn encode(self) -> (bytes: Vec<u8>)
        ensures
            bytes@ == self.encodes(),
    ;
}

/// The elements that `bytes` represent.
pub open spec fn decode_all<T: Element>(bytes: Seq<u8>) -> Seq<T> {
    crate::chunks::chunks(bytes, elem_size::<T>()).map_values(|part: Seq<u8>| T::decodes(part))
}

/// The encoded elements, each by itself.
pub open spec fn encoded<T: Element>(elements: Seq<T>) -> Seq<Seq<u8>> {
    elements.map_values(|element: T| element.encodes())
}

/// The bytes that represent `elements`.
pub open spec fn encode_all<T: Element>(elements: Seq<T>) -> Seq<u8> {
    crate::chunks::join(encoded(elements))
}

pub proof fn lemma_encoded_uniform<T: Element>(elements: Seq<T>)
    ensures
        crate::chunks::uniform(encoded(elements), elem_size::<T>()),
{
    assert forall|i: int| 0 <= i < elements.len() implies (#[trigger] encoded(elements)[i]).len()
        == elem_size::<T>() by {
        elements[i].lemma_decode_encoded();
    }
}

/// Reading back the bytes of elements gives the elements.
pub proof fn lemma_decode_all_encoded<T: Element>(elements: Seq<T>)
    ensures
        decode_all::<T>(encode_all(elements)) == elements,
        encode_all(elements).len() == elements.len() * elem_size::<T>(),
        encode_all(elements).len() % elem_size::<T>() == 0,
        crate::chunks::chunks(encode_all(elements), elem_size::<T>()) == encoded(elements),
{
    T::lemma_size();
    lemma_encoded_uniform(elements);
    crate::chunks::lemma_chunks_of_join(encoded(elements), elem_size::<T>());
    assert forall|i: int| 0 <= i < elements.len() implies decode_all::<T>(
        encode_all(elements),
    )[i] == elements[i] by {
        elements[i].lemma_decode_encoded();
    }
    assert(decode_all::<T>(encode_all(elements)) =~= elements);
}

/// Bytes that form whole elements are the bytes of those elements.
pub proof fn lemma_encode_all_decoded<T: Element>(bytes: Seq<u8>)
    requires
        bytes.len() % elem_size::<T>() == 0,
    ensures
        encode_all(decode_all::<T>(bytes)) == bytes,
        encoded(decode_all::<T>(bytes)) == crate::chunks::chunks(bytes, elem_size::<T>()),
{
    T::lemma_size();
    let parts = crate::chunks::chunks(bytes, elem_size::<T>());
    crate::chunks::lemma_join_of_chunks(bytes, elem_size::<T>());
    crate::chunks::lemma_chunks_uniform(bytes, elem_size::<T>());
    assert forall|i: int| 0 <= i < parts.len() implies encoded(decode_all::<T>(bytes))[i]
        == parts[i] by {
        T::lemma_encode_decoded(parts[i]);
    }
    assert(encoded(decode_all::<T>(bytes)) =~= parts);
}

/// Reads `bytes`, which form whole elements, as elements.
pub fn decode_slice<T: Element>(bytes: &[u8]) -> (elements: Vec<T>)
    ensures
        elements@ == decode_all::<T>(bytes@),
{
    proof {
        T::lemma_size();
    }
    let size: usize = core::mem::size_of::<T>();
    let n: usize = bytes.len() / size;
    let mut elements: Vec<T> = Vec::new();
    let mut i: usize = 0;
    while i < n
        invariant
            i <= n,
            size == elem_size::<T>(),
            size > 0,
            n == bytes@.len() / size as nat,
            bytes@.len() <= usize::MAX,
            elements@ == decode_all::<T>(bytes@).subrange(0, i as int),
        decreases n - i,
    {
        proof {
            crate::chunks::lemma_chunk_bounds(bytes@.len(), size as nat, i as int);
        }
        let from: usize = i * size;
        elements.push(T::decode(slice_subrange(bytes, from, from + size)));
        i = i + 1;
        assert(elements@ =~= decode_all::<T>(bytes@).subrange(0, i as int));
    }
    assert(elements@ =~= decode_all::<T>(bytes@));
    elements
}

/// Returns the bytes of `elements`.
pub fn encode_slice<T: Element>(elements: &[T]) -> (bytes: Vec<u8>)
    ensures
        bytes@ == encode_all(elements@),
{
    let mut bytes: Vec<u8> = Vec::new();
    let mut i: usize = 0;
    assert(encoded(elements@.subrange(0, 0)) =~= Seq::<Seq<u8>>::empty());
    while i < elements.len()
        invariant
            i <= elements@.len(),
            bytes@ == encode_all(elements@.subrange(0, i as int)),
        decreases elements@.len() - i,
    {
        let mut part = elements[i].encode();
        let ghost done = encoded(elements@.subrange(0, i as int));
        let ghost more = encoded(elements@.subrange(0, i + 1));
        proof {
            assert(more.drop_last() =~= done);
            assert(more.last() == elements@[i as int].encodes());
        }
        bytes.append(&mut part);
        i = i + 1;
    }
    assert(elements@.subrange(0, i as int) =~= elements@);
    bytes
}

/// The reason a typed view could not be created over a [`Storage`].
#[derive(Debug, Clone, Copy, PartialEq, Eq, Structural)]
pub enum ViewError {
    /// The byte length is not a whole multiple of the element size.
    SizeMismatch {
        /// Number of bytes held by the storage.
        byte_len: usize,
        /// Size, in bytes, of one element.
        element_size: usize,
    },
    /// The storage is not aligned strongly enough for the element type.
    Misaligned {
        /// Alignment, in bytes, required by the element type.
        required: usize,
    },
    /// The storage is not writable in place (memory-mapped, or shared by a
    /// clone or slice), so no mutable view can be created.
    ReadOnly,
}

impl ViewError {
    /// The text that describes the error.
    pub open spec fn message(self) -> Seq<char> {
        match self {
            ViewError::SizeMismatch { byte_len, element_size } => "byte length "@
                + crate::text::decimal(byte_len as nat) + " is not a multiple of element size "@
                + crate::text::decimal(element_size as nat),
            ViewError::Misaligned { required } => "storage is not aligned to "@
                + crate::text::decimal(required as nat) + " bytes"@,
            ViewError::ReadOnly =>
                "storage is read-only (memory-mapped or shared); promote it with Storage::make_mut"@,
        }
    }

    /// Describes the error.
    #[must_use]
    pub fn to_string(&self) -> (text: String)
        ensures
            text@ == self.message(),
    {
        let mut text = String::new();
        match self {
            ViewError::SizeMismatch { byte_len, element_size } => {
                text.append("byte length ");
                push_decimal(&mut text, *byte_len as u64);
                text.append(" is not a multiple of element size ");
                push_decimal(&mut text, *element_size as u64);
            },
            ViewError::Misaligned { required } => {
                text.append("storage is not aligned to ");
                push_decimal(&mut text, *required as u64);
                text.append(" bytes");
            },
            ViewError::ReadOnly => {
                text.append(
                    "storage is read-only (memory-mapped or shared); promote it with Storage::make_mut",
                );
            },
        }
        assert(text@ =~= self.message());
        text
    }
}

/// What keeps `storage` from being read as elements of a size and an alignment,
/// if anything does.
pub open spec fn layout_error(storage: Storage, size: nat, align: nat) -> Option<ViewError> {
    if storage@.len() % size != 0 {
        Some(
            ViewError::SizeMismatch {
                byte_len: storage@.len() as usize,
                element_size: size as usize,
            },
        )
    } else if storage@.len() != 0 && storage.address() % align != 0 {
        Some(ViewError::Misaligned { required: align as usize })
    } else {
        None
    }
}

/// What keeps `storage` from being read as elements `T`, if anything does.
pub open spec fn view_error<T: Element>(storage: Storage) -> Option<ViewError> {
    layout_error(storage, elem_size::<T>(), elem_align::<T>())
}

/// Validates that `storage` can be read as elements of a size and an alignment
/// and returns the element count.
pub(crate) fn checked_layout(storage: &Storage, element_size: usize, align: usize) -> (len: Result<
    usize,
    ViewError,
>)
    requires
        storage.wf(),
        element_size > 0,
        align > 0,
    ensures
        match len {
            Ok(n) => {
                &&& layout_error(*storage, element_size as nat, align as nat) is None
                &&& n == storage@.len() / element_size as nat
            },
            Err(error) => layout_error(*storage, element_size as nat, align as nat) == Some(error),
        },
{
    let byte_len: usize = storage.len();
    if byte_len % element_size != 0 {
        return Err(ViewError::SizeMismatch { byte_len, element_size });
    }
    // Alignment only matters when there is data to point at.

    if byte_len != 0 && storage.start_address() % align != 0 {
        return Err(ViewError::Misaligned { required: align });
    }
    Ok(byte_len / element_size)
}

/// Validates that `storage` can be read as elements `T` and returns the
/// element count.
fn checked_len<T: Element>(storage: &Storage) -> (len: Result<usize, ViewError>)
    requires
        storage.wf(),
    ensures
        match len {
            Ok(n) => view_error::<T>(*storage) is None && n == storage@.len() / elem_size::<T>(),
            Err(error) => view_error::<T>(*storage) == Some(error),
        },
{
    proof {
        T::lemma_size();
        broadcast use vstd::layout::align_nonzero;

    }
    checked_layout(storage, core::mem::size_of::<T>(), core::mem::align_of::<T>())
}

impl Storage {
    /// Creates a storage holding a copy of `elements`, laid out contiguously.
    /// The result is always viewable as `T`: it has the default alignment, or
    /// that of `T` if `T` needs more.
    #[must_use]
    pub fn from_elements<T: Element>(elements: &[T]) -> (storage: Self)
        requires
            crate::tensor::holdable::<T>(elements@.len()),
        ensures
            storage.wf(),
            storage@ == encode_all(elements@),
            storage@.len() == elements@.len() * elem_size::<T>(),
            storage.is_heap(),
            storage.base_alignment() == crate::tensor::tensor_align::<T>(),
            storage.window_offset() == 0,
            view_error::<T>(storage) is None,
            decode_all::<T>(storage@) == elements@,
    {
        proof {
            lemma_decode_all_encoded(elements@);
        }
        Tensor::from_elements(elements).into_storage()
    }
}

/// An address at a multiple of a power of two that is large enough is aligned
/// for `T`.
pub proof fn lemma_aligned_for<T>(address: int, align: int)
    requires
        vstd::arithmetic::power2::is_pow2(align),
        address % align == 0,
    ensures
        elem_align::<T>() > 0,
        elem_align::<T>() <= align ==> address % elem_align::<T>() as int == 0,
{
    broadcast use vstd::layout::align_properties;
    broadcast use vstd::layout::align_nonzero;

    if elem_align::<T>() <= align {
        crate::alignment::lemma_pow2_divides(elem_align::<T>() as int, align);
        crate::alignment::lemma_divides_trans(elem_align::<T>() as int, align, address);
    }
}

/// An immutable, typed view over a [`Storage`]'s bytes.
#[derive(Debug, Copy)]
pub struct View<'a, T: Element> {
    bytes: &'a [u8],
    _elem: PhantomData<T>,
}

impl<'a, T: Element> View<'a, T> {
    /// The elements that the view shows.
    pub closed spec fn elements(&self) -> Seq<T> {
        decode_all::<T>(self.bytes@)
    }

    /// Creates a typed view over `storage`.
    ///
    /// # Errors
    ///
    /// Returns [`ViewError`] if the storage's byte length is not a multiple of
    /// the element size, or if it is not aligned for `T`.
    pub fn new(storage: &'a Storage) -> (view: Result<Self, ViewError>)
        requires
            storage.wf(),
        ensures
            match view {
                Ok(v) => {
                    &&& view_error::<T>(*storage) is None
                    &&& v.elements() == decode_all::<T>(storage@)
                    &&& encode_all(v.elements()) == storage@
                },
                Err(error) => view_error::<T>(*storage) == Some(error),
            },
    {
        match checked_len::<T>(storage) {
            Ok(_) => {
                proof {
                    lemma_encode_all_decoded::<T>(storage@);
                }
                Ok(View { bytes: storage.as_bytes(), _elem: PhantomData })
            },
            Err(error) => Err(error),
        }
    }

    /// The view of a storage that is known to be viewable.
    pub(crate) fn of_storage(storage: &'a Storage) -> (view: Self)
        requires
            view_error::<T>(*storage) is None,
        ensures
            view.elements() == decode_all::<T>(storage@),
    {
        View { bytes: storage.as_bytes(), _elem: PhantomData }
    }

    /// Returns the number of elements.
    #[must_use]
    pub fn len(&self) -> (len: usize)
        ensures
            len == self.elements().len(),
    {
        proof {
            T::lemma_size();
        }
        self.bytes.len() / core::mem::size_of::<T>()
    }

    /// Returns `true` if there are no elements.
    #[must_use]
    pub fn is_empty(&self) -> (empty: bool)
        ensures
            empty == (self.elements().len() == 0),
    {
        self.len() == 0
    }

    /// Returns the element at `index`, or `None` past the end.
    #[must_use]
    pub fn get(&self, index: usize) -> (element: Option<T>)
        ensures
            element == (if index < self.elements().len() {
                Some(self.elements()[index as int])
            } else {
                None
            }),
    {
        get_element(self.bytes, index)
    }

    /// Consumes the view, returning all elements.
    #[must_use]
    pub fn into_slice(self) -> (elements: Vec<T>)
        ensures
            elements@ == self.elements(),
    {
        decode_slice(self.bytes)
    }
}

impl<T: Element> Clone for View<'_, T> {
    fn clone(&self) -> (copy: Self)
        ensures
            copy == *self,
    {
        *self
    }
}

fn get_element<T: Element>(bytes: &[u8], index: usize) -> (element: Option<T>)
    ensures
        element == (if index < decode_all::<T>(bytes@).len() {
            Some(decode_all::<T>(bytes@)[index as int])
        } else {
            None
        }),
{
    proof {
        T::lemma_size();
    }
    let size: usize = core::mem::size_of::<T>();
    if index < bytes.len() / size {
        proof {
            crate::chunks::lemma_chunk_bounds(bytes@.len(), size as nat, index as int);
        }
        let from: usize = index * size;
        Some(T::decode(slice_subrange(bytes, from, from + size)))
    } else {
        None
    }
}

/// A mutable, typed view over a [`Storage`]'s bytes.
///
/// Elements are written through the view into the storage's bytes.
#[derive(Debug)]
pub struct ViewMut<'a, T: Element> {
    /// The viewed bytes, whole elements.
    pub bytes: &'a mut [u8],
    /// The element type.
    pub elem: PhantomData<T>,
}

/// `bytes` with `part` in place of the bytes from `at` on.
pub open spec fn splice(bytes: Seq<u8>, at: int, part: Seq<u8>) -> Seq<u8> {
    bytes.subrange(0, at) + part + bytes.subrange(at + part.len(), bytes.len() as int)
}

proof fn lemma_splice_element<T: Element>(bytes: Seq<u8>, index: int, element: T)
    requires
        bytes.len() % elem_size::<T>() == 0,
        0 <= index < bytes.len() / elem_size::<T>(),
    ensures
        splice(bytes, index * elem_size::<T>(), element.encodes()).len() == bytes.len(),
        decode_all::<T>(splice(bytes, index * elem_size::<T>(), element.encodes()))
            == decode_all::<T>(bytes).update(index, element),
{
    T::lemma_size();
    element.lemma_decode_encoded();
    let size = elem_size::<T>();
    crate::chunks::lemma_chunk_bounds(bytes.len(), size, index);
    let spliced = splice(bytes, index * size, element.encodes());
    assert forall|i: int| 0 <= i < bytes.len() / size implies decode_all::<T>(spliced)[i]
        == decode_all::<T>(bytes).update(index, element)[i] by {
        crate::chunks::lemma_chunk_bounds(bytes.len(), size, i);
        if i == index {
            assert(crate::chunks::chunk(spliced, size, i) =~= element.encodes());
        } else {
            if i < index {
                assert(i * size + size <= index * size) by (nonlinear_arith)
                    requires
                        i < index,
                        size > 0,
                ;
            } else {
                assert(index * size + size <= i * size) by (nonlinear_arith)
                    requires
                        index < i,
                        size > 0,
                ;
            }
            assert(crate::chunks::chunk(spliced, size, i) =~= crate::chunks::chunk(bytes, size, i));
        }
    }
    assert(decode_all::<T>(spliced) =~= decode_all::<T>(bytes).update(index, element));
}

impl<'a, T: Element> ViewMut<'a, T> {
    /// The elements that the view shows.
    pub open spec fn elements(&self) -> Seq<T> {
        decode_all::<T>(self.bytes@)
    }

    /// The viewed bytes form whole elements.
    pub open spec fn wf(&self) -> bool {
        self.bytes@.len() % elem_size::<T>() == 0
    }

    /// Creates a mutable typed view over `storage`.
    ///
    /// # Errors
    ///
    /// Returns [`ViewError`] if the storage's byte length is not a multiple of
    /// the element size, if it is not aligned for `T`, or if it is read-only
    /// ([`ViewError::ReadOnly`], memory-mapped or shared, even when empty).
    pub fn new(storage: &'a mut Storage) -> (view: Result<Self, ViewError>)
        requires
            old(storage).wf(),
        ensures
            !old(storage).is_heap() ==> view is Err,
            match view {
                Ok(v) => {
                    &&& view_error::<T>(*old(storage)) is None
                    &&& v.wf()
                    &&& v.bytes@ == old(storage)@
                    &&& final(v.bytes)@.len() == v.bytes@.len() ==> {
                        &&& final(storage).wf()
                        &&& final(storage)@ == final(v.bytes)@
                        &&& final(storage).is_heap()
                        &&& final(storage).base_alignment() == old(storage).base_alignment()
                        &&& final(storage).window_offset() == old(storage).window_offset()
                        &&& final(storage).address() == old(storage).address()
                    }
                },
                Err(error) => {
                    &&& *final(storage) == *old(storage)
                    &&& match view_error::<T>(*old(storage)) {
                        Some(e) => error == e,
                        None => error == ViewError::ReadOnly,
                    }
                },
            },
    {
        match checked_len::<T>(storage) {
            Ok(_) => {},
            Err(error) => {
                return Err(error);
            },
        }
        // Even a zero-length mutable view requires a writable storage: the
        // read-only gate must not depend on the length.
        match storage.as_bytes_mut() {
            Some(bytes) => Ok(ViewMut { bytes, elem: PhantomData }),
            None => Err(ViewError::ReadOnly),
        }
    }

    /// Returns the number of elements.
    #[must_use]
    pub fn len(&self) -> (len: usize)
        ensures
            len == self.elements().len(),
    {
        proof {
            T::lemma_size();
        }
        self.bytes.len() / core::mem::size_of::<T>()
    }

    /// Returns the element at `index`, or `None` past the end.
    #[must_use]
    pub fn get(&self, index: usize) -> (element: Option<T>)
        ensures
            element == (if index < self.elements().len() {
                Some(self.elements()[index as int])
            } else {
                None
            }),
    {
        get_element(self.bytes, index)
    }

    /// Writes the element at `index`.
    pub fn set(&mut self, index: usize, element: T)
        requires
            old(self).wf(),
            index < old(self).elements().len(),
        ensures
            final(self).wf(),
            final(self).bytes@.len() == old(self).bytes@.len(),
            final(self).elements() == old(self).elements().update(index as int, element),
            final(final(self).bytes)@ == final(old(self).bytes)@,
    {
        let ghost before = self.bytes@;
        let total: usize = self.bytes.len();
        proof {
            T::lemma_size();
            assert(before.len() == total);
            element.lemma_decode_encoded();
            crate::chunks::lemma_chunk_bounds(before.len(), elem_size::<T>(), index as int);
            lemma_splice_element::<T>(before, index as int, element);
        }
        let from: usize = index * core::mem::size_of::<T>();
        let part = element.encode();
        write_bytes(self.bytes, from, part.as_slice());
    }

    /// Consumes the view, returning the viewed bytes for the storage's full
    /// borrow lifetime `'a`.
    #[must_use]
    pub fn into_slice_mut(self) -> (bytes: &'a mut [u8])
        ensures
            bytes@ == old(self.bytes)@,
            final(bytes)@ == final(self.bytes)@,
    {
        self.bytes
    }
}

/// Overwrites the bytes of `out` from `at` on with `part`.
pub fn write_bytes(out: &mut [u8], at: usize, part: &[u8])
    requires
        at + part@.len() <= old(out)@.len(),
    ensures
        final(out)@ == splice(old(out)@, at as int, part@),
{
    let ghost before = out@;
    let total: usize = out.len();
    let mut i: usize = 0;
    assert(splice(before, at as int, part@.subrange(0, 0)) =~= before);
    while i < part.len()
        invariant
            i <= part@.len(),
            before.len() == total,
            at + part@.len() <= before.len(),
            out@ == splice(before, at as int, part@.subrange(0, i as int)),
        decreases part@.len() - i,
    {
        out[at + i] = part[i];
        i = i + 1;
        assert(out@ =~= splice(before, at as int, part@.subrange(0, i as int)));
    }
    assert(part@.subrange(0, i as int) =~= part@);
}

} // verus!
