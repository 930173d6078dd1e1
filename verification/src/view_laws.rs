//! What views show and when they can be made, in terms of bytes, sizes and
//! addresses.

use crate::storage::Storage;
use crate::tensor::{Tensor, TensorFileError};
use crate::view::{Element, ViewError, ViewMut};
use vstd::prelude::*;

verus! {

/// Reading bytes as elements gives as many as there are whole ones, each what
/// the bytes in its place represent.
pub proof fn law_elements_stand_in_place<T: Element>(bytes: Seq<u8>, i: int)
    requires
        0 <= i,
        i * vstd::layout::size_of::<T>() + vstd::layout::size_of::<T>() <= bytes.len(),
    ensures
        i < crate::view::decode_all::<T>(bytes).len(),
        crate::view::decode_all::<T>(bytes)[i] == T::decodes(
            bytes.subrange(
                i * vstd::layout::size_of::<T>(),
                i * vstd::layout::size_of::<T>() + vstd::layout::size_of::<T>(),
            ),
        ),
        crate::view::decode_all::<T>(bytes).len() == bytes.len() / vstd::layout::size_of::<T>(),
{
    T::lemma_size();
    let size = vstd::layout::size_of::<T>();
    assert(i < bytes.len() / size) by (nonlinear_arith)
        requires
            0 <= i,
            size > 0,
            i * size + size <= bytes.len(),
    ;
}

/// The bytes of elements are as many as those of each, and hold the bytes of
/// each in its place.
pub proof fn law_bytes_stand_in_place<T: Element>(elements: Seq<T>, i: int)
    requires
        0 <= i < elements.len(),
    ensures
        crate::view::encode_all(elements).len() == elements.len() * vstd::layout::size_of::<T>(),
        crate::view::encode_all(elements).subrange(
            i * vstd::layout::size_of::<T>(),
            i * vstd::layout::size_of::<T>() + vstd::layout::size_of::<T>(),
        ) == elements[i].encodes(),
{
    T::lemma_size();
    crate::view::lemma_decode_all_encoded(elements);
    let size = vstd::layout::size_of::<T>();
    let bytes = crate::view::encode_all(elements);
    crate::chunks::lemma_whole_chunks(elements.len(), size);
    assert(crate::chunks::chunks(bytes, size)[i] == crate::view::encoded(elements)[i]);
}

/// A view for writing shows the elements that the viewed bytes represent, and
/// is well-formed exactly if these are whole ones.
pub proof fn law_views_show_bytes<T: Element>(view: ViewMut<'_, T>)
    ensures
        view.elements() == crate::view::decode_all::<T>(old(view.bytes)@),
        view.wf() <==> old(view.bytes)@.len() % vstd::layout::size_of::<T>() == 0,
{
}

/// A tensor holds the elements that its bytes represent, and is well-formed
/// exactly if its bytes can be read as such elements.
pub proof fn law_tensors_hold_bytes<T: Element>(tensor: Tensor<T>)
    ensures
        tensor.elements() == crate::view::decode_all::<T>(tensor.bytes()@),
        tensor.wf() <==> tensor.bytes().wf() && tensor.bytes()@.len()
            % vstd::layout::size_of::<T>() == 0 && (tensor.bytes()@.len() == 0
            || tensor.bytes().address() % vstd::layout::align_of::<T>() == 0),
        tensor.fresh() <==> tensor.wf() && tensor.bytes().is_heap()
            && tensor.bytes().base_alignment() == crate::tensor::tensor_align::<T>()
            && tensor.bytes().window_offset() == 0,
{
}

/// No elements have no bytes, and the other way round.
pub proof fn law_no_elements_no_bytes<T: Element>()
    ensures
        crate::view::encode_all(Seq::<T>::empty()) == Seq::<u8>::empty(),
        crate::view::decode_all::<T>(Seq::<u8>::empty()) == Seq::<T>::empty(),
{
    T::lemma_size();
    assert(crate::view::encoded(Seq::<T>::empty()) =~= Seq::<Seq<u8>>::empty());
    assert(crate::view::encode_all(Seq::<T>::empty()) =~= Seq::<u8>::empty());
    vstd::arithmetic::div_mod::lemma_div_basics_1(vstd::layout::size_of::<T>() as int);
    assert(crate::view::decode_all::<T>(Seq::<u8>::empty()) =~= Seq::<T>::empty());
}

/// A storage can be read as elements exactly if its bytes form whole ones and
/// the first, if there is one, lies where such an element may; otherwise the
/// error says what is wrong, the size first.
pub proof fn law_readable<T: Element>(storage: Storage)
    requires
        storage.wf(),
    ensures
        crate::view::view_error::<T>(storage) is None <==> {
            &&& storage@.len() % vstd::layout::size_of::<T>() == 0
            &&& storage@.len() == 0 || storage.address() % vstd::layout::align_of::<T>() == 0
        },
        crate::view::view_error::<T>(storage) matches Some(error) ==> match error {
            ViewError::SizeMismatch { byte_len, element_size } => {
                &&& storage@.len() % vstd::layout::size_of::<T>() != 0
                &&& byte_len == storage@.len()
                &&& vstd::layout::size_of::<T>() <= usize::MAX ==> element_size
                    == vstd::layout::size_of::<T>()
            },
            ViewError::Misaligned { required } => {
                &&& storage@.len() % vstd::layout::size_of::<T>() == 0
                &&& storage@.len() != 0
                &&& storage.address() % vstd::layout::align_of::<T>() != 0
                &&& vstd::layout::align_of::<T>() <= usize::MAX ==> required
                    == vstd::layout::align_of::<T>()
            },
            ViewError::ReadOnly => false,
        },
{
    storage.lemma_wf();
}

/// A file that was opened can be scanned exactly if its bytes can be read as
/// elements of the size and alignment; one that was not opened fails for the
/// reason why.
pub proof fn law_scannable(opened: Result<Storage, String>, size: nat, align: nat)
    requires
        opened matches Ok(storage) ==> storage.wf(),
        0 < size <= usize::MAX,
        0 < align <= usize::MAX,
    ensures
        opened matches Err(reason) ==> crate::lazy::file_error(opened, size, align) == Some(
            TensorFileError::Io(reason),
        ),
        opened matches Ok(storage) ==> {
            &&& crate::lazy::file_error(opened, size, align) is None <==> storage@.len() % size == 0
                && (storage@.len() == 0 || storage.address() % align == 0)
            &&& storage@.len() % size != 0 ==> crate::lazy::file_error(opened, size, align) == Some(
                TensorFileError::View(
                    ViewError::SizeMismatch {
                        byte_len: storage@.len() as usize,
                        element_size: size as usize,
                    },
                ),
            )
            &&& storage@.len() % size == 0 && storage@.len() != 0 && storage.address() % align != 0
                ==> crate::lazy::file_error(opened, size, align) == Some(
                TensorFileError::View(ViewError::Misaligned { required: align as usize }),
            )
        },
{
}

/// Writing into bytes changes those written and no others.
pub proof fn law_splice(bytes: Seq<u8>, at: int, part: Seq<u8>, i: int)
    requires
        0 <= at,
        at + part.len() <= bytes.len(),
        0 <= i < bytes.len(),
    ensures
        crate::view::splice(bytes, at, part).len() == bytes.len(),
        crate::view::splice(bytes, at, part)[i] == if at <= i < at + part.len() {
            part[i - at]
        } else {
            bytes[i]
        },
{
}

} // verus!
