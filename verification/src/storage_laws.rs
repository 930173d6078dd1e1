//! What storages promise of sizes and alignments.

use crate::storage::Storage;
use vstd::arithmetic::div_mod::*;
use vstd::arithmetic::power2::*;
use vstd::prelude::*;

verus! {

/// Every byte of a zeroed storage is zero.
pub proof fn law_zeros(len: nat)
    ensures
        crate::storage::zeros(len).len() == len,
        forall|i: int| 0 <= i < len ==> #[trigger] crate::storage::zeros(len)[i] == 0,
{
}

/// An allocation is within bounds exactly if its bytes, and what aligning them
/// may cost, do not exceed the largest size of an object.
pub proof fn law_allocatable(len: nat, align: nat)
    requires
        align > 0,
    ensures
        crate::storage::allocatable(len, align) <==> len + (align - 1) <= isize::MAX,
{
}

/// The lowest bit of a number is the largest power of two that divides it.
proof fn lemma_lowest_bit_is_largest(n: nat, p: int)
    requires
        n > 0,
        p > 0,
        is_pow2(p),
    ensures
        p <= crate::alignment::lowest_bit(n) <==> n as int % p == 0,
{
    crate::alignment::lemma_lowest_bit(n);
    let low = crate::alignment::lowest_bit(n) as int;
    if p <= low {
        crate::alignment::lemma_pow2_divides(p, low);
        crate::alignment::lemma_divides_trans(p, low, n as int);
    }
}

/// The guaranteed alignment of a window is the largest power of two that
/// divides both the alignment of the backing and the window's offset in it.
pub proof fn law_alignment_of_windows(storage: Storage, p: int)
    requires
        storage.wf(),
        p > 0,
        is_pow2(p),
    ensures
        p <= storage.guaranteed_alignment() <==> p <= storage.base_alignment()
            && storage.window_offset() as int % p == 0,
{
    storage.lemma_wf();
    let offset = storage.window_offset();
    if offset == 0 {
        lemma_small_mod(0, p as nat);
    } else {
        lemma_lowest_bit_is_largest(offset, p);
    }
}

/// The alignment of a mapping is the largest power of two that divides its
/// address.
pub proof fn law_alignment_of_mappings(storage: Storage, p: int)
    requires
        storage.wf(),
        !storage.is_heap(),
        p > 0,
        is_pow2(p),
    ensures
        p <= storage.base_alignment() <==> (storage.address() - storage.window_offset()) % p == 0,
{
    storage.lemma_mapping();
    lemma_lowest_bit_is_largest((storage.address() - storage.window_offset()) as nat, p);
}

/// A copy for writing keeps the alignment of a heap storage, and gets the
/// default one if it was a mapping.
pub proof fn law_alignment_of_copies(storage: Storage)
    ensures
        storage.is_heap() ==> storage.copy_alignment() == storage.base_alignment(),
        !storage.is_heap() ==> storage.copy_alignment() == crate::storage::STORAGE_ALIGN,
{
}

} // verus!
