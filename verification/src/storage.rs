//! Raw, contiguous byte storage, the lowest-level building block.
//!
//! A [`Storage`] owns a contiguous region of bytes with a known length and
//! says nothing about how those bytes are interpreted; interpreting them as a
//! typed array is the job of a view layered on top.
//!
//! # Backings
//!
//! Where the bytes live is hidden behind this one API:
//!
//! - **Heap**: an owned, writable allocation in RAM whose first byte is
//!   aligned (see [`STORAGE_ALIGN`]).
//! - **Memory-mapped file**: a read-only window over a file on disk, handed in
//!   with [`Storage::from_mapping`] or [`Storage::adopt_mapping`].
//!
//! # Sharing and copy-on-write
//!
//! The underlying allocation is reference-counted: [`Storage::clone`] and
//! [`Storage::slice`] share the same bytes. In exchange, in-place mutation
//! requires unique ownership of a heap backing: [`Storage::as_bytes_mut`]
//! returns `None` while the bytes are shared or memory-mapped, and
//! [`Storage::make_mut`] performs the explicit copy-on-write promotion.
//!
//! How many handles share an allocation at some moment is no property of any
//! one handle's value, so contracts speak of both outcomes.

use crate::alignment::lowest_set_bit;
use crate::text::push_decimal;
use memmap2::Mmap;
use std::sync::Arc;
use vstd::arithmetic::power2::*;
use vstd::prelude::*;
use vstd::slice::*;
use vstd::std_specs::cmp::PartialEqSpec;
use vstd::string::*;

verus! {

/// Default alignment, in bytes, of a [`Storage`] allocated with
/// [`Storage::zeroed`]: enough for every scalar, for the widest SIMD registers
/// and for a cache line.
pub const STORAGE_ALIGN: usize = 64;

/// `memmap2::Mmap`, a read-only memory mapping.
#[verifier::external_type_specification]
#[verifier::external_body]
pub struct ExMmap(memmap2::Mmap);

/// The bytes that a mapping shows. The mapped file must not change while the
/// mapping exists, so a mapping shows the same bytes each time it is read.
pub uninterp spec fn mapped_bytes(map: memmap2::Mmap) -> Seq<u8>;

/// Calls `<memmap2::Mmap as Deref>::deref`: a mapping reads as the slice of
/// its bytes.
#[verifier::external_body]
fn mapping_as_slice(map: &Mmap) -> (bytes: &[u8])
    ensures
        bytes@ == mapped_bytes(*map),
{
    &map[..]
}

/// Calls `<[u8]>::as_ptr`: a slice starts at an address other than zero and
/// ends within the address space. Nothing else is claimed of the address, the
/// allocator and the machine choose it.
#[verifier::external_body]
fn slice_address(bytes: &[u8]) -> (address: usize)
    ensures
        address != 0,
        address + bytes@.len() <= usize::MAX,
{
    bytes.as_ptr() as usize
}

/// Calls `Arc::strong_count`: the handle that asks is one of those counted.
/// How many others there are is not a function of the handle.
#[verifier::external_body]
fn holders(backing: &Arc<Backing>) -> (count: usize)
    ensures
        count >= 1,
{
    Arc::strong_count(backing)
}

/// Calls `Arc::get_mut`: a mutable reference to the shared value, or `None`
/// (and nothing changes) while other handles share it.
#[verifier::external_body]
fn unique_backing(backing: &mut Arc<Backing>) -> (unique: Option<&mut Backing>)
    ensures
        match unique {
            Some(inner) => *inner == **old(backing) && **final(backing) == *final(inner),
            None => *final(backing) == *old(backing),
        },
{
    Arc::get_mut(backing)
}

/// Calls `Arc::make_mut`: a mutable reference to the value, which is first
/// cloned into an allocation of its own if other handles share it.
#[verifier::external_body]
fn own_backing(backing: &mut Arc<Backing>) -> (own: &mut Backing)
    ensures
        *own == **old(backing) || cloned(**old(backing), *own),
        **final(backing) == *final(own),
{
    Arc::make_mut(backing)
}

/// Returns `true` if an allocation of `len` bytes aligned to `align` stays
/// within the largest size that an allocation can have.
pub open spec fn allocatable(len: nat, align: nat) -> bool {
    len + align - 1 <= isize::MAX
}

/// A run of `len` zero bytes.
pub open spec fn zeros(len: nat) -> Seq<u8> {
    Seq::new(len, |i: int| 0u8)
}

/// The `len` bytes of `bytes` from `offset` on, nothing if they are not all
/// there.
pub open spec fn window(bytes: Seq<u8>, offset: nat, len: nat) -> Seq<u8> {
    if offset + len <= bytes.len() {
        bytes.subrange(offset as int, (offset + len) as int)
    } else {
        Seq::empty()
    }
}

fn slice_window(bytes: &[u8], offset: usize, len: usize) -> (part: &[u8])
    ensures
        part@ == window(bytes@, offset as nat, len as nat),
{
    if offset <= bytes.len() && len <= bytes.len() - offset {
        slice_subrange(bytes, offset, offset + len)
    } else {
        let part = slice_subrange(bytes, 0, 0);
        assert(part@ =~= Seq::<u8>::empty());
        part
    }
}

/// Returns how far behind `base` the next multiple of `align` is.
fn aligned_start(base: usize, align: usize) -> (start: usize)
    requires
        align > 0,
    ensures
        start < align,
        (base + start) % align as int == 0,
{
    let rest: usize = base % align;
    let start: usize = if rest == 0 {
        0
    } else {
        align - rest
    };
    proof {
        vstd::arithmetic::div_mod::lemma_fundamental_div_mod(base as int, align as int);
        if rest != 0 {
            vstd::arithmetic::mul::lemma_mul_is_distributive_add(
                align as int,
                base as int / align as int,
                1,
            );
            vstd::arithmetic::div_mod::lemma_mod_multiples_vanish(
                base as int / align as int + 1,
                0,
                align as int,
            );
            vstd::arithmetic::div_mod::lemma_small_mod(0, align as nat);
        }
    }
    start
}

/// Where a [`Storage`]'s bytes physically live. Shared behind an [`Arc`].
#[derive(Debug)]
enum Backing {
    /// Owned heap allocation, a little larger than needed so that it holds a
    /// run of `len` bytes that starts at a multiple of `align`: the exposed
    /// bytes are `buf[start..start + len]`, where `buf` is at address `base`.
    Heap { buf: Vec<u8>, start: usize, len: usize, align: usize, base: usize },
    /// Read-only memory-mapped file at address `addr`.
    Mapped { map: Mmap, addr: usize },
}

impl Backing {
    pub closed spec fn bytes(self) -> Seq<u8> {
        match self {
            Backing::Heap { buf, start, len, .. } => window(buf@, start as nat, len as nat),
            Backing::Mapped { map, .. } => mapped_bytes(map),
        }
    }

    pub closed spec fn addr(self) -> nat {
        match self {
            Backing::Heap { base, start, .. } => base as nat + start as nat,
            Backing::Mapped { addr, .. } => addr as nat,
        }
    }

    pub closed spec fn heap(self) -> bool {
        self is Heap
    }

    pub closed spec fn alignment(self) -> nat {
        match self {
            Backing::Heap { align, .. } => align as nat,
            Backing::Mapped { addr, .. } => crate::alignment::lowest_bit(addr as nat),
        }
    }

    pub closed spec fn wf(self) -> bool {
        match self {
            Backing::Heap { buf, start, len, align, base } => {
                &&& start + len <= buf@.len()
                &&& buf@.len() <= usize::MAX
                &&& allocatable(len as nat, align as nat)
                &&& is_pow2(align as int)
                &&& base != 0
                &&& (base + start) % align as int == 0
                &&& base + buf@.len() <= usize::MAX
            },
            Backing::Mapped { map, addr } => {
                &&& addr != 0
                &&& addr + mapped_bytes(map).len() <= usize::MAX
            },
        }
    }

    /// Allocates `len` zero bytes, the first of them at a multiple of `align`.
    fn allocate(len: usize, align: usize) -> (backing: Self)
        requires
            align > 0,
            allocatable(len as nat, align as nat),
        ensures
            match backing {
                Backing::Heap { buf, start, len: l, align: a, base } => {
                    &&& l == len
                    &&& a == align
                    &&& start + len <= buf@.len()
                    &&& buf@.len() <= usize::MAX
                    &&& buf@.subrange(start as int, start + len) == zeros(len as nat)
                    &&& base != 0
                    &&& (base + start) % align as int == 0
                    &&& base + buf@.len() <= usize::MAX
                },
                Backing::Mapped { .. } => false,
            },
    {
        let buf = vec![0u8; len + (align - 1)];
        let base: usize = slice_address(buf.as_slice());
        let start: usize = aligned_start(base, align);
        assert(buf@.subrange(start as int, start + len) =~= zeros(len as nat));
        Backing::Heap { buf, start, len, align, base }
    }

    fn exposed(&self) -> (bytes: &[u8])
        ensures
            bytes@ == self.bytes(),
    {
        match self {
            Backing::Heap { buf, start, len, .. } => slice_window(buf.as_slice(), *start, *len),
            Backing::Mapped { map, .. } => mapping_as_slice(map),
        }
    }

    /// The bytes of a window, mutable, or `None` if they are not on the heap.
    fn window_mut(&mut self, offset: usize, len: usize) -> (bytes: Option<&mut [u8]>)
        requires
            old(self).wf(),
            offset + len <= old(self).bytes().len(),
        ensures
            bytes is Some <==> old(self).heap(),
            match bytes {
                Some(b) => {
                    &&& b@ == old(self).bytes().subrange(offset as int, offset + len)
                    &&& final(b)@.len() == b@.len() ==> {
                        &&& final(self).wf()
                        &&& final(self).heap()
                        &&& final(self).bytes().len() == old(self).bytes().len()
                        &&& final(self).bytes().subrange(offset as int, offset + len) == final(b)@
                        &&& final(self).addr() == old(self).addr()
                        &&& final(self).alignment() == old(self).alignment()
                    }
                },
                None => *final(self) == *old(self),
            },
    {
        match self {
            Backing::Heap { buf, start, .. } => {
                let (_, tail) = buf.as_mut_slice().split_at_mut(*start + offset);
                let (window, _) = tail.split_at_mut(len);
                Some(window)
            },
            Backing::Mapped { .. } => None,
        }
    }

    /// The bytes of a window, mutable, of what uniquely owning the allocation
    /// gave: `None` while it is shared, or if it is not on the heap.
    fn window_of<'a>(unique: Option<&'a mut Backing>, offset: usize, len: usize) -> (bytes: Option<
        &'a mut [u8],
    >)
        requires
            unique matches Some(inner) ==> inner.wf() && offset + len <= inner.bytes().len(),
        ensures
            bytes is Some <==> (unique matches Some(inner) && inner.heap()),
            unique matches Some(inner) ==> match bytes {
                Some(b) => {
                    &&& b@ == inner.bytes().subrange(offset as int, offset + len)
                    &&& final(b)@.len() == b@.len() ==> {
                        &&& final(inner).wf()
                        &&& final(inner).heap()
                        &&& final(inner).bytes().len() == inner.bytes().len()
                        &&& final(inner).bytes().subrange(offset as int, offset + len) == final(b)@
                        &&& final(inner).addr() == inner.addr()
                        &&& final(inner).alignment() == inner.alignment()
                    }
                },
                None => *final(inner) == *inner,
            },
    {
        match unique {
            Some(backing) => backing.window_mut(offset, len),
            None => None,
        }
    }

    /// Copies `bytes` into a fresh allocation.
    fn copy_of(bytes: &[u8], align: usize) -> (backing: Self)
        requires
            align > 0,
            allocatable(bytes@.len(), align as nat),
        ensures
            backing.heap(),
            backing.bytes() == bytes@,
            backing.alignment() == align,
            is_pow2(align as int) ==> backing.wf(),
    {
        let mut backing = Backing::allocate(bytes.len(), align);
        match &mut backing {
            Backing::Heap { buf, start, .. } => {
                let start: usize = *start;
                let ghost total = buf@.len();
                let mut i: usize = 0;
                while i < bytes.len()
                    invariant
                        i <= bytes@.len(),
                        start + bytes@.len() <= buf@.len(),
                        buf@.len() == total,
                        total <= usize::MAX,
                        buf@.subrange(start as int, start + i) == bytes@.subrange(0, i as int),
                    decreases bytes@.len() - i,
                {
                    buf[start + i] = bytes[i];
                    i = i + 1;
                    assert(buf@.subrange(start as int, start + i) =~= bytes@.subrange(0, i as int));
                }
                assert(bytes@.subrange(0, i as int) =~= bytes@);
            },
            Backing::Mapped { .. } => {},
        }
        backing
    }
}

impl Clone for Backing {
    /// Copies the exposed bytes into a heap allocation.
    fn clone(&self) -> (copy: Self)
        ensures
            self.wf() && self.heap() ==> {
                &&& copy.wf()
                &&& copy.heap()
                &&& copy.bytes() == self.bytes()
                &&& copy.alignment() == self.alignment()
            },
    {
        proof {
            reveal(is_pow2);
        }
        let bytes = self.exposed();
        let align: usize = match self {
            Backing::Heap { align, .. } => *align,
            Backing::Mapped { .. } => 1,
        };
        if align > 0 && bytes.len() <= isize::MAX as usize && align - 1 <= isize::MAX as usize
            - bytes.len() {
            Backing::copy_of(bytes, align)
        } else {
            Backing::allocate(0, 1)
        }
    }
}

/// Owns (possibly jointly) a contiguous region of raw, untyped bytes.
///
/// `Storage` exposes a window (`offset`/`len`) over a reference-counted
/// allocation. Its view, `storage@`, is the sequence of the window's bytes.
#[derive(Debug)]
pub struct Storage {
    backing: Arc<Backing>,
    offset: usize,
    len: usize,
}

impl vstd::view::View for Storage {
    type V = Seq<u8>;

    closed spec fn view(&self) -> Seq<u8> {
        window(self.backing.bytes(), self.offset as nat, self.len as nat)
    }
}

impl Storage {
    /// The window lies within its backing, and the backing's first byte is
    /// where its alignment says.
    pub closed spec fn wf(&self) -> bool {
        &&& self.backing.wf()
        &&& self.offset + self.len <= self.backing.bytes().len()
    }

    /// The bytes live in an owned heap allocation, not in a mapped file.
    pub closed spec fn is_heap(&self) -> bool {
        self.backing.heap()
    }

    /// The alignment of the backing's first byte: the one that a heap
    /// allocation was made with, the largest power of two that divides the
    /// address of a mapping.
    pub closed spec fn base_alignment(&self) -> nat {
        self.backing.alignment()
    }

    /// Where in the backing the window starts.
    pub closed spec fn window_offset(&self) -> nat {
        self.offset as nat
    }

    /// The address of the window's first byte.
    pub closed spec fn address(&self) -> nat {
        self.backing.addr() + self.offset as nat
    }

    /// The alignment that is guaranteed of the window's first byte.
    pub open spec fn guaranteed_alignment(&self) -> nat {
        if self.window_offset() == 0 {
            self.base_alignment()
        } else if self.base_alignment() <= crate::alignment::lowest_bit(self.window_offset()) {
            self.base_alignment()
        } else {
            crate::alignment::lowest_bit(self.window_offset())
        }
    }

    /// The bytes form whole elements of `size` bytes, and the first of them,
    /// if there is one, lies at a multiple of `align`.
    pub open spec fn viewable(&self, size: nat, align: nat) -> bool {
        &&& self@.len() % size == 0
        &&& self@.len() == 0 || self.address() % align == 0
    }

    /// The alignment that the copy made by [`Storage::make_mut`] gets: that of
    /// a heap backing, the default one for a mapping.
    pub open spec fn copy_alignment(&self) -> nat {
        if self.is_heap() {
            self.base_alignment()
        } else {
            STORAGE_ALIGN as nat
        }
    }

    /// Facts about a well-formed storage.
    pub proof fn lemma_wf(&self)
        requires
            self.wf(),
        ensures
            self@.len() <= usize::MAX,
            self.address() + self@.len() <= usize::MAX,
            self.address() >= self.window_offset(),
            is_pow2(self.base_alignment() as int),
            self.base_alignment() > 0,
            (self.address() - self.window_offset()) % self.base_alignment() as int == 0,
            self.is_heap() ==> allocatable(self@.len(), self.base_alignment()),
    {
        reveal(is_pow2);
        match *self.backing {
            Backing::Heap { .. } => {},
            Backing::Mapped { addr, .. } => {
                crate::alignment::lemma_lowest_bit(addr as nat);
            },
        }
    }

    /// The alignment of a mapping is that of its address.
    pub proof fn lemma_mapping(&self)
        requires
            self.wf(),
            !self.is_heap(),
        ensures
            self.address() > self.window_offset(),
            self.base_alignment() == crate::alignment::lowest_bit(
                (self.address() - self.window_offset()) as nat,
            ),
    {
    }

    /// The guaranteed alignment is a power of two that divides the address of
    /// the window's first byte, at every window of every storage.
    pub proof fn lemma_alignment_divides_address(&self)
        requires
            self.wf(),
        ensures
            is_pow2(self.guaranteed_alignment() as int),
            self.guaranteed_alignment() > 0,
            self.address() as int % self.guaranteed_alignment() as int == 0,
    {
        self.lemma_wf();
        let base = self.base_alignment() as int;
        let offset = self.window_offset();
        let start = self.address() - offset;
        if offset != 0 {
            crate::alignment::lemma_lowest_bit(offset);
            let low = crate::alignment::lowest_bit(offset) as int;
            if base <= low {
                crate::alignment::lemma_pow2_divides(base, low);
                crate::alignment::lemma_divides_trans(base, low, offset as int);
                crate::alignment::lemma_divides_sum(base, start, offset as int);
            } else {
                crate::alignment::lemma_pow2_divides(low, base);
                crate::alignment::lemma_divides_trans(low, base, start);
                crate::alignment::lemma_divides_sum(low, start, offset as int);
            }
        }
    }

    /// Creates a storage of `len` zero-initialized bytes, using the default
    /// alignment [`STORAGE_ALIGN`].
    #[must_use]
    pub fn zeroed(len: usize) -> (storage: Self)
        requires
            allocatable(len as nat, STORAGE_ALIGN as nat),
        ensures
            storage.wf(),
            storage@ == zeros(len as nat),
            storage.is_heap(),
            storage.base_alignment() == STORAGE_ALIGN,
            storage.window_offset() == 0,
    {
        proof {
            lemma_storage_align();
        }
        Self::zeroed_aligned(len, STORAGE_ALIGN)
    }

    /// Creates a storage of `len` zero-initialized bytes with a caller-chosen
    /// `align`, a power of two.
    #[must_use]
    pub fn zeroed_aligned(len: usize, align: usize) -> (storage: Self)
        requires
            is_pow2(align as int),
            allocatable(len as nat, align as nat),
        ensures
            storage.wf(),
            storage@ == zeros(len as nat),
            storage.is_heap(),
            storage.base_alignment() == align,
            storage.window_offset() == 0,
    {
        proof {
            reveal(is_pow2);
        }
        let storage = Storage { backing: Arc::new(Backing::allocate(len, align)), offset: 0, len };
        assert(storage@ =~= zeros(len as nat));
        storage
    }

    /// Creates a storage holding a copy of `bytes`, using the default
    /// alignment.
    #[must_use]
    pub fn from_bytes(bytes: &[u8]) -> (storage: Self)
        requires
            allocatable(bytes@.len(), STORAGE_ALIGN as nat),
        ensures
            storage.wf(),
            storage@ == bytes@,
            storage.is_heap(),
            storage.base_alignment() == STORAGE_ALIGN,
            storage.window_offset() == 0,
    {
        proof {
            lemma_storage_align();
        }
        Self::from_bytes_aligned(bytes, STORAGE_ALIGN)
    }

    /// Creates a storage holding a copy of `bytes` with a caller-chosen
    /// `align`, a power of two.
    #[must_use]
    pub fn from_bytes_aligned(bytes: &[u8], align: usize) -> (storage: Self)
        requires
            is_pow2(align as int),
            allocatable(bytes@.len(), align as nat),
        ensures
            storage.wf(),
            storage@ == bytes@,
            storage.is_heap(),
            storage.base_alignment() == align,
            storage.window_offset() == 0,
    {
        proof {
            reveal(is_pow2);
        }
        let storage = Storage {
            backing: Arc::new(Backing::copy_of(bytes, align)),
            offset: 0,
            len: bytes.len(),
        };
        assert(storage@ =~= bytes@);
        storage
    }

    /// Returns `true` if a file of `len` bytes is to be mapped: a mapping of
    /// length zero is invalid, and an empty heap storage is indistinguishable
    /// from the outside.
    #[must_use]
    pub fn is_mappable(len: u64) -> (mappable: bool)
        ensures
            mappable == (len > 0),
    {
        len != 0
    }

    /// Wraps a read-only memory mapping. No mapping stands for an empty file,
    /// which cannot be mapped: it yields an ordinary empty (heap) storage.
    #[must_use]
    pub fn from_mapping(map: Option<Mmap>) -> (storage: Self)
        ensures
            storage.wf(),
            storage.window_offset() == 0,
            match map {
                Some(m) => storage@ == mapped_bytes(m) && !storage.is_heap(),
                None => {
                    &&& storage@ == Seq::<u8>::empty()
                    &&& storage.is_heap()
                    &&& storage.base_alignment() == STORAGE_ALIGN
                },
            },
    {
        match map {
            Some(map) => {
                let bytes = mapping_as_slice(&map);
                let len: usize = bytes.len();
                let addr: usize = slice_address(bytes);
                let storage = Storage {
                    backing: Arc::new(Backing::Mapped { map, addr }),
                    offset: 0,
                    len,
                };
                assert(storage@ =~= mapped_bytes(map));
                storage
            },
            None => {
                let storage = Self::zeroed(0);
                assert(storage@ =~= Seq::<u8>::empty());
                storage
            },
        }
    }

    /// Returns a zero-copy sub-storage over `offset..offset + len` of this
    /// storage's bytes. While any sharer is alive, neither storage is writable
    /// in place.
    #[must_use]
    pub fn slice(&self, offset: usize, len: usize) -> (part: Self)
        requires
            self.wf(),
            offset + len <= self@.len(),
        ensures
            part.wf(),
            part@ == self@.subrange(offset as int, offset + len),
            part.is_heap() == self.is_heap(),
            part.base_alignment() == self.base_alignment(),
            part.window_offset() == self.window_offset() + offset,
            part.address() == self.address() + offset,
    {
        proof {
            self.lemma_wf();
        }
        let part = Storage { backing: Arc::clone(&self.backing), offset: self.offset + offset, len };
        assert(part@ =~= self@.subrange(offset as int, offset + len));
        part
    }

    /// Returns `true` if moving the bytes to disk would release heap memory:
    /// the storage is heap-backed and not empty.
    #[must_use]
    pub fn needs_spill(&self) -> (needed: bool)
        requires
            self.wf(),
        ensures
            needed == (self.is_heap() && self@.len() > 0),
    {
        match &*self.backing {
            Backing::Heap { .. } => self.len != 0,
            Backing::Mapped { .. } => false,
        }
    }

    /// Replaces the bytes by those of a mapping and lets go of the heap
    /// allocation: the last step of a spill, after the bytes have been written
    /// to the file that `map` shows. Other storages that share the old
    /// allocation are unaffected.
    pub fn adopt_mapping(&mut self, map: Mmap)
        ensures
            final(self).wf(),
            final(self)@ == mapped_bytes(map),
            !final(self).is_heap(),
            final(self).window_offset() == 0,
    {
        *self = Self::from_mapping(Some(map));
    }

    /// Returns `true` if the bytes can be mutated in place: the storage is
    /// heap-backed and not currently shared with any clone or slice.
    ///
    /// Of a heap-backed storage either answer is possible: it rests on how many
    /// handles share the allocation at that moment, see
    /// [`Storage::is_writable_with`].
    #[must_use]
    pub fn is_writable(&self) -> (writable: bool)
        ensures
            writable ==> self.is_heap(),
    {
        self.is_writable_with(holders(&self.backing))
    }

    /// What [`Storage::is_writable`] answers when `holders` handles share the
    /// allocation.
    #[must_use]
    pub fn is_writable_with(&self, holders: usize) -> (writable: bool)
        ensures
            writable == (holders == 1 && self.is_heap()),
    {
        holders == 1 && match &*self.backing {
            Backing::Heap { .. } => true,
            Backing::Mapped { .. } => false,
        }
    }

    /// Returns the number of bytes held by this storage.
    #[must_use]
    pub fn len(&self) -> (len: usize)
        requires
            self.wf(),
        ensures
            len == self@.len(),
    {
        self.len
    }

    /// Returns `true` if the storage holds no bytes.
    #[must_use]
    pub fn is_empty(&self) -> (empty: bool)
        requires
            self.wf(),
        ensures
            empty == (self@.len() == 0),
    {
        self.len == 0
    }

    /// Returns the guaranteed alignment, in bytes, of the first byte of this
    /// storage's window. Slicing at an offset lowers the guarantee to the
    /// alignment of that offset.
    #[must_use]
    pub fn alignment(&self) -> (align: usize)
        requires
            self.wf(),
        ensures
            align == self.guaranteed_alignment(),
    {
        let base: usize = match &*self.backing {
            Backing::Heap { align, .. } => *align,
            Backing::Mapped { addr, .. } => lowest_set_bit(*addr),
        };
        if self.offset == 0 {
            base
        } else {
            let low: usize = lowest_set_bit(self.offset);
            if base <= low {
                base
            } else {
                low
            }
        }
    }

    /// Returns the address of the first byte.
    #[must_use]
    pub fn start_address(&self) -> (address: usize)
        requires
            self.wf(),
        ensures
            address == self.address(),
    {
        proof {
            self.lemma_wf();
        }
        let first: usize = match &*self.backing {
            Backing::Heap { base, start, .. } => *base + *start,
            Backing::Mapped { addr, .. } => *addr,
        };
        first + self.offset
    }

    /// Returns an immutable view of the raw bytes.
    #[must_use]
    pub fn as_bytes(&self) -> (bytes: &[u8])
        ensures
            bytes@ == self@,
    {
        slice_window(self.backing.exposed(), self.offset, self.len)
    }

    /// Returns a mutable view of the raw bytes, or `None` if the storage is
    /// not writable in place (memory-mapped, or shared by a clone or slice).
    ///
    /// What is written through the view is what the storage holds afterwards;
    /// nothing else of it changes. Of a heap-backed storage either outcome is
    /// possible: it rests on whether other handles share the allocation at that
    /// moment.
    #[must_use]
    pub fn as_bytes_mut(&mut self) -> (bytes: Option<&mut [u8]>)
        requires
            old(self).wf(),
        ensures
            !old(self).is_heap() ==> bytes is None,
            match bytes {
                Some(b) => {
                    &&& b@ == old(self)@
                    &&& final(b)@.len() == b@.len() ==> {
                        &&& final(self).wf()
                        &&& final(self)@ == final(b)@
                        &&& final(self).is_heap()
                        &&& final(self).base_alignment() == old(self).base_alignment()
                        &&& final(self).window_offset() == old(self).window_offset()
                        &&& final(self).address() == old(self).address()
                    }
                },
                None => *final(self) == *old(self),
            },
    {
        let offset: usize = self.offset;
        let len: usize = self.len;
        Backing::window_of(unique_backing(&mut self.backing), offset, len)
    }

    /// The first step of [`Storage::make_mut`] when `holders` handles share the
    /// allocation: a heap storage of the only holder stays as it is, any other
    /// storage becomes a copy of its bytes.
    fn own_bytes(&mut self, holders: usize)
        requires
            old(self).wf(),
            allocatable(old(self)@.len(), old(self).copy_alignment()),
        ensures
            final(self).wf(),
            final(self)@ == old(self)@,
            final(self).is_heap(),
            final(self).base_alignment() == old(self).copy_alignment(),
            holders == 1 && old(self).is_heap() ==> {
                &&& *final(self) == *old(self)
                &&& final(self).address() == old(self).address()
            },
            !(holders == 1 && old(self).is_heap()) ==> final(self).window_offset() == 0,
    {
        if !self.is_writable_with(holders) {
            let align: usize = match &*self.backing {
                Backing::Heap { align, .. } => *align,
                Backing::Mapped { .. } => STORAGE_ALIGN,
            };
            proof {
                lemma_storage_align();
            }
            *self = Self::from_bytes_aligned(self.as_bytes(), align);
        }
    }

    /// Ensures the storage is uniquely writable, then returns its mutable
    /// bytes.
    ///
    /// If the storage is memory-mapped or shared, its window is first copied
    /// into a fresh heap allocation with the alignment of the old one (the
    /// default alignment for a mapping); other sharers keep the original
    /// bytes.
    pub fn make_mut(&mut self) -> (bytes: &mut [u8])
        requires
            old(self).wf(),
            allocatable(old(self)@.len(), old(self).copy_alignment()),
        ensures
            bytes@ == old(self)@,
            final(bytes)@.len() == bytes@.len() ==> {
                &&& final(self).wf()
                &&& final(self)@ == final(bytes)@
                &&& final(self).is_heap()
                &&& final(self).base_alignment() == old(self).copy_alignment()
                &&& final(self).window_offset() == 0 || (old(self).is_heap()
                    && final(self).window_offset() == old(self).window_offset())
            },
    {
        let count: usize = holders(&self.backing);
        self.own_bytes(count);
        let offset: usize = self.offset;
        let len: usize = self.len;
        match own_backing(&mut self.backing).window_mut(offset, len) {
            Some(bytes) => bytes,
            None => &mut [],
        }
    }
}

pub proof fn lemma_storage_align()
    ensures
        is_pow2(STORAGE_ALIGN as int),
{
    reveal(is_pow2);
    reveal_with_fuel(is_pow2, 8);
}

/// Returns the name of the file that the `id`-th spill of process `process`
/// goes to.
#[must_use]
pub fn spill_file_name(process: u32, id: u64) -> (name: String)
    ensures
        name@ == "datalab-spill-"@ + crate::text::decimal(process as nat) + "-"@
            + crate::text::decimal(id as nat),
{
    let mut name = String::new();
    name.append("datalab-spill-");
    push_decimal(&mut name, process as u64);
    name.append("-");
    push_decimal(&mut name, id);
    assert(name@ =~= "datalab-spill-"@ + crate::text::decimal(process as nat) + "-"@
        + crate::text::decimal(id as nat));
    name
}

impl Clone for Storage {
    /// Zero-copy: the clone shares the same bytes. While both are alive,
    /// neither is writable in place.
    fn clone(&self) -> (copy: Self)
        ensures
            copy == *self,
    {
        Storage { backing: Arc::clone(&self.backing), offset: self.offset, len: self.len }
    }
}

/// Returns `true` if the two slices hold the same bytes.
fn same_bytes(a: &[u8], b: &[u8]) -> (same: bool)
    ensures
        same == (a@ == b@),
{
    if a.len() != b.len() {
        return false;
    }
    let mut i: usize = 0;
    while i < a.len()
        invariant
            i <= a@.len(),
            a@.len() == b@.len(),
            forall|j: int| 0 <= j < i ==> a@[j] == b@[j],
        decreases a@.len() - i,
    {
        if a[i] != b[i] {
            return false;
        }
        i = i + 1;
    }
    assert(a@ =~= b@);
    true
}

impl PartialEq for Storage {
    /// Two storages are equal when they hold the same bytes; backing, sharing
    /// and alignment are not compared.
    fn eq(&self, other: &Self) -> (same: bool) {
        same_bytes(self.as_bytes(), other.as_bytes())
    }
}

impl vstd::std_specs::cmp::PartialEqSpecImpl for Storage {
    open spec fn obeys_eq_spec() -> bool {
        true
    }

    open spec fn eq_spec(&self, other: &Self) -> bool {
        self@ == other@
    }
}

/// Storages compare equal exactly if they hold the same bytes.
pub proof fn law_equality_of_storages(a: Storage, b: Storage)
    ensures
        <Storage as PartialEqSpec>::obeys_eq_spec(),
        PartialEqSpec::eq_spec(&a, &b) <==> a@ == b@,
{
}

impl Eq for Storage {

}

impl Default for Storage {
    /// An empty storage.
    fn default() -> (storage: Self)
        ensures
            storage.wf(),
            storage@ == Seq::<u8>::empty(),
            storage.is_heap(),
            storage.base_alignment() == STORAGE_ALIGN,
            storage.window_offset() == 0,
    {
        let storage = Self::zeroed(0);
        assert(storage@ =~= Seq::<u8>::empty());
        storage
    }
}

impl AsRef<[u8]> for Storage {
    fn as_ref(&self) -> (bytes: &[u8])
        ensures
            bytes@ == self@,
    {
        self.as_bytes()
    }
}

impl From<&[u8]> for Storage {
    /// Copies the bytes, like [`Storage::from_bytes`]. (No slice is so long
    /// that its copy could not be allocated; one that were would give an empty
    /// storage.)
    fn from(bytes: &[u8]) -> (storage: Self)
        ensures
            storage.wf(),
            storage.is_heap(),
            storage.base_alignment() == STORAGE_ALIGN,
            storage.window_offset() == 0,
            allocatable(bytes@.len(), STORAGE_ALIGN as nat) ==> storage@ == bytes@,
            !allocatable(bytes@.len(), STORAGE_ALIGN as nat) ==> storage@ == Seq::<u8>::empty(),
    {
        if bytes.len() <= isize::MAX as usize - (STORAGE_ALIGN - 1) {
            Self::from_bytes(bytes)
        } else {
            Self::default()
        }
    }
}

impl vstd::std_specs::convert::FromSpecImpl<&[u8]> for Storage {
    open spec fn obeys_from_spec() -> bool {
        false
    }

    open spec fn from_spec(bytes: &[u8]) -> Self {
        arbitrary()
    }
}

} // verus!
