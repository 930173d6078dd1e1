use datalab::storage::{spill_file_name, Storage, STORAGE_ALIGN};
use memmap2::{Mmap, MmapMut};

/// A read-only mapping that shows `bytes`.
fn mapping(bytes: &[u8]) -> Mmap {
    let mut map = MmapMut::map_anon(bytes.len()).unwrap();
    map.copy_from_slice(bytes);
    map.make_read_only().unwrap()
}

#[test]
fn zeroed_allocates_len_zero_bytes() {
    let storage = Storage::zeroed(8);
    assert_eq!(storage.len(), 8);
    assert!(!storage.is_empty());
    assert!(storage.is_writable());
    assert!(storage.as_bytes().iter().all(|&b| b == 0));
}

#[test]
fn from_bytes_preserves_content() {
    let storage = Storage::from_bytes(&[1, 2, 3]);
    assert_eq!(storage.len(), 3);
    assert_eq!(storage.as_bytes(), &[1, 2, 3]);
}

#[test]
fn empty_storage_is_empty() {
    let storage = Storage::zeroed(0);
    assert_eq!(storage.len(), 0);
    assert!(storage.is_empty());
    assert_eq!(storage.as_bytes(), &[] as &[u8]);
}

#[test]
fn as_bytes_mut_allows_in_place_edits() {
    let mut storage = Storage::zeroed(4);
    storage.as_bytes_mut().unwrap()[1] = 42;
    assert_eq!(storage.as_bytes(), &[0, 42, 0, 0]);
}

#[test]
fn default_alignment_is_respected() {
    let storage = Storage::zeroed(128);
    assert_eq!(storage.alignment(), STORAGE_ALIGN);
    assert_eq!(storage.as_bytes().as_ptr() as usize % STORAGE_ALIGN, 0);
}

#[test]
fn requested_alignment_is_respected() {
    let storage = Storage::zeroed_aligned(64, 32);
    assert_eq!(storage.alignment(), 32);
    assert_eq!(storage.as_bytes().as_ptr() as usize % 32, 0);
}

#[test]
fn empty_storage_pointer_honours_the_reported_alignment() {
    let storage = Storage::zeroed_aligned(0, 64);
    assert_eq!(storage.alignment(), 64);
    assert_eq!(storage.as_bytes().as_ptr() as usize % 64, 0);
}

#[test]
fn from_bytes_aligned_respects_alignment() {
    let storage = Storage::from_bytes_aligned(&[7, 8, 9], 4096);
    assert_eq!(storage.as_bytes(), &[7, 8, 9]);
    assert_eq!(storage.alignment(), 4096);
    assert_eq!(storage.as_bytes().as_ptr() as usize % 4096, 0);
}

#[test]
fn make_mut_preserves_the_requested_alignment() {
    let mut storage = Storage::zeroed_aligned(32, 4096);
    let shared = storage.clone();
    storage.make_mut()[0] = 1; // copy-on-write
    assert_eq!(storage.alignment(), 4096);
    assert_eq!(storage.as_bytes().as_ptr() as usize % 4096, 0);
    assert_eq!(shared.as_bytes()[0], 0);
}

#[test]
fn clone_is_zero_copy_and_blocks_writes_while_shared() {
    let mut storage = Storage::from_bytes(&[9, 8, 7]);
    let shared = storage.clone();
    // Same bytes, same underlying allocation.
    assert_eq!(shared, storage);
    assert_eq!(shared.as_bytes().as_ptr(), storage.as_bytes().as_ptr());
    // Shared: neither handle is writable in place.
    assert!(!storage.is_writable());
    assert!(storage.as_bytes_mut().is_none());
    // Dropping the sharer restores writability.
    drop(shared);
    assert!(storage.is_writable());
    storage.as_bytes_mut().unwrap()[0] = 0;
    assert_eq!(storage.as_bytes(), &[0, 8, 7]);
}

#[test]
fn make_mut_on_shared_storage_copies_on_write() {
    let mut storage = Storage::from_bytes(&[1, 2]);
    let shared = storage.clone();
    storage.make_mut()[0] = 9;
    assert_eq!(storage.as_bytes(), &[9, 2]);
    assert_eq!(shared.as_bytes(), &[1, 2]); // the sharer is untouched
    assert!(shared.is_writable()); // and unique again
}

#[test]
fn slice_is_zero_copy() {
    let storage = Storage::from_bytes(&[1, 2, 3, 4, 5]);
    let window = storage.slice(1, 3);
    assert_eq!(window.as_bytes(), &[2, 3, 4]);
    assert_eq!(window.as_bytes().as_ptr(), storage.as_bytes()[1..].as_ptr());
    // A slice of a slice composes offsets.
    let inner = window.slice(2, 1);
    assert_eq!(inner.as_bytes(), &[4]);
    // Empty slice at the end is fine.
    assert!(storage.slice(5, 0).is_empty());
}

#[test]
fn slicing_lowers_the_alignment_guarantee() {
    let storage = Storage::zeroed(64);
    assert_eq!(storage.slice(0, 16).alignment(), STORAGE_ALIGN);
    assert_eq!(storage.slice(8, 16).alignment(), 8);
}

#[test]
fn equality_compares_bytes() {
    assert_eq!(Storage::from_bytes(&[1, 2]), Storage::from_bytes(&[1, 2]));
    assert_ne!(Storage::from_bytes(&[1, 2]), Storage::from_bytes(&[1, 3]));
}

#[test]
fn from_slice_conversion_matches_from_bytes() {
    let storage: Storage = (&[4, 5, 6][..]).into();
    assert_eq!(storage, Storage::from_bytes(&[4, 5, 6]));
}

#[test]
fn as_ref_exposes_bytes() {
    let storage = Storage::from_bytes(&[4, 5]);
    let slice: &[u8] = storage.as_ref();
    assert_eq!(slice, &[4, 5]);
}

#[test]
fn default_is_empty() {
    assert!(Storage::default().is_empty());
}

#[test]
fn storage_align_covers_every_scalar() {
    assert!(STORAGE_ALIGN.is_power_of_two());
    assert!(STORAGE_ALIGN >= 64);
    assert!(STORAGE_ALIGN >= std::mem::align_of::<u64>());
    assert!(STORAGE_ALIGN >= std::mem::align_of::<f64>());
    assert!(STORAGE_ALIGN >= std::mem::align_of::<u128>());
}

#[test]
fn make_mut_on_unique_heap_storage_is_free() {
    let mut storage = Storage::from_bytes(&[5, 6]);
    let before = storage.as_bytes().as_ptr();
    storage.make_mut()[1] = 7;
    assert_eq!(storage.as_bytes(), &[5, 7]);
    assert_eq!(storage.as_bytes().as_ptr(), before); // no reallocation
}

#[test]
fn mapping_reads_as_its_bytes_and_refuses_mutation() {
    let mut storage = Storage::from_mapping(Some(mapping(&[10, 20, 30])));
    assert_eq!(storage.as_bytes(), &[10, 20, 30]);
    assert_eq!(storage.len(), 3);
    assert!(!storage.is_writable());
    assert!(storage.as_bytes_mut().is_none());
    assert!(storage.alignment() >= 4096);
    assert_eq!(storage.as_bytes().as_ptr() as usize % storage.alignment(), 0);
}

#[test]
fn no_mapping_gives_an_empty_heap_storage() {
    let storage = Storage::from_mapping(None);
    assert!(storage.is_empty());
    assert!(storage.is_writable());
}

#[test]
fn make_mut_promotes_a_mapping_to_the_heap() {
    let mut storage = Storage::from_mapping(Some(mapping(&[1, 2, 3])));
    let shared = storage.clone();
    storage.make_mut()[0] = 9;
    assert!(storage.is_writable());
    assert_eq!(storage.alignment(), STORAGE_ALIGN);
    assert_eq!(storage.as_bytes(), &[9, 2, 3]);
    assert_eq!(shared.as_bytes(), &[1, 2, 3]);
}

#[test]
fn adopting_a_mapping_keeps_bytes_readable_but_not_writable() {
    let mut storage = Storage::from_bytes(&[3, 1, 4]);
    let shared = storage.clone();
    assert!(storage.needs_spill());
    storage.adopt_mapping(mapping(&[3, 1, 4]));
    assert_eq!(storage.as_bytes(), &[3, 1, 4]);
    assert!(!storage.is_writable());
    assert!(!storage.needs_spill());
    // The sharer became the only holder of the heap allocation.
    assert!(shared.is_writable());
    assert_eq!(shared.as_bytes(), &[3, 1, 4]);
    storage.make_mut()[0] = 1;
    assert_eq!(storage.as_bytes(), &[1, 1, 4]);
}

#[test]
fn empty_storages_need_no_spill() {
    assert!(!Storage::zeroed(0).needs_spill());
}

#[test]
fn windows_start_where_they_say() {
    let storage = Storage::from_bytes(&[1, 2, 3, 4]);
    assert_eq!(storage.start_address(), storage.as_bytes().as_ptr() as usize);
    assert_eq!(storage.slice(3, 1).start_address(), storage.start_address() + 3);
}

#[test]
fn alignment_divides_the_address_of_every_window() {
    let storage = Storage::zeroed(256);
    for offset in 0..256 {
        let window = storage.slice(offset, 0);
        assert!(window.alignment().is_power_of_two());
        assert_eq!(window.start_address() % window.alignment(), 0);
    }
}

#[test]
fn slices_of_slices_compose() {
    let storage = Storage::from_bytes(&[0, 1, 2, 3, 4, 5, 6, 7]);
    assert_eq!(storage.slice(2, 5).slice(1, 3), storage.slice(3, 3));
}

#[test]
fn writability_follows_the_number_of_holders() {
    let heap = Storage::from_bytes(&[1]);
    assert!(heap.is_writable_with(1));
    assert!(!heap.is_writable_with(2));
    let mapped = Storage::from_mapping(Some(mapping(&[1])));
    assert!(!mapped.is_writable_with(1));
}

#[test]
fn spill_files_are_named_after_process_and_counter() {
    assert_eq!(spill_file_name(4711, 0), "datalab-spill-4711-0");
    assert_eq!(spill_file_name(10, 120), "datalab-spill-10-120");
}
