use datalab::native::{decode_native, encode_native};
use datalab::storage::Storage;
use datalab::view::{decode_slice, encode_slice, Bytes, Element, Text, View, ViewError, ViewMut};
use memmap2::MmapMut;
use std::ops::{Add, Mul, Sub};

/// A double-precision number as an element.
#[derive(Debug, Clone, Copy, PartialEq, Default)]
struct F64(f64);

impl Add for F64 {
    type Output = F64;

    fn add(self, other: F64) -> F64 {
        F64(self.0 + other.0)
    }
}

impl Sub for F64 {
    type Output = F64;

    fn sub(self, other: F64) -> F64 {
        F64(self.0 - other.0)
    }
}

impl Mul for F64 {
    type Output = F64;

    fn mul(self, other: F64) -> F64 {
        F64(self.0 * other.0)
    }
}

impl Element for F64 {
    fn decodes(_: Bytes) -> F64 {
        unreachable!()
    }

    fn encodes(self) -> Bytes {
        unreachable!()
    }

    fn type_label() -> Text {
        unreachable!()
    }

    fn lemma_size() {}

    fn lemma_decode_encoded(self) {}

    fn lemma_encode_decoded(_: Bytes) {}

    fn label() -> &'static str {
        "f64"
    }

    fn decode(bytes: &[u8]) -> F64 {
        let mut raw = [0u8; 8];
        raw.copy_from_slice(bytes);
        F64(f64::from_ne_bytes(raw))
    }

    fn encode(self) -> Vec<u8> {
        self.0.to_ne_bytes().to_vec()
    }
}

fn doubles(values: &[f64]) -> Vec<F64> {
    values.iter().map(|&x| F64(x)).collect()
}

#[test]
fn zeroed_storage_reads_as_zeros() {
    let storage = Storage::zeroed(16);
    let view = View::<F64>::new(&storage).unwrap();
    assert_eq!(view.len(), 2);
    assert_eq!(view.into_slice(), doubles(&[0.0, 0.0]));
}

#[test]
fn write_then_read_roundtrips() {
    let mut storage = Storage::zeroed(16);
    {
        let mut view = ViewMut::<F64>::new(&mut storage).unwrap();
        view.set(0, F64(1.5));
        view.set(1, F64(-2.0));
    }
    let view = View::<F64>::new(&storage).unwrap();
    assert_eq!(view.into_slice(), doubles(&[1.5, -2.0]));
}

#[test]
fn element_count_depends_on_type_size() {
    let storage = Storage::zeroed(12);
    assert_eq!(View::<u8>::new(&storage).unwrap().len(), 12);
    assert_eq!(View::<i32>::new(&storage).unwrap().len(), 3);
}

#[test]
fn slice_api_is_available_through_deref() {
    let mut storage = Storage::zeroed(16);
    {
        let mut view = ViewMut::<i32>::new(&mut storage).unwrap();
        for i in 0..view.len() {
            view.set(i, i as i32);
        }
    }
    let view = View::<i32>::new(&storage).unwrap();
    assert_eq!(view.into_slice().iter().sum::<i32>(), (0..4).sum::<i32>());
    assert_eq!(view.get(2), Some(2));
}

#[test]
fn size_mismatch_is_reported() {
    let storage = Storage::from_bytes(&[0; 5]);
    let err = View::<F64>::new(&storage).unwrap_err();
    assert_eq!(
        err,
        ViewError::SizeMismatch {
            byte_len: 5,
            element_size: 8,
        }
    );
}

#[test]
fn empty_storage_yields_empty_view() {
    let storage = Storage::zeroed(0);
    let view = View::<F64>::new(&storage).unwrap();
    assert!(view.is_empty());
    assert_eq!(view.len(), 0);
}

#[test]
fn from_elements_roundtrips_through_a_view() {
    let storage = Storage::from_elements(&[1i32, -2, 3]);
    assert_eq!(storage.len(), 3 * std::mem::size_of::<i32>());
    let view = View::<i32>::new(&storage).unwrap();
    assert_eq!(view.into_slice(), vec![1, -2, 3]);
}

#[test]
fn from_elements_of_empty_slice_is_empty() {
    let storage = Storage::from_elements::<F64>(&[]);
    assert!(storage.is_empty());
}

#[test]
fn view_is_copyable() {
    let storage = Storage::from_elements(&[1u8, 2]);
    let view = View::<u8>::new(&storage).unwrap();
    let copy = view;
    assert_eq!(view.into_slice(), copy.into_slice());
}

#[test]
fn error_displays_a_message() {
    let err = ViewError::SizeMismatch {
        byte_len: 5,
        element_size: 8,
    };
    assert!(err.to_string().contains("not a multiple"));
    assert!(ViewError::ReadOnly.to_string().contains("read-only"));
}

#[test]
fn mutable_view_over_empty_shared_storage_is_refused() {
    // The read-only gate holds even when there is nothing to mutate.
    let mut storage = Storage::zeroed(0);
    let _shared = storage.clone();
    assert_eq!(
        ViewMut::<F64>::new(&mut storage).unwrap_err(),
        ViewError::ReadOnly
    );
}

#[test]
fn mutable_view_over_a_mapping_is_refused() {
    let bytes = encode_slice(&doubles(&[1.0, 2.0]));
    let mut map = MmapMut::map_anon(bytes.len()).unwrap();
    map.copy_from_slice(&bytes);
    let mut storage = Storage::from_mapping(Some(map.make_read_only().unwrap()));
    assert_eq!(
        ViewMut::<F64>::new(&mut storage).unwrap_err(),
        ViewError::ReadOnly
    );
    // Read views still work fine.
    let view = View::<F64>::new(&storage).unwrap();
    assert_eq!(view.into_slice(), doubles(&[1.0, 2.0]));
}

#[test]
fn misaligned_windows_are_reported() {
    let storage = Storage::zeroed(32);
    let window = storage.slice(1, 8);
    assert_eq!(
        View::<u64>::new(&window).unwrap_err(),
        ViewError::Misaligned {
            required: std::mem::align_of::<u64>(),
        }
    );
    // Nothing to point at: alignment does not matter.
    assert!(View::<u64>::new(&storage.slice(1, 0)).is_ok());
    // Bytes need no alignment.
    assert_eq!(View::<u8>::new(&window).unwrap().len(), 8);
}

#[test]
fn errors_are_described_exactly() {
    let size = ViewError::SizeMismatch {
        byte_len: 5,
        element_size: 8,
    };
    assert_eq!(
        size.to_string(),
        "byte length 5 is not a multiple of element size 8"
    );
    assert_eq!(
        ViewError::Misaligned { required: 16 }.to_string(),
        "storage is not aligned to 16 bytes"
    );
    assert_eq!(
        ViewError::ReadOnly.to_string(),
        "storage is read-only (memory-mapped or shared); promote it with Storage::make_mut"
    );
}

#[test]
fn elements_are_kept_in_native_byte_order() {
    let storage = Storage::from_elements(&[0x0102_0304u32, 0xfffe_fdfc]);
    let mut expected = 0x0102_0304u32.to_ne_bytes().to_vec();
    expected.extend_from_slice(&0xfffe_fdfcu32.to_ne_bytes());
    assert_eq!(storage.as_bytes(), &expected[..]);
    let two = 258u16.to_ne_bytes();
    assert_eq!(encode_native(258, 2), two.to_vec());
    assert_eq!(decode_native(&two), 258);
}

#[test]
fn every_integer_type_round_trips() {
    let signed = [i64::MIN, -1, 0, 1, i64::MAX];
    assert_eq!(decode_slice::<i64>(&encode_slice(&signed)), signed.to_vec());
    let small = [i8::MIN, -1, 0, 1, i8::MAX];
    assert_eq!(decode_slice::<i8>(&encode_slice(&small)), small.to_vec());
    let wide = [0, 1, u128::MAX];
    assert_eq!(decode_slice::<u128>(&encode_slice(&wide)), wide.to_vec());
    let bytes: Vec<u8> = wide.iter().flat_map(|x| x.to_ne_bytes()).collect();
    assert_eq!(encode_slice(&wide), bytes);
    let sizes = [0, usize::MAX];
    assert_eq!(decode_slice::<usize>(&encode_slice(&sizes)), sizes.to_vec());
    let short = [i16::MIN, -2, 300];
    assert_eq!(encode_slice(&short)[2..4], (-2i16).to_ne_bytes());
}

#[test]
fn zero_bytes_are_the_number_zero() {
    let storage = Storage::zeroed(16);
    assert_eq!(View::<i128>::new(&storage).unwrap().into_slice(), vec![0]);
    assert_eq!(View::<u16>::new(&storage).unwrap().into_slice(), vec![0; 8]);
}

#[test]
fn the_same_bytes_read_in_many_ways() {
    let storage = Storage::from_elements(&[1u32, 2, 3, 4]);
    assert_eq!(View::<u32>::new(&storage).unwrap().len(), 4);
    assert_eq!(View::<u64>::new(&storage).unwrap().len(), 2);
    assert_eq!(View::<u128>::new(&storage).unwrap().len(), 1);
}

#[test]
fn reading_past_the_end_gives_nothing() {
    let mut storage = Storage::from_elements(&[7u16, 8]);
    let view = View::<u16>::new(&storage).unwrap();
    assert_eq!(view.get(1), Some(8));
    assert_eq!(view.get(2), None);
    let view = ViewMut::<u16>::new(&mut storage).unwrap();
    assert_eq!(view.get(0), Some(7));
    assert_eq!(view.get(5), None);
}

#[test]
fn mutable_bytes_are_the_viewed_bytes() {
    let mut storage = Storage::from_elements(&[7u8, 8]);
    let bytes = ViewMut::<u8>::new(&mut storage).unwrap().into_slice_mut();
    bytes[1] = 9;
    assert_eq!(storage.as_bytes(), &[7, 9]);
}

#[test]
fn from_elements_is_aligned_for_any_scalar() {
    let storage = Storage::from_elements(&[u128::MAX, 1]);
    assert_eq!(storage.alignment() % std::mem::align_of::<u128>(), 0);
    assert_eq!(storage.alignment(), 64);
    assert_eq!(storage.as_bytes()[..16], [255u8; 16]);
    assert!(View::<u128>::new(&storage).is_ok());
    assert!(View::<u64>::new(&storage).is_ok());
}
