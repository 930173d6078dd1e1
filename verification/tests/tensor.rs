use datalab::storage::Storage;
use datalab::summand::Summand;
use datalab::tensor::{can_hold, Tensor, TensorFileError};
use datalab::view::{Bytes, Element, Text, ViewError};
use memmap2::{Mmap, MmapMut};
use std::ops::{Add, Mul, Sub};

/// A double-precision number as an element.
#[derive(Debug, Clone, Copy, PartialEq, Default)]
struct F64(f64);

impl Add for F64 {
    type Output = F64;

    fn add(self, other: F64) -> F64 {
        F64(self.0 + other.0)
    }
}

impl Sub for F64 {
    type Output = F64;

    fn sub(self, other: F64) -> F64 {
        F64(self.0 - other.0)
    }
}

impl Mul for F64 {
    type Output = F64;

    fn mul(self, other: F64) -> F64 {
        F64(self.0 * other.0)
    }
}

impl Summand for F64 {
    fn nil() -> F64 {
        unreachable!()
    }

    fn joined(self, _: F64) -> F64 {
        unreachable!()
    }

    fn exact() -> bool {
        false
    }

    fn lemma_nil(_: F64) {}

    fn lemma_joined(self, _: F64) {}

    fn lemma_exact(self, _: F64, _: F64) {}

    fn plus(self, other: F64) -> F64 {
        self + other
    }
}

impl Element for F64 {
    fn decodes(_: Bytes) -> F64 {
        unreachable!()
    }

    fn encodes(self) -> Bytes {
        unreachable!()
    }

    fn type_label() -> Text {
        unreachable!()
    }

    fn lemma_size() {}

    fn lemma_decode_encoded(self) {}

    fn lemma_encode_decoded(_: Bytes) {}

    fn label() -> &'static str {
        "f64"
    }

    fn decode(bytes: &[u8]) -> F64 {
        let mut raw = [0u8; 8];
        raw.copy_from_slice(bytes);
        F64(f64::from_ne_bytes(raw))
    }

    fn encode(self) -> Vec<u8> {
        self.0.to_ne_bytes().to_vec()
    }
}

fn doubles(values: &[f64]) -> Vec<F64> {
    values.iter().map(|&x| F64(x)).collect()
}

/// A read-only mapping that shows `bytes`.
fn mapping(bytes: &[u8]) -> Mmap {
    let mut map = MmapMut::map_anon(bytes.len()).unwrap();
    map.copy_from_slice(bytes);
    map.make_read_only().unwrap()
}

#[test]
fn zeros_is_all_zero() {
    let tensor = Tensor::<F64>::zeros(4);
    assert_eq!(tensor.len(), 4);
    assert_eq!(tensor.as_slice(), doubles(&[0.0; 4]));
}

#[test]
fn from_elements_roundtrips() {
    let tensor = Tensor::from_elements(&[1i32, -2, 3]);
    assert_eq!(tensor.len(), 3);
    assert_eq!(tensor.as_slice(), vec![1, -2, 3]);
}

#[test]
fn from_fn_fills_by_index() {
    let tensor = Tensor::from_fn(5, |i| i as u64 * 10);
    assert_eq!(tensor.as_slice(), vec![0, 10, 20, 30, 40]);
}

#[test]
fn from_iterator_collects() {
    let tensor: Tensor<i32> = Tensor::from_vec((1..=3).collect());
    assert_eq!(tensor.as_slice(), vec![1, 2, 3]);
}

#[test]
fn values_are_mutable_in_place() {
    let mut tensor = Tensor::<F64>::zeros(3);
    tensor.view_mut().unwrap().set(1, F64(2.5));
    tensor.as_mut_slice().unwrap()[16..].copy_from_slice(&(-1.0f64).to_ne_bytes());
    assert_eq!(tensor.as_slice(), doubles(&[0.0, 2.5, -1.0]));
}

#[test]
fn clone_is_zero_copy_with_copy_on_write() {
    let original = Tensor::from_elements(&[1u8, 2]);
    let mut copy = original.clone();
    // Shared: same bytes, no in-place mutation.
    assert_eq!(
        copy.storage().as_bytes().as_ptr(),
        original.storage().as_bytes().as_ptr()
    );
    assert!(!copy.is_writable());
    // Explicit copy-on-write diverges the clone, sharers keep theirs.
    copy.make_mut().set(0, 9);
    assert_eq!(original.as_slice(), vec![1, 2]);
    assert_eq!(copy.as_slice(), vec![9, 2]);
    assert!(original.is_writable()); // unique again
}

#[test]
fn mutating_a_shared_tensor_is_refused() {
    let mut tensor = Tensor::from_elements(&[1u8, 2]);
    let _shared = tensor.clone();
    assert_eq!(tensor.as_mut_slice().unwrap_err(), ViewError::ReadOnly);
    assert_eq!(tensor.view_mut().unwrap_err(), ViewError::ReadOnly);
    assert_eq!(tensor.as_slice(), vec![1, 2]);
}

#[test]
fn equality_uses_element_semantics() {
    assert_eq!(
        Tensor::from_elements(&[1i32, 2]),
        Tensor::from_elements(&[1i32, 2])
    );
    assert_ne!(
        Tensor::from_elements(&[1i32, 2]),
        Tensor::from_elements(&[1i32, 3])
    );
    // NaN != NaN, like slices of floats.
    let nan = Tensor::from_elements(&[F64(f64::NAN)]);
    assert_ne!(nan, nan.clone());
}

#[test]
fn tensors_of_different_lengths_are_unequal() {
    assert_ne!(
        Tensor::from_elements(&[1i32, 2]),
        Tensor::from_elements(&[1i32])
    );
}

#[test]
fn empty_tensor() {
    let tensor = Tensor::<F64>::default();
    assert!(tensor.is_empty());
    assert_eq!(tensor.len(), 0);
    assert_eq!(tensor.as_slice(), doubles(&[]));
}

#[test]
fn storage_length_is_len_times_element_size() {
    let tensor = Tensor::<F64>::zeros(3);
    assert_eq!(tensor.storage().len(), 3 * std::mem::size_of::<f64>());
    assert_eq!(tensor.into_storage().len(), 24);
}

#[test]
fn from_slice_conversion() {
    let tensor: Tensor<u16> = (&[7u16, 8][..]).into();
    assert_eq!(tensor.as_slice(), vec![7, 8]);
}

#[test]
fn elementwise_operators() {
    let a = Tensor::from_elements(&doubles(&[1.0, 2.0, 3.0]));
    let b = Tensor::from_elements(&doubles(&[10.0, 20.0, 30.0]));
    assert_eq!((&a + &b).as_slice(), doubles(&[11.0, 22.0, 33.0]));
    assert_eq!((&b - &a).as_slice(), doubles(&[9.0, 18.0, 27.0]));
    assert_eq!((&a * &b).as_slice(), doubles(&[10.0, 40.0, 90.0]));
    assert_eq!((&a * F64(2.0)).as_slice(), doubles(&[2.0, 4.0, 6.0]));
}

#[test]
fn sum_and_map() {
    let tensor = Tensor::from_elements(&[1i64, -2, 3]);
    assert_eq!(tensor.sum(), 2);
    let doubled = tensor.map(|x| x * 2);
    assert_eq!(doubled.as_slice(), vec![2, -4, 6]);
    let as_f64: Tensor<F64> = tensor.map(|x| F64(x as f64));
    assert_eq!(as_f64.as_slice(), doubles(&[1.0, -2.0, 3.0]));
}

#[test]
fn item_is_the_only_element() {
    assert_eq!(Tensor::from_elements(&[42i32]).item(), 42);
}

#[test]
fn views_show_the_elements() {
    let tensor = Tensor::from_elements(&[1i64, 2]);
    assert_eq!(tensor.view().len(), 2);
    assert_eq!(tensor.view().get(1), Some(2));
}

#[test]
fn tensor_file_error_displays() {
    let err = TensorFileError::View(ViewError::ReadOnly);
    assert!(err.to_string().contains("tensor"));
    assert!(err.source().is_some());
}

#[test]
fn file_errors_are_described_exactly() {
    let io = TensorFileError::Io(String::from("no such file"));
    assert_eq!(io.to_string(), "cannot map file: no such file");
    assert_eq!(io.source(), Some(String::from("no such file")));
    let view = TensorFileError::from(ViewError::Misaligned { required: 8 });
    assert_eq!(
        view.to_string(),
        "file bytes do not form a tensor: storage is not aligned to 8 bytes"
    );
    assert_eq!(
        view.source(),
        Some(String::from("storage is not aligned to 8 bytes"))
    );
}

#[test]
fn opened_files_become_read_only_tensors() {
    let source = Tensor::from_elements(&doubles(&[1.5, -2.0, 4.5]));
    let storage = Storage::from_mapping(Some(mapping(source.storage().as_bytes())));
    let mut mapped = Tensor::<F64>::from_opened_file(Ok(storage)).unwrap();
    assert_eq!(mapped.as_slice(), doubles(&[1.5, -2.0, 4.5]));
    assert_eq!(mapped.sum(), F64(4.0));
    assert!(!mapped.is_writable());
    mapped.make_mut().set(0, F64(0.5));
    assert!(mapped.is_writable());
    assert_eq!(mapped.as_slice(), doubles(&[0.5, -2.0, 4.5]));
}

#[test]
fn opened_files_are_validated() {
    let partial = Storage::from_mapping(Some(mapping(&[0; 5])));
    let err = Tensor::<F64>::from_opened_file(Ok(partial)).unwrap_err();
    assert!(matches!(
        err,
        TensorFileError::View(ViewError::SizeMismatch {
            byte_len: 5,
            element_size: 8
        })
    ));
    let missing = Tensor::<F64>::from_opened_file(Err(String::from("missing")));
    assert!(matches!(missing, Err(TensorFileError::Io(reason)) if reason == "missing"));
}

#[test]
fn spilled_tensors_stay_readable() {
    let mut tensor = Tensor::from_elements(&[1u32, 2, 3]);
    assert!(tensor.needs_spill());
    let map = mapping(tensor.storage().as_bytes());
    assert_eq!(tensor.adopt_mapping(map), Ok(()));
    assert!(!tensor.needs_spill());
    assert!(!tensor.is_writable());
    assert_eq!(tensor.as_slice(), vec![1, 2, 3]);
    assert_eq!(tensor.sum(), 6);
    tensor.make_mut().set(0, 9);
    assert!(tensor.is_writable());
    assert_eq!(tensor.as_slice(), vec![9, 2, 3]);
}

#[test]
fn mappings_of_partial_elements_are_not_adopted() {
    let mut tensor = Tensor::from_elements(&[1u32, 2]);
    assert!(tensor.adopt_mapping(mapping(&[1, 2, 3])).is_err());
    assert_eq!(tensor.as_slice(), vec![1, 2]);
}

#[test]
fn only_tensors_within_the_address_space_can_be_held() {
    assert!(can_hold::<u64>(1_000_000));
    assert!(!can_hold::<u64>(usize::MAX));
    assert!(!can_hold::<u8>(isize::MAX as usize));
}

#[test]
fn tensor_writability_follows_the_number_of_holders() {
    let mut tensor = Tensor::from_elements(&[1u32, 2]);
    assert!(tensor.is_writable_with(1));
    assert!(!tensor.is_writable_with(2));
    let map = mapping(tensor.storage().as_bytes());
    tensor.adopt_mapping(map).unwrap();
    assert!(!tensor.is_writable_with(1));
}
