use datalab::lazy::{self, generate, is_same_file, scan_file, EngineError, FileId, LazyTensor};
use datalab::storage::Storage;
use datalab::summand::Summand;
use datalab::tensor::{Tensor, TensorFileError};
use datalab::view::{Bytes, Element, Text, ViewError};
use memmap2::{Mmap, MmapMut};
use std::ops::{Add, Mul, Sub};

/// A double-precision number as an element.
#[derive(Debug, Clone, Copy, PartialEq, Default)]
struct F64(f64);

impl Add for F64 {
    type Output = F64;

    fn add(self, other: F64) -> F64 {
        F64(self.0 + other.0)
    }
}

impl Sub for F64 {
    type Output = F64;

    fn sub(self, other: F64) -> F64 {
        F64(self.0 - other.0)
    }
}

impl Mul for F64 {
    type Output = F64;

    fn mul(self, other: F64) -> F64 {
        F64(self.0 * other.0)
    }
}

impl Summand for F64 {
    fn nil() -> F64 {
        unreachable!()
    }

    fn joined(self, _: F64) -> F64 {
        unreachable!()
    }

    fn exact() -> bool {
        false
    }

    fn lemma_nil(_: F64) {}

    fn lemma_joined(self, _: F64) {}

    fn lemma_exact(self, _: F64, _: F64) {}

    fn plus(self, other: F64) -> F64 {
        self + other
    }
}

impl Element for F64 {
    fn decodes(_: Bytes) -> F64 {
        unreachable!()
    }

    fn encodes(self) -> Bytes {
        unreachable!()
    }

    fn type_label() -> Text {
        unreachable!()
    }

    fn lemma_size() {}

    fn lemma_decode_encoded(self) {}

    fn lemma_encode_decoded(_: Bytes) {}

    fn label() -> &'static str {
        "f64"
    }

    fn decode(bytes: &[u8]) -> F64 {
        let mut raw = [0u8; 8];
        raw.copy_from_slice(bytes);
        F64(f64::from_ne_bytes(raw))
    }

    fn encode(self) -> Vec<u8> {
        self.0.to_ne_bytes().to_vec()
    }
}

impl LazyHelp for usize {
    fn f(self) -> F64 {
        F64(self as f64)
    }
}

/// Writes an index as a double-precision number.
trait LazyHelp {
    fn f(self) -> F64;
}

/// A read-only mapping that shows `bytes`.
fn mapping(bytes: &[u8]) -> Mmap {
    let mut map = MmapMut::map_anon(bytes.len()).unwrap();
    map.copy_from_slice(bytes);
    map.make_read_only().unwrap()
}

#[test]
fn generate_collect_matches_eager() {
    let lazy = generate(1000, |i| i.f()).collect().unwrap();
    let eager = Tensor::from_fn(1000, |i| i.f());
    assert_eq!(lazy, eager);
}

#[test]
fn many_small_batches_preserve_order_and_values() {
    // 8-byte batches: one element per batch, 100 batches.
    let out = generate(100, |i| i.f())
        .with_batch_bytes(8)
        .map(|x: F64| x + F64(1.0))
        .collect()
        .unwrap();
    assert_eq!(out, Tensor::from_fn(100, |i| (i + 1).f()));
}

#[test]
fn map_changes_element_type() {
    let out = generate(4, |i| i.f())
        .map(|x: F64| (x.0 * 10.0) as i64)
        .collect()
        .unwrap();
    assert_eq!(out.as_slice(), vec![0, 10, 20, 30]);
}

#[test]
fn sum_stays_lazy_then_streams_and_matches_eager() {
    let plan = generate(10_000, |i| (i % 7).f()).with_batch_bytes(256).sum(); // nothing has executed yet
    assert!(plan.explain().contains("sum"));
    let lazy_sum = plan.collect().unwrap().item();
    let eager_sum = Tensor::from_fn(10_000, |i| (i % 7).f()).sum();
    assert_eq!(lazy_sum, eager_sum);
}

#[test]
fn with_batch_bytes_after_sum_configures_the_whole_plan() {
    let total = generate(100, |i| i as u64)
        .sum()
        .with_batch_bytes(8) // one number per batch
        .collect()
        .unwrap()
        .item();
    assert_eq!(total, 4950);
}

#[test]
fn sum_is_chainable_like_any_plan() {
    let result = generate(10, |i| i.f())
        .sum()
        .map(|total: F64| F64(total.0 / 10.0))
        .collect()
        .unwrap();
    assert_eq!(result.item(), F64(4.5));
}

#[test]
fn tensor_lazy_roundtrip() {
    let out = Tensor::from_elements(&[1i32, 2, 3])
        .lazy()
        .map(|x: i32| x * x)
        .collect()
        .unwrap();
    assert_eq!(out.as_slice(), vec![1, 4, 9]);
}

#[test]
fn empty_source_yields_empty_results() {
    assert!(generate(0, |i| i.f()).collect().unwrap().is_empty());
    assert_eq!(
        generate(0, |i| i.f()).sum().collect().unwrap().item(),
        F64(0.0)
    );
}

#[test]
fn explain_lists_source_and_ops() {
    let plan = generate(10, |i| i.f())
        .map(|x: F64| x * F64(2.0))
        .map(|x: F64| x + F64(1.0));
    let text = plan.explain();
    assert!(text.contains("generate(len=10)"));
    assert_eq!(text.matches("map").count(), 2);
}

#[test]
fn explain_renders_binary_plans_as_a_tree() {
    let a = generate(4, |i| i.f());
    let b = generate(4, |i| i.f()).map(|x: F64| x * F64(2.0));
    let text = (a + b).sum().explain();
    assert!(text.contains("sum"));
    assert!(text.contains("add"));
    assert!(text.contains("├─"), "binary nodes branch: {text}");
    assert!(text.contains("└─"), "last children close the branch: {text}");
    assert_eq!(text.matches("generate(len=4)").count(), 2);
}

#[test]
fn lazy_binary_ops_match_eager() {
    let ea = Tensor::from_fn(1000, |i| (i % 13).f());
    let eb = Tensor::from_fn(1000, |i| (i % 7).f());
    // 64-byte batches (8 numbers) exercise the re-chunking path.
    let lazy = |t: &Tensor<F64>| t.clone().lazy().with_batch_bytes(64);
    assert_eq!((lazy(&ea) + lazy(&eb)).collect().unwrap(), &ea + &eb);
    assert_eq!((lazy(&ea) - lazy(&eb)).collect().unwrap(), &ea - &eb);
    assert_eq!((lazy(&ea) * lazy(&eb)).collect().unwrap(), &ea * &eb);
}

#[test]
fn zip_with_rechunks_streams_of_different_batch_granularity() {
    // With 64-byte batches, doubles come 8 at a time but bytes 64 at a time:
    // the zip must re-chunk to the overlap.
    let a = generate(100, |i| i.f()).with_batch_bytes(64);
    let b = generate(100, |i| i as u8).with_batch_bytes(64);
    let out = a
        .zip_with(b, |x: F64, y: u8| F64(x.0 + f64::from(y)))
        .collect()
        .unwrap();
    assert_eq!(out, Tensor::from_fn(100, |i| F64(2.0 * i as f64)));
}

#[test]
fn binary_op_on_plans_of_different_lengths_errors() {
    let short_left = (generate(5, |i| i.f()) + generate(7, |i| i.f())).collect();
    assert!(matches!(short_left, Err(EngineError::LengthMismatch)));
    let short_right = (generate(7, |i| i.f()) + generate(5, |i| i.f())).collect();
    assert!(matches!(short_right, Err(EngineError::LengthMismatch)));
}

#[test]
fn binary_op_of_empty_plans_is_empty() {
    let out = (generate(0, |i| i.f()) + generate(0, |i| i.f()))
        .collect()
        .unwrap();
    assert!(out.is_empty());
}

#[test]
fn map_after_binary_op_transforms_the_combined_stream() {
    let out = (generate(4, |i| i as i64) + generate(4, |i| i as i64))
        .map(|x: i64| x * 10)
        .collect()
        .unwrap();
    assert_eq!(out.as_slice(), vec![0, 20, 40, 60]);
}

#[test]
fn zero_batch_bytes_still_makes_progress() {
    // The batch size is clamped to at least one element.
    let out = generate(3, |i| i as u64)
        .with_batch_bytes(0)
        .collect()
        .unwrap();
    assert_eq!(out.as_slice(), vec![0, 1, 2]);
}

#[test]
fn reductions_compose_with_binary_ops() {
    // Two one-element plans (reductions) can be combined like any others.
    let diff = (generate(10, |i| i.f()).sum() - generate(10, |_| F64(1.0)).sum())
        .collect()
        .unwrap()
        .item();
    assert_eq!(diff, F64(45.0 - 10.0));
}

#[test]
fn sum_after_binary_op_streams_and_matches_eager() {
    let total = (generate(10_000, |i| i.f()).with_batch_bytes(256) + generate(10_000, |i| i.f()))
        .sum()
        .collect()
        .unwrap()
        .item();
    assert_eq!(total, F64(9_999.0 * 10_000.0));
}

#[test]
fn scan_file_of_missing_file_errors_at_execution() {
    let plan = scan_file::<F64>("missing").sum(); // still no error: lazy
    let opened = vec![Err(String::from("no such file"))];
    assert!(matches!(
        plan.collect_from(opened),
        Err(EngineError::Source(_))
    ));
}

#[test]
fn scanned_files_stream_their_elements() {
    let source = Tensor::from_fn(5000, |i| i.f());
    let plan = scan_file::<F64>("weights.bin")
        .with_batch_bytes(1024)
        .map(|x: F64| x * F64(2.0))
        .sum();
    assert_eq!(plan.scan_paths(), &vec![String::from("weights.bin")]);
    let storage = Storage::from_mapping(Some(mapping(source.storage().as_bytes())));
    let total = plan.collect_from(vec![Ok(storage)]).unwrap().item();
    assert_eq!(total, F64(2.0 * source.sum().0));
}

#[test]
fn scanned_files_of_partial_elements_are_refused() {
    let plan = scan_file::<F64>("bad");
    let storage = Storage::from_mapping(Some(mapping(&[0; 5])));
    let result = plan.collect_from(vec![Ok(storage)]);
    assert!(matches!(
        result,
        Err(EngineError::Source(TensorFileError::View(
            ViewError::SizeMismatch {
                byte_len: 5,
                element_size: 8
            }
        )))
    ));
}

#[test]
fn the_first_source_that_fails_is_reported() {
    let plan = || scan_file::<u8>("a") + scan_file::<u8>("b");
    assert_eq!(
        plan().scan_paths(),
        &vec![String::from("a"), String::from("b")]
    );
    let fail = |reason: &str| Err(String::from(reason));
    let good = || Ok(Storage::from_bytes(&[1, 2]));
    let reason = |result: Result<Tensor<u8>, EngineError>| match result {
        Err(EngineError::Source(TensorFileError::Io(reason))) => reason,
        other => panic!("{other:?}"),
    };
    assert_eq!(
        reason(plan().collect_from(vec![fail("x"), fail("y")])),
        "x"
    );
    assert_eq!(reason(plan().collect_from(vec![good(), fail("y")])), "y");
    let sum = plan().collect_from(vec![good(), good()]).unwrap();
    assert_eq!(sum.as_slice(), vec![2, 4]);
}

#[test]
fn files_are_handed_to_the_scans_in_order() {
    let left = scan_file::<u8>("a").zip_with(scan_file::<u8>("b"), |x: u8, y: u8| x - y);
    let plan = generate(2, |_| 100u8) - left.zip_with(scan_file::<u8>("c"), |x: u8, y: u8| x * y);
    let bytes = |x: u8, y: u8| Ok(Storage::from_bytes(&[x, y]));
    let out = plan
        .collect_from(vec![bytes(9, 8), bytes(4, 2), bytes(2, 3)])
        .unwrap();
    assert_eq!(out.as_slice(), vec![100 - 5 * 2, 100 - 6 * 3]);
}

#[test]
fn executions_hand_out_batches_of_the_configured_size() {
    let plan = generate(7, |i| i as u16).with_batch_bytes(6);
    let mut running = plan.start(Vec::new()).unwrap();
    let mut sizes = Vec::new();
    let mut bytes = Vec::new();
    while let Some(batch) = running.next().unwrap() {
        sizes.push(batch.len());
        bytes.extend_from_slice(batch.storage().as_bytes());
    }
    assert_eq!(sizes, vec![3, 3, 1]);
    // Sunk batch by batch, the elements are read back by a scan.
    let back = scan_file::<u16>("sink")
        .collect_from(vec![Ok(Storage::from_bytes(&bytes))])
        .unwrap();
    assert_eq!(back.as_slice(), vec![0, 1, 2, 3, 4, 5, 6]);
}

#[test]
fn zipped_batches_are_the_overlaps() {
    let a = generate(10, |i| i as u8); // four numbers in four bytes
    let b = generate(10, |i| i as u16); // two numbers in four bytes
    let plan = a
        .zip_with(b, |x: u8, y: u16| u16::from(x) + y)
        .with_batch_bytes(4);
    let mut running = plan.start(Vec::new()).unwrap();
    let mut sizes = Vec::new();
    while let Some(batch) = running.next().unwrap() {
        sizes.push(batch.len());
    }
    assert_eq!(sizes, vec![2, 2, 2, 2, 2]);
}

#[test]
fn mismatches_show_after_the_common_part() {
    let plan = (generate(5, |i| i as u8) + generate(3, |i| i as u8)).with_batch_bytes(2);
    let mut running = plan.start(Vec::new()).unwrap();
    assert_eq!(running.next().unwrap().unwrap().as_slice(), vec![0, 2]);
    assert_eq!(running.next().unwrap().unwrap().as_slice(), vec![4]);
    assert!(matches!(
        running.next(),
        Err(EngineError::LengthMismatch)
    ));
}

#[test]
fn mismatches_inside_a_plan_fail_the_whole_plan() {
    let inner = || generate(5, |i| i as u64) + generate(3, |i| i as u64);
    assert!(matches!(
        inner().sum().collect(),
        Err(EngineError::LengthMismatch)
    ));
    assert!(matches!(
        (inner() + generate(3, |i| i as u64)).collect(),
        Err(EngineError::LengthMismatch)
    ));
    assert!(matches!(
        (generate(3, |i| i as u64) * inner()).map(|x: u64| x).collect(),
        Err(EngineError::LengthMismatch)
    ));
}

#[test]
fn results_do_not_depend_on_the_batch_size() {
    for bytes in [0, 1, 3, 8, 64, 1 << 20] {
        let plan: LazyTensor<u32> = generate(50, |i| i as u32)
            .map(|x: u32| x * 3)
            .zip_with(generate(50, |i| i as u8), |x: u32, y: u8| x + u32::from(y))
            .with_batch_bytes(bytes);
        let out = plan.collect().unwrap();
        assert_eq!(out, Tensor::from_fn(50, |i| 4 * i as u32));
        let total = generate(50, |i| i as i64 - 20)
            .sum()
            .with_batch_bytes(bytes)
            .collect()
            .unwrap();
        assert_eq!(total.item(), 1225 - 1000);
    }
}

#[test]
fn the_smaller_batch_setting_wins() {
    let a = generate(4, |i| i as u8).with_batch_bytes(2);
    let b = generate(4, |i| i as u8).with_batch_bytes(100);
    let mut running = (a + b).start(Vec::new()).unwrap();
    assert_eq!(running.next().unwrap().unwrap().len(), 2);
    let a = generate(4, |i| i as u8).with_batch_bytes(100);
    let b = generate(4, |i| i as u8).with_batch_bytes(2);
    let mut running = (a * b).start(Vec::new()).unwrap();
    assert_eq!(running.next().unwrap().unwrap().len(), 2);
}

#[test]
fn plans_are_drawn_exactly() {
    let a = generate(4, |i| i as u64).map(|x: u64| x + 1);
    let b = Tensor::from_elements(&[1u64, 2, 3, 4]).lazy();
    let plan = (a - b).sum();
    assert_eq!(
        plan.explain(),
        "sum\n└─ sub\n   ├─ map\n   │  └─ generate(len=4) as u64\n   └─ tensor(len=4) as u64"
    );
    assert_eq!(
        plan.debug_text(),
        "LazyTensor[sum └─ sub    ├─ map    │  └─ generate(len=4) as u64    └─ tensor(len=4) as u64]"
    );
    assert_eq!(
        scan_file::<u32>("a \"b\"").explain(),
        "scan_file(\"a \\\"b\\\"\") as u32"
    );
    let zip = generate(1, |_| 0u8).zip_with(generate(1, |_| 0i8), |_: u8, _: i8| 0usize);
    assert_eq!(
        zip.explain(),
        "zip_with\n├─ generate(len=1) as u8\n└─ generate(len=1) as i8"
    );
}

#[test]
fn engine_error_displays() {
    assert!(EngineError::SinkIntoSource.to_string().contains("sink"));
    assert!(EngineError::LengthMismatch.to_string().contains("length"));
}

#[test]
fn engine_errors_are_described_exactly() {
    let source = EngineError::from(TensorFileError::Io(String::from("gone")));
    assert_eq!(
        source.to_string(),
        "cannot open plan source: cannot map file: gone"
    );
    assert_eq!(source.source(), Some(String::from("cannot map file: gone")));
    let io = EngineError::Io(String::from("disk full"));
    assert_eq!(io.to_string(), "sink failed: disk full");
    assert_eq!(io.source(), Some(String::from("disk full")));
    assert_eq!(
        EngineError::SinkIntoSource.to_string(),
        "cannot sink into a file the plan is scanning"
    );
    assert_eq!(EngineError::SinkIntoSource.source(), None);
    assert_eq!(
        EngineError::LengthMismatch.to_string(),
        "length mismatch: one side of a binary operation ended before the other"
    );
    assert_eq!(EngineError::LengthMismatch.source(), None);
}

#[test]
fn sinking_into_a_scanned_file_is_refused() {
    let id = |number| {
        Some(FileId {
            device: 1,
            number,
        })
    };
    assert!(is_same_file(id(7), id(7)));
    assert!(!is_same_file(id(7), id(8)));
    assert!(!is_same_file(None, None));
    let plan = scan_file::<u8>("a") + scan_file::<u8>("b");
    assert!(plan.check_sink(&[id(1), id(2)], id(3)).is_ok());
    assert!(plan.check_sink(&[id(1), None], None).is_ok());
    assert!(matches!(
        plan.check_sink(&[id(1), id(2)], id(2)),
        Err(EngineError::SinkIntoSource)
    ));
}

#[test]
fn plans_know_whether_they_fit() {
    let none: Vec<Result<Storage, String>> = Vec::new();
    assert!(generate(1000, |i| i as u64).can_collect(&none));
    assert!(!generate(usize::MAX, |i| i as u64).can_collect(&none));
    assert!(generate(usize::MAX, |i| i as u64).can_start(&none));
    assert!(!generate(usize::MAX, |i| i as u64)
        .with_batch_bytes(usize::MAX)
        .can_start(&none));
    assert!(generate(usize::MAX, |i| i as u64).sum().can_collect(&none));
}

#[test]
fn the_default_batch_is_four_mebibytes() {
    assert_eq!(lazy::DEFAULT_BATCH_BYTES, 4 * 1024 * 1024);
    let plan = generate(5_000_000, |i| i as u8);
    let mut running = plan.start(Vec::new()).unwrap();
    assert_eq!(running.next().unwrap().unwrap().len(), 4 * 1024 * 1024);
}

#[test]
fn plans_are_drawn_on_one_line_per_node() {
    let lines = |text: String| text.split('\n').count();
    assert_eq!(lines(generate(1, |i| i as u8).explain()), 1);
    assert_eq!(lines(scan_file::<u8>("two\nlines").explain()), 1);
    let map = generate(1, |i| i as u8).map(|x: u8| x);
    assert_eq!(lines(map.explain()), 2);
    let add = map + generate(1, |i| i as u8);
    assert_eq!(lines(add.explain()), 4);
    let zip = add.zip_with(generate(1, |i| i as u16).sum(), |x: u8, y: u16| u16::from(x) + y);
    assert_eq!(lines(zip.explain()), 7);
    let text = zip.sum().with_batch_bytes(3).explain();
    assert!(text.starts_with("sum\n"));
    assert!(!text.ends_with('\n'));
    assert_eq!(lines(text), 8);
}

#[test]
fn sources_that_fail_are_reported_before_sizes() {
    let scanned = || {
        (generate(usize::MAX, |i| i as u64) + scan_file::<u64>("source"))
            .with_batch_bytes(usize::MAX)
    };
    let gone = || vec![Err(String::from("gone"))];
    assert!(scanned().can_collect(&gone()));
    assert!(scanned().can_start(&gone()));
    assert!(matches!(
        scanned().collect_from(gone()),
        Err(EngineError::Source(TensorFileError::Io(reason))) if reason == "gone"
    ));
    let partial = || vec![Ok(Storage::from_bytes(&[1, 2, 3]))];
    assert!(scanned().can_start(&partial()));
    assert!(matches!(
        scanned().start(partial()),
        Err(EngineError::Source(TensorFileError::View(ViewError::SizeMismatch { .. })))
    ));
    let whole = vec![Ok(Storage::from_elements(&[1u64, 2]))];
    assert!(!scanned().can_start(&whole));
    assert!(!scanned().can_collect(&whole));
}

#[test]
fn operators_are_zips_with_their_functions() {
    let a = || Tensor::from_elements(&[5i32, -7, 11]).lazy();
    let b = || generate(3, |i| i as i32 - 1);
    assert_eq!(
        (a() + b()).collect().unwrap(),
        a().zip_with(b(), |x: i32, y: i32| x + y).collect().unwrap()
    );
    assert_eq!(
        (a() - b()).collect().unwrap(),
        a().zip_with(b(), |x: i32, y: i32| x - y).collect().unwrap()
    );
    assert_eq!(
        (a() * b()).collect().unwrap(),
        a().zip_with(b(), |x: i32, y: i32| x * y).collect().unwrap()
    );
    assert_eq!((a() + b()).collect().unwrap().as_slice(), [4, -7, 12]);
}

#[test]
fn sums_of_integers_do_not_depend_on_the_batch_size() {
    let elements = [100i8, -120, 20, -5, 7, -3];
    let eager = Tensor::from_elements(&elements).sum();
    assert_eq!(eager, -1);
    for bytes in [0, 1, 2, 4, 5, 100] {
        let plan = || Tensor::from_elements(&elements).lazy().with_batch_bytes(bytes);
        assert_eq!(plan().sum().collect().unwrap().item(), eager);
        assert_eq!(plan().sum().sum().collect().unwrap().item(), eager);
    }
    let lowest = Tensor::from_elements(&[i8::MIN]).lazy().sum().sum();
    assert_eq!(lowest.collect().unwrap().item(), i8::MIN);
}

#[test]
fn sums_fail_with_their_input() {
    let short = generate(3, |i| i as u32) + generate(4, |i| i as u32);
    assert!(matches!(
        short.sum().sum().collect(),
        Err(EngineError::LengthMismatch)
    ));
    assert!(matches!(
        scan_file::<u32>("missing").sum().collect_from(vec![Err(String::from("gone"))]),
        Err(EngineError::Source(TensorFileError::Io(_)))
    ));
}

#[test]
fn sums_of_floats_stream() {
    let sum = generate(1000, |i| i.f()).with_batch_bytes(64).sum();
    assert_eq!(sum.collect().unwrap().item(), F64(499_500.0));
}

#[test]
fn batches_concatenate_to_the_bytes_of_all_elements() {
    let tensor = Tensor::from_fn(100, |i| i as u32 * 7);
    let mut running = tensor
        .clone()
        .lazy()
        .with_batch_bytes(36)
        .start(Vec::new())
        .unwrap();
    let mut written = Vec::new();
    while let Some(batch) = running.next().unwrap() {
        assert!(batch.len() <= 9);
        written.extend_from_slice(batch.storage().as_bytes());
    }
    assert_eq!(written, tensor.storage().as_bytes());
    let collected = tensor.clone().lazy().collect().unwrap();
    assert_eq!(collected.storage().as_bytes(), tensor.storage().as_bytes());
}

#[test]
fn batches_are_bounded_by_the_smallest_elements_of_the_sources() {
    // Sixteen bytes hold two wide elements but sixteen narrow ones.
    let narrow = || generate(40, |i| i as u8);
    let wide = || generate(40, |i| i as u64);
    let largest = |plan: LazyTensor<u64>| {
        let mut running = plan.with_batch_bytes(16).start(Vec::new()).unwrap();
        let mut most = 0;
        while let Some(batch) = running.next().unwrap() {
            most = most.max(batch.len());
        }
        most
    };
    assert_eq!(largest(wide()), 2);
    assert_eq!(largest(narrow().map(u64::from)), 16);
    assert_eq!(largest(narrow().zip_with(wide(), |x: u8, y: u64| u64::from(x) + y)), 2);
    assert_eq!(largest(wide().sum()), 1);
}

#[test]
fn plans_with_sums_inside_do_not_depend_on_the_batch_size() {
    for bytes in [0, 1, 7, 64, 1 << 20] {
        // The sum of 0..100 spread over one element, and a sum of a sum on top.
        let inner = generate(100, |i| i as i32 - 40).map(|x: i32| x * 3).sum();
        let shifted = inner.zip_with(generate(1, |_| 5i8), |x: i32, y: i8| x + i32::from(y));
        let plan = (shifted * generate(1, |_| 2)).sum().with_batch_bytes(bytes);
        assert_eq!(plan.collect().unwrap().item(), 2 * (3 * (4950 - 4000) + 5));
    }
}

#[test]
fn lazy_sums_meet_no_overflow_that_a_naive_loop_avoids() {
    let mut elements = vec![0i32; 40];
    elements[0] = i32::MAX;
    elements[1] = -i32::MAX;
    elements[8] = 1;
    elements[39] = -3;
    for bytes in [4, 36, 64, 1 << 20] {
        let plan = Tensor::from_elements(&elements).lazy().with_batch_bytes(bytes);
        assert_eq!(plan.sum().collect().unwrap().item(), -2);
    }
}
