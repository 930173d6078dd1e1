# datalab

Streaming-capable data structures, verified with Verus.

- `storage`: contiguous, aligned, reference-counted bytes, on the heap or in a
  memory-mapped file, with copy-on-write.
- `view`: typed lenses over those bytes; `native` and `integers` say how numbers
  are represented.
- `kernel`: element-wise loops and pairwise summation of `summand`s;
  `kernel_laws` says how the loops belong together. `sum_laws` proves that a sum
  of integers is what a naive loop gives, also where additions in lane order would
  overflow, and the total of the numbers wherever that fits.
- `tensor`: owned one-dimensional tensors.
- `lazy`: plans that are built first and executed in batches; `flow` says what a
  plan means, `plan`, `ops` and `stream` are its nodes, operations and running
  streams.
- `laws`: what holds of the library as a whole.

The library does no I/O. `app/` maps files, spills storages, runs plans that scan
files and sinks results into files; it also brings floating-point elements and the
standard error traits.
