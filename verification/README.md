# edgevec

A vector-database core whose logic is verified with Verus: flat and sparse
vector storage, metadata stores, binary and product quantization codes, the
write-ahead log, snapshot files and their chunked export, SIMD backend
selection and Hamming kernels.

Single-precision values are held as their IEEE-754 bit patterns (`u32`), and
doubles in metadata as `u64` patterns, so that the library itself computes only
on integers and bytes. Floating-point arithmetic (distances, similarities,
k-means, scalar quantization) lives in `app/`, which reads those bit patterns.

## Layout

- `src/` — the verified library.
  - `index/` — the flat index and its distance metrics.
  - `sparse/` — sparse vectors, their packed storage and its file format.
  - `metadata/` — typed values, validation rules, the store and its flat
    entry form.
  - `persistence/` — file headers, the write-ahead log, snapshot assembly,
    chunked export and snapshot parsing.
  - `storage.rs` — dense vector storage with WAL-first insertion and recovery.
  - `quantization/` — binary quantization, product-quantization codes and the
    checks on PQ training sets.
  - `simd/`, `metric/`, `bits.rs` — backend selection and integer kernels.
  - `bitset.rs`, `checksum.rs` — the trusted wrappers around `bitvec`,
    `crc32fast` and `bytemuck`.
- `tests/` — executable tests of the library.
- `app/` — floating-point kernels and searches, quantizer training, serde
  encodings, file I/O and run-time CPU feature detection.

## What is proved

Besides the contract of every public function, the library proves laws such
as: a snapshot read gives back what was written (the metadata section, when
there is one, is read only where its header sits at a 4-byte aligned
address, as the format requires); a chunked export, put back
together, is the same snapshot whatever the chunk size; WAL records decode to
what was appended and recovery of a run of logged inserts gives the inserted
vectors back; sparse storage bytes decode to the storage; metadata entries
rebuild the store, however many keys a vector holds; a read after an insert returns the
inserted vector (flat index, sparse storage, metadata store); restoring undoes
deleting; the CRC-32 checksum catches any single corrupted byte, so a
corrupted sparse storage file is refused; and Hamming distance is symmetric, zero on equal inputs, bounded and
obeys the triangle inequality.
