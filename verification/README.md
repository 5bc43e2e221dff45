# async_zip

ZIP archives, with proofs.

`src/` is a library of the formats and rules of ZIP archives, verified with Verus. It does no input or output.

- `error`, `string`, `entry`: errors, strings in known and unknown encodings, entries.
- `format`: headers, extra fields, end records, compression methods and versions, as values and as bytes.
- `read`: local file headers, the central directory, where an entry's data starts and must end, whole archives. Readers
  take the bytes at hand; where bytes lack, the error tells how many.
- `write`: entries of a seekable output, whose local file header is patched once the data is known, and what comes behind
  the entries.
- `law`: what holds of the library as a whole, such as that an archive that was written is read as it was written, that a
  central directory ends where its end record begins, and that the data of accepted entries does not overlap.
- `crc`: the checksums of `crc32fast`.

What is trusted: the contracts of `crc32fast`'s `hash` and `Hasher` in `crc`, of `std::str::from_utf8` in `string`, and of
`sort_unstable` in `read::boundary`.

`app/` moves the bytes: it reads from and writes to asynchronous sources and outputs with `futures-lite`, and compresses
with `async-compression`.
