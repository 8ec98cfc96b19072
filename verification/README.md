# xcursor

Reads and writes Xcursor files (the cursor theme format of X11), verified with Verus.

- `src/format.rs` states the file format as mathematical functions: `parse_file` says what
  reading any byte sequence gives (a cursor, or the error of the first read that fails), and
  `file_bytes` says which bytes writing a cursor produces.
- `src/lib.rs` (`Xcursor::from_bytes`, `Xcursor::write`), `src/image.rs` and `src/comment.rs`
  hold the executable reader and writer, each proved against those functions.
- `src/laws.rs` proves that reading the bytes written for a cursor gives the cursor back,
  chunk by chunk and for whole files.
- `src/parser.rs` is a forward-only reader over a byte slice; `src/card32.rs` the
  little-endian 32-bit fields everything is made of.
- `app/` opens files, reads from and writes to streams, logs the table entries reading skips,
  and gives errors `Display`.

A file stores image delays in whole milliseconds; `Delay` holds seconds and nanoseconds.
