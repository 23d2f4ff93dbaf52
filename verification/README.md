# hdct

A suite of small developer command-line tools whose logic is a library
verified with Verus:

- `epochtime`: the UTC time of a UNIX timestamp and its distance from now;
- `uuidgen`: random version-4 UUIDs in plain or hyphenated form;
- `nu`: line numbering with a column ruler;
- `fw` and `fw2delim`: fixed-width files cut into delimited or columnar rows;
- `hdct`: a runner for the UUID and epoch time commands.

Layout:

- `src/` — the verified library: `text` (decimal rendering, padding,
  splitting, joining, trimming, integer parsing, UTF-8 byte slicing),
  `column_spec` and `fw2delim` (column layouts and line cutting),
  `parquet_values` (column types and cell values of the columnar output),
  `nu`, `uuidgen`, `epochtime` and `commands`.
- `tests/` — tests of the library, several against the outside crates it
  calls.
- `app/` — the command-line front ends: argument parsing, files, standard
  input and output, the clipboard, the progress bar and the columnar writer.
