# validador

A desktop validator for open-data CSV files (Tauri), whose rules are a
library verified with Verus.

- `src/` — the verified library:
  - `codificacion`: reading a file's bytes as text (UTF-8, or the encoding
    that `chardetng` guesses) and the UTF-8 byte order mark of exports;
  - `caracteres`: the report of corrupt characters and the lines they are on;
  - `nombres`, `estabilidad`: normalisation of column names, unique
    suggestions, and the proof that a suggestion validated again is unchanged;
  - `columnas`, `tabla`: per-cell cleaning rules of each transformation,
    reading a CSV text into cells (through polars' reader) and cleaning the
    table, conversion to dates with the first format that fits (through
    polars' date parser), value changes, the schema and the record of a batch
    of transformations;
  - `cola`: the upload queue (add, take, finish, retry) and its laws;
  - `instituciones`: the cache of the portal's institutions;
  - `rutas`: remote folders, public addresses and suggested file names;
  - `texto`, `externos`: verified string operations and the trusted wrappers
    around `regex`, `unicode-normalization`, `sha2`, `hex` and std.
  `codificacion` and `tabla` hold those around `encoding_rs`, `chardetng`
  and `polars`.
- `tests/` — tests of the library on concrete values.
- `app/` — the Tauri application: commands, polars tables, HTTP, SFTP and
  the upload worker, calling the library for every rule.
