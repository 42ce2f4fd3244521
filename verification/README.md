# bwdta

Reading and writing records of the DTA data-transfer format of the ERPSuite
(formerly BüroWARE) business software, verified with Verus.

A record is one line such as
`þVARTþ0þSKZþADRþUEBERþNþSTAMMKALKþJþaaþ809460 \n`: a header naming the
record type (SKZ), parameters, and data fields whose values end with a space.

## Layout

- `src/` — the verified library.
  - `text.rs`: the character-level model (trim, split, join).
  - `params.rs`: the parameter map, keyed by name in insertion order; its
    type invariant keeps names distinct.
  - `sorting.rs`: stable ordering of data fields by name.
  - `identifiers.rs`: record types, the parameters they accept and the
    order in which they are written; `orders.rs` proves that each of these
    lists names a parameter once.
  - `row.rs`: rows, their builder and their text form.
  - `parser.rs`: reading lines of DTA text back into rows.
  - `roundtrip.rs`: the layout of a written line and what reading it back
    gives.
  - `format.rs`, `serde_support.rs`: scalar text and the decisions that turn
    a serialized value into rows.
- `app/` — files and streams, the `serde::Serializer` implementations and
  the error type with its `Display`.
- `tests/` — tests run against the compiled library.
