# protobuf_interchange

Reads protocol buffer messages into rows.

- A message type becomes a relation with one column for each field. Scalar fields become plain
  columns; repeated fields and nested messages become documents. Required fields, groups, unknown
  types and nested bytes are refused.
- A message becomes a row of the relation. Top-level values become equivalent datums; in documents
  every number becomes a double, and the keys of every dict are in ascending order.

The library under `src/` is verified with Verus. Parsing of messages and of file descriptor sets is
left to `serde_protobuf` and `protobuf`; what is relied upon is stated at each call. The module
`laws` states what holds of the library as a whole: rows fit their relation and show what was sent.

`app/` reads descriptor files, runs `protoc`, and reports errors as `failure::Error`.
