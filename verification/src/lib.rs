//! Reading of protocol buffer messages into rows.
//!
//! A message type becomes a relation with one column for each field
//! ([`validate_proto_schema_with_descriptors`]), and each message of the type becomes a row of the
//! relation ([`Decoder`]). Scalar fields become plain columns; repeated fields and nested messages
//! become documents, in which every number is a double.
//!
//! Message types come from a registry of `serde_protobuf`, loaded from the bytes of a file
//! descriptor set ([`read_descriptors_from_bytes`]) or built by hand. Parsing of messages is left
//! to `serde_protobuf`; what the rest of the library relies on is stated where it is called.
//!
//! - [`descriptor`]: the registry, as the rules see it.
//! - [`load`]: loading of a registry.
//! - [`schema`]: the rules for message types, and [`relation`]: what they become.
//! - [`wire`]: encoded messages, [`serde_bridge`] and [`dynamic`]: the self-describing values that
//!   they are read into.
//! - [`convert`]: from values to datums, with [`float`] for the numbers and [`row`] for the rows.
//! - [`decoder`]: from bytes to rows.
//! - [`error`]: what can be wrong, with [`describe`] for the values in its texts.
//! - [`behaviour`], [`meaning`] and [`views`]: what each operation and each type is for.
//! - [`laws`]: what holds of all of this together.
pub mod behaviour;
pub mod convert;
pub mod decoder;
pub mod describe;
pub mod descriptor;
pub mod dynamic;
pub mod error;
pub mod float;
pub mod laws;
pub mod load;
pub mod meaning;
pub mod relation;
pub mod row;
pub mod schema;
pub mod serde_bridge;
pub mod views;
pub mod wire;

pub use decoder::DecodeRefusal;
pub use decoder::Decoder;
pub use dynamic::Dynamic;
pub use error::DecodeError;
pub use error::SchemaError;
pub use load::read_descriptors_from_bytes;
pub use load::LoadError;
pub use relation::ColumnType;
pub use relation::RelationDesc;
pub use relation::RelationType;
pub use relation::ScalarType;
pub use row::Datum;
pub use row::Row;
pub use row::RowPacker;
pub use row::Significand;
pub use schema::validate_proto_schema_with_descriptors;
pub use schema::validate_proto_schema_within;
