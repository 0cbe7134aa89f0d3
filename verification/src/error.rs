//! What can be wrong with a schema, and with a message.
use crate::describe::describe;
use crate::describe::described;
use crate::dynamic::Dynamic;
use crate::dynamic::DynamicModel;
use vstd::prelude::*;
use vstd::string::StringExecFns;

verus! {

/// Why a message type cannot be turned into a relation.
#[derive(Debug)]
pub enum SchemaError {
    /// A field is required.
    RequiredField(String),
    /// A field is a group.
    Group,
    /// The type of a column is a message that is not in the registry.
    UnresolvedMessage(String),
    /// The type of a column is an enum that is not in the registry.
    UnresolvedEnum(String),
    /// An array or a nested message holds bytes.
    NestedBytes,
    /// The type of a field of an array or of a nested message is a message that is not in the
    /// registry.
    NestedUnresolvedMessage(String),
    /// The type of a field of an array or of a nested message is an enum that is not in the
    /// registry.
    NestedUnresolvedEnum(String),
}

/// The mathematical counterpart of a [`SchemaError`].
pub enum SchemaErrorModel {
    RequiredField(Seq<char>),
    Group,
    UnresolvedMessage(Seq<char>),
    UnresolvedEnum(Seq<char>),
    NestedBytes,
    NestedUnresolvedMessage(Seq<char>),
    NestedUnresolvedEnum(Seq<char>),
}

impl View for SchemaError {
    type V = SchemaErrorModel;

    open spec fn view(&self) -> SchemaErrorModel {
        match self {
            SchemaError::RequiredField(name) => SchemaErrorModel::RequiredField(name@),
            SchemaError::Group => SchemaErrorModel::Group,
            SchemaError::UnresolvedMessage(name) => SchemaErrorModel::UnresolvedMessage(name@),
            SchemaError::UnresolvedEnum(name) => SchemaErrorModel::UnresolvedEnum(name@),
            SchemaError::NestedBytes => SchemaErrorModel::NestedBytes,
            SchemaError::NestedUnresolvedMessage(name) => SchemaErrorModel::NestedUnresolvedMessage(
                name@,
            ),
            SchemaError::NestedUnresolvedEnum(name) => SchemaErrorModel::NestedUnresolvedEnum(
                name@,
            ),
        }
    }
}

impl SchemaErrorModel {
    /// What to tell about an error.
    pub open spec fn message(self) -> Seq<char> {
        match self {
            SchemaErrorModel::RequiredField(name) => "Required field "@ + name + " not supported"@,
            SchemaErrorModel::Group => "Unions are currently not supported"@,
            SchemaErrorModel::UnresolvedMessage(name) => "Unresolved message "@ + name
                + " not supported"@,
            SchemaErrorModel::UnresolvedEnum(name) => "Unresolved enum "@ + name
                + " not supported"@,
            SchemaErrorModel::NestedBytes =>
                "Arrays or nested messages with bytes objects are not currently supported"@,
            SchemaErrorModel::NestedUnresolvedMessage(name) => "Nested message type "@ + name
                + " unresolved"@,
            SchemaErrorModel::NestedUnresolvedEnum(name) => "Unresolved enum type "@ + name,
        }
    }
}

impl SchemaError {
    /// Tells about the error.
    pub fn message(&self) -> (message: String)
        ensures
            message@ == self@.message(),
    {
        match self {
            SchemaError::RequiredField(name) => "Required field ".to_owned().concat(name).concat(
                " not supported",
            ),
            SchemaError::Group => "Unions are currently not supported".to_owned(),
            SchemaError::UnresolvedMessage(name) => "Unresolved message ".to_owned().concat(
                name,
            ).concat(" not supported"),
            SchemaError::UnresolvedEnum(name) => "Unresolved enum ".to_owned().concat(name).concat(
                " not supported",
            ),
            SchemaError::NestedBytes =>
                "Arrays or nested messages with bytes objects are not currently supported".to_owned(),
            SchemaError::NestedUnresolvedMessage(name) => "Nested message type ".to_owned().concat(
                name,
            ).concat(" unresolved"),
            SchemaError::NestedUnresolvedEnum(name) => "Unresolved enum type ".to_owned().concat(
                name,
            ),
        }
    }
}

/// Why a decoded message cannot be turned into a row.
#[derive(Debug)]
pub enum DecodeError {
    /// The message did not decode into a map.
    TopLevel,
    /// The default value of a field has no datum.
    DefaultValue,
    /// The value of a column has no datum.
    UnsupportedValue(Dynamic),
    /// An array or a nested message holds bytes.
    NestedBytes,
    /// An entry of a nested message is not a named field that is absent, present or repeated.
    UnrecognizedEntry,
    /// A value in an array or in a nested message has no datum.
    UnsupportedNestedValue,
}

/// The mathematical counterpart of a [`DecodeError`].
pub enum DecodeErrorModel {
    TopLevel,
    DefaultValue,
    UnsupportedValue(DynamicModel),
    NestedBytes,
    UnrecognizedEntry,
    UnsupportedNestedValue,
}

impl View for DecodeError {
    type V = DecodeErrorModel;

    open spec fn view(&self) -> DecodeErrorModel {
        match self {
            DecodeError::TopLevel => DecodeErrorModel::TopLevel,
            DecodeError::DefaultValue => DecodeErrorModel::DefaultValue,
            DecodeError::UnsupportedValue(value) => DecodeErrorModel::UnsupportedValue(value@),
            DecodeError::NestedBytes => DecodeErrorModel::NestedBytes,
            DecodeError::UnrecognizedEntry => DecodeErrorModel::UnrecognizedEntry,
            DecodeError::UnsupportedNestedValue => DecodeErrorModel::UnsupportedNestedValue,
        }
    }
}

impl DecodeErrorModel {
    /// What to tell about an error.
    pub open spec fn message(self) -> Seq<char> {
        match self {
            DecodeErrorModel::TopLevel =>
                "Deserialization failed with an unsupported top level object type"@,
            DecodeErrorModel::DefaultValue =>
                "Unsupported type for Datum from serde_protobuf::Value"@,
            DecodeErrorModel::UnsupportedValue(value) =>
                "Unsupported type for Datum from serde_value::Value: "@ + described(value),
            DecodeErrorModel::NestedBytes =>
                "We don't currently support arrays or nested messages with bytes"@,
            DecodeErrorModel::UnrecognizedEntry =>
                "Unrecognized value while trying to parse a nested message"@,
            DecodeErrorModel::UnsupportedNestedValue => "Unsupported types from serde_value"@,
        }
    }
}

impl DecodeError {
    /// Tells about the error.
    pub fn message(&self) -> (message: String)
        ensures
            message@ == self@.message(),
    {
        match self {
            DecodeError::TopLevel =>
                "Deserialization failed with an unsupported top level object type".to_owned(),
            DecodeError::DefaultValue =>
                "Unsupported type for Datum from serde_protobuf::Value".to_owned(),
            DecodeError::UnsupportedValue(value) =>
                "Unsupported type for Datum from serde_value::Value: ".to_owned().concat(
                &describe(value),
            ),
            DecodeError::NestedBytes =>
                "We don't currently support arrays or nested messages with bytes".to_owned(),
            DecodeError::UnrecognizedEntry =>
                "Unrecognized value while trying to parse a nested message".to_owned(),
            DecodeError::UnsupportedNestedValue => "Unsupported types from serde_value".to_owned(),
        }
    }
}

} // verus!
