//! The registry of message types, as the schema rules see it.
//!
//! The registry itself is that of `serde_protobuf`. What it holds is modelled by
//! [`Registry`], and each look-up states what it returns in terms of that model.
use serde_protobuf::descriptor::Descriptors;
use serde_protobuf::descriptor::EnumDescriptor;
use serde_protobuf::descriptor::EnumValueDescriptor;
use serde_protobuf::descriptor::FieldDescriptor;
use serde_protobuf::descriptor::FieldLabel;
use serde_protobuf::descriptor::FieldType;
use serde_protobuf::descriptor::MessageDescriptor;
use serde_protobuf::value::Field;
use serde_protobuf::value::Message;
use serde_protobuf::value::Value;
use vstd::float::FloatBitsProperties;
use vstd::prelude::*;

verus! {

/// The registry of message types of `serde_protobuf`. What it holds is named by [`registry`].
#[verifier::external_type_specification]
#[verifier::external_body]
pub struct ExDescriptors(serde_protobuf::descriptor::Descriptors);

/// A message type of `serde_protobuf`. What it holds is named by [`message_fields`].
#[verifier::external_type_specification]
#[verifier::external_body]
pub struct ExMessageDescriptor(serde_protobuf::descriptor::MessageDescriptor);

/// An enum of `serde_protobuf`. What it holds is named by [`enum_names`].
#[verifier::external_type_specification]
#[verifier::external_body]
pub struct ExEnumDescriptor(serde_protobuf::descriptor::EnumDescriptor);

/// A value of an enum of `serde_protobuf`.
#[verifier::external_type_specification]
#[verifier::external_body]
pub struct ExEnumValueDescriptor(serde_protobuf::descriptor::EnumValueDescriptor);

/// A field of a message type of `serde_protobuf`. What it holds is named by [`field_model`].
#[verifier::external_type_specification]
#[verifier::external_body]
pub struct ExFieldDescriptor(serde_protobuf::descriptor::FieldDescriptor);

/// The label of a field, of `serde_protobuf`.
#[verifier::external_type_specification]
pub struct ExFieldLabel(serde_protobuf::descriptor::FieldLabel);

/// The type of a field with its references followed, of `serde_protobuf`.
#[verifier::external_type_specification]
pub struct ExFieldType<'a>(serde_protobuf::descriptor::FieldType<'a>);

/// An encoded message of `serde_protobuf`. What it holds is named by [`wire_fields`].
#[verifier::external_type_specification]
#[verifier::external_body]
pub struct ExWireMessage(serde_protobuf::value::Message);

/// A value of an encoded message, of `serde_protobuf`.
#[verifier::external_type_specification]
pub struct ExWireValue(serde_protobuf::value::Value);

/// What an encoded message holds of a field, of `serde_protobuf`.
#[verifier::external_type_specification]
pub struct ExWireField(serde_protobuf::value::Field);

/// A field type that refers to no other declaration.
pub enum ScalarKind {
    Double,
    Float,
    Int64,
    UInt64,
    Int32,
    Fixed64,
    Fixed32,
    Bool,
    Text,
    Group,
    Bytes,
    UInt32,
    SFixed32,
    SFixed64,
    SInt32,
    SInt64,
}

/// The type that a field was declared with. A message or an enum is referred to by its name or,
/// once references have been resolved, by its place in the registry.
pub enum DeclaredType {
    Scalar(ScalarKind),
    MessageNamed(Seq<char>),
    EnumNamed(Seq<char>),
    MessageAt(nat),
    EnumAt(nat),
}

/// A value as it stands in an encoded message.
pub enum WireModel {
    Bool(bool),
    I32(i32),
    I64(i64),
    U32(u32),
    U64(u64),
    F32(u32),
    F64(u64),
    Bytes(Seq<u8>),
    Text(Seq<char>),
    Enum(i32),
    Nested(Seq<(i32, WireFieldModel)>),
}

/// What an encoded message holds of one field.
pub enum WireFieldModel {
    Singular(Option<WireModel>),
    Repeated(Seq<WireModel>),
}

/// A field of a message type.
pub struct FieldModel {
    pub name: Seq<char>,
    pub number: i32,
    pub label: FieldLabel,
    pub declared: DeclaredType,
    pub default: Option<WireModel>,
}

/// A registry of message types and of enums. A message is its fields, an enum the names of its
/// numbers; both are listed in the order in which they were added, and found by name.
pub struct Registry {
    pub messages: Seq<Seq<FieldModel>>,
    pub message_ids: Map<Seq<char>, nat>,
    pub enums: Seq<Map<i32, Seq<char>>>,
    pub enum_ids: Map<Seq<char>, nat>,
}

/// What a registry of `serde_protobuf` holds.
pub uninterp spec fn registry(descriptors: Descriptors) -> Registry;

/// The fields of a message type, in the order in which they were added.
pub uninterp spec fn message_fields(message: MessageDescriptor) -> Seq<FieldModel>;

/// What a message type declares of a field.
pub uninterp spec fn field_model(field: FieldDescriptor) -> FieldModel;

/// The names of an enum, each under its number.
pub uninterp spec fn enum_names(descriptor: EnumDescriptor) -> Map<i32, Seq<char>>;

/// The fields of an encoded message in the order of their numbers, each with what it holds.
pub uninterp spec fn wire_fields(message: Message) -> Seq<(i32, WireFieldModel)>;

/// What a value of an encoded message stands for.
pub open spec fn wire_model(value: Value) -> WireModel {
    match value {
        Value::Bool(b) => WireModel::Bool(b),
        Value::I32(n) => WireModel::I32(n),
        Value::I64(n) => WireModel::I64(n),
        Value::U32(n) => WireModel::U32(n),
        Value::U64(n) => WireModel::U64(n),
        Value::F32(single) => WireModel::F32(single.to_bits_spec()),
        Value::F64(double) => WireModel::F64(double.to_bits_spec()),
        Value::Bytes(bytes) => WireModel::Bytes(bytes@),
        Value::String(text) => WireModel::Text(text@),
        Value::Enum(number) => WireModel::Enum(number),
        Value::Message(message) => WireModel::Nested(wire_fields(message)),
    }
}

/// What a value that may be missing stands for.
pub open spec fn optional_wire_model(value: Option<&Value>) -> Option<WireModel> {
    match value {
        Some(value) => Some(wire_model(*value)),
        None => None,
    }
}

/// What a field of an encoded message stands for.
pub open spec fn wire_field_model(field: Field) -> WireFieldModel {
    match field {
        Field::Singular(None) => WireFieldModel::Singular(None),
        Field::Singular(Some(value)) => WireFieldModel::Singular(Some(wire_model(value))),
        Field::Repeated(values) => WireFieldModel::Repeated(
            values@.map_values(|value: Value| wire_model(value)),
        ),
    }
}

/// The type of a field once its references have been followed.
pub enum ResolvedType {
    Scalar(ScalarKind),
    Message(Seq<FieldModel>),
    Enum(Map<i32, Seq<char>>),
    UnresolvedMessage(Seq<char>),
    UnresolvedEnum(Seq<char>),
}

impl Registry {
    /// Whether a type that refers to a place refers to one that is there.
    pub open spec fn has_place(self, declared: DeclaredType) -> bool {
        match declared {
            DeclaredType::MessageAt(id) => id < self.messages.len(),
            DeclaredType::EnumAt(id) => id < self.enums.len(),
            _ => true,
        }
    }

    /// Whether every field of a message type has a type whose place, if it refers to one, is there.
    pub open spec fn has_places(self, fields: Seq<FieldModel>) -> bool {
        forall|i: int| 0 <= i < fields.len() ==> self.has_place((#[trigger] fields[i]).declared)
    }

    /// Whether every name and every type refers to a place that is there.
    pub open spec fn well_formed(self) -> bool {
        &&& forall|name: Seq<char>| #[trigger]
            self.message_ids.contains_key(name) ==> self.message_ids[name] < self.messages.len()
        &&& forall|name: Seq<char>| #[trigger]
            self.enum_ids.contains_key(name) ==> self.enum_ids[name] < self.enums.len()
        &&& forall|id: int|
            0 <= id < self.messages.len() ==> self.has_places(#[trigger] self.messages[id])
    }

    /// Follows the reference of a type.
    pub open spec fn resolve(self, declared: DeclaredType) -> ResolvedType {
        match declared {
            DeclaredType::Scalar(kind) => ResolvedType::Scalar(kind),
            DeclaredType::MessageNamed(name) => if self.message_ids.contains_key(name) {
                ResolvedType::Message(self.messages[self.message_ids[name] as int])
            } else {
                ResolvedType::UnresolvedMessage(name)
            },
            DeclaredType::EnumNamed(name) => if self.enum_ids.contains_key(name) {
                ResolvedType::Enum(self.enums[self.enum_ids[name] as int])
            } else {
                ResolvedType::UnresolvedEnum(name)
            },
            DeclaredType::MessageAt(id) => ResolvedType::Message(self.messages[id as int]),
            DeclaredType::EnumAt(id) => ResolvedType::Enum(self.enums[id as int]),
        }
    }

    /// The fields of the message type that goes by a name.
    pub open spec fn message(self, name: Seq<char>) -> Seq<FieldModel> {
        self.messages[self.message_ids[name] as int]
    }
}

/// The type that a look-up handed out.
pub open spec fn resolved_type(field_type: FieldType) -> ResolvedType {
    match field_type {
        FieldType::UnresolvedMessage(name) => ResolvedType::UnresolvedMessage(name@),
        FieldType::UnresolvedEnum(name) => ResolvedType::UnresolvedEnum(name@),
        FieldType::Double => ResolvedType::Scalar(ScalarKind::Double),
        FieldType::Float => ResolvedType::Scalar(ScalarKind::Float),
        FieldType::Int64 => ResolvedType::Scalar(ScalarKind::Int64),
        FieldType::UInt64 => ResolvedType::Scalar(ScalarKind::UInt64),
        FieldType::Int32 => ResolvedType::Scalar(ScalarKind::Int32),
        FieldType::Fixed64 => ResolvedType::Scalar(ScalarKind::Fixed64),
        FieldType::Fixed32 => ResolvedType::Scalar(ScalarKind::Fixed32),
        FieldType::Bool => ResolvedType::Scalar(ScalarKind::Bool),
        FieldType::String => ResolvedType::Scalar(ScalarKind::Text),
        FieldType::Group => ResolvedType::Scalar(ScalarKind::Group),
        FieldType::Message(message) => ResolvedType::Message(message_fields(*message)),
        FieldType::Bytes => ResolvedType::Scalar(ScalarKind::Bytes),
        FieldType::UInt32 => ResolvedType::Scalar(ScalarKind::UInt32),
        FieldType::Enum(descriptor) => ResolvedType::Enum(enum_names(*descriptor)),
        FieldType::SFixed32 => ResolvedType::Scalar(ScalarKind::SFixed32),
        FieldType::SFixed64 => ResolvedType::Scalar(ScalarKind::SFixed64),
        FieldType::SInt32 => ResolvedType::Scalar(ScalarKind::SInt32),
        FieldType::SInt64 => ResolvedType::Scalar(ScalarKind::SInt64),
    }
}

/// The place of the last field that has a number.
pub open spec fn field_with_number(fields: Seq<FieldModel>, number: i32) -> Option<int>
    decreases fields.len(),
{
    if fields.len() == 0 {
        None
    } else if fields.last().number == number {
        Some(fields.len() - 1)
    } else {
        field_with_number(fields.drop_last(), number)
    }
}

/// `Descriptors::message_by_name` finds the message type that goes by the name, if there is one.
/// A registry refers to no place that it does not have: it only ever grows, and it hands out
/// places for what it holds.
pub assume_specification<'a>[ Descriptors::message_by_name ](
    descriptors: &'a Descriptors,
    name: &str,
) -> (found: Option<&'a MessageDescriptor>)
    ensures
        found is Some <==> registry(*descriptors).message_ids.contains_key(name@),
        found matches Some(message) ==> {
            &&& message_fields(*message) == registry(*descriptors).message(name@)
            &&& registry(*descriptors).well_formed()
        },
;

/// `MessageDescriptor::fields` lists the fields of a message type.
pub assume_specification[ MessageDescriptor::fields ](message: &MessageDescriptor) -> (fields:
    &[FieldDescriptor])
    ensures
        fields@.map_values(|field: FieldDescriptor| field_model(field)) == message_fields(*message),
;

/// `MessageDescriptor::field_by_number` finds the last field that was added with a number.
pub assume_specification[ MessageDescriptor::field_by_number ](
    message: &MessageDescriptor,
    number: i32,
) -> (found: Option<&FieldDescriptor>)
    ensures
        found is Some <==> field_with_number(message_fields(*message), number) is Some,
        found matches Some(field) ==> field_model(*field) == message_fields(
            *message,
        )[field_with_number(message_fields(*message), number)->0],
;

/// `FieldDescriptor::name` is the name of a field.
pub assume_specification[ FieldDescriptor::name ](field: &FieldDescriptor) -> (name: &str)
    ensures
        name@ == field_model(*field).name,
;

/// `FieldDescriptor::field_label` is the label of a field.
pub assume_specification[ FieldDescriptor::field_label ](field: &FieldDescriptor) -> (label:
    FieldLabel)
    ensures
        label == field_model(*field).label,
;

/// `FieldDescriptor::default_value` is the default value of a field, if it has one.
pub assume_specification[ FieldDescriptor::default_value ](field: &FieldDescriptor) -> (default:
    Option<&Value>)
    ensures
        optional_wire_model(default) == field_model(*field).default,
;

/// `FieldDescriptor::field_type` is the type of a field, its references followed in the registry.
/// It panics where the type refers to a place that the registry does not have.
pub assume_specification<'a>[ FieldDescriptor::field_type ](
    field: &'a FieldDescriptor,
    descriptors: &'a Descriptors,
) -> (found: FieldType<'a>)
    requires
        registry(*descriptors).has_place(field_model(*field).declared),
    ensures
        resolved_type(found) == registry(*descriptors).resolve(field_model(*field).declared),
;

/// `EnumDescriptor::value_by_number` finds the value of an enum that has a number, if there is
/// one.
pub assume_specification[ EnumDescriptor::value_by_number ](
    descriptor: &EnumDescriptor,
    number: i32,
) -> (found: Option<&EnumValueDescriptor>)
    ensures
        found is Some <==> enum_names(*descriptor).contains_key(number),
;

/// `to_bits` of a single precision number gives its IEEE 754 encoding.
#[verifier::external_body]
pub(crate) fn wire_single_bits(value: &Value) -> (bits: u32)
    requires
        value is F32,
    ensures
        wire_model(*value) == WireModel::F32(bits),
{
    match value {
        Value::F32(single) => single.to_bits(),
        _ => 0,
    }
}

/// `to_bits` of a double precision number gives its IEEE 754 encoding.
#[verifier::external_body]
pub(crate) fn wire_double_bits(value: &Value) -> (bits: u64)
    requires
        value is F64,
    ensures
        wire_model(*value) == WireModel::F64(bits),
{
    match value {
        Value::F64(double) => double.to_bits(),
        _ => 0,
    }
}

/// `Message::fields` maps the numbers of the fields of an encoded message to what they hold; it is
/// walked in the order of the numbers.
#[verifier::external_body]
pub(crate) fn wire_entries(message: &Message) -> (entries: Vec<(&i32, &Field)>)
    ensures
        entries@.len() == wire_fields(*message).len(),
        forall|i: int|
            0 <= i < entries@.len() ==> (
            *(#[trigger] entries@[i]).0,
            wire_field_model(*entries@[i].1),
            ) == wire_fields(*message)[i],
{
    message.fields.iter().collect()
}

} // verus!
