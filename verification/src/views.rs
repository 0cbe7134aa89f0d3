//! What the views of the types hold: all that the values hold, and nothing else.
use crate::convert::value_model;
use crate::decoder::DecoderModel;
use crate::describe::debug_text;
use crate::describe::described;
use crate::describe::described_entries;
use crate::describe::described_items;
use crate::descriptor::enum_names;
use crate::descriptor::message_fields;
use crate::descriptor::optional_wire_model;
use crate::descriptor::resolved_type;
use crate::descriptor::wire_field_model;
use crate::descriptor::wire_fields;
use crate::descriptor::wire_model;
use crate::descriptor::ResolvedType;
use crate::descriptor::WireFieldModel;
use crate::descriptor::WireModel;
use crate::dynamic::Dynamic;
use crate::dynamic::DynamicModel;
use crate::error::DecodeError;
use crate::error::DecodeErrorModel;
use crate::error::SchemaError;
use crate::error::SchemaErrorModel;
use crate::relation::name_model;
use crate::relation::ColumnModel;
use crate::relation::RelationDesc;
use crate::row::alternates;
use crate::row::datum_models;
use crate::row::paired;
use crate::row::Datum;
use crate::row::DatumModel;
use crate::schema::relation_model;
use crate::schema::relation_of;
use crate::schema::settles;
use crate::schema::ColumnRule;
use crate::schema::ColumnRuleModel;
use crate::schema::NestedRule;
use crate::schema::NestedRuleModel;
use crate::serde_bridge::map_entries;
use crate::serde_bridge::serde_model;
use crate::wire::deserialized_message;
use crate::wire::parsed_message;
use serde_protobuf::descriptor::FieldType;
use serde_protobuf::value::Field as ProtoField;
use serde_protobuf::value::Value as ProtoValue;
use serde_value::Value as SerdeValue;
use vstd::float::FloatBitsProperties;
use vstd::prelude::*;

verus! {

/// The view of a datum holds what the datum holds.
pub proof fn law_datum_views(datum: Datum)
    ensures
        match datum {
            Datum::Null => datum@ is Null,
            Datum::True => datum@ is True,
            Datum::False => datum@ is False,
            Datum::Int32(n) => datum@ == DatumModel::Int32(n),
            Datum::Int64(n) => datum@ == DatumModel::Int64(n),
            Datum::Float32(bits) => datum@ == DatumModel::Float32(bits),
            Datum::Float64(bits) => datum@ == DatumModel::Float64(bits),
            Datum::Decimal(significand) => datum@ == DatumModel::Decimal(significand@),
            Datum::Bytes(bytes) => datum@ == DatumModel::Bytes(bytes@),
            Datum::String(text) => datum@ == DatumModel::String(text@),
            Datum::List(items) => datum@ matches DatumModel::List(models) && models.len()
                == items@.len() && forall|i: int|
                0 <= i < items@.len() ==> models[i] == (#[trigger] items@[i])@,
            Datum::Dict(entries) => datum@ matches DatumModel::Dict(models) && models.len()
                == entries@.len() && forall|i: int|
                0 <= i < entries@.len() ==> models[i] == (
                    (#[trigger] entries@[i]).0@,
                    entries@[i].1@,
                ),
        },
{
}

/// The view of a run of datums holds the view of each of them.
pub proof fn law_datum_run_views(datums: Seq<Datum>)
    ensures
        datum_models(datums).len() == datums.len(),
        forall|i: int|
            0 <= i < datums.len() ==> datum_models(datums)[i] == (#[trigger] datums[i])@,
{
}

/// A run of keys and values in turn makes up as many entries as it has pairs, each with its key and
/// its value; and what is not such a run makes up none.
pub proof fn law_pairs_hold_keys_and_values(items: Seq<DatumModel>)
    ensures
        alternates(items) ==> 2 * paired(items).len() == items.len() && forall|i: int|
            0 <= i < paired(items).len() ==> items[2 * i] == DatumModel::String(
                (#[trigger] paired(items)[i]).0,
            ) && items[2 * i + 1] == paired(items)[i].1,
        alternates(items) <==> items.len() % 2 == 0 && forall|i: int|
            0 <= i < items.len() && i % 2 == 0 ==> #[trigger] items[i] is String,
{
    if alternates(items) {
        assert forall|i: int| 0 <= i < items.len() && i % 2 == 0 implies #[trigger] items[i]
            is String by {
            assert(items[2 * (i / 2)] is String);
        }
    }
    if items.len() % 2 == 0 && forall|i: int|
        0 <= i < items.len() && i % 2 == 0 ==> #[trigger] items[i] is String {
        assert forall|i: int| 0 <= 2 * i < items.len() implies #[trigger] items[2 * i]
            is String by {
            assert((2 * i) % 2 == 0);
        }
    }
}

/// The view of a self-describing value holds what the value holds.
pub proof fn law_dynamic_views(value: Dynamic)
    ensures
        match value {
            Dynamic::Bool(b) => value@ == DynamicModel::Bool(b),
            Dynamic::U8(n) => value@ == DynamicModel::U8(n),
            Dynamic::U16(n) => value@ == DynamicModel::U16(n),
            Dynamic::U32(n) => value@ == DynamicModel::U32(n),
            Dynamic::U64(n) => value@ == DynamicModel::U64(n),
            Dynamic::I8(n) => value@ == DynamicModel::I8(n),
            Dynamic::I16(n) => value@ == DynamicModel::I16(n),
            Dynamic::I32(n) => value@ == DynamicModel::I32(n),
            Dynamic::I64(n) => value@ == DynamicModel::I64(n),
            Dynamic::F32(bits) => value@ == DynamicModel::F32(bits),
            Dynamic::F64(bits) => value@ == DynamicModel::F64(bits),
            Dynamic::Char(c) => value@ == DynamicModel::Char(c),
            Dynamic::String(text) => value@ == DynamicModel::String(text@),
            Dynamic::Unit => value@ is Unit,
            Dynamic::Option(None) => value@ == DynamicModel::Option(None),
            Dynamic::Option(Some(content)) => value@ matches DynamicModel::Option(Some(model))
                && *model == content@,
            Dynamic::Newtype(content) => value@ matches DynamicModel::Newtype(model) && *model
                == content@,
            Dynamic::Sequence(items) => value@ matches DynamicModel::Sequence(models)
                && models.len() == items@.len() && forall|i: int|
                0 <= i < items@.len() ==> models[i] == (#[trigger] items@[i])@,
            Dynamic::Mapping(entries) => value@ matches DynamicModel::Mapping(models)
                && models.len() == entries@.len() && forall|i: int|
                0 <= i < entries@.len() ==> models[i] == (
                    (#[trigger] entries@[i]).0@,
                    entries@[i].1@,
                ),
            Dynamic::Bytes(bytes) => value@ == DynamicModel::Bytes(bytes@),
        },
{
}

/// What a value of `serde_value` stands for holds what the value holds; so reading it keeps it.
pub proof fn law_serde_views(value: SerdeValue)
    ensures
        match value {
            SerdeValue::Bool(b) => serde_model(value) == DynamicModel::Bool(b),
            SerdeValue::U8(n) => serde_model(value) == DynamicModel::U8(n),
            SerdeValue::U16(n) => serde_model(value) == DynamicModel::U16(n),
            SerdeValue::U32(n) => serde_model(value) == DynamicModel::U32(n),
            SerdeValue::U64(n) => serde_model(value) == DynamicModel::U64(n),
            SerdeValue::I8(n) => serde_model(value) == DynamicModel::I8(n),
            SerdeValue::I16(n) => serde_model(value) == DynamicModel::I16(n),
            SerdeValue::I32(n) => serde_model(value) == DynamicModel::I32(n),
            SerdeValue::I64(n) => serde_model(value) == DynamicModel::I64(n),
            SerdeValue::F32(single) => serde_model(value) == DynamicModel::F32(
                single.to_bits_spec(),
            ),
            SerdeValue::F64(double) => serde_model(value) == DynamicModel::F64(
                double.to_bits_spec(),
            ),
            SerdeValue::Char(c) => serde_model(value) == DynamicModel::Char(c),
            SerdeValue::String(text) => serde_model(value) == DynamicModel::String(text@),
            SerdeValue::Unit => serde_model(value) is Unit,
            SerdeValue::Option(None) => serde_model(value) == DynamicModel::Option(None),
            SerdeValue::Option(Some(content)) => serde_model(value) matches DynamicModel::Option(
                Some(model),
            ) && *model == serde_model(*content),
            SerdeValue::Newtype(content) => serde_model(value) matches DynamicModel::Newtype(model)
                && *model == serde_model(*content),
            SerdeValue::Seq(items) => serde_model(value) matches DynamicModel::Sequence(models)
                && models.len() == items@.len() && forall|i: int|
                0 <= i < items@.len() ==> models[i] == serde_model(#[trigger] items@[i]),
            SerdeValue::Map(map) => serde_model(value) == DynamicModel::Mapping(map_entries(map)),
            SerdeValue::Bytes(bytes) => serde_model(value) == DynamicModel::Bytes(bytes@),
        },
{
}

/// What a value of an encoded message stands for holds what the value holds.
pub proof fn law_wire_views(value: ProtoValue)
    ensures
        match value {
            ProtoValue::Bool(b) => wire_model(value) == WireModel::Bool(b),
            ProtoValue::I32(n) => wire_model(value) == WireModel::I32(n),
            ProtoValue::I64(n) => wire_model(value) == WireModel::I64(n),
            ProtoValue::U32(n) => wire_model(value) == WireModel::U32(n),
            ProtoValue::U64(n) => wire_model(value) == WireModel::U64(n),
            ProtoValue::F32(single) => wire_model(value) == WireModel::F32(single.to_bits_spec()),
            ProtoValue::F64(double) => wire_model(value) == WireModel::F64(double.to_bits_spec()),
            ProtoValue::Bytes(bytes) => wire_model(value) == WireModel::Bytes(bytes@),
            ProtoValue::String(text) => wire_model(value) == WireModel::Text(text@),
            ProtoValue::Enum(number) => wire_model(value) == WireModel::Enum(number),
            ProtoValue::Message(message) => wire_model(value) == WireModel::Nested(
                wire_fields(message),
            ),
        },
        optional_wire_model(Some(&value)) == Some(wire_model(value)),
        optional_wire_model(None) is None,
{
}

/// What a field of an encoded message stands for holds what the field holds.
pub proof fn law_wire_field_views(field: ProtoField)
    ensures
        match field {
            ProtoField::Singular(None) => wire_field_model(field) == WireFieldModel::Singular(None),
            ProtoField::Singular(Some(value)) => wire_field_model(field)
                == WireFieldModel::Singular(Some(wire_model(value))),
            ProtoField::Repeated(values) => wire_field_model(field)
                matches WireFieldModel::Repeated(models) && models.len() == values@.len()
                && forall|i: int|
                0 <= i < values@.len() ==> models[i] == wire_model(#[trigger] values@[i]),
        },
{
}

/// A type that a look-up hands out stands for itself: two scalar types for two kinds.
pub proof fn law_type_views(field_type: FieldType)
    ensures
        field_type is UnresolvedMessage <==> resolved_type(field_type) is UnresolvedMessage,
        field_type is UnresolvedEnum <==> resolved_type(field_type) is UnresolvedEnum,
        field_type is Message <==> resolved_type(field_type) is Message,
        field_type is Enum <==> resolved_type(field_type) is Enum,
        resolved_type(field_type) matches ResolvedType::Scalar(kind) ==> {
            &&& kind is Double <==> field_type is Double
            &&& kind is Float <==> field_type is Float
            &&& kind is Int64 <==> field_type is Int64
            &&& kind is UInt64 <==> field_type is UInt64
            &&& kind is Int32 <==> field_type is Int32
            &&& kind is Fixed64 <==> field_type is Fixed64
            &&& kind is Fixed32 <==> field_type is Fixed32
            &&& kind is Bool <==> field_type is Bool
            &&& kind is Text <==> field_type is String
            &&& kind is Group <==> field_type is Group
            &&& kind is Bytes <==> field_type is Bytes
            &&& kind is UInt32 <==> field_type is UInt32
            &&& kind is SFixed32 <==> field_type is SFixed32
            &&& kind is SFixed64 <==> field_type is SFixed64
            &&& kind is SInt32 <==> field_type is SInt32
            &&& kind is SInt64 <==> field_type is SInt64
        },
        field_type matches FieldType::Message(message) ==> resolved_type(field_type)
            == ResolvedType::Message(message_fields(*message)),
        field_type matches FieldType::Enum(descriptor) ==> resolved_type(field_type)
            == ResolvedType::Enum(enum_names(*descriptor)),
        field_type matches FieldType::UnresolvedMessage(name) ==> resolved_type(field_type)
            == ResolvedType::UnresolvedMessage(name@),
        field_type matches FieldType::UnresolvedEnum(name) ==> resolved_type(field_type)
            == ResolvedType::UnresolvedEnum(name@),
{
}

/// A value that may be missing is missing in its view if and only if it is.
pub proof fn law_optional_views(value: Option<&Dynamic>, name: Option<String>)
    ensures
        value_model(value) is None <==> value is None,
        value matches Some(value) ==> value_model(Some(value)) == Some(value@),
        name_model(name) is None <==> name is None,
        name matches Some(text) ==> name_model(Some(text)) == Some(text@),
{
}

/// The view of what is wrong with a schema is the same error with the same name.
pub proof fn law_schema_error_views(error: SchemaError)
    ensures
        match error {
            SchemaError::RequiredField(name) => error@ == SchemaErrorModel::RequiredField(name@),
            SchemaError::Group => error@ is Group,
            SchemaError::UnresolvedMessage(name) => error@ == SchemaErrorModel::UnresolvedMessage(
                name@,
            ),
            SchemaError::UnresolvedEnum(name) => error@ == SchemaErrorModel::UnresolvedEnum(name@),
            SchemaError::NestedBytes => error@ is NestedBytes,
            SchemaError::NestedUnresolvedMessage(name) => error@
                == SchemaErrorModel::NestedUnresolvedMessage(name@),
            SchemaError::NestedUnresolvedEnum(name) => error@
                == SchemaErrorModel::NestedUnresolvedEnum(name@),
        },
{
}

/// The view of what is wrong with a message is the same error with the same value.
pub proof fn law_decode_error_views(error: DecodeError)
    ensures
        match error {
            DecodeError::TopLevel => error@ is TopLevel,
            DecodeError::DefaultValue => error@ is DefaultValue,
            DecodeError::UnsupportedValue(value) => error@ == DecodeErrorModel::UnsupportedValue(
                value@,
            ),
            DecodeError::NestedBytes => error@ is NestedBytes,
            DecodeError::UnrecognizedEntry => error@ is UnrecognizedEntry,
            DecodeError::UnsupportedNestedValue => error@ is UnsupportedNestedValue,
        },
{
}

/// The views of what becomes of a field say the same.
pub proof fn law_rule_views(nested: NestedRule, column: ColumnRule)
    ensures
        match nested {
            NestedRule::Accept => nested@ is Accept,
            NestedRule::Descend => nested@ is Descend,
            NestedRule::Refuse(error) => nested@ == NestedRuleModel::Refuse(error@),
        },
        match column {
            ColumnRule::Plain(scalar_type) => column@ == ColumnRuleModel::Plain(scalar_type),
            ColumnRule::Array => column@ is Array,
            ColumnRule::Document => column@ is Document,
            ColumnRule::Refuse(error) => column@ == ColumnRuleModel::Refuse(error@),
        },
{
}

/// The view of a validated message type is its relation or what is wrong with it.
pub proof fn law_relation_views(validated: Result<RelationDesc, SchemaError>)
    ensures
        match validated {
            Ok(desc) => relation_model(validated) == Ok::<Seq<ColumnModel>, SchemaErrorModel>(
                desc@,
            ),
            Err(error) => relation_model(validated) == Err::<Seq<ColumnModel>, SchemaErrorModel>(
                error@,
            ),
        },
{
}

/// A decoder reads messages of the type that goes by its name in its registry.
pub proof fn law_decoder_views(decoder: DecoderModel, bytes: Seq<u8>)
    ensures
        decoder.knows_message() <==> decoder.registry.message_ids.dom().contains(
            decoder.message_name,
        ),
        decoder.fields() == decoder.registry.messages[decoder.registry.message_ids[
            decoder.message_name
        ] as int],
        decoder.parsed(bytes) == parsed_message(decoder.registry, decoder.fields(), bytes),
        decoder.deserialized(bytes) == deserialized_message(
            decoder.registry,
            decoder.fields(),
            bytes,
        ),
        decoder.is_valid() <==> decoder.knows_message() && settles(
            decoder.registry,
            decoder.fields(),
        ) && relation_of(decoder.registry, decoder.fields()) is Ok,
{
}

/// What is told about a schema names the field or the type that is at fault, whatever its name.
pub proof fn law_schema_messages_name_what_is_wrong(name: Seq<char>)
    ensures
        SchemaErrorModel::RequiredField(name).message() == "Required field "@ + name
            + " not supported"@,
        SchemaErrorModel::UnresolvedMessage(name).message() == "Unresolved message "@ + name
            + " not supported"@,
        SchemaErrorModel::UnresolvedEnum(name).message() == "Unresolved enum "@ + name
            + " not supported"@,
        SchemaErrorModel::NestedUnresolvedMessage(name).message() == "Nested message type "@ + name
            + " unresolved"@,
        SchemaErrorModel::NestedUnresolvedEnum(name).message() == "Unresolved enum type "@ + name,
        SchemaErrorModel::Group.message() == "Unions are currently not supported"@,
        SchemaErrorModel::NestedBytes.message()
            == "Arrays or nested messages with bytes objects are not currently supported"@,
{
}

/// What is told about a message ends with the value that is at fault, whatever the value.
pub proof fn law_decode_messages_show_the_value(value: DynamicModel)
    ensures
        DecodeErrorModel::UnsupportedValue(value).message()
            == "Unsupported type for Datum from serde_value::Value: "@ + described(value),
        DecodeErrorModel::TopLevel.message()
            == "Deserialization failed with an unsupported top level object type"@,
        DecodeErrorModel::DefaultValue.message()
            == "Unsupported type for Datum from serde_protobuf::Value"@,
        DecodeErrorModel::NestedBytes.message()
            == "We don't currently support arrays or nested messages with bytes"@,
        DecodeErrorModel::UnrecognizedEntry.message()
            == "Unrecognized value while trying to parse a nested message"@,
        DecodeErrorModel::UnsupportedNestedValue.message()
            == "Unsupported types from serde_value"@,
{
}

/// The text of a value holds the texts of all that it is made of, in order, and plain values are
/// told as `serde_value` tells them.
pub proof fn law_descriptions_nest(value: DynamicModel)
    ensures
        match value {
            DynamicModel::Unit => described(value) == "Unit"@,
            DynamicModel::Option(None) => described(value) == "Option(None)"@,
            DynamicModel::Option(Some(content)) => described(value) == "Option(Some("@ + described(
                *content,
            ) + "))"@,
            DynamicModel::Newtype(content) => described(value) == "Newtype("@ + described(*content)
                + ")"@,
            DynamicModel::Sequence(items) => described(value) == "Seq(["@ + described_items(items)
                + "])"@,
            DynamicModel::Mapping(entries) => described(value) == "Map({"@ + described_entries(
                entries,
            ) + "})"@,
            _ => described(value) == debug_text(value),
        },
{
}

/// One more item adds its text to the text of the items, after a comma unless it is the first; and
/// so does one more entry, its key and its value with a colon between them.
pub proof fn law_descriptions_are_joined_by_commas(
    items: Seq<DynamicModel>,
    item: DynamicModel,
    entries: Seq<(DynamicModel, DynamicModel)>,
    entry: (DynamicModel, DynamicModel),
)
    ensures
        described_items(Seq::empty()) == Seq::<char>::empty(),
        described_items(seq![item]) == described(item),
        items.len() > 0 ==> described_items(items.push(item)) == described_items(items) + ", "@
            + described(item),
        described_entries(Seq::empty()) == Seq::<char>::empty(),
        described_entries(seq![entry]) == described(entry.0) + ": "@ + described(entry.1),
        entries.len() > 0 ==> described_entries(entries.push(entry)) == described_entries(entries)
            + ", "@ + (described(entry.0) + ": "@ + described(entry.1)),
{
    assert(items.push(item).drop_last() =~= items);
    assert(entries.push(entry).drop_last() =~= entries);
    assert(seq![item].last() == item);
    assert(seq![entry].last() == entry);
}

} // verus!
