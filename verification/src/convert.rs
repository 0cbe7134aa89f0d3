//! From decoded values to datums.
use crate::descriptor::field_model;
use crate::descriptor::message_fields;
use crate::descriptor::optional_wire_model;
use crate::descriptor::wire_double_bits;
use crate::descriptor::wire_model;
use crate::descriptor::wire_single_bits;
use crate::descriptor::FieldModel;
use crate::descriptor::WireModel;
use crate::dynamic::dynamic_model;
use crate::dynamic::find_value;
use crate::dynamic::lemma_entry_is_smaller;
use crate::dynamic::lemma_item_is_smaller;
use crate::dynamic::value_under;
use crate::dynamic::Dynamic;
use crate::dynamic::DynamicModel;
use crate::error::DecodeError;
use crate::error::DecodeErrorModel;
use crate::float::double_from_signed;
use crate::float::double_from_single;
use crate::float::double_from_unsigned;
use crate::float::nearest_double;
use crate::float::widened;
use crate::row::alternates;
use crate::row::bool_datum;
use crate::row::paired;
use crate::row::Datum;
use crate::row::DatumModel;
use crate::row::Row;
use crate::row::RowPacker;
use crate::row::Significand;
use serde_protobuf::descriptor::FieldDescriptor;
use serde_protobuf::descriptor::MessageDescriptor;
use serde_protobuf::value::Value as ProtoValue;
use vstd::prelude::*;

verus! {

/// The datum of a value that stands in an array or in a nested message, where every number is a
/// double.
pub open spec fn nested_datum(value: DynamicModel) -> Result<DatumModel, DecodeErrorModel>
    decreases value,
{
    match value {
        DynamicModel::Bool(b) => Ok(bool_datum(b)),
        DynamicModel::I8(n) => Ok(DatumModel::Float64(nearest_double(n as int))),
        DynamicModel::I16(n) => Ok(DatumModel::Float64(nearest_double(n as int))),
        DynamicModel::I32(n) => Ok(DatumModel::Float64(nearest_double(n as int))),
        DynamicModel::I64(n) => Ok(DatumModel::Float64(nearest_double(n as int))),
        DynamicModel::U8(n) => Ok(DatumModel::Float64(nearest_double(n as int))),
        DynamicModel::U16(n) => Ok(DatumModel::Float64(nearest_double(n as int))),
        DynamicModel::U32(n) => Ok(DatumModel::Float64(nearest_double(n as int))),
        DynamicModel::U64(n) => Ok(DatumModel::Float64(nearest_double(n as int))),
        DynamicModel::F32(bits) => Ok(DatumModel::Float64(widened(bits))),
        DynamicModel::F64(bits) => Ok(DatumModel::Float64(bits)),
        DynamicModel::String(text) => Ok(DatumModel::String(text)),
        DynamicModel::Bytes(_) => Err(DecodeErrorModel::NestedBytes),
        DynamicModel::Sequence(items) => match nested_items(items) {
            Ok(datums) => Ok(DatumModel::List(datums)),
            Err(error) => Err(error),
        },
        DynamicModel::Mapping(entries) => match nested_entries(entries) {
            Ok(datums) => Ok(DatumModel::Dict(datums)),
            Err(error) => Err(error),
        },
        _ => Err(DecodeErrorModel::UnsupportedNestedValue),
    }
}

/// The datums of the items of an array, or the error of the first item that has none.
pub open spec fn nested_items(items: Seq<DynamicModel>) -> Result<
    Seq<DatumModel>,
    DecodeErrorModel,
>
    decreases items,
{
    if items.len() == 0 {
        Ok(Seq::empty())
    } else {
        match nested_items(items.drop_last()) {
            Ok(datums) => match nested_datum(items.last()) {
                Ok(datum) => Ok(datums.push(datum)),
                Err(error) => Err(error),
            },
            Err(error) => Err(error),
        }
    }
}

/// The entries of the dict that a nested message becomes, or the error of the first entry that
/// has no place in it. Optional fields that are absent are left out.
pub open spec fn nested_entries(entries: Seq<(DynamicModel, DynamicModel)>) -> Result<
    Seq<(Seq<char>, DatumModel)>,
    DecodeErrorModel,
>
    decreases entries,
{
    if entries.len() == 0 {
        Ok(Seq::empty())
    } else {
        match nested_entries(entries.drop_last()) {
            Ok(datums) => match entries.last() {
                (DynamicModel::String(key), DynamicModel::Option(Some(content))) => match nested_datum(
                    *content,
                ) {
                    Ok(datum) => Ok(datums.push((key, datum))),
                    Err(error) => Err(error),
                },
                (DynamicModel::String(key), DynamicModel::Option(None)) => Ok(datums),
                (DynamicModel::String(key), DynamicModel::Sequence(items)) => match nested_items(
                    items,
                ) {
                    Ok(list) => Ok(datums.push((key, DatumModel::List(list)))),
                    Err(error) => Err(error),
                },
                _ => Err(DecodeErrorModel::UnrecognizedEntry),
            },
            Err(error) => Err(error),
        }
    }
}

/// The datum of a value that stands for itself in a column.
pub open spec fn top_datum(value: DynamicModel) -> Result<DatumModel, DecodeErrorModel> {
    match value {
        DynamicModel::Bool(b) => Ok(bool_datum(b)),
        DynamicModel::I8(n) => Ok(DatumModel::Int32(n as i32)),
        DynamicModel::I16(n) => Ok(DatumModel::Int32(n as i32)),
        DynamicModel::I32(n) => Ok(DatumModel::Int32(n)),
        DynamicModel::I64(n) => Ok(DatumModel::Int64(n)),
        DynamicModel::U8(n) => Ok(DatumModel::Int32(n as i32)),
        DynamicModel::U16(n) => Ok(DatumModel::Int32(n as i32)),
        DynamicModel::U32(n) => Ok(DatumModel::Decimal(n as i128)),
        DynamicModel::U64(n) => Ok(DatumModel::Decimal(n as i128)),
        DynamicModel::F32(bits) => Ok(DatumModel::Float32(bits)),
        DynamicModel::F64(bits) => Ok(DatumModel::Float64(bits)),
        DynamicModel::String(text) => Ok(DatumModel::String(text)),
        DynamicModel::Bytes(bytes) => Ok(DatumModel::Bytes(bytes)),
        DynamicModel::Sequence(_) | DynamicModel::Mapping(_) => nested_datum(value),
        DynamicModel::Char(_)
        | DynamicModel::Unit
        | DynamicModel::Option(_)
        | DynamicModel::Newtype(_) => Err(DecodeErrorModel::UnsupportedValue(value)),
    }
}

/// The datum of a default value.
pub open spec fn default_datum(value: WireModel) -> Result<DatumModel, DecodeErrorModel> {
    match value {
        WireModel::Bool(b) => Ok(bool_datum(b)),
        WireModel::I32(n) => Ok(DatumModel::Int32(n)),
        WireModel::I64(n) => Ok(DatumModel::Int64(n)),
        WireModel::U32(n) => Ok(DatumModel::Decimal(n as i128)),
        WireModel::U64(n) => Ok(DatumModel::Decimal(n as i128)),
        WireModel::F32(bits) => Ok(DatumModel::Float32(bits)),
        WireModel::F64(bits) => Ok(DatumModel::Float64(bits)),
        WireModel::Text(text) => Ok(DatumModel::String(text)),
        WireModel::Bytes(bytes) => Ok(DatumModel::Bytes(bytes)),
        WireModel::Enum(_) | WireModel::Nested(_) => Err(DecodeErrorModel::DefaultValue),
    }
}

/// The datum of a column: that of the field's value if the field is present or repeated, else
/// that of its default value, else null.
pub open spec fn column_datum(value: Option<DynamicModel>, default: Option<WireModel>) -> Result<
    DatumModel,
    DecodeErrorModel,
> {
    match value {
        Some(DynamicModel::Option(Some(content))) => top_datum(*content),
        Some(DynamicModel::Sequence(items)) => top_datum(DynamicModel::Sequence(items)),
        _ => match default {
            Some(default) => default_datum(default),
            None => Ok(DatumModel::Null),
        },
    }
}

/// The datums of the columns that fields become, each with the value under its name, or the error
/// of the first column that has no datum.
pub open spec fn row_datums(
    entries: Seq<(DynamicModel, DynamicModel)>,
    fields: Seq<FieldModel>,
) -> Result<Seq<DatumModel>, DecodeErrorModel>
    decreases fields.len(),
{
    if fields.len() == 0 {
        Ok(Seq::empty())
    } else {
        match row_datums(entries, fields.drop_last()) {
            Ok(datums) => match column_datum(
                value_under(entries, fields.last().name),
                fields.last().default,
            ) {
                Ok(datum) => Ok(datums.push(datum)),
                Err(error) => Err(error),
            },
            Err(error) => Err(error),
        }
    }
}

/// The row that a decoded message becomes.
pub open spec fn extracted(message: DynamicModel, fields: Seq<FieldModel>) -> Result<
    Seq<DatumModel>,
    DecodeErrorModel,
> {
    match message {
        DynamicModel::Mapping(entries) => row_datums(entries, fields),
        _ => Err(DecodeErrorModel::TopLevel),
    }
}

/// Whether an outcome is the row that is due, or the error that is due. There always is a row
/// where there is no error.
pub open spec fn is_outcome(
    due: Result<Seq<DatumModel>, DecodeErrorModel>,
    outcome: Result<Option<Row>, DecodeError>,
) -> bool {
    match due {
        Ok(datums) => outcome matches Ok(Some(row)) && row@ == datums,
        Err(error) => outcome matches Err(found) && found@ == error,
    }
}

/// What a packer gives back when a datum is to be appended to it, if there is a datum.
pub open spec fn packs(
    before: Seq<DatumModel>,
    datum: Result<DatumModel, DecodeErrorModel>,
    after: Result<RowPacker, DecodeError>,
) -> bool {
    match datum {
        Ok(datum) => after matches Ok(packer) && packer@ == before.push(datum),
        Err(error) => after matches Err(found) && found@ == error,
    }
}

/// Keys and values in turn.
pub open spec fn interleaved(entries: Seq<(Seq<char>, DatumModel)>) -> Seq<DatumModel> {
    Seq::new(
        2 * entries.len(),
        |i: int|
            if i % 2 == 0 {
                DatumModel::String(entries[i / 2].0)
            } else {
                entries[i / 2].1
            },
    )
}

/// Keys and values in turn can be closed into the dict that they came from.
proof fn lemma_interleaved(entries: Seq<(Seq<char>, DatumModel)>)
    ensures
        alternates(interleaved(entries)),
        paired(interleaved(entries)) == entries,
{
    let items = interleaved(entries);
    assert forall|i: int| 0 <= 2 * i < items.len() implies #[trigger] items[2 * i] is String by {
        assert((2 * i) % 2 == 0);
    }
    assert forall|i: int| 0 <= i < entries.len() implies paired(items)[i] == entries[i] by {
        assert((2 * i) % 2 == 0 && (2 * i) / 2 == i);
        assert((2 * i + 1) % 2 == 1 && (2 * i + 1) / 2 == i);
        assert(items[2 * i] == DatumModel::String(entries[i].0));
        assert(items[2 * i + 1] == entries[i].1);
    }
    assert(paired(items) =~= entries);
}

/// One more entry is one more key and one more value.
proof fn lemma_interleaved_push(
    entries: Seq<(Seq<char>, DatumModel)>,
    key: Seq<char>,
    datum: DatumModel,
)
    ensures
        interleaved(entries.push((key, datum))) == interleaved(entries).push(
            DatumModel::String(key),
        ).push(datum),
{
    assert(interleaved(entries.push((key, datum))) =~= interleaved(entries).push(
        DatumModel::String(key),
    ).push(datum));
}

/// An error among the first items is the error of them all.
proof fn lemma_items_error(items: Seq<DynamicModel>, n: int)
    requires
        0 <= n <= items.len(),
        nested_items(items.take(n)) is Err,
    ensures
        nested_items(items) == nested_items(items.take(n)),
    decreases items.len(),
{
    if n == items.len() {
        assert(items.take(n) =~= items);
    } else {
        assert(items.drop_last().take(n) =~= items.take(n));
        lemma_items_error(items.drop_last(), n);
    }
}

/// An error among the first entries is the error of them all.
proof fn lemma_entries_error(entries: Seq<(DynamicModel, DynamicModel)>, n: int)
    requires
        0 <= n <= entries.len(),
        nested_entries(entries.take(n)) is Err,
    ensures
        nested_entries(entries) == nested_entries(entries.take(n)),
    decreases entries.len(),
{
    if n == entries.len() {
        assert(entries.take(n) =~= entries);
    } else {
        assert(entries.drop_last().take(n) =~= entries.take(n));
        lemma_entries_error(entries.drop_last(), n);
    }
}

/// Appends the datum of a value that stands in an array or in a nested message.
pub fn json_nested_from_serde_value(val: &Dynamic, packer: RowPacker) -> (packed: Result<
    RowPacker,
    DecodeError,
>)
    ensures
        packs(packer@, nested_datum(val@), packed),
    decreases val@,
{
    let mut packer = packer;
    match val {
        Dynamic::Bool(b) => packer.push(
            if *b {
                Datum::True
            } else {
                Datum::False
            },
        ),
        Dynamic::I8(n) => packer.push(Datum::Float64(double_from_signed(*n as i64))),
        Dynamic::I16(n) => packer.push(Datum::Float64(double_from_signed(*n as i64))),
        Dynamic::I32(n) => packer.push(Datum::Float64(double_from_signed(*n as i64))),
        Dynamic::I64(n) => packer.push(Datum::Float64(double_from_signed(*n))),
        Dynamic::U8(n) => packer.push(Datum::Float64(double_from_unsigned(*n as u64))),
        Dynamic::U16(n) => packer.push(Datum::Float64(double_from_unsigned(*n as u64))),
        Dynamic::U32(n) => packer.push(Datum::Float64(double_from_unsigned(*n as u64))),
        Dynamic::U64(n) => packer.push(Datum::Float64(double_from_unsigned(*n))),
        Dynamic::F32(bits) => packer.push(Datum::Float64(double_from_single(*bits))),
        Dynamic::F64(bits) => packer.push(Datum::Float64(*bits)),
        Dynamic::String(text) => packer.push(Datum::String(text.clone())),
        Dynamic::Bytes(_) => {
            return Err(DecodeError::NestedBytes);
        },
        Dynamic::Sequence(items) => {
            let ghost models = val@->Sequence_0;
            let ghost before = packer@;
            let start = packer.start_list();
            let ghost mut datums: Seq<DatumModel> = Seq::empty();
            assert(before + datums =~= before);
            for i in 0..items.len()
                invariant
                    val@ == DynamicModel::Sequence(models),
                    models.len() == items@.len(),
                    forall|j: int| 0 <= j < items@.len() ==> (#[trigger] items@[j])@ == models[j],
                    nested_items(models.take(i as int)) == Ok::<_, DecodeErrorModel>(datums),
                    packer@ == before + datums,
            {
                let ghost item = models[i as int];
                proof {
                    lemma_item_is_smaller(val@, i as int);
                    assert(models.take(i + 1).drop_last() =~= models.take(i as int));
                    assert(models.take(i + 1).last() == item);
                }
                match json_nested_from_serde_value(&items[i], packer) {
                    Ok(filled) => {
                        packer = filled;
                    },
                    Err(error) => {
                        proof {
                            lemma_items_error(models, i + 1);
                        }
                        return Err(error);
                    },
                }
                proof {
                    let datum = nested_datum(item)->Ok_0;
                    assert((before + datums).push(datum) =~= before + datums.push(datum));
                    datums = datums.push(datum);
                }
            }
            proof {
                assert(models.take(models.len() as int) =~= models);
                assert(packer@.take(start as int) =~= before);
                assert(packer@.skip(start as int) =~= datums);
            }
            packer.finish_list(start);
        },
        Dynamic::Mapping(entries) => {
            let ghost models = val@->Mapping_0;
            let ghost before = packer@;
            let start = packer.start_dict();
            let ghost mut datums: Seq<(Seq<char>, DatumModel)> = Seq::empty();
            assert(before + interleaved(datums) =~= before);
            for i in 0..entries.len()
                invariant
                    val@ == DynamicModel::Mapping(models),
                    models.len() == entries@.len(),
                    forall|j: int|
                        0 <= j < entries@.len() ==> (
                        (#[trigger] entries@[j]).0@,
                        entries@[j].1@,
                        ) == models[j],
                    nested_entries(models.take(i as int)) == Ok::<_, DecodeErrorModel>(datums),
                    packer@ == before + interleaved(datums),
            {
                let ghost entry = models[i as int];
                proof {
                    lemma_entry_is_smaller(val@, i as int);
                    assert(models.take(i + 1).drop_last() =~= models.take(i as int));
                    assert(models.take(i + 1).last() == entry);
                }
                let name = &entries[i].0;
                let item = &entries[i].1;
                let content = match item {
                    Dynamic::Option(Some(content)) => Some(&**content),
                    Dynamic::Sequence(_) => Some(item),
                    _ => None,
                };
                match (name, item) {
                    (Dynamic::String(_), Dynamic::Option(None)) => {},
                    _ => match (name, content) {
                        (Dynamic::String(key), Some(content)) => {
                            packer.push(Datum::String(key.clone()));
                            match json_nested_from_serde_value(content, packer) {
                                Ok(filled) => {
                                    packer = filled;
                                },
                                Err(error) => {
                                    proof {
                                        lemma_entries_error(models, i + 1);
                                    }
                                    return Err(error);
                                },
                            }
                            proof {
                                let datum = nested_datum(content@)->Ok_0;
                                lemma_interleaved_push(datums, key@, datum);
                                assert((before + interleaved(datums)).push(
                                    DatumModel::String(key@),
                                ).push(datum) =~= before + interleaved(
                                    datums.push((key@, datum)),
                                ));
                                datums = datums.push((key@, datum));
                            }
                        },
                        _ => {
                            proof {
                                lemma_entries_error(models, i + 1);
                            }
                            return Err(DecodeError::UnrecognizedEntry);
                        },
                    },
                }
            }
            proof {
                assert(models.take(models.len() as int) =~= models);
                assert(packer@.take(start as int) =~= before);
                assert(packer@.skip(start as int) =~= interleaved(datums));
                lemma_interleaved(datums);
            }
            packer.finish_dict(start);
        },
        _ => {
            return Err(DecodeError::UnsupportedNestedValue);
        },
    }
    Ok(packer)
}

/// Appends the datum of a value that stands for itself in a column, possibly a document.
///
/// Top-level values become equivalent datums. In a nested value all numbers become doubles.
pub fn json_from_serde_value(val: &Dynamic, packer: RowPacker) -> (packed: Result<
    RowPacker,
    DecodeError,
>)
    ensures
        packs(packer@, top_datum(val@), packed),
{
    let mut packer = packer;
    let datum = match val {
        Dynamic::Bool(b) => if *b {
            Datum::True
        } else {
            Datum::False
        },
        Dynamic::I8(n) => Datum::Int32(*n as i32),
        Dynamic::I16(n) => Datum::Int32(*n as i32),
        Dynamic::I32(n) => Datum::Int32(*n),
        Dynamic::I64(n) => Datum::Int64(*n),
        Dynamic::U8(n) => Datum::Int32(*n as i32),
        Dynamic::U16(n) => Datum::Int32(*n as i32),
        Dynamic::U32(n) => Datum::Decimal(Significand::new(*n as i128)),
        Dynamic::U64(n) => Datum::Decimal(Significand::new(*n as i128)),
        Dynamic::F32(bits) => Datum::Float32(*bits),
        Dynamic::F64(bits) => Datum::Float64(*bits),
        Dynamic::String(text) => Datum::String(text.clone()),
        Dynamic::Bytes(bytes) => Datum::Bytes(bytes.clone()),
        Dynamic::Sequence(_) | Dynamic::Mapping(_) => {
            return json_nested_from_serde_value(val, packer);
        },
        Dynamic::Char(_) | Dynamic::Unit | Dynamic::Option(_) | Dynamic::Newtype(_) => {
            return Err(DecodeError::UnsupportedValue(val.clone()));
        },
    };
    packer.push(datum);
    Ok(packer)
}

/// Finds the datum of a default value.
pub fn datum_from_serde_proto(val: &ProtoValue) -> (found: Result<Datum, DecodeError>)
    ensures
        match default_datum(wire_model(*val)) {
            Ok(datum) => found matches Ok(found) && found@ == datum,
            Err(error) => found matches Err(found) && found@ == error,
        },
{
    match val {
        ProtoValue::Bool(b) => Ok(
            if *b {
                Datum::True
            } else {
                Datum::False
            },
        ),
        ProtoValue::I32(n) => Ok(Datum::Int32(*n)),
        ProtoValue::I64(n) => Ok(Datum::Int64(*n)),
        ProtoValue::U32(n) => Ok(Datum::Decimal(Significand::new(*n as i128))),
        ProtoValue::U64(n) => Ok(Datum::Decimal(Significand::new(*n as i128))),
        ProtoValue::F32(_) => Ok(Datum::Float32(wire_single_bits(val))),
        ProtoValue::F64(_) => Ok(Datum::Float64(wire_double_bits(val))),
        ProtoValue::String(text) => Ok(Datum::String(text.clone())),
        ProtoValue::Bytes(bytes) => Ok(Datum::Bytes(bytes.clone())),
        _ => Err(DecodeError::DefaultValue),
    }
}

/// What a value that may be missing stands for.
pub open spec fn value_model(value: Option<&Dynamic>) -> Option<DynamicModel> {
    match value {
        Some(value) => Some(value@),
        None => None,
    }
}

/// Appends the datum of a column, given the value that was decoded under the name of its field and
/// the default value of the field.
pub fn pack_column(
    value: Option<&Dynamic>,
    default: Option<&ProtoValue>,
    packer: RowPacker,
) -> (packed: Result<RowPacker, DecodeError>)
    ensures
        packs(packer@, column_datum(value_model(value), optional_wire_model(default)), packed),
{
    let mut packer = packer;
    match value {
        Some(Dynamic::Option(Some(content))) => {
            return json_from_serde_value(&**content, packer);
        },
        Some(Dynamic::Sequence(items)) => {
            return json_from_serde_value(value.unwrap(), packer);
        },
        _ => {},
    }
    match default {
        Some(default) => match datum_from_serde_proto(default) {
            Ok(datum) => packer.push(datum),
            Err(error) => {
                return Err(error);
            },
        },
        None => packer.push(Datum::Null),
    }
    Ok(packer)
}

/// An error among the first columns is the error of them all.
proof fn lemma_row_error(
    entries: Seq<(DynamicModel, DynamicModel)>,
    fields: Seq<FieldModel>,
    n: int,
)
    requires
        0 <= n <= fields.len(),
        row_datums(entries, fields.take(n)) is Err,
    ensures
        row_datums(entries, fields) == row_datums(entries, fields.take(n)),
    decreases fields.len(),
{
    if n == fields.len() {
        assert(fields.take(n) =~= fields);
    } else {
        assert(fields.drop_last().take(n) =~= fields.take(n));
        lemma_row_error(entries, fields.drop_last(), n);
    }
}

/// Turns a decoded message into a row, one datum for each field of its type.
pub fn extract_row(deserialized_message: Dynamic, message_descriptors: &MessageDescriptor) -> (row:
    Result<Option<Row>, DecodeError>)
    ensures
        is_outcome(extracted(deserialized_message@, message_fields(*message_descriptors)), row),
{
    let ghost message = deserialized_message@;
    let entries = match deserialized_message {
        Dynamic::Mapping(entries) => entries,
        _ => {
            return Err(DecodeError::TopLevel);
        },
    };
    let ghost models = message->Mapping_0;
    let ghost fields = message_fields(*message_descriptors);
    let mut packer = RowPacker::new();
    let descriptors = message_descriptors.fields();
    for index in 0..descriptors.len()
        invariant
            message == deserialized_message@,
            message == DynamicModel::Mapping(models),
            models == dynamic_model(Dynamic::Mapping(entries))->Mapping_0,
            fields == message_fields(*message_descriptors),
            descriptors@.map_values(|field: FieldDescriptor| field_model(field)) == fields,
            row_datums(models, fields.take(index as int)) == Ok::<_, DecodeErrorModel>(packer@),
    {
        proof {
            assert(fields.take(index + 1).drop_last() =~= fields.take(index as int));
            assert(fields.take(index + 1).last() == fields[index as int]);
            assert(field_model(descriptors@[index as int]) == fields[index as int]);
        }
        let field = &descriptors[index];
        match pack_column(find_value(&entries, field.name()), field.default_value(), packer) {
            Ok(filled) => {
                packer = filled;
            },
            Err(error) => {
                proof {
                    lemma_row_error(models, fields, index + 1);
                }
                return Err(error);
            },
        }
    }
    assert(fields.take(fields.len() as int) =~= fields);
    Ok(Some(packer.finish()))
}

} // verus!
