//! What values, datums and texts mean, said of each value for itself.
//!
//! A datum has to stand for what its value stands for: the statements here say so in terms of the
//! numbers and texts themselves.
use crate::convert::column_datum;
use crate::convert::default_datum;
use crate::convert::extracted;
use crate::convert::is_outcome;
use crate::convert::nested_datum;
use crate::convert::nested_entries;
use crate::convert::nested_items;
use crate::convert::packs;
use crate::convert::row_datums;
use crate::convert::top_datum;
use crate::descriptor::FieldModel;
use crate::descriptor::WireModel;
use crate::dynamic::value_under;
use crate::dynamic::DynamicModel;
use crate::error::DecodeError;
use crate::error::DecodeErrorModel;
use crate::float::double_exponent;
use crate::float::double_fraction;
use crate::float::double_is_finite;
use crate::float::double_value;
use crate::float::law_nearest_double;
use crate::float::law_widening_keeps_the_number;
use crate::float::rounds_to;
use crate::float::single_exponent;
use crate::float::single_fraction;
use crate::float::single_value;
use crate::row::DatumModel;
use crate::row::Row;
use crate::row::RowPacker;
use vstd::arithmetic::power2::pow2;
use vstd::prelude::*;

verus! {

/// The whole number that a value stands for, if it stands for one.
pub open spec fn number_of(value: DynamicModel) -> Option<int> {
    match value {
        DynamicModel::I8(n) => Some(n as int),
        DynamicModel::I16(n) => Some(n as int),
        DynamicModel::I32(n) => Some(n as int),
        DynamicModel::I64(n) => Some(n as int),
        DynamicModel::U8(n) => Some(n as int),
        DynamicModel::U16(n) => Some(n as int),
        DynamicModel::U32(n) => Some(n as int),
        DynamicModel::U64(n) => Some(n as int),
        _ => None,
    }
}

/// The whole number that a value of an encoded message stands for, if it stands for one.
pub open spec fn number_sent(value: WireModel) -> Option<int> {
    match value {
        WireModel::I32(n) => Some(n as int),
        WireModel::I64(n) => Some(n as int),
        WireModel::U32(n) => Some(n as int),
        WireModel::U64(n) => Some(n as int),
        _ => None,
    }
}

/// The whole number that a datum stands for, if it stands for one.
pub open spec fn number_shown(datum: DatumModel) -> Option<int> {
    match datum {
        DatumModel::Int32(n) => Some(n as int),
        DatumModel::Int64(n) => Some(n as int),
        DatumModel::Decimal(n) => Some(n as int),
        _ => None,
    }
}

/// Whether a double is the one that a whole number becomes: the nearest one, with the number's
/// sign.
pub open spec fn is_nearest(n: int, bits: u64) -> bool {
    rounds_to(n, bits) && (bits < 0x8000_0000_0000_0000 <==> n >= 0)
}

/// Whether a double stands for the same as a single: the same number, the infinity of the same
/// sign, or no number.
pub open spec fn is_same_number(single: u32, double: u64) -> bool {
    if single_exponent(single) < 255 {
        &&& double_is_finite(double)
        &&& double_value(double) == single_value(single) * pow2(925)
        &&& single < 0x8000_0000 <==> double < 0x8000_0000_0000_0000
    } else if single_fraction(single) == 0 {
        &&& double_exponent(double) == 2047
        &&& double_fraction(double) == 0
        &&& single < 0x8000_0000 <==> double < 0x8000_0000_0000_0000
    } else {
        double_exponent(double) == 2047 && double_fraction(double) != 0
    }
}

/// Whether a datum shows a scalar value for itself: the same truth value, number, text or bytes.
pub open spec fn is_shown_as(value: WireModel, datum: DatumModel) -> bool {
    match value {
        WireModel::Bool(b) => if b {
            datum is True
        } else {
            datum is False
        },
        WireModel::I32(_) => datum is Int32 && number_shown(datum) == number_sent(value),
        WireModel::I64(_) => datum is Int64 && number_shown(datum) == number_sent(value),
        WireModel::U32(_) | WireModel::U64(_) => datum is Decimal && number_shown(datum)
            == number_sent(value),
        WireModel::F32(bits) => datum == DatumModel::Float32(bits),
        WireModel::F64(bits) => datum == DatumModel::Float64(bits),
        WireModel::Bytes(bytes) => datum == DatumModel::Bytes(bytes),
        WireModel::Text(text) => datum == DatumModel::String(text),
        WireModel::Enum(_) | WireModel::Nested(_) => false,
    }
}

/// Whether a datum shows a scalar value in a document: the same truth value or text, or a number as
/// a double.
pub open spec fn is_nested_as(value: WireModel, datum: DatumModel) -> bool {
    match value {
        WireModel::Bool(b) => if b {
            datum is True
        } else {
            datum is False
        },
        WireModel::I32(_) | WireModel::I64(_) | WireModel::U32(_) | WireModel::U64(_) =>
            datum matches DatumModel::Float64(bits) && is_nearest(number_sent(value)->0, bits),
        WireModel::F32(single) => datum matches DatumModel::Float64(bits) && is_same_number(
            single,
            bits,
        ),
        WireModel::F64(bits) => datum == DatumModel::Float64(bits),
        WireModel::Text(text) => datum == DatumModel::String(text),
        WireModel::Bytes(_) | WireModel::Enum(_) | WireModel::Nested(_) => false,
    }
}

/// A top-level value becomes a datum that stands for the same: whole numbers of up to 16 bits and
/// signed ones of 32 become `Int32`, signed ones of 64 bits `Int64`, unsigned ones of 32 and 64
/// bits decimals, and the number is the same. Truth values, floating point numbers, texts and bytes
/// stay what they are. Arrays and messages become documents, and all else is refused.
pub proof fn law_top_level_values_keep_their_meaning(value: DynamicModel)
    ensures
        number_of(value) is Some ==> (top_datum(value) matches Ok(datum) && {
            &&& number_shown(datum) == number_of(value)
            &&& datum is Int64 <==> value is I64
            &&& datum is Decimal <==> value is U32 || value is U64
        }),
        value matches DynamicModel::Bool(b) ==> (top_datum(value) matches Ok(datum) && (if b {
            datum is True
        } else {
            datum is False
        })),
        value matches DynamicModel::F32(bits) ==> (top_datum(value) matches Ok(
            DatumModel::Float32(shown),
        ) && shown == bits),
        value matches DynamicModel::F64(bits) ==> (top_datum(value) matches Ok(
            DatumModel::Float64(shown),
        ) && shown == bits),
        value matches DynamicModel::String(text) ==> (top_datum(value) matches Ok(
            DatumModel::String(shown),
        ) && shown == text),
        value matches DynamicModel::Bytes(bytes) ==> (top_datum(value) matches Ok(
            DatumModel::Bytes(shown),
        ) && shown == bytes),
        value is Sequence || value is Mapping ==> top_datum(value) == nested_datum(value),
        value is Char || value is Unit || value is Option || value is Newtype ==> (top_datum(
            value,
        ) matches Err(DecodeErrorModel::UnsupportedValue(found)) && found == value),
{
}

/// A default value becomes a datum that shows it for itself; an enum or a message is refused.
pub proof fn law_defaults_keep_their_meaning(value: WireModel)
    ensures
        match default_datum(value) {
            Ok(datum) => is_shown_as(value, datum),
            Err(error) => error is DefaultValue,
        },
        default_datum(value) is Err <==> value is Enum || value is Nested,
{
}

/// A value in a document stands for the same as the value: a whole number, of whatever type,
/// becomes the nearest double, a single the same number as a double. Truth values, doubles and
/// texts stay what they are; bytes and all other plain values are refused.
pub proof fn law_nested_values_keep_their_meaning(value: DynamicModel)
    ensures
        number_of(value) matches Some(n) ==> (nested_datum(value) matches Ok(
            DatumModel::Float64(bits),
        ) && is_nearest(n, bits)),
        value matches DynamicModel::F32(single) ==> (nested_datum(value) matches Ok(
            DatumModel::Float64(bits),
        ) && is_same_number(single, bits)),
        value matches DynamicModel::F64(bits) ==> (nested_datum(value) matches Ok(
            DatumModel::Float64(shown),
        ) && shown == bits),
        value matches DynamicModel::Bool(b) ==> (nested_datum(value) matches Ok(datum) && (if b {
            datum is True
        } else {
            datum is False
        })),
        value matches DynamicModel::String(text) ==> (nested_datum(value) matches Ok(
            DatumModel::String(shown),
        ) && shown == text),
        value is Bytes ==> (nested_datum(value) matches Err(error) && error is NestedBytes),
        value is Char || value is Unit || value is Option || value is Newtype ==> (nested_datum(
            value,
        ) matches Err(error) && error is UnsupportedNestedValue),
{
    if let Some(n) = number_of(value) {
        law_nearest_double(n);
    }
    if let DynamicModel::F32(single) = value {
        law_widening_keeps_the_number(single);
    }
}

/// An array becomes a list if and only if each of its items has a datum, and the list holds the
/// datums of the items in their order.
pub proof fn law_arrays_become_lists(items: Seq<DynamicModel>)
    ensures
        nested_datum(DynamicModel::Sequence(items)) is Ok <==> forall|i: int|
            0 <= i < items.len() ==> nested_datum(#[trigger] items[i]) is Ok,
        nested_datum(DynamicModel::Sequence(items)) matches Ok(datum) ==> datum
            matches DatumModel::List(datums) && datums.len() == items.len() && forall|i: int|
            0 <= i < items.len() ==> nested_datum(#[trigger] items[i]) == Ok::<
                DatumModel,
                DecodeErrorModel,
            >(datums[i]),
    decreases items.len(),
{
    if items.len() > 0 {
        let rest = items.drop_last();
        law_arrays_become_lists(rest);
        assert(forall|i: int| 0 <= i < rest.len() ==> rest[i] == items[i]);
        assert(items.last() == items[items.len() - 1]);
        assert(nested_items(rest) is Ok <==> nested_datum(DynamicModel::Sequence(rest)) is Ok);
        if nested_datum(DynamicModel::Sequence(items)) is Ok {
            assert forall|i: int| 0 <= i < items.len() implies nested_datum(
                #[trigger] items[i],
            ) is Ok by {
                if i < rest.len() {
                    assert(nested_datum(rest[i]) is Ok);
                }
            }
            let datums = nested_items(items)->Ok_0;
            assert forall|i: int| 0 <= i < items.len() implies nested_datum(#[trigger] items[i])
                == Ok::<DatumModel, DecodeErrorModel>(datums[i]) by {
                if i < rest.len() {
                    assert(nested_datum(rest[i]) == Ok::<DatumModel, DecodeErrorModel>(
                        nested_items(rest)->Ok_0[i],
                    ));
                }
            }
        }
        if forall|i: int| 0 <= i < items.len() ==> nested_datum(#[trigger] items[i]) is Ok {
            assert forall|i: int| 0 <= i < rest.len() implies nested_datum(
                #[trigger] rest[i],
            ) is Ok by {
                assert(nested_datum(items[i]) is Ok);
            }
        }
    }
}

/// An array is refused for the first of its items that has no datum.
pub proof fn law_arrays_are_refused_for_their_first_bad_item(items: Seq<DynamicModel>) -> (i: int)
    requires
        nested_datum(DynamicModel::Sequence(items)) is Err,
    ensures
        0 <= i < items.len(),
        nested_datum(DynamicModel::Sequence(items)) == nested_datum(items[i]),
        forall|j: int| 0 <= j < i ==> nested_datum(#[trigger] items[j]) is Ok,
    decreases items.len(),
{
    let rest = items.drop_last();
    if nested_datum(DynamicModel::Sequence(rest)) is Err {
        let i = law_arrays_are_refused_for_their_first_bad_item(rest);
        assert forall|j: int| 0 <= j < i implies nested_datum(#[trigger] items[j]) is Ok by {
            assert(nested_datum(rest[j]) is Ok);
        }
        i
    } else {
        law_arrays_become_lists(rest);
        assert forall|j: int| 0 <= j < rest.len() implies nested_datum(
            #[trigger] items[j],
        ) is Ok by {
            assert(nested_datum(rest[j]) is Ok);
        }
        items.len() - 1
    }
}

/// Whether an entry of a map has a place in a dict: under a text stands nothing, or an array or a
/// present value that has a datum.
pub open spec fn is_dict_entry(entry: (DynamicModel, DynamicModel)) -> bool {
    &&& entry.0 is String
    &&& {
        ||| entry.1 == DynamicModel::Option(None)
        ||| entry.1 is Sequence && nested_datum(entry.1) is Ok
        ||| entry.1 matches DynamicModel::Option(Some(content)) && nested_datum(*content) is Ok
    }
}

/// Whether there is anything in an entry of a map.
pub open spec fn is_present(entry: (DynamicModel, DynamicModel)) -> bool {
    entry.1 != DynamicModel::Option(None)
}

/// The entry of a dict that an entry of a map becomes.
pub open spec fn dict_entry(entry: (DynamicModel, DynamicModel)) -> (Seq<char>, DatumModel) {
    (
        entry.0->String_0,
        match entry.1 {
            DynamicModel::Option(Some(content)) => nested_datum(*content)->Ok_0,
            _ => nested_datum(entry.1)->Ok_0,
        },
    )
}

/// The error of an entry of a map that has no place in a dict.
pub open spec fn is_entry_error(
    entry: (DynamicModel, DynamicModel),
    error: DecodeErrorModel,
) -> bool {
    if entry.0 is String && entry.1 is Sequence {
        nested_datum(entry.1) == Err::<DatumModel, DecodeErrorModel>(error)
    } else if entry.0 is String && entry.1 is Option {
        entry.1->Option_0 matches Some(content) && nested_datum(*content) == Err::<
            DatumModel,
            DecodeErrorModel,
        >(error)
    } else {
        error is UnrecognizedEntry
    }
}

/// What the last entry of a map adds to a dict.
proof fn lemma_last_entry(entries: Seq<(DynamicModel, DynamicModel)>)
    requires
        entries.len() > 0,
        nested_entries(entries.drop_last()) is Ok,
    ensures
        nested_entries(entries) is Ok <==> is_dict_entry(entries.last()),
        nested_entries(entries) matches Err(error) ==> is_entry_error(entries.last(), error),
        nested_entries(entries) matches Ok(datums) ==> datums == (if is_present(entries.last()) {
            nested_entries(entries.drop_last())->Ok_0.push(dict_entry(entries.last()))
        } else {
            nested_entries(entries.drop_last())->Ok_0
        }),
{
    match entries.last().1 {
        DynamicModel::Sequence(items) => {
            assert(nested_datum(entries.last().1) is Ok <==> nested_items(items) is Ok);
        },
        _ => {},
    }
}

/// A nested message becomes a dict if and only if each of its entries has a place in it, and the
/// dict holds what is present, each under its name and in the order of the entries.
pub proof fn law_nested_messages_become_dicts(entries: Seq<(DynamicModel, DynamicModel)>)
    ensures
        nested_datum(DynamicModel::Mapping(entries)) is Ok <==> forall|i: int|
            0 <= i < entries.len() ==> is_dict_entry(#[trigger] entries[i]),
        nested_datum(DynamicModel::Mapping(entries)) matches Ok(datum) ==> datum
            == DatumModel::Dict(
            entries.filter(
                |entry: (DynamicModel, DynamicModel)| is_present(entry),
            ).map_values(|entry: (DynamicModel, DynamicModel)| dict_entry(entry)),
        ),
    decreases entries.len(),
{
    let present = |entry: (DynamicModel, DynamicModel)| is_present(entry);
    let shown = |entry: (DynamicModel, DynamicModel)| dict_entry(entry);
    reveal(Seq::filter);
    if entries.len() == 0 {
        assert(entries.filter(present).map_values(shown) =~= Seq::empty());
    } else {
        let rest = entries.drop_last();
        law_nested_messages_become_dicts(rest);
        assert(forall|i: int| 0 <= i < rest.len() ==> rest[i] == entries[i]);
        assert(entries.last() == entries[entries.len() - 1]);
        assert(nested_datum(DynamicModel::Mapping(rest)) is Ok <==> nested_entries(rest) is Ok);
        assert(nested_datum(DynamicModel::Mapping(entries)) is Ok <==> nested_entries(
            entries,
        ) is Ok);
        if nested_entries(rest) is Ok {
            lemma_last_entry(entries);
            assert forall|i: int| 0 <= i < rest.len() implies is_dict_entry(
                #[trigger] entries[i],
            ) by {
                assert(is_dict_entry(rest[i]));
            }
            if nested_entries(entries) is Ok {
                let before = rest.filter(present);
                assert(nested_entries(rest)->Ok_0 == before.map_values(shown));
                assert(before.push(entries.last()).map_values(shown) =~= before.map_values(
                    shown,
                ).push(dict_entry(entries.last())));
            }
        } else {
            let i = choose|i: int| 0 <= i < rest.len() && !is_dict_entry(#[trigger] rest[i]);
            assert(!is_dict_entry(entries[i]));
        }
    }
}

/// A nested message is refused for the first of its entries that has no place in a dict.
pub proof fn law_nested_messages_are_refused_for_their_first_bad_entry(
    entries: Seq<(DynamicModel, DynamicModel)>,
) -> (i: int)
    requires
        nested_datum(DynamicModel::Mapping(entries)) is Err,
    ensures
        0 <= i < entries.len(),
        is_entry_error(entries[i], nested_datum(DynamicModel::Mapping(entries))->Err_0),
        forall|j: int| 0 <= j < i ==> is_dict_entry(#[trigger] entries[j]),
    decreases entries.len(),
{
    let rest = entries.drop_last();
    if nested_datum(DynamicModel::Mapping(rest)) is Err {
        let i = law_nested_messages_are_refused_for_their_first_bad_entry(rest);
        assert forall|j: int| 0 <= j < i implies is_dict_entry(#[trigger] entries[j]) by {
            assert(is_dict_entry(rest[j]));
        }
        i
    } else {
        law_nested_messages_become_dicts(rest);
        lemma_last_entry(entries);
        assert forall|j: int| 0 <= j < rest.len() implies is_dict_entry(#[trigger] entries[j]) by {
            assert(is_dict_entry(rest[j]));
        }
        entries.len() - 1
    }
}

/// A column shows the value that is present under the name of its field, or the array there; else
/// the default value of the field; else null.
pub proof fn law_columns_show_values_defaults_or_null(
    value: Option<DynamicModel>,
    default: Option<WireModel>,
)
    ensures
        value matches Some(DynamicModel::Option(Some(content))) ==> column_datum(value, default)
            == top_datum(*content),
        value matches Some(held) && held is Sequence ==> column_datum(value, default)
            == nested_datum(value->0),
        !(value matches Some(held) && (held is Sequence || held matches DynamicModel::Option(
            Some(_),
        ))) ==> match default {
            Some(default) => match column_datum(value, Some(default)) {
                Ok(datum) => is_shown_as(default, datum),
                Err(error) => error is DefaultValue && (default is Enum || default is Nested),
            },
            None => column_datum(value, default) matches Ok(datum) && datum is Null,
        },
{
}

/// The value under a text is that of the first entry whose key is the text, if there is one.
pub proof fn law_values_are_found_under_their_keys(
    entries: Seq<(DynamicModel, DynamicModel)>,
    key: Seq<char>,
)
    ensures
        match value_under(entries, key) {
            Some(value) => exists|i: int|
                {
                    &&& 0 <= i < entries.len()
                    &&& #[trigger] entries[i] == (DynamicModel::String(key), value)
                    &&& forall|j: int| 0 <= j < i ==> (#[trigger] entries[j]).0
                        != DynamicModel::String(key)
                },
            None => forall|i: int| 0 <= i < entries.len() ==> (#[trigger] entries[i]).0
                != DynamicModel::String(key),
        },
    decreases entries.len(),
{
    if entries.len() > 0 && entries[0].0 != DynamicModel::String(key) {
        let rest = entries.skip(1);
        law_values_are_found_under_their_keys(rest, key);
        assert(forall|i: int| 0 <= i < rest.len() ==> rest[i] == entries[i + 1]);
        if let Some(value) = value_under(rest, key) {
            let i = choose|i: int|
                {
                    &&& 0 <= i < rest.len()
                    &&& #[trigger] rest[i] == (DynamicModel::String(key), value)
                    &&& forall|j: int| 0 <= j < i ==> (#[trigger] rest[j]).0
                        != DynamicModel::String(key)
                };
            assert(entries[i + 1] == (DynamicModel::String(key), value));
            assert forall|j: int| 0 <= j < i + 1 implies (#[trigger] entries[j]).0
                != DynamicModel::String(key) by {
                if j > 0 {
                    assert(rest[j - 1].0 != DynamicModel::String(key));
                }
            }
        } else {
            assert forall|i: int| 0 <= i < entries.len() implies (#[trigger] entries[i]).0
                != DynamicModel::String(key) by {
                if i > 0 {
                    assert(rest[i - 1].0 != DynamicModel::String(key));
                }
            }
        }
    } else if entries.len() > 0 {
        assert(entries[0] == (DynamicModel::String(key), entries[0].1));
    }
}

/// A decoded message becomes a row if and only if it is a map and each column has a datum; the row
/// holds the datums of the columns, one for each field in the order of the fields.
pub proof fn law_rows_are_made_of_columns(message: DynamicModel, fields: Seq<FieldModel>)
    ensures
        message !is Mapping ==> (extracted(message, fields) matches Err(error)
            && error is TopLevel),
        message matches DynamicModel::Mapping(entries) ==> {
            &&& extracted(message, fields) is Ok <==> forall|i: int|
                0 <= i < fields.len() ==> column_datum(
                    value_under(entries, (#[trigger] fields[i]).name),
                    fields[i].default,
                ) is Ok
            &&& extracted(message, fields) matches Ok(datums) ==> datums.len() == fields.len()
                && forall|i: int|
                0 <= i < fields.len() ==> column_datum(
                    value_under(entries, (#[trigger] fields[i]).name),
                    fields[i].default,
                ) == Ok::<DatumModel, DecodeErrorModel>(datums[i])
        },
    decreases fields.len(),
{
    if message is Mapping && fields.len() > 0 {
        let entries = message->Mapping_0;
        let rest = fields.drop_last();
        law_rows_are_made_of_columns(message, rest);
        assert(forall|i: int| 0 <= i < rest.len() ==> rest[i] == fields[i]);
        assert(fields.last() == fields[fields.len() - 1]);
        if row_datums(entries, rest) is Ok {
            let before = row_datums(entries, rest)->Ok_0;
            assert forall|i: int| 0 <= i < rest.len() implies column_datum(
                value_under(entries, (#[trigger] fields[i]).name),
                fields[i].default,
            ) == Ok::<DatumModel, DecodeErrorModel>(before[i]) by {
                assert(column_datum(value_under(entries, rest[i].name), rest[i].default) == Ok::<
                    DatumModel,
                    DecodeErrorModel,
                >(before[i]));
            }
        } else {
            let i = choose|i: int|
                0 <= i < rest.len() && !(column_datum(
                    value_under(entries, (#[trigger] rest[i]).name),
                    rest[i].default,
                ) is Ok);
            assert(!(column_datum(value_under(entries, fields[i].name), fields[i].default) is Ok));
        }
    }
}

/// Where a row is due there is one, and it is the one that is due; where an error is due it is that
/// error.
pub proof fn law_outcomes_are_what_is_due(
    due: Result<Seq<DatumModel>, DecodeErrorModel>,
    outcome: Result<Option<Row>, DecodeError>,
)
    requires
        is_outcome(due, outcome),
    ensures
        match outcome {
            Ok(Some(row)) => due == Ok::<Seq<DatumModel>, DecodeErrorModel>(row@),
            Ok(None) => false,
            Err(error) => due == Err::<Seq<DatumModel>, DecodeErrorModel>(error@),
        },
{
}

/// A packer that a datum was appended to holds what it held before and then the datum; where there
/// is no datum, the error is handed back.
pub proof fn law_packers_grow_by_one_datum(
    before: Seq<DatumModel>,
    datum: Result<DatumModel, DecodeErrorModel>,
    after: Result<RowPacker, DecodeError>,
)
    requires
        packs(before, datum, after),
    ensures
        match after {
            Ok(packer) => {
                &&& packer@.len() == before.len() + 1
                &&& forall|i: int| 0 <= i < before.len() ==> packer@[i] == #[trigger] before[i]
                &&& datum == Ok::<DatumModel, DecodeErrorModel>(packer@[before.len() as int])
            },
            Err(error) => datum == Err::<DatumModel, DecodeErrorModel>(error@),
        },
{
}

} // verus!
