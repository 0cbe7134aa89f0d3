//! What holds of the library as a whole.
use crate::convert::column_datum;
use crate::convert::default_datum;
use crate::convert::extracted;
use crate::convert::nested_datum;
use crate::convert::nested_entries;
use crate::convert::nested_items;
use crate::convert::row_datums;
use crate::convert::top_datum;
use crate::descriptor::field_with_number;
use crate::descriptor::FieldModel;
use crate::descriptor::Registry;
use crate::descriptor::ResolvedType;
use crate::descriptor::WireFieldModel;
use crate::descriptor::WireModel;
use crate::dynamic::ascending;
use crate::dynamic::precedes;
use crate::dynamic::value_under;
use crate::dynamic::DynamicModel;
use crate::error::DecodeErrorModel;
use crate::error::SchemaErrorModel;
use crate::float::law_nearest_double;
use crate::float::nearest_double;
use crate::float::rounds_to;
use crate::float::widened;
use crate::meaning::is_nested_as;
use crate::meaning::is_shown_as;
use crate::meaning::law_nested_values_keep_their_meaning;
use crate::relation::ColumnModel;
use crate::relation::ColumnType;
use crate::relation::ScalarType;
use crate::row::DatumModel;
use crate::schema::accepted;
use crate::schema::check_all_nested;
use crate::schema::check_column;
use crate::schema::check_columns;
use crate::schema::check_nested;
use crate::schema::column_of;
use crate::schema::column_rule;
use crate::schema::law_depth_does_not_matter;
use crate::schema::relation_of;
use crate::schema::ColumnRuleModel;
use crate::wire::defaults_fit;
use crate::wire::field_has_group;
use crate::wire::fits_field;
use crate::wire::fits_message;
use crate::wire::fits_type;
use crate::wire::has_group;
use crate::wire::held_at;
use crate::wire::held_under;
use crate::wire::is_group_free;
use crate::wire::lemma_place_in_range;
use crate::wire::scalar_value;
use crate::wire::spells_field;
use crate::wire::spells_message;
use crate::wire::spells_value;
use vstd::prelude::*;

verus! {

/// Whether a datum can stand in a document: a truth value, a double, a text, or a list or a dict
/// of such datums.
pub open spec fn is_json(datum: DatumModel) -> bool
    decreases datum,
{
    match datum {
        DatumModel::True | DatumModel::False => true,
        DatumModel::Float64(_) => true,
        DatumModel::String(_) => true,
        DatumModel::List(items) => forall|i: int|
            0 <= i < items.len() ==> is_json(#[trigger] items[i]),
        DatumModel::Dict(entries) => forall|i: int|
            0 <= i < entries.len() ==> is_json((#[trigger] entries[i]).1),
        _ => false,
    }
}

/// The number that a whole number among the self-describing values stands for.
pub open spec fn whole_number(value: DynamicModel) -> Option<int> {
    match value {
        DynamicModel::I8(n) => Some(n as int),
        DynamicModel::I16(n) => Some(n as int),
        DynamicModel::I32(n) => Some(n as int),
        DynamicModel::I64(n) => Some(n as int),
        DynamicModel::U8(n) => Some(n as int),
        DynamicModel::U16(n) => Some(n as int),
        DynamicModel::U32(n) => Some(n as int),
        DynamicModel::U64(n) => Some(n as int),
        _ => None,
    }
}

/// In an array or in a nested message every number becomes a double, whatever its type: a whole
/// number the one nearest to it, a single the one that stands for the same number, and a double
/// stays as it is.
pub proof fn law_nested_numbers_are_doubles(value: DynamicModel)
    ensures
        whole_number(value) matches Some(n) ==> nested_datum(value) == Ok::<
            DatumModel,
            DecodeErrorModel,
        >(DatumModel::Float64(nearest_double(n))) && rounds_to(n, nearest_double(n)),
        value matches DynamicModel::F32(bits) ==> nested_datum(value) == Ok::<
            DatumModel,
            DecodeErrorModel,
        >(DatumModel::Float64(widened(bits))),
        value matches DynamicModel::F64(bits) ==> nested_datum(value) == Ok::<
            DatumModel,
            DecodeErrorModel,
        >(DatumModel::Float64(bits)),
{
    if let Some(n) = whole_number(value) {
        law_nearest_double(n);
    }
}

/// Whatever stands in an array or in a nested message becomes a document, if it becomes anything:
/// in particular, no number stays but as a double, and nothing becomes null.
pub proof fn law_nested_values_are_json(value: DynamicModel)
    ensures
        nested_datum(value) matches Ok(datum) ==> is_json(datum),
    decreases value,
{
    match value {
        DynamicModel::Sequence(items) => {
            assert(decreases_to!(value => items));
            lemma_nested_items_are_json(items);
        },
        DynamicModel::Mapping(entries) => {
            assert(decreases_to!(value => entries));
            lemma_nested_entries_are_json(entries);
        },
        _ => {},
    }
}

/// The items of an array become documents.
proof fn lemma_nested_items_are_json(items: Seq<DynamicModel>)
    ensures
        nested_items(items) matches Ok(datums) ==> datums.len() == items.len() && forall|i: int|
            0 <= i < datums.len() ==> is_json(#[trigger] datums[i]),
    decreases items,
{
    if items.len() > 0 {
        lemma_nested_items_are_json(items.drop_last());
        assert(decreases_to!(items => items[items.len() - 1]));
        law_nested_values_are_json(items.last());
    }
}

/// The entries of a nested message become documents.
proof fn lemma_nested_entries_are_json(entries: Seq<(DynamicModel, DynamicModel)>)
    ensures
        nested_entries(entries) matches Ok(datums) ==> forall|i: int|
            0 <= i < datums.len() ==> is_json((#[trigger] datums[i]).1),
    decreases entries,
{
    if entries.len() > 0 {
        lemma_nested_entries_are_json(entries.drop_last());
        let last = entries[entries.len() - 1];
        assert(decreases_to!(entries => entries[entries.len() - 1]));
        assert(decreases_to!(last => last.1));
        match last.1 {
            DynamicModel::Option(Some(content)) => {
                assert(decreases_to!(last.1 => last.1->Option_0->0));
                law_nested_values_are_json(*content);
            },
            DynamicModel::Sequence(items) => {
                assert(decreases_to!(last.1 => last.1->Sequence_0));
                lemma_nested_items_are_json(items);
            },
            _ => {},
        }
    }
}

/// Whether the keys of all maps in a value are texts in ascending order, none of them twice.
pub open spec fn is_ordered(value: DynamicModel) -> bool
    decreases value,
{
    match value {
        DynamicModel::Option(Some(content)) => is_ordered(*content),
        DynamicModel::Newtype(content) => is_ordered(*content),
        DynamicModel::Sequence(items) => forall|i: int|
            0 <= i < items.len() ==> is_ordered(#[trigger] items[i]),
        DynamicModel::Mapping(entries) => ascending(entries) && forall|i: int|
            0 <= i < entries.len() ==> is_ordered((#[trigger] entries[i]).1),
        _ => true,
    }
}

/// Whether the keys of all dicts in a datum are in ascending order, none of them twice.
pub open spec fn has_sorted_dicts(datum: DatumModel) -> bool
    decreases datum,
{
    match datum {
        DatumModel::List(items) => forall|i: int|
            0 <= i < items.len() ==> has_sorted_dicts(#[trigger] items[i]),
        DatumModel::Dict(entries) => {
            &&& forall|i: int, j: int|
                0 <= i < j < entries.len() ==> precedes(
                    (#[trigger] entries[i]).0,
                    (#[trigger] entries[j]).0,
                )
            &&& forall|i: int|
                0 <= i < entries.len() ==> has_sorted_dicts((#[trigger] entries[i]).1)
        },
        _ => true,
    }
}

/// The dicts that nested messages become have their keys in ascending order, none of them twice, as
/// long as the maps that they come from have.
pub proof fn law_dicts_stay_sorted(value: DynamicModel)
    requires
        is_ordered(value),
    ensures
        nested_datum(value) matches Ok(datum) ==> has_sorted_dicts(datum),
    decreases value,
{
    match value {
        DynamicModel::Sequence(items) => {
            assert(decreases_to!(value => items));
            lemma_items_stay_sorted(items);
        },
        DynamicModel::Mapping(entries) => {
            assert(decreases_to!(value => entries));
            lemma_entries_stay_sorted(entries);
        },
        _ => {},
    }
}

/// The dicts in an array stay sorted.
proof fn lemma_items_stay_sorted(items: Seq<DynamicModel>)
    requires
        forall|i: int| 0 <= i < items.len() ==> is_ordered(#[trigger] items[i]),
    ensures
        nested_items(items) matches Ok(datums) ==> forall|i: int|
            0 <= i < datums.len() ==> has_sorted_dicts(#[trigger] datums[i]),
    decreases items,
{
    if items.len() > 0 {
        lemma_items_stay_sorted(items.drop_last());
        assert(decreases_to!(items => items[items.len() - 1]));
        law_dicts_stay_sorted(items.last());
    }
}

/// A nested message becomes a sorted dict, whose keys all are names of its fields.
proof fn lemma_entries_stay_sorted(entries: Seq<(DynamicModel, DynamicModel)>)
    requires
        ascending(entries),
        forall|i: int| 0 <= i < entries.len() ==> is_ordered((#[trigger] entries[i]).1),
    ensures
        nested_entries(entries) matches Ok(datums) ==> {
            &&& has_sorted_dicts(DatumModel::Dict(datums))
            &&& forall|i: int|
                0 <= i < datums.len() ==> exists|j: int|
                    0 <= j < entries.len() && (#[trigger] entries[j]).0 == DynamicModel::String(
                        (#[trigger] datums[i]).0,
                    )
        },
    decreases entries,
{
    if entries.len() > 0 {
        let rest = entries.drop_last();
        assert(forall|i: int| 0 <= i < rest.len() ==> rest[i] == entries[i]);
        lemma_entries_stay_sorted(rest);
        let last = entries[entries.len() - 1];
        assert(decreases_to!(entries => entries[entries.len() - 1]));
        assert(decreases_to!(last => last.1));
        match last.1 {
            DynamicModel::Option(Some(content)) => {
                assert(decreases_to!(last.1 => last.1->Option_0->0));
                law_dicts_stay_sorted(*content);
            },
            DynamicModel::Sequence(items) => {
                assert(decreases_to!(last.1 => last.1->Sequence_0));
                lemma_items_stay_sorted(items);
            },
            _ => {},
        }
        if let Ok(datums) = nested_entries(entries) {
            let before = nested_entries(rest)->Ok_0;
            let dict = DatumModel::Dict(before);
            assert(has_sorted_dicts(dict));
            assert(datums == before || (datums == before.push(datums.last()) && last.0
                == DynamicModel::String(datums.last().0) && has_sorted_dicts(datums.last().1)));
            assert forall|i: int| 0 <= i < datums.len() implies exists|j: int|
                0 <= j < entries.len() && (#[trigger] entries[j]).0 == DynamicModel::String(
                    (#[trigger] datums[i]).0,
                ) by {
                if i < before.len() {
                    let j = choose|j: int|
                        0 <= j < rest.len() && (#[trigger] rest[j]).0 == DynamicModel::String(
                            before[i].0,
                        );
                    assert(entries[j].0 == DynamicModel::String(datums[i].0));
                } else {
                    assert(entries[entries.len() - 1].0 == DynamicModel::String(datums[i].0));
                }
            }
            assert forall|i: int, j: int| 0 <= i < j < datums.len() implies precedes(
                (#[trigger] datums[i]).0,
                (#[trigger] datums[j]).0,
            ) by {
                assert(datums[i] == before[i]);
                if j < before.len() {
                    assert(datums[j] == before[j]);
                    assert(precedes(dict->Dict_0[i].0, dict->Dict_0[j].0));
                } else {
                    let k = choose|k: int|
                        0 <= k < rest.len() && (#[trigger] rest[k]).0 == DynamicModel::String(
                            before[i].0,
                        );
                    assert(entries[k].0->String_0 == datums[i].0);
                    assert(precedes(entries[k].0->String_0, last.0->String_0));
                }
            }
            assert forall|i: int| 0 <= i < datums.len() implies has_sorted_dicts(
                (#[trigger] datums[i]).1,
            ) by {
                if i < before.len() {
                    assert(datums[i] == before[i]);
                    assert(has_sorted_dicts(dict->Dict_0[i].1));
                }
            }
        }
    }
}

/// No text comes before itself.
proof fn lemma_not_before_itself(text: Seq<char>)
    ensures
        !precedes(text, text),
    decreases text.len(),
{
    if text.len() > 0 {
        lemma_not_before_itself(text.skip(1));
    }
}

/// Under each key of a map with ascending keys stands the value of its entry.
proof fn lemma_value_under_key(entries: Seq<(DynamicModel, DynamicModel)>, i: int)
    requires
        ascending(entries),
        0 <= i < entries.len(),
    ensures
        value_under(entries, entries[i].0->String_0) == Some(entries[i].1),
    decreases entries.len(),
{
    if i > 0 {
        lemma_not_before_itself(entries[i].0->String_0);
        assert(precedes(entries[0].0->String_0, entries[i].0->String_0));
        let rest = entries.skip(1);
        assert forall|j: int| 0 <= j < rest.len() implies rest[j] == entries[j + 1] by {}
        lemma_value_under_key(rest, i - 1);
        assert(rest[i - 1] == entries[i]);
    }
}

/// What is held under a name is held of a field that goes by the name.
proof fn lemma_held_under(
    fields: Seq<FieldModel>,
    wire: Seq<(i32, WireFieldModel)>,
    name: Seq<char>,
)
    ensures
        held_under(fields, wire, name) matches Some(at) ==> {
            &&& 0 <= at < wire.len()
            &&& field_with_number(fields, wire[at].0) matches Some(place)
            &&& 0 <= place < fields.len()
            &&& fields[place].name == name
        },
    decreases wire.len(),
{
    if wire.len() > 0 {
        lemma_place_in_range(fields, wire.last().0);
        lemma_held_under(fields, wire.drop_last(), name);
    }
}

/// Each entry of the map that a message is spelled as says what the message holds of one of its
/// fields.
proof fn lemma_entry_spells_field(
    registry: Registry,
    fields: Seq<FieldModel>,
    wire: Seq<(i32, WireFieldModel)>,
    spelled: DynamicModel,
    i: int,
) -> (at: int)
    requires
        spells_message(registry, fields, wire, spelled),
        0 <= i < spelled->Mapping_0.len(),
    ensures
        0 <= at < wire.len(),
        field_with_number(fields, wire[at].0) matches Some(place) && 0 <= place < fields.len()
            && spells_field(registry, fields[place], wire[at].1, spelled->Mapping_0[i].1),
{
    let entries = spelled->Mapping_0;
    let name = entries[i].0->String_0;
    lemma_value_under_key(entries, i);
    lemma_held_under(fields, wire, name);
    assert(value_under(entries, name) is Some);
    held_under(fields, wire, name)->0
}

/// The value that a value is spelled as is ordered.
proof fn lemma_spelled_value_is_ordered(
    registry: Registry,
    resolved: ResolvedType,
    value: WireModel,
    spelled: DynamicModel,
)
    requires
        spells_value(registry, resolved, value, spelled),
    ensures
        is_ordered(spelled),
    decreases value,
{
    if let WireModel::Nested(wire) = value {
        assert(decreases_to!(value => value->Nested_0));
        lemma_spelled_message_is_ordered(registry, resolved->Message_0, wire, spelled);
    }
}

/// The value that what is held of a field is spelled as is ordered.
proof fn lemma_spelled_field_is_ordered(
    registry: Registry,
    field: FieldModel,
    held: WireFieldModel,
    spelled: DynamicModel,
)
    requires
        spells_field(registry, field, held, spelled),
    ensures
        is_ordered(spelled),
    decreases held,
{
    let resolved = registry.resolve(field.declared);
    match held {
        WireFieldModel::Singular(None) => {},
        WireFieldModel::Singular(Some(value)) => {
            assert(decreases_to!(held => held->Singular_0->0));
            if field.label is Optional {
                lemma_spelled_value_is_ordered(registry, resolved, value, *spelled->Option_0->0);
            } else {
                lemma_spelled_value_is_ordered(registry, resolved, value, spelled);
            }
        },
        WireFieldModel::Repeated(values) => {
            let items = spelled->Sequence_0;
            assert forall|i: int| 0 <= i < items.len() implies is_ordered(#[trigger] items[i]) by {
                assert(decreases_to!(held => held->Repeated_0));
                assert(decreases_to!(values => values[i]));
                lemma_spelled_value_is_ordered(registry, resolved, values[i], items[i]);
            }
        },
    }
}

/// The map that a message is spelled as has its keys in ascending order, and so has every map in
/// it.
proof fn lemma_spelled_message_is_ordered(
    registry: Registry,
    fields: Seq<FieldModel>,
    wire: Seq<(i32, WireFieldModel)>,
    spelled: DynamicModel,
)
    requires
        spells_message(registry, fields, wire, spelled),
    ensures
        is_ordered(spelled),
    decreases wire,
{
    let entries = spelled->Mapping_0;
    assert forall|i: int| 0 <= i < entries.len() implies is_ordered((#[trigger] entries[i]).1) by {
        let at = lemma_entry_spells_field(registry, fields, wire, spelled, i);
        let place = field_with_number(fields, wire[at].0)->0;
        assert(decreases_to!(wire => wire[at]));
        assert(decreases_to!(wire[at] => wire[at].1));
        lemma_spelled_field_is_ordered(registry, fields[place], wire[at].1, entries[i].1);
    }
}

/// The columns that were found for fields are one for each field, in the order of the fields.
proof fn lemma_columns_of_fields(registry: Registry, fields: Seq<FieldModel>, depth: nat, i: int)
    requires
        check_columns(registry, fields, depth) matches Some(Ok(_)),
        0 <= i < fields.len(),
    ensures
        check_columns(registry, fields, depth) matches Some(Ok(columns)) && {
            &&& columns.len() == fields.len()
            &&& check_column(registry, fields[i], depth) matches Some(Ok(scalar_type))
            &&& columns[i] == column_of(fields[i], scalar_type)
        },
    decreases fields.len(),
{
    lemma_column_count(registry, fields, depth);
    lemma_column_count(registry, fields.drop_last(), depth);
    if i < fields.len() - 1 {
        lemma_columns_of_fields(registry, fields.drop_last(), depth, i);
    }
}

/// There are as many columns as fields.
proof fn lemma_column_count(registry: Registry, fields: Seq<FieldModel>, depth: nat)
    ensures
        check_columns(registry, fields, depth) matches Some(Ok(columns)) ==> columns.len()
            == fields.len(),
    decreases fields.len(),
{
    if fields.len() > 0 {
        lemma_column_count(registry, fields.drop_last(), depth);
    }
}

/// The type of the column that a field becomes, if it can be one.
pub open spec fn column_scalar_type(registry: Registry, field: FieldModel) -> ScalarType {
    match column_rule(field.name, field.label, registry.resolve(field.declared)) {
        ColumnRuleModel::Plain(scalar_type) => scalar_type,
        _ => ScalarType::Jsonb,
    }
}

/// A relation has one column for each field of its message type, in the order of the fields. The
/// column goes by the name of the field and takes nulls if and only if the field has no default
/// value. It holds documents if the field is repeated, and else what the field's type says.
pub proof fn law_columns_follow_fields(registry: Registry, fields: Seq<FieldModel>, i: int)
    requires
        accepted(registry, fields),
        0 <= i < fields.len(),
    ensures
        relation_of(registry, fields) matches Ok(columns) && {
            &&& columns.len() == fields.len()
            &&& columns[i].name == Some(fields[i].name)
            &&& columns[i].column_type.nullable == (fields[i].default is None)
            &&& columns[i].column_type.scalar_type == column_scalar_type(registry, fields[i])
        },
{
    let depth = choose|depth: nat| #[trigger] check_columns(registry, fields, depth) is Some;
    law_depth_does_not_matter(registry, fields, depth);
    lemma_columns_of_fields(registry, fields, depth, i);
}

/// A message type that becomes a relation has no required fields, no groups and no types that are
/// not in the registry; a repeated field of it holds no bytes.
pub proof fn law_unsupported_fields_are_refused(
    registry: Registry,
    fields: Seq<FieldModel>,
    i: int,
)
    requires
        accepted(registry, fields),
        0 <= i < fields.len(),
    ensures
        fields[i].label !is Required,
        match registry.resolve(fields[i].declared) {
            ResolvedType::Scalar(kind) => kind !is Group && (fields[i].label is Repeated
                ==> kind !is Bytes),
            ResolvedType::Enum(_) => true,
            ResolvedType::Message(_) => true,
            ResolvedType::UnresolvedMessage(_) => false,
            ResolvedType::UnresolvedEnum(_) => false,
        },
{
    let depth = choose|depth: nat| #[trigger] check_columns(registry, fields, depth) is Some;
    law_depth_does_not_matter(registry, fields, depth);
    lemma_columns_of_fields(registry, fields, depth, i);
}

/// A field that is fine in an array or in a nested message leads to no group.
proof fn lemma_nested_field_has_no_group(
    registry: Registry,
    field: FieldModel,
    depth: nat,
    deeper: nat,
)
    requires
        check_nested(registry, field, depth) matches Some(Ok(_)),
        depth <= deeper,
    ensures
        field_has_group(registry, field, deeper) == Some(false),
    decreases depth, 0nat,
{
    if let ResolvedType::Message(fields) = registry.resolve(field.declared) {
        lemma_nested_fields_have_no_group(
            registry,
            fields,
            (depth - 1) as nat,
            (deeper - 1) as nat,
        );
    }
}

/// Fields that are fine in a nested message lead to no group.
proof fn lemma_nested_fields_have_no_group(
    registry: Registry,
    fields: Seq<FieldModel>,
    depth: nat,
    deeper: nat,
)
    requires
        check_all_nested(registry, fields, depth) matches Some(Ok(_)),
        depth <= deeper,
    ensures
        has_group(registry, fields, deeper) == Some(false),
    decreases depth, fields.len() + 1,
{
    if fields.len() > 0 {
        lemma_nested_fields_have_no_group(registry, fields.drop_last(), depth, deeper);
        lemma_nested_field_has_no_group(registry, fields.last(), depth, deeper);
    }
}

/// Fields that can be columns lead to no group.
proof fn lemma_columns_have_no_group(registry: Registry, fields: Seq<FieldModel>, depth: nat)
    requires
        check_columns(registry, fields, depth) matches Some(Ok(_)),
    ensures
        has_group(registry, fields, depth + 1) == Some(false),
    decreases fields.len(),
{
    if fields.len() > 0 {
        let field = fields.last();
        let resolved = registry.resolve(field.declared);
        lemma_columns_have_no_group(registry, fields.drop_last(), depth);
        match column_rule(field.name, field.label, resolved) {
            ColumnRuleModel::Array => lemma_nested_field_has_no_group(
                registry,
                field,
                depth,
                depth + 1,
            ),
            ColumnRuleModel::Document => lemma_nested_fields_have_no_group(
                registry,
                resolved->Message_0,
                depth,
                depth,
            ),
            _ => {},
        }
    }
}

/// A message type that becomes a relation has no groups, however deep one looks; so decoding is
/// never refused for a group.
pub proof fn law_relations_have_no_groups(registry: Registry, fields: Seq<FieldModel>)
    requires
        accepted(registry, fields),
    ensures
        is_group_free(registry, fields),
{
    let depth = choose|depth: nat| #[trigger] check_columns(registry, fields, depth) is Some;
    law_depth_does_not_matter(registry, fields, depth);
    lemma_columns_have_no_group(registry, fields, depth);
}

/// Whether values of a type are fine in an array or in a nested message, if message types are
/// followed at most `depth` deep.
spec fn type_nests(registry: Registry, resolved: ResolvedType, depth: nat) -> bool {
    match resolved {
        ResolvedType::Scalar(kind) => kind !is Bytes && kind !is Group,
        ResolvedType::Enum(_) => true,
        ResolvedType::Message(fields) => check_all_nested(registry, fields, depth) matches Some(
            Ok(_),
        ),
        _ => false,
    }
}

/// Where all fields are fine, each of them is.
proof fn lemma_field_of_nested(registry: Registry, fields: Seq<FieldModel>, depth: nat, place: int)
    requires
        check_all_nested(registry, fields, depth) matches Some(Ok(_)),
        0 <= place < fields.len(),
    ensures
        check_nested(registry, fields[place], depth) matches Some(Ok(_)),
    decreases fields.len(),
{
    if place < fields.len() - 1 {
        lemma_field_of_nested(registry, fields.drop_last(), depth, place);
    }
}

/// A value of a type that is fine in an array or in a nested message has a datum there.
proof fn lemma_value_nests(
    registry: Registry,
    resolved: ResolvedType,
    value: WireModel,
    spelled: DynamicModel,
    depth: nat,
)
    requires
        type_nests(registry, resolved, depth),
        fits_type(registry, resolved, value),
        spells_value(registry, resolved, value, spelled),
    ensures
        nested_datum(spelled) is Ok,
    decreases value,
{
    if let WireModel::Nested(wire) = value {
        assert(decreases_to!(value => value->Nested_0));
        lemma_message_nests(registry, resolved->Message_0, wire, spelled, depth);
    }
}

/// The values of an array that is fine have datums.
proof fn lemma_items_nest(
    registry: Registry,
    resolved: ResolvedType,
    values: Seq<WireModel>,
    items: Seq<DynamicModel>,
    depth: nat,
    n: int,
)
    requires
        type_nests(registry, resolved, depth),
        0 <= n <= values.len(),
        items.len() == values.len(),
        forall|i: int|
            0 <= i < values.len() ==> fits_type(registry, resolved, #[trigger] values[i]),
        forall|i: int|
            0 <= i < values.len() ==> spells_value(
                registry,
                resolved,
                #[trigger] values[i],
                items[i],
            ),
    ensures
        nested_items(items.take(n)) is Ok,
    decreases values, n,
{
    if n > 0 {
        lemma_items_nest(registry, resolved, values, items, depth, n - 1);
        assert(items.take(n).drop_last() =~= items.take(n - 1));
        assert(decreases_to!(values => values[n - 1]));
        lemma_value_nests(registry, resolved, values[n - 1], items[n - 1], depth);
    }
}

/// What is held of a field that is fine in a nested message has a place in the dict of the message.
proof fn lemma_field_nests(
    registry: Registry,
    field: FieldModel,
    held: WireFieldModel,
    spelled: DynamicModel,
    depth: nat,
)
    requires
        check_nested(registry, field, depth) matches Some(Ok(_)),
        fits_field(registry, field, held),
        spells_field(registry, field, held, spelled),
    ensures
        match spelled {
            DynamicModel::Option(None) => true,
            DynamicModel::Option(Some(content)) => nested_datum(*content) is Ok,
            DynamicModel::Sequence(items) => nested_items(items) is Ok,
            _ => false,
        },
    decreases held,
{
    let resolved = registry.resolve(field.declared);
    let rest = if depth > 0 {
        (depth - 1) as nat
    } else {
        0
    };
    assert(type_nests(registry, resolved, rest));
    match held {
        WireFieldModel::Singular(None) => {},
        WireFieldModel::Singular(Some(value)) => {
            assert(decreases_to!(held => held->Singular_0->0));
            lemma_value_nests(registry, resolved, value, *spelled->Option_0->0, rest);
        },
        WireFieldModel::Repeated(values) => {
            assert(decreases_to!(held => held->Repeated_0));
            let items = spelled->Sequence_0;
            lemma_items_nest(registry, resolved, values, items, rest, values.len() as int);
            assert(items.take(values.len() as int) =~= items);
        },
    }
}

/// The first entries of the map that a message is spelled as have their places in a dict.
proof fn lemma_entries_nest(
    registry: Registry,
    fields: Seq<FieldModel>,
    wire: Seq<(i32, WireFieldModel)>,
    spelled: DynamicModel,
    depth: nat,
    n: int,
)
    requires
        check_all_nested(registry, fields, depth) matches Some(Ok(_)),
        fits_message(registry, fields, wire),
        spells_message(registry, fields, wire, spelled),
        0 <= n <= spelled->Mapping_0.len(),
    ensures
        nested_entries(spelled->Mapping_0.take(n)) is Ok,
    decreases wire, n,
{
    let entries = spelled->Mapping_0;
    if n > 0 {
        lemma_entries_nest(registry, fields, wire, spelled, depth, n - 1);
        assert(entries.take(n).drop_last() =~= entries.take(n - 1));
        let at = lemma_entry_spells_field(registry, fields, wire, spelled, n - 1);
        let place = field_with_number(fields, wire[at].0)->0;
        assert(decreases_to!(wire => wire[at]));
        assert(decreases_to!(wire[at] => wire[at].1));
        lemma_field_of_nested(registry, fields, depth, place);
        lemma_field_nests(registry, fields[place], wire[at].1, entries[n - 1].1, depth);
        assert(entries[n - 1].0 is String);
        assert(entries.take(n).last() == entries[n - 1]);
    }
}

/// A message whose fields are fine in a nested message has a datum there.
proof fn lemma_message_nests(
    registry: Registry,
    fields: Seq<FieldModel>,
    wire: Seq<(i32, WireFieldModel)>,
    spelled: DynamicModel,
    depth: nat,
)
    requires
        check_all_nested(registry, fields, depth) matches Some(Ok(_)),
        fits_message(registry, fields, wire),
        spells_message(registry, fields, wire, spelled),
    ensures
        nested_datum(spelled) is Ok,
    decreases wire, spelled->Mapping_0.len() + 1,
{
    let entries = spelled->Mapping_0;
    lemma_entries_nest(registry, fields, wire, spelled, depth, entries.len() as int);
    assert(entries.take(entries.len() as int) =~= entries);
}

/// Whether a datum is one of a column's type: null only where the column takes nulls, and documents
/// with their dicts sorted.
pub open spec fn fits_column(datum: DatumModel, column_type: ColumnType) -> bool {
    match datum {
        DatumModel::Null => column_type.nullable,
        _ => match column_type.scalar_type {
            ScalarType::Bool => datum is True || datum is False,
            ScalarType::Int32 => datum is Int32,
            ScalarType::Int64 => datum is Int64,
            ScalarType::Float32 => datum is Float32,
            ScalarType::Float64 => datum is Float64,
            ScalarType::Decimal(_, _) => datum matches DatumModel::Decimal(digits) && 0 <= digits
                <= u64::MAX,
            ScalarType::Bytes => datum is Bytes,
            ScalarType::String => datum is String,
            ScalarType::Jsonb => (datum is List || datum is Dict) && is_json(datum)
                && has_sorted_dicts(datum),
        },
    }
}

/// Whether a row has a datum for each column of a relation, of the column's type.
pub open spec fn fits_relation(datums: Seq<DatumModel>, columns: Seq<ColumnModel>) -> bool {
    &&& datums.len() == columns.len()
    &&& forall|i: int|
        0 <= i < datums.len() ==> fits_column(#[trigger] datums[i], columns[i].column_type)
}

/// Whether no other field has the name or the number of a field.
pub open spec fn stands_alone(fields: Seq<FieldModel>, i: int) -> bool {
    forall|j: int|
        0 <= j < fields.len() && j != i ==> (#[trigger] fields[j]).name != fields[i].name
            && fields[j].number != fields[i].number
}

/// Whether fields that share a name become columns of one type, and no repeated field with a
/// default value shares its name or its number.
pub open spec fn is_orderly(registry: Registry, fields: Seq<FieldModel>) -> bool {
    &&& forall|i: int, j: int|
        0 <= i < fields.len() && 0 <= j < fields.len() && (#[trigger] fields[i]).name == (
        #[trigger] fields[j]).name ==> column_scalar_type(registry, fields[i])
            == column_scalar_type(registry, fields[j])
    &&& forall|i: int|
        0 <= i < fields.len() && (#[trigger] fields[i]).label is Repeated && fields[i].default
            is Some ==> stands_alone(fields, i)
}

/// The number of a field that stands alone leads to the field.
proof fn lemma_own_number(fields: Seq<FieldModel>, i: int)
    requires
        stands_alone(fields, i),
        0 <= i < fields.len(),
    ensures
        field_with_number(fields, fields[i].number) == Some(i),
    decreases fields.len(),
{
    if i < fields.len() - 1 {
        assert(fields[i].number != fields[fields.len() - 1].number);
        let rest = fields.drop_last();
        assert forall|j: int| 0 <= j < rest.len() implies rest[j] == fields[j] by {}
        lemma_own_number(rest, i);
    }
}

/// What a message holds under the name of a field that stands alone is what it holds under the
/// number of the field.
pub proof fn law_fields_are_held_under_their_names(
    fields: Seq<FieldModel>,
    wire: Seq<(i32, WireFieldModel)>,
    i: int,
)
    requires
        stands_alone(fields, i),
        0 <= i < fields.len(),
    ensures
        held_under(fields, wire, fields[i].name) == held_at(wire, fields[i].number),
        field_with_number(fields, fields[i].number) == Some(i),
    decreases wire.len(),
{
    lemma_own_number(fields, i);
    if wire.len() > 0 {
        lemma_place_in_range(fields, wire.last().0);
        law_fields_are_held_under_their_names(fields, wire.drop_last(), i);
    }
}

/// What is held of a field becomes a datum of the type of the field's column, if it becomes one.
proof fn lemma_held_fits(
    registry: Registry,
    field: FieldModel,
    held: WireFieldModel,
    spelled: DynamicModel,
    default: Option<WireModel>,
    depth: nat,
)
    requires
        fits_field(registry, field, held),
        spells_field(registry, field, held, spelled),
        check_column(registry, field, depth) matches Some(Ok(_)),
    ensures
        field.label is Repeated ==> spelled is Sequence,
        spelled != DynamicModel::Option(None) ==> (column_datum(Some(spelled), default) matches Ok(
            datum,
        ) && fits_column(
            datum,
            ColumnType {
                nullable: default is None,
                scalar_type: column_scalar_type(registry, field),
            },
        )),
{
    let resolved = registry.resolve(field.declared);
    match held {
        WireFieldModel::Singular(None) => {},
        WireFieldModel::Singular(Some(value)) => {
            let content = *spelled->Option_0->0;
            if let WireModel::Nested(nested) = value {
                lemma_message_nests(registry, resolved->Message_0, nested, content, depth);
                law_nested_values_are_json(content);
                lemma_spelled_message_is_ordered(registry, resolved->Message_0, nested, content);
                law_dicts_stay_sorted(content);
            }
        },
        WireFieldModel::Repeated(_) => {
            lemma_field_nests(registry, field, held, spelled, depth);
            law_nested_values_are_json(spelled);
            lemma_spelled_field_is_ordered(registry, field, held, spelled);
            law_dicts_stay_sorted(spelled);
        },
    }
}

/// A column of an accepted message type has a datum, and it is of the column's type.
proof fn lemma_column_fits(
    registry: Registry,
    fields: Seq<FieldModel>,
    wire: Seq<(i32, WireFieldModel)>,
    spelled: DynamicModel,
    depth: nat,
    i: int,
)
    requires
        defaults_fit(fields),
        is_orderly(registry, fields),
        fits_message(registry, fields, wire),
        spells_message(registry, fields, wire, spelled),
        0 <= i < fields.len(),
        check_columns(registry, fields, depth) matches Some(Ok(_)),
    ensures
        column_datum(
            value_under(spelled->Mapping_0, fields[i].name),
            fields[i].default,
        ) matches Ok(datum) && fits_column(
            datum,
            ColumnType {
                nullable: fields[i].default is None,
                scalar_type: column_scalar_type(registry, fields[i]),
            },
        ),
{
    let field = fields[i];
    let found = value_under(spelled->Mapping_0, field.name);
    lemma_columns_of_fields(registry, fields, depth, i);
    lemma_held_under(fields, wire, field.name);
    if let Some(at) = held_under(fields, wire, field.name) {
        let place = field_with_number(fields, wire[at].0)->0;
        let shown = fields[place];
        assert(found is Some);
        assert(spells_field(registry, shown, wire[at].1, found->0));
        assert(fits_field(registry, shown, wire[at].1));
        lemma_columns_of_fields(registry, fields, depth, place);
        lemma_held_fits(registry, shown, wire[at].1, found->0, field.default, depth);
        assert(fields[place].name == fields[i].name);
        assert(column_scalar_type(registry, shown) == column_scalar_type(registry, field));
    }
    if field.label is Repeated && field.default is Some {
        assert(stands_alone(fields, i));
        law_fields_are_held_under_their_names(fields, wire, i);
        assert(held_at(wire, fields[i].number) is Some);
        assert(fields[field_with_number(
            fields,
            wire[held_under(fields, wire, field.name)->0].0,
        )->0].name == field.name);
        assert(found->0 is Sequence);
    }
}

/// The first columns have their datums.
proof fn lemma_row_fits(
    registry: Registry,
    fields: Seq<FieldModel>,
    wire: Seq<(i32, WireFieldModel)>,
    spelled: DynamicModel,
    columns: Seq<ColumnModel>,
    depth: nat,
    n: int,
)
    requires
        check_columns(registry, fields, depth) == Some(
            Ok::<Seq<ColumnModel>, SchemaErrorModel>(columns),
        ),
        defaults_fit(fields),
        is_orderly(registry, fields),
        fits_message(registry, fields, wire),
        spells_message(registry, fields, wire, spelled),
        0 <= n <= fields.len(),
    ensures
        row_datums(spelled->Mapping_0, fields.take(n)) matches Ok(datums) && datums.len() == n
            && forall|i: int|
            0 <= i < n ==> fits_column(#[trigger] datums[i], columns[i].column_type),
    decreases n,
{
    if n > 0 {
        lemma_row_fits(registry, fields, wire, spelled, columns, depth, n - 1);
        assert(fields.take(n).drop_last() =~= fields.take(n - 1));
        assert(fields.take(n).last() == fields[n - 1]);
        lemma_columns_of_fields(registry, fields, depth, n - 1);
        lemma_column_fits(registry, fields, wire, spelled, depth, n - 1);
    }
}

/// Rows fit their relation: whatever message of a valid type is decoded, a row comes out, and its
/// datums are of the types of the columns that the message type becomes.
///
/// The default values have to be of the types of their fields. Fields that share a name have to
/// become columns of one type, since the column of each shows the same value; and a repeated field
/// with a default value has to have a name and a number of its own, or it might show the default.
pub proof fn law_rows_fit_their_relation(
    registry: Registry,
    fields: Seq<FieldModel>,
    wire: Seq<(i32, WireFieldModel)>,
    spelled: DynamicModel,
)
    requires
        accepted(registry, fields),
        defaults_fit(fields),
        is_orderly(registry, fields),
        fits_message(registry, fields, wire),
        spells_message(registry, fields, wire, spelled),
    ensures
        extracted(spelled, fields) matches Ok(datums) && fits_relation(
            datums,
            relation_of(registry, fields)->Ok_0,
        ),
{
    let depth = choose|depth: nat| #[trigger] check_columns(registry, fields, depth) is Some;
    law_depth_does_not_matter(registry, fields, depth);
    let columns = relation_of(registry, fields)->Ok_0;
    lemma_column_count(registry, fields, depth);
    lemma_row_fits(registry, fields, wire, spelled, columns, depth, fields.len() as int);
    assert(fields.take(fields.len() as int) =~= fields);
}

/// A default value becomes the datum that the same value becomes when it is sent.
pub proof fn law_defaults_are_like_values(value: WireModel)
    requires
        value !is Enum,
        value !is Nested,
    ensures
        default_datum(value) == top_datum(scalar_value(value)),
{
}

/// The datum under a key of a dict: that of the last entry with the key.
pub open spec fn datum_under(entries: Seq<(Seq<char>, DatumModel)>, key: Seq<char>) -> Option<
    DatumModel,
>
    decreases entries.len(),
{
    if entries.len() == 0 {
        None
    } else if entries.last().0 == key {
        Some(entries.last().1)
    } else {
        datum_under(entries.drop_last(), key)
    }
}

/// Whether a datum in a document shows a value that was sent: a number as a double, an enum by the
/// name of its number, a message as a dict.
pub open spec fn shows_nested(
    registry: Registry,
    resolved: ResolvedType,
    value: WireModel,
    datum: DatumModel,
) -> bool
    decreases value,
{
    match value {
        WireModel::Enum(number) => resolved matches ResolvedType::Enum(names) && datum
            == DatumModel::String(names[number]),
        WireModel::Nested(wire) => {
            &&& resolved matches ResolvedType::Message(fields)
            &&& datum matches DatumModel::Dict(entries)
            &&& shows_message(registry, fields, wire, entries)
        },
        _ => is_nested_as(value, datum),
    }
}

/// Whether an entry of a dict shows what was sent in a field: there is none if nothing was, unless
/// the field is repeated.
pub open spec fn shows_field(
    registry: Registry,
    field: FieldModel,
    held: WireFieldModel,
    shown: Option<DatumModel>,
) -> bool
    decreases held,
{
    let resolved = registry.resolve(field.declared);
    match held {
        WireFieldModel::Singular(None) => shown is None,
        WireFieldModel::Singular(Some(value)) => shown matches Some(datum) && shows_nested(
            registry,
            resolved,
            value,
            datum,
        ),
        WireFieldModel::Repeated(values) => {
            &&& shown matches Some(DatumModel::List(items))
            &&& items.len() == values.len()
            &&& forall|i: int|
                0 <= i < values.len() ==> shows_nested(
                    registry,
                    resolved,
                    #[trigger] values[i],
                    items[i],
                )
        },
    }
}

/// Whether a dict shows what was sent in a nested message, each field under its name and nothing
/// else.
pub open spec fn shows_message(
    registry: Registry,
    fields: Seq<FieldModel>,
    wire: Seq<(i32, WireFieldModel)>,
    entries: Seq<(Seq<char>, DatumModel)>,
) -> bool
    decreases wire,
{
    forall|name: Seq<char>|
        match held_under(fields, wire, name) {
            Some(at) => 0 <= at < wire.len() && shows_field(
                registry,
                fields[field_with_number(fields, wire[at].0)->0],
                wire[at].1,
                #[trigger] datum_under(entries, name),
            ),
            None => datum_under(entries, name) is None,
        }
}

/// Whether a datum is what a column shows of a value that was sent in its field.
pub open spec fn shows_value(
    registry: Registry,
    resolved: ResolvedType,
    value: WireModel,
    datum: DatumModel,
) -> bool {
    match value {
        WireModel::Enum(_) | WireModel::Nested(_) => shows_nested(
            registry,
            resolved,
            value,
            datum,
        ),
        _ => is_shown_as(value, datum),
    }
}

/// Whether a datum is the default value of a field, or null if the field has none.
pub open spec fn shows_default(default: Option<WireModel>, datum: DatumModel) -> bool {
    match default {
        Some(default) => is_shown_as(default, datum),
        None => datum is Null,
    }
}

/// Whether a datum is what a column shows of what a message holds of a field.
pub open spec fn shows_column(
    registry: Registry,
    field: FieldModel,
    held: WireFieldModel,
    default: Option<WireModel>,
    datum: DatumModel,
) -> bool {
    let resolved = registry.resolve(field.declared);
    match held {
        WireFieldModel::Singular(None) => shows_default(default, datum),
        WireFieldModel::Singular(Some(value)) => shows_value(registry, resolved, value, datum),
        WireFieldModel::Repeated(_) => shows_field(registry, field, held, Some(datum)),
    }
}

/// The datums of an array are those of its items.
proof fn lemma_nested_item(items: Seq<DynamicModel>, i: int)
    requires
        nested_items(items) is Ok,
        0 <= i < items.len(),
    ensures
        nested_items(items)->Ok_0.len() == items.len(),
        nested_datum(items[i]) == Ok::<DatumModel, DecodeErrorModel>(nested_items(items)->Ok_0[i]),
    decreases items.len(),
{
    lemma_nested_items_are_json(items);
    lemma_nested_items_are_json(items.drop_last());
    if i < items.len() - 1 {
        lemma_nested_item(items.drop_last(), i);
    }
}

/// What stands under a text in a map stands in one of its entries.
proof fn lemma_value_under_is_entry(
    entries: Seq<(DynamicModel, DynamicModel)>,
    key: Seq<char>,
) -> (i: int)
    requires
        value_under(entries, key) is Some,
    ensures
        0 <= i < entries.len(),
        entries[i].0 == DynamicModel::String(key),
    decreases entries.len(),
{
    if entries[0].0 == DynamicModel::String(key) {
        0
    } else {
        let i = lemma_value_under_is_entry(entries.skip(1), key);
        assert(entries.skip(1)[i] == entries[i + 1]);
        i + 1
    }
}

/// The last entry of a map stands under its own key only.
proof fn lemma_value_under_push(entries: Seq<(DynamicModel, DynamicModel)>, key: Seq<char>)
    requires
        entries.len() > 0,
        entries.last().0 != DynamicModel::String(key),
    ensures
        value_under(entries, key) == value_under(entries.drop_last(), key),
    decreases entries.len(),
{
    if entries.len() == 1 {
        assert(value_under(entries.skip(1), key) is None);
    } else if entries[0].0 != DynamicModel::String(key) {
        assert(entries.skip(1).drop_last() =~= entries.drop_last().skip(1));
        lemma_value_under_push(entries.skip(1), key);
    }
}

/// What a dict shows of an entry of the map that it comes from.
spec fn entry_datum(value: Option<DynamicModel>) -> Option<DatumModel> {
    match value {
        Some(DynamicModel::Option(Some(content))) => Some(nested_datum(*content)->Ok_0),
        Some(DynamicModel::Sequence(items)) => Some(DatumModel::List(nested_items(items)->Ok_0)),
        _ => None,
    }
}

/// Whether an entry of a map has a place in a dict.
spec fn entry_nests(value: DynamicModel) -> bool {
    match value {
        DynamicModel::Option(None) => true,
        DynamicModel::Option(Some(content)) => nested_datum(*content) is Ok,
        DynamicModel::Sequence(items) => nested_items(items) is Ok,
        _ => false,
    }
}

/// A dict shows the entries of the map that it comes from.
proof fn lemma_dict_shows_entries(entries: Seq<(DynamicModel, DynamicModel)>, key: Seq<char>)
    requires
        ascending(entries),
        nested_entries(entries) is Ok,
    ensures
        datum_under(nested_entries(entries)->Ok_0, key) == entry_datum(value_under(entries, key)),
        value_under(entries, key) matches Some(value) ==> entry_nests(value),
    decreases entries.len(),
{
    if entries.len() > 0 {
        let rest = entries.drop_last();
        let last = entries.last();
        let before = nested_entries(rest)->Ok_0;
        let datums = nested_entries(entries)->Ok_0;
        assert(forall|i: int| 0 <= i < rest.len() ==> rest[i] == entries[i]);
        lemma_dict_shows_entries(rest, key);
        assert(datums == before || (datums == before.push(datums.last()) && last.0
            == DynamicModel::String(datums.last().0)));
        assert(datums != before ==> datums.drop_last() =~= before);
        if last.0 == DynamicModel::String(key) {
            lemma_value_under_key(entries, entries.len() - 1);
            if value_under(rest, key) is Some {
                let i = lemma_value_under_is_entry(rest, key);
                assert(precedes(entries[i].0->String_0, entries[entries.len() - 1].0->String_0));
                lemma_not_before_itself(key);
            }
        } else {
            lemma_value_under_push(entries, key);
        }
    }
}

/// The datum of a value in a document shows the value that was sent.
proof fn lemma_value_shows(
    registry: Registry,
    resolved: ResolvedType,
    value: WireModel,
    spelled: DynamicModel,
)
    requires
        spells_value(registry, resolved, value, spelled),
        nested_datum(spelled) is Ok,
    ensures
        shows_nested(registry, resolved, value, nested_datum(spelled)->Ok_0),
    decreases value,
{
    law_nested_values_keep_their_meaning(spelled);
    if let WireModel::Nested(wire) = value {
        assert(decreases_to!(value => value->Nested_0));
        lemma_message_shows(registry, resolved->Message_0, wire, spelled);
    }
}

/// The list of an array shows the values that were sent.
proof fn lemma_items_show(
    registry: Registry,
    resolved: ResolvedType,
    values: Seq<WireModel>,
    items: Seq<DynamicModel>,
)
    requires
        items.len() == values.len(),
        forall|i: int|
            0 <= i < values.len() ==> spells_value(
                registry,
                resolved,
                #[trigger] values[i],
                items[i],
            ),
        nested_items(items) is Ok,
    ensures
        nested_items(items)->Ok_0.len() == values.len(),
        forall|i: int|
            0 <= i < values.len() ==> shows_nested(
                registry,
                resolved,
                #[trigger] values[i],
                nested_items(items)->Ok_0[i],
            ),
    decreases values,
{
    lemma_nested_items_are_json(items);
    assert forall|i: int| 0 <= i < values.len() implies shows_nested(
        registry,
        resolved,
        #[trigger] values[i],
        nested_items(items)->Ok_0[i],
    ) by {
        lemma_nested_item(items, i);
        assert(decreases_to!(values => values[i]));
        lemma_value_shows(registry, resolved, values[i], items[i]);
    }
}

/// The entry of a dict shows what was sent in the field.
proof fn lemma_field_shows(
    registry: Registry,
    field: FieldModel,
    held: WireFieldModel,
    spelled: DynamicModel,
)
    requires
        spells_field(registry, field, held, spelled),
        entry_nests(spelled),
    ensures
        shows_field(registry, field, held, entry_datum(Some(spelled))),
    decreases held,
{
    let resolved = registry.resolve(field.declared);
    match held {
        WireFieldModel::Singular(None) => {},
        WireFieldModel::Singular(Some(value)) => {
            assert(decreases_to!(held => held->Singular_0->0));
            lemma_value_shows(registry, resolved, value, *spelled->Option_0->0);
        },
        WireFieldModel::Repeated(values) => {
            assert(decreases_to!(held => held->Repeated_0));
            lemma_items_show(registry, resolved, values, spelled->Sequence_0);
        },
    }
}

/// The dict of a nested message shows what was sent in it.
proof fn lemma_message_shows(
    registry: Registry,
    fields: Seq<FieldModel>,
    wire: Seq<(i32, WireFieldModel)>,
    spelled: DynamicModel,
)
    requires
        spells_message(registry, fields, wire, spelled),
        nested_datum(spelled) is Ok,
    ensures
        nested_datum(spelled)->Ok_0 matches DatumModel::Dict(entries) && shows_message(
            registry,
            fields,
            wire,
            entries,
        ),
    decreases wire,
{
    let entries = spelled->Mapping_0;
    let datums = nested_entries(entries)->Ok_0;
    assert forall|name: Seq<char>|
        match held_under(fields, wire, name) {
            Some(at) => 0 <= at < wire.len() && shows_field(
                registry,
                fields[field_with_number(fields, wire[at].0)->0],
                wire[at].1,
                #[trigger] datum_under(datums, name),
            ),
            None => datum_under(datums, name) is None,
        } by {
        lemma_dict_shows_entries(entries, name);
        lemma_held_under(fields, wire, name);
        if let Some(at) = held_under(fields, wire, name) {
            assert(value_under(entries, name) is Some);
            assert(decreases_to!(wire => wire[at]));
            assert(decreases_to!(wire[at] => wire[at].1));
            lemma_field_shows(
                registry,
                fields[field_with_number(fields, wire[at].0)->0],
                wire[at].1,
                value_under(entries, name)->0,
            );
        }
    }
}

/// There are as many datums as fields.
proof fn lemma_row_count(entries: Seq<(DynamicModel, DynamicModel)>, fields: Seq<FieldModel>)
    ensures
        row_datums(entries, fields) matches Ok(datums) ==> datums.len() == fields.len(),
    decreases fields.len(),
{
    if fields.len() > 0 {
        lemma_row_count(entries, fields.drop_last());
    }
}

/// The datums of a row are those of its columns.
proof fn lemma_row_datum(
    entries: Seq<(DynamicModel, DynamicModel)>,
    fields: Seq<FieldModel>,
    i: int,
)
    requires
        row_datums(entries, fields) is Ok,
        0 <= i < fields.len(),
    ensures
        row_datums(entries, fields)->Ok_0.len() == fields.len(),
        column_datum(value_under(entries, fields[i].name), fields[i].default) == Ok::<
            DatumModel,
            DecodeErrorModel,
        >(row_datums(entries, fields)->Ok_0[i]),
    decreases fields.len(),
{
    lemma_row_count(entries, fields);
    lemma_row_count(entries, fields.drop_last());
    if i < fields.len() - 1 {
        lemma_row_datum(entries, fields.drop_last(), i);
    }
}

/// A row has one datum for each field, and it shows what was sent in the field that the message
/// holds under its name. A field that is not held, or was not sent, shows its default value or else
/// null; a repeated field that is held shows a list of all that was sent in it, empty if nothing
/// was.
pub proof fn law_rows_show_what_was_sent(
    registry: Registry,
    fields: Seq<FieldModel>,
    wire: Seq<(i32, WireFieldModel)>,
    spelled: DynamicModel,
    i: int,
)
    requires
        spells_message(registry, fields, wire, spelled),
        forall|j: int| 0 <= j < fields.len() ==> (#[trigger] fields[j]).label !is Required,
        fits_message(registry, fields, wire),
        0 <= i < fields.len(),
    ensures
        extracted(spelled, fields) matches Ok(datums) ==> {
            &&& datums.len() == fields.len()
            &&& match held_under(fields, wire, fields[i].name) {
                Some(at) => shows_column(
                    registry,
                    fields[field_with_number(fields, wire[at].0)->0],
                    wire[at].1,
                    fields[i].default,
                    datums[i],
                ),
                None => shows_default(fields[i].default, datums[i]),
            }
        },
{
    let field = fields[i];
    let entries = spelled->Mapping_0;
    let found = value_under(entries, field.name);
    lemma_held_under(fields, wire, field.name);
    if extracted(spelled, fields) is Ok {
        lemma_row_datum(entries, fields, i);
        if let Some(at) = held_under(fields, wire, field.name) {
            let shown = fields[field_with_number(fields, wire[at].0)->0];
            let resolved = registry.resolve(shown.declared);
            assert(found is Some);
            assert(spells_field(registry, shown, wire[at].1, found->0));
            assert(fits_field(registry, shown, wire[at].1));
            match wire[at].1 {
                WireFieldModel::Singular(None) => {},
                WireFieldModel::Singular(Some(value)) => {
                    if value is Nested {
                        lemma_value_shows(registry, resolved, value, *found->0->Option_0->0);
                    }
                },
                WireFieldModel::Repeated(values) => {
                    lemma_items_show(registry, resolved, values, found->0->Sequence_0);
                },
            }
        } else {
            assert(found is None);
        }
    }
}

/// A message type is refused for the first of its fields that cannot be a column, and for nothing
/// else.
pub proof fn law_first_bad_field_is_reported(
    registry: Registry,
    fields: Seq<FieldModel>,
    depth: nat,
) -> (i: int)
    requires
        check_columns(registry, fields, depth) matches Some(Err(_)),
    ensures
        0 <= i < fields.len(),
        check_columns(registry, fields, depth) matches Some(Err(error)) && check_column(
            registry,
            fields[i],
            depth,
        ) == Some(Err::<ScalarType, SchemaErrorModel>(error)),
        forall|j: int|
            0 <= j < i ==> (check_column(registry, #[trigger] fields[j], depth) matches Some(
                Ok(_),
            )),
    decreases fields.len(),
{
    let rest = fields.drop_last();
    if check_columns(registry, rest, depth) matches Some(Err(_)) {
        let i = law_first_bad_field_is_reported(registry, rest, depth);
        assert forall|j: int| 0 <= j < i implies (check_column(
            registry,
            #[trigger] fields[j],
            depth,
        ) matches Some(Ok(_))) by {
            assert(rest[j] == fields[j]);
        }
        i
    } else {
        assert forall|j: int| 0 <= j < rest.len() implies (check_column(
            registry,
            #[trigger] fields[j],
            depth,
        ) matches Some(Ok(_))) by {
            lemma_columns_of_fields(registry, rest, depth, j);
        }
        fields.len() - 1
    }
}

/// A message that does not become a row is refused for the first of its columns that has no datum.
pub proof fn law_first_bad_column_is_reported(
    entries: Seq<(DynamicModel, DynamicModel)>,
    fields: Seq<FieldModel>,
) -> (i: int)
    requires
        extracted(DynamicModel::Mapping(entries), fields) is Err,
    ensures
        0 <= i < fields.len(),
        extracted(DynamicModel::Mapping(entries), fields) matches Err(error) && column_datum(
            value_under(entries, fields[i].name),
            fields[i].default,
        ) == Err::<DatumModel, DecodeErrorModel>(error),
        forall|j: int|
            0 <= j < i ==> column_datum(
                value_under(entries, (#[trigger] fields[j]).name),
                fields[j].default,
            ) is Ok,
    decreases fields.len(),
{
    let rest = fields.drop_last();
    if row_datums(entries, rest) is Err {
        let i = law_first_bad_column_is_reported(entries, rest);
        assert forall|j: int| 0 <= j < i implies column_datum(
            value_under(entries, (#[trigger] fields[j]).name),
            fields[j].default,
        ) is Ok by {
            assert(rest[j] == fields[j]);
        }
        i
    } else {
        assert forall|j: int| 0 <= j < rest.len() implies column_datum(
            value_under(entries, (#[trigger] fields[j]).name),
            fields[j].default,
        ) is Ok by {
            lemma_row_datum(entries, rest, j);
        }
        fields.len() - 1
    }
}

} // verus!
