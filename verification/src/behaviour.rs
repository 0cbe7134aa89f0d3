//! What each operation does, said of its inputs and results.
//!
//! The statements here do not go by the rules that the operations follow: they say what has to come
//! out of them.
use crate::decoder::refusal;
use crate::decoder::DecodeRefusal;
use crate::decoder::DecoderModel;
use crate::descriptor::field_with_number;
use crate::descriptor::FieldModel;
use crate::descriptor::Registry;
use crate::descriptor::ResolvedType;
use crate::descriptor::ScalarKind;
use crate::descriptor::WireFieldModel;
use crate::descriptor::WireModel;
use crate::error::SchemaErrorModel;
use crate::load::declares_group_default;
use crate::load::has_group_default;
use crate::load::MessageShape;
use crate::relation::ColumnModel;
use crate::relation::ScalarType;
use crate::schema::accepted;
use crate::schema::check_all_nested;
use crate::schema::check_column;
use crate::schema::check_columns;
use crate::schema::check_nested;
use crate::schema::law_depth_does_not_matter;
use crate::schema::relation_of;
use crate::schema::settles;
use crate::wire::field_has_group;
use crate::wire::has_group;
use crate::wire::is_group_free;
use crate::wire::parsed_message;
use crate::wire::readable_field;
use crate::wire::readable_fields;
use crate::wire::readable_value;
use vstd::prelude::*;

verus! {

/// Whether a field can stand in an array or in a nested message: it is not required, and it is not
/// a group, bytes or of an unknown type, and neither is any field that it leads to. Message types
/// end within `depth`.
pub open spec fn nests(registry: Registry, field: FieldModel, depth: nat) -> bool
    decreases depth,
{
    &&& field.label !is Required
    &&& match registry.resolve(field.declared) {
        ResolvedType::Scalar(kind) => kind !is Bytes && kind !is Group,
        ResolvedType::Enum(_) => true,
        ResolvedType::Message(fields) => depth > 0 && forall|i: int|
            0 <= i < fields.len() ==> nests(registry, #[trigger] fields[i], (depth - 1) as nat),
        ResolvedType::UnresolvedMessage(_) => false,
        ResolvedType::UnresolvedEnum(_) => false,
    }
}

/// Whether a field can be a column: an optional one of any known type but a group, if a message of
/// fields that can be nested; or a repeated one that can be nested.
pub open spec fn is_column(registry: Registry, field: FieldModel, depth: nat) -> bool {
    ||| field.label is Repeated && nests(registry, field, depth)
    ||| field.label is Optional && match registry.resolve(field.declared) {
        ResolvedType::Scalar(kind) => kind !is Group,
        ResolvedType::Enum(_) => true,
        ResolvedType::Message(fields) => forall|i: int|
            0 <= i < fields.len() ==> nests(registry, #[trigger] fields[i], depth),
        ResolvedType::UnresolvedMessage(_) => false,
        ResolvedType::UnresolvedEnum(_) => false,
    }
}

/// Whether an error is what keeps a field from standing in an array or in a nested message.
pub open spec fn is_nesting_error(
    registry: Registry,
    field: FieldModel,
    depth: nat,
    error: SchemaErrorModel,
) -> bool
    decreases depth, 0nat,
{
    if field.label is Required {
        error == SchemaErrorModel::RequiredField(field.name)
    } else {
        match registry.resolve(field.declared) {
            ResolvedType::Scalar(kind) => {
                ||| kind is Bytes && error is NestedBytes
                ||| kind is Group && error is Group
            },
            ResolvedType::Enum(_) => false,
            ResolvedType::Message(fields) => depth > 0 && is_first_nesting_error(
                registry,
                fields,
                (depth - 1) as nat,
                error,
            ),
            ResolvedType::UnresolvedMessage(name) => error
                == SchemaErrorModel::NestedUnresolvedMessage(name),
            ResolvedType::UnresolvedEnum(name) => error == SchemaErrorModel::NestedUnresolvedEnum(
                name,
            ),
        }
    }
}

/// Whether an error is what keeps the first field that cannot be nested from being so.
pub open spec fn is_first_nesting_error(
    registry: Registry,
    fields: Seq<FieldModel>,
    depth: nat,
    error: SchemaErrorModel,
) -> bool
    decreases depth, 1nat,
{
    exists|i: int|
        {
            &&& 0 <= i < fields.len()
            &&& is_nesting_error(registry, #[trigger] fields[i], depth, error)
            &&& forall|j: int| 0 <= j < i ==> nests(registry, #[trigger] fields[j], depth)
        }
}

/// Whether an error is what keeps a field from being a column.
pub open spec fn is_column_error(
    registry: Registry,
    field: FieldModel,
    depth: nat,
    error: SchemaErrorModel,
) -> bool {
    if field.label is Repeated {
        is_nesting_error(registry, field, depth, error)
    } else if field.label is Required {
        error == SchemaErrorModel::RequiredField(field.name)
    } else {
        match registry.resolve(field.declared) {
            ResolvedType::Scalar(kind) => kind is Group && error is Group,
            ResolvedType::Enum(_) => false,
            ResolvedType::Message(fields) => is_first_nesting_error(
                registry,
                fields,
                depth,
                error,
            ),
            ResolvedType::UnresolvedMessage(name) => error == SchemaErrorModel::UnresolvedMessage(
                name,
            ),
            ResolvedType::UnresolvedEnum(name) => error == SchemaErrorModel::UnresolvedEnum(name),
        }
    }
}

/// The scalar types of fields whose columns are of a type.
pub open spec fn holds_kind(scalar_type: ScalarType, kind: ScalarKind) -> bool {
    match scalar_type {
        ScalarType::Bool => kind is Bool,
        ScalarType::Int32 => kind is Int32 || kind is SInt32 || kind is SFixed32,
        ScalarType::Int64 => kind is Int64 || kind is SInt64 || kind is SFixed64,
        ScalarType::Float32 => kind is Float,
        ScalarType::Float64 => kind is Double,
        ScalarType::Decimal(precision, scale) => precision == 38 && scale == 0 && (kind is UInt32
            || kind is Fixed32 || kind is UInt64 || kind is Fixed64),
        ScalarType::Bytes => kind is Bytes,
        ScalarType::String => kind is Text,
        ScalarType::Jsonb => false,
    }
}

/// Whether a column is the one of a field: it goes by the field's name, takes nulls if and only if
/// the field has no default value, and is of the type that the field's type says, a document if the
/// field is repeated or a message.
pub open spec fn is_column_of(registry: Registry, field: FieldModel, column: ColumnModel) -> bool {
    &&& column.name == Some(field.name)
    &&& column.column_type.nullable <==> field.default is None
    &&& if field.label is Repeated {
        column.column_type.scalar_type is Jsonb
    } else {
        match registry.resolve(field.declared) {
            ResolvedType::Scalar(kind) => holds_kind(column.column_type.scalar_type, kind),
            ResolvedType::Enum(_) => column.column_type.scalar_type is String,
            _ => column.column_type.scalar_type is Jsonb,
        }
    }
}

/// What a look at one field of an array or of a nested message finds.
proof fn lemma_nested_check(
    registry: Registry,
    field: FieldModel,
    depth: nat,
    error: SchemaErrorModel,
)
    ensures
        (check_nested(registry, field, depth) matches Some(Ok(_))) <==> nests(
            registry,
            field,
            depth,
        ),
        check_nested(registry, field, depth) == Some(Err::<(), SchemaErrorModel>(error))
            <==> is_nesting_error(registry, field, depth, error),
    decreases depth, 0nat,
{
    if let ResolvedType::Message(fields) = registry.resolve(field.declared) {
        if depth > 0 && field.label !is Required {
            lemma_all_nested_check(registry, fields, (depth - 1) as nat, error);
        }
    }
}

/// What a look at the fields of a nested message finds.
proof fn lemma_all_nested_check(
    registry: Registry,
    fields: Seq<FieldModel>,
    depth: nat,
    error: SchemaErrorModel,
)
    ensures
        (check_all_nested(registry, fields, depth) matches Some(Ok(_))) <==> (forall|i: int|
            0 <= i < fields.len() ==> nests(registry, #[trigger] fields[i], depth)),
        check_all_nested(registry, fields, depth) == Some(Err::<(), SchemaErrorModel>(error))
            <==> is_first_nesting_error(registry, fields, depth, error),
    decreases depth, fields.len() + 1,
{
    if fields.len() > 0 {
        let rest = fields.drop_last();
        let last = fields[fields.len() - 1];
        lemma_all_nested_check(registry, rest, depth, error);
        lemma_nested_check(registry, last, depth, error);
        assert(forall|i: int| 0 <= i < rest.len() ==> rest[i] == fields[i]);
        assert((forall|i: int|
            0 <= i < fields.len() ==> nests(registry, #[trigger] fields[i], depth)) ==> (
        forall|i: int| 0 <= i < rest.len() ==> nests(registry, #[trigger] rest[i], depth)));
        if is_first_nesting_error(registry, rest, depth, error) {
            let i = choose|i: int|
                {
                    &&& 0 <= i < rest.len()
                    &&& is_nesting_error(registry, #[trigger] rest[i], depth, error)
                    &&& forall|j: int| 0 <= j < i ==> nests(registry, #[trigger] rest[j], depth)
                };
            assert(is_nesting_error(registry, fields[i], depth, error));
            assert forall|j: int| 0 <= j < i implies nests(
                registry,
                #[trigger] fields[j],
                depth,
            ) by {
                assert(nests(registry, rest[j], depth));
            }
        }
        if is_first_nesting_error(registry, fields, depth, error) {
            let i = choose|i: int|
                {
                    &&& 0 <= i < fields.len()
                    &&& is_nesting_error(registry, #[trigger] fields[i], depth, error)
                    &&& forall|j: int| 0 <= j < i ==> nests(registry, #[trigger] fields[j], depth)
                };
            if i < rest.len() {
                assert(is_nesting_error(registry, rest[i], depth, error));
                assert(is_first_nesting_error(registry, rest, depth, error));
            } else {
                assert forall|j: int| 0 <= j < rest.len() implies nests(
                    registry,
                    #[trigger] rest[j],
                    depth,
                ) by {
                    assert(nests(registry, fields[j], depth));
                }
            }
        }
    }
}

/// What a look at one column finds.
proof fn lemma_column_check(
    registry: Registry,
    field: FieldModel,
    depth: nat,
    error: SchemaErrorModel,
)
    ensures
        (check_column(registry, field, depth) matches Some(Ok(_))) <==> is_column(
            registry,
            field,
            depth,
        ),
        check_column(registry, field, depth) == Some(Err::<ScalarType, SchemaErrorModel>(error))
            <==> is_column_error(registry, field, depth, error),
{
    lemma_nested_check(registry, field, depth, error);
    if let ResolvedType::Message(fields) = registry.resolve(field.declared) {
        lemma_all_nested_check(registry, fields, depth, error);
    }
}

/// A message type is found fit to be a relation if and only if each of its fields can be a column;
/// message types are followed `depth` deep. There is one column for each field then, in the order
/// of the fields, and it is the one of the field.
pub proof fn law_supported_fields_become_columns(
    registry: Registry,
    fields: Seq<FieldModel>,
    depth: nat,
)
    ensures
        (check_columns(registry, fields, depth) matches Some(Ok(_))) <==> (forall|i: int|
            0 <= i < fields.len() ==> is_column(registry, #[trigger] fields[i], depth)),
        check_columns(registry, fields, depth) matches Some(Ok(columns)) ==> columns.len()
            == fields.len() && forall|i: int|
            0 <= i < fields.len() ==> is_column_of(registry, #[trigger] fields[i], columns[i]),
    decreases fields.len(),
{
    if fields.len() > 0 {
        let rest = fields.drop_last();
        law_supported_fields_become_columns(registry, rest, depth);
        lemma_column_check(registry, fields[fields.len() - 1], depth, SchemaErrorModel::Group);
        assert(forall|i: int| 0 <= i < rest.len() ==> rest[i] == fields[i]);
        assert((forall|i: int|
            0 <= i < fields.len() ==> is_column(registry, #[trigger] fields[i], depth)) ==> (
        forall|i: int| 0 <= i < rest.len() ==> is_column(registry, #[trigger] rest[i], depth)));
        if let Some(Ok(columns)) = check_columns(registry, fields, depth) {
            let before = check_columns(registry, rest, depth)->0->Ok_0;
            assert forall|i: int| 0 <= i < fields.len() implies is_column_of(
                registry,
                #[trigger] fields[i],
                columns[i],
            ) by {
                if i < rest.len() {
                    assert(is_column_of(registry, rest[i], before[i]));
                }
            }
        }
    }
}

/// Every message type of which each field, at any depth, is of a supported kind becomes a relation:
/// none is required, a group or of an unknown type, and no bytes stand in an array or in a nested
/// message. The relation has the columns of the fields.
pub proof fn law_supported_messages_become_relations(
    registry: Registry,
    fields: Seq<FieldModel>,
    depth: nat,
)
    requires
        forall|i: int| 0 <= i < fields.len() ==> is_column(registry, #[trigger] fields[i], depth),
    ensures
        settles(registry, fields),
        accepted(registry, fields),
        relation_of(registry, fields) matches Ok(columns) && columns.len() == fields.len()
            && forall|i: int|
            0 <= i < fields.len() ==> is_column_of(registry, #[trigger] fields[i], columns[i]),
{
    law_supported_fields_become_columns(registry, fields, depth);
    law_depth_does_not_matter(registry, fields, depth);
}

/// No other message type becomes a relation: the fields of one that does all can be columns.
pub proof fn law_relations_have_supported_fields(
    registry: Registry,
    fields: Seq<FieldModel>,
) -> (depth: nat)
    requires
        accepted(registry, fields),
    ensures
        forall|i: int| 0 <= i < fields.len() ==> is_column(registry, #[trigger] fields[i], depth),
{
    let depth = choose|depth: nat| #[trigger] check_columns(registry, fields, depth) is Some;
    law_depth_does_not_matter(registry, fields, depth);
    law_supported_fields_become_columns(registry, fields, depth);
    depth
}

/// A message type is refused if and only if a field cannot be a column and those before it can, and
/// for what keeps that field from being one.
pub proof fn law_refused_messages_have_a_bad_field(
    registry: Registry,
    fields: Seq<FieldModel>,
    depth: nat,
    error: SchemaErrorModel,
)
    ensures
        check_columns(registry, fields, depth) == Some(
            Err::<Seq<ColumnModel>, SchemaErrorModel>(error),
        ) <==> exists|i: int|
            {
                &&& 0 <= i < fields.len()
                &&& is_column_error(registry, #[trigger] fields[i], depth, error)
                &&& forall|j: int| 0 <= j < i ==> is_column(registry, #[trigger] fields[j], depth)
            },
    decreases fields.len(),
{
    if fields.len() > 0 {
        let rest = fields.drop_last();
        let last = fields[fields.len() - 1];
        law_refused_messages_have_a_bad_field(registry, rest, depth, error);
        law_supported_fields_become_columns(registry, rest, depth);
        lemma_column_check(registry, last, depth, error);
        assert(forall|i: int| 0 <= i < rest.len() ==> rest[i] == fields[i]);
        if check_columns(registry, rest, depth) == Some(
            Err::<Seq<ColumnModel>, SchemaErrorModel>(error),
        ) {
            let i = choose|i: int|
                {
                    &&& 0 <= i < rest.len()
                    &&& is_column_error(registry, #[trigger] rest[i], depth, error)
                    &&& forall|j: int| 0 <= j < i ==> is_column(registry, #[trigger] rest[j], depth)
                };
            assert(is_column_error(registry, fields[i], depth, error));
            assert forall|j: int| 0 <= j < i implies is_column(
                registry,
                #[trigger] fields[j],
                depth,
            ) by {
                assert(is_column(registry, rest[j], depth));
            }
        } else if check_columns(registry, rest, depth) matches Some(Ok(_)) {
            assert forall|j: int| 0 <= j < rest.len() implies is_column(
                registry,
                #[trigger] fields[j],
                depth,
            ) by {
                assert(is_column(registry, rest[j], depth));
            }
        }
        if exists|i: int|
            {
                &&& 0 <= i < fields.len()
                &&& is_column_error(registry, #[trigger] fields[i], depth, error)
                &&& forall|j: int| 0 <= j < i ==> is_column(registry, #[trigger] fields[j], depth)
            } {
            let i = choose|i: int|
                {
                    &&& 0 <= i < fields.len()
                    &&& is_column_error(registry, #[trigger] fields[i], depth, error)
                    &&& forall|j: int|
                        0 <= j < i ==> is_column(registry, #[trigger] fields[j], depth)
                };
            assert forall|j: int| 0 <= j < i && j < rest.len() implies is_column(
                registry,
                #[trigger] rest[j],
                depth,
            ) by {
                assert(is_column(registry, fields[j], depth));
            }
            if i < rest.len() {
                assert(is_column_error(registry, rest[i], depth, error));
            }
        }
    }
}

/// Whether every enum that an encoded message holds, at any depth, has a number that its enum
/// declares, and every value that is an enum or a message stands in a field of such a type.
pub open spec fn is_declared(
    registry: Registry,
    fields: Seq<FieldModel>,
    wire: Seq<(i32, WireFieldModel)>,
) -> bool
    decreases wire, 0nat,
{
    forall|i: int|
        0 <= i < wire.len() ==> is_declared_entry(registry, fields, #[trigger] wire[i])
}

/// Whether what is held of a field is declared, the field being the last one with its number.
pub open spec fn is_declared_entry(
    registry: Registry,
    fields: Seq<FieldModel>,
    entry: (i32, WireFieldModel),
) -> bool
    decreases entry, 0nat,
{
    exists|owner: int|
        is_last_with_number(fields, owner, entry.0) && is_declared_field(
            registry,
            registry.resolve((#[trigger] fields[owner]).declared),
            entry.1,
        )
}

/// Whether all that is held of a field is declared.
pub open spec fn is_declared_field(
    registry: Registry,
    resolved: ResolvedType,
    held: WireFieldModel,
) -> bool
    decreases held, 0nat,
{
    match held {
        WireFieldModel::Singular(None) => true,
        WireFieldModel::Singular(Some(value)) => is_declared_value(registry, resolved, value),
        WireFieldModel::Repeated(values) => forall|i: int|
            0 <= i < values.len() ==> is_declared_value(registry, resolved, #[trigger] values[i]),
    }
}

/// Whether a value is declared.
pub open spec fn is_declared_value(
    registry: Registry,
    resolved: ResolvedType,
    value: WireModel,
) -> bool
    decreases value, 0nat,
{
    &&& value matches WireModel::Enum(number) ==> (resolved matches ResolvedType::Enum(names)
        && names.dom().contains(number))
    &&& value matches WireModel::Nested(wire) ==> (resolved matches ResolvedType::Message(fields)
        && is_declared(registry, fields, wire))
}

/// Whether a field is the last one that has a number.
pub open spec fn is_last_with_number(fields: Seq<FieldModel>, place: int, number: i32) -> bool {
    &&& 0 <= place < fields.len()
    &&& fields[place].number == number
    &&& forall|later: int| place < later < fields.len() ==> (#[trigger] fields[later]).number
        != number
}

/// A number leads to the last field that has it.
pub proof fn law_numbers_lead_to_their_last_field(fields: Seq<FieldModel>, number: i32)
    ensures
        match field_with_number(fields, number) {
            Some(place) => is_last_with_number(fields, place, number),
            None => forall|i: int| 0 <= i < fields.len() ==> (#[trigger] fields[i]).number
                != number,
        },
    decreases fields.len(),
{
    if fields.len() > 0 && fields.last().number != number {
        let rest = fields.drop_last();
        law_numbers_lead_to_their_last_field(rest, number);
        assert(forall|i: int| 0 <= i < rest.len() ==> rest[i] == fields[i]);
        assert(fields[fields.len() - 1] == fields.last());
        if field_with_number(rest, number) is None {
            assert forall|i: int| 0 <= i < fields.len() implies (#[trigger] fields[i]).number
                != number by {
                if i < rest.len() {
                    assert(rest[i].number != number);
                }
            }
        } else {
            let place = field_with_number(rest, number)->0;
            assert forall|later: int| place < later < fields.len() implies (
            #[trigger] fields[later]).number != number by {
                if later < rest.len() {
                    assert(rest[later].number != number);
                }
            }
        }
    }
}

/// What can be read of a value is what is declared.
proof fn lemma_value_is_readable(registry: Registry, resolved: ResolvedType, value: WireModel)
    ensures
        readable_value(registry, resolved, value) <==> is_declared_value(registry, resolved, value),
    decreases value, 0nat,
{
    if let WireModel::Nested(wire) = value {
        assert(decreases_to!(value => value->Nested_0));
        if let ResolvedType::Message(fields) = resolved {
            law_declared_messages_are_readable(registry, fields, wire);
        }
    }
}

/// What can be read of a field is what is declared.
proof fn lemma_field_is_readable(registry: Registry, resolved: ResolvedType, held: WireFieldModel)
    ensures
        readable_field(registry, resolved, held) <==> is_declared_field(registry, resolved, held),
    decreases held, 0nat,
{
    match held {
        WireFieldModel::Singular(None) => {},
        WireFieldModel::Singular(Some(value)) => {
            assert(decreases_to!(held => held->Singular_0->0));
            lemma_value_is_readable(registry, resolved, value);
        },
        WireFieldModel::Repeated(values) => {
            assert forall|i: int| 0 <= i < values.len() implies (readable_value(
                registry,
                resolved,
                #[trigger] values[i],
            ) <==> is_declared_value(registry, resolved, values[i])) by {
                assert(decreases_to!(held => held->Repeated_0));
                assert(decreases_to!(values => values[i]));
                lemma_value_is_readable(registry, resolved, values[i]);
            }
            if is_declared_field(registry, resolved, held) {
                assert forall|i: int| 0 <= i < values.len() implies readable_value(
                    registry,
                    resolved,
                    #[trigger] values[i],
                ) by {
                    assert(is_declared_value(registry, resolved, values[i]));
                }
            }
        },
    }
}

/// An encoded message can be read if and only if all that it holds is declared: whatever number an
/// enum has a name for, a message that holds it can be read.
pub proof fn law_declared_messages_are_readable(
    registry: Registry,
    fields: Seq<FieldModel>,
    wire: Seq<(i32, WireFieldModel)>,
)
    ensures
        readable_fields(registry, fields, wire) <==> is_declared(registry, fields, wire),
    decreases wire, 0nat,
{
    assert forall|i: int| 0 <= i < wire.len() implies ((field_with_number(
        fields,
        (#[trigger] wire[i]).0,
    ) matches Some(place) && readable_field(
        registry,
        registry.resolve(fields[place].declared),
        wire[i].1,
    )) <==> is_declared_entry(registry, fields, wire[i])) by {
        assert(decreases_to!(wire => wire[i]));
        assert(decreases_to!(wire[i] => wire[i].1));
        law_numbers_lead_to_their_last_field(fields, wire[i].0);
        if let Some(place) = field_with_number(fields, wire[i].0) {
            lemma_field_is_readable(registry, registry.resolve(fields[place].declared), wire[i].1);
            assert forall|other: int| #[trigger]
                is_last_with_number(fields, other, wire[i].0) implies other == place by {
                if other < place {
                    assert(fields[place].number != wire[i].0);
                } else if place < other {
                    assert(fields[other].number != wire[i].0);
                }
            }
        }
    }
    if is_declared(registry, fields, wire) {
        assert forall|i: int| 0 <= i < wire.len() implies (field_with_number(
            fields,
            (#[trigger] wire[i]).0,
        ) matches Some(place) && readable_field(
            registry,
            registry.resolve(fields[place].declared),
            wire[i].1,
        )) by {
            assert(is_declared_entry(registry, fields, wire[i]));
        }
    }
}

/// Whether a field is a group, or a message with a group that can be reached from it through
/// message types at most `depth` deep.
pub open spec fn field_leads_to_group(registry: Registry, field: FieldModel, depth: nat) -> bool
    decreases depth, 0nat,
{
    match registry.resolve(field.declared) {
        ResolvedType::Scalar(kind) => kind is Group,
        ResolvedType::Message(nested) => depth > 0 && leads_to_group(
            registry,
            nested,
            (depth - 1) as nat,
        ),
        _ => false,
    }
}

/// Whether a group can be reached from some fields, through message types at most `depth` deep.
pub open spec fn leads_to_group(registry: Registry, fields: Seq<FieldModel>, depth: nat) -> bool
    decreases depth, 1nat,
{
    exists|i: int|
        0 <= i < fields.len() && field_leads_to_group(registry, #[trigger] fields[i], depth)
}

/// Whether the message types that a field leads to end within `depth`.
pub open spec fn field_ends_within(registry: Registry, field: FieldModel, depth: nat) -> bool
    decreases depth, 0nat,
{
    registry.resolve(field.declared) matches ResolvedType::Message(nested) ==> depth > 0
        && ends_within(registry, nested, (depth - 1) as nat)
}

/// Whether the message types that some fields lead to end within `depth`.
pub open spec fn ends_within(registry: Registry, fields: Seq<FieldModel>, depth: nat) -> bool
    decreases depth, 1nat,
{
    forall|i: int|
        0 <= i < fields.len() ==> field_ends_within(registry, #[trigger] fields[i], depth)
}

/// What a look for groups finds in a field.
proof fn lemma_field_group(registry: Registry, field: FieldModel, depth: nat)
    ensures
        field_has_group(registry, field, depth) == Some(true) ==> field_leads_to_group(
            registry,
            field,
            depth,
        ),
        field_has_group(registry, field, depth) == Some(false) <==> field_ends_within(
            registry,
            field,
            depth,
        ) && !field_leads_to_group(registry, field, depth),
        field_has_group(registry, field, depth) is None ==> !field_ends_within(
            registry,
            field,
            depth,
        ),
    decreases depth, 0nat,
{
    if let ResolvedType::Message(nested) = registry.resolve(field.declared) {
        if depth > 0 {
            law_groups_are_found(registry, nested, (depth - 1) as nat);
        }
    }
}

/// What a look for groups finds is there, and it finds what is there.
pub proof fn law_groups_are_found(registry: Registry, fields: Seq<FieldModel>, depth: nat)
    ensures
        has_group(registry, fields, depth) == Some(true) ==> leads_to_group(
            registry,
            fields,
            depth,
        ),
        has_group(registry, fields, depth) == Some(false) <==> ends_within(registry, fields, depth)
            && !leads_to_group(registry, fields, depth),
        has_group(registry, fields, depth) is None ==> !ends_within(registry, fields, depth),
    decreases depth, fields.len() + 1,
{
    if fields.len() > 0 {
        let rest = fields.drop_last();
        let last = fields[fields.len() - 1];
        law_groups_are_found(registry, rest, depth);
        lemma_field_group(registry, last, depth);
        assert(forall|i: int| 0 <= i < rest.len() ==> rest[i] == fields[i]);
        assert(ends_within(registry, fields, depth) <==> ends_within(registry, rest, depth)
            && field_ends_within(registry, last, depth)) by {
            if ends_within(registry, fields, depth) {
                assert forall|i: int| 0 <= i < rest.len() implies field_ends_within(
                    registry,
                    #[trigger] rest[i],
                    depth,
                ) by {
                    assert(field_ends_within(registry, fields[i], depth));
                }
            }
            if ends_within(registry, rest, depth) && field_ends_within(registry, last, depth) {
                assert forall|i: int| 0 <= i < fields.len() implies field_ends_within(
                    registry,
                    #[trigger] fields[i],
                    depth,
                ) by {
                    if i < rest.len() {
                        assert(field_ends_within(registry, rest[i], depth));
                    }
                }
            }
        }
        assert(leads_to_group(registry, fields, depth) <==> leads_to_group(registry, rest, depth)
            || field_leads_to_group(registry, last, depth)) by {
            if leads_to_group(registry, rest, depth) {
                let i = choose|i: int|
                    0 <= i < rest.len() && field_leads_to_group(
                        registry,
                        #[trigger] rest[i],
                        depth,
                    );
                assert(field_leads_to_group(registry, fields[i], depth));
            }
            if leads_to_group(registry, fields, depth) {
                let i = choose|i: int|
                    0 <= i < fields.len() && field_leads_to_group(
                        registry,
                        #[trigger] fields[i],
                        depth,
                    );
                if i < rest.len() {
                    assert(field_leads_to_group(registry, rest[i], depth));
                }
            }
        }
    }
}

/// A message type is free of groups if and only if its message types end and lead to none.
pub proof fn law_group_free_messages_lead_to_no_group(registry: Registry, fields: Seq<FieldModel>)
    ensures
        is_group_free(registry, fields) <==> exists|depth: nat| #[trigger]
            ends_within(registry, fields, depth) && !leads_to_group(registry, fields, depth),
{
    if is_group_free(registry, fields) {
        let depth = choose|depth: nat| #[trigger] has_group(registry, fields, depth) == Some(false);
        law_groups_are_found(registry, fields, depth);
        assert(ends_within(registry, fields, depth));
    }
    if exists|depth: nat| #[trigger]
        ends_within(registry, fields, depth) && !leads_to_group(registry, fields, depth) {
        let depth = choose|depth: nat| #[trigger]
            ends_within(registry, fields, depth) && !leads_to_group(registry, fields, depth);
        law_groups_are_found(registry, fields, depth);
        assert(has_group(registry, fields, depth) == Some(false));
    }
}

/// Decoding is refused for a reason, and only then. A message type that is not in the registry is
/// unknown. One whose message types end within `depth` and lead to no group is decoded from
/// whatever bytes are a message of it, unless an enum in it has a number that the enum does not
/// declare.
pub proof fn law_decoding_is_refused_for_a_reason(
    decoder: DecoderModel,
    bytes: Seq<u8>,
    depth: nat,
)
    ensures
        ({
            let registry = decoder.registry;
            let fields = registry.messages[registry.message_ids[decoder.message_name] as int];
            let is_known = registry.message_ids.dom().contains(decoder.message_name);
            let is_plain = ends_within(registry, fields, depth) && !leads_to_group(
                registry,
                fields,
                depth,
            );
            let refused = refusal(decoder, bytes, depth);
            &&& refused == Some(DecodeRefusal::UnknownMessage) <==> !is_known
            &&& refused == Some(DecodeRefusal::Group) ==> leads_to_group(registry, fields, depth)
            &&& refused == Some(DecodeRefusal::TooDeep) ==> !ends_within(registry, fields, depth)
            &&& is_known && !is_plain ==> refused == Some(DecodeRefusal::Group) || refused == Some(
                DecodeRefusal::TooDeep,
            )
            &&& is_known && is_plain ==> refused == (match parsed_message(
                registry,
                fields,
                bytes,
            ) {
                None => Some(DecodeRefusal::Malformed),
                Some(wire) => if is_declared(registry, fields, wire) {
                    None
                } else {
                    Some(DecodeRefusal::Unreadable)
                },
            })
            &&& is_known ==> (decoder.reads(bytes) <==> (parsed_message(
                registry,
                fields,
                bytes,
            ) matches Some(wire) && is_declared(registry, fields, wire)))
        }),
{
    let registry = decoder.registry;
    let fields = registry.messages[registry.message_ids[decoder.message_name] as int];
    law_groups_are_found(registry, fields, depth);
    if let Some(wire) = parsed_message(registry, fields, bytes) {
        law_declared_messages_are_readable(registry, fields, wire);
    }
}

/// Whether no group has a default value in a message type or in one that is declared within it.
pub open spec fn has_no_group_default(message: MessageShape) -> bool
    decreases message,
{
    &&& forall|i: int|
        0 <= i < message.fields.len() && (#[trigger] message.fields[i]).field_type is TYPE_GROUP
            ==> !message.fields[i].has_default
    &&& forall|i: int|
        0 <= i < message.nested.len() ==> has_no_group_default(#[trigger] message.nested[i])
}

/// A message type has a group with a default value unless no group in it has one.
proof fn lemma_group_default(message: MessageShape)
    ensures
        has_group_default(message) <==> !has_no_group_default(message),
    decreases message,
{
    assert(decreases_to!(message => message.nested));
    assert forall|i: int| 0 <= i < message.nested.len() implies (has_group_default(
        #[trigger] message.nested[i],
    ) <==> !has_no_group_default(message.nested[i])) by {
        assert(decreases_to!(message.nested => message.nested[i]));
        lemma_group_default(message.nested[i]);
    }
    if has_no_group_default(message) {
        assert forall|i: int| 0 <= i < message.nested.len() implies !has_group_default(
            #[trigger] message.nested[i],
        ) by {
            assert(has_no_group_default(message.nested[i]));
        }
    }
    if !has_group_default(message) {
        assert forall|i: int| 0 <= i < message.nested.len() implies has_no_group_default(
            #[trigger] message.nested[i],
        ) by {
            assert(!has_group_default(message.nested[i]));
        }
    }
}

/// What a file descriptor set declares is refused if and only if some field that is a group has a
/// default value; default values of fields of other types do not matter.
pub proof fn law_only_groups_must_not_have_defaults(files: Seq<Seq<MessageShape>>)
    ensures
        declares_group_default(files) <==> !(forall|i: int, j: int|
            0 <= i < files.len() && 0 <= j < files[i].len() ==> has_no_group_default(
                #[trigger] files[i][j],
            )),
{
    assert forall|i: int, j: int| 0 <= i < files.len() && 0 <= j < files[i].len() implies (
    has_group_default(#[trigger] files[i][j]) <==> !has_no_group_default(files[i][j])) by {
        lemma_group_default(files[i][j]);
    }
}

} // verus!
