//! Which message types can be turned into a relation, and into which one.
use crate::descriptor::field_model;
use crate::descriptor::message_fields;
use crate::descriptor::registry;
use crate::descriptor::resolved_type;
use crate::descriptor::FieldModel;
use crate::descriptor::Registry;
use crate::descriptor::ResolvedType;
use crate::descriptor::ScalarKind;
use crate::error::SchemaError;
use crate::error::SchemaErrorModel;
use crate::relation::name_model;
use crate::relation::ColumnModel;
use crate::relation::ColumnType;
use crate::relation::RelationDesc;
use crate::relation::RelationType;
use crate::relation::ScalarType;
use serde_protobuf::descriptor::Descriptors;
use serde_protobuf::descriptor::FieldDescriptor;
use serde_protobuf::descriptor::FieldLabel;
use serde_protobuf::descriptor::FieldType;
use serde_protobuf::descriptor::MessageDescriptor;
use vstd::prelude::*;

verus! {

/// What becomes of a field of an array or of a nested message.
#[derive(Debug)]
pub enum NestedRule {
    /// The field is fine as it is.
    Accept,
    /// The field is fine if the fields of its message type are.
    Descend,
    /// The field is not supported.
    Refuse(SchemaError),
}

/// The mathematical counterpart of a [`NestedRule`].
pub enum NestedRuleModel {
    Accept,
    Descend,
    Refuse(SchemaErrorModel),
}

impl View for NestedRule {
    type V = NestedRuleModel;

    open spec fn view(&self) -> NestedRuleModel {
        match self {
            NestedRule::Accept => NestedRuleModel::Accept,
            NestedRule::Descend => NestedRuleModel::Descend,
            NestedRule::Refuse(error) => NestedRuleModel::Refuse(error@),
        }
    }
}

/// What becomes of a field of the message type itself, which is to be a column.
#[derive(Debug)]
pub enum ColumnRule {
    /// The column has this type.
    Plain(ScalarType),
    /// The column is a document, if the field would be fine as the field of a nested message.
    Array,
    /// The column is a document, if the fields of the field's message type are fine.
    Document,
    /// The field is not supported.
    Refuse(SchemaError),
}

/// The mathematical counterpart of a [`ColumnRule`].
pub enum ColumnRuleModel {
    Plain(ScalarType),
    Array,
    Document,
    Refuse(SchemaErrorModel),
}

impl View for ColumnRule {
    type V = ColumnRuleModel;

    open spec fn view(&self) -> ColumnRuleModel {
        match self {
            ColumnRule::Plain(scalar_type) => ColumnRuleModel::Plain(*scalar_type),
            ColumnRule::Array => ColumnRuleModel::Array,
            ColumnRule::Document => ColumnRuleModel::Document,
            ColumnRule::Refuse(error) => ColumnRuleModel::Refuse(error@),
        }
    }
}

/// The rule for a field of an array or of a nested message: required fields, groups, bytes and
/// unknown types are not supported.
pub open spec fn nested_rule(
    name: Seq<char>,
    label: FieldLabel,
    resolved: ResolvedType,
) -> NestedRuleModel {
    match label {
        FieldLabel::Required => NestedRuleModel::Refuse(SchemaErrorModel::RequiredField(name)),
        FieldLabel::Repeated | FieldLabel::Optional => match resolved {
            ResolvedType::Scalar(ScalarKind::Bytes) => NestedRuleModel::Refuse(
                SchemaErrorModel::NestedBytes,
            ),
            ResolvedType::Scalar(ScalarKind::Group) => NestedRuleModel::Refuse(
                SchemaErrorModel::Group,
            ),
            ResolvedType::Scalar(_) => NestedRuleModel::Accept,
            ResolvedType::Enum(_) => NestedRuleModel::Accept,
            ResolvedType::Message(_) => NestedRuleModel::Descend,
            ResolvedType::UnresolvedMessage(unknown) => NestedRuleModel::Refuse(
                SchemaErrorModel::NestedUnresolvedMessage(unknown),
            ),
            ResolvedType::UnresolvedEnum(unknown) => NestedRuleModel::Refuse(
                SchemaErrorModel::NestedUnresolvedEnum(unknown),
            ),
        },
    }
}

/// The rule for a field that is to be a column.
pub open spec fn column_rule(
    name: Seq<char>,
    label: FieldLabel,
    resolved: ResolvedType,
) -> ColumnRuleModel {
    match label {
        FieldLabel::Required => ColumnRuleModel::Refuse(SchemaErrorModel::RequiredField(name)),
        FieldLabel::Repeated => ColumnRuleModel::Array,
        FieldLabel::Optional => match resolved {
            ResolvedType::Scalar(kind) => match kind {
                ScalarKind::Bool => ColumnRuleModel::Plain(ScalarType::Bool),
                ScalarKind::Int32 | ScalarKind::SInt32 | ScalarKind::SFixed32 =>
                    ColumnRuleModel::Plain(ScalarType::Int32),
                ScalarKind::Int64 | ScalarKind::SInt64 | ScalarKind::SFixed64 =>
                    ColumnRuleModel::Plain(ScalarType::Int64),
                ScalarKind::Float => ColumnRuleModel::Plain(ScalarType::Float32),
                ScalarKind::Double => ColumnRuleModel::Plain(ScalarType::Float64),
                ScalarKind::UInt32
                | ScalarKind::UInt64
                | ScalarKind::Fixed32
                | ScalarKind::Fixed64 => ColumnRuleModel::Plain(ScalarType::Decimal(38, 0)),
                ScalarKind::Text => ColumnRuleModel::Plain(ScalarType::String),
                ScalarKind::Bytes => ColumnRuleModel::Plain(ScalarType::Bytes),
                ScalarKind::Group => ColumnRuleModel::Refuse(SchemaErrorModel::Group),
            },
            ResolvedType::Enum(_) => ColumnRuleModel::Plain(ScalarType::String),
            ResolvedType::Message(_) => ColumnRuleModel::Document,
            ResolvedType::UnresolvedMessage(unknown) => ColumnRuleModel::Refuse(
                SchemaErrorModel::UnresolvedMessage(unknown),
            ),
            ResolvedType::UnresolvedEnum(unknown) => ColumnRuleModel::Refuse(
                SchemaErrorModel::UnresolvedEnum(unknown),
            ),
        },
    }
}

/// Decides on a field of an array or of a nested message.
pub fn nested_field_rule(name: &str, label: FieldLabel, field_type: &FieldType) -> (rule:
    NestedRule)
    ensures
        rule@ == nested_rule(name@, label, resolved_type(*field_type)),
{
    match label {
        FieldLabel::Required => NestedRule::Refuse(SchemaError::RequiredField(name.to_owned())),
        FieldLabel::Repeated | FieldLabel::Optional => match field_type {
            FieldType::Bool
            | FieldType::Int32
            | FieldType::SInt32
            | FieldType::SFixed32
            | FieldType::Int64
            | FieldType::SInt64
            | FieldType::SFixed64
            | FieldType::UInt32
            | FieldType::Fixed32
            | FieldType::UInt64
            | FieldType::Fixed64
            | FieldType::Float
            | FieldType::Double
            | FieldType::String
            | FieldType::Enum(_) => NestedRule::Accept,
            FieldType::Message(_) => NestedRule::Descend,
            FieldType::Bytes => NestedRule::Refuse(SchemaError::NestedBytes),
            FieldType::Group => NestedRule::Refuse(SchemaError::Group),
            FieldType::UnresolvedMessage(unknown) => NestedRule::Refuse(
                SchemaError::NestedUnresolvedMessage((*unknown).to_owned()),
            ),
            FieldType::UnresolvedEnum(unknown) => NestedRule::Refuse(
                SchemaError::NestedUnresolvedEnum((*unknown).to_owned()),
            ),
        },
    }
}

/// Decides on a field that is to be a column.
pub fn column_field_rule(name: &str, label: FieldLabel, field_type: &FieldType) -> (rule:
    ColumnRule)
    ensures
        rule@ == column_rule(name@, label, resolved_type(*field_type)),
{
    match label {
        FieldLabel::Required => ColumnRule::Refuse(SchemaError::RequiredField(name.to_owned())),
        FieldLabel::Repeated => ColumnRule::Array,
        FieldLabel::Optional => match field_type {
            FieldType::Bool => ColumnRule::Plain(ScalarType::Bool),
            FieldType::Int32 | FieldType::SInt32 | FieldType::SFixed32 => ColumnRule::Plain(
                ScalarType::Int32,
            ),
            FieldType::Int64 | FieldType::SInt64 | FieldType::SFixed64 => ColumnRule::Plain(
                ScalarType::Int64,
            ),
            FieldType::Enum(_) => ColumnRule::Plain(ScalarType::String),
            FieldType::Float => ColumnRule::Plain(ScalarType::Float32),
            FieldType::Double => ColumnRule::Plain(ScalarType::Float64),
            FieldType::UInt32 | FieldType::UInt64 | FieldType::Fixed32 | FieldType::Fixed64 =>
                ColumnRule::Plain(ScalarType::Decimal(38, 0)),
            FieldType::String => ColumnRule::Plain(ScalarType::String),
            FieldType::Bytes => ColumnRule::Plain(ScalarType::Bytes),
            FieldType::Message(_) => ColumnRule::Document,
            FieldType::Group => ColumnRule::Refuse(SchemaError::Group),
            FieldType::UnresolvedMessage(unknown) => ColumnRule::Refuse(
                SchemaError::UnresolvedMessage((*unknown).to_owned()),
            ),
            FieldType::UnresolvedEnum(unknown) => ColumnRule::Refuse(
                SchemaError::UnresolvedEnum((*unknown).to_owned()),
            ),
        },
    }
}

/// Whether a field is fine as the field of an array or of a nested message, where message types
/// are followed at most `depth` deep; nothing is known if that is not deep enough.
pub open spec fn check_nested(registry: Registry, field: FieldModel, depth: nat) -> Option<
    Result<(), SchemaErrorModel>,
>
    decreases depth, 0nat,
{
    let resolved = registry.resolve(field.declared);
    match nested_rule(field.name, field.label, resolved) {
        NestedRuleModel::Accept => Some(Ok(())),
        NestedRuleModel::Refuse(error) => Some(Err(error)),
        NestedRuleModel::Descend => if depth == 0 {
            None
        } else {
            check_all_nested(registry, resolved->Message_0, (depth - 1) as nat)
        },
    }
}

/// Whether fields are fine as the fields of a nested message, or else what is wrong with the first
/// one that is not.
pub open spec fn check_all_nested(
    registry: Registry,
    fields: Seq<FieldModel>,
    depth: nat,
) -> Option<Result<(), SchemaErrorModel>>
    decreases depth, fields.len() + 1,
{
    if fields.len() == 0 {
        Some(Ok(()))
    } else {
        match check_all_nested(registry, fields.drop_last(), depth) {
            Some(Ok(_)) => check_nested(registry, fields.last(), depth),
            refused => refused,
        }
    }
}

/// The type of the column that a field becomes.
pub open spec fn check_column(registry: Registry, field: FieldModel, depth: nat) -> Option<
    Result<ScalarType, SchemaErrorModel>,
> {
    let resolved = registry.resolve(field.declared);
    match column_rule(field.name, field.label, resolved) {
        ColumnRuleModel::Plain(scalar_type) => Some(Ok(scalar_type)),
        ColumnRuleModel::Refuse(error) => Some(Err(error)),
        ColumnRuleModel::Array => document_type(check_nested(registry, field, depth)),
        ColumnRuleModel::Document => document_type(
            check_all_nested(registry, resolved->Message_0, depth),
        ),
    }
}

/// The type of a column that is a document, if what it is made of is fine.
pub open spec fn document_type(checked: Option<Result<(), SchemaErrorModel>>) -> Option<
    Result<ScalarType, SchemaErrorModel>,
> {
    match checked {
        Some(Ok(_)) => Some(Ok(ScalarType::Jsonb)),
        Some(Err(error)) => Some(Err(error)),
        None => None,
    }
}

/// The column that a field becomes: it goes by the field's name, and it takes nulls if the field
/// has no default value.
pub open spec fn column_of(field: FieldModel, scalar_type: ScalarType) -> ColumnModel {
    ColumnModel {
        name: Some(field.name),
        column_type: ColumnType { nullable: field.default is None, scalar_type },
    }
}

/// The columns that the fields of a message type become, or what is wrong with the first field
/// that cannot be one.
pub open spec fn check_columns(registry: Registry, fields: Seq<FieldModel>, depth: nat) -> Option<
    Result<Seq<ColumnModel>, SchemaErrorModel>,
>
    decreases fields.len(),
{
    if fields.len() == 0 {
        Some(Ok(Seq::empty()))
    } else {
        match check_columns(registry, fields.drop_last(), depth) {
            Some(Ok(columns)) => match check_column(registry, fields.last(), depth) {
                Some(Ok(scalar_type)) => Some(
                    Ok(columns.push(column_of(fields.last(), scalar_type))),
                ),
                Some(Err(error)) => Some(Err(error)),
                None => None,
            },
            refused => refused,
        }
    }
}

/// Whether the fields of a message type can be looked at to the end: no message type that has to be
/// followed leads back to itself.
pub open spec fn settles(registry: Registry, fields: Seq<FieldModel>) -> bool {
    exists|depth: nat| #[trigger] check_columns(registry, fields, depth) is Some
}

/// The columns of a message type whose fields can be looked at to the end, or what is wrong with
/// the first field that cannot be a column.
pub open spec fn relation_of(registry: Registry, fields: Seq<FieldModel>) -> Result<
    Seq<ColumnModel>,
    SchemaErrorModel,
> {
    let depth = choose|depth: nat| #[trigger] check_columns(registry, fields, depth) is Some;
    check_columns(registry, fields, depth)->0
}

/// Whether a message type has been found fit to become a relation.
pub open spec fn accepted(registry: Registry, fields: Seq<FieldModel>) -> bool {
    settles(registry, fields) && relation_of(registry, fields) is Ok
}

/// What an outcome stands for.
pub open spec fn checked_model(checked: Option<Result<(), SchemaError>>) -> Option<
    Result<(), SchemaErrorModel>,
> {
    match checked {
        Some(Ok(_)) => Some(Ok(())),
        Some(Err(error)) => Some(Err(error@)),
        None => None,
    }
}

/// What a column type that was found stands for.
pub open spec fn column_type_model(checked: Option<Result<ScalarType, SchemaError>>) -> Option<
    Result<ScalarType, SchemaErrorModel>,
> {
    match checked {
        Some(Ok(scalar_type)) => Some(Ok(scalar_type)),
        Some(Err(error)) => Some(Err(error@)),
        None => None,
    }
}

/// What a validated relation stands for.
pub open spec fn relation_model(validated: Result<RelationDesc, SchemaError>) -> Result<
    Seq<ColumnModel>,
    SchemaErrorModel,
> {
    match validated {
        Ok(desc) => Ok(desc@),
        Err(error) => Err(error@),
    }
}

/// Looking deeper does not change what is known.
proof fn lemma_nested_deeper(registry: Registry, field: FieldModel, depth: nat, deeper: nat)
    requires
        depth <= deeper,
        check_nested(registry, field, depth) is Some,
    ensures
        check_nested(registry, field, deeper) == check_nested(registry, field, depth),
    decreases depth, 0nat,
{
    let resolved = registry.resolve(field.declared);
    if nested_rule(field.name, field.label, resolved) is Descend {
        lemma_all_nested_deeper(
            registry,
            resolved->Message_0,
            (depth - 1) as nat,
            (deeper - 1) as nat,
        );
    }
}

/// Looking deeper does not change what is known of several fields.
proof fn lemma_all_nested_deeper(
    registry: Registry,
    fields: Seq<FieldModel>,
    depth: nat,
    deeper: nat,
)
    requires
        depth <= deeper,
        check_all_nested(registry, fields, depth) is Some,
    ensures
        check_all_nested(registry, fields, deeper) == check_all_nested(registry, fields, depth),
    decreases depth, fields.len() + 1,
{
    if fields.len() > 0 {
        lemma_all_nested_deeper(registry, fields.drop_last(), depth, deeper);
        if check_all_nested(registry, fields.drop_last(), depth) matches Some(Ok(_)) {
            lemma_nested_deeper(registry, fields.last(), depth, deeper);
        }
    }
}

/// Looking deeper does not change the columns that are known.
proof fn lemma_columns_deeper(
    registry: Registry,
    fields: Seq<FieldModel>,
    depth: nat,
    deeper: nat,
)
    requires
        depth <= deeper,
        check_columns(registry, fields, depth) is Some,
    ensures
        check_columns(registry, fields, deeper) == check_columns(registry, fields, depth),
    decreases fields.len(),
{
    if fields.len() > 0 {
        lemma_columns_deeper(registry, fields.drop_last(), depth, deeper);
        if check_columns(registry, fields.drop_last(), depth) matches Some(Ok(_)) {
            let field = fields.last();
            let resolved = registry.resolve(field.declared);
            match column_rule(field.name, field.label, resolved) {
                ColumnRuleModel::Array => lemma_nested_deeper(registry, field, depth, deeper),
                ColumnRuleModel::Document => lemma_all_nested_deeper(
                    registry,
                    resolved->Message_0,
                    depth,
                    deeper,
                ),
                _ => {},
            }
        }
    }
}

/// However deep the fields were looked at, if that was deep enough the outcome is the one that
/// [`relation_of`] names.
pub proof fn law_depth_does_not_matter(registry: Registry, fields: Seq<FieldModel>, depth: nat)
    requires
        check_columns(registry, fields, depth) is Some,
    ensures
        settles(registry, fields),
        check_columns(registry, fields, depth) == Some(relation_of(registry, fields)),
{
    let found = choose|found: nat| #[trigger] check_columns(registry, fields, found) is Some;
    if depth <= found {
        lemma_columns_deeper(registry, fields, depth, found);
    } else {
        lemma_columns_deeper(registry, fields, found, depth);
    }
}

/// What stops the look at the first fields stops the look at them all.
proof fn lemma_nested_prefix(registry: Registry, fields: Seq<FieldModel>, depth: nat, n: int)
    requires
        0 <= n <= fields.len(),
        !(check_all_nested(registry, fields.take(n), depth) matches Some(Ok(_))),
    ensures
        check_all_nested(registry, fields, depth) == check_all_nested(
            registry,
            fields.take(n),
            depth,
        ),
    decreases fields.len(),
{
    if n == fields.len() {
        assert(fields.take(n) =~= fields);
    } else {
        assert(fields.drop_last().take(n) =~= fields.take(n));
        lemma_nested_prefix(registry, fields.drop_last(), depth, n);
    }
}

/// What stops the look at the first columns stops the look at them all.
proof fn lemma_columns_prefix(registry: Registry, fields: Seq<FieldModel>, depth: nat, n: int)
    requires
        0 <= n <= fields.len(),
        !(check_columns(registry, fields.take(n), depth) matches Some(Ok(_))),
    ensures
        check_columns(registry, fields, depth) == check_columns(registry, fields.take(n), depth),
    decreases fields.len(),
{
    if n == fields.len() {
        assert(fields.take(n) =~= fields);
    } else {
        assert(fields.drop_last().take(n) =~= fields.take(n));
        lemma_columns_prefix(registry, fields.drop_last(), depth, n);
    }
}

/// The fields of a message type that a type refers to have their places.
proof fn lemma_followed_has_places(registry: Registry, field: FieldModel)
    requires
        registry.well_formed(),
        registry.has_place(field.declared),
        registry.resolve(field.declared) is Message,
    ensures
        registry.has_places(registry.resolve(field.declared)->Message_0),
{
}

/// How deep message types are followed: as deep as the limit says or, without a limit, deep enough.
spec fn deep_enough(limit: Option<usize>, depth: nat, known: bool) -> bool {
    match limit {
        Some(most) => depth == most,
        None => known,
    }
}

/// Checks a field of an array or of a nested message. With a limit, message types are followed no
/// deeper than it says.
fn validate_proto_field_resolved(
    field: &FieldDescriptor,
    descriptors: &Descriptors,
    limit: Option<usize>,
    Ghost(depth): Ghost<nat>,
) -> (checked: Option<Result<(), SchemaError>>)
    requires
        registry(*descriptors).well_formed(),
        registry(*descriptors).has_place(field_model(*field).declared),
        deep_enough(
            limit,
            depth,
            check_nested(
                registry(*descriptors),
                field_model(*field),
                depth,
            ) is Some,
        ),
    ensures
        checked_model(checked) == check_nested(
            registry(*descriptors),
            field_model(*field),
            depth,
        ),
    decreases depth, 0nat,
{
    let found = field.field_type(descriptors);
    match nested_field_rule(field.name(), field.field_label(), &found) {
        NestedRule::Accept => Some(Ok(())),
        NestedRule::Refuse(error) => Some(Err(error)),
        NestedRule::Descend => {
            let rest = match limit {
                Some(most) => {
                    if most == 0 {
                        return None;
                    }
                    Some(most - 1)
                },
                None => None,
            };
            proof {
                lemma_followed_has_places(
                    registry(*descriptors),
                    field_model(*field),
                );
            }
            match found {
                FieldType::Message(nested) => validate_nested_fields(
                    nested,
                    descriptors,
                    rest,
                    Ghost((depth - 1) as nat),
                ),
                _ => None,
            }
        },
    }
}

/// Checks the fields of a nested message in turn.
fn validate_nested_fields(
    message: &MessageDescriptor,
    descriptors: &Descriptors,
    limit: Option<usize>,
    Ghost(depth): Ghost<nat>,
) -> (checked: Option<Result<(), SchemaError>>)
    requires
        registry(*descriptors).well_formed(),
        registry(*descriptors).has_places(message_fields(*message)),
        deep_enough(
            limit,
            depth,
            check_all_nested(registry(*descriptors), message_fields(*message), depth) is Some,
        ),
    ensures
        checked_model(checked) == check_all_nested(
            registry(*descriptors),
            message_fields(*message),
            depth,
        ),
    decreases depth, 1nat,
{
    let ghost models = message_fields(*message);
    let ghost known = registry(*descriptors);
    let fields = message.fields();
    for index in 0..fields.len()
        invariant
            known == registry(*descriptors),
            models == message_fields(*message),
            fields@.map_values(|field: FieldDescriptor| field_model(field)) == models,
            known.well_formed(),
            known.has_places(models),
            deep_enough(limit, depth, check_all_nested(known, models, depth) is Some),
            check_all_nested(known, models.take(index as int), depth) == Some(
                Ok::<(), SchemaErrorModel>(()),
            ),
    {
        proof {
            assert(models.take(index + 1).drop_last() =~= models.take(index as int));
            assert(models.take(index + 1).last() == models[index as int]);
            assert(field_model(fields@[index as int]) == models[index as int]);
            if !(check_all_nested(known, models.take(index + 1), depth) matches Some(Ok(_))) {
                lemma_nested_prefix(known, models, depth, index + 1);
            }
        }
        match validate_proto_field_resolved(&fields[index], descriptors, limit, Ghost(depth)) {
            Some(Ok(_)) => {},
            refused => {
                return refused;
            },
        }
    }
    assert(models.take(models.len() as int) =~= models);
    Some(Ok(()))
}

/// Finds the type of the column that a field becomes.
fn validate_proto_field(
    field: &FieldDescriptor,
    descriptors: &Descriptors,
    limit: Option<usize>,
    Ghost(depth): Ghost<nat>,
) -> (checked: Option<Result<ScalarType, SchemaError>>)
    requires
        registry(*descriptors).well_formed(),
        registry(*descriptors).has_place(field_model(*field).declared),
        deep_enough(
            limit,
            depth,
            check_column(
                registry(*descriptors),
                field_model(*field),
                depth,
            ) is Some,
        ),
    ensures
        column_type_model(checked) == check_column(
            registry(*descriptors),
            field_model(*field),
            depth,
        ),
{
    let found = field.field_type(descriptors);
    let checked = match column_field_rule(
        field.name(),
        field.field_label(),
        &found,
    ) {
        ColumnRule::Plain(scalar_type) => {
            return Some(Ok(scalar_type));
        },
        ColumnRule::Refuse(error) => {
            return Some(Err(error));
        },
        ColumnRule::Array => validate_proto_field_resolved(
            field,
            descriptors,
            limit,
            Ghost(depth),
        ),
        ColumnRule::Document => {
            proof {
                lemma_followed_has_places(
                    registry(*descriptors),
                    field_model(*field),
                );
            }
            match found {
                FieldType::Message(nested) => validate_nested_fields(
                    nested,
                    descriptors,
                    limit,
                    Ghost(depth),
                ),
                _ => None,
            }
        },
    };
    match checked {
        Some(Ok(_)) => Some(Ok(ScalarType::Jsonb)),
        Some(Err(error)) => Some(Err(error)),
        None => None,
    }
}

/// Finds the columns that the fields of a message type become, in turn.
fn validate_message(
    message: &MessageDescriptor,
    descriptors: &Descriptors,
    limit: Option<usize>,
    Ghost(depth): Ghost<nat>,
) -> (validated: Option<Result<RelationDesc, SchemaError>>)
    requires
        registry(*descriptors).well_formed(),
        registry(*descriptors).has_places(message_fields(*message)),
        deep_enough(
            limit,
            depth,
            check_columns(registry(*descriptors), message_fields(*message), depth) is Some,
        ),
    ensures
        validated is Some <==> check_columns(
            registry(*descriptors),
            message_fields(*message),
            depth,
        ) is Some,
        validated matches Some(outcome) ==> Some(relation_model(outcome)) == check_columns(
            registry(*descriptors),
            message_fields(*message),
            depth,
        ),
{
    let ghost models = message_fields(*message);
    let ghost known = registry(*descriptors);
    let ghost mut columns: Seq<ColumnModel> = Seq::empty();
    let fields = message.fields();
    let mut column_types: Vec<ColumnType> = Vec::new();
    let mut names: Vec<Option<String>> = Vec::new();
    for index in 0..fields.len()
        invariant
            known == registry(*descriptors),
            models == message_fields(*message),
            fields@.map_values(|field: FieldDescriptor| field_model(field)) == models,
            known.well_formed(),
            known.has_places(models),
            deep_enough(limit, depth, check_columns(known, models, depth) is Some),
            check_columns(known, models.take(index as int), depth) == Some(
                Ok::<Seq<ColumnModel>, SchemaErrorModel>(columns),
            ),
            columns.len() == index,
            column_types@.len() == index,
            names@.len() == index,
            forall|j: int|
                0 <= j < index ==> (#[trigger] columns[j]) == (ColumnModel {
                    name: name_model(names@[j]),
                    column_type: column_types@[j],
                }),
    {
        proof {
            assert(models.take(index + 1).drop_last() =~= models.take(index as int));
            assert(models.take(index + 1).last() == models[index as int]);
            assert(field_model(fields@[index as int]) == models[index as int]);
            if !(check_columns(known, models.take(index + 1), depth) matches Some(Ok(_))) {
                lemma_columns_prefix(known, models, depth, index + 1);
            }
        }
        let scalar_type = match validate_proto_field(
            &fields[index],
            descriptors,
            limit,
            Ghost(depth),
        ) {
            Some(Ok(scalar_type)) => scalar_type,
            Some(Err(error)) => {
                return Some(Err(error));
            },
            None => {
                return None;
            },
        };
        let nullable = fields[index].default_value().is_none();
        column_types.push(ColumnType { nullable, scalar_type });
        names.push(Some(fields[index].name().to_owned()));
        proof {
            columns = columns.push(column_of(models[index as int], scalar_type));
        }
    }
    assert(models.take(models.len() as int) =~= models);
    let desc = RelationDesc::new(RelationType::new(column_types), names);
    assert(desc@ =~= columns);
    Some(Ok(desc))
}

/// Turns a message type into the description of a relation, one column for each field.
///
/// The message type must be in the registry, and none of the message types that have to be
/// followed may lead back to itself.
pub fn validate_proto_schema_with_descriptors(message_name: &str, descriptors: &Descriptors) -> (
validated: Result<RelationDesc, SchemaError>)
    requires
        registry(*descriptors).message_ids.contains_key(message_name@),
        settles(registry(*descriptors), registry(*descriptors).message(message_name@)),
    ensures
        relation_model(validated) == relation_of(
            registry(*descriptors),
            registry(*descriptors).message(message_name@),
        ),
{
    let ghost known = registry(*descriptors);
    let ghost fields = known.message(message_name@);
    let ghost depth = choose|depth: nat| #[trigger] check_columns(known, fields, depth) is Some;
    let message = descriptors.message_by_name(message_name).unwrap();
    validate_message(message, descriptors, None, Ghost(depth)).unwrap()
}

/// Turns a message type into the description of a relation, as
/// [`validate_proto_schema_with_descriptors`] does, and follows message types no deeper than
/// `depth`. Returns `None` where the message type is not in the registry, or where that is not deep
/// enough to tell.
pub fn validate_proto_schema_within(
    message_name: &str,
    descriptors: &Descriptors,
    depth: usize,
) -> (validated: Option<Result<RelationDesc, SchemaError>>)
    ensures
        validated is Some <==> registry(*descriptors).message_ids.contains_key(message_name@)
            && check_columns(
            registry(*descriptors),
            registry(*descriptors).message(message_name@),
            depth as nat,
        ) is Some,
        validated matches Some(outcome) ==> {
            &&& settles(registry(*descriptors), registry(*descriptors).message(message_name@))
            &&& relation_model(outcome) == relation_of(
                registry(*descriptors),
                registry(*descriptors).message(message_name@),
            )
        },
{
    let ghost known = registry(*descriptors);
    let ghost fields = known.message(message_name@);
    match descriptors.message_by_name(message_name) {
        Some(message) => {
            proof {
                if check_columns(known, fields, depth as nat) is Some {
                    law_depth_does_not_matter(known, fields, depth as nat);
                }
            }
            validate_message(message, descriptors, Some(depth), Ghost(depth as nat))
        },
        None => None,
    }
}

} // verus!
