//! Encoded messages: reading their fields, and turning them into self-describing values.
use crate::descriptor::field_model;
use crate::descriptor::field_with_number;
use crate::descriptor::message_fields;
use crate::descriptor::registry;
use crate::descriptor::resolved_type;
use crate::descriptor::wire_entries;
use crate::descriptor::wire_field_model;
use crate::descriptor::wire_fields;
use crate::descriptor::wire_model;
use crate::descriptor::DeclaredType;
use crate::descriptor::FieldModel;
use crate::descriptor::Registry;
use crate::descriptor::ResolvedType;
use crate::descriptor::ScalarKind;
use crate::descriptor::WireFieldModel;
use crate::descriptor::WireModel;
use crate::dynamic::ascending;
use crate::dynamic::value_under;
use crate::dynamic::DynamicModel;
use crate::serde_bridge::serde_model;
use serde::de::Deserialize;
use serde_protobuf::de::Deserializer;
use serde_protobuf::descriptor::Descriptors;
use serde_protobuf::descriptor::FieldDescriptor;
use serde_protobuf::descriptor::FieldType;
use serde_protobuf::descriptor::MessageDescriptor;
use serde_protobuf::error::CompatError;
use serde_protobuf::value::Field;
use serde_protobuf::value::Message;
use serde_protobuf::value::Value;
use serde_value::Value as SerdeValue;
use vstd::prelude::*;

verus! {

/// What `serde_protobuf` reports of bytes that it refuses.
#[verifier::external_type_specification]
#[verifier::external_body]
pub struct ExWireError(serde_protobuf::error::Error);

/// What `Message::merge_from` reads from bytes into a new message of the given fields, if it reads
/// them to the end.
pub uninterp spec fn parsed_message(
    registry: Registry,
    fields: Seq<FieldModel>,
    bytes: Seq<u8>,
) -> Option<Seq<(i32, WireFieldModel)>>;

/// The self-describing value that the deserializer of `serde_protobuf` makes of bytes that it
/// accepts.
pub uninterp spec fn deserialized_message(
    registry: Registry,
    fields: Seq<FieldModel>,
    bytes: Seq<u8>,
) -> DynamicModel;

/// Whether a field is a group, or a message with one somewhere within it. Message types are
/// followed at most `depth` deep; nothing is known if that is not deep enough.
pub open spec fn field_has_group(registry: Registry, field: FieldModel, depth: nat) -> Option<bool>
    decreases depth, 0nat,
{
    match registry.resolve(field.declared) {
        ResolvedType::Scalar(kind) => Some(kind is Group),
        ResolvedType::Message(fields) => if depth == 0 {
            None
        } else {
            has_group(registry, fields, (depth - 1) as nat)
        },
        _ => Some(false),
    }
}

/// Whether one of some fields is a group, or a message with one somewhere within it.
pub open spec fn has_group(registry: Registry, fields: Seq<FieldModel>, depth: nat) -> Option<bool>
    decreases depth, fields.len() + 1,
{
    if fields.len() == 0 {
        Some(false)
    } else {
        match has_group(registry, fields.drop_last(), depth) {
            Some(false) => field_has_group(registry, fields.last(), depth),
            found => found,
        }
    }
}

/// Whether a message type has no groups, however deep one looks.
pub open spec fn is_group_free(registry: Registry, fields: Seq<FieldModel>) -> bool {
    exists|depth: nat| #[trigger] has_group(registry, fields, depth) == Some(false)
}

/// Whether a value fits the type of its field as far as its reading relies on it: the number of
/// an enum is one of the enum's, and a message has fields of its message type.
pub open spec fn readable_value(
    registry: Registry,
    resolved: ResolvedType,
    value: WireModel,
) -> bool
    decreases value,
{
    match value {
        WireModel::Enum(number) => resolved matches ResolvedType::Enum(names)
            && names.contains_key(number),
        WireModel::Nested(wire) => resolved matches ResolvedType::Message(fields)
            && readable_fields(registry, fields, wire),
        _ => true,
    }
}

/// Whether all that an encoded message holds of one field can be read.
pub open spec fn readable_field(
    registry: Registry,
    resolved: ResolvedType,
    held: WireFieldModel,
) -> bool
    decreases held,
{
    match held {
        WireFieldModel::Singular(None) => true,
        WireFieldModel::Singular(Some(value)) => readable_value(registry, resolved, value),
        WireFieldModel::Repeated(values) => forall|i: int|
            0 <= i < values.len() ==> readable_value(registry, resolved, #[trigger] values[i]),
    }
}

/// Whether all that an encoded message holds can be read as a message of the given fields.
pub open spec fn readable_fields(
    registry: Registry,
    fields: Seq<FieldModel>,
    wire: Seq<(i32, WireFieldModel)>,
) -> bool
    decreases wire,
{
    forall|i: int|
        0 <= i < wire.len() ==> (field_with_number(fields, (#[trigger] wire[i]).0) matches Some(
            place,
        ) && readable_field(registry, registry.resolve(fields[place].declared), wire[i].1))
}

/// Whether a value is of a scalar type.
pub open spec fn of_kind(kind: ScalarKind, value: WireModel) -> bool {
    match kind {
        ScalarKind::Bool => value is Bool,
        ScalarKind::Int32 | ScalarKind::SInt32 | ScalarKind::SFixed32 => value is I32,
        ScalarKind::Int64 | ScalarKind::SInt64 | ScalarKind::SFixed64 => value is I64,
        ScalarKind::UInt32 | ScalarKind::Fixed32 => value is U32,
        ScalarKind::UInt64 | ScalarKind::Fixed64 => value is U64,
        ScalarKind::Float => value is F32,
        ScalarKind::Double => value is F64,
        ScalarKind::Text => value is Text,
        ScalarKind::Bytes => value is Bytes,
        ScalarKind::Group => false,
    }
}

/// Whether the default values of fields are of the types of their fields. Only fields of a scalar
/// type have a default value then.
pub open spec fn defaults_fit(fields: Seq<FieldModel>) -> bool {
    forall|i: int|
        0 <= i < fields.len() ==> ((#[trigger] fields[i]).default matches Some(value) ==> (
        fields[i].declared matches DeclaredType::Scalar(kind) && of_kind(kind, value)))
}

/// Whether all default values in a registry are of the types of their fields.
pub open spec fn all_defaults_fit(registry: Registry) -> bool {
    forall|id: int|
        0 <= id < registry.messages.len() ==> defaults_fit(#[trigger] registry.messages[id])
}

/// Whether a value is of the type of its field.
pub open spec fn fits_type(registry: Registry, resolved: ResolvedType, value: WireModel) -> bool
    decreases value,
{
    match value {
        WireModel::Enum(_) => resolved is Enum,
        WireModel::Nested(wire) => resolved matches ResolvedType::Message(fields) && fits_message(
            registry,
            fields,
            wire,
        ),
        _ => resolved matches ResolvedType::Scalar(kind) && of_kind(kind, value),
    }
}

/// Whether what an encoded message holds of a field is of the field's type, and several values
/// if and only if the field is repeated.
pub open spec fn fits_field(registry: Registry, field: FieldModel, held: WireFieldModel) -> bool
    decreases held,
{
    match held {
        WireFieldModel::Singular(None) => field.label !is Repeated,
        WireFieldModel::Singular(Some(value)) => field.label !is Repeated && fits_type(
            registry,
            registry.resolve(field.declared),
            value,
        ),
        WireFieldModel::Repeated(values) => field.label is Repeated && forall|i: int|
            0 <= i < values.len() ==> fits_type(
                registry,
                registry.resolve(field.declared),
                #[trigger] values[i],
            ),
    }
}

/// Whether an encoded message holds each field of its type, and nothing else.
pub open spec fn fits_message(
    registry: Registry,
    fields: Seq<FieldModel>,
    wire: Seq<(i32, WireFieldModel)>,
) -> bool
    decreases wire,
{
    &&& forall|i: int|
        0 <= i < wire.len() ==> (field_with_number(fields, (#[trigger] wire[i]).0) matches Some(
            place,
        ) && fits_field(registry, fields[place], wire[i].1))
    &&& forall|place: int|
        0 <= place < fields.len() ==> held_at(wire, (#[trigger] fields[place]).number) is Some
}

/// The place at which an encoded message holds a field.
pub open spec fn held_at(wire: Seq<(i32, WireFieldModel)>, number: i32) -> Option<int>
    decreases wire.len(),
{
    if wire.len() == 0 {
        None
    } else if wire.last().0 == number {
        Some(wire.len() - 1)
    } else {
        held_at(wire.drop_last(), number)
    }
}

/// The last place at which an encoded message holds a field of the given name.
pub open spec fn held_under(
    fields: Seq<FieldModel>,
    wire: Seq<(i32, WireFieldModel)>,
    name: Seq<char>,
) -> Option<int>
    decreases wire.len(),
{
    if wire.len() == 0 {
        None
    } else if field_with_number(fields, wire.last().0) matches Some(place) && fields[place].name
        == name {
        Some(wire.len() - 1)
    } else {
        held_under(fields, wire.drop_last(), name)
    }
}

/// A scalar value as a self-describing one.
pub open spec fn scalar_value(value: WireModel) -> DynamicModel {
    match value {
        WireModel::Bool(b) => DynamicModel::Bool(b),
        WireModel::I32(n) => DynamicModel::I32(n),
        WireModel::I64(n) => DynamicModel::I64(n),
        WireModel::U32(n) => DynamicModel::U32(n),
        WireModel::U64(n) => DynamicModel::U64(n),
        WireModel::F32(bits) => DynamicModel::F32(bits),
        WireModel::F64(bits) => DynamicModel::F64(bits),
        WireModel::Bytes(bytes) => DynamicModel::Bytes(bytes),
        WireModel::Text(text) => DynamicModel::String(text),
        _ => DynamicModel::Unit,
    }
}

/// Whether a self-describing value says what a value of an encoded message says: an enum by the
/// name of its number, a message by a map.
pub open spec fn spells_value(
    registry: Registry,
    resolved: ResolvedType,
    value: WireModel,
    spelled: DynamicModel,
) -> bool
    decreases value,
{
    match value {
        WireModel::Enum(number) => resolved matches ResolvedType::Enum(names) && spelled
            == DynamicModel::String(names[number]),
        WireModel::Nested(wire) => resolved matches ResolvedType::Message(fields)
            && spells_message(registry, fields, wire, spelled),
        _ => spelled == scalar_value(value),
    }
}

/// Whether a self-describing value says what an encoded message holds of a field: an option where
/// the field is optional, a sequence where it holds several values.
pub open spec fn spells_field(
    registry: Registry,
    field: FieldModel,
    held: WireFieldModel,
    spelled: DynamicModel,
) -> bool
    decreases held,
{
    let resolved = registry.resolve(field.declared);
    match held {
        WireFieldModel::Singular(None) => if field.label is Optional {
            spelled == DynamicModel::Option(None)
        } else {
            spelled is Unit
        },
        WireFieldModel::Singular(Some(value)) => if field.label is Optional {
            spelled matches DynamicModel::Option(Some(content)) && spells_value(
                registry,
                resolved,
                value,
                *content,
            )
        } else {
            spells_value(registry, resolved, value, spelled)
        },
        WireFieldModel::Repeated(values) => {
            &&& spelled matches DynamicModel::Sequence(items)
            &&& items.len() == values.len()
            &&& forall|i: int|
                0 <= i < values.len() ==> spells_value(
                    registry,
                    resolved,
                    #[trigger] values[i],
                    items[i],
                )
        },
    }
}

/// Whether a self-describing value says what an encoded message holds: a map from the names of the
/// fields, in ascending order, to what is held of them.
pub open spec fn spells_message(
    registry: Registry,
    fields: Seq<FieldModel>,
    wire: Seq<(i32, WireFieldModel)>,
    spelled: DynamicModel,
) -> bool
    decreases wire,
{
    &&& spelled matches DynamicModel::Mapping(entries)
    &&& ascending(entries)
    &&& forall|name: Seq<char>| #[trigger]
        value_under(entries, name) is Some <==> held_under(fields, wire, name) is Some
    &&& forall|name: Seq<char>|
        match held_under(fields, wire, name) {
            Some(at) => 0 <= at < wire.len() && spells_field(
                registry,
                fields[field_with_number(fields, wire[at].0)->0],
                wire[at].1,
                (#[trigger] value_under(entries, name))->0,
            ),
            None => true,
        }
}

/// The place of a field that was found by its number is the place of a field.
pub proof fn lemma_place_in_range(fields: Seq<FieldModel>, number: i32)
    ensures
        field_with_number(fields, number) matches Some(place) ==> 0 <= place < fields.len()
            && fields[place].number == number,
    decreases fields.len(),
{
    if fields.len() > 0 && fields.last().number != number {
        lemma_place_in_range(fields.drop_last(), number);
    }
}

/// Checks whether a value fits the type of its field.
fn value_is_readable(field_type: &FieldType, value: &Value, descriptors: &Descriptors) -> (fits:
    bool)
    requires
        registry(*descriptors).well_formed(),
        field_type matches FieldType::Message(nested) ==> registry(*descriptors).has_places(
            message_fields(**nested),
        ),
    ensures
        fits == readable_value(
            registry(*descriptors),
            resolved_type(*field_type),
            wire_model(*value),
        ),
    decreases wire_model(*value), 0nat,
{
    match value {
        Value::Enum(number) => match field_type {
            FieldType::Enum(descriptor) => descriptor.value_by_number(*number).is_some(),
            _ => false,
        },
        Value::Message(message) => match field_type {
            FieldType::Message(nested) => message_is_readable(nested, message, descriptors),
            _ => false,
        },
        _ => true,
    }
}

/// Checks whether all that an encoded message holds of one field fits the type of the field.
fn field_is_readable(field_type: &FieldType, held: &Field, descriptors: &Descriptors) -> (fits:
    bool)
    requires
        registry(*descriptors).well_formed(),
        field_type matches FieldType::Message(nested) ==> registry(*descriptors).has_places(
            message_fields(**nested),
        ),
    ensures
        fits == readable_field(
            registry(*descriptors),
            resolved_type(*field_type),
            wire_field_model(*held),
        ),
    decreases wire_field_model(*held), 0nat,
{
    let ghost model = wire_field_model(*held);
    match held {
        Field::Singular(None) => true,
        Field::Singular(Some(value)) => {
            assert(decreases_to!(model => model->Singular_0->0));
            value_is_readable(field_type, value, descriptors)
        },
        Field::Repeated(values) => {
            let ghost models = model->Repeated_0;
            for i in 0..values.len()
                invariant
                    registry(*descriptors).well_formed(),
                    field_type matches FieldType::Message(nested) ==> registry(
                        *descriptors,
                    ).has_places(message_fields(**nested)),
                    model == wire_field_model(*held),
                    model == WireFieldModel::Repeated(models),
                    models.len() == values@.len(),
                    forall|j: int|
                        0 <= j < values@.len() ==> wire_model(#[trigger] values@[j]) == models[j],
                    forall|j: int|
                        0 <= j < i ==> readable_value(
                            registry(*descriptors),
                            resolved_type(*field_type),
                            #[trigger] models[j],
                        ),
            {
                assert(decreases_to!(model => model->Repeated_0));
                assert(decreases_to!(models => models[i as int]));
                assert(wire_model(values@[i as int]) == models[i as int]);
                if !value_is_readable(field_type, &values[i], descriptors) {
                    assert(!readable_value(
                        registry(*descriptors),
                        resolved_type(*field_type),
                        models[i as int],
                    ));
                    return false;
                }
            }
            true
        },
    }
}

/// Checks whether all that an encoded message holds can be read as a message of the given type.
pub(crate) fn message_is_readable(
    descriptor: &MessageDescriptor,
    message: &Message,
    descriptors: &Descriptors,
) -> (fits: bool)
    requires
        registry(*descriptors).well_formed(),
        registry(*descriptors).has_places(message_fields(*descriptor)),
    ensures
        fits == readable_fields(
            registry(*descriptors),
            message_fields(*descriptor),
            wire_fields(*message),
        ),
    decreases wire_fields(*message), 0nat,
{
    let ghost known = registry(*descriptors);
    let ghost fields = message_fields(*descriptor);
    let ghost wire = wire_fields(*message);
    let entries = wire_entries(message);
    for i in 0..entries.len()
        invariant
            known == registry(*descriptors),
            fields == message_fields(*descriptor),
            wire == wire_fields(*message),
            known.well_formed(),
            known.has_places(fields),
            entries@.len() == wire.len(),
            forall|j: int|
                0 <= j < entries@.len() ==> (
                *(#[trigger] entries@[j]).0,
                wire_field_model(*entries@[j].1),
                ) == wire[j],
            forall|j: int|
                0 <= j < i ==> (field_with_number(fields, (#[trigger] wire[j]).0) matches Some(
                    place,
                ) && readable_field(known, known.resolve(fields[place].declared), wire[j].1)),
    {
        assert(wire[i as int].0 == *entries@[i as int].0);
        proof {
            lemma_place_in_range(fields, wire[i as int].0);
            assert(decreases_to!(wire => wire[i as int]));
            assert(decreases_to!(wire[i as int] => wire[i as int].1));
        }
        match descriptor.field_by_number(*entries[i].0) {
            Some(field) => {
                let found = field.field_type(descriptors);
                if !field_is_readable(&found, entries[i].1, descriptors) {
                    return false;
                }
            },
            None => {
                return false;
            },
        }
    }
    true
}

/// What is found among the first fields is found among them all.
proof fn lemma_group_prefix(registry: Registry, fields: Seq<FieldModel>, depth: nat, n: int)
    requires
        0 <= n <= fields.len(),
        has_group(registry, fields.take(n), depth) != Some(false),
    ensures
        has_group(registry, fields, depth) == has_group(registry, fields.take(n), depth),
    decreases fields.len(),
{
    if n == fields.len() {
        assert(fields.take(n) =~= fields);
    } else {
        assert(fields.drop_last().take(n) =~= fields.take(n));
        lemma_group_prefix(registry, fields.drop_last(), depth, n);
    }
}

/// Looks for a group among the fields of a message type, and follows message types no deeper than
/// `depth`.
pub(crate) fn find_group(
    descriptor: &MessageDescriptor,
    descriptors: &Descriptors,
    depth: usize,
) -> (found: Option<bool>)
    requires
        registry(*descriptors).well_formed(),
        registry(*descriptors).has_places(message_fields(*descriptor)),
    ensures
        found == has_group(registry(*descriptors), message_fields(*descriptor), depth as nat),
    decreases depth,
{
    let ghost known = registry(*descriptors);
    let ghost models = message_fields(*descriptor);
    let fields = descriptor.fields();
    for i in 0..fields.len()
        invariant
            known == registry(*descriptors),
            models == message_fields(*descriptor),
            known.well_formed(),
            known.has_places(models),
            fields@.map_values(|field: FieldDescriptor| field_model(field)) == models,
            has_group(known, models.take(i as int), depth as nat) == Some(false),
    {
        proof {
            assert(models.take(i + 1).drop_last() =~= models.take(i as int));
            assert(models.take(i + 1).last() == models[i as int]);
            assert(field_model(fields@[i as int]) == models[i as int]);
            if has_group(known, models.take(i + 1), depth as nat) != Some(false) {
                lemma_group_prefix(known, models, depth as nat, i + 1);
            }
        }
        let resolved = fields[i].field_type(descriptors);
        let found = match resolved {
            FieldType::Group => Some(true),
            FieldType::Message(nested) => if depth == 0 {
                None
            } else {
                find_group(nested, descriptors, depth - 1)
            },
            _ => Some(false),
        };
        assert(resolved_type(resolved) == known.resolve(models[i as int].declared));
        assert(found == field_has_group(known, models[i as int], depth as nat));
        match found {
            Some(false) => {},
            _ => {
                return found;
            },
        }
    }
    assert(models.take(models.len() as int) =~= models);
    Some(false)
}

/// `Message::new` makes an empty message of a type, and `Message::merge_from` reads bytes into it;
/// what comes out is a function of the bytes and of what the registry holds. Reading a group
/// panics.
#[verifier::external_body]
pub(crate) fn parse_message(
    descriptor: &MessageDescriptor,
    descriptors: &Descriptors,
    bytes: &[u8],
) -> (parsed: Result<Message, serde_protobuf::error::Error>)
    requires
        registry(*descriptors).well_formed(),
        registry(*descriptors).has_places(message_fields(*descriptor)),
        is_group_free(registry(*descriptors), message_fields(*descriptor)),
    ensures
        parsed is Ok <==> parsed_message(
            registry(*descriptors),
            message_fields(*descriptor),
            bytes@,
        ) is Some,
        parsed matches Ok(message) ==> parsed_message(
            registry(*descriptors),
            message_fields(*descriptor),
            bytes@,
        ) == Some(wire_fields(message)),
{
    let mut input = protobuf::CodedInputStream::from_bytes(bytes);
    let mut message = Message::new(descriptor);
    match message.merge_from(descriptors, descriptor, &mut input) {
        Ok(()) => Ok(message),
        Err(error) => Err(error),
    }
}

/// `Deserializer::for_named_message` finds a message type by its name. Deserializing a
/// `serde_value::Value` with it parses the bytes as [`parse_message`] does. It then hands over each
/// field that the message holds, in the order of the numbers, under the name of the field with that
/// number; the map of the value keeps the last one under each name.
///
/// Parsing starts from a message that holds every field of its type, one that is not repeated with
/// its default value if it has one. Each value is read as its field's type says, and takes the
/// place of the one before unless the field is repeated. So, where the default values are of the
/// types of their fields, all values are.
///
/// It panics on the number of an enum that the enum does not have, and on what is not of the type
/// of its field.
#[verifier::external_body]
pub(crate) fn deserialize_message(
    descriptors: &Descriptors,
    message_name: &str,
    bytes: &[u8],
) -> (value: Result<SerdeValue, serde_protobuf::error::Error>)
    requires
        registry(*descriptors).well_formed(),
        registry(*descriptors).message_ids.contains_key(message_name@),
        parsed_message(
            registry(*descriptors),
            registry(*descriptors).message(message_name@),
            bytes@,
        ) matches Some(wire) && readable_fields(
            registry(*descriptors),
            registry(*descriptors).message(message_name@),
            wire,
        ),
    ensures
        value is Ok,
        value matches Ok(value) ==> {
            &&& serde_model(value) == deserialized_message(
                registry(*descriptors),
                registry(*descriptors).message(message_name@),
                bytes@,
            )
            &&& spells_message(
                registry(*descriptors),
                registry(*descriptors).message(message_name@),
                parsed_message(
                    registry(*descriptors),
                    registry(*descriptors).message(message_name@),
                    bytes@,
                )->0,
                serde_model(value),
            )
            &&& all_defaults_fit(registry(*descriptors)) ==> fits_message(
                registry(*descriptors),
                registry(*descriptors).message(message_name@),
                parsed_message(
                    registry(*descriptors),
                    registry(*descriptors).message(message_name@),
                    bytes@,
                )->0,
            )
        },
{
    let input = protobuf::CodedInputStream::from_bytes(bytes);
    let mut deserializer = Deserializer::for_named_message(descriptors, message_name, input)?;
    SerdeValue::deserialize(&mut deserializer).map_err(CompatError::into_error)
}

} // verus!
