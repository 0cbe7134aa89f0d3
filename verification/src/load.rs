//! Loading of the registry of message types from the bytes of a file descriptor set.
use crate::descriptor::registry;
use crate::descriptor::Registry;
use crate::wire::all_defaults_fit;
use protobuf::descriptor::DescriptorProto;
use protobuf::descriptor::FieldDescriptorProto;
use protobuf::descriptor::FieldDescriptorProto_Type;
use protobuf::descriptor::FileDescriptorProto;
use protobuf::descriptor::FileDescriptorSet;
use protobuf::Message;
use serde_protobuf::descriptor::Descriptors;
use vstd::prelude::*;

verus! {

/// A file descriptor set of `protobuf`. What it holds is named by [`set_files`] and
/// [`set_registry`].
#[verifier::external_type_specification]
#[verifier::external_body]
pub struct ExFileDescriptorSet(protobuf::descriptor::FileDescriptorSet);

/// A file of a file descriptor set of `protobuf`. What it holds is named by [`file_messages`].
#[verifier::external_type_specification]
#[verifier::external_body]
pub struct ExFileDescriptorProto(protobuf::descriptor::FileDescriptorProto);

/// A message type of a file descriptor set of `protobuf`. What it holds is named by
/// [`message_shape`].
#[verifier::external_type_specification]
#[verifier::external_body]
pub struct ExDescriptorProto(protobuf::descriptor::DescriptorProto);

/// A field of a file descriptor set of `protobuf`. What it holds is named by [`field_shape`].
#[verifier::external_type_specification]
#[verifier::external_body]
pub struct ExFieldDescriptorProto(protobuf::descriptor::FieldDescriptorProto);

/// The type of a field of a file descriptor set of `protobuf`.
#[verifier::external_type_specification]
pub struct ExFieldDescriptorProtoType(protobuf::descriptor::FieldDescriptorProto_Type);

/// What `protobuf` reports of bytes that it refuses.
#[verifier::external_type_specification]
#[verifier::external_body]
pub struct ExProtobufError(protobuf::ProtobufError);

/// What decides whether the declaration of a field can be loaded.
pub struct FieldShape {
    pub field_type: FieldDescriptorProto_Type,
    pub has_default: bool,
}

/// What decides whether the declaration of a message type can be loaded.
pub struct MessageShape {
    pub fields: Seq<FieldShape>,
    pub nested: Seq<MessageShape>,
}

/// What a file descriptor set declares: the message types of its files, and the registry that is
/// made of them.
pub struct DescriptorSetModel {
    pub files: Seq<Seq<MessageShape>>,
    pub registry: Registry,
}

/// The file descriptor set that `parse_from_bytes` reads from bytes, unless it refuses the bytes.
pub uninterp spec fn parsed_set(bytes: Seq<u8>) -> Option<DescriptorSetModel>;

/// The message types that each file of a set declares.
pub uninterp spec fn set_files(set: FileDescriptorSet) -> Seq<Seq<MessageShape>>;

/// The registry of the message types and of the enums that a set declares.
pub uninterp spec fn set_registry(set: FileDescriptorSet) -> Registry;

/// The message types that a file declares.
pub uninterp spec fn file_messages(file: FileDescriptorProto) -> Seq<MessageShape>;

/// The declaration of a message type.
pub uninterp spec fn message_shape(message: DescriptorProto) -> MessageShape;

/// The declaration of a field.
pub uninterp spec fn field_shape(field: FieldDescriptorProto) -> FieldShape;

/// What a file descriptor set stands for.
pub open spec fn set_model(set: FileDescriptorSet) -> DescriptorSetModel {
    DescriptorSetModel { files: set_files(set), registry: set_registry(set) }
}

/// `FileDescriptorSet::get_file` lists the files of a set.
pub assume_specification[ FileDescriptorSet::get_file ](set: &FileDescriptorSet) -> (files:
    &[FileDescriptorProto])
    ensures
        files@.map_values(|file: FileDescriptorProto| file_messages(file)) == set_files(*set),
;

/// `FileDescriptorProto::get_message_type` lists the message types of a file.
pub assume_specification[ FileDescriptorProto::get_message_type ](
    file: &FileDescriptorProto,
) -> (messages: &[DescriptorProto])
    ensures
        messages@.map_values(|message: DescriptorProto| message_shape(message)) == file_messages(
            *file,
        ),
;

/// `DescriptorProto::get_nested_type` lists the message types that are declared within one.
pub assume_specification[ DescriptorProto::get_nested_type ](message: &DescriptorProto) -> (nested:
    &[DescriptorProto])
    ensures
        nested@.map_values(|message: DescriptorProto| message_shape(message)) == message_shape(
            *message,
        ).nested,
;

/// `DescriptorProto::get_field` lists the fields of a message type.
pub assume_specification[ DescriptorProto::get_field ](message: &DescriptorProto) -> (fields:
    &[FieldDescriptorProto])
    ensures
        fields@.map_values(|field: FieldDescriptorProto| field_shape(field)) == message_shape(
            *message,
        ).fields,
;

/// `FieldDescriptorProto::has_default_value` tells whether a default value is declared.
pub assume_specification[ FieldDescriptorProto::has_default_value ](
    field: &FieldDescriptorProto,
) -> (has_default: bool)
    ensures
        has_default == field_shape(*field).has_default,
;

/// `FieldDescriptorProto::get_field_type` is the declared type.
pub assume_specification[ FieldDescriptorProto::get_field_type ](
    field: &FieldDescriptorProto,
) -> (declared: FieldDescriptorProto_Type)
    ensures
        declared == field_shape(*field).field_type,
;

/// `parse_from_bytes` reads a file descriptor set; what comes out is a function of the bytes.
#[verifier::external_body]
fn parse_set(bytes: &[u8]) -> (parsed: Result<FileDescriptorSet, protobuf::ProtobufError>)
    ensures
        parsed is Ok <==> parsed_set(bytes@) is Some,
        parsed matches Ok(set) ==> parsed_set(bytes@) == Some(set_model(set)),
{
    FileDescriptorSet::parse_from_bytes(bytes)
}

/// `Descriptors::from_proto` makes a registry of all that a file descriptor set declares. It reads
/// each default value as its field's type says, and drops it if it cannot: messages and enums have
/// none. It panics on a group with a default value.
pub assume_specification[ Descriptors::from_proto ](set: &FileDescriptorSet) -> (descriptors:
    Descriptors)
    requires
        !declares_group_default(set_files(*set)),
    ensures
        registry(descriptors) == set_registry(*set),
        registry(descriptors).well_formed(),
        all_defaults_fit(registry(descriptors)),
;

/// Whether a message type, or one that is declared within it, has a group with a default value.
pub open spec fn has_group_default(message: MessageShape) -> bool
    decreases message,
{
    ||| exists|i: int|
        0 <= i < message.fields.len() && (#[trigger] message.fields[i]).has_default
            && message.fields[i].field_type is TYPE_GROUP
    ||| exists|i: int|
        0 <= i < message.nested.len() && has_group_default(#[trigger] message.nested[i])
}

/// Whether any message type of some files has a group with a default value.
pub open spec fn declares_group_default(files: Seq<Seq<MessageShape>>) -> bool {
    exists|i: int, j: int|
        0 <= i < files.len() && 0 <= j < files[i].len() && has_group_default(
            #[trigger] files[i][j],
        )
}

/// Checks whether a message type, or one that is declared within it, has a group with a default
/// value.
fn find_group_default(message: &DescriptorProto) -> (found: bool)
    ensures
        found == has_group_default(message_shape(*message)),
    decreases message_shape(*message),
{
    let ghost shape = message_shape(*message);
    let fields = message.get_field();
    for i in 0..fields.len()
        invariant
            shape == message_shape(*message),
            fields@.map_values(|field: FieldDescriptorProto| field_shape(field)) == shape.fields,
            forall|j: int|
                0 <= j < i ==> !((#[trigger] shape.fields[j]).has_default
                    && shape.fields[j].field_type is TYPE_GROUP),
    {
        assert(field_shape(fields@[i as int]) == shape.fields[i as int]);
        if fields[i].has_default_value() {
            if let FieldDescriptorProto_Type::TYPE_GROUP = fields[i].get_field_type() {
                return true;
            }
        }
    }
    let nested = message.get_nested_type();
    for i in 0..nested.len()
        invariant
            shape == message_shape(*message),
            nested@.map_values(|message: DescriptorProto| message_shape(message)) == shape.nested,
            fields@.len() == shape.fields.len(),
            forall|j: int|
                0 <= j < fields@.len() ==> !((#[trigger] shape.fields[j]).has_default
                    && shape.fields[j].field_type is TYPE_GROUP),
            forall|j: int| 0 <= j < i ==> !has_group_default(#[trigger] shape.nested[j]),
    {
        assert(message_shape(nested@[i as int]) == shape.nested[i as int]);
        assert(decreases_to!(shape => shape.nested));
        assert(decreases_to!(shape.nested => shape.nested[i as int]));
        if find_group_default(&nested[i]) {
            return true;
        }
    }
    false
}

/// Why a registry cannot be loaded.
#[derive(Clone, Copy, Debug, PartialEq, Eq, Structural)]
pub enum LoadError {
    /// The bytes are no file descriptor set.
    Malformed,
    /// A group is declared with a default value.
    GroupDefault,
}

/// Loads the registry of all that a file descriptor set declares from the bytes of the set.
pub fn read_descriptors_from_bytes(bytes: &[u8]) -> (loaded: Result<Descriptors, LoadError>)
    ensures
        match parsed_set(bytes@) {
            None => loaded == Err::<Descriptors, LoadError>(LoadError::Malformed),
            Some(set) => if declares_group_default(set.files) {
                loaded == Err::<Descriptors, LoadError>(LoadError::GroupDefault)
            } else {
                &&& loaded matches Ok(descriptors)
                &&& registry(descriptors) == set.registry
                &&& registry(descriptors).well_formed()
                &&& all_defaults_fit(registry(descriptors))
            },
        },
{
    let set = match parse_set(bytes) {
        Ok(set) => set,
        Err(_) => {
            return Err(LoadError::Malformed);
        },
    };
    let ghost shapes = set_files(set);
    let files = set.get_file();
    for i in 0..files.len()
        invariant
            parsed_set(bytes@) == Some(set_model(set)),
            shapes == set_files(set),
            files@.map_values(|file: FileDescriptorProto| file_messages(file)) == shapes,
            forall|k: int, j: int|
                0 <= k < i && 0 <= j < shapes[k].len() ==> !has_group_default(
                    #[trigger] shapes[k][j],
                ),
    {
        let messages = files[i].get_message_type();
        assert(file_messages(files@[i as int]) == shapes[i as int]);
        for j in 0..messages.len()
            invariant
                parsed_set(bytes@) == Some(set_model(set)),
                shapes == set_files(set),
                0 <= i < shapes.len(),
                messages@.map_values(|message: DescriptorProto| message_shape(message))
                    == shapes[i as int],
                forall|k: int|
                    0 <= k < j ==> !has_group_default(#[trigger] shapes[i as int][k]),
        {
            assert(message_shape(messages@[j as int]) == shapes[i as int][j as int]);
            if find_group_default(&messages[j]) {
                return Err(LoadError::GroupDefault);
            }
        }
    }
    Ok(Descriptors::from_proto(&set))
}

} // verus!
