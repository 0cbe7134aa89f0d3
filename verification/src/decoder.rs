//! Decoding of messages into rows.
use crate::convert::extract_row;
use crate::convert::extracted;
use crate::convert::is_outcome;
use crate::descriptor::registry;
use crate::descriptor::FieldModel;
use crate::descriptor::Registry;
use crate::descriptor::WireFieldModel;
use crate::dynamic::DynamicModel;
use crate::error::DecodeError;
use crate::laws::fits_relation;
use crate::laws::is_orderly;
use crate::laws::law_rows_fit_their_relation;
use crate::row::Row;
use crate::schema::accepted;
use crate::schema::relation_of;
use crate::serde_bridge::read_value;
use crate::wire::all_defaults_fit;
use crate::wire::deserialize_message;
use crate::wire::deserialized_message;
use crate::wire::find_group;
use crate::wire::fits_message;
use crate::wire::has_group;
use crate::wire::message_is_readable;
use crate::wire::parse_message;
use crate::wire::parsed_message;
use crate::wire::readable_fields;
use crate::wire::spells_message;
use serde_protobuf::descriptor::Descriptors;
use vstd::prelude::*;

verus! {

/// Manages the metadata that it takes to read messages of one type.
#[derive(Debug)]
pub struct Decoder {
    descriptors: Descriptors,
    message_name: String,
}

/// The mathematical counterpart of a [`Decoder`].
pub struct DecoderModel {
    pub registry: Registry,
    pub message_name: Seq<char>,
}

impl DecoderModel {
    /// Whether the message type is in the registry.
    pub open spec fn knows_message(self) -> bool {
        self.registry.message_ids.contains_key(self.message_name)
    }

    /// The fields of the message type.
    pub open spec fn fields(self) -> Seq<FieldModel> {
        self.registry.message(self.message_name)
    }

    /// Whether the message type is in the registry and can be turned into a relation.
    pub open spec fn is_valid(self) -> bool {
        self.knows_message() && accepted(self.registry, self.fields())
    }

    /// What bytes hold as a message of the type, if they are one.
    pub open spec fn parsed(self, bytes: Seq<u8>) -> Option<Seq<(i32, WireFieldModel)>> {
        parsed_message(self.registry, self.fields(), bytes)
    }

    /// The self-describing value that bytes become.
    pub open spec fn deserialized(self, bytes: Seq<u8>) -> DynamicModel {
        deserialized_message(self.registry, self.fields(), bytes)
    }

    /// Whether bytes are a message of the type, in which every enum has a number that is known.
    pub open spec fn reads(self, bytes: Seq<u8>) -> bool {
        self.parsed(bytes) matches Some(wire) && readable_fields(
            self.registry,
            self.fields(),
            wire,
        )
    }

    /// Whether the default values are of the types of their fields, and the names and numbers of
    /// the fields are as [`is_orderly`] asks.
    pub open spec fn is_orderly(self) -> bool {
        all_defaults_fit(self.registry) && is_orderly(self.registry, self.fields())
    }

    /// Whether an outcome is a row of the relation that the message type becomes.
    pub open spec fn is_row(self, outcome: Result<Option<Row>, DecodeError>) -> bool {
        outcome matches Ok(Some(row)) && relation_of(self.registry, self.fields()) matches Ok(
            columns,
        ) && fits_relation(row@, columns)
    }

    /// Whether the self-describing value that bytes become says what they hold and, as long as
    /// default values are of the types of their fields, all that they hold is of the type of its
    /// field.
    pub open spec fn is_faithful(self, bytes: Seq<u8>) -> bool {
        self.parsed(bytes) matches Some(wire) && {
            &&& spells_message(self.registry, self.fields(), wire, self.deserialized(bytes))
            &&& all_defaults_fit(self.registry) ==> fits_message(
                self.registry,
                self.fields(),
                wire,
            )
        }
    }
}

/// Why no attempt was made to turn bytes into a row.
#[derive(Clone, Copy, Debug, PartialEq, Eq, Structural)]
pub enum DecodeRefusal {
    /// The message type is not in the registry.
    UnknownMessage,
    /// The message types that the message type refers to were not followed deep enough to tell
    /// whether there is a group among their fields.
    TooDeep,
    /// The message type, or one that it refers to, has a group.
    Group,
    /// The bytes are no message of the type.
    Malformed,
    /// A value does not fit the type of its field: an enum has a number that is not known.
    Unreadable,
}

/// What keeps bytes from being decoded, if message types are followed at most `depth` deep.
pub open spec fn refusal(decoder: DecoderModel, bytes: Seq<u8>, depth: nat) -> Option<
    DecodeRefusal,
> {
    if !decoder.knows_message() {
        Some(DecodeRefusal::UnknownMessage)
    } else {
        match has_group(decoder.registry, decoder.fields(), depth) {
            None => Some(DecodeRefusal::TooDeep),
            Some(true) => Some(DecodeRefusal::Group),
            Some(false) => if decoder.parsed(bytes) is None {
                Some(DecodeRefusal::Malformed)
            } else if !decoder.reads(bytes) {
                Some(DecodeRefusal::Unreadable)
            } else {
                None
            },
        }
    }
}

impl View for Decoder {
    type V = DecoderModel;

    closed spec fn view(&self) -> DecoderModel {
        DecoderModel { registry: registry(self.descriptors), message_name: self.message_name@ }
    }
}

impl Decoder {
    /// Builds a decoder for messages of a type that has been validated.
    ///
    /// To decode anything, the message type must be in the registry. For the rows to be those of a
    /// relation it must be valid.
    pub fn new(descriptors: Descriptors, message_name: &str) -> (decoder: Decoder)
        ensures
            decoder@ == (DecoderModel {
                registry: registry(descriptors),
                message_name: message_name@,
            }),
    {
        Decoder { descriptors, message_name: message_name.to_owned() }
    }

    /// Turns the bytes of a message into a row, one datum for each field of the message type.
    pub fn decode(&mut self, bytes: &[u8]) -> (row: Result<Option<Row>, DecodeError>)
        requires
            old(self)@.knows_message(),
            old(self)@.reads(bytes@),
        ensures
            final(self)@ == old(self)@,
            is_outcome(extracted(old(self)@.deserialized(bytes@), old(self)@.fields()), row),
            old(self)@.is_faithful(bytes@),
            old(self)@.is_valid() && old(self)@.is_orderly() ==> old(self)@.is_row(row),
    {
        let descriptor = self.descriptors.message_by_name(&self.message_name).unwrap();
        let deserialized = deserialize_message(&self.descriptors, &self.message_name, bytes);
        proof {
            let model = self@;
            if model.is_valid() && model.is_orderly() {
                law_rows_fit_their_relation(
                    model.registry,
                    model.fields(),
                    model.parsed(bytes@)->0,
                    model.deserialized(bytes@),
                );
            }
        }
        extract_row(read_value(&deserialized.unwrap()), descriptor)
    }

    /// Turns the bytes of a message into a row, as [`Decoder::decode`] does, unless the message
    /// type or the bytes do not allow for it. Message types are followed no deeper than `depth`.
    pub fn try_decode(&mut self, bytes: &[u8], depth: usize) -> (outcome: Result<
        Result<Option<Row>, DecodeError>,
        DecodeRefusal,
    >)
        ensures
            final(self)@ == old(self)@,
            match refusal(old(self)@, bytes@, depth as nat) {
                Some(refusal) => outcome matches Err(found) && found == refusal,
                None => outcome matches Ok(row) && is_outcome(
                    extracted(old(self)@.deserialized(bytes@), old(self)@.fields()),
                    row,
                ) && old(self)@.is_faithful(bytes@) && (old(self)@.is_valid()
                    && old(self)@.is_orderly() ==> old(self)@.is_row(row)),
            },
    {
        let descriptor = match self.descriptors.message_by_name(&self.message_name) {
            Some(descriptor) => descriptor,
            None => {
                return Err(DecodeRefusal::UnknownMessage);
            },
        };
        match find_group(descriptor, &self.descriptors, depth) {
            None => {
                return Err(DecodeRefusal::TooDeep);
            },
            Some(true) => {
                return Err(DecodeRefusal::Group);
            },
            Some(false) => {},
        }
        match parse_message(descriptor, &self.descriptors, bytes) {
            Ok(message) => {
                if !message_is_readable(descriptor, &message, &self.descriptors) {
                    return Err(DecodeRefusal::Unreadable);
                }
            },
            Err(_) => {
                return Err(DecodeRefusal::Malformed);
            },
        }
        Ok(self.decode(bytes))
    }
}

} // verus!
