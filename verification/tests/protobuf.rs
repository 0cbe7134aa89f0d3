//! Message types become relations, and messages become rows of them.
use protobuf::descriptor::DescriptorProto;
use protobuf::descriptor::EnumDescriptorProto;
use protobuf::descriptor::EnumValueDescriptorProto;
use protobuf::descriptor::FieldDescriptorProto;
use protobuf::descriptor::FieldDescriptorProto_Label;
use protobuf::descriptor::FieldDescriptorProto_Type;
use protobuf::descriptor::FileDescriptorProto;
use protobuf::descriptor::FileDescriptorSet;
use protobuf::CodedOutputStream;
use protobuf::Message;
use protobuf::RepeatedField;
use protobuf_interchange::read_descriptors_from_bytes;
use protobuf_interchange::validate_proto_schema_with_descriptors;
use protobuf_interchange::validate_proto_schema_within;
use protobuf_interchange::Datum;
use protobuf_interchange::DecodeRefusal;
use protobuf_interchange::Decoder;
use protobuf_interchange::LoadError;
use protobuf_interchange::RelationDesc;
use protobuf_interchange::Row;
use protobuf_interchange::ScalarType;
use protobuf_interchange::SchemaError;
use protobuf_interchange::Significand;
use serde_protobuf::descriptor::Descriptors;
use serde_protobuf::descriptor::FieldDescriptor;
use serde_protobuf::descriptor::FieldLabel;
use serde_protobuf::descriptor::FieldType;
use serde_protobuf::descriptor::InternalFieldType;
use serde_protobuf::descriptor::MessageDescriptor;
use serde_protobuf::value::Value as ProtoValue;

fn sanity_check_relation(
    relation: &RelationDesc,
    message: &MessageDescriptor,
    descriptors: &Descriptors,
) -> Result<(), String> {
    for (field_descriptor, (column_name, column_type)) in
        message.fields().iter().zip(relation.iter())
    {
        if let Some(column_name) = column_name {
            assert_eq!(field_descriptor.name(), column_name.as_str());
        } else {
            return Err(format!(
                "Missing name in relation for field {}",
                field_descriptor.name()
            ));
        }

        match (
            field_descriptor.field_type(descriptors),
            field_descriptor.field_label(),
            &column_type.scalar_type,
        ) {
            (FieldType::Bool, FieldLabel::Optional, ScalarType::Bool)
            | (FieldType::Int32, FieldLabel::Optional, ScalarType::Int32)
            | (FieldType::SInt32, FieldLabel::Optional, ScalarType::Int32)
            | (FieldType::SFixed32, FieldLabel::Optional, ScalarType::Int32)
            | (FieldType::Enum(_), FieldLabel::Optional, ScalarType::String)
            | (FieldType::Int64, FieldLabel::Optional, ScalarType::Int64)
            | (FieldType::SInt64, FieldLabel::Optional, ScalarType::Int64)
            | (FieldType::SFixed64, FieldLabel::Optional, ScalarType::Int64)
            | (FieldType::Float, FieldLabel::Optional, ScalarType::Float32)
            | (FieldType::Double, FieldLabel::Optional, ScalarType::Float64)
            | (FieldType::UInt32, FieldLabel::Optional, ScalarType::Decimal(38, 0))
            | (FieldType::Fixed32, FieldLabel::Optional, ScalarType::Decimal(38, 0))
            | (FieldType::UInt64, FieldLabel::Optional, ScalarType::Decimal(38, 0))
            | (FieldType::Fixed64, FieldLabel::Optional, ScalarType::Decimal(38, 0))
            | (FieldType::String, FieldLabel::Optional, ScalarType::String)
            | (FieldType::Bytes, FieldLabel::Optional, ScalarType::Bytes)
            | (FieldType::Message(_), FieldLabel::Optional, ScalarType::Jsonb) => (),

            (ft, FieldLabel::Optional, st) => {
                return Err(format!(
                    "Incorrect protobuf optional type {:?} mapping to Materialize type {:?}",
                    ft, st
                ))
            }
            (ft, FieldLabel::Repeated, ScalarType::Jsonb) => match ft {
                FieldType::UnresolvedMessage(_)
                | FieldType::UnresolvedEnum(_)
                | FieldType::Group => return Err(format!("Unsupported repeated type {:?}", ft)),
                _ => (),
            },
            (ft, label, st) => {
                return Err(format!(
                    "Mismatched field types for proto field {:?} proto type {:?} label {:?} relationtype {:?}",
                    field_descriptor.name(),
                    ft,
                    label,
                    st
                ))
            }
        }
    }

    Ok(())
}

#[test]
fn test_proto_schema_parsing() -> Result<(), String> {
    let mut descriptors = Descriptors::new();
    let mut m1 = MessageDescriptor::new(".test.message1");
    m1.add_field(FieldDescriptor::new(
        "name",
        1,
        FieldLabel::Optional,
        InternalFieldType::String,
        None,
    ));
    m1.add_field(FieldDescriptor::new(
        "age",
        2,
        FieldLabel::Optional,
        InternalFieldType::UInt32,
        None,
    ));
    descriptors.add_message(m1);

    let mut relation = validate_proto_schema_with_descriptors(".test.message1", &descriptors)
        .expect("Failed to parse descriptor");

    sanity_check_relation(
        &relation,
        descriptors
            .message_by_name(".test.message1")
            .expect("message should be in the descriptor set"),
        &descriptors,
    )?;

    let mut m2 = MessageDescriptor::new(".test.message2");
    m2.add_field(FieldDescriptor::new(
        "ids",
        1,
        FieldLabel::Repeated,
        InternalFieldType::Int32,
        None,
    ));

    m2.add_field(FieldDescriptor::new(
        "nested",
        1,
        FieldLabel::Repeated,
        InternalFieldType::String,
        None,
    ));
    descriptors.add_message(m2);

    relation = validate_proto_schema_with_descriptors(".test.message2", &descriptors)
        .expect("Failed to parse descriptor");

    sanity_check_relation(
        &relation,
        descriptors
            .message_by_name(".test.message2")
            .expect("message should be in the descriptor set"),
        &descriptors,
    )?;

    Ok(())
}

fn field(
    name: &str,
    number: i32,
    label: FieldDescriptorProto_Label,
    field_type: FieldDescriptorProto_Type,
    referred: &str,
) -> FieldDescriptorProto {
    let mut field = FieldDescriptorProto::new();
    field.set_name(name.to_string());
    field.set_number(number);
    field.set_label(label);
    field.set_field_type(field_type);
    if !referred.is_empty() {
        field.set_type_name(referred.to_string());
    }
    field
}

fn message(name: &str, fields: Vec<FieldDescriptorProto>) -> DescriptorProto {
    let mut message = DescriptorProto::new();
    message.set_name(name.to_string());
    message.set_field(RepeatedField::from_vec(fields));
    message
}

fn enumeration(name: &str, values: &[(&str, i32)]) -> EnumDescriptorProto {
    let mut descriptor = EnumDescriptorProto::new();
    descriptor.set_name(name.to_string());
    for (value_name, number) in values {
        let mut value = EnumValueDescriptorProto::new();
        value.set_name(value_name.to_string());
        value.set_number(*number);
        descriptor.mut_value().push(value);
    }
    descriptor
}

fn descriptor_set() -> FileDescriptorSet {
    let optional = FieldDescriptorProto_Label::LABEL_OPTIONAL;
    let repeated = FieldDescriptorProto_Label::LABEL_REPEATED;
    let mut file = FileDescriptorProto::new();
    file.mut_message_type().push(message(
        "TestRecord",
        vec![
            field("int_field", 1, optional, FieldDescriptorProto_Type::TYPE_INT32, ""),
            field("string_field", 2, optional, FieldDescriptorProto_Type::TYPE_STRING, ""),
            field("int64_field", 3, optional, FieldDescriptorProto_Type::TYPE_INT64, ""),
            field("bytes_field", 4, optional, FieldDescriptorProto_Type::TYPE_BYTES, ""),
            field("color_field", 5, optional, FieldDescriptorProto_Type::TYPE_ENUM, ".Color"),
            field("uint_field", 6, optional, FieldDescriptorProto_Type::TYPE_UINT32, ""),
            field("uint64_field", 7, optional, FieldDescriptorProto_Type::TYPE_UINT64, ""),
            field("float_field", 8, optional, FieldDescriptorProto_Type::TYPE_FLOAT, ""),
            field("double_field", 9, optional, FieldDescriptorProto_Type::TYPE_DOUBLE, ""),
        ],
    ));
    file.mut_message_type().push(message(
        "TestRepeatedRecord",
        vec![
            field("int_field", 1, repeated, FieldDescriptorProto_Type::TYPE_INT32, ""),
            field("string_field", 2, repeated, FieldDescriptorProto_Type::TYPE_STRING, ""),
        ],
    ));
    file.mut_message_type().push(message(
        "TestNestedRecord",
        vec![
            field(
                "test_record",
                1,
                optional,
                FieldDescriptorProto_Type::TYPE_MESSAGE,
                ".TestRecord",
            ),
            field(
                "test_repeated_record",
                2,
                optional,
                FieldDescriptorProto_Type::TYPE_MESSAGE,
                ".TestRepeatedRecord",
            ),
        ],
    ));
    file.mut_message_type().push(message(
        "TestRepeatedNestedRecord",
        vec![field(
            "test_record",
            1,
            repeated,
            FieldDescriptorProto_Type::TYPE_MESSAGE,
            ".TestRecord",
        )],
    ));
    file.mut_enum_type().push(enumeration(
        "Color",
        &[("RED", 0), ("YELLOW", 1), ("BLUE", 2)],
    ));
    let mut set = FileDescriptorSet::new();
    set.mut_file().push(file);
    set
}

fn get_decoder(message_name: &str) -> Decoder {
    let descriptors = Descriptors::from_proto(&descriptor_set());
    Decoder::new(descriptors, message_name)
}

/// Decodes with both entry points, which have to agree.
fn decode(decoder: &mut Decoder, bytes: &[u8]) -> Row {
    let tried = decoder
        .try_decode(bytes, 10)
        .expect("bytes that can be decoded")
        .expect("deserialize protobuf into a row")
        .unwrap();
    let row = decoder
        .decode(bytes)
        .expect("deserialize protobuf into a row")
        .unwrap();
    assert_eq!(tried, row);
    row
}

fn encoded(write: impl Fn(&mut CodedOutputStream)) -> Vec<u8> {
    let mut bytes = Vec::new();
    {
        let mut stream = CodedOutputStream::vec(&mut bytes);
        write(&mut stream);
        stream.flush().expect("test failed to serialize to bytes");
    }
    bytes
}

#[test]
fn test_decode() {
    let bytes = encoded(|stream| {
        stream.write_int32(1, 1).unwrap();
        stream.write_string(2, "one").unwrap();
        stream.write_int64(3, 10000).unwrap();
        stream.write_bytes(4, b"foo").unwrap();
        stream.write_enum(5, 2).unwrap();
        stream.write_uint32(6, 5).unwrap();
        stream.write_uint64(7, 55).unwrap();
        stream.write_float(8, 5.456).unwrap();
        stream.write_double(9, 99.99).unwrap();
    });

    let mut decoder = get_decoder(".TestRecord");
    let row = decode(&mut decoder, &bytes);
    let datums = row.unpack();

    let expected = vec![
        Datum::Int32(1),
        Datum::String("one".to_string()),
        Datum::Int64(10000),
        Datum::Bytes(vec![102, 111, 111]),
        Datum::String("BLUE".to_string()),
        Datum::Decimal(Significand::new(5)),
        Datum::Decimal(Significand::new(55)),
        Datum::Float32(5.456f32.to_bits()),
        Datum::Float64(99.99f64.to_bits()),
    ];

    assert_eq!(*datums, expected);
}

#[test]
fn test_decode_with_null() {
    let bytes = encoded(|stream| {
        stream.write_int32(1, 1).unwrap();
    });

    let mut decoder = get_decoder(".TestRecord");
    let row = decode(&mut decoder, &bytes);
    let datums = row.unpack();

    let expected = vec![
        Datum::Int32(1),
        Datum::Null,
        Datum::Null,
        Datum::Null,
        Datum::Null,
        Datum::Null,
        Datum::Null,
        Datum::Null,
        Datum::Null,
    ];

    assert_eq!(*datums, expected);
}

#[test]
fn test_repeated() {
    let bytes = encoded(|stream| {
        stream.write_int32(1, 1).unwrap();
        stream.write_int32(1, 2).unwrap();
        stream.write_int32(1, 3).unwrap();
    });

    let mut decoder = get_decoder(".TestRepeatedRecord");
    let row = decode(&mut decoder, &bytes);
    let datums = row.unpack();

    if let Datum::List(datumlist) = &datums[0] {
        assert_eq!(
            *datumlist,
            vec![
                Datum::Float64(1.0f64.to_bits()),
                Datum::Float64(2.0f64.to_bits()),
                Datum::Float64(3.0f64.to_bits())
            ]
        );
    } else {
        panic!("Expected the first field to be a list of datums!");
    }
}

#[test]
fn test_nested() {
    let test_record = encoded(|stream| {
        stream.write_int32(1, 1).unwrap();
        stream.write_string(2, "one").unwrap();
    });
    let bytes = encoded(|stream| {
        stream.write_bytes(1, &test_record).unwrap();
    });

    let mut decoder = get_decoder(".TestNestedRecord");
    let row = decode(&mut decoder, &bytes);
    let datums = row.unpack();
    if let Datum::Dict(datumdict) = &datums[0] {
        assert_eq!(
            *datumdict,
            vec![
                ("int_field".to_string(), Datum::Float64(1.0f64.to_bits())),
                ("string_field".to_string(), Datum::String("one".to_string())),
            ]
        );
    } else {
        panic!("Expected the first field to be a dict of datums!");
    }

    let test_repeated_record = encoded(|stream| {
        stream.write_string(2, "start").unwrap();
        stream.write_string(2, "two").unwrap();
        stream.write_string(2, "three").unwrap();
    });
    let bytes = encoded(|stream| {
        stream.write_bytes(1, &test_record).unwrap();
        stream.write_bytes(2, &test_repeated_record).unwrap();
    });

    let row2 = decode(&mut decoder, &bytes);
    let datums = row2.unpack();

    if let Datum::Dict(datumdict) = &datums[1] {
        for (name, datum) in datumdict.iter() {
            if let ("string_field", Datum::List(datumlist)) = (name.as_str(), datum) {
                assert_eq!(
                    *datumlist,
                    vec![
                        Datum::String("start".to_string()),
                        Datum::String("two".to_string()),
                        Datum::String("three".to_string()),
                    ]
                );
            }
        }
    } else {
        panic!("Expected the second field to be a dict of datums!");
    }
}

#[test]
fn test_arrays_nested() {
    let test_record = encoded(|stream| {
        stream.write_int32(1, 1).unwrap();
    });
    let bytes = encoded(|stream| {
        stream.write_bytes(1, &test_record).unwrap();
        stream.write_bytes(1, &test_record).unwrap();
    });

    let mut decoder = get_decoder(".TestRepeatedNestedRecord");
    let row = decode(&mut decoder, &bytes);
    let datums = row.unpack();

    if let Datum::List(datumlist) = &datums[0] {
        for datum in datumlist {
            if let Datum::Dict(datumdict) = datum {
                assert_eq!(
                    *datumdict,
                    vec![("int_field".to_string(), Datum::Float64(1.0f64.to_bits())),]
                );
            } else {
                panic!("Expected the inner elements to be dicts of datums");
            }
        }
    } else {
        panic!("Expected the first field to be a list of datums!");
    }
}

#[test]
fn nested_fields_are_listed_in_the_order_of_their_names() {
    let test_record = encoded(|stream| {
        stream.write_enum(5, 1).unwrap();
        stream.write_int32(1, -7).unwrap();
        stream.write_uint64(7, u64::MAX).unwrap();
        stream.write_float(8, 0.1).unwrap();
        stream.write_double(9, 0.1).unwrap();
        stream.write_string(2, "x").unwrap();
    });
    let bytes = encoded(|stream| {
        stream.write_bytes(1, &test_record).unwrap();
        stream.write_bytes(2, &[]).unwrap();
    });
    let row = decode(&mut get_decoder(".TestNestedRecord"), &bytes);
    assert_eq!(
        *row.unpack(),
        vec![
            Datum::Dict(vec![
                ("color_field".to_string(), Datum::String("YELLOW".to_string())),
                ("double_field".to_string(), Datum::Float64(0.1f64.to_bits())),
                ("float_field".to_string(), Datum::Float64((0.1f32 as f64).to_bits())),
                ("int_field".to_string(), Datum::Float64((-7.0f64).to_bits())),
                ("string_field".to_string(), Datum::String("x".to_string())),
                ("uint64_field".to_string(), Datum::Float64((u64::MAX as f64).to_bits())),
            ]),
            Datum::Dict(vec![
                ("int_field".to_string(), Datum::List(vec![])),
                ("string_field".to_string(), Datum::List(vec![])),
            ]),
        ]
    );
}

#[test]
fn the_last_value_of_a_field_counts_and_packed_arrays_are_read() {
    let bytes = encoded(|stream| {
        stream.write_int32(1, 1).unwrap();
        stream.write_int32(1, 2).unwrap();
        stream.write_int32(77, 3).unwrap();
    });
    let row = decode(&mut get_decoder(".TestRecord"), &bytes);
    assert_eq!(row.unpack()[0], Datum::Int32(2));

    // A length-delimited run of varints.
    let bytes = vec![10u8, 3, 4, 5, 6];
    let row = decode(&mut get_decoder(".TestRepeatedRecord"), &bytes);
    assert_eq!(
        *row.unpack(),
        vec![
            Datum::List(vec![
                Datum::Float64(4.0f64.to_bits()),
                Datum::Float64(5.0f64.to_bits()),
                Datum::Float64(6.0f64.to_bits()),
            ]),
            Datum::List(vec![]),
        ]
    );
}

/// Whether a datum is one of a column's type.
fn is_of_type(datum: &Datum, nullable: bool, scalar_type: &ScalarType) -> bool {
    match (datum, scalar_type) {
        (Datum::Null, _) => nullable,
        (Datum::True, ScalarType::Bool) | (Datum::False, ScalarType::Bool) => true,
        (Datum::Int32(_), ScalarType::Int32) => true,
        (Datum::Int64(_), ScalarType::Int64) => true,
        (Datum::Float32(_), ScalarType::Float32) => true,
        (Datum::Float64(_), ScalarType::Float64) => true,
        (Datum::Decimal(_), ScalarType::Decimal(38, 0)) => true,
        (Datum::Bytes(_), ScalarType::Bytes) => true,
        (Datum::String(_), ScalarType::String) => true,
        (Datum::List(_), ScalarType::Jsonb) | (Datum::Dict(_), ScalarType::Jsonb) => true,
        _ => false,
    }
}

#[test]
fn rows_fit_their_relation() {
    let descriptors = Descriptors::from_proto(&descriptor_set());
    let full = encoded(|stream| {
        stream.write_int32(1, 1).unwrap();
        stream.write_string(2, "one").unwrap();
        stream.write_int64(3, 10000).unwrap();
        stream.write_bytes(4, b"foo").unwrap();
        stream.write_enum(5, 2).unwrap();
        stream.write_uint32(6, 5).unwrap();
        stream.write_uint64(7, 55).unwrap();
        stream.write_float(8, 5.456).unwrap();
        stream.write_double(9, 99.99).unwrap();
    });
    for name in vec![".TestRecord", ".TestRepeatedRecord"] {
        let relation = validate_proto_schema_with_descriptors(name, &descriptors).unwrap();
        let columns = relation.iter();
        for bytes in vec![vec![], full[..2].to_vec(), full[..7].to_vec(), full.clone()] {
            let mut decoder = get_decoder(name);
            match decoder.try_decode(&bytes, 10) {
                Ok(row) => {
                    let row = row.unwrap().unwrap();
                    assert_eq!(row.unpack().len(), columns.len());
                    for (datum, (_, column)) in row.unpack().iter().zip(&columns) {
                        assert!(is_of_type(datum, column.nullable, &column.scalar_type));
                    }
                }
                Err(refusal) => assert_eq!(refusal, DecodeRefusal::Malformed),
            }
        }
    }
}

fn scalar_field(
    name: &str,
    number: i32,
    field_type: InternalFieldType,
    default: Option<ProtoValue>,
) -> FieldDescriptor {
    FieldDescriptor::new(name, number, FieldLabel::Optional, field_type, default)
}

fn decoder_of(fields: Vec<FieldDescriptor>) -> Decoder {
    let mut descriptors = Descriptors::new();
    let mut message = MessageDescriptor::new(".m");
    for field in fields {
        message.add_field(field);
    }
    descriptors.add_message(message);
    Decoder::new(descriptors, ".m")
}

#[test]
fn fields_that_were_not_sent_show_their_default_values() {
    let mut decoder = decoder_of(vec![
        scalar_field("a", 1, InternalFieldType::Bool, Some(ProtoValue::Bool(true))),
        scalar_field("b", 2, InternalFieldType::SInt32, Some(ProtoValue::I32(-3))),
        scalar_field("c", 3, InternalFieldType::SFixed64, Some(ProtoValue::I64(4))),
        scalar_field("d", 4, InternalFieldType::Fixed32, Some(ProtoValue::U32(5))),
        scalar_field("e", 5, InternalFieldType::UInt64, Some(ProtoValue::U64(u64::MAX))),
        scalar_field("f", 6, InternalFieldType::Float, Some(ProtoValue::F32(1.5))),
        scalar_field("g", 7, InternalFieldType::Double, Some(ProtoValue::F64(-2.5))),
        scalar_field("h", 8, InternalFieldType::String, Some(ProtoValue::String("t".to_string()))),
        scalar_field("i", 9, InternalFieldType::Bytes, Some(ProtoValue::Bytes(vec![1, 2]))),
        scalar_field("j", 10, InternalFieldType::Int32, None),
    ]);
    let row = decode(&mut decoder, &[]);
    assert_eq!(
        *row.unpack(),
        vec![
            Datum::True,
            Datum::Int32(-3),
            Datum::Int64(4),
            Datum::Decimal(Significand::new(5)),
            Datum::Decimal(Significand::new(18446744073709551615)),
            Datum::Float32(1.5f32.to_bits()),
            Datum::Float64((-2.5f64).to_bits()),
            Datum::String("t".to_string()),
            Datum::Bytes(vec![1, 2]),
            Datum::Null,
        ]
    );
    let bytes = encoded(|stream| {
        stream.write_bool(1, false).unwrap();
        stream.write_sint32(2, 9).unwrap();
    });
    let row = decode(&mut decoder, &bytes);
    assert_eq!(row.unpack()[0], Datum::False);
    assert_eq!(row.unpack()[1], Datum::Int32(9));
    assert_eq!(row.unpack()[2], Datum::Int64(4));
}

#[test]
fn fields_of_one_number_show_under_the_last_of_them() {
    let mut decoder = decoder_of(vec![
        FieldDescriptor::new("ids", 1, FieldLabel::Repeated, InternalFieldType::Int32, None),
        FieldDescriptor::new("nested", 1, FieldLabel::Repeated, InternalFieldType::String, None),
    ]);
    let bytes = encoded(|stream| {
        stream.write_string(1, "x").unwrap();
    });
    let row = decode(&mut decoder, &bytes);
    assert_eq!(
        *row.unpack(),
        vec![
            Datum::Null,
            Datum::List(vec![Datum::String("x".to_string())]),
        ]
    );
}

#[test]
fn what_cannot_be_decoded_is_refused() {
    assert_eq!(
        get_decoder(".Unknown").try_decode(&[], 10).unwrap_err(),
        DecodeRefusal::UnknownMessage
    );
    assert_eq!(
        get_decoder(".TestNestedRecord").try_decode(&[], 0).unwrap_err(),
        DecodeRefusal::TooDeep
    );
    assert!(get_decoder(".TestNestedRecord").try_decode(&[], 1).is_ok());
    assert_eq!(
        get_decoder(".TestRecord").try_decode(&[8], 10).unwrap_err(),
        DecodeRefusal::Malformed
    );
    // A number where a text is due.
    assert_eq!(
        get_decoder(".TestRecord").try_decode(&[16, 1], 10).unwrap_err(),
        DecodeRefusal::Malformed
    );
    let bytes = encoded(|stream| {
        stream.write_enum(5, 3).unwrap();
    });
    assert_eq!(
        get_decoder(".TestRecord").try_decode(&bytes, 10).unwrap_err(),
        DecodeRefusal::Unreadable
    );
    let nested = encoded(|stream| {
        stream.write_bytes(1, &bytes).unwrap();
    });
    assert_eq!(
        get_decoder(".TestRepeatedNestedRecord").try_decode(&nested, 10).unwrap_err(),
        DecodeRefusal::Unreadable
    );
    let mut decoder = decoder_of(vec![scalar_field("g", 1, InternalFieldType::Group, None)]);
    assert_eq!(decoder.try_decode(&[], 10).unwrap_err(), DecodeRefusal::Group);
}

#[test]
fn nested_bytes_are_refused_only_where_they_are_sent() {
    let test_record = encoded(|stream| {
        stream.write_bytes(4, b"foo").unwrap();
    });
    let bytes = encoded(|stream| {
        stream.write_bytes(1, &test_record).unwrap();
    });
    let error = get_decoder(".TestNestedRecord").decode(&bytes).unwrap_err();
    assert_eq!(
        error.message(),
        "We don't currently support arrays or nested messages with bytes"
    );
    assert!(get_decoder(".TestNestedRecord").decode(&[]).is_ok());
}

fn schema_error(descriptors: &Descriptors, message_name: &str) -> SchemaError {
    match validate_proto_schema_within(message_name, descriptors, 10) {
        Some(Err(error)) => error,
        other => panic!("expected an error, found {:?}", other),
    }
}

fn descriptors_of(label: FieldLabel, field_type: InternalFieldType) -> Descriptors {
    let mut descriptors = Descriptors::new();
    let mut inner = MessageDescriptor::new(".inner");
    inner.add_field(FieldDescriptor::new("f", 1, label, field_type, None));
    descriptors.add_message(inner);
    let mut outer = MessageDescriptor::new(".outer");
    outer.add_field(FieldDescriptor::new(
        "ok",
        1,
        FieldLabel::Optional,
        InternalFieldType::Bytes,
        None,
    ));
    outer.add_field(FieldDescriptor::new(
        "m",
        2,
        FieldLabel::Optional,
        InternalFieldType::UnresolvedMessage(".inner".to_string()),
        None,
    ));
    descriptors.add_message(outer);
    descriptors
}

#[test]
fn unsupported_columns_are_refused() {
    let required = descriptors_of(FieldLabel::Required, InternalFieldType::Int32);
    let error = schema_error(&required, ".inner");
    assert!(matches!(&error, SchemaError::RequiredField(name) if name == "f"));
    assert_eq!(error.message(), "Required field f not supported");

    let group = descriptors_of(FieldLabel::Optional, InternalFieldType::Group);
    let error = schema_error(&group, ".inner");
    assert!(matches!(error, SchemaError::Group));
    assert_eq!(error.message(), "Unions are currently not supported");

    let unknown = descriptors_of(
        FieldLabel::Optional,
        InternalFieldType::UnresolvedMessage(".gone".to_string()),
    );
    let error = schema_error(&unknown, ".inner");
    assert!(matches!(&error, SchemaError::UnresolvedMessage(name) if name == ".gone"));
    assert_eq!(error.message(), "Unresolved message .gone not supported");

    let unknown = descriptors_of(
        FieldLabel::Optional,
        InternalFieldType::UnresolvedEnum(".gone".to_string()),
    );
    let error = schema_error(&unknown, ".inner");
    assert!(matches!(&error, SchemaError::UnresolvedEnum(name) if name == ".gone"));
    assert_eq!(error.message(), "Unresolved enum .gone not supported");
}

#[test]
fn unsupported_nested_fields_are_refused() {
    let required = descriptors_of(FieldLabel::Required, InternalFieldType::Int32);
    assert!(matches!(
        schema_error(&required, ".outer"),
        SchemaError::RequiredField(name) if name == "f"
    ));

    let bytes = descriptors_of(FieldLabel::Optional, InternalFieldType::Bytes);
    assert!(validate_proto_schema_with_descriptors(".inner", &bytes).is_ok());
    let error = schema_error(&bytes, ".outer");
    assert!(matches!(error, SchemaError::NestedBytes));
    assert_eq!(
        error.message(),
        "Arrays or nested messages with bytes objects are not currently supported"
    );

    let arrays = descriptors_of(FieldLabel::Repeated, InternalFieldType::Bytes);
    assert!(matches!(schema_error(&arrays, ".inner"), SchemaError::NestedBytes));

    let group = descriptors_of(FieldLabel::Repeated, InternalFieldType::Group);
    assert!(matches!(schema_error(&group, ".inner"), SchemaError::Group));
    assert!(matches!(schema_error(&group, ".outer"), SchemaError::Group));

    let unknown = descriptors_of(
        FieldLabel::Optional,
        InternalFieldType::UnresolvedMessage(".gone".to_string()),
    );
    let error = schema_error(&unknown, ".outer");
    assert!(matches!(&error, SchemaError::NestedUnresolvedMessage(name) if name == ".gone"));
    assert_eq!(error.message(), "Nested message type .gone unresolved");

    let unknown = descriptors_of(
        FieldLabel::Repeated,
        InternalFieldType::UnresolvedEnum(".gone".to_string()),
    );
    let error = schema_error(&unknown, ".inner");
    assert!(matches!(&error, SchemaError::NestedUnresolvedEnum(name) if name == ".gone"));
    assert_eq!(error.message(), "Unresolved enum type .gone");
}

#[test]
fn message_types_are_followed_no_deeper_than_asked() {
    let descriptors = Descriptors::from_proto(&descriptor_set());
    assert!(validate_proto_schema_within(".TestRepeatedNestedRecord", &descriptors, 0).is_none());
    assert!(matches!(
        validate_proto_schema_within(".TestRepeatedNestedRecord", &descriptors, 1),
        Some(Err(SchemaError::NestedBytes))
    ));
    assert!(validate_proto_schema_within(".Unknown", &descriptors, 1).is_none());

    let mut recursive = Descriptors::new();
    let mut message = MessageDescriptor::new(".r");
    message.add_field(FieldDescriptor::new(
        "next",
        1,
        FieldLabel::Optional,
        InternalFieldType::UnresolvedMessage(".r".to_string()),
        None,
    ));
    recursive.add_message(message);
    assert!(validate_proto_schema_within(".r", &recursive, 50).is_none());
}

#[test]
fn columns_take_nulls_unless_their_fields_have_defaults() {
    let mut descriptors = Descriptors::new();
    let mut message = MessageDescriptor::new(".m");
    message.add_field(scalar_field("a", 1, InternalFieldType::Double, None));
    message.add_field(scalar_field(
        "b",
        2,
        InternalFieldType::Fixed64,
        Some(ProtoValue::U64(1)),
    ));
    descriptors.add_message(message);
    let relation = validate_proto_schema_with_descriptors(".m", &descriptors).unwrap();
    let columns = relation.iter();
    assert_eq!(columns.len(), 2);
    assert_eq!(*columns[0].0, Some("a".to_string()));
    assert!(columns[0].1.nullable);
    assert_eq!(columns[0].1.scalar_type, ScalarType::Float64);
    assert_eq!(*columns[1].0, Some("b".to_string()));
    assert!(!columns[1].1.nullable);
    assert_eq!(columns[1].1.scalar_type, ScalarType::Decimal(38, 0));
}

#[test]
fn the_first_bad_field_is_reported() {
    let mut descriptors = Descriptors::new();
    let mut message = MessageDescriptor::new(".m");
    message.add_field(scalar_field("a", 1, InternalFieldType::Bool, None));
    message.add_field(scalar_field("b", 2, InternalFieldType::Group, None));
    message.add_field(FieldDescriptor::new(
        "c",
        3,
        FieldLabel::Required,
        InternalFieldType::Bool,
        None,
    ));
    descriptors.add_message(message);
    assert!(matches!(schema_error(&descriptors, ".m"), SchemaError::Group));
}

#[test]
fn descriptors_are_loaded_from_bytes() {
    let bytes = descriptor_set()
        .write_to_bytes()
        .expect("test failed to serialize to bytes");
    let descriptors = read_descriptors_from_bytes(&bytes).unwrap();
    assert!(descriptors.message_by_name(".TestRecord").is_some());
    assert!(descriptors.message_by_name(".TestNestedRecord").is_some());
    let relation = validate_proto_schema_with_descriptors(".TestRecord", &descriptors).unwrap();
    sanity_check_relation(
        &relation,
        descriptors.message_by_name(".TestRecord").unwrap(),
        &descriptors,
    )
    .unwrap();
    let mut decoder = Decoder::new(descriptors, ".TestRecord");
    let row = decode(&mut decoder, &[8, 150, 1]);
    assert_eq!(row.unpack()[0], Datum::Int32(150));

    assert_eq!(
        read_descriptors_from_bytes(&[255]).unwrap_err(),
        LoadError::Malformed
    );
}

#[test]
fn declared_defaults_are_loaded_with_their_types() {
    let optional = FieldDescriptorProto_Label::LABEL_OPTIONAL;
    let mut with_default = field("a", 1, optional, FieldDescriptorProto_Type::TYPE_INT64, "");
    with_default.set_default_value("-12".to_string());
    let mut bad_default = field("b", 2, optional, FieldDescriptorProto_Type::TYPE_INT64, "");
    bad_default.set_default_value("twelve".to_string());
    let mut of_enum = field("c", 3, optional, FieldDescriptorProto_Type::TYPE_ENUM, ".p.E");
    of_enum.set_default_value("X".to_string());
    let mut file = FileDescriptorProto::new();
    file.set_package("p".to_string());
    file.mut_message_type()
        .push(message("M", vec![with_default, bad_default, of_enum]));
    file.mut_enum_type().push(enumeration("E", &[("X", 0)]));
    let mut set = FileDescriptorSet::new();
    set.mut_file().push(file);
    let descriptors = read_descriptors_from_bytes(&set.write_to_bytes().unwrap()).unwrap();
    let relation = validate_proto_schema_with_descriptors(".p.M", &descriptors).unwrap();
    let nullable: Vec<bool> = relation.iter().iter().map(|column| column.1.nullable).collect();
    assert_eq!(nullable, vec![false, true, true]);
    let row = decode(&mut Decoder::new(descriptors, ".p.M"), &[]);
    assert_eq!(
        *row.unpack(),
        vec![Datum::Int64(-12), Datum::Null, Datum::Null]
    );
}

#[test]
fn groups_with_a_default_are_not_loaded() {
    let optional = FieldDescriptorProto_Label::LABEL_OPTIONAL;
    let group = field("g", 1, optional, FieldDescriptorProto_Type::TYPE_GROUP, ".G");
    let mut with_default = group.clone();
    with_default.set_default_value("x".to_string());

    let load = |nested: FieldDescriptorProto| {
        let mut outer = message("Outer", vec![]);
        outer.mut_nested_type().push(message("Inner", vec![nested]));
        let mut file = FileDescriptorProto::new();
        file.mut_message_type().push(outer);
        let mut set = FileDescriptorSet::new();
        set.mut_file().push(file);
        read_descriptors_from_bytes(&set.write_to_bytes().unwrap())
    };

    assert!(load(group).unwrap().message_by_name(".Outer.Inner").is_some());
    assert_eq!(load(with_default).unwrap_err(), LoadError::GroupDefault);
}
