//! Values become datums.
use protobuf_interchange::convert::datum_from_serde_proto;
use protobuf_interchange::convert::extract_row;
use protobuf_interchange::convert::json_from_serde_value;
use protobuf_interchange::convert::json_nested_from_serde_value;
use protobuf_interchange::convert::pack_column;
use protobuf_interchange::describe::describe;
use protobuf_interchange::dynamic::find_value;
use protobuf_interchange::float::double_from_signed;
use protobuf_interchange::float::double_from_single;
use protobuf_interchange::float::double_from_unsigned;
use protobuf_interchange::serde_bridge::read_value;
use protobuf_interchange::Datum;
use protobuf_interchange::DecodeError;
use protobuf_interchange::Dynamic;
use protobuf_interchange::RowPacker;
use protobuf_interchange::Significand;
use serde_protobuf::descriptor::FieldDescriptor;
use serde_protobuf::descriptor::FieldLabel;
use serde_protobuf::descriptor::InternalFieldType;
use serde_protobuf::descriptor::MessageDescriptor;
use serde_protobuf::value::Message as ProtoMessage;
use serde_protobuf::value::Value as ProtoValue;
use serde_value::Value as SerdeValue;
use std::collections::BTreeMap;

fn only(packer: RowPacker) -> Datum {
    let row = packer.finish();
    assert_eq!(row.unpack().len(), 1);
    match &row.unpack()[0] {
        Datum::String(text) => Datum::String(text.clone()),
        Datum::Bytes(bytes) => Datum::Bytes(bytes.clone()),
        Datum::Null => Datum::Null,
        Datum::True => Datum::True,
        Datum::False => Datum::False,
        Datum::Int32(n) => Datum::Int32(*n),
        Datum::Int64(n) => Datum::Int64(*n),
        Datum::Float32(bits) => Datum::Float32(*bits),
        Datum::Float64(bits) => Datum::Float64(*bits),
        Datum::Decimal(significand) => Datum::Decimal(*significand),
        other => panic!("not a plain datum: {:?}", other),
    }
}

fn top(value: &Dynamic) -> Datum {
    only(json_from_serde_value(value, RowPacker::new()).unwrap())
}

fn nested(value: &Dynamic) -> Datum {
    only(json_nested_from_serde_value(value, RowPacker::new()).unwrap())
}

#[test]
fn top_level_values_become_equivalent_datums() {
    assert_eq!(top(&Dynamic::Bool(true)), Datum::True);
    assert_eq!(top(&Dynamic::Bool(false)), Datum::False);
    assert_eq!(top(&Dynamic::I8(-8)), Datum::Int32(-8));
    assert_eq!(top(&Dynamic::I16(-16)), Datum::Int32(-16));
    assert_eq!(top(&Dynamic::I32(-32)), Datum::Int32(-32));
    assert_eq!(top(&Dynamic::I64(-64)), Datum::Int64(-64));
    assert_eq!(top(&Dynamic::U8(200)), Datum::Int32(200));
    assert_eq!(top(&Dynamic::U16(60000)), Datum::Int32(60000));
    assert_eq!(
        top(&Dynamic::U32(u32::MAX)),
        Datum::Decimal(Significand::new(4294967295))
    );
    assert_eq!(
        top(&Dynamic::U64(u64::MAX)),
        Datum::Decimal(Significand::new(18446744073709551615))
    );
    assert_eq!(Significand::new(-5).as_i128(), -5);
    assert_eq!(top(&Dynamic::F32(7)), Datum::Float32(7));
    assert_eq!(top(&Dynamic::F64(9)), Datum::Float64(9));
    assert_eq!(
        top(&Dynamic::String("s".to_string())),
        Datum::String("s".to_string())
    );
    assert_eq!(top(&Dynamic::Bytes(vec![0, 255])), Datum::Bytes(vec![0, 255]));
}

#[test]
fn nested_numbers_become_doubles() {
    assert_eq!(nested(&Dynamic::Bool(true)), Datum::True);
    assert_eq!(nested(&Dynamic::Bool(false)), Datum::False);
    assert_eq!(nested(&Dynamic::I8(-128)), Datum::Float64((-128.0f64).to_bits()));
    assert_eq!(nested(&Dynamic::I16(-300)), Datum::Float64((-300.0f64).to_bits()));
    assert_eq!(nested(&Dynamic::U8(255)), Datum::Float64(255.0f64.to_bits()));
    assert_eq!(nested(&Dynamic::U16(60000)), Datum::Float64(60000.0f64.to_bits()));
    assert_eq!(
        nested(&Dynamic::I32(i32::MIN)),
        Datum::Float64((-2147483648.0f64).to_bits())
    );
    assert_eq!(
        nested(&Dynamic::I64(i64::MIN)),
        Datum::Float64((-9223372036854775808.0f64).to_bits())
    );
    assert_eq!(nested(&Dynamic::U32(3)), Datum::Float64(3.0f64.to_bits()));
    assert_eq!(
        nested(&Dynamic::U64(9007199254740993)),
        Datum::Float64(9007199254740992.0f64.to_bits())
    );
    assert_eq!(
        nested(&Dynamic::F32(0.1f32.to_bits())),
        Datum::Float64(0.10000000149011612f64.to_bits())
    );
    assert_eq!(
        nested(&Dynamic::F64(0.1f64.to_bits())),
        Datum::Float64(0.1f64.to_bits())
    );
    assert_eq!(
        nested(&Dynamic::String("s".to_string())),
        Datum::String("s".to_string())
    );
}

#[test]
fn small_numbers_in_an_array_become_doubles() {
    let array = |items: Vec<Dynamic>| {
        json_from_serde_value(&Dynamic::Sequence(items), RowPacker::new())
            .unwrap()
            .finish()
    };
    assert_eq!(
        *array(vec![Dynamic::I8(1)]).unpack(),
        vec![Datum::List(vec![Datum::Float64(1.0f64.to_bits())])]
    );
    assert_eq!(
        *array(vec![Dynamic::I8(1), Dynamic::U16(2)]).unpack(),
        vec![Datum::List(vec![
            Datum::Float64(1.0f64.to_bits()),
            Datum::Float64(2.0f64.to_bits()),
        ])]
    );
}

#[test]
fn documents_are_appended_to_what_was_packed_before() {
    let mut packer = RowPacker::new();
    packer.push(Datum::Int32(1));
    let value = Dynamic::Sequence(vec![
        Dynamic::Mapping(vec![
            (Dynamic::String("a".to_string()), Dynamic::Option(None)),
            (
                Dynamic::String("b".to_string()),
                Dynamic::Option(Some(Box::new(Dynamic::U32(2)))),
            ),
            (
                Dynamic::String("c".to_string()),
                Dynamic::Sequence(vec![Dynamic::Bool(true)]),
            ),
        ]),
        Dynamic::Mapping(vec![]),
        Dynamic::Sequence(vec![]),
    ]);
    let row = json_from_serde_value(&value, packer).unwrap().finish();
    assert_eq!(
        *row.unpack(),
        vec![
            Datum::Int32(1),
            Datum::List(vec![
                Datum::Dict(vec![
                    ("b".to_string(), Datum::Float64(2.0f64.to_bits())),
                    ("c".to_string(), Datum::List(vec![Datum::True])),
                ]),
                Datum::Dict(vec![]),
                Datum::List(vec![]),
            ]),
        ]
    );
}

fn error(value: &Dynamic) -> DecodeError {
    json_from_serde_value(value, RowPacker::new()).unwrap_err()
}

#[test]
fn values_without_a_datum_are_refused() {
    let mut map = BTreeMap::new();
    map.insert(SerdeValue::String("b\"".to_string()), SerdeValue::F32(1.5));
    map.insert(SerdeValue::I32(-1), SerdeValue::Bytes(vec![0, 255]));
    map.insert(SerdeValue::Unit, SerdeValue::Map(BTreeMap::new()));
    for value in vec![
        SerdeValue::Char('c'),
        SerdeValue::Char('\n'),
        SerdeValue::Unit,
        SerdeValue::Option(None),
        SerdeValue::Option(Some(Box::new(SerdeValue::Seq(vec![SerdeValue::I8(1)])))),
        SerdeValue::Option(Some(Box::new(SerdeValue::Seq(vec![])))),
        SerdeValue::Newtype(Box::new(SerdeValue::Map(map))),
        SerdeValue::Newtype(Box::new(SerdeValue::Seq(vec![
            SerdeValue::Bool(true),
            SerdeValue::Bool(false),
            SerdeValue::U8(1),
            SerdeValue::U16(2),
            SerdeValue::U32(3),
            SerdeValue::U64(u64::MAX),
            SerdeValue::I16(-2),
            SerdeValue::I64(i64::MIN),
            SerdeValue::F32(-0.0),
            SerdeValue::F32(f32::NAN),
            SerdeValue::F64(99.99),
            SerdeValue::F64(f64::NEG_INFINITY),
            SerdeValue::Option(Some(Box::new(SerdeValue::String("s\u{e9}".to_string())))),
        ]))),
    ] {
        let error = error(&read_value(&value));
        assert_eq!(
            error.message(),
            format!(
                "Unsupported type for Datum from serde_value::Value: {:?}",
                value
            )
        );
        match error {
            DecodeError::UnsupportedValue(found) => {
                assert_eq!(describe(&found), format!("{:?}", value))
            }
            other => panic!("unexpected error {:?}", other),
        }
    }
    assert_eq!(
        error(&Dynamic::Unit).message(),
        "Unsupported type for Datum from serde_value::Value: Unit"
    );
    assert_eq!(
        error(&Dynamic::Option(Some(Box::new(Dynamic::I32(5))))).message(),
        "Unsupported type for Datum from serde_value::Value: Option(Some(I32(5)))"
    );

    let bytes = Dynamic::Sequence(vec![Dynamic::Bool(true), Dynamic::Bytes(vec![1])]);
    assert!(matches!(error(&bytes), DecodeError::NestedBytes));

    let unit = error(&Dynamic::Sequence(vec![Dynamic::Unit]));
    assert!(matches!(unit, DecodeError::UnsupportedNestedValue));
    assert_eq!(unit.message(), "Unsupported types from serde_value");

    let plain = error(&Dynamic::Mapping(vec![(
        Dynamic::String("k".to_string()),
        Dynamic::I32(1),
    )]));
    assert!(matches!(plain, DecodeError::UnrecognizedEntry));
    assert_eq!(
        plain.message(),
        "Unrecognized value while trying to parse a nested message"
    );
    let unnamed = Dynamic::Mapping(vec![(Dynamic::I32(1), Dynamic::Option(None))]);
    assert!(matches!(error(&unnamed), DecodeError::UnrecognizedEntry));

    // The first error counts.
    let several = Dynamic::Sequence(vec![
        Dynamic::Sequence(vec![Dynamic::Unit]),
        Dynamic::Bytes(vec![]),
    ]);
    assert!(matches!(error(&several), DecodeError::UnsupportedNestedValue));
}

#[test]
fn default_values_become_datums() {
    let datum = |value: ProtoValue| datum_from_serde_proto(&value).unwrap();
    assert_eq!(datum(ProtoValue::Bool(true)), Datum::True);
    assert_eq!(datum(ProtoValue::Bool(false)), Datum::False);
    assert_eq!(datum(ProtoValue::I32(-1)), Datum::Int32(-1));
    assert_eq!(datum(ProtoValue::I64(-2)), Datum::Int64(-2));
    assert_eq!(datum(ProtoValue::U32(3)), Datum::Decimal(Significand::new(3)));
    assert_eq!(datum(ProtoValue::U64(4)), Datum::Decimal(Significand::new(4)));
    assert_eq!(datum(ProtoValue::F32(0.5)), Datum::Float32(0x3f00_0000));
    assert_eq!(datum(ProtoValue::F64(-0.0)), Datum::Float64(0x8000_0000_0000_0000));
    assert_eq!(
        datum(ProtoValue::String("d".to_string())),
        Datum::String("d".to_string())
    );
    assert_eq!(datum(ProtoValue::Bytes(vec![7])), Datum::Bytes(vec![7]));

    let refused = datum_from_serde_proto(&ProtoValue::Enum(0)).unwrap_err();
    assert!(matches!(refused, DecodeError::DefaultValue));
    assert_eq!(
        refused.message(),
        "Unsupported type for Datum from serde_protobuf::Value"
    );
    let message = ProtoMessage::new(&MessageDescriptor::new(".m"));
    assert!(matches!(
        datum_from_serde_proto(&ProtoValue::Message(message)),
        Err(DecodeError::DefaultValue)
    ));
}

#[test]
fn columns_show_values_defaults_or_null() {
    let packed = |value: Option<&Dynamic>, default: Option<&ProtoValue>| {
        only(pack_column(value, default, RowPacker::new()).unwrap())
    };
    let present = Dynamic::Option(Some(Box::new(Dynamic::I64(5))));
    let default = ProtoValue::I64(6);
    assert_eq!(packed(Some(&present), Some(&default)), Datum::Int64(5));
    assert_eq!(
        packed(Some(&Dynamic::Option(None)), Some(&default)),
        Datum::Int64(6)
    );
    assert_eq!(packed(None, Some(&default)), Datum::Int64(6));
    assert_eq!(packed(Some(&Dynamic::Unit), None), Datum::Null);
    assert_eq!(packed(None, None), Datum::Null);
    let list = pack_column(Some(&Dynamic::Sequence(vec![])), Some(&default), RowPacker::new());
    assert_eq!(*list.unwrap().finish().unpack(), vec![Datum::List(vec![])]);
}

fn two_fields() -> MessageDescriptor {
    let mut message = MessageDescriptor::new(".m");
    for (number, name) in vec![(1, "x"), (2, "y")] {
        message.add_field(FieldDescriptor::new(
            name,
            number,
            FieldLabel::Optional,
            InternalFieldType::Int32,
            None,
        ));
    }
    message
}

fn some(value: Dynamic) -> Dynamic {
    Dynamic::Option(Some(Box::new(value)))
}

#[test]
fn rows_follow_the_fields() {
    let value = Dynamic::Mapping(vec![
        (Dynamic::String("w".to_string()), some(Dynamic::I32(1))),
        (Dynamic::String("y".to_string()), some(Dynamic::I32(2))),
    ]);
    let row = extract_row(value, &two_fields()).unwrap().unwrap();
    assert_eq!(*row.unpack(), vec![Datum::Null, Datum::Int32(2)]);

    let refused = extract_row(Dynamic::Sequence(vec![]), &two_fields()).unwrap_err();
    assert!(matches!(refused, DecodeError::TopLevel));
    assert_eq!(
        refused.message(),
        "Deserialization failed with an unsupported top level object type"
    );

    let value = Dynamic::Mapping(vec![
        (Dynamic::String("x".to_string()), some(Dynamic::Unit)),
        (
            Dynamic::String("y".to_string()),
            Dynamic::Sequence(vec![Dynamic::Bytes(vec![])]),
        ),
    ]);
    assert!(matches!(
        extract_row(value, &two_fields()),
        Err(DecodeError::UnsupportedValue(Dynamic::Unit))
    ));
}

#[test]
fn values_are_found_by_their_keys() {
    let entries = vec![
        (Dynamic::I32(1), Dynamic::Bool(true)),
        (Dynamic::String("k".to_string()), Dynamic::I8(1)),
        (Dynamic::String("k".to_string()), Dynamic::I8(2)),
    ];
    assert!(matches!(find_value(&entries, "k"), Some(Dynamic::I8(1))));
    assert!(find_value(&entries, "l").is_none());
}

#[test]
fn self_describing_values_are_read_whole() {
    let mut map = BTreeMap::new();
    map.insert(SerdeValue::String("b".to_string()), SerdeValue::F32(1.5));
    map.insert(SerdeValue::String("a".to_string()), SerdeValue::F64(-2.5));
    let value = SerdeValue::Seq(vec![
        SerdeValue::Map(map),
        SerdeValue::Option(Some(Box::new(SerdeValue::Char('c')))),
        SerdeValue::Newtype(Box::new(SerdeValue::Unit)),
        SerdeValue::Option(None),
        SerdeValue::Bytes(vec![1, 2, 3]),
        SerdeValue::U8(1),
        SerdeValue::U16(2),
        SerdeValue::U32(3),
        SerdeValue::U64(4),
        SerdeValue::I8(-1),
        SerdeValue::I16(-2),
        SerdeValue::I32(-3),
        SerdeValue::I64(-4),
        SerdeValue::Bool(true),
    ]);
    let expected = Dynamic::Sequence(vec![
        Dynamic::Mapping(vec![
            (Dynamic::String("a".to_string()), Dynamic::F64((-2.5f64).to_bits())),
            (Dynamic::String("b".to_string()), Dynamic::F32(1.5f32.to_bits())),
        ]),
        Dynamic::Option(Some(Box::new(Dynamic::Char('c')))),
        Dynamic::Newtype(Box::new(Dynamic::Unit)),
        Dynamic::Option(None),
        Dynamic::Bytes(vec![1, 2, 3]),
        Dynamic::U8(1),
        Dynamic::U16(2),
        Dynamic::U32(3),
        Dynamic::U64(4),
        Dynamic::I8(-1),
        Dynamic::I16(-2),
        Dynamic::I32(-3),
        Dynamic::I64(-4),
        Dynamic::Bool(true),
    ]);
    let read = read_value(&value);
    assert_eq!(format!("{:?}", read), format!("{:?}", expected));
    assert_eq!(format!("{:?}", read.clone()), format!("{:?}", expected));
}

#[test]
fn lists_and_dicts_close_over_what_was_pushed() {
    let mut packer = RowPacker::new();
    packer.push(Datum::Null);
    let dict = packer.start_dict();
    packer.push(Datum::String("k".to_string()));
    let list = packer.start_list();
    packer.push(Datum::True);
    packer.push(Datum::Int64(1));
    packer.finish_list(list);
    packer.push(Datum::String("l".to_string()));
    packer.push(Datum::Null);
    packer.finish_dict(dict);
    assert_eq!(
        *packer.finish().unpack(),
        vec![
            Datum::Null,
            Datum::Dict(vec![
                ("k".to_string(), Datum::List(vec![Datum::True, Datum::Int64(1)])),
                ("l".to_string(), Datum::Null),
            ]),
        ]
    );
}

#[test]
fn whole_numbers_round_to_the_nearest_double() {
    let unsigned = vec![
        0,
        1,
        2,
        3,
        (1 << 53) - 1,
        1 << 53,
        (1 << 53) + 1,
        (1 << 53) + 2,
        (1 << 53) + 3,
        (1 << 54) + 2,
        (1 << 54) + 6,
        0x7fff_ffff_ffff_fdff,
        0x7fff_ffff_ffff_fe00,
        1 << 63,
        0xffff_ffff_ffff_fbff,
        0xffff_ffff_ffff_fc00,
        u64::MAX,
    ];
    for n in unsigned {
        assert_eq!(double_from_unsigned(n), (n as f64).to_bits(), "{}", n);
    }
    assert_eq!(double_from_unsigned(9007199254740993), 0x4340_0000_0000_0000);
    for n in vec![0, 1, -1, i64::MAX, i64::MIN, -9007199254740993, 9007199254740995] {
        assert_eq!(double_from_signed(n), (n as f64).to_bits(), "{}", n);
    }
    assert_eq!(double_from_signed(-2), 0xc000_0000_0000_0000);
}

#[test]
fn singles_are_widened_without_loss() {
    for f in vec![
        0.0f32,
        -0.0,
        1.0,
        -1.5,
        0.1,
        f32::MIN_POSITIVE,
        f32::MIN_POSITIVE / 2.0,
        f32::from_bits(1),
        -f32::from_bits(3),
        f32::from_bits(0x7f_ffff),
        f32::MAX,
        f32::INFINITY,
        f32::NEG_INFINITY,
    ] {
        assert_eq!(double_from_single(f.to_bits()), (f as f64).to_bits(), "{}", f);
    }
    assert_eq!(double_from_single(0x3dcc_cccd), 0x3fb9_9999_a000_0000);
    assert!(f64::from_bits(double_from_single(f32::NAN.to_bits())).is_nan());
    assert!(f64::from_bits(double_from_single(0x7f80_0001)).is_nan());
}
