//! Reading of the self-describing values of `serde_value`.
use crate::dynamic::dynamic_model;
use crate::dynamic::lemma_entry_is_smaller;
use crate::dynamic::lemma_item_is_smaller;
use crate::dynamic::Dynamic;
use crate::dynamic::DynamicModel;
use serde_value::Value as SerdeValue;
use std::collections::BTreeMap;
use vstd::float::FloatBitsProperties;
use vstd::prelude::*;

verus! {

/// A self-describing value of `serde_value`.
#[verifier::external_type_specification]
pub struct ExSerdeValue(serde_value::Value);

/// The entries of a map of self-describing values, in the order in which the map is walked.
pub uninterp spec fn map_entries(map: BTreeMap<SerdeValue, SerdeValue>) -> Seq<
    (DynamicModel, DynamicModel),
>;

/// What a value of `serde_value` stands for.
pub open spec fn serde_model(value: SerdeValue) -> DynamicModel
    decreases value,
{
    match value {
        SerdeValue::Bool(b) => DynamicModel::Bool(b),
        SerdeValue::U8(n) => DynamicModel::U8(n),
        SerdeValue::U16(n) => DynamicModel::U16(n),
        SerdeValue::U32(n) => DynamicModel::U32(n),
        SerdeValue::U64(n) => DynamicModel::U64(n),
        SerdeValue::I8(n) => DynamicModel::I8(n),
        SerdeValue::I16(n) => DynamicModel::I16(n),
        SerdeValue::I32(n) => DynamicModel::I32(n),
        SerdeValue::I64(n) => DynamicModel::I64(n),
        SerdeValue::F32(f) => DynamicModel::F32(f.to_bits_spec()),
        SerdeValue::F64(f) => DynamicModel::F64(f.to_bits_spec()),
        SerdeValue::Char(c) => DynamicModel::Char(c),
        SerdeValue::String(s) => DynamicModel::String(s@),
        SerdeValue::Unit => DynamicModel::Unit,
        SerdeValue::Option(o) => match o {
            Some(v) => DynamicModel::Option(Some(Box::new(serde_model(*v)))),
            None => DynamicModel::Option(None),
        },
        SerdeValue::Newtype(v) => DynamicModel::Newtype(Box::new(serde_model(*v))),
        SerdeValue::Seq(s) => DynamicModel::Sequence(
            Seq::new(
                s@.len(),
                |i: int|
                    if 0 <= i < s@.len() {
                        serde_model(s@[i])
                    } else {
                        DynamicModel::Unit
                    },
            ),
        ),
        SerdeValue::Map(m) => DynamicModel::Mapping(map_entries(m)),
        SerdeValue::Bytes(b) => DynamicModel::Bytes(b@),
    }
}

/// `to_bits` of a single precision number gives its IEEE 754 encoding.
#[verifier::external_body]
fn single_bits(value: &SerdeValue) -> (bits: u32)
    requires
        value is F32,
    ensures
        serde_model(*value) == DynamicModel::F32(bits),
{
    match value {
        SerdeValue::F32(single) => single.to_bits(),
        _ => 0,
    }
}

/// `to_bits` of a double precision number gives its IEEE 754 encoding.
#[verifier::external_body]
fn double_bits(value: &SerdeValue) -> (bits: u64)
    requires
        value is F64,
    ensures
        serde_model(*value) == DynamicModel::F64(bits),
{
    match value {
        SerdeValue::F64(double) => double.to_bits(),
        _ => 0,
    }
}

/// `CodedInputStream::read_float` makes a single precision number of its IEEE 754 encoding, whose
/// least byte comes first.
#[verifier::external_body]
pub(crate) fn serde_single(bits: u32) -> (value: SerdeValue)
    ensures
        serde_model(value) == DynamicModel::F32(bits),
{
    let bytes = bits.to_le_bytes();
    let mut input = protobuf::CodedInputStream::from_bytes(&bytes);
    match input.read_float() {
        Ok(single) => SerdeValue::F32(single),
        Err(_) => SerdeValue::Unit,
    }
}

/// `CodedInputStream::read_double` makes a double precision number of its IEEE 754 encoding, whose
/// least byte comes first.
#[verifier::external_body]
pub(crate) fn serde_double(bits: u64) -> (value: SerdeValue)
    ensures
        serde_model(value) == DynamicModel::F64(bits),
{
    let bytes = bits.to_le_bytes();
    let mut input = protobuf::CodedInputStream::from_bytes(&bytes);
    match input.read_double() {
        Ok(double) => SerdeValue::F64(double),
        Err(_) => SerdeValue::Unit,
    }
}

/// `BTreeMap::iter` walks the entries of a map in the order of their keys.
#[verifier::external_body]
fn entries_of(map: &BTreeMap<SerdeValue, SerdeValue>) -> (entries: Vec<(&SerdeValue, &SerdeValue)>)
    ensures
        entries@.len() == map_entries(*map).len(),
        forall|i: int|
            0 <= i < entries@.len() ==> (
            serde_model(*(#[trigger] entries@[i]).0),
            serde_model(*entries@[i].1),
            ) == map_entries(*map)[i],
{
    map.iter().collect()
}

/// Reads a value of `serde_value` whole.
pub fn read_value(value: &SerdeValue) -> (read: Dynamic)
    ensures
        read@ == serde_model(*value),
    decreases serde_model(*value),
{
    match value {
        SerdeValue::Bool(b) => Dynamic::Bool(*b),
        SerdeValue::U8(n) => Dynamic::U8(*n),
        SerdeValue::U16(n) => Dynamic::U16(*n),
        SerdeValue::U32(n) => Dynamic::U32(*n),
        SerdeValue::U64(n) => Dynamic::U64(*n),
        SerdeValue::I8(n) => Dynamic::I8(*n),
        SerdeValue::I16(n) => Dynamic::I16(*n),
        SerdeValue::I32(n) => Dynamic::I32(*n),
        SerdeValue::I64(n) => Dynamic::I64(*n),
        SerdeValue::F32(_) => Dynamic::F32(single_bits(value)),
        SerdeValue::F64(_) => Dynamic::F64(double_bits(value)),
        SerdeValue::Char(c) => Dynamic::Char(*c),
        SerdeValue::String(s) => Dynamic::String(s.clone()),
        SerdeValue::Unit => Dynamic::Unit,
        SerdeValue::Option(o) => match o {
            Some(v) => {
                proof {
                    let model = serde_model(*value);
                    assert(decreases_to!(model => model->Option_0->0));
                }
                Dynamic::Option(Some(Box::new(read_value(&**v))))
            },
            None => Dynamic::Option(None),
        },
        SerdeValue::Newtype(v) => {
            proof {
                let model = serde_model(*value);
                assert(decreases_to!(model => model->Newtype_0));
            }
            Dynamic::Newtype(Box::new(read_value(&**v)))
        },
        SerdeValue::Seq(s) => {
            let mut items: Vec<Dynamic> = Vec::new();
            let ghost models = serde_model(*value)->Sequence_0;
            for i in 0..s.len()
                invariant
                    *value == SerdeValue::Seq(*s),
                    serde_model(*value) == DynamicModel::Sequence(models),
                    models.len() == s@.len(),
                    items@.len() == i,
                    forall|j: int| 0 <= j < i ==> dynamic_model(#[trigger] items@[j]) == models[j],
            {
                proof {
                    lemma_item_is_smaller(serde_model(*value), i as int);
                }
                items.push(read_value(&s[i]));
            }
            let read = Dynamic::Sequence(items);
            assert(read@->Sequence_0 =~= models);
            read
        },
        SerdeValue::Map(m) => {
            let entries = entries_of(m);
            let mut items: Vec<(Dynamic, Dynamic)> = Vec::new();
            let ghost models = map_entries(*m);
            for i in 0..entries.len()
                invariant
                    serde_model(*value) == DynamicModel::Mapping(models),
                    models.len() == entries@.len(),
                    forall|j: int|
                        0 <= j < entries@.len() ==> (
                        serde_model(*(#[trigger] entries@[j]).0),
                        serde_model(*entries@[j].1),
                        ) == models[j],
                    items@.len() == i,
                    forall|j: int|
                        0 <= j < i ==> (
                        dynamic_model((#[trigger] items@[j]).0),
                        dynamic_model(items@[j].1),
                        ) == models[j],
            {
                proof {
                    lemma_entry_is_smaller(serde_model(*value), i as int);
                }
                let key = read_value(entries[i].0);
                let item = read_value(entries[i].1);
                items.push((key, item));
            }
            let read = Dynamic::Mapping(items);
            assert(read@->Mapping_0 =~= models);
            read
        },
        SerdeValue::Bytes(b) => Dynamic::Bytes(b.clone()),
    }
}

} // verus!
