//! Self-describing values as text.
//!
//! The text is that of the `Debug` form of `serde_value::Value`. How the values nest is spelled out
//! here; the text of a number, of a character, of a string and of bytes comes from `serde_value`.
use crate::dynamic::lemma_entry_is_smaller;
use crate::dynamic::lemma_item_is_smaller;
use crate::dynamic::Dynamic;
use crate::dynamic::DynamicModel;
use crate::serde_bridge::serde_double;
use crate::serde_bridge::serde_model;
use crate::serde_bridge::serde_single;
use serde_value::Value as SerdeValue;
use vstd::prelude::*;
use vstd::string::StringExecFns;

verus! {

/// The text that `Debug` gives for a value of `serde_value`.
pub uninterp spec fn debug_text(value: DynamicModel) -> Seq<char>;

/// The text of a value.
pub open spec fn described(value: DynamicModel) -> Seq<char>
    decreases value,
{
    match value {
        DynamicModel::Unit => "Unit"@,
        DynamicModel::Option(None) => "Option(None)"@,
        DynamicModel::Option(Some(content)) => "Option(Some("@ + described(*content) + "))"@,
        DynamicModel::Newtype(content) => "Newtype("@ + described(*content) + ")"@,
        DynamicModel::Sequence(items) => "Seq(["@ + described_items(items) + "])"@,
        DynamicModel::Mapping(entries) => "Map({"@ + described_entries(entries) + "})"@,
        _ => debug_text(value),
    }
}

/// The texts of items, with commas between them.
pub open spec fn described_items(items: Seq<DynamicModel>) -> Seq<char>
    decreases items,
{
    if items.len() == 0 {
        Seq::empty()
    } else {
        listed(items.len() == 1, described_items(items.drop_last()), described(items.last()))
    }
}

/// The texts of entries, with commas between them and a colon in each.
pub open spec fn described_entries(entries: Seq<(DynamicModel, DynamicModel)>) -> Seq<char>
    decreases entries,
{
    if entries.len() == 0 {
        Seq::empty()
    } else {
        listed(
            entries.len() == 1,
            described_entries(entries.drop_last()),
            described(entries.last().0) + ": "@ + described(entries.last().1),
        )
    }
}

/// A list with one more text at its end, after a comma unless the text is the first.
pub open spec fn listed(is_first: bool, list: Seq<char>, text: Seq<char>) -> Seq<char> {
    if is_first {
        text
    } else {
        list + ", "@ + text
    }
}

/// `Debug` of `serde_value::Value`, through `format`: the text is a function of the value.
#[verifier::external_body]
fn debug_form(value: &SerdeValue) -> (text: String)
    ensures
        text@ == debug_text(serde_model(*value)),
{
    format!("{:?}", value)
}

/// Appends a text to a list.
fn add_to_list(is_first: bool, list: String, text: &str) -> (longer: String)
    ensures
        longer@ == listed(is_first, list@, text@),
{
    if is_first {
        text.to_owned()
    } else {
        list.concat(", ").concat(text)
    }
}

/// Describes a value.
pub fn describe(value: &Dynamic) -> (text: String)
    ensures
        text@ == described(value@),
    decreases value@,
{
    let ghost model = value@;
    match value {
        Dynamic::Bool(b) => debug_form(&SerdeValue::Bool(*b)),
        Dynamic::U8(n) => debug_form(&SerdeValue::U8(*n)),
        Dynamic::U16(n) => debug_form(&SerdeValue::U16(*n)),
        Dynamic::U32(n) => debug_form(&SerdeValue::U32(*n)),
        Dynamic::U64(n) => debug_form(&SerdeValue::U64(*n)),
        Dynamic::I8(n) => debug_form(&SerdeValue::I8(*n)),
        Dynamic::I16(n) => debug_form(&SerdeValue::I16(*n)),
        Dynamic::I32(n) => debug_form(&SerdeValue::I32(*n)),
        Dynamic::I64(n) => debug_form(&SerdeValue::I64(*n)),
        Dynamic::F32(bits) => debug_form(&serde_single(*bits)),
        Dynamic::F64(bits) => debug_form(&serde_double(*bits)),
        Dynamic::Char(c) => debug_form(&SerdeValue::Char(*c)),
        Dynamic::String(text) => debug_form(&SerdeValue::String(text.clone())),
        Dynamic::Bytes(bytes) => debug_form(&SerdeValue::Bytes(bytes.clone())),
        Dynamic::Unit => "Unit".to_owned(),
        Dynamic::Option(None) => "Option(None)".to_owned(),
        Dynamic::Option(Some(content)) => {
            assert(decreases_to!(model => model->Option_0->0));
            "Option(Some(".to_owned().concat(&describe(&**content)).concat("))")
        },
        Dynamic::Newtype(content) => {
            assert(decreases_to!(model => model->Newtype_0));
            "Newtype(".to_owned().concat(&describe(&**content)).concat(")")
        },
        Dynamic::Sequence(items) => {
            let ghost models = model->Sequence_0;
            let mut texts = String::new();
            for i in 0..items.len()
                invariant
                    model == value@,
                    model == DynamicModel::Sequence(models),
                    models.len() == items@.len(),
                    forall|j: int| 0 <= j < items@.len() ==> (#[trigger] items@[j])@ == models[j],
                    texts@ == described_items(models.take(i as int)),
            {
                proof {
                    lemma_item_is_smaller(model, i as int);
                    assert(models.take(i + 1).drop_last() =~= models.take(i as int));
                    assert(models.take(i + 1).last() == models[i as int]);
                }
                texts = add_to_list(i == 0, texts, &describe(&items[i]));
            }
            assert(models.take(models.len() as int) =~= models);
            "Seq([".to_owned().concat(&texts).concat("])")
        },
        Dynamic::Mapping(entries) => {
            let ghost models = model->Mapping_0;
            let mut texts = String::new();
            for i in 0..entries.len()
                invariant
                    model == value@,
                    model == DynamicModel::Mapping(models),
                    models.len() == entries@.len(),
                    forall|j: int|
                        0 <= j < entries@.len() ==> (
                        (#[trigger] entries@[j]).0@,
                        entries@[j].1@,
                        ) == models[j],
                    texts@ == described_entries(models.take(i as int)),
            {
                proof {
                    lemma_entry_is_smaller(model, i as int);
                    assert(models.take(i + 1).drop_last() =~= models.take(i as int));
                    assert(models.take(i + 1).last() == models[i as int]);
                    assert((entries@[i as int].0@, entries@[i as int].1@) == models[i as int]);
                }
                let key = describe(&entries[i].0);
                let entry = key.concat(": ").concat(&describe(&entries[i].1));
                texts = add_to_list(i == 0, texts, &entry);
            }
            assert(models.take(models.len() as int) =~= models);
            "Map({".to_owned().concat(&texts).concat("})")
        },
    }
}

} // verus!
