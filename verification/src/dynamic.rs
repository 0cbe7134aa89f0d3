//! Self-describing values: what a message turns into once its bytes are read.
use vstd::prelude::*;

verus! {

/// A self-describing value, as it comes out of the decoding of one message.
///
/// Floating point numbers are held as the bits of their IEEE 754 encoding. The entries of a map
/// stand in the order in which the map is walked.
#[derive(Debug)]
pub enum Dynamic {
    Bool(bool),
    U8(u8),
    U16(u16),
    U32(u32),
    U64(u64),
    I8(i8),
    I16(i16),
    I32(i32),
    I64(i64),
    F32(u32),
    F64(u64),
    Char(char),
    String(String),
    Unit,
    Option(Option<Box<Dynamic>>),
    Newtype(Box<Dynamic>),
    Sequence(Vec<Dynamic>),
    Mapping(Vec<(Dynamic, Dynamic)>),
    Bytes(Vec<u8>),
}

/// The mathematical counterpart of a [`Dynamic`].
pub enum DynamicModel {
    Bool(bool),
    U8(u8),
    U16(u16),
    U32(u32),
    U64(u64),
    I8(i8),
    I16(i16),
    I32(i32),
    I64(i64),
    F32(u32),
    F64(u64),
    Char(char),
    String(Seq<char>),
    Unit,
    Option(Option<Box<DynamicModel>>),
    Newtype(Box<DynamicModel>),
    Sequence(Seq<DynamicModel>),
    Mapping(Seq<(DynamicModel, DynamicModel)>),
    Bytes(Seq<u8>),
}

impl View for Dynamic {
    type V = DynamicModel;

    open spec fn view(&self) -> DynamicModel {
        dynamic_model(*self)
    }
}

/// What a value stands for.
pub open spec fn dynamic_model(value: Dynamic) -> DynamicModel
    decreases value,
{
    match value {
        Dynamic::Bool(b) => DynamicModel::Bool(b),
        Dynamic::U8(n) => DynamicModel::U8(n),
        Dynamic::U16(n) => DynamicModel::U16(n),
        Dynamic::U32(n) => DynamicModel::U32(n),
        Dynamic::U64(n) => DynamicModel::U64(n),
        Dynamic::I8(n) => DynamicModel::I8(n),
        Dynamic::I16(n) => DynamicModel::I16(n),
        Dynamic::I32(n) => DynamicModel::I32(n),
        Dynamic::I64(n) => DynamicModel::I64(n),
        Dynamic::F32(n) => DynamicModel::F32(n),
        Dynamic::F64(n) => DynamicModel::F64(n),
        Dynamic::Char(c) => DynamicModel::Char(c),
        Dynamic::String(s) => DynamicModel::String(s@),
        Dynamic::Unit => DynamicModel::Unit,
        Dynamic::Option(o) => match o {
            Some(v) => DynamicModel::Option(Some(Box::new(dynamic_model(*v)))),
            None => DynamicModel::Option(None),
        },
        Dynamic::Newtype(v) => DynamicModel::Newtype(Box::new(dynamic_model(*v))),
        Dynamic::Sequence(s) => DynamicModel::Sequence(
            Seq::new(
                s@.len(),
                |i: int|
                    if 0 <= i < s@.len() {
                        dynamic_model(s@[i])
                    } else {
                        DynamicModel::Unit
                    },
            ),
        ),
        Dynamic::Mapping(m) => DynamicModel::Mapping(
            Seq::new(
                m@.len(),
                |i: int|
                    if 0 <= i < m@.len() {
                        (dynamic_model(m@[i].0), dynamic_model(m@[i].1))
                    } else {
                        (DynamicModel::Unit, DynamicModel::Unit)
                    },
            ),
        ),
        Dynamic::Bytes(b) => DynamicModel::Bytes(b@),
    }
}

/// The items of a sequence are smaller than the sequence.
pub proof fn lemma_item_is_smaller(model: DynamicModel, i: int)
    requires
        model is Sequence,
        0 <= i < model->Sequence_0.len(),
    ensures
        decreases_to!(model => model->Sequence_0[i]),
{
    assert(decreases_to!(model => model->Sequence_0));
    assert(decreases_to!(model->Sequence_0 => model->Sequence_0[i]));
}

/// The keys and the values of a map are smaller than the map.
pub proof fn lemma_entry_is_smaller(model: DynamicModel, i: int)
    requires
        model is Mapping,
        0 <= i < model->Mapping_0.len(),
    ensures
        decreases_to!(model => model->Mapping_0[i].0),
        decreases_to!(model => model->Mapping_0[i].1),
{
    assert(decreases_to!(model => model->Mapping_0));
    assert(decreases_to!(model->Mapping_0 => model->Mapping_0[i]));
    assert(decreases_to!(model->Mapping_0[i] => model->Mapping_0[i].0));
    assert(decreases_to!(model->Mapping_0[i] => model->Mapping_0[i].1));
}

impl Clone for Dynamic {
    fn clone(&self) -> (copy: Dynamic)
        ensures
            copy@ == self@,
        decreases self@,
    {
        let ghost model = self@;
        match self {
            Dynamic::Bool(b) => Dynamic::Bool(*b),
            Dynamic::U8(n) => Dynamic::U8(*n),
            Dynamic::U16(n) => Dynamic::U16(*n),
            Dynamic::U32(n) => Dynamic::U32(*n),
            Dynamic::U64(n) => Dynamic::U64(*n),
            Dynamic::I8(n) => Dynamic::I8(*n),
            Dynamic::I16(n) => Dynamic::I16(*n),
            Dynamic::I32(n) => Dynamic::I32(*n),
            Dynamic::I64(n) => Dynamic::I64(*n),
            Dynamic::F32(bits) => Dynamic::F32(*bits),
            Dynamic::F64(bits) => Dynamic::F64(*bits),
            Dynamic::Char(c) => Dynamic::Char(*c),
            Dynamic::String(text) => Dynamic::String(text.clone()),
            Dynamic::Unit => Dynamic::Unit,
            Dynamic::Option(None) => Dynamic::Option(None),
            Dynamic::Option(Some(content)) => {
                assert(decreases_to!(model => model->Option_0->0));
                Dynamic::Option(Some(Box::new((&**content).clone())))
            },
            Dynamic::Newtype(content) => {
                assert(decreases_to!(model => model->Newtype_0));
                Dynamic::Newtype(Box::new((&**content).clone()))
            },
            Dynamic::Sequence(items) => {
                let mut copies: Vec<Dynamic> = Vec::new();
                for i in 0..items.len()
                    invariant
                        *self == Dynamic::Sequence(*items),
                        copies@.len() == i,
                        forall|j: int|
                            0 <= j < i ==> dynamic_model(#[trigger] copies@[j]) == dynamic_model(
                                items@[j],
                            ),
                {
                    proof {
                        lemma_item_is_smaller(self@, i as int);
                    }
                    copies.push((&items[i]).clone());
                }
                let copy = Dynamic::Sequence(copies);
                assert(copy@->Sequence_0 =~= self@->Sequence_0);
                copy
            },
            Dynamic::Mapping(entries) => {
                let mut copies: Vec<(Dynamic, Dynamic)> = Vec::new();
                for i in 0..entries.len()
                    invariant
                        *self == Dynamic::Mapping(*entries),
                        copies@.len() == i,
                        forall|j: int|
                            0 <= j < i ==> dynamic_model((#[trigger] copies@[j]).0)
                                == dynamic_model(entries@[j].0) && dynamic_model(copies@[j].1)
                                == dynamic_model(entries@[j].1),
                {
                    proof {
                        lemma_entry_is_smaller(self@, i as int);
                    }
                    let key = (&entries[i].0).clone();
                    let value = (&entries[i].1).clone();
                    copies.push((key, value));
                }
                let copy = Dynamic::Mapping(copies);
                assert(copy@->Mapping_0 =~= self@->Mapping_0);
                copy
            },
            Dynamic::Bytes(bytes) => Dynamic::Bytes(bytes.clone()),
        }
    }
}

/// Whether a text comes before another one in the order of their characters.
pub open spec fn precedes(a: Seq<char>, b: Seq<char>) -> bool
    decreases a.len(),
{
    &&& b.len() > 0
    &&& a.len() > 0 ==> a[0] < b[0] || (a[0] == b[0] && precedes(a.skip(1), b.skip(1)))
}

/// Whether the keys of a map are texts in ascending order, none of them twice.
pub open spec fn ascending(entries: Seq<(DynamicModel, DynamicModel)>) -> bool {
    &&& forall|i: int| 0 <= i < entries.len() ==> (#[trigger] entries[i]).0 is String
    &&& forall|i: int, j: int|
        0 <= i < j < entries.len() ==> precedes(
            (#[trigger] entries[i]).0->String_0,
            (#[trigger] entries[j]).0->String_0,
        )
}

/// The value under a text in a map: that of the first entry whose key is the text.
pub open spec fn value_under(entries: Seq<(DynamicModel, DynamicModel)>, key: Seq<char>) -> Option<
    DynamicModel,
>
    decreases entries.len(),
{
    if entries.len() == 0 {
        None
    } else if entries[0].0 == DynamicModel::String(key) {
        Some(entries[0].1)
    } else {
        value_under(entries.skip(1), key)
    }
}

/// Finds the value under a text in a map.
pub fn find_value<'a>(entries: &'a Vec<(Dynamic, Dynamic)>, key: &str) -> (found: Option<
    &'a Dynamic,
>)
    ensures
        found is Some <==> value_under(dynamic_model(Dynamic::Mapping(*entries))->Mapping_0, key@)
            is Some,
        found matches Some(value) ==> Some(value@) == value_under(
            dynamic_model(Dynamic::Mapping(*entries))->Mapping_0,
            key@,
        ),
{
    let ghost models = dynamic_model(Dynamic::Mapping(*entries))->Mapping_0;
    let wanted = key.to_owned();
    assert(models.skip(0) =~= models);
    for i in 0..entries.len()
        invariant
            wanted@ == key@,
            models == dynamic_model(Dynamic::Mapping(*entries))->Mapping_0,
            models.len() == entries@.len(),
            forall|j: int|
                0 <= j < entries@.len() ==> ((#[trigger] entries@[j]).0@, entries@[j].1@)
                    == models[j],
            value_under(models.skip(i as int), key@) == value_under(models, key@),
    {
        assert(models.skip(i as int)[0] == models[i as int]);
        assert(models.skip(i as int).skip(1) =~= models.skip(i + 1));
        assert((entries@[i as int].0@, entries@[i as int].1@) == models[i as int]);
        if let Dynamic::String(text) = &entries[i].0 {
            if *text == wanted {
                return Some(&entries[i].1);
            }
        }
    }
    None
}

} // verus!
