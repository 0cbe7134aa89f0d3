//! Datums, rows and the packer that builds a row datum by datum.
use vstd::prelude::*;

verus! {

/// The digits of a decimal number, without its scale.
#[derive(Clone, Copy, Debug, PartialEq, Eq, Structural)]
pub struct Significand {
    digits: i128,
}

impl Significand {
    pub closed spec fn view(self) -> i128 {
        self.digits
    }

    /// A significand with the given digits.
    pub fn new(digits: i128) -> (significand: Significand)
        ensures
            significand@ == digits,
    {
        Significand { digits }
    }

    /// The digits.
    pub fn as_i128(&self) -> (digits: i128)
        ensures
            digits == self@,
    {
        self.digits
    }
}

/// One value of a row.
///
/// Floating point numbers are held as the bits of their IEEE 754 encoding. The entries of a
/// `Dict` stand in the order in which they were packed.
#[derive(Debug, PartialEq, Eq)]
pub enum Datum {
    Null,
    True,
    False,
    Int32(i32),
    Int64(i64),
    Float32(u32),
    Float64(u64),
    Decimal(Significand),
    Bytes(Vec<u8>),
    String(String),
    List(Vec<Datum>),
    Dict(Vec<(String, Datum)>),
}

/// The mathematical counterpart of a [`Datum`].
pub enum DatumModel {
    Null,
    True,
    False,
    Int32(i32),
    Int64(i64),
    Float32(u32),
    Float64(u64),
    Decimal(i128),
    Bytes(Seq<u8>),
    String(Seq<char>),
    List(Seq<DatumModel>),
    Dict(Seq<(Seq<char>, DatumModel)>),
}

/// What a datum stands for.
pub open spec fn datum_model(datum: Datum) -> DatumModel
    decreases datum,
{
    match datum {
        Datum::Null => DatumModel::Null,
        Datum::True => DatumModel::True,
        Datum::False => DatumModel::False,
        Datum::Int32(n) => DatumModel::Int32(n),
        Datum::Int64(n) => DatumModel::Int64(n),
        Datum::Float32(bits) => DatumModel::Float32(bits),
        Datum::Float64(bits) => DatumModel::Float64(bits),
        Datum::Decimal(significand) => DatumModel::Decimal(significand@),
        Datum::Bytes(bytes) => DatumModel::Bytes(bytes@),
        Datum::String(text) => DatumModel::String(text@),
        Datum::List(items) => DatumModel::List(
            Seq::new(
                items@.len(),
                |i: int|
                    if 0 <= i < items@.len() {
                        datum_model(items@[i])
                    } else {
                        DatumModel::Null
                    },
            ),
        ),
        Datum::Dict(entries) => DatumModel::Dict(
            Seq::new(
                entries@.len(),
                |i: int|
                    if 0 <= i < entries@.len() {
                        (entries@[i].0@, datum_model(entries@[i].1))
                    } else {
                        (Seq::empty(), DatumModel::Null)
                    },
            ),
        ),
    }
}

/// What a run of datums stands for.
pub open spec fn datum_models(datums: Seq<Datum>) -> Seq<DatumModel> {
    datums.map_values(|datum: Datum| datum_model(datum))
}

impl View for Datum {
    type V = DatumModel;

    open spec fn view(&self) -> DatumModel {
        datum_model(*self)
    }
}

/// The datum of a truth value.
pub open spec fn bool_datum(b: bool) -> DatumModel {
    if b {
        DatumModel::True
    } else {
        DatumModel::False
    }
}

/// Whether a run of datums can be closed into a dict: keys and values in turn, each key a string.
pub open spec fn alternates(items: Seq<DatumModel>) -> bool {
    &&& items.len() % 2 == 0
    &&& forall|i: int| 0 <= 2 * i < items.len() ==> #[trigger] items[2 * i] is String
}

/// The entries that a run of keys and values in turn makes up.
pub open spec fn paired(items: Seq<DatumModel>) -> Seq<(Seq<char>, DatumModel)> {
    Seq::new(items.len() / 2, |i: int| (items[2 * i]->String_0, items[2 * i + 1]))
}

/// A row: a run of datums, one for each column.
#[derive(Debug, PartialEq, Eq)]
pub struct Row {
    datums: Vec<Datum>,
}

impl View for Row {
    type V = Seq<DatumModel>;

    closed spec fn view(&self) -> Seq<DatumModel> {
        datum_models(self.datums@)
    }
}

impl Row {
    /// The datums of the row, in the order of its columns.
    pub fn unpack(&self) -> (datums: &Vec<Datum>)
        ensures
            datum_models(datums@) == self@,
    {
        &self.datums
    }
}

/// Builds a row.
///
/// Lists and dicts are opened, filled and closed: what was pushed between the start and the end
/// of one becomes a single datum.
#[derive(Debug)]
pub struct RowPacker {
    datums: Vec<Datum>,
}

impl View for RowPacker {
    type V = Seq<DatumModel>;

    closed spec fn view(&self) -> Seq<DatumModel> {
        datum_models(self.datums@)
    }
}

impl RowPacker {
    /// A packer that holds nothing yet.
    pub fn new() -> (packer: RowPacker)
        ensures
            packer@ == Seq::<DatumModel>::empty(),
    {
        let packer = RowPacker { datums: Vec::new() };
        assert(packer@ =~= Seq::<DatumModel>::empty());
        packer
    }

    /// Appends a datum.
    pub fn push(&mut self, datum: Datum)
        ensures
            final(self)@ == old(self)@.push(datum@),
    {
        self.datums.push(datum);
        assert(self@ =~= old(self)@.push(datum@));
    }

    /// Opens a list. What this returns is to be handed to [`RowPacker::finish_list`].
    pub fn start_list(&mut self) -> (start: usize)
        ensures
            final(self)@ == old(self)@,
            start == old(self)@.len(),
    {
        self.datums.len()
    }

    /// Closes the list that was opened at `start`.
    pub fn finish_list(&mut self, start: usize)
        requires
            start <= old(self)@.len(),
        ensures
            final(self)@ == old(self)@.take(start as int).push(
                DatumModel::List(old(self)@.skip(start as int)),
            ),
    {
        let items = self.datums.split_off(start);
        let list = Datum::List(items);
        assert(list@->List_0 =~= old(self)@.skip(start as int));
        self.datums.push(list);
        assert(self@ =~= old(self)@.take(start as int).push(list@));
    }

    /// Opens a dict. What this returns is to be handed to [`RowPacker::finish_dict`].
    pub fn start_dict(&mut self) -> (start: usize)
        ensures
            final(self)@ == old(self)@,
            start == old(self)@.len(),
    {
        self.datums.len()
    }

    /// Closes the dict that was opened at `start`. Since then keys and values must have been
    /// pushed in turn, and every key must be a string.
    pub fn finish_dict(&mut self, start: usize)
        requires
            start <= old(self)@.len(),
            alternates(old(self)@.skip(start as int)),
        ensures
            final(self)@ == old(self)@.take(start as int).push(
                DatumModel::Dict(paired(old(self)@.skip(start as int))),
            ),
    {
        let ghost before = self@;
        let ghost items = self@.skip(start as int);
        let ghost n = items.len() as int / 2;
        let mut rest = self.datums.split_off(start);
        let mut reversed: Vec<(String, Datum)> = Vec::new();
        assert(datum_models(rest@) =~= items);
        while rest.len() > 0
            invariant
                alternates(items),
                n == items.len() as int / 2,
                reversed@.len() <= n,
                rest@.len() == 2 * (n - reversed@.len()),
                forall|i: int|
                    0 <= i < rest@.len() ==> datum_model(#[trigger] rest@[i]) == items[i],
                forall|i: int|
                    0 <= i < reversed@.len() ==> (
                    (#[trigger] reversed@[i]).0@,
                    datum_model(reversed@[i].1),
                    ) == paired(items)[n - 1 - i],
            decreases rest@.len(),
        {
            let ghost k = n - 1 - reversed@.len();
            assert(datum_model(rest@[2 * k]) == items[2 * k]);
            assert(datum_model(rest@[2 * k + 1]) == items[2 * k + 1]);
            let value = rest.pop();
            let key = rest.pop();
            if let (Some(Datum::String(key)), Some(value)) = (key, value) {
                reversed.push((key, value));
            }
        }
        let mut entries: Vec<(String, Datum)> = Vec::new();
        while reversed.len() > 0
            invariant
                reversed@.len() + entries@.len() == n,
                forall|i: int|
                    0 <= i < reversed@.len() ==> (
                    (#[trigger] reversed@[i]).0@,
                    datum_model(reversed@[i].1),
                    ) == paired(items)[n - 1 - i],
                forall|i: int|
                    0 <= i < entries@.len() ==> (
                    (#[trigger] entries@[i]).0@,
                    datum_model(entries@[i].1),
                    ) == paired(items)[i],
            decreases reversed@.len(),
        {
            if let Some(entry) = reversed.pop() {
                entries.push(entry);
            }
        }
        let dict = Datum::Dict(entries);
        assert(dict@->Dict_0 =~= paired(items));
        self.datums.push(dict);
        assert(self@ =~= before.take(start as int).push(dict@));
    }

    /// The row that was built.
    pub fn finish(self) -> (row: Row)
        ensures
            row@ == self@,
    {
        Row { datums: self.datums }
    }
}

} // verus!
