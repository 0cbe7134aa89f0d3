//! Descriptions of relations.
use vstd::prelude::*;

verus! {

/// The type of a column, apart from whether it takes nulls.
#[derive(Clone, Copy, Debug, PartialEq, Eq, Structural)]
pub enum ScalarType {
    Bool,
    Int32,
    Int64,
    Float32,
    Float64,
    /// A decimal number with a precision and a scale.
    Decimal(u8, u8),
    Bytes,
    String,
    Jsonb,
}

/// The type of a column.
#[derive(Clone, Copy, Debug, PartialEq, Eq, Structural)]
pub struct ColumnType {
    pub nullable: bool,
    pub scalar_type: ScalarType,
}

/// The types of the columns of a relation.
#[derive(Debug)]
pub struct RelationType {
    pub column_types: Vec<ColumnType>,
}

impl RelationType {
    /// A relation type with the given columns.
    pub fn new(column_types: Vec<ColumnType>) -> (relation_type: RelationType)
        ensures
            relation_type.column_types == column_types,
    {
        RelationType { column_types }
    }
}

/// A column of a relation: its name, if it has one, and its type.
pub struct ColumnModel {
    pub name: Option<Seq<char>>,
    pub column_type: ColumnType,
}

/// The description of a relation: the types and the names of its columns.
#[derive(Debug)]
pub struct RelationDesc {
    typ: RelationType,
    names: Vec<Option<String>>,
}

/// The text of a name that may be missing.
pub open spec fn name_model(name: Option<String>) -> Option<Seq<char>> {
    match name {
        Some(text) => Some(text@),
        None => None,
    }
}

impl View for RelationDesc {
    type V = Seq<ColumnModel>;

    closed spec fn view(&self) -> Seq<ColumnModel> {
        Seq::new(
            self.typ.column_types@.len(),
            |i: int|
                ColumnModel {
                    name: name_model(self.names@[i]),
                    column_type: self.typ.column_types@[i],
                },
        )
    }
}

impl RelationDesc {
    /// There are as many names as columns.
    #[verifier::type_invariant]
    spec fn well_formed(self) -> bool {
        self.typ.column_types@.len() == self.names@.len()
    }

    /// A description of the given columns, each with its name.
    pub fn new(typ: RelationType, names: Vec<Option<String>>) -> (desc: RelationDesc)
        requires
            typ.column_types@.len() == names@.len(),
        ensures
            desc@.len() == names@.len(),
            forall|i: int|
                0 <= i < names@.len() ==> (#[trigger] desc@[i]) == (ColumnModel {
                    name: name_model(names@[i]),
                    column_type: typ.column_types@[i],
                }),
    {
        RelationDesc { typ, names }
    }

    /// The columns: their names, where they have one, and their types.
    pub fn iter(&self) -> (columns: Vec<(&Option<String>, &ColumnType)>)
        ensures
            columns@.len() == self@.len(),
            forall|i: int|
                0 <= i < columns@.len() ==> (ColumnModel {
                    name: name_model(*(#[trigger] columns@[i]).0),
                    column_type: *columns@[i].1,
                }) == self@[i],
    {
        proof {
            use_type_invariant(self);
        }
        let mut columns: Vec<(&Option<String>, &ColumnType)> = Vec::new();
        for i in 0..self.names.len()
            invariant
                self.typ.column_types@.len() == self.names@.len(),
                columns@.len() == i,
                forall|j: int|
                    0 <= j < i ==> (#[trigger] columns@[j]) == (
                        &self.names@[j],
                        &self.typ.column_types@[j],
                    ),
        {
            columns.push((&self.names[i], &self.typ.column_types[i]));
        }
        columns
    }
}

} // verus!
