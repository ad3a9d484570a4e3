//! Column metadata and the column-type widening rule.

use vstd::prelude::*;

verus! {

/// Inferred type of a column, derived from the cell values observed in it.
#[derive(Debug, Clone, Copy, PartialEq, Eq, Structural)]
pub enum CellType {
    Null,
    Bool,
    Int,
    Float,
    Text,
    Date,
    DateTime,
    Mixed,
}

/// The least general type that covers both `a` and `b`: `Null` gives way to
/// the other type, `Int` and `Float` merge to `Float`, `Date` and `DateTime`
/// merge to `DateTime`, and any other distinct pair merges to `Mixed`.
pub open spec fn spec_widen(a: CellType, b: CellType) -> CellType {
    if a == b {
        a
    } else if a == CellType::Null {
        b
    } else if b == CellType::Null {
        a
    } else if (a == CellType::Int && b == CellType::Float) || (a == CellType::Float
        && b == CellType::Int) {
        CellType::Float
    } else if (a == CellType::Date && b == CellType::DateTime) || (a == CellType::DateTime
        && b == CellType::Date) {
        CellType::DateTime
    } else {
        CellType::Mixed
    }
}

impl Default for CellType {
    /// A column with no observed data has the null type.
    fn default() -> (t: CellType)
        ensures
            t == CellType::Null,
    {
        CellType::Null
    }
}

impl CellType {
    /// Widen this type so that it also accommodates `other`.
    pub fn widen(self, other: CellType) -> (r: CellType)
        ensures
            r == spec_widen(self, other),
    {
        if self == other {
            return self;
        }
        match (self, other) {
            (CellType::Null, t) => t,
            (t, CellType::Null) => t,
            (CellType::Int, CellType::Float) => CellType::Float,
            (CellType::Float, CellType::Int) => CellType::Float,
            (CellType::Date, CellType::DateTime) => CellType::DateTime,
            (CellType::DateTime, CellType::Date) => CellType::DateTime,
            _ => CellType::Mixed,
        }
    }
}

/// Widening never changes an already covering type, and the order in which
/// two types are observed does not matter.
pub proof fn lemma_widen_idempotent_commutative(a: CellType, b: CellType)
    ensures
        spec_widen(a, a) == a,
        spec_widen(a, b) == spec_widen(b, a),
{
}

/// Widening is associative, so folding it over the cells of a column reaches
/// the same type in whatever order the cells are visited.
pub proof fn lemma_widen_associative(a: CellType, b: CellType, c: CellType)
    ensures
        spec_widen(spec_widen(a, b), c) == spec_widen(a, spec_widen(b, c)),
{
}

/// Column metadata: the header name, the zero-based position in the table,
/// and the type inferred from the column's data.
#[derive(Debug)]
pub struct Column {
    pub name: String,
    pub index: usize,
    pub inferred_type: CellType,
}

/// The mathematical view of a column.
pub struct ColumnV {
    pub name: Seq<char>,
    pub index: usize,
    pub inferred_type: CellType,
}

impl View for Column {
    type V = ColumnV;

    open spec fn view(&self) -> ColumnV {
        ColumnV { name: self.name@, index: self.index, inferred_type: self.inferred_type }
    }
}

impl Clone for Column {
    /// Cloning keeps the column's name, position and type.
    fn clone(&self) -> (c: Column)
        ensures
            c@ == self@,
    {
        Column { name: self.name.clone(), index: self.index, inferred_type: self.inferred_type }
    }
}

impl Column {
    /// A new column with the given name and position and no observed data.
    pub fn new(name: String, index: usize) -> (c: Column)
        ensures
            c.name == name,
            c.index == index,
            c.inferred_type == CellType::Null,
    {
        Column { name, index, inferred_type: CellType::Null }
    }

    /// A new column with an already known type.
    pub fn with_type(name: String, index: usize, cell_type: CellType) -> (c: Column)
        ensures
            c.name == name,
            c.index == index,
            c.inferred_type == cell_type,
    {
        Column { name, index, inferred_type: cell_type }
    }
}

} // verus!
