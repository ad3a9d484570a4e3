//! Set and position comparison of two tables' column lists.

use crate::schema::CellType;
use crate::schema::ColumnV;
use crate::table::col_position;
use crate::table::lemma_col_position_none;
use crate::table::lemma_col_position_of_first;
use crate::table::Table;
use vstd::prelude::*;
use vstd::string::StringExecFns;

verus! {

/// A structural difference between two tables' column lists.  The renamed
/// case belongs to the change vocabulary but name-based comparison never
/// produces it: a rename appears as a removal plus an addition.
#[derive(Debug)]
pub enum SchemaChange {
    ColumnAdded { name: String, index: usize },
    ColumnRemoved { name: String, index: usize },
    ColumnRenamed { old_name: String, new_name: String, index: usize },
    ColumnMoved { name: String, from_index: usize, to_index: usize },
    ColumnTypeChanged { name: String, old_type: String, new_type: String },
}

/// The mathematical view of a schema change.
pub enum SchemaChangeV {
    ColumnAdded { name: Seq<char>, index: usize },
    ColumnRemoved { name: Seq<char>, index: usize },
    ColumnRenamed { old_name: Seq<char>, new_name: Seq<char>, index: usize },
    ColumnMoved { name: Seq<char>, from_index: usize, to_index: usize },
    ColumnTypeChanged { name: Seq<char>, old_type: Seq<char>, new_type: Seq<char> },
}

impl View for SchemaChange {
    type V = SchemaChangeV;

    open spec fn view(&self) -> SchemaChangeV {
        match self {
            SchemaChange::ColumnAdded { name, index } => SchemaChangeV::ColumnAdded {
                name: name@,
                index: *index,
            },
            SchemaChange::ColumnRemoved { name, index } => SchemaChangeV::ColumnRemoved {
                name: name@,
                index: *index,
            },
            SchemaChange::ColumnRenamed { old_name, new_name, index } => SchemaChangeV::ColumnRenamed {
                old_name: old_name@,
                new_name: new_name@,
                index: *index,
            },
            SchemaChange::ColumnMoved { name, from_index, to_index } => SchemaChangeV::ColumnMoved {
                name: name@,
                from_index: *from_index,
                to_index: *to_index,
            },
            SchemaChange::ColumnTypeChanged { name, old_type, new_type } => SchemaChangeV::ColumnTypeChanged {
                name: name@,
                old_type: old_type@,
                new_type: new_type@,
            },
        }
    }
}

impl Clone for SchemaChange {
    /// Cloning keeps the change's kind and fields.
    fn clone(&self) -> (c: SchemaChange)
        ensures
            c@ == self@,
    {
        match self {
            SchemaChange::ColumnAdded { name, index } => SchemaChange::ColumnAdded {
                name: name.clone(),
                index: *index,
            },
            SchemaChange::ColumnRemoved { name, index } => SchemaChange::ColumnRemoved {
                name: name.clone(),
                index: *index,
            },
            SchemaChange::ColumnRenamed { old_name, new_name, index } => SchemaChange::ColumnRenamed {
                old_name: old_name.clone(),
                new_name: new_name.clone(),
                index: *index,
            },
            SchemaChange::ColumnMoved { name, from_index, to_index } => SchemaChange::ColumnMoved {
                name: name.clone(),
                from_index: *from_index,
                to_index: *to_index,
            },
            SchemaChange::ColumnTypeChanged { name, old_type, new_type } => SchemaChange::ColumnTypeChanged {
                name: name.clone(),
                old_type: old_type.clone(),
                new_type: new_type.clone(),
            },
        }
    }
}

/// The views of a change list.
pub open spec fn change_views(s: Seq<SchemaChange>) -> Seq<SchemaChangeV> {
    s.map_values(|c: SchemaChange| c@)
}

/// The display name of a column type.
pub open spec fn type_label(t: CellType) -> Seq<char> {
    match t {
        CellType::Null => seq!['n', 'u', 'l', 'l'],
        CellType::Bool => seq!['b', 'o', 'o', 'l'],
        CellType::Int => seq!['i', 'n', 't'],
        CellType::Float => seq!['f', 'l', 'o', 'a', 't'],
        CellType::Text => seq!['s', 't', 'r', 'i', 'n', 'g'],
        CellType::Date => seq!['d', 'a', 't', 'e'],
        CellType::DateTime => seq!['d', 'a', 't', 'e', 't', 'i', 'm', 'e'],
        CellType::Mixed => seq!['m', 'i', 'x', 'e', 'd'],
    }
}

/// Builds the display name of a column type.
pub fn cell_type_name(t: CellType) -> (s: String)
    ensures
        s@ == type_label(t),
{
    proof {
        reveal_strlit("null");
        reveal_strlit("bool");
        reveal_strlit("int");
        reveal_strlit("float");
        reveal_strlit("string");
        reveal_strlit("date");
        reveal_strlit("datetime");
        reveal_strlit("mixed");
    }
    let s = match t {
        CellType::Null => String::from_str("null"),
        CellType::Bool => String::from_str("bool"),
        CellType::Int => String::from_str("int"),
        CellType::Float => String::from_str("float"),
        CellType::Text => String::from_str("string"),
        CellType::Date => String::from_str("date"),
        CellType::DateTime => String::from_str("datetime"),
        CellType::Mixed => String::from_str("mixed"),
    };
    proof {
        assert(s@ =~= type_label(t));
    }
    s
}

/// One removal for every old column, scanning from position `i`, whose name
/// is absent from the new columns, in old-table order.
pub open spec fn removed_from(oldc: Seq<ColumnV>, newc: Seq<ColumnV>, i: int) -> Seq<SchemaChangeV>
    decreases oldc.len() - i,
{
    if !(0 <= i < oldc.len()) {
        Seq::empty()
    } else {
        let rest = removed_from(oldc, newc, i + 1);
        if col_position(newc, oldc[i].name) is None {
            seq![SchemaChangeV::ColumnRemoved { name: oldc[i].name, index: i as usize }] + rest
        } else {
            rest
        }
    }
}

/// One addition for every new column, scanning from position `i`, whose name
/// is absent from the old columns, in new-table order.
pub open spec fn added_from(oldc: Seq<ColumnV>, newc: Seq<ColumnV>, i: int) -> Seq<SchemaChangeV>
    decreases newc.len() - i,
{
    if !(0 <= i < newc.len()) {
        Seq::empty()
    } else {
        let rest = added_from(oldc, newc, i + 1);
        if col_position(oldc, newc[i].name) is None {
            seq![SchemaChangeV::ColumnAdded { name: newc[i].name, index: i as usize }] + rest
        } else {
            rest
        }
    }
}

/// One move for every column present in both tables whose position differs,
/// in old-table order; positions in the new table are by first name match.
pub open spec fn moved_from(oldc: Seq<ColumnV>, newc: Seq<ColumnV>, i: int) -> Seq<SchemaChangeV>
    decreases oldc.len() - i,
{
    if !(0 <= i < oldc.len()) {
        Seq::empty()
    } else {
        let rest = moved_from(oldc, newc, i + 1);
        match col_position(newc, oldc[i].name) {
            Some(j) => if j != i {
                seq![
                    SchemaChangeV::ColumnMoved {
                        name: oldc[i].name,
                        from_index: i as usize,
                        to_index: j as usize,
                    },
                ] + rest
            } else {
                rest
            },
            None => rest,
        }
    }
}

/// One type change for every column present in both tables whose inferred
/// type differs, in old-table order.
pub open spec fn retyped_from(oldc: Seq<ColumnV>, newc: Seq<ColumnV>, i: int) -> Seq<SchemaChangeV>
    decreases oldc.len() - i,
{
    if !(0 <= i < oldc.len()) {
        Seq::empty()
    } else {
        let rest = retyped_from(oldc, newc, i + 1);
        match col_position(newc, oldc[i].name) {
            Some(j) => if oldc[i].inferred_type != newc[j].inferred_type {
                seq![
                    SchemaChangeV::ColumnTypeChanged {
                        name: oldc[i].name,
                        old_type: type_label(oldc[i].inferred_type),
                        new_type: type_label(newc[j].inferred_type),
                    },
                ] + rest
            } else {
                rest
            },
            None => rest,
        }
    }
}

/// The full ordered change list: removals, then additions, then moves, then
/// type changes.
pub open spec fn spec_schema_changes(oldc: Seq<ColumnV>, newc: Seq<ColumnV>) -> Seq<SchemaChangeV> {
    removed_from(oldc, newc, 0) + added_from(oldc, newc, 0) + moved_from(oldc, newc, 0)
        + retyped_from(oldc, newc, 0)
}

/// Schema comparison.
pub struct SchemaDiff;

impl SchemaDiff {
    /// Compares the column lists of two tables and emits, in this fixed
    /// order, the removed columns, the added columns, the moved columns and
    /// the columns whose inferred type changed.
    pub fn compare(old_table: &Table, new_table: &Table) -> (changes: Vec<SchemaChange>)
        ensures
            change_views(changes@) == spec_schema_changes(
                old_table.columns@.map_values(|c: crate::schema::Column| c@),
                new_table.columns@.map_values(|c: crate::schema::Column| c@),
            ),
    {
        let ghost oldv = old_table.columns@.map_values(|c: crate::schema::Column| c@);
        let ghost newv = new_table.columns@.map_values(|c: crate::schema::Column| c@);
        let mut changes: Vec<SchemaChange> = Vec::new();
        let old_n = old_table.columns.len();
        let new_n = new_table.columns.len();

        // removed columns
        let mut i: usize = 0;
        while i < old_n
            invariant
                0 <= i <= old_n == old_table.columns@.len(),
                oldv == old_table.columns@.map_values(|c: crate::schema::Column| c@),
                newv == new_table.columns@.map_values(|c: crate::schema::Column| c@),
                oldv.len() == old_n,
                removed_from(oldv, newv, 0) == change_views(changes@) + removed_from(
                    oldv,
                    newv,
                    i as int,
                ),
            decreases old_n - i,
        {
            let ghost pre = changes@;
            let name = &old_table.columns[i].name;
            match new_table.column_index(name.as_str()) {
                None => {
                    proof {
                        lemma_col_position_none(newv, oldv[i as int].name);
                    }
                    changes.push(
                        SchemaChange::ColumnRemoved { name: name.clone(), index: i },
                    );
                    proof {
                        assert(change_views(changes@) =~= change_views(pre) + seq![
                            SchemaChangeV::ColumnRemoved { name: oldv[i as int].name, index: i },
                        ]);
                    }
                },
                Some(j) => {
                    proof {
                        lemma_col_position_of_first(newv, oldv[i as int].name, j as int);
                    }
                },
            }
            i = i + 1;
        }
        proof {
            assert(removed_from(oldv, newv, old_n as int) =~= Seq::<SchemaChangeV>::empty());
            assert(change_views(changes@) =~= removed_from(oldv, newv, 0));
        }

        // added columns
        let ghost after_removed = change_views(changes@);
        let mut i: usize = 0;
        while i < new_n
            invariant
                0 <= i <= new_n == new_table.columns@.len(),
                oldv == old_table.columns@.map_values(|c: crate::schema::Column| c@),
                newv == new_table.columns@.map_values(|c: crate::schema::Column| c@),
                newv.len() == new_n,
                after_removed == removed_from(oldv, newv, 0),
                after_removed + added_from(oldv, newv, 0) == change_views(changes@) + added_from(
                    oldv,
                    newv,
                    i as int,
                ),
            decreases new_n - i,
        {
            let ghost pre = changes@;
            let name = &new_table.columns[i].name;
            match old_table.column_index(name.as_str()) {
                None => {
                    proof {
                        lemma_col_position_none(oldv, newv[i as int].name);
                    }
                    changes.push(SchemaChange::ColumnAdded { name: name.clone(), index: i });
                    proof {
                        assert(change_views(changes@) =~= change_views(pre) + seq![
                            SchemaChangeV::ColumnAdded { name: newv[i as int].name, index: i },
                        ]);
                    }
                },
                Some(j) => {
                    proof {
                        lemma_col_position_of_first(oldv, newv[i as int].name, j as int);
                    }
                },
            }
            i = i + 1;
        }
        proof {
            assert(added_from(oldv, newv, new_n as int) =~= Seq::<SchemaChangeV>::empty());
            assert(change_views(changes@) =~= removed_from(oldv, newv, 0) + added_from(
                oldv,
                newv,
                0,
            ));
        }

        // moved columns
        let ghost after_added = change_views(changes@);
        let mut i: usize = 0;
        while i < old_n
            invariant
                0 <= i <= old_n == old_table.columns@.len(),
                oldv == old_table.columns@.map_values(|c: crate::schema::Column| c@),
                newv == new_table.columns@.map_values(|c: crate::schema::Column| c@),
                oldv.len() == old_n,
                after_added == removed_from(oldv, newv, 0) + added_from(oldv, newv, 0),
                after_added + moved_from(oldv, newv, 0) == change_views(changes@) + moved_from(
                    oldv,
                    newv,
                    i as int,
                ),
            decreases old_n - i,
        {
            let ghost pre = changes@;
            let name = &old_table.columns[i].name;
            match new_table.column_index(name.as_str()) {
                Some(j) => {
                    proof {
                        lemma_col_position_of_first(newv, oldv[i as int].name, j as int);
                    }
                    if j != i {
                        changes.push(
                            SchemaChange::ColumnMoved {
                                name: name.clone(),
                                from_index: i,
                                to_index: j,
                            },
                        );
                        proof {
                            assert(change_views(changes@) =~= change_views(pre) + seq![
                                SchemaChangeV::ColumnMoved {
                                    name: oldv[i as int].name,
                                    from_index: i,
                                    to_index: j,
                                },
                            ]);
                        }
                    }
                },
                None => {
                    proof {
                        lemma_col_position_none(newv, oldv[i as int].name);
                    }
                },
            }
            i = i + 1;
        }
        proof {
            assert(moved_from(oldv, newv, old_n as int) =~= Seq::<SchemaChangeV>::empty());
            assert(change_views(changes@) =~= removed_from(oldv, newv, 0) + added_from(
                oldv,
                newv,
                0,
            ) + moved_from(oldv, newv, 0));
        }

        // type changes
        let ghost after_moved = change_views(changes@);
        let mut i: usize = 0;
        while i < old_n
            invariant
                0 <= i <= old_n == old_table.columns@.len(),
                oldv == old_table.columns@.map_values(|c: crate::schema::Column| c@),
                newv == new_table.columns@.map_values(|c: crate::schema::Column| c@),
                oldv.len() == old_n,
                newv.len() == new_table.columns@.len(),
                after_moved == removed_from(oldv, newv, 0) + added_from(oldv, newv, 0)
                    + moved_from(oldv, newv, 0),
                after_moved + retyped_from(oldv, newv, 0) == change_views(changes@) + retyped_from(
                    oldv,
                    newv,
                    i as int,
                ),
            decreases old_n - i,
        {
            let ghost pre = changes@;
            let name = &old_table.columns[i].name;
            match new_table.column_index(name.as_str()) {
                Some(j) => {
                    proof {
                        lemma_col_position_of_first(newv, oldv[i as int].name, j as int);
                    }
                    let ot = old_table.columns[i].inferred_type;
                    let nt = new_table.columns[j].inferred_type;
                    if ot != nt {
                        changes.push(
                            SchemaChange::ColumnTypeChanged {
                                name: name.clone(),
                                old_type: cell_type_name(ot),
                                new_type: cell_type_name(nt),
                            },
                        );
                        proof {
                            assert(change_views(changes@) =~= change_views(pre) + seq![
                                SchemaChangeV::ColumnTypeChanged {
                                    name: oldv[i as int].name,
                                    old_type: type_label(oldv[i as int].inferred_type),
                                    new_type: type_label(newv[j as int].inferred_type),
                                },
                            ]);
                        }
                    }
                },
                None => {
                    proof {
                        lemma_col_position_none(newv, oldv[i as int].name);
                    }
                },
            }
            i = i + 1;
        }
        proof {
            assert(retyped_from(oldv, newv, old_n as int) =~= Seq::<SchemaChangeV>::empty());
            assert(change_views(changes@) =~= spec_schema_changes(oldv, newv));
        }
        changes
    }
}

/// An addition turned into the removal of the same column, and the other way
/// round.
pub open spec fn mirror_change(c: SchemaChangeV) -> SchemaChangeV {
    match c {
        SchemaChangeV::ColumnAdded { name, index } => SchemaChangeV::ColumnRemoved { name, index },
        SchemaChangeV::ColumnRemoved { name, index } => SchemaChangeV::ColumnAdded { name, index },
        other => other,
    }
}

proof fn lemma_mirror_from(a: Seq<ColumnV>, b: Seq<ColumnV>, i: int)
    ensures
        added_from(a, b, i) == removed_from(b, a, i).map_values(
            |c: SchemaChangeV| mirror_change(c),
        ),
    decreases b.len() - i,
{
    if !(0 <= i < b.len()) {
        assert(added_from(a, b, i) =~= removed_from(b, a, i).map_values(
            |c: SchemaChangeV| mirror_change(c),
        ));
    } else {
        lemma_mirror_from(a, b, i + 1);
        if col_position(a, b[i].name) is None {
            assert(added_from(a, b, i) =~= removed_from(b, a, i).map_values(
                |c: SchemaChangeV| mirror_change(c),
            ));
        } else {
            assert(added_from(a, b, i) =~= removed_from(b, a, i).map_values(
                |c: SchemaChangeV| mirror_change(c),
            ));
        }
    }
}

/// Schema symmetry: comparing (a, b) reports a column as added exactly where
/// comparing (b, a) reports the same column, at the same position, as
/// removed, and the other way round.
pub proof fn lemma_schema_symmetry(a: Seq<ColumnV>, b: Seq<ColumnV>)
    ensures
        added_from(a, b, 0) == removed_from(b, a, 0).map_values(
            |c: SchemaChangeV| mirror_change(c),
        ),
        removed_from(a, b, 0) == added_from(b, a, 0).map_values(
            |c: SchemaChangeV| mirror_change(c),
        ),
{
    lemma_mirror_from(a, b, 0);
    lemma_mirror_from(b, a, 0);
    assert(removed_from(a, b, 0) =~= added_from(b, a, 0).map_values(
        |c: SchemaChangeV| mirror_change(c),
    ));
}

} // verus!
