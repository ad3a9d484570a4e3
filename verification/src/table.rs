//! Rows and tables: the ordered row collection with its precomputed
//! key-hash index.

use crate::key::build_key_string;
use crate::key::fx_hash_str;
use crate::key::key_hash_of;
use crate::key::spec_key;
use crate::schema::Column;
use crate::schema::ColumnV;
use crate::value::views_of;
use crate::value::CellV;
use crate::value::CellValue;
use std::collections::HashMap;
use vstd::prelude::*;

verus! {

broadcast use vstd::std_specs::hash::group_hash_axioms;

/// A row: its cell values in column order, the composite key string derived
/// from the table's key columns, the precomputed hash of that key, and the
/// 1-based line or record number the row came from.
#[derive(Debug)]
pub struct Row {
    pub cells: Vec<CellValue>,
    pub key: String,
    pub key_hash: u64,
    pub source_line: usize,
}

/// The mathematical view of a row.
pub struct RowV {
    pub cells: Seq<CellV>,
    pub key: Seq<char>,
    pub key_hash: u64,
    pub source_line: usize,
}

impl View for Row {
    type V = RowV;

    open spec fn view(&self) -> RowV {
        RowV {
            cells: views_of(self.cells@),
            key: self.key@,
            key_hash: self.key_hash,
            source_line: self.source_line,
        }
    }
}

impl Clone for Row {
    /// Cloning keeps the row's cells, key, hash and source line.
    fn clone(&self) -> (r: Row)
        ensures
            r@ == self@,
    {
        let cells = self.cells.clone();
        proof {
            assert(views_of(cells@) =~= views_of(self.cells@));
        }
        let r = Row {
            cells,
            key: self.key.clone(),
            key_hash: self.key_hash,
            source_line: self.source_line,
        };
        proof {
            assert(r@ =~= self@);
        }
        r
    }
}

/// The pipe separator that joins a row's key pieces.
pub open spec fn key_sep() -> Seq<char> {
    seq!['|']
}

/// The row's key fields are the composite key of its cells under the given
/// key columns, and its hash is the hash of that key.
pub open spec fn row_keyed(r: RowV, key_cols: Seq<usize>) -> bool {
    &&& r.key == spec_key(r.cells, key_cols, key_sep())
    &&& r.key_hash == key_hash_of(r.key)
}

impl Row {
    /// A new row over the given cells, with its key computed from the given
    /// key columns.
    pub fn new(cells: Vec<CellValue>, key_column_indices: &[usize], source_line: usize) -> (r: Row)
        ensures
            r@.cells == views_of(cells@),
            r@.source_line == source_line,
            row_keyed(r@, key_column_indices@),
    {
        proof {
            reveal_strlit("|");
            assert("|"@ =~= key_sep());
        }
        let key = build_key_string(cells.as_slice(), key_column_indices, "|");
        let key_hash = fx_hash_str(key.as_str());
        Row { cells, key, key_hash, source_line }
    }

    /// The cell at a column position, when the row reaches that far.
    pub fn get(&self, index: usize) -> (r: Option<&CellValue>)
        ensures
            match r {
                Some(c) => index < self@.cells.len() && c@ == self@.cells[index as int],
                None => index >= self@.cells.len(),
            },
    {
        if index < self.cells.len() {
            Some(&self.cells[index])
        } else {
            None
        }
    }

    /// Recomputes the key and its hash under new key columns; the cells and
    /// the source line stay as they were.
    pub fn recompute_key(&mut self, key_column_indices: &[usize])
        ensures
            final (self)@.cells == old(self)@.cells,
            final (self)@.source_line == old(self)@.source_line,
            row_keyed(final (self)@, key_column_indices@),
    {
        proof {
            reveal_strlit("|");
            assert("|"@ =~= key_sep());
        }
        self.key = build_key_string(self.cells.as_slice(), key_column_indices, "|");
        self.key_hash = fx_hash_str(self.key.as_str());
    }
}

/// A row's cells normalized to the table's column count: truncated when too
/// long, padded with nulls when too short.
pub open spec fn pad_cells(cells: Seq<CellV>, n: nat) -> Seq<CellV> {
    Seq::new(n, |i: int| if i < cells.len() {
        cells[i]
    } else {
        CellV::Null
    })
}

/// The position of the first column carrying `name`, if any.
pub open spec fn col_position(cols: Seq<ColumnV>, name: Seq<char>) -> Option<int>
    decreases cols.len(),
{
    if cols.len() == 0 {
        None
    } else if cols[0].name == name {
        Some(0int)
    } else {
        match col_position(cols.drop_first(), name) {
            Some(i) => Some(i + 1),
            None => None,
        }
    }
}

/// The column positions that a list of key-column names designates, in the
/// order given; a name that matches no column is simply skipped.
pub open spec fn resolve_key_names(cols: Seq<ColumnV>, names: Seq<Seq<char>>) -> Seq<usize>
    decreases names.len(),
{
    if names.len() == 0 {
        Seq::empty()
    } else {
        let rest = resolve_key_names(cols, names.drop_first());
        match col_position(cols, names[0]) {
            Some(i) => seq![i as usize] + rest,
            None => rest,
        }
    }
}

pub proof fn lemma_col_position_of_first(cols: Seq<ColumnV>, name: Seq<char>, i: int)
    requires
        0 <= i < cols.len(),
        cols[i].name == name,
        forall|j: int| 0 <= j < i ==> (#[trigger] cols[j]).name != name,
    ensures
        col_position(cols, name) == Some(i),
    decreases i,
{
    if i > 0 {
        assert(cols[0].name != name);
        let rest = cols.drop_first();
        assert(forall|j: int| 0 <= j < i - 1 ==> (#[trigger] rest[j]).name != name);
        assert(rest[i - 1] == cols[i]);
        lemma_col_position_of_first(rest, name, i - 1);
    }
}

pub proof fn lemma_col_position_none(cols: Seq<ColumnV>, name: Seq<char>)
    requires
        forall|j: int| 0 <= j < cols.len() ==> (#[trigger] cols[j]).name != name,
    ensures
        col_position(cols, name) == None::<int>,
    decreases cols.len(),
{
    if cols.len() > 0 {
        let rest = cols.drop_first();
        assert(forall|j: int| 0 <= j < rest.len() ==> (#[trigger] rest[j]).name != name);
        lemma_col_position_none(rest, name);
    }
}

/// Resolves key-column names against a table's columns, keeping the order
/// given and skipping names that match no column.
pub(crate) fn resolve_column_names(table: &Table, key_names: &[String]) -> (indices: Vec<usize>)
    ensures
        indices@ == resolve_key_names(
            table.columns@.map_values(|c: Column| c@),
            key_names@.map_values(|s: String| s@),
        ),
{
    let ghost colsv = table.columns@.map_values(|c: Column| c@);
    let ghost namesv = key_names@.map_values(|s: String| s@);
    let mut indices: Vec<usize> = Vec::new();
    let n = key_names.len();
    let mut k: usize = 0;
    proof {
        assert(namesv.skip(0) =~= namesv);
    }
    while k < n
        invariant
            0 <= k <= n == key_names@.len(),
            colsv == table.columns@.map_values(|c: Column| c@),
            namesv == key_names@.map_values(|s: String| s@),
            resolve_key_names(colsv, namesv) == indices@ + resolve_key_names(
                colsv,
                namesv.skip(k as int),
            ),
        decreases n - k,
    {
        let name = vstd::slice::slice_index_get(key_names, k);
        let ghost pre = indices@;
        proof {
            let rest = namesv.skip(k as int);
            assert(rest[0] == namesv[k as int]);
            assert(namesv[k as int] == key_names@[k as int]@);
            assert(rest.drop_first() =~= namesv.skip(k as int + 1));
        }
        match table.column_index(name.as_str()) {
            Some(i) => {
                indices.push(i);
                proof {
                    lemma_col_position_of_first(colsv, namesv[k as int], i as int);
                    assert(indices@ =~= pre + seq![i]);
                }
            },
            None => {
                proof {
                    lemma_col_position_none(colsv, namesv[k as int]);
                }
            },
        }
        k = k + 1;
    }
    proof {
        assert(resolve_key_names(colsv, namesv.skip(n as int)) =~= Seq::<usize>::empty());
        assert(indices@ =~= resolve_key_names(colsv, namesv));
    }
    indices
}

/// The column type a single cell exhibits.
pub open spec fn type_of_cell(v: CellV) -> crate::schema::CellType {
    match v {
        CellV::Null => crate::schema::CellType::Null,
        CellV::Bool(_) => crate::schema::CellType::Bool,
        CellV::Int(_) => crate::schema::CellType::Int,
        CellV::Float(_) => crate::schema::CellType::Float,
        CellV::Text(_) => crate::schema::CellType::Text,
        CellV::Date(_) => crate::schema::CellType::Date,
        CellV::DateTime(_) => crate::schema::CellType::DateTime,
    }
}

/// The type accumulated for column `c` after folding the widening rule over
/// the cells of the rows from position `i` on, starting from `acc`.
pub open spec fn col_type_from(
    rows: Seq<Row>,
    c: int,
    i: int,
    acc: crate::schema::CellType,
) -> crate::schema::CellType
    decreases rows.len() - i,
{
    if !(0 <= i < rows.len()) {
        acc
    } else if 0 <= c < rows[i]@.cells.len() {
        col_type_from(rows, c, i + 1, crate::schema::spec_widen(acc, type_of_cell(rows[i]@.cells[c])))
    } else {
        col_type_from(rows, c, i + 1, acc)
    }
}

/// Replaces every column's inferred type with the least general type that
/// covers the column's cells: the widening rule folded over every row,
/// starting from the null type.  Names, positions, rows and keys stay as
/// they were.
pub fn infer_column_types(table: &mut Table)
    requires
        old(table).wf(),
    ensures
        final (table).wf(),
        final (table).rows == old(table).rows,
        final (table).key_columns == old(table).key_columns,
        final (table).row_index == old(table).row_index,
        final (table).columns@.len() == old(table).columns@.len(),
        forall|c: int|
            0 <= c < old(table).columns@.len() ==> {
                &&& (#[trigger] final (table).columns@[c])@.name == old(table).columns@[c]@.name
                &&& final (table).columns@[c]@.index == old(table).columns@[c]@.index
                &&& final (table).columns@[c]@.inferred_type == col_type_from(
                    old(table).rows@,
                    c,
                    0,
                    crate::schema::CellType::Null,
                )
            },
{
    let ncols = table.columns.len();
    let nrows = table.rows.len();
    let mut new_columns: Vec<Column> = Vec::new();
    let mut c: usize = 0;
    while c < ncols
        invariant
            table == old(table),
            0 <= c <= ncols == table.columns@.len(),
            nrows == table.rows@.len(),
            new_columns@.len() == c,
            forall|k: int|
                0 <= k < c ==> {
                    &&& (#[trigger] new_columns@[k])@.name == table.columns@[k]@.name
                    &&& new_columns@[k]@.index == table.columns@[k]@.index
                    &&& new_columns@[k]@.inferred_type == col_type_from(
                        table.rows@,
                        k,
                        0,
                        crate::schema::CellType::Null,
                    )
                },
        decreases ncols - c,
    {
        let mut inferred = crate::schema::CellType::Null;
        let mut i: usize = 0;
        while i < nrows
            invariant
                table == old(table),
                0 <= i <= nrows == table.rows@.len(),
                c < ncols == table.columns@.len(),
                col_type_from(table.rows@, c as int, 0, crate::schema::CellType::Null)
                    == col_type_from(table.rows@, c as int, i as int, inferred),
            decreases nrows - i,
        {
            if c < table.rows[i].cells.len() {
                let cell_type = match &table.rows[i].cells[c] {
                    CellValue::Null => crate::schema::CellType::Null,
                    CellValue::Bool(_) => crate::schema::CellType::Bool,
                    CellValue::Int(_) => crate::schema::CellType::Int,
                    CellValue::Float(_) => crate::schema::CellType::Float,
                    CellValue::Text(_) => crate::schema::CellType::Text,
                    CellValue::Date(_) => crate::schema::CellType::Date,
                    CellValue::DateTime(_) => crate::schema::CellType::DateTime,
                };
                proof {
                    assert(cell_type == type_of_cell(table.rows@[i as int]@.cells[c as int]));
                }
                inferred = inferred.widen(cell_type);
            }
            i = i + 1;
        }
        let name = table.columns[c].name.clone();
        let index = table.columns[c].index;
        new_columns.push(Column { name, index, inferred_type: inferred });
        c = c + 1;
    }
    table.columns = new_columns;
    proof {
        assert forall|i: int| 0 <= i < final (table).rows@.len() implies row_keyed(
            (#[trigger] final (table).rows@[i])@,
            final (table).key_columns@,
        ) && final (table).rows@[i]@.cells.len() == final (table).columns@.len() by {
            assert(old(table).rows@[i]@.cells.len() == old(table).columns@.len());
        }
    }
}

/// The sort order between two rows at a column position: the rows compare by
/// their cells there, and a pair that does not reach the column ties.
pub open spec fn row_order_at(a: RowV, b: RowV, c: int) -> int {
    if 0 <= c < a.cells.len() && c < b.cells.len() {
        crate::value::cell_order(a.cells[c], b.cells[c])
    } else {
        0
    }
}

/// No row is greater than its successor at column `c`.
pub open spec fn rows_sorted_at(rows: Seq<RowV>, c: int) -> bool {
    forall|i: int|
        0 <= i < rows.len() - 1 ==> #[trigger] row_order_at(rows[i], rows[i + 1], c) <= 0
}

/// Swapping the operands flips the row order.
proof fn lemma_row_order_flip(a: RowV, b: RowV, c: int)
    ensures
        row_order_at(a, b, c) == -row_order_at(b, a, c),
{
    if 0 <= c < a.cells.len() && c < b.cells.len() {
        crate::value::lemma_cell_order_flip(a.cells[c], b.cells[c]);
    }
}

/// Compares two rows at a column position.
fn row_cmp_at(a: &Row, b: &Row, c: usize) -> (o: i8)
    ensures
        -1 <= o <= 1,
        o as int == row_order_at(a@, b@, c as int),
{
    if c < a.cells.len() && c < b.cells.len() {
        crate::value::cell_cmp(&a.cells[c], &b.cells[c])
    } else {
        0
    }
}

/// The views of a row sequence.
pub open spec fn row_views(s: Seq<Row>) -> Seq<RowV> {
    s.map_values(|r: Row| r@)
}

/// Sorts the rows in place by the cell order at column `c`: the result is a
/// rearrangement of the same rows in which no row is greater than its
/// successor at that column.
fn insertion_sort_rows(rows: &mut Vec<Row>, c: usize)
    ensures
        final (rows)@.len() == old(rows)@.len(),
        row_views(final (rows)@).to_multiset() == row_views(old(rows)@).to_multiset(),
        rows_sorted_at(row_views(final (rows)@), c as int),
{
    broadcast use vstd::seq_lib::group_to_multiset_ensures;

    let n = rows.len();
    if n <= 1 {
        return ;
    }
    let mut i: usize = 1;
    while i < n
        invariant
            1 <= i <= n == rows@.len(),
            row_views(rows@).to_multiset() == row_views(old(rows)@).to_multiset(),
            forall|k: int|
                0 <= k < i - 1 ==> #[trigger] row_order_at(
                    row_views(rows@)[k],
                    row_views(rows@)[k + 1],
                    c as int,
                ) <= 0,
        decreases n - i,
    {
        let ghost u = row_views(rows@);
        proof {
            assert(forall|k: int|
                0 <= k < i - 1 ==> #[trigger] row_order_at(u[k], u[k + 1], c as int) <= 0);
        }
        let mut j: usize = i;
        while j > 0 && row_cmp_at(&rows[j - 1], &rows[i], c) > 0
            invariant
                0 <= j <= i < n == rows@.len(),
                u == row_views(rows@),
                forall|k: int|
                    j <= k < i ==> #[trigger] row_order_at(u[k], u[i as int], c as int) > 0,
            decreases j,
        {
            j = j - 1;
        }
        if j < i {
            let x = rows.remove(i);
            rows.insert(j, x);
            proof {
                let v = row_views(rows@);
                u.remove_ensures(i as int);
                u.remove(i as int).insert_ensures(j as int, u[i as int]);
                assert(v =~= u.remove(i as int).insert(j as int, u[i as int]));
                // the views form the same multiset as before the move
                assert(v.to_multiset() =~= u.to_multiset()) by {
                    broadcast use vstd::multiset::group_multiset_axioms;
                    broadcast use vstd::seq_lib::group_to_multiset_ensures;

                    vstd::seq_lib::to_multiset_remove(u, i as int);
                    vstd::seq_lib::to_multiset_insert(u.remove(i as int), j as int, u[i as int]);
                    assert(u.remove(i as int).to_multiset() == u.to_multiset().remove(
                        u[i as int],
                    ));
                    assert(v.to_multiset() == u.to_multiset().remove(u[i as int]).insert(
                        u[i as int],
                    ));
                    assert(u.contains(u[i as int]));
                    assert(u.to_multiset().count(u[i as int]) > 0);
                }
                // the sorted prefix has grown by one row
                assert forall|k: int|
                    0 <= k < i implies #[trigger] row_order_at(v[k], v[k + 1], c as int) <= 0 by {
                    if k + 1 < j {
                        assert(v[k] == u[k] && v[k + 1] == u[k + 1]);
                    } else if k + 1 == j {
                        assert(v[k] == u[k] && v[k + 1] == u[i as int]);
                        assert(row_order_at(u[j - 1], u[i as int], c as int) <= 0);
                    } else if k == j {
                        assert(v[k] == u[i as int] && v[k + 1] == u[j as int]);
                        assert(row_order_at(u[j as int], u[i as int], c as int) > 0);
                        lemma_row_order_flip(u[j as int], u[i as int], c as int);
                    } else {
                        assert(v[k] == u[k - 1] && v[k + 1] == u[k]);
                        assert(row_order_at(u[k - 1], u[k], c as int) <= 0);
                    }
                }
            }
        } else {
            proof {
                assert(row_order_at(u[i - 1], u[i as int], c as int) <= 0);
            }
        }
        i = i + 1;
    }
}

/// A table: its columns, its rows, the designated key columns, and an index
/// from key hash to row position.  The index is rebuilt in full whenever key
/// columns or row order change.
#[derive(Debug)]
pub struct Table {
    pub columns: Vec<Column>,
    pub rows: Vec<Row>,
    pub key_columns: Vec<usize>,
    pub row_index: HashMap<u64, usize>,
}

impl Table {
    /// The views of the table's rows.
    pub open spec fn rows_v(self) -> Seq<RowV> {
        self.rows@.map_values(|r: Row| r@)
    }

    /// The table's invariant: every row is keyed under the table's key
    /// columns and sized to its column count, and the index maps each key
    /// hash that occurs among the rows to the last row position carrying it.
    pub open spec fn wf(self) -> bool {
        &&& forall|i: int|
            0 <= i < self.rows@.len() ==> row_keyed((#[trigger] self.rows@[i])@, self.key_columns@)
        &&& forall|i: int|
            0 <= i < self.rows@.len() ==> (#[trigger] self.rows@[i])@.cells.len()
                == self.columns@.len()
        &&& forall|h: u64|
            #[trigger] self.row_index@.contains_key(h) ==> self.row_index@[h] < self.rows@.len()
                && self.rows@[self.row_index@[h] as int]@.key_hash == h
        &&& forall|i: int|
            0 <= i < self.rows@.len() ==> self.row_index@.contains_key(
                (#[trigger] self.rows@[i])@.key_hash,
            ) && self.row_index@[self.rows@[i]@.key_hash] >= i
    }

    /// A new empty table over the given columns.
    pub fn new(columns: Vec<Column>) -> (t: Table)
        ensures
            t.wf(),
            t.columns == columns,
            t.rows@.len() == 0,
            t.key_columns@.len() == 0,
    {
        Table { columns, rows: Vec::new(), key_columns: Vec::new(), row_index: HashMap::new() }
    }

    /// Appends a row built from the given cells, normalized to the column
    /// count, and records its key hash in the index.
    pub fn add_row(&mut self, cells: Vec<CellValue>, source_line: usize)
        requires
            old(self).wf(),
        ensures
            final (self).wf(),
            final (self).columns == old(self).columns,
            final (self).key_columns == old(self).key_columns,
            final (self).rows@.len() == old(self).rows@.len() + 1,
            forall|i: int|
                0 <= i < old(self).rows@.len() ==> final (self).rows@[i] == old(self).rows@[i],
            final (self).rows@[old(self).rows@.len() as int]@.cells == pad_cells(
                views_of(cells@),
                old(self).columns@.len(),
            ),
            final (self).rows@[old(self).rows@.len() as int]@.source_line == source_line,
            row_keyed(final (self).rows@[old(self).rows@.len() as int]@, old(self).key_columns@),
    {
        let ghost orig = views_of(cells@);
        let ncols = self.columns.len();
        let mut cells = cells;
        if cells.len() > ncols {
            cells.truncate(ncols);
            proof {
                assert(views_of(cells@) =~= pad_cells(orig, ncols as nat));
            }
        } else {
            proof {
                assert(views_of(cells@) =~= pad_cells(orig, cells@.len() as nat));
            }
            while cells.len() < ncols
                invariant
                    cells@.len() <= ncols,
                    orig.len() <= cells@.len(),
                    views_of(cells@) == pad_cells(orig, cells@.len() as nat),
                decreases ncols - cells@.len(),
            {
                let ghost prev = cells@;
                cells.push(CellValue::Null);
                proof {
                    assert forall|i: int|
                        0 <= i < cells@.len() implies views_of(cells@)[i] == pad_cells(
                        orig,
                        cells@.len() as nat,
                    )[i] by {
                        if i < prev.len() {
                            assert(views_of(prev)[i] == pad_cells(orig, prev.len() as nat)[i]);
                            assert(cells@[i] == prev[i]);
                        } else {
                            assert(cells@[i] == CellValue::Null);
                        }
                    }
                    assert(views_of(cells@) =~= pad_cells(orig, cells@.len() as nat));
                }
            }
        }
        let row = Row::new(cells, self.key_columns.as_slice(), source_line);
        let h = row.key_hash;
        let idx = self.rows.len();
        self.rows.push(row);
        self.row_index.insert(h, idx);
        proof {
            let post = *self;
            let pre = *old(self);
            assert(post.rows@[idx as int]@.cells =~= pad_cells(orig, ncols as nat));
            assert forall|i: int| 0 <= i < post.rows@.len() implies row_keyed(
                (#[trigger] post.rows@[i])@,
                post.key_columns@,
            ) && post.rows@[i]@.cells.len() == post.columns@.len() by {
                if i < idx {
                    assert(post.rows@[i] == pre.rows@[i]);
                }
            }
            assert forall|hh: u64| #[trigger]
                post.row_index@.contains_key(hh) implies post.row_index@[hh] < post.rows@.len()
                && post.rows@[post.row_index@[hh] as int]@.key_hash == hh by {
                if hh != h {
                    assert(pre.row_index@.contains_key(hh));
                    assert(post.rows@[pre.row_index@[hh] as int] == pre.rows@[pre.row_index@[
                        hh] as int]);
                }
            }
            assert forall|i: int| 0 <= i < post.rows@.len() implies post.row_index@.contains_key(
                (#[trigger] post.rows@[i])@.key_hash,
            ) && post.row_index@[post.rows@[i]@.key_hash] >= i by {
                if i < idx {
                    assert(post.rows@[i] == pre.rows@[i]);
                    assert(pre.row_index@.contains_key(pre.rows@[i]@.key_hash));
                }
            }
        }
    }

    /// The row the index holds for a key hash: the last row carrying that
    /// hash, or nothing when no row does.
    pub fn get_row_by_hash(&self, hash: u64) -> (r: Option<&Row>)
        requires
            self.wf(),
        ensures
            match r {
                Some(row) => self.row_index@.contains_key(hash) && row@ == self.rows@[self.row_index@[hash] as int]@
                    && row@.key_hash == hash,
                None => !self.row_index@.contains_key(hash) && forall|i: int|
                    0 <= i < self.rows@.len() ==> (#[trigger] self.rows@[i])@.key_hash != hash,
            },
    {
        match self.row_index.get(&hash) {
            Some(idx) => Some(&self.rows[*idx]),
            None => None,
        }
    }

    /// The position of the column with the given name, searching in order.
    pub fn column_index(&self, name: &str) -> (r: Option<usize>)
        ensures
            match r {
                Some(i) => i < self.columns@.len() && self.columns@[i as int]@.name == name@
                    && forall|j: int|
                    0 <= j < i ==> (#[trigger] self.columns@[j])@.name != name@,
                None => forall|j: int|
                    0 <= j < self.columns@.len() ==> (#[trigger] self.columns@[j])@.name != name@,
            },
    {
        let n = self.columns.len();
        let mut i: usize = 0;
        while i < n
            invariant
                0 <= i <= n == self.columns@.len(),
                forall|j: int| 0 <= j < i ==> (#[trigger] self.columns@[j])@.name != name@,
            decreases n - i,
        {
            if crate::text::str_eq(self.columns[i].name.as_str(), name) {
                return Some(i);
            }
            i = i + 1;
        }
        None
    }

    /// The column with the given name.
    pub fn column(&self, name: &str) -> (r: Option<&Column>)
        ensures
            match r {
                Some(c) => exists|i: int|
                    0 <= i < self.columns@.len() && (#[trigger] self.columns@[i])@ == c@
                        && c@.name == name@,
                None => forall|j: int|
                    0 <= j < self.columns@.len() ==> (#[trigger] self.columns@[j])@.name != name@,
            },
    {
        match self.column_index(name) {
            Some(i) => Some(&self.columns[i]),
            None => None,
        }
    }

    /// Rebuilds the key-hash index from the rows, mapping every hash that
    /// occurs to the last row position carrying it.
    fn rebuild_row_index(&mut self)
        ensures
            final (self).columns == old(self).columns,
            final (self).rows == old(self).rows,
            final (self).key_columns == old(self).key_columns,
            forall|h: u64| #[trigger]
                final (self).row_index@.contains_key(h) ==> final (self).row_index@[h] < final(self).rows@.len() && final (self).rows@[final (self).row_index@[h] as int]@.key_hash
                    == h,
            forall|i: int|
                0 <= i < final (self).rows@.len() ==> final (self).row_index@.contains_key(
                    (#[trigger] final (self).rows@[i])@.key_hash,
                ) && final (self).row_index@[final (self).rows@[i]@.key_hash] >= i,
    {
        self.row_index.clear();
        let n = self.rows.len();
        let mut i: usize = 0;
        while i < n
            invariant
                0 <= i <= n == self.rows@.len(),
                self.columns == old(self).columns,
                self.rows == old(self).rows,
                self.key_columns == old(self).key_columns,
                forall|h: u64| #[trigger]
                    self.row_index@.contains_key(h) ==> self.row_index@[h] < i
                        && self.rows@[self.row_index@[h] as int]@.key_hash == h,
                forall|j: int|
                    0 <= j < i ==> self.row_index@.contains_key(
                        (#[trigger] self.rows@[j])@.key_hash,
                    ) && self.row_index@[self.rows@[j]@.key_hash] >= j,
            decreases n - i,
        {
            let h = self.rows[i].key_hash;
            self.row_index.insert(h, i);
            i = i + 1;
        }
    }

    /// Designates key columns by position, recomputes every row's key and
    /// rebuilds the index.  The rows' cells and source lines stay as they
    /// were.
    pub fn set_key_column_indices(&mut self, indices: Vec<usize>)
        requires
            old(self).wf(),
        ensures
            final (self).wf(),
            final (self).columns == old(self).columns,
            final (self).key_columns@ == indices@,
            final (self).rows@.len() == old(self).rows@.len(),
            forall|i: int|
                0 <= i < old(self).rows@.len() ==> (#[trigger] final (self).rows@[i])@.cells
                    == old(self).rows@[i]@.cells && final (self).rows@[i]@.source_line == old(self).rows@[i]@.source_line,
    {
        self.key_columns = indices;
        let n = self.rows.len();
        let mut i: usize = 0;
        while i < n
            invariant
                0 <= i <= n == self.rows@.len(),
                self.columns == old(self).columns,
                self.key_columns@ == indices@,
                forall|j: int| i <= j < n ==> self.rows@[j] == old(self).rows@[j],
                forall|j: int|
                    0 <= j < i ==> (#[trigger] self.rows@[j])@.cells == old(self).rows@[j]@.cells
                        && self.rows@[j]@.source_line == old(self).rows@[j]@.source_line
                        && row_keyed(self.rows@[j]@, indices@),
            decreases n - i,
        {
            let mut row = self.rows.remove(i);
            row.recompute_key(self.key_columns.as_slice());
            self.rows.insert(i, row);
            i = i + 1;
        }
        self.rebuild_row_index();
        proof {
            assert forall|i: int| 0 <= i < final (self).rows@.len() implies (#[trigger] final(self).rows@[i])@.cells.len() == final (self).columns@.len() by {
                assert(old(self).rows@[i]@.cells.len() == old(self).columns@.len());
            }
        }
    }

    /// Designates key columns by name, in the order given, ignoring names
    /// that match no column; recomputes every row's key and rebuilds the
    /// index.
    pub fn set_key_columns(&mut self, key_names: &[String])
        requires
            old(self).wf(),
        ensures
            final (self).wf(),
            final (self).columns == old(self).columns,
            final (self).key_columns@ == resolve_key_names(
                old(self).columns@.map_values(|c: Column| c@),
                key_names@.map_values(|s: String| s@),
            ),
            final (self).rows@.len() == old(self).rows@.len(),
            forall|i: int|
                0 <= i < old(self).rows@.len() ==> (#[trigger] final (self).rows@[i])@.cells
                    == old(self).rows@[i]@.cells && final (self).rows@[i]@.source_line == old(self).rows@[i]@.source_line,
    {
        let indices = resolve_column_names(self, key_names);
        self.set_key_column_indices(indices);
    }

    /// Reorders the rows by the named column and rebuilds the index; rows
    /// keep their values, only their order changes.  When no column carries
    /// the name, the table stays as it is.
    pub fn sort_by_column(&mut self, column_name: &str)
        requires
            old(self).wf(),
        ensures
            final (self).wf(),
            final (self).columns == old(self).columns,
            final (self).key_columns == old(self).key_columns,
            final (self).rows@.len() == old(self).rows@.len(),
            final (self).rows_v().to_multiset() == old(self).rows_v().to_multiset(),
            match col_position(old(self).columns@.map_values(|c: Column| c@), column_name@) {
                Some(c) => rows_sorted_at(final (self).rows_v(), c),
                None => final (self).rows == old(self).rows,
            },
    {
        broadcast use vstd::seq_lib::group_to_multiset_ensures;

        let ghost colsv = self.columns@.map_values(|c: Column| c@);
        match self.column_index(column_name) {
            None => {
                proof {
                    lemma_col_position_none(colsv, column_name@);
                }
            },
            Some(c) => {
                proof {
                    lemma_col_position_of_first(colsv, column_name@, c as int);
                }
                insertion_sort_rows(&mut self.rows, c);
                self.rebuild_row_index();
                proof {
                    let post = *self;
                    let pre = *old(self);
                    assert forall|i: int| 0 <= i < post.rows@.len() implies row_keyed(
                        (#[trigger] post.rows@[i])@,
                        post.key_columns@,
                    ) && post.rows@[i]@.cells.len() == post.columns@.len() by {
                        assert(post.rows_v()[i] == post.rows@[i]@);
                        assert(post.rows_v().to_multiset().count(post.rows_v()[i]) > 0);
                        assert(pre.rows_v().contains(post.rows_v()[i]));
                        let j = choose|j: int|
                            0 <= j < pre.rows_v().len() && pre.rows_v()[j] == post.rows_v()[i];
                        assert(pre.rows@[j]@ == post.rows@[i]@);
                    }
                }
            },
        }
    }

    /// The number of rows.
    pub fn row_count(&self) -> (n: usize)
        ensures
            n == self.rows@.len(),
    {
        self.rows.len()
    }

    /// The number of columns.
    pub fn column_count(&self) -> (n: usize)
        ensures
            n == self.columns@.len(),
    {
        self.columns.len()
    }
}

} // verus!
