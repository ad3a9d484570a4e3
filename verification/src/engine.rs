//! The diff engine: schema comparison, row matching and cell comparison
//! combined into one result with aggregate statistics.

use crate::cell_diff::comparator_eq;
use crate::cell_diff::CellComparator;
use crate::config::names_v;
use crate::config::Config;
use crate::row_diff::covers_new;
use crate::row_diff::distinct_keys;
use crate::row_diff::hash_compatible;
use crate::row_diff::new_row_covered;
use crate::row_diff::spec_pairs;
use crate::row_diff::RowMatcher;
use crate::row_diff::RowPairing;
use crate::schema::Column;
use crate::schema::ColumnV;
use crate::schema_diff::change_views;
use crate::schema_diff::spec_schema_changes;
use crate::schema_diff::SchemaChange;
use crate::schema_diff::SchemaDiff;
use crate::table::col_position;
use crate::table::lemma_col_position_none;
use crate::table::lemma_col_position_of_first;
use crate::table::Row;
use crate::table::RowV;
use crate::table::Table;
use crate::text::str_eq;
use crate::value::CellV;
use crate::value::CellValue;
use vstd::prelude::*;
use vstd::set_lib::lemma_int_range;

verus! {

broadcast use vstd::set_lib::group_set_lib_default;

/// A change to one cell of a matched row pair.
#[derive(Debug)]
pub struct CellChange {
    pub column: String,
    pub column_index: usize,
    pub old_value: CellValue,
    pub new_value: CellValue,
}

/// The mathematical view of a cell change.
pub struct CellChangeV {
    pub column: Seq<char>,
    pub column_index: usize,
    pub old_value: CellV,
    pub new_value: CellV,
}

impl View for CellChange {
    type V = CellChangeV;

    open spec fn view(&self) -> CellChangeV {
        CellChangeV {
            column: self.column@,
            column_index: self.column_index,
            old_value: self.old_value@,
            new_value: self.new_value@,
        }
    }
}

impl Clone for CellChange {
    /// Cloning keeps the change's column and values.
    fn clone(&self) -> (c: CellChange)
        ensures
            c@ == self@,
    {
        CellChange {
            column: self.column.clone(),
            column_index: self.column_index,
            old_value: self.old_value.clone(),
            new_value: self.new_value.clone(),
        }
    }
}

/// The views of a cell-change list.
pub open spec fn cell_change_views(s: Seq<CellChange>) -> Seq<CellChangeV> {
    s.map_values(|c: CellChange| c@)
}

/// A change to one row: added in the new table, removed from the old one, or
/// matched with differing cells.
#[derive(Debug)]
pub enum RowChange {
    Added { key: String, row: Row },
    Removed { key: String, row: Row },
    Modified { key: String, old_row: Row, new_row: Row, changes: Vec<CellChange> },
}

/// The mathematical view of a row change.
pub enum RowChangeV {
    Added { key: Seq<char>, row: RowV },
    Removed { key: Seq<char>, row: RowV },
    Modified { key: Seq<char>, old_row: RowV, new_row: RowV, changes: Seq<CellChangeV> },
}

impl View for RowChange {
    type V = RowChangeV;

    open spec fn view(&self) -> RowChangeV {
        match self {
            RowChange::Added { key, row } => RowChangeV::Added { key: key@, row: row@ },
            RowChange::Removed { key, row } => RowChangeV::Removed { key: key@, row: row@ },
            RowChange::Modified { key, old_row, new_row, changes } => RowChangeV::Modified {
                key: key@,
                old_row: old_row@,
                new_row: new_row@,
                changes: cell_change_views(changes@),
            },
        }
    }
}

impl RowChange {
    /// The composite key of the row this change speaks of.
    pub fn key(&self) -> (k: &String)
        ensures
            k@ == match self@ {
                RowChangeV::Added { key, .. } => key,
                RowChangeV::Removed { key, .. } => key,
                RowChangeV::Modified { key, .. } => key,
            },
    {
        match self {
            RowChange::Added { key, .. } => key,
            RowChange::Removed { key, .. } => key,
            RowChange::Modified { key, .. } => key,
        }
    }
}

/// Aggregate statistics of one diff.
#[derive(Debug, Clone, Copy, PartialEq, Eq, Structural)]
pub struct DiffStats {
    pub rows_added: usize,
    pub rows_removed: usize,
    pub rows_modified: usize,
    pub rows_unchanged: usize,
    pub cells_changed: usize,
    pub old_row_count: usize,
    pub new_row_count: usize,
}

impl Default for DiffStats {
    /// All counts start at zero.
    fn default() -> (s: DiffStats)
        ensures
            s.rows_added == 0 && s.rows_removed == 0 && s.rows_modified == 0 && s.rows_unchanged
                == 0 && s.cells_changed == 0 && s.old_row_count == 0 && s.new_row_count == 0,
    {
        DiffStats {
            rows_added: 0,
            rows_removed: 0,
            rows_modified: 0,
            rows_unchanged: 0,
            cells_changed: 0,
            old_row_count: 0,
            new_row_count: 0,
        }
    }
}

impl DiffStats {
    /// Whether any row was added, removed or modified.
    pub fn has_changes(&self) -> (r: bool)
        ensures
            r == (self.rows_added > 0 || self.rows_removed > 0 || self.rows_modified > 0),
    {
        self.rows_added > 0 || self.rows_removed > 0 || self.rows_modified > 0
    }
}

/// The added rows recorded from position `i` on, in emission order.
pub open spec fn added_views(s: Seq<RowChange>, i: int) -> Seq<RowV>
    decreases s.len() - i,
{
    if !(0 <= i < s.len()) {
        Seq::empty()
    } else {
        let rest = added_views(s, i + 1);
        match s[i]@ {
            RowChangeV::Added { row, .. } => seq![row] + rest,
            _ => rest,
        }
    }
}

/// The removed rows recorded from position `i` on, in emission order.
pub open spec fn removed_views(s: Seq<RowChange>, i: int) -> Seq<RowV>
    decreases s.len() - i,
{
    if !(0 <= i < s.len()) {
        Seq::empty()
    } else {
        let rest = removed_views(s, i + 1);
        match s[i]@ {
            RowChangeV::Removed { row, .. } => seq![row] + rest,
            _ => rest,
        }
    }
}

/// The modified row pairs recorded from position `i` on, in emission order:
/// the old row, the new row, and the cell changes of each.
pub open spec fn modified_views(s: Seq<RowChange>, i: int) -> Seq<(RowV, RowV, Seq<CellChangeV>)>
    decreases s.len() - i,
{
    if !(0 <= i < s.len()) {
        Seq::empty()
    } else {
        let rest = modified_views(s, i + 1);
        match s[i]@ {
            RowChangeV::Modified { old_row, new_row, changes, .. } => seq![
                (old_row, new_row, changes),
            ] + rest,
            _ => rest,
        }
    }
}

/// The result of comparing two tables: the ordered schema changes, the
/// ordered row changes, and the statistics.
#[derive(Debug)]
pub struct DiffResult {
    pub schema_changes: Vec<SchemaChange>,
    pub row_changes: Vec<RowChange>,
    pub stats: DiffStats,
}

impl Default for DiffResult {
    /// The default result is empty.
    fn default() -> (r: DiffResult)
        ensures
            r.schema_changes@.len() == 0,
            r.row_changes@.len() == 0,
    {
        DiffResult::new()
    }
}

impl DiffResult {
    /// An empty result.
    pub fn new() -> (r: DiffResult)
        ensures
            r.schema_changes@.len() == 0,
            r.row_changes@.len() == 0,
            r.stats == (DiffStats {
                rows_added: 0,
                rows_removed: 0,
                rows_modified: 0,
                rows_unchanged: 0,
                cells_changed: 0,
                old_row_count: 0,
                new_row_count: 0,
            }),
    {
        DiffResult { schema_changes: Vec::new(), row_changes: Vec::new(), stats: DiffStats::default() }
    }

    /// Whether the diff found any schema change or any row change.
    pub fn has_changes(&self) -> (r: bool)
        ensures
            r == (self.schema_changes@.len() > 0 || self.stats.rows_added > 0
                || self.stats.rows_removed > 0 || self.stats.rows_modified > 0),
    {
        self.schema_changes.len() > 0 || self.stats.has_changes()
    }

    /// The added rows, in emission order.
    pub fn added_rows(&self) -> (rows: Vec<&Row>)
        ensures
            rows@.map_values(|r: &Row| r@) == added_views(self.row_changes@, 0),
    {
        let ghost total = added_views(self.row_changes@, 0);
        let mut rows: Vec<&Row> = Vec::new();
        let mut i: usize = 0;
        while i < self.row_changes.len()
            invariant
                0 <= i <= self.row_changes@.len(),
                total == added_views(self.row_changes@, 0),
                total == rows@.map_values(|r: &Row| r@) + added_views(
                    self.row_changes@,
                    i as int,
                ),
            decreases self.row_changes@.len() - i,
        {
            let ghost pre = rows@;
            match &self.row_changes[i] {
                RowChange::Added { row, .. } => {
                    rows.push(row);
                    proof {
                        assert(rows@.map_values(|r: &Row| r@) =~= pre.map_values(|r: &Row| r@)
                            + seq![rows@.last()@]);
                    }
                },
                _ => {},
            }
            i = i + 1;
        }
        proof {
            assert(added_views(self.row_changes@, self.row_changes@.len() as int)
                =~= Seq::<RowV>::empty());
            assert(rows@.map_values(|r: &Row| r@) =~= total);
        }
        rows
    }

    /// The removed rows, in emission order.
    pub fn removed_rows(&self) -> (rows: Vec<&Row>)
        ensures
            rows@.map_values(|r: &Row| r@) == removed_views(self.row_changes@, 0),
    {
        let ghost total = removed_views(self.row_changes@, 0);
        let mut rows: Vec<&Row> = Vec::new();
        let mut i: usize = 0;
        while i < self.row_changes.len()
            invariant
                0 <= i <= self.row_changes@.len(),
                total == removed_views(self.row_changes@, 0),
                total == rows@.map_values(|r: &Row| r@) + removed_views(
                    self.row_changes@,
                    i as int,
                ),
            decreases self.row_changes@.len() - i,
        {
            let ghost pre = rows@;
            match &self.row_changes[i] {
                RowChange::Removed { row, .. } => {
                    rows.push(row);
                    proof {
                        assert(rows@.map_values(|r: &Row| r@) =~= pre.map_values(|r: &Row| r@)
                            + seq![rows@.last()@]);
                    }
                },
                _ => {},
            }
            i = i + 1;
        }
        proof {
            assert(removed_views(self.row_changes@, self.row_changes@.len() as int)
                =~= Seq::<RowV>::empty());
            assert(rows@.map_values(|r: &Row| r@) =~= total);
        }
        rows
    }

    /// The modified row pairs with their cell changes, in emission order.
    pub fn modified_rows(&self) -> (rows: Vec<(&Row, &Row, &Vec<CellChange>)>)
        ensures
            rows@.map_values(
                |t: (&Row, &Row, &Vec<CellChange>)| (t.0@, t.1@, cell_change_views(t.2@)),
            ) == modified_views(self.row_changes@, 0),
    {
        let ghost total = modified_views(self.row_changes@, 0);
        let mut rows: Vec<(&Row, &Row, &Vec<CellChange>)> = Vec::new();
        let mut i: usize = 0;
        while i < self.row_changes.len()
            invariant
                0 <= i <= self.row_changes@.len(),
                total == modified_views(self.row_changes@, 0),
                total == rows@.map_values(
                    |t: (&Row, &Row, &Vec<CellChange>)| (t.0@, t.1@, cell_change_views(t.2@)),
                ) + modified_views(self.row_changes@, i as int),
            decreases self.row_changes@.len() - i,
        {
            let ghost pre = rows@;
            match &self.row_changes[i] {
                RowChange::Modified { old_row, new_row, changes, .. } => {
                    rows.push((old_row, new_row, changes));
                    proof {
                        let f = |t: (&Row, &Row, &Vec<CellChange>)|
                            (t.0@, t.1@, cell_change_views(t.2@));
                        assert(rows@.map_values(f) =~= pre.map_values(f) + seq![
                            f(rows@.last()),
                        ]);
                    }
                },
                _ => {},
            }
            i = i + 1;
        }
        proof {
            let f = |t: (&Row, &Row, &Vec<CellChange>)| (t.0@, t.1@, cell_change_views(t.2@));
            assert(modified_views(self.row_changes@, self.row_changes@.len() as int) =~= Seq::<
                (RowV, RowV, Seq<CellChangeV>),
            >::empty());
            assert(rows@.map_values(f) =~= total);
        }
        rows
    }
}

/// Whether a name occurs in a list of names.
pub open spec fn name_in(names: Seq<Seq<char>>, name: Seq<char>) -> bool {
    exists|k: int| 0 <= k < names.len() && names[k] == name
}

fn names_contain(names: &Vec<String>, name: &str) -> (r: bool)
    ensures
        r == name_in(names_v(names@), name@),
{
    let mut i: usize = 0;
    while i < names.len()
        invariant
            0 <= i <= names@.len(),
            forall|k: int| 0 <= k < i ==> (#[trigger] names@[k])@ != name@,
        decreases names@.len() - i,
    {
        if str_eq(names[i].as_str(), name) {
            proof {
                assert(names_v(names@)[i as int] == name@);
            }
            return true;
        }
        i = i + 1;
    }
    proof {
        assert forall|k: int| 0 <= k < names_v(names@).len() implies #[trigger] names_v(names@)[k]
            != name@ by {
            assert(names@[k]@ != name@);
        }
    }
    false
}

/// The cell of a row at a column position, a missing cell reading as null.
pub open spec fn cell_at(cells: Seq<CellV>, i: int) -> CellV {
    if 0 <= i < cells.len() {
        cells[i]
    } else {
        CellV::Null
    }
}

/// The cell changes of a matched row pair, scanning the old columns from
/// position `i`: ignored columns are skipped, a column present in both
/// tables compares the old cell at the old position against the new cell at
/// the new position, and a column present on one side only contributes
/// nothing.
pub open spec fn row_cell_changes(
    oldc: Seq<ColumnV>,
    newc: Seq<ColumnV>,
    old_cells: Seq<CellV>,
    new_cells: Seq<CellV>,
    ignore: Seq<Seq<char>>,
    cmp: CellComparator,
    i: int,
) -> Seq<CellChangeV>
    decreases oldc.len() - i,
{
    if !(0 <= i < oldc.len()) {
        Seq::empty()
    } else {
        let rest = row_cell_changes(oldc, newc, old_cells, new_cells, ignore, cmp, i + 1);
        if name_in(ignore, oldc[i].name) {
            rest
        } else {
            match col_position(newc, oldc[i].name) {
                Some(j) => {
                    let ov = cell_at(old_cells, i);
                    let nv = cell_at(new_cells, j);
                    if !comparator_eq(cmp, ov, nv) {
                        seq![
                            CellChangeV {
                                column: oldc[i].name,
                                column_index: i as usize,
                                old_value: ov,
                                new_value: nv,
                            },
                        ] + rest
                    } else {
                        rest
                    }
                },
                None => rest,
            }
        }
    }
}

/// What one emitted row change says: an added row is a new-table row under
/// its own key, a removed row an old-table row under its own key, and a
/// modified entry joins an old and a new row of equal key with their exact,
/// non-empty cell-change list.
pub open spec fn row_change_ok(
    c: RowChangeV,
    old_t: Table,
    new_t: Table,
    ignore: Seq<Seq<char>>,
    cmp: CellComparator,
) -> bool {
    match c {
        RowChangeV::Added { key, row } => (exists|j: int|
            0 <= j < new_t.rows@.len() && (#[trigger] new_t.rows@[j])@ == row) && key == row.key,
        RowChangeV::Removed { key, row } => (exists|i: int|
            0 <= i < old_t.rows@.len() && (#[trigger] old_t.rows@[i])@ == row) && key == row.key,
        RowChangeV::Modified { key, old_row, new_row, changes } => {
            &&& (exists|i: int| 0 <= i < old_t.rows@.len() && (#[trigger] old_t.rows@[i])@ == old_row)
            &&& (exists|j: int| 0 <= j < new_t.rows@.len() && (#[trigger] new_t.rows@[j])@ == new_row)
            &&& old_row.key == new_row.key
            &&& key == old_row.key
            &&& changes == row_cell_changes(
                old_t.columns@.map_values(|c: Column| c@),
                new_t.columns@.map_values(|c: Column| c@),
                old_row.cells,
                new_row.cells,
                ignore,
                cmp,
                0,
            )
            &&& changes.len() > 0
        },
    }
}

/// The views of a row-change list.
pub open spec fn row_change_views(s: Seq<RowChange>) -> Seq<RowChangeV> {
    s.map_values(|c: RowChange| c@)
}

/// The added row a single change records, if any.
pub open spec fn added_of(x: RowChange) -> Seq<RowV> {
    match x@ {
        RowChangeV::Added { row, .. } => seq![row],
        _ => Seq::empty(),
    }
}

/// The removed row a single change records, if any.
pub open spec fn removed_of(x: RowChange) -> Seq<RowV> {
    match x@ {
        RowChangeV::Removed { row, .. } => seq![row],
        _ => Seq::empty(),
    }
}

/// The modified pair a single change records, if any.
pub open spec fn modified_of(x: RowChange) -> Seq<(RowV, RowV, Seq<CellChangeV>)> {
    match x@ {
        RowChangeV::Modified { old_row, new_row, changes, .. } => seq![(old_row, new_row, changes)],
        _ => Seq::empty(),
    }
}

/// The changed cells a single change records.
pub open spec fn cells_of(x: RowChange) -> nat {
    match x@ {
        RowChangeV::Modified { changes, .. } => changes.len(),
        _ => 0,
    }
}

/// The total number of changed cells the modified entries from position `i`
/// on record.
pub open spec fn cells_changed_from(s: Seq<RowChange>, i: int) -> nat
    decreases s.len() - i,
{
    if !(0 <= i < s.len()) {
        0
    } else {
        (cells_of(s[i]) + cells_changed_from(s, i + 1)) as nat
    }
}

proof fn lemma_added_views_push(s: Seq<RowChange>, x: RowChange, i: int)
    requires
        0 <= i <= s.len(),
    ensures
        added_views(s.push(x), i) == added_views(s, i) + added_of(x),
    decreases s.len() - i,
{
    if i < s.len() {
        lemma_added_views_push(s, x, i + 1);
        assert(s.push(x)[i] == s[i]);
        assert(added_views(s.push(x), i) =~= added_views(s, i) + added_of(x));
    } else {
        assert(added_views(s.push(x), i + 1) =~= Seq::<RowV>::empty());
        assert(s.push(x)[i] == x);
        assert(added_views(s.push(x), i) =~= added_views(s, i) + added_of(x));
    }
}

proof fn lemma_removed_views_push(s: Seq<RowChange>, x: RowChange, i: int)
    requires
        0 <= i <= s.len(),
    ensures
        removed_views(s.push(x), i) == removed_views(s, i) + removed_of(x),
    decreases s.len() - i,
{
    if i < s.len() {
        lemma_removed_views_push(s, x, i + 1);
        assert(s.push(x)[i] == s[i]);
        assert(removed_views(s.push(x), i) =~= removed_views(s, i) + removed_of(x));
    } else {
        assert(removed_views(s.push(x), i + 1) =~= Seq::<RowV>::empty());
        assert(s.push(x)[i] == x);
        assert(removed_views(s.push(x), i) =~= removed_views(s, i) + removed_of(x));
    }
}

proof fn lemma_modified_views_push(s: Seq<RowChange>, x: RowChange, i: int)
    requires
        0 <= i <= s.len(),
    ensures
        modified_views(s.push(x), i) == modified_views(s, i) + modified_of(x),
    decreases s.len() - i,
{
    if i < s.len() {
        lemma_modified_views_push(s, x, i + 1);
        assert(s.push(x)[i] == s[i]);
        assert(modified_views(s.push(x), i) =~= modified_views(s, i) + modified_of(x));
    } else {
        assert(modified_views(s.push(x), i + 1) =~= Seq::<(RowV, RowV, Seq<CellChangeV>)>::empty());
        assert(s.push(x)[i] == x);
        assert(modified_views(s.push(x), i) =~= modified_views(s, i) + modified_of(x));
    }
}

proof fn lemma_cells_changed_push(s: Seq<RowChange>, x: RowChange, i: int)
    requires
        0 <= i <= s.len(),
    ensures
        cells_changed_from(s.push(x), i) == cells_changed_from(s, i) + cells_of(x),
    decreases s.len() - i,
{
    if i < s.len() {
        lemma_cells_changed_push(s, x, i + 1);
        assert(s.push(x)[i] == s[i]);
    } else {
        assert(cells_changed_from(s.push(x), i + 1) == 0);
        assert(s.push(x)[i] == x);
    }
}

/// The row changes one pair yields: a matched pair with differing cells
/// yields one modified entry carrying its exact cell-change list, a matched
/// pair with no differing cells yields nothing, and a removed or added pair
/// yields its entry under the row's own key.
pub open spec fn change_of_pair(
    p: RowPairing,
    old_t: Table,
    new_t: Table,
    ignore: Seq<Seq<char>>,
    cmp: CellComparator,
) -> Seq<RowChangeV> {
    match p {
        RowPairing::Matched { old_index, new_index } => {
            let old_row = old_t.rows@[old_index as int]@;
            let new_row = new_t.rows@[new_index as int]@;
            let ch = row_cell_changes(
                old_t.columns@.map_values(|c: Column| c@),
                new_t.columns@.map_values(|c: Column| c@),
                old_row.cells,
                new_row.cells,
                ignore,
                cmp,
                0,
            );
            if ch.len() > 0 {
                seq![RowChangeV::Modified { key: old_row.key, old_row, new_row, changes: ch }]
            } else {
                Seq::empty()
            }
        },
        RowPairing::RemovedRow { old_index } => {
            let row = old_t.rows@[old_index as int]@;
            seq![RowChangeV::Removed { key: row.key, row }]
        },
        RowPairing::AddedRow { new_index } => {
            let row = new_t.rows@[new_index as int]@;
            seq![RowChangeV::Added { key: row.key, row }]
        },
    }
}

/// The row changes of the pairs from position `k` on, in pair order.
pub open spec fn changes_of_pairs(
    pairs: Seq<RowPairing>,
    old_t: Table,
    new_t: Table,
    ignore: Seq<Seq<char>>,
    cmp: CellComparator,
    k: int,
) -> Seq<RowChangeV>
    decreases pairs.len() - k,
{
    if !(0 <= k < pairs.len()) {
        Seq::empty()
    } else {
        change_of_pair(pairs[k], old_t, new_t, ignore, cmp) + changes_of_pairs(
            pairs,
            old_t,
            new_t,
            ignore,
            cmp,
            k + 1,
        )
    }
}

/// The comparator a configuration's relaxation settings select.
pub open spec fn comparator_of(c: Config) -> CellComparator {
    CellComparator {
        ignore_case: c.ignore_case,
        ignore_whitespace: c.ignore_whitespace,
        numeric_tolerance: c.numeric_tolerance,
    }
}

/// The diff engine: the configuration plus the cell comparator built from
/// its relaxation settings.
#[derive(Debug)]
pub struct DiffEngine {
    pub config: Config,
    pub cell_comparator: CellComparator,
}

impl DiffEngine {
    /// An engine for the given configuration; the comparator carries the
    /// configuration's relaxations.
    pub fn new(config: Config) -> (e: DiffEngine)
        ensures
            e.config == config,
            e.cell_comparator.ignore_case == config.ignore_case,
            e.cell_comparator.ignore_whitespace == config.ignore_whitespace,
            e.cell_comparator.numeric_tolerance == config.numeric_tolerance,
    {
        let cell_comparator = CellComparator::new(
            config.ignore_case,
            config.ignore_whitespace,
            config.numeric_tolerance,
        );
        DiffEngine { config, cell_comparator }
    }

    /// The cell changes of one matched row pair.
    fn compare_row_cells(
        &self,
        old_row: &Row,
        new_row: &Row,
        old_table: &Table,
        new_table: &Table,
    ) -> (changes: Vec<CellChange>)
        ensures
            cell_change_views(changes@) == row_cell_changes(
                old_table.columns@.map_values(|c: Column| c@),
                new_table.columns@.map_values(|c: Column| c@),
                old_row@.cells,
                new_row@.cells,
                names_v(self.config.ignore_columns@),
                self.cell_comparator,
                0,
            ),
    {
        let ghost oldc = old_table.columns@.map_values(|c: Column| c@);
        let ghost newc = new_table.columns@.map_values(|c: Column| c@);
        let ghost ignore = names_v(self.config.ignore_columns@);
        let mut changes: Vec<CellChange> = Vec::new();
        let old_n = old_table.columns.len();
        let mut i: usize = 0;
        while i < old_n
            invariant
                0 <= i <= old_n == old_table.columns@.len(),
                oldc == old_table.columns@.map_values(|c: Column| c@),
                newc == new_table.columns@.map_values(|c: Column| c@),
                ignore == names_v(self.config.ignore_columns@),
                oldc.len() == old_n,
                row_cell_changes(oldc, newc, old_row@.cells, new_row@.cells, ignore, self.cell_comparator, 0)
                    == cell_change_views(changes@) + row_cell_changes(
                    oldc,
                    newc,
                    old_row@.cells,
                    new_row@.cells,
                    ignore,
                    self.cell_comparator,
                    i as int,
                ),
            decreases old_n - i,
        {
            let ghost pre = changes@;
            let name = &old_table.columns[i].name;
            if !names_contain(&self.config.ignore_columns, name.as_str()) {
                match new_table.column_index(name.as_str()) {
                    Some(j) => {
                        proof {
                            lemma_col_position_of_first(newc, oldc[i as int].name, j as int);
                        }
                        let old_value = match old_row.get(i) {
                            Some(c) => c.clone(),
                            None => CellValue::Null,
                        };
                        let new_value = match new_row.get(j) {
                            Some(c) => c.clone(),
                            None => CellValue::Null,
                        };
                        proof {
                            assert(old_value@ == cell_at(old_row@.cells, i as int));
                            assert(new_value@ == cell_at(new_row@.cells, j as int));
                        }
                        if !self.cell_comparator.equal(&old_value, &new_value) {
                            changes.push(
                                CellChange {
                                    column: name.clone(),
                                    column_index: i,
                                    old_value,
                                    new_value,
                                },
                            );
                            proof {
                                assert(cell_change_views(changes@) =~= cell_change_views(pre)
                                    + seq![
                                    CellChangeV {
                                        column: oldc[i as int].name,
                                        column_index: i,
                                        old_value: cell_at(old_row@.cells, i as int),
                                        new_value: cell_at(new_row@.cells, j as int),
                                    },
                                ]);
                            }
                        }
                    },
                    None => {
                        proof {
                            lemma_col_position_none(newc, oldc[i as int].name);
                        }
                    },
                }
            }
            i = i + 1;
        }
        proof {
            assert(row_cell_changes(
                oldc,
                newc,
                old_row@.cells,
                new_row@.cells,
                ignore,
                self.cell_comparator,
                old_n as int,
            ) =~= Seq::<CellChangeV>::empty());
            assert(cell_change_views(changes@) =~= row_cell_changes(
                oldc,
                newc,
                old_row@.cells,
                new_row@.cells,
                ignore,
                self.cell_comparator,
                0,
            ));
        }
        changes
    }

    /// Compares two tables: records the raw row counts, the ordered schema
    /// changes, and the row changes of the canonical pairing in pair order:
    /// a matched pair is emitted as modified exactly when its cell-change
    /// list is non-empty and is counted unchanged otherwise, and every
    /// removed or added pair is emitted.  Each statistic counts its own kind
    /// of entry.  The removed, modified and unchanged rows together account
    /// for every old row; when keys are distinct within each table and
    /// hashes collide only on equal keys, the added, modified and unchanged
    /// rows together account for every new row, which makes the four counts
    /// a partition of all emitted row pairs.
    #[verifier::rlimit(100)]
    pub fn diff(&self, old_table: &Table, new_table: &Table) -> (r: DiffResult)
        requires
            old_table.wf(),
            new_table.wf(),
        ensures
            r.stats.old_row_count == old_table.rows@.len(),
            r.stats.new_row_count == new_table.rows@.len(),
            change_views(r.schema_changes@) == spec_schema_changes(
                old_table.columns@.map_values(|c: Column| c@),
                new_table.columns@.map_values(|c: Column| c@),
            ),
            forall|k: int|
                0 <= k < r.row_changes@.len() ==> row_change_ok(
                    (#[trigger] r.row_changes@[k])@,
                    *old_table,
                    *new_table,
                    names_v(self.config.ignore_columns@),
                    self.cell_comparator,
                ),
            // the emitted changes are exactly those of the canonical pairing,
            // one group per pair in pair order: a matched pair yields one
            // modified entry exactly when its cell-change list is non-empty,
            // a removed or added pair yields its entry
            row_change_views(r.row_changes@) == changes_of_pairs(
                spec_pairs(*old_table, *new_table),
                *old_table,
                *new_table,
                names_v(self.config.ignore_columns@),
                self.cell_comparator,
                0,
            ),
            // each statistic counts the entries of its own kind
            r.stats.rows_added == added_views(r.row_changes@, 0).len(),
            r.stats.rows_removed == removed_views(r.row_changes@, 0).len(),
            r.stats.rows_modified == modified_views(r.row_changes@, 0).len(),
            // the changed-cell count is the sum over the modified entries,
            // saturating at the machine limit
            cells_changed_from(r.row_changes@, 0) <= usize::MAX ==> r.stats.cells_changed
                == cells_changed_from(r.row_changes@, 0),
            cells_changed_from(r.row_changes@, 0) > usize::MAX ==> r.stats.cells_changed
                == usize::MAX,
            r.stats.rows_added + r.stats.rows_removed + r.stats.rows_modified
                == r.row_changes@.len(),
            r.stats.rows_removed + r.stats.rows_modified + r.stats.rows_unchanged
                == old_table.rows@.len(),
            (distinct_keys(old_table.rows_v()) && distinct_keys(new_table.rows_v())
                && hash_compatible(old_table.rows_v(), new_table.rows_v()))
                ==> r.stats.rows_added + r.stats.rows_modified + r.stats.rows_unchanged
                == new_table.rows@.len(),
    {
        let ghost hyp = distinct_keys(old_table.rows_v()) && distinct_keys(new_table.rows_v())
            && hash_compatible(old_table.rows_v(), new_table.rows_v());
        let old_len = old_table.rows.len();
        let new_len = new_table.rows.len();
        let mut result = DiffResult::new();
        result.stats.old_row_count = old_len;
        result.stats.new_row_count = new_len;
        result.schema_changes = SchemaDiff::compare(old_table, new_table);

        let row_matcher = RowMatcher::new(self.config.ignore_columns.as_slice());
        let pairs = row_matcher.match_rows(old_table, new_table);
        let ghost ignore = names_v(self.config.ignore_columns@);
        let ghost cmp = self.cell_comparator;

        let ghost mut covered: Set<int> = Set::empty();
        let n = pairs.len();
        let mut k: usize = 0;
        while k < n
            invariant
                old_table.wf(),
                new_table.wf(),
                0 <= k <= n == pairs@.len(),
                old_len == old_table.rows@.len(),
                new_len == new_table.rows@.len(),
                n >= old_len,
                result.stats.old_row_count == old_len,
                result.stats.new_row_count == new_len,
                change_views(result.schema_changes@) == spec_schema_changes(
                    old_table.columns@.map_values(|c: Column| c@),
                    new_table.columns@.map_values(|c: Column| c@),
                ),
                forall|m: int|
                    0 <= m < pairs@.len() ==> crate::row_diff::pair_ok(
                        #[trigger] pairs@[m],
                        *old_table,
                        *new_table,
                    ),
                forall|m: int|
                    0 <= m < old_table.rows@.len() ==> crate::row_diff::covers_old(
                        #[trigger] pairs@[m],
                        m,
                    ),
                forall|m: int|
                    old_table.rows@.len() <= m < pairs@.len() ==> ((#[trigger] pairs@[m]) matches
                        RowPairing::AddedRow { new_index }),
                hyp ==> (forall|j: int|
                    0 <= j < new_table.rows@.len() ==> #[trigger] new_row_covered(pairs@, j)),
                hyp ==> (forall|k1: int, k2: int, j: int|
                    #![trigger covers_new(pairs@[k1], j), covers_new(pairs@[k2], j)]
                    0 <= k1 < pairs@.len() && 0 <= k2 < pairs@.len() && covers_new(pairs@[k1], j)
                        && covers_new(pairs@[k2], j) ==> k1 == k2),
                forall|m: int|
                    0 <= m < result.row_changes@.len() ==> row_change_ok(
                        (#[trigger] result.row_changes@[m])@,
                        *old_table,
                        *new_table,
                        names_v(self.config.ignore_columns@),
                        self.cell_comparator,
                    ),
                ignore == names_v(self.config.ignore_columns@),
                cmp == self.cell_comparator,
                changes_of_pairs(pairs@, *old_table, *new_table, ignore, cmp, 0)
                    == row_change_views(result.row_changes@) + changes_of_pairs(
                    pairs@,
                    *old_table,
                    *new_table,
                    ignore,
                    cmp,
                    k as int,
                ),
                result.stats.rows_added == added_views(result.row_changes@, 0).len(),
                result.stats.rows_removed == removed_views(result.row_changes@, 0).len(),
                result.stats.rows_modified == modified_views(result.row_changes@, 0).len(),
                cells_changed_from(result.row_changes@, 0) <= usize::MAX
                    ==> result.stats.cells_changed == cells_changed_from(result.row_changes@, 0),
                cells_changed_from(result.row_changes@, 0) > usize::MAX
                    ==> result.stats.cells_changed == usize::MAX,
                result.stats.rows_added + result.stats.rows_removed + result.stats.rows_modified
                    == result.row_changes@.len(),
                result.stats.rows_added + result.stats.rows_removed + result.stats.rows_modified
                    + result.stats.rows_unchanged == k,
                k <= old_len ==> result.stats.rows_added == 0,
                k <= old_len ==> result.stats.rows_removed + result.stats.rows_modified
                    + result.stats.rows_unchanged == k,
                k > old_len ==> result.stats.rows_removed + result.stats.rows_modified
                    + result.stats.rows_unchanged == old_len,
                covered.finite(),
                forall|j: int| covered.contains(j) ==> 0 <= j < new_table.rows@.len(),
                hyp ==> (forall|j: int|
                    #[trigger] covered.contains(j) <==> exists|m: int|
                        0 <= m < k && covers_new(#[trigger] pairs@[m], j)),
                hyp ==> result.stats.rows_added + result.stats.rows_modified
                    + result.stats.rows_unchanged == covered.len(),
            decreases n - k,
        {
            let ghost pre_covered = covered;
            let pair = pairs[k];
            match pair {
                RowPairing::Matched { old_index, new_index } => {
                    let old_row = &old_table.rows[old_index];
                    let new_row = &new_table.rows[new_index];
                    let changes = self.compare_row_cells(old_row, new_row, old_table, new_table);
                    if changes.len() > 0 {
                        result.stats.rows_modified = result.stats.rows_modified + 1;
                        let change_count = changes.len();
                        if result.stats.cells_changed <= usize::MAX - change_count {
                            result.stats.cells_changed = result.stats.cells_changed + change_count;
                        } else {
                            result.stats.cells_changed = usize::MAX;
                        }
                        let key = old_row.key.clone();
                        let ghost pre_changes = result.row_changes@;
                        result.row_changes.push(
                            RowChange::Modified {
                                key,
                                old_row: old_row.clone(),
                                new_row: new_row.clone(),
                                changes,
                            },
                        );
                        proof {
                            let x = result.row_changes@.last();
                            let c = x@;
                            assert(old_table.rows@[old_index as int]@ == old_row@);
                            assert(new_table.rows@[new_index as int]@ == new_row@);
                            assert(row_change_ok(
                                c,
                                *old_table,
                                *new_table,
                                names_v(self.config.ignore_columns@),
                                self.cell_comparator,
                            ));
                            // this entry is exactly what the pair yields
                            assert(change_of_pair(pairs@[k as int], *old_table, *new_table, ignore, cmp)
                                =~= seq![c]);
                            assert(row_change_views(result.row_changes@) =~= row_change_views(
                                pre_changes,
                            ) + seq![c]);
                            lemma_added_views_push(pre_changes, x, 0);
                            lemma_removed_views_push(pre_changes, x, 0);
                            lemma_modified_views_push(pre_changes, x, 0);
                            lemma_cells_changed_push(pre_changes, x, 0);
                            assert(changes_of_pairs(pairs@, *old_table, *new_table, ignore, cmp, 0)
                                =~= row_change_views(result.row_changes@) + changes_of_pairs(
                                pairs@,
                                *old_table,
                                *new_table,
                                ignore,
                                cmp,
                                k + 1,
                            ));
                        }
                    } else {
                        result.stats.rows_unchanged = result.stats.rows_unchanged + 1;
                        proof {
                            assert(old_table.rows@[old_index as int]@ == old_row@);
                            assert(new_table.rows@[new_index as int]@ == new_row@);
                            assert(change_of_pair(pairs@[k as int], *old_table, *new_table, ignore, cmp)
                                =~= Seq::<RowChangeV>::empty());
                            assert(changes_of_pairs(pairs@, *old_table, *new_table, ignore, cmp, 0)
                                =~= row_change_views(result.row_changes@) + changes_of_pairs(
                                pairs@,
                                *old_table,
                                *new_table,
                                ignore,
                                cmp,
                                k + 1,
                            ));
                        }
                    }
                    proof {
                        covered = covered.insert(new_index as int);
                        if hyp {
                            assert(covers_new(pairs@[k as int], new_index as int));
                            if pre_covered.contains(new_index as int) {
                                let m = choose|m: int|
                                    0 <= m < k && covers_new(
                                        #[trigger] pairs@[m],
                                        new_index as int,
                                    );
                                assert(false);
                            }
                            assert(covered.len() == pre_covered.len() + 1);
                            assert forall|j: int| #[trigger]
                                covered.contains(j) <==> exists|m: int|
                                    0 <= m < k + 1 && covers_new(#[trigger] pairs@[m], j) by {
                                if j == new_index as int {
                                    assert(covers_new(pairs@[k as int], j));
                                } else if covered.contains(j) {
                                    assert(pre_covered.contains(j));
                                } else {
                                    if exists|m: int|
                                        0 <= m < k + 1 && covers_new(#[trigger] pairs@[m], j) {
                                        let m = choose|m: int|
                                            0 <= m < k + 1 && covers_new(#[trigger] pairs@[m], j);
                                        assert(m < k);
                                        assert(pre_covered.contains(j));
                                        assert(false);
                                    }
                                }
                            }
                        }
                    }
                },
                RowPairing::RemovedRow { old_index } => {
                    let old_row = &old_table.rows[old_index];
                    result.stats.rows_removed = result.stats.rows_removed + 1;
                    let ghost pre_changes = result.row_changes@;
                    result.row_changes.push(
                        RowChange::Removed { key: old_row.key.clone(), row: old_row.clone() },
                    );
                    proof {
                        assert(old_table.rows@[old_index as int]@ == old_row@);
                        let x = result.row_changes@.last();
                        assert(change_of_pair(pairs@[k as int], *old_table, *new_table, ignore, cmp)
                            =~= seq![x@]);
                        assert(row_change_views(result.row_changes@) =~= row_change_views(
                            pre_changes,
                        ) + seq![x@]);
                        lemma_added_views_push(pre_changes, x, 0);
                        lemma_removed_views_push(pre_changes, x, 0);
                        lemma_modified_views_push(pre_changes, x, 0);
                        lemma_cells_changed_push(pre_changes, x, 0);
                        assert(changes_of_pairs(pairs@, *old_table, *new_table, ignore, cmp, 0)
                            =~= row_change_views(result.row_changes@) + changes_of_pairs(
                            pairs@,
                            *old_table,
                            *new_table,
                            ignore,
                            cmp,
                            k + 1,
                        ));
                        if hyp {
                            assert forall|j: int| #[trigger]
                                covered.contains(j) <==> exists|m: int|
                                    0 <= m < k + 1 && covers_new(#[trigger] pairs@[m], j) by {
                                if covered.contains(j) {
                                } else {
                                    if exists|m: int|
                                        0 <= m < k + 1 && covers_new(#[trigger] pairs@[m], j) {
                                        let m = choose|m: int|
                                            0 <= m < k + 1 && covers_new(#[trigger] pairs@[m], j);
                                        assert(m < k);
                                        assert(false);
                                    }
                                }
                            }
                        }
                    }
                },
                RowPairing::AddedRow { new_index } => {
                    let new_row = &new_table.rows[new_index];
                    result.stats.rows_added = result.stats.rows_added + 1;
                    let ghost pre_changes = result.row_changes@;
                    result.row_changes.push(
                        RowChange::Added { key: new_row.key.clone(), row: new_row.clone() },
                    );
                    proof {
                        assert(new_table.rows@[new_index as int]@ == new_row@);
                        let x = result.row_changes@.last();
                        assert(change_of_pair(pairs@[k as int], *old_table, *new_table, ignore, cmp)
                            =~= seq![x@]);
                        assert(row_change_views(result.row_changes@) =~= row_change_views(
                            pre_changes,
                        ) + seq![x@]);
                        lemma_added_views_push(pre_changes, x, 0);
                        lemma_removed_views_push(pre_changes, x, 0);
                        lemma_modified_views_push(pre_changes, x, 0);
                        lemma_cells_changed_push(pre_changes, x, 0);
                        assert(changes_of_pairs(pairs@, *old_table, *new_table, ignore, cmp, 0)
                            =~= row_change_views(result.row_changes@) + changes_of_pairs(
                            pairs@,
                            *old_table,
                            *new_table,
                            ignore,
                            cmp,
                            k + 1,
                        ));
                        assert(k >= old_len) by {
                            if k < old_len {
                                assert(crate::row_diff::covers_old(pairs@[k as int], k as int));
                            }
                        }
                        covered = covered.insert(new_index as int);
                        if hyp {
                            assert(covers_new(pairs@[k as int], new_index as int));
                            if pre_covered.contains(new_index as int) {
                                let m = choose|m: int|
                                    0 <= m < k && covers_new(
                                        #[trigger] pairs@[m],
                                        new_index as int,
                                    );
                                assert(false);
                            }
                            assert(covered.len() == pre_covered.len() + 1);
                            assert forall|j: int| #[trigger]
                                covered.contains(j) <==> exists|m: int|
                                    0 <= m < k + 1 && covers_new(#[trigger] pairs@[m], j) by {
                                if j == new_index as int {
                                    assert(covers_new(pairs@[k as int], j));
                                } else if covered.contains(j) {
                                    assert(pre_covered.contains(j));
                                } else {
                                    if exists|m: int|
                                        0 <= m < k + 1 && covers_new(#[trigger] pairs@[m], j) {
                                        let m = choose|m: int|
                                            0 <= m < k + 1 && covers_new(#[trigger] pairs@[m], j);
                                        assert(m < k);
                                        assert(pre_covered.contains(j));
                                        assert(false);
                                    }
                                }
                            }
                        }
                    }
                },
            }
            k = k + 1;
        }
        proof {
            assert(changes_of_pairs(pairs@, *old_table, *new_table, ignore, cmp, n as int)
                =~= Seq::<RowChangeV>::empty());
            assert(row_change_views(result.row_changes@) =~= changes_of_pairs(
                pairs@,
                *old_table,
                *new_table,
                ignore,
                cmp,
                0,
            ));
            if hyp {
                // every new row is covered by some pair, so the covered set
                // is exactly the new row range
                assert forall|j: int| 0 <= j < new_len implies covered.contains(j) by {
                    assert(new_row_covered(pairs@, j));
                    let m = choose|m: int|
                        0 <= m < pairs@.len() && covers_new(#[trigger] pairs@[m], j);
                    assert(covers_new(pairs@[m], j));
                }
                assert(covered =~= vstd::set_lib::set_int_range(0, new_len as int));
                lemma_int_range(0, new_len as int);
            }
        }
        result
    }
}

/// Compares two tables under a configuration, as `DiffEngine::diff` does.
pub fn compute_diff(old_table: &Table, new_table: &Table, config: &Config) -> (r: DiffResult)
    requires
        old_table.wf(),
        new_table.wf(),
    ensures
        r.stats.old_row_count == old_table.rows@.len(),
        r.stats.new_row_count == new_table.rows@.len(),
        change_views(r.schema_changes@) == spec_schema_changes(
            old_table.columns@.map_values(|c: Column| c@),
            new_table.columns@.map_values(|c: Column| c@),
        ),
        forall|k: int|
            0 <= k < r.row_changes@.len() ==> row_change_ok(
                (#[trigger] r.row_changes@[k])@,
                *old_table,
                *new_table,
                names_v(config.ignore_columns@),
                comparator_of(*config),
            ),
        row_change_views(r.row_changes@) == changes_of_pairs(
            spec_pairs(*old_table, *new_table),
            *old_table,
            *new_table,
            names_v(config.ignore_columns@),
            comparator_of(*config),
            0,
        ),
        r.stats.rows_added == added_views(r.row_changes@, 0).len(),
        r.stats.rows_removed == removed_views(r.row_changes@, 0).len(),
        r.stats.rows_modified == modified_views(r.row_changes@, 0).len(),
        cells_changed_from(r.row_changes@, 0) <= usize::MAX ==> r.stats.cells_changed
            == cells_changed_from(r.row_changes@, 0),
        cells_changed_from(r.row_changes@, 0) > usize::MAX ==> r.stats.cells_changed
            == usize::MAX,
        r.stats.rows_added + r.stats.rows_removed + r.stats.rows_modified == r.row_changes@.len(),
        r.stats.rows_removed + r.stats.rows_modified + r.stats.rows_unchanged
            == old_table.rows@.len(),
        (distinct_keys(old_table.rows_v()) && distinct_keys(new_table.rows_v())
            && hash_compatible(old_table.rows_v(), new_table.rows_v())) ==> r.stats.rows_added
            + r.stats.rows_modified + r.stats.rows_unchanged == new_table.rows@.len(),
{
    let engine = DiffEngine::new(config.clone());
    proof {
        assert(engine.cell_comparator == comparator_of(*config));
        assert(names_v(engine.config.ignore_columns@) == names_v(config.ignore_columns@));
    }
    engine.diff(old_table, new_table)
}

} // verus!
