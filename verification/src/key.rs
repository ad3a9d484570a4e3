//! Composite row keys: how a row's identity string is put together from its
//! designated key columns, and the hash under which rows are indexed.

use crate::value::display_of;
use crate::value::views_of;
use crate::value::CellV;
use crate::value::CellValue;
use vstd::prelude::*;
use vstd::string::StringExecFns;

verus! {

/// The key contribution of the cells selected by `idx`, joined by `sep`;
/// `started` records whether an earlier piece already exists, so that a
/// separator is owed before the next piece.  An index beyond the cells is
/// skipped.
pub open spec fn key_from_indices(
    cells: Seq<CellV>,
    idx: Seq<usize>,
    sep: Seq<char>,
    started: bool,
) -> Seq<char>
    decreases idx.len(),
{
    if idx.len() == 0 {
        Seq::empty()
    } else if (idx[0] as int) < cells.len() {
        (if started {
            sep
        } else {
            Seq::empty()
        }) + display_of(cells[idx[0] as int]) + key_from_indices(cells, idx.drop_first(), sep, true)
    } else {
        key_from_indices(cells, idx.drop_first(), sep, started)
    }
}

/// The key contribution of all cells in order, joined by `sep`.
pub open spec fn key_from_all(cells: Seq<CellV>, sep: Seq<char>, started: bool) -> Seq<char>
    decreases cells.len(),
{
    if cells.len() == 0 {
        Seq::empty()
    } else {
        (if started {
            sep
        } else {
            Seq::empty()
        }) + display_of(cells[0]) + key_from_all(cells.drop_first(), sep, true)
    }
}

/// A row's composite key: the display forms of the designated key columns in
/// their designated order, joined by `sep`; when no key columns are
/// designated, the display forms of all cells in row order.
pub open spec fn spec_key(cells: Seq<CellV>, idx: Seq<usize>, sep: Seq<char>) -> Seq<char> {
    if idx.len() == 0 {
        key_from_all(cells, sep, false)
    } else {
        key_from_indices(cells, idx, sep, false)
    }
}

/// The hash under which rows are indexed.
pub uninterp spec fn key_hash_of(s: Seq<char>) -> u64;

/// Relies on rustc_hash::FxHasher: the unseeded hasher is a deterministic
/// function of the hashed bytes, so the hash of a key string depends on the
/// string alone.
#[verifier::external_body]
pub(crate) fn fx_hash_str(s: &str) -> (h: u64)
    ensures
        h == key_hash_of(s@),
{
    let mut hasher = rustc_hash::FxHasher::default();
    std::hash::Hash::hash(s, &mut hasher);
    std::hash::Hasher::finish(&hasher)
}

/// Builds the composite key of `cells` under the key columns `idx`, joined
/// by `sep`.
pub fn build_key_string(cells: &[CellValue], idx: &[usize], sep: &str) -> (s: String)
    ensures
        s@ == spec_key(views_of(cells@), idx@, sep@),
{
    let ghost vcells = views_of(cells@);
    if idx.len() == 0 {
        let mut acc = String::new();
        let mut k: usize = 0;
        let n = cells.len();
        proof {
            assert(vcells.skip(0) =~= vcells);
        }
        while k < n
            invariant
                0 <= k <= n == cells@.len(),
                vcells == views_of(cells@),
                vcells.len() == n,
                key_from_all(vcells, sep@, false) == acc@ + key_from_all(
                    vcells.skip(k as int),
                    sep@,
                    k > 0,
                ),
            decreases n - k,
        {
            let ghost pre = acc@;
            if k > 0 {
                acc.append(sep);
            }
            let d = vstd::slice::slice_index_get(cells, k).display();
            acc.append(d.as_str());
            proof {
                let rest = vcells.skip(k as int);
                assert(rest[0] == vcells[k as int]);
                assert(vcells[k as int] == cells@[k as int]@);
                assert(rest.drop_first() =~= vcells.skip(k as int + 1));
                assert(acc@ == pre + (if k > 0 {
                    sep@
                } else {
                    Seq::<char>::empty()
                }) + display_of(vcells[k as int]));
            }
            k = k + 1;
        }
        proof {
            assert(key_from_all(vcells.skip(n as int), sep@, n > 0) =~= Seq::<char>::empty());
            assert(acc@ =~= key_from_all(vcells, sep@, false));
        }
        acc
    } else {
        let mut acc = String::new();
        let mut k: usize = 0;
        let n = idx.len();
        let mut started: bool = false;
        proof {
            assert(idx@.skip(0) =~= idx@);
        }
        while k < n
            invariant
                0 <= k <= n == idx@.len(),
                vcells == views_of(cells@),
                vcells.len() == cells@.len(),
                key_from_indices(vcells, idx@, sep@, false) == acc@ + key_from_indices(
                    vcells,
                    idx@.skip(k as int),
                    sep@,
                    started,
                ),
            decreases n - k,
        {
            let ghost pre = acc@;
            let i = *vstd::slice::slice_index_get(idx, k);
            proof {
                let rest = idx@.skip(k as int);
                assert(rest[0] == idx@[k as int]);
                assert(rest.drop_first() =~= idx@.skip(k as int + 1));
            }
            let was_started = started;
            if i < cells.len() {
                if started {
                    acc.append(sep);
                }
                let d = vstd::slice::slice_index_get(cells, i).display();
                acc.append(d.as_str());
                started = true;
                proof {
                    assert(vcells[i as int] == cells@[i as int]@);
                    assert(acc@ == pre + (if was_started {
                        sep@
                    } else {
                        Seq::<char>::empty()
                    }) + display_of(vcells[i as int]));
                }
            }
            k = k + 1;
        }
        proof {
            assert(key_from_indices(vcells, idx@.skip(n as int), sep@, started)
                =~= Seq::<char>::empty());
            assert(acc@ =~= key_from_indices(vcells, idx@, sep@, false));
        }
        acc
    }
}

proof fn lemma_key_from_indices_same(
    cells1: Seq<CellV>,
    cells2: Seq<CellV>,
    idx: Seq<usize>,
    sep: Seq<char>,
    started: bool,
)
    requires
        cells1.len() == cells2.len(),
        forall|j: int|
            0 <= j < idx.len() && (idx[j] as int) < cells1.len() ==> cells1[idx[j] as int]
                == cells2[idx[j] as int],
    ensures
        key_from_indices(cells1, idx, sep, started) == key_from_indices(cells2, idx, sep, started),
    decreases idx.len(),
{
    if idx.len() > 0 {
        let rest = idx.drop_first();
        assert(forall|j: int|
            0 <= j < rest.len() && (rest[j] as int) < cells1.len() ==> cells1[rest[j] as int]
                == cells2[rest[j] as int]) by {
            assert(forall|j: int| 0 <= j < rest.len() ==> rest[j] == idx[j + 1]);
        }
        if (idx[0] as int) < cells1.len() {
            lemma_key_from_indices_same(cells1, cells2, rest, sep, true);
        } else {
            lemma_key_from_indices_same(cells1, cells2, rest, sep, started);
        }
    }
}

/// Builds composite keys from designated key columns, or from all columns
/// when none are designated.
pub struct KeyBuilder {
    pub column_indices: Vec<usize>,
    pub separator: String,
}

impl Default for KeyBuilder {
    /// The default builder designates no key columns and joins with a pipe.
    fn default() -> (b: KeyBuilder)
        ensures
            b.column_indices@.len() == 0,
            b.separator@ == seq!['|'],
    {
        KeyBuilder::new()
    }
}

impl KeyBuilder {
    /// A builder that designates no key columns and joins with a pipe.
    pub fn new() -> (b: KeyBuilder)
        ensures
            b.column_indices@.len() == 0,
            b.separator@ == seq!['|'],
    {
        proof {
            reveal_strlit("|");
            assert("|"@ =~= seq!['|']);
        }
        KeyBuilder { column_indices: Vec::new(), separator: String::from_str("|") }
    }

    /// Designates the key columns by position.
    pub fn with_columns(self, indices: Vec<usize>) -> (b: KeyBuilder)
        ensures
            b.column_indices == indices,
            b.separator == self.separator,
    {
        KeyBuilder { column_indices: indices, separator: self.separator }
    }

    /// Designates the key columns by name from a table, keeping the order
    /// given and skipping names that match no column.
    pub fn with_column_names(self, table: &crate::table::Table, names: &[String]) -> (b: KeyBuilder)
        ensures
            b.column_indices@ == crate::table::resolve_key_names(
                table.columns@.map_values(|c: crate::schema::Column| c@),
                names@.map_values(|s: String| s@),
            ),
            b.separator == self.separator,
    {
        let indices = crate::table::resolve_column_names(table, names);
        KeyBuilder { column_indices: indices, separator: self.separator }
    }

    /// Sets the separator joining the key pieces.
    pub fn with_separator(self, sep: String) -> (b: KeyBuilder)
        ensures
            b.column_indices == self.column_indices,
            b.separator == sep,
    {
        KeyBuilder { column_indices: self.column_indices, separator: sep }
    }

    /// Builds the composite key of the given cells.
    pub fn build_key(&self, cells: &[CellValue]) -> (s: String)
        ensures
            s@ == spec_key(views_of(cells@), self.column_indices@, self.separator@),
    {
        build_key_string(cells, self.column_indices.as_slice(), self.separator.as_str())
    }

    /// The designated key column positions.
    pub fn column_indices(&self) -> (r: &[usize])
        ensures
            r@ == self.column_indices@,
    {
        self.column_indices.as_slice()
    }

    /// Whether any key column is designated.
    pub fn has_key_columns(&self) -> (r: bool)
        ensures
            r == (self.column_indices@.len() > 0),
    {
        self.column_indices.len() > 0
    }
}

/// Whether the cells of column `c` are pairwise distinct across the table's
/// rows, under exact cell equality.
pub open spec fn column_values_distinct(t: crate::table::Table, c: int) -> bool {
    forall|r1: int, r2: int|
        0 <= r1 < r2 < t.rows@.len() ==> !crate::value::cell_eq(
            crate::engine::cell_at((#[trigger] t.rows@[r1])@.cells, c),
            crate::engine::cell_at((#[trigger] t.rows@[r2])@.cells, c),
        )
}

fn column_distinct(table: &crate::table::Table, c: usize) -> (r: bool)
    requires
        table.wf(),
        c < table.columns@.len(),
    ensures
        r == column_values_distinct(*table, c as int),
{
    let n = table.rows.len();
    let mut r1: usize = 0;
    while r1 < n
        invariant
            table.wf(),
            c < table.columns@.len(),
            0 <= r1 <= n == table.rows@.len(),
            forall|i: int, j: int|
                0 <= i < j < n && i < r1 ==> !crate::value::cell_eq(
                    crate::engine::cell_at((#[trigger] table.rows@[i])@.cells, c as int),
                    crate::engine::cell_at((#[trigger] table.rows@[j])@.cells, c as int),
                ),
        decreases n - r1,
    {
        let mut r2: usize = r1 + 1;
        while r2 < n
            invariant
                table.wf(),
                c < table.columns@.len(),
                0 <= r1 < r2 <= n == table.rows@.len(),
                forall|j: int|
                    r1 < j < r2 ==> !crate::value::cell_eq(
                        crate::engine::cell_at(table.rows@[r1 as int]@.cells, c as int),
                        crate::engine::cell_at((#[trigger] table.rows@[j])@.cells, c as int),
                    ),
            decreases n - r2,
        {
            let a = &table.rows[r1].cells[c];
            let b = &table.rows[r2].cells[c];
            proof {
                assert(a@ == crate::engine::cell_at(table.rows@[r1 as int]@.cells, c as int));
                assert(b@ == crate::engine::cell_at(table.rows@[r2 as int]@.cells, c as int));
            }
            if a.eq(b) {
                return false;
            }
            r2 = r2 + 1;
        }
        r1 = r1 + 1;
    }
    true
}

/// Finds key columns automatically: the first column whose values are
/// pairwise distinct under exact cell equality, as a one-element list, or an
/// empty list when no such column exists, in which case all columns serve as
/// the key.
pub fn detect_key_columns(table: &crate::table::Table) -> (r: Vec<usize>)
    requires
        table.wf(),
    ensures
        r@.len() <= 1,
        r@.len() == 1 ==> (r@[0] as int) < table.columns@.len() && column_values_distinct(
            *table,
            r@[0] as int,
        ) && (forall|c: int| 0 <= c < r@[0] ==> !column_values_distinct(*table, c)),
        r@.len() == 0 ==> (forall|c: int|
            0 <= c < table.columns@.len() ==> !column_values_distinct(*table, c)),
{
    let ncols = table.columns.len();
    let mut c: usize = 0;
    while c < ncols
        invariant
            table.wf(),
            0 <= c <= ncols == table.columns@.len(),
            forall|k: int| 0 <= k < c ==> !column_values_distinct(*table, k),
        decreases ncols - c,
    {
        if column_distinct(table, c) {
            let mut r: Vec<usize> = Vec::new();
            r.push(c);
            return r;
        }
        c = c + 1;
    }
    Vec::new()
}

/// Key determinism: when key columns are designated, the composite key reads
/// only those columns, so rows that agree on every designated column have
/// the same key string and hence the same key hash, whatever their other
/// columns hold.
pub proof fn lemma_key_reads_only_key_columns(
    cells1: Seq<CellV>,
    cells2: Seq<CellV>,
    idx: Seq<usize>,
    sep: Seq<char>,
)
    requires
        idx.len() > 0,
        cells1.len() == cells2.len(),
        forall|j: int|
            0 <= j < idx.len() && (idx[j] as int) < cells1.len() ==> cells1[idx[j] as int]
                == cells2[idx[j] as int],
    ensures
        spec_key(cells1, idx, sep) == spec_key(cells2, idx, sep),
        key_hash_of(spec_key(cells1, idx, sep)) == key_hash_of(spec_key(cells2, idx, sep)),
{
    lemma_key_from_indices_same(cells1, cells2, idx, sep, false);
}

} // verus!
