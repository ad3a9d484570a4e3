//! Hash-indexed pairing of old and new rows by composite key.

use crate::table::RowV;
use crate::table::Table;
use crate::text::str_eq;
use std::collections::HashSet;
use vstd::prelude::*;

verus! {

broadcast use vstd::std_specs::hash::group_hash_axioms;

/// One emitted pair: an old row matched to a new row by key, an old row with
/// no counterpart, or a new row with no counterpart.
#[derive(Debug, Clone, Copy, PartialEq, Eq, Structural)]
pub enum RowPairing {
    Matched { old_index: usize, new_index: usize },
    RemovedRow { old_index: usize },
    AddedRow { new_index: usize },
}

/// Whether the pair speaks of old row `i`.
pub open spec fn covers_old(p: RowPairing, i: int) -> bool {
    match p {
        RowPairing::Matched { old_index, .. } => old_index == i,
        RowPairing::RemovedRow { old_index } => old_index == i,
        RowPairing::AddedRow { .. } => false,
    }
}

/// Whether the pair speaks of new row `j`.
pub open spec fn covers_new(p: RowPairing, j: int) -> bool {
    match p {
        RowPairing::Matched { new_index, .. } => new_index == j,
        RowPairing::RemovedRow { .. } => false,
        RowPairing::AddedRow { new_index } => new_index == j,
    }
}

/// Whether the pair is a match.
pub open spec fn is_matched(p: RowPairing) -> bool {
    p matches RowPairing::Matched { .. }
}

/// The new-row position an added pair speaks of.
pub open spec fn added_index(p: RowPairing) -> int {
    match p {
        RowPairing::AddedRow { new_index } => new_index as int,
        _ => -1,
    }
}

/// What the matcher guarantees of a single emitted pair: a match joins an
/// old row to the row the new table's index holds for its key hash, and only
/// when the literal keys are equal; a removal certifies that no indexed row
/// of equal key exists; an added pair points into the new table.
pub open spec fn pair_ok(p: RowPairing, old_t: Table, new_t: Table) -> bool {
    match p {
        RowPairing::Matched { old_index, new_index } => {
            &&& old_index < old_t.rows@.len()
            &&& new_index < new_t.rows@.len()
            &&& old_t.rows@[old_index as int]@.key == new_t.rows@[new_index as int]@.key
            &&& new_t.row_index@.contains_key(old_t.rows@[old_index as int]@.key_hash)
            &&& new_index == new_t.row_index@[old_t.rows@[old_index as int]@.key_hash]
        },
        RowPairing::RemovedRow { old_index } => {
            &&& old_index < old_t.rows@.len()
            &&& !(new_t.row_index@.contains_key(old_t.rows@[old_index as int]@.key_hash)
                && new_t.rows@[new_t.row_index@[old_t.rows@[old_index as int]@.key_hash] as int]@.key
                == old_t.rows@[old_index as int]@.key)
        },
        RowPairing::AddedRow { new_index } => new_index < new_t.rows@.len(),
    }
}

/// The consumed set holds exactly the key hashes of the matched old rows.
pub open spec fn consumed_ok(
    pairs: Seq<RowPairing>,
    n: int,
    old_t: Table,
    consumed: Set<u64>,
) -> bool {
    &&& forall|m: int|
        0 <= m < n && is_matched(#[trigger] pairs[m]) ==> consumed.contains(
            old_t.rows@[m]@.key_hash,
        )
    &&& forall|h: u64|
        consumed.contains(h) ==> exists|m: int|
            0 <= m < n && is_matched(#[trigger] pairs[m]) && old_t.rows@[m]@.key_hash == h
}

/// Some pair covers new row `j`.
pub open spec fn new_row_covered(pairs: Seq<RowPairing>, j: int) -> bool {
    exists|k: int| 0 <= k < pairs.len() && covers_new(#[trigger] pairs[k], j)
}

/// The added segment, starting at `old_n`, holds an entry for new row `j`.
pub open spec fn added_entry_for(pairs: Seq<RowPairing>, old_n: int, j: int) -> bool {
    exists|k: int|
        old_n <= k < pairs.len() && #[trigger] pairs[k] == (RowPairing::AddedRow {
            new_index: j as usize,
        })
}

/// Some matched pair consumed the key hash `h`.
pub open spec fn match_consumes(pairs: Seq<RowPairing>, old_t: Table, h: u64) -> bool {
    exists|m: int|
        0 <= m < old_t.rows@.len() && is_matched(#[trigger] pairs[m]) && old_t.rows@[m]@.key_hash
            == h
}

/// The pair the matcher yields for old row `i`: matched to the row the new
/// table's index holds for the old row's key hash when the literal keys
/// agree, otherwise removed.
pub open spec fn spec_pair_of_old(old_t: Table, new_t: Table, i: int) -> RowPairing {
    let h = old_t.rows@[i]@.key_hash;
    if new_t.row_index@.contains_key(h) && new_t.rows@[new_t.row_index@[h] as int]@.key
        == old_t.rows@[i]@.key {
        RowPairing::Matched { old_index: i as usize, new_index: new_t.row_index@[h] }
    } else {
        RowPairing::RemovedRow { old_index: i as usize }
    }
}

/// Whether some old row's match consumes the key hash `h`.
pub open spec fn spec_hash_consumed(old_t: Table, new_t: Table, h: u64) -> bool {
    exists|i: int|
        0 <= i < old_t.rows@.len() && is_matched(#[trigger] spec_pair_of_old(old_t, new_t, i))
            && old_t.rows@[i]@.key_hash == h
}

/// The added pairs for the new rows from position `j` on, in order: one for
/// every row whose key hash no match consumed.
pub open spec fn spec_added_pairs(old_t: Table, new_t: Table, j: int) -> Seq<RowPairing>
    decreases new_t.rows@.len() - j,
{
    if !(0 <= j < new_t.rows@.len()) {
        Seq::empty()
    } else {
        let rest = spec_added_pairs(old_t, new_t, j + 1);
        if !spec_hash_consumed(old_t, new_t, new_t.rows@[j]@.key_hash) {
            seq![RowPairing::AddedRow { new_index: j as usize }] + rest
        } else {
            rest
        }
    }
}

/// The full pairing the matcher yields: one pair per old row in order, then
/// the added pairs in new-table order.
pub open spec fn spec_pairs(old_t: Table, new_t: Table) -> Seq<RowPairing> {
    Seq::new(old_t.rows@.len(), |i: int| spec_pair_of_old(old_t, new_t, i)) + spec_added_pairs(
        old_t,
        new_t,
        0,
    )
}

/// The part of the table invariant the matcher proofs lean on: the index
/// maps each present hash to a valid row position carrying that hash.
pub open spec fn index_ok(t: Table) -> bool {
    forall|h: u64|
        #[trigger] t.row_index@.contains_key(h) ==> t.row_index@[h] < t.rows@.len()
            && t.rows@[t.row_index@[h] as int]@.key_hash == h
}

/// No two rows carry the same composite key.
pub open spec fn distinct_keys(rows: Seq<RowV>) -> bool {
    forall|i: int, j: int|
        0 <= i < j < rows.len() ==> (#[trigger] rows[i]).key != (#[trigger] rows[j]).key
}

/// Across the two row sets, equal key hashes only arise from equal keys.
pub open spec fn hash_compatible(a: Seq<RowV>, b: Seq<RowV>) -> bool {
    forall|i: int, j: int|
        0 <= i < a.len() && 0 <= j < b.len() && (#[trigger] a[i]).key_hash == (
        #[trigger] b[j]).key_hash ==> a[i].key == b[j].key
}

/// Pairs each old row, in order, against the new table's key-hash index.
fn pair_old_rows(old_table: &Table, new_table: &Table) -> (r: (Vec<RowPairing>, HashSet<u64>))
    requires
        old_table.wf(),
        new_table.wf(),
    ensures
        r.0@.len() == old_table.rows@.len(),
        forall|k: int| 0 <= k < r.0@.len() ==> covers_old(#[trigger] r.0@[k], k),
        forall|k: int| 0 <= k < r.0@.len() ==> pair_ok(#[trigger] r.0@[k], *old_table, *new_table),
        consumed_ok(r.0@, r.0@.len() as int, *old_table, r.1@),
        forall|k: int|
            0 <= k < r.0@.len() ==> #[trigger] r.0@[k] == spec_pair_of_old(
                *old_table,
                *new_table,
                k,
            ),
        forall|h: u64|
            #[trigger] r.1@.contains(h) <==> spec_hash_consumed(*old_table, *new_table, h),
{
    let old_len = old_table.rows.len();
    let mut pairs: Vec<RowPairing> = Vec::new();
    let mut consumed: HashSet<u64> = HashSet::new();
    let mut i: usize = 0;
    while i < old_len
        invariant
            old_table.wf(),
            new_table.wf(),
            0 <= i <= old_len == old_table.rows@.len(),
            pairs@.len() == i,
            forall|k: int| 0 <= k < i ==> covers_old(#[trigger] pairs@[k], k),
            forall|k: int| 0 <= k < i ==> pair_ok(#[trigger] pairs@[k], *old_table, *new_table),
            consumed_ok(pairs@, i as int, *old_table, consumed@),
            forall|k: int|
                0 <= k < i ==> #[trigger] pairs@[k] == spec_pair_of_old(*old_table, *new_table, k),
        decreases old_len - i,
    {
        let ghost pre_pairs = pairs@;
        let ghost pre_consumed = consumed@;
        let old_row = &old_table.rows[i];
        let ghost hi = old_table.rows@[i as int]@.key_hash;
        let mut matched = false;
        match new_table.row_index.get(&old_row.key_hash) {
            Some(j_ref) => {
                let j = *j_ref;
                proof {
                    assert(new_table.row_index@.contains_key(hi));
                    assert(j == new_table.row_index@[hi]);
                }
                if str_eq(old_row.key.as_str(), new_table.rows[j].key.as_str()) {
                    pairs.push(RowPairing::Matched { old_index: i, new_index: j });
                    consumed.insert(old_row.key_hash);
                    matched = true;
                    proof {
                        assert(pairs@[i as int] == spec_pair_of_old(*old_table, *new_table, i as int));
                        assert(consumed@ == pre_consumed.insert(hi));
                        assert forall|h: u64| consumed@.contains(h) implies exists|m: int|
                            0 <= m < i + 1 && is_matched(#[trigger] pairs@[m])
                                && old_table.rows@[m]@.key_hash == h by {
                            if h == hi {
                                assert(is_matched(pairs@[i as int]));
                            } else {
                                assert(pre_consumed.contains(h));
                                let m = choose|m: int|
                                    0 <= m < i && is_matched(#[trigger] pre_pairs[m])
                                        && old_table.rows@[m]@.key_hash == h;
                                assert(is_matched(pairs@[m]));
                            }
                        }
                    }
                }
            },
            None => {},
        }
        if !matched {
            pairs.push(RowPairing::RemovedRow { old_index: i });
            proof {
                assert(pairs@[i as int] == spec_pair_of_old(*old_table, *new_table, i as int));
                assert forall|h: u64| consumed@.contains(h) implies exists|m: int|
                    0 <= m < i + 1 && is_matched(#[trigger] pairs@[m])
                        && old_table.rows@[m]@.key_hash == h by {
                    let m = choose|m: int|
                        0 <= m < i && is_matched(#[trigger] pre_pairs[m])
                            && old_table.rows@[m]@.key_hash == h;
                    assert(is_matched(pairs@[m]));
                }
            }
        }
        i = i + 1;
    }
    proof {
        // the consumed set is exactly the set of hashes the pairing consumes
        assert forall|h: u64| #[trigger]
            consumed@.contains(h) <==> spec_hash_consumed(*old_table, *new_table, h) by {
            if consumed@.contains(h) {
                let m = choose|m: int|
                    0 <= m < old_len && is_matched(#[trigger] pairs@[m])
                        && old_table.rows@[m]@.key_hash == h;
                assert(is_matched(spec_pair_of_old(*old_table, *new_table, m)));
            }
            if spec_hash_consumed(*old_table, *new_table, h) {
                let m = choose|m: int|
                    0 <= m < old_table.rows@.len() && is_matched(
                        #[trigger] spec_pair_of_old(*old_table, *new_table, m),
                    ) && old_table.rows@[m]@.key_hash == h;
                assert(is_matched(pairs@[m]));
            }
        }
    }
    (pairs, consumed)
}

/// Appends, in new-table order, one added pair for every new row whose key
/// hash is not in the consumed set.
fn append_added_rows(new_table: &Table, pairs: &mut Vec<RowPairing>, consumed: &HashSet<u64>)
    requires
        new_table.wf(),
    ensures
        final (pairs)@.len() >= old(pairs)@.len(),
        final (pairs)@.subrange(0, old(pairs)@.len() as int) == old(pairs)@,
        forall|k: int|
            old(pairs)@.len() <= k < final (pairs)@.len() ==> ((#[trigger] final (pairs)@[k]) matches
                RowPairing::AddedRow { new_index }) && added_index(final (pairs)@[k])
                < new_table.rows@.len(),
        forall|k1: int, k2: int|
            old(pairs)@.len() <= k1 < k2 < final (pairs)@.len() ==> added_index(
                #[trigger] final (pairs)@[k1],
            ) < added_index(#[trigger] final (pairs)@[k2]),
        forall|j: int|
            #![trigger new_table.rows@[j]]
            0 <= j < new_table.rows@.len() ==> (added_entry_for(
                final (pairs)@,
                old(pairs)@.len() as int,
                j,
            ) <==> !consumed@.contains(new_table.rows@[j]@.key_hash)),
{
    let old_len = pairs.len();
    let new_len = new_table.rows.len();
    let mut j: usize = 0;
    while j < new_len
        invariant
            new_table.wf(),
            0 <= j <= new_len == new_table.rows@.len(),
            old_len == old(pairs)@.len(),
            pairs@.len() >= old_len,
            pairs@.subrange(0, old_len as int) == old(pairs)@,
            forall|k: int|
                old_len <= k < pairs@.len() ==> ((#[trigger] pairs@[k]) matches
                    RowPairing::AddedRow { new_index }) && added_index(pairs@[k]) < j as int,
            forall|k1: int, k2: int|
                old_len <= k1 < k2 < pairs@.len() ==> added_index(#[trigger] pairs@[k1])
                    < added_index(#[trigger] pairs@[k2]),
            forall|jj: int|
                #![trigger new_table.rows@[jj]]
                0 <= jj < j ==> (added_entry_for(pairs@, old_len as int, jj)
                    <==> !consumed@.contains(new_table.rows@[jj]@.key_hash)),
        decreases new_len - j,
    {
        let ghost pre_pairs = pairs@;
        let h = new_table.rows[j].key_hash;
        let in_consumed = consumed.contains(&h);
        if !in_consumed {
            pairs.push(RowPairing::AddedRow { new_index: j });
        }
        proof {
            assert(pairs@.subrange(0, old_len as int) =~= old(pairs)@);
            assert forall|jj: int|
                #![trigger new_table.rows@[jj]]
                0 <= jj < j + 1 implies (added_entry_for(pairs@, old_len as int, jj)
                <==> !consumed@.contains(new_table.rows@[jj]@.key_hash)) by {
                if jj == j {
                    if !in_consumed {
                        assert(pairs@[pairs@.len() - 1] == (RowPairing::AddedRow { new_index: j }));
                        assert(added_entry_for(pairs@, old_len as int, jj));
                    } else {
                        assert forall|k: int|
                            old_len <= k < pairs@.len() implies #[trigger] pairs@[k] != (
                        RowPairing::AddedRow { new_index: jj as usize }) by {
                            assert(added_index(pairs@[k]) < j as int);
                        }
                        assert(!added_entry_for(pairs@, old_len as int, jj));
                    }
                } else {
                    if added_entry_for(pairs@, old_len as int, jj) {
                        let k = choose|k: int|
                            old_len <= k < pairs@.len() && #[trigger] pairs@[k] == (
                            RowPairing::AddedRow { new_index: jj as usize });
                        assert(k < pre_pairs.len());
                        assert(pre_pairs[k] == pairs@[k]);
                        assert(added_entry_for(pre_pairs, old_len as int, jj));
                        assert(!consumed@.contains(new_table.rows@[jj]@.key_hash));
                    }
                    if !consumed@.contains(new_table.rows@[jj]@.key_hash) {
                        assert(added_entry_for(pre_pairs, old_len as int, jj));
                        let k = choose|k: int|
                            old_len <= k < pre_pairs.len() && #[trigger] pre_pairs[k] == (
                            RowPairing::AddedRow { new_index: jj as usize });
                        assert(pairs@[k] == pre_pairs[k]);
                        assert(added_entry_for(pairs@, old_len as int, jj));
                    }
                }
            }
        }
        j = j + 1;
    }
}

/// Under collision-free hashing, every new row ends up covered by a pair.
#[verifier::rlimit(100)]
#[verifier::spinoff_prover]
proof fn lemma_new_coverage(
    old_table: &Table,
    new_table: &Table,
    pairs: Seq<RowPairing>,
    consumed: Set<u64>,
)
    requires
        old_table.rows@.len() <= usize::MAX,
        new_table.rows@.len() <= usize::MAX,
        index_ok(*new_table),
        pairs.len() >= old_table.rows@.len(),
        forall|k: int| 0 <= k < old_table.rows@.len() ==> covers_old(#[trigger] pairs[k], k),
        forall|k: int|
            0 <= k < old_table.rows@.len() ==> pair_ok(#[trigger] pairs[k], *old_table, *new_table),
        consumed_ok(pairs, old_table.rows@.len() as int, *old_table, consumed),
        forall|j: int|
            #![trigger new_table.rows@[j]]
            0 <= j < new_table.rows@.len() ==> (added_entry_for(
                pairs,
                old_table.rows@.len() as int,
                j,
            ) <==> !consumed.contains(new_table.rows@[j]@.key_hash)),
        distinct_keys(new_table.rows_v()),
        hash_compatible(old_table.rows_v(), new_table.rows_v()),
    ensures
        forall|j: int| 0 <= j < new_table.rows@.len() ==> #[trigger] new_row_covered(pairs, j),
{
    let old_len = old_table.rows@.len() as int;
    let new_len = new_table.rows@.len() as int;
    let ov = old_table.rows_v();
    let nv = new_table.rows_v();
    assert(forall|i: int| 0 <= i < old_len ==> (#[trigger] ov[i]) == old_table.rows@[i]@);
    assert(forall|j: int| 0 <= j < new_len ==> (#[trigger] nv[j]) == new_table.rows@[j]@);
    assert forall|j: int| 0 <= j < new_len implies #[trigger] new_row_covered(pairs, j) by {
        let hj = new_table.rows@[j]@.key_hash;
        if consumed.contains(hj) {
            // the consuming match points at exactly this row: the matched old
            // row's key equals both the indexed row's key and, through the
            // collision-free hypothesis, row j's key, and new keys are
            // distinct
            let m = choose|m: int|
                0 <= m < old_len && is_matched(#[trigger] pairs[m])
                    && old_table.rows@[m]@.key_hash == hj;
            assert(pair_ok(pairs[m], *old_table, *new_table));
            let ni = new_table.row_index@[hj];
            assert((pairs[m] matches RowPairing::Matched { new_index, .. } && new_index == ni));
            assert(old_table.rows@[m]@.key == new_table.rows@[ni as int]@.key);
            assert(ov[m].key_hash == nv[j].key_hash);
            assert(ov[m].key == nv[j].key);
            if ni as int != j {
                assert(nv[ni as int].key == nv[j].key);
                assert(false);
            }
            assert(covers_new(pairs[m], j));
            assert(new_row_covered(pairs, j));
        } else {
            assert(added_entry_for(pairs, old_len, j));
            let k = choose|k: int|
                old_len <= k < pairs.len() && #[trigger] pairs[k] == (RowPairing::AddedRow {
                    new_index: j as usize,
                });
            assert(covers_new(pairs[k], j));
            assert(new_row_covered(pairs, j));
        }
    }
}

/// Under distinct keys and collision-free hashing, no new row is covered by
/// two pairs.
#[verifier::rlimit(100)]
#[verifier::spinoff_prover]
proof fn lemma_new_uniqueness(
    old_table: &Table,
    new_table: &Table,
    pairs: Seq<RowPairing>,
    consumed: Set<u64>,
)
    requires
        old_table.rows@.len() <= usize::MAX,
        new_table.rows@.len() <= usize::MAX,
        index_ok(*new_table),
        pairs.len() >= old_table.rows@.len(),
        forall|k: int| 0 <= k < old_table.rows@.len() ==> covers_old(#[trigger] pairs[k], k),
        forall|k: int|
            0 <= k < old_table.rows@.len() ==> pair_ok(#[trigger] pairs[k], *old_table, *new_table),
        consumed_ok(pairs, old_table.rows@.len() as int, *old_table, consumed),
        forall|k: int|
            old_table.rows@.len() <= k < pairs.len() ==> ((#[trigger] pairs[k]) matches
                RowPairing::AddedRow { new_index }),
        forall|k1: int, k2: int|
            old_table.rows@.len() <= k1 < k2 < pairs.len() ==> added_index(#[trigger] pairs[k1])
                < added_index(#[trigger] pairs[k2]),
        forall|j: int|
            #![trigger new_table.rows@[j]]
            0 <= j < new_table.rows@.len() ==> (added_entry_for(
                pairs,
                old_table.rows@.len() as int,
                j,
            ) <==> !consumed.contains(new_table.rows@[j]@.key_hash)),
        distinct_keys(old_table.rows_v()),
        distinct_keys(new_table.rows_v()),
    ensures
        forall|k1: int, k2: int, j: int|
            #![trigger covers_new(pairs[k1], j), covers_new(pairs[k2], j)]
            0 <= k1 < pairs.len() && 0 <= k2 < pairs.len() && covers_new(pairs[k1], j)
                && covers_new(pairs[k2], j) ==> k1 == k2,
{
    let old_len = old_table.rows@.len() as int;
    let new_len = new_table.rows@.len() as int;
    let ov = old_table.rows_v();
    let nv = new_table.rows_v();
    assert(forall|i: int| 0 <= i < old_len ==> (#[trigger] ov[i]) == old_table.rows@[i]@);
    assert(forall|j: int| 0 <= j < new_len ==> (#[trigger] nv[j]) == new_table.rows@[j]@);
    assert forall|k1: int, k2: int, j: int|
        #![trigger covers_new(pairs[k1], j), covers_new(pairs[k2], j)]
        0 <= k1 < pairs.len() && 0 <= k2 < pairs.len() && covers_new(pairs[k1], j) && covers_new(
            pairs[k2],
            j,
        ) && k1 != k2 implies false by {
        if k1 < old_len && k2 < old_len {
            // two matches of one new row would need two old rows of one key
            assert(pair_ok(pairs[k1], *old_table, *new_table));
            assert(pair_ok(pairs[k2], *old_table, *new_table));
            assert(covers_old(pairs[k1], k1));
            assert(covers_old(pairs[k2], k2));
            assert((pairs[k1] matches RowPairing::Matched { old_index, new_index } && old_index
                == k1 && new_index == j));
            assert((pairs[k2] matches RowPairing::Matched { old_index, new_index } && old_index
                == k2 && new_index == j));
            assert(ov[k1].key == nv[j].key);
            assert(ov[k2].key == nv[j].key);
            assert(false);
        } else if k1 >= old_len && k2 >= old_len {
            if k1 < k2 {
                assert(added_index(pairs[k1]) < added_index(pairs[k2]));
            } else {
                assert(added_index(pairs[k2]) < added_index(pairs[k1]));
            }
            assert(false);
        } else {
            // one match and one added entry of one new row: the match
            // consumed the row's hash, so no added entry exists for it
            let km = if k1 < old_len {
                k1
            } else {
                k2
            };
            let ka = if k1 < old_len {
                k2
            } else {
                k1
            };
            assert(pair_ok(pairs[km], *old_table, *new_table));
            assert(covers_old(pairs[km], km));
            assert((pairs[km] matches RowPairing::Matched { new_index, .. } && new_index == j));
            assert(is_matched(pairs[km]));
            assert(consumed.contains(old_table.rows@[km]@.key_hash));
            let hm = old_table.rows@[km]@.key_hash;
            assert(new_table.row_index@[hm] == j);
            assert(new_table.rows@[j]@.key_hash == hm);
            assert((pairs[ka] matches RowPairing::AddedRow { new_index } && new_index == j));
            assert(pairs[ka] == (RowPairing::AddedRow { new_index: j as usize }));
            assert(added_entry_for(pairs, old_len, j));
            assert(!consumed.contains(new_table.rows@[j]@.key_hash));
            assert(false);
        }
    }
}

/// Restates the added-row condition over the matched pairs: an added entry
/// exists for a new row exactly when no match carries its key hash.
#[verifier::rlimit(100)]
#[verifier::spinoff_prover]
proof fn lemma_added_iff_matched(
    old_table: &Table,
    new_table: &Table,
    pairs: Seq<RowPairing>,
    consumed: Set<u64>,
)
    requires
        old_table.rows@.len() <= usize::MAX,
        new_table.rows@.len() <= usize::MAX,
        pairs.len() >= old_table.rows@.len(),
        consumed_ok(pairs, old_table.rows@.len() as int, *old_table, consumed),
        forall|j: int|
            #![trigger new_table.rows@[j]]
            0 <= j < new_table.rows@.len() ==> (added_entry_for(
                pairs,
                old_table.rows@.len() as int,
                j,
            ) <==> !consumed.contains(new_table.rows@[j]@.key_hash)),
    ensures
        forall|j: int|
            #![trigger new_table.rows@[j]]
            0 <= j < new_table.rows@.len() ==> (added_entry_for(
                pairs,
                old_table.rows@.len() as int,
                j,
            ) <==> !match_consumes(pairs, *old_table, new_table.rows@[j]@.key_hash)),
{
    let old_len = old_table.rows@.len() as int;
    assert forall|j: int|
        #![trigger new_table.rows@[j]]
        0 <= j < new_table.rows@.len() implies (added_entry_for(pairs, old_len, j)
        <==> !match_consumes(pairs, *old_table, new_table.rows@[j]@.key_hash)) by {
        let hj = new_table.rows@[j]@.key_hash;
        if consumed.contains(hj) {
            let m = choose|m: int|
                0 <= m < old_len && is_matched(#[trigger] pairs[m]) && old_table.rows@[m]@.key_hash
                    == hj;
            assert(is_matched(pairs[m]));
            assert(match_consumes(pairs, *old_table, hj));
        } else {
            assert forall|m: int|
                0 <= m < old_len && is_matched(#[trigger] pairs[m]) implies old_table.rows@[m]@.key_hash
                != hj by {
                assert(consumed.contains(old_table.rows@[m]@.key_hash));
            }
            assert(!match_consumes(pairs, *old_table, hj));
        }
    }
}

/// An added segment that is ascending and holds an entry exactly for the
/// unconsumed new rows from `j0` on is the canonical added-pair sequence.
#[verifier::rlimit(100)]
#[verifier::spinoff_prover]
proof fn lemma_added_segment_canonical(
    old_t: &Table,
    new_t: &Table,
    s: Seq<RowPairing>,
    j0: int,
)
    requires
        new_t.rows@.len() <= usize::MAX,
        0 <= j0 <= new_t.rows@.len(),
        forall|k: int| 0 <= k < s.len() ==> ((#[trigger] s[k]) matches RowPairing::AddedRow { .. }),
        forall|k: int|
            0 <= k < s.len() ==> j0 <= added_index(#[trigger] s[k]) < new_t.rows@.len(),
        forall|k1: int, k2: int|
            0 <= k1 < k2 < s.len() ==> added_index(#[trigger] s[k1]) < added_index(
                #[trigger] s[k2],
            ),
        forall|j: int|
            #![trigger new_t.rows@[j]]
            j0 <= j < new_t.rows@.len() ==> ((exists|k: int|
                0 <= k < s.len() && #[trigger] s[k] == (RowPairing::AddedRow {
                    new_index: j as usize,
                })) <==> !spec_hash_consumed(*old_t, *new_t, new_t.rows@[j]@.key_hash)),
    ensures
        s == spec_added_pairs(*old_t, *new_t, j0),
    decreases new_t.rows@.len() - j0,
{
    let new_len = new_t.rows@.len() as int;
    if j0 == new_len {
        assert(s.len() == 0) by {
            if s.len() > 0 {
                assert(j0 <= added_index(s[0]) < new_len);
            }
        }
        assert(s =~= spec_added_pairs(*old_t, *new_t, j0));
    } else {
        let hj = new_t.rows@[j0]@.key_hash;
        if !spec_hash_consumed(*old_t, *new_t, hj) {
            // the segment's first entry is for row j0
            let k0 = choose|k: int|
                0 <= k < s.len() && #[trigger] s[k] == (RowPairing::AddedRow {
                    new_index: j0 as usize,
                });
            assert(added_index(s[k0]) == j0);
            assert(k0 == 0) by {
                if k0 > 0 {
                    assert(added_index(s[0]) < added_index(s[k0]));
                    assert(j0 <= added_index(s[0]));
                }
            }
            let s1 = s.drop_first();
            assert forall|j: int|
                #![trigger new_t.rows@[j]]
                j0 + 1 <= j < new_len implies ((exists|k: int|
                0 <= k < s1.len() && #[trigger] s1[k] == (RowPairing::AddedRow {
                    new_index: j as usize,
                })) <==> !spec_hash_consumed(*old_t, *new_t, new_t.rows@[j]@.key_hash)) by {
                if exists|k: int|
                    0 <= k < s1.len() && #[trigger] s1[k] == (RowPairing::AddedRow {
                        new_index: j as usize,
                    }) {
                    let k = choose|k: int|
                        0 <= k < s1.len() && #[trigger] s1[k] == (RowPairing::AddedRow {
                            new_index: j as usize,
                        });
                    assert(s[k + 1] == (RowPairing::AddedRow { new_index: j as usize }));
                }
                if !spec_hash_consumed(*old_t, *new_t, new_t.rows@[j]@.key_hash) {
                    let k = choose|k: int|
                        0 <= k < s.len() && #[trigger] s[k] == (RowPairing::AddedRow {
                            new_index: j as usize,
                        });
                    assert(k > 0) by {
                        assert(added_index(s[k]) == j);
                    }
                    assert(s1[k - 1] == (RowPairing::AddedRow { new_index: j as usize }));
                }
            }
            assert forall|k: int| 0 <= k < s1.len() implies j0 + 1 <= added_index(
                #[trigger] s1[k],
            ) < new_len by {
                assert(s1[k] == s[k + 1]);
                assert(added_index(s[0]) < added_index(s[k + 1]));
            }
            lemma_added_segment_canonical(old_t, new_t, s1, j0 + 1);
            assert(s =~= seq![RowPairing::AddedRow { new_index: j0 as usize }] + spec_added_pairs(
                *old_t,
                *new_t,
                j0 + 1,
            ));
        } else {
            // no entry for row j0: every entry sits past it
            assert forall|k: int| 0 <= k < s.len() implies j0 + 1 <= added_index(
                #[trigger] s[k],
            ) < new_len by {
                if added_index(s[k]) == j0 {
                    assert(s[k] == (RowPairing::AddedRow { new_index: j0 as usize }));
                }
            }
            lemma_added_segment_canonical(old_t, new_t, s, j0 + 1);
        }
    }
}

/// Pairs old and new rows by key, probing the new table's hash index.
pub struct RowMatcher {
    pub ignore_columns: Vec<String>,
}

impl RowMatcher {
    /// A new matcher; the ignored columns play no part in matching.
    pub fn new(ignore_columns: &[String]) -> (m: RowMatcher)
        ensures
            m.ignore_columns@.len() == ignore_columns@.len(),
    {
        let mut v: Vec<String> = Vec::new();
        let mut i: usize = 0;
        while i < ignore_columns.len()
            invariant
                v@.len() == i <= ignore_columns@.len(),
            decreases ignore_columns@.len() - i,
        {
            v.push(vstd::slice::slice_index_get(ignore_columns, i).clone());
            i = i + 1;
        }
        RowMatcher { ignore_columns: v }
    }

    /// Pairs every old row, in order, with the indexed new row of equal key
    /// hash when the literal keys agree, or emits it as removed; then emits,
    /// in order, every new row whose key hash no match consumed.  A hash
    /// collision with unequal keys never produces a match.  When keys are
    /// distinct within each table and hashes collide only on equal keys,
    /// every old row and every new row appears in exactly one pair.
    #[verifier::rlimit(100)]
    pub fn match_rows(&self, old_table: &Table, new_table: &Table) -> (pairs: Vec<RowPairing>)
        requires
            old_table.wf(),
            new_table.wf(),
        ensures
            // the emitted pairs are exactly the canonical pairing: one pair
            // per old row in order, then the unconsumed new rows in order
            pairs@ == spec_pairs(*old_table, *new_table),
            pairs@.len() >= old_table.rows@.len(),
            // every old row yields exactly the pair at its own position
            forall|k: int| 0 <= k < old_table.rows@.len() ==> covers_old(#[trigger] pairs@[k], k),
            forall|k: int|
                old_table.rows@.len() <= k < pairs@.len() ==> ((#[trigger] pairs@[k]) matches
                    RowPairing::AddedRow { new_index }),
            // a pair is a match only when the literal keys are equal, and a
            // removal certifies that no indexed row of equal key exists
            forall|k: int|
                0 <= k < pairs@.len() ==> pair_ok(#[trigger] pairs@[k], *old_table, *new_table),
            // the added pairs keep the new table's order
            forall|k1: int, k2: int|
                old_table.rows@.len() <= k1 < k2 < pairs@.len() ==> added_index(
                    #[trigger] pairs@[k1],
                ) < added_index(#[trigger] pairs@[k2]),
            // a new row is emitted as added exactly when no match consumed
            // its hash
            forall|j: int|
                #![trigger new_table.rows@[j]]
                0 <= j < new_table.rows@.len() ==> (added_entry_for(
                    pairs@,
                    old_table.rows@.len() as int,
                    j,
                ) <==> !match_consumes(pairs@, *old_table, new_table.rows@[j]@.key_hash)),
            // each old row appears in exactly one pair
            forall|k1: int, k2: int, i: int|
                #![trigger covers_old(pairs@[k1], i), covers_old(pairs@[k2], i)]
                0 <= k1 < pairs@.len() && 0 <= k2 < pairs@.len() && covers_old(pairs@[k1], i)
                    && covers_old(pairs@[k2], i) ==> k1 == k2,
            // under distinct keys and collision-free hashes, each new row
            // appears in exactly one pair
            (distinct_keys(old_table.rows_v()) && distinct_keys(new_table.rows_v())
                && hash_compatible(old_table.rows_v(), new_table.rows_v())) ==> ((forall|j: int|
                0 <= j < new_table.rows@.len() ==> #[trigger] new_row_covered(pairs@, j)) && (
            forall|
                k1: int,
                k2: int,
                j: int,
            |
                #![trigger covers_new(pairs@[k1], j), covers_new(pairs@[k2], j)]
                0 <= k1 < pairs@.len() && 0 <= k2 < pairs@.len() && covers_new(pairs@[k1], j)
                    && covers_new(pairs@[k2], j) ==> k1 == k2)),
    {
        let ghost old_len = old_table.rows@.len() as int;
        let ol_exec = old_table.rows.len();
        let nl_exec = new_table.rows.len();
        proof {
            assert(old_table.rows@.len() <= usize::MAX);
            assert(new_table.rows@.len() <= usize::MAX);
        }
        let (mut pairs, consumed) = pair_old_rows(old_table, new_table);
        let ghost matched_pairs = pairs@;
        append_added_rows(new_table, &mut pairs, &consumed);
        proof {
            let pl = pairs@;
            assert forall|k: int| 0 <= k < old_len implies pl[k] == matched_pairs[k] by {
                assert(pl.subrange(0, old_len)[k] == pl[k]);
            }
            assert forall|k: int| 0 <= k < old_len implies covers_old(#[trigger] pl[k], k)
                && pair_ok(pl[k], *old_table, *new_table) by {
                assert(pl[k] == matched_pairs[k]);
                assert(covers_old(matched_pairs[k], k));
                assert(pair_ok(matched_pairs[k], *old_table, *new_table));
            }
            assert forall|k: int| old_len <= k < pl.len() implies pair_ok(
                #[trigger] pl[k],
                *old_table,
                *new_table,
            ) by {
                assert((pl[k] matches RowPairing::AddedRow { new_index }) && added_index(pl[k])
                    < new_table.rows@.len());
            }
            assert forall|k1: int, k2: int, i: int|
                #![trigger covers_old(pl[k1], i), covers_old(pl[k2], i)]
                0 <= k1 < pl.len() && 0 <= k2 < pl.len() && covers_old(pl[k1], i) && covers_old(
                    pl[k2],
                    i,
                ) implies k1 == k2 by {
                if k1 < old_len {
                    assert(covers_old(pl[k1], k1));
                } else {
                    assert((pl[k1] matches RowPairing::AddedRow { new_index }));
                }
                if k2 < old_len {
                    assert(covers_old(pl[k2], k2));
                } else {
                    assert((pl[k2] matches RowPairing::AddedRow { new_index }));
                }
            }
            assert(consumed_ok(pl, old_len, *old_table, consumed@)) by {
                assert forall|h: u64| consumed@.contains(h) implies exists|m: int|
                    0 <= m < old_len && is_matched(#[trigger] pl[m])
                        && old_table.rows@[m]@.key_hash == h by {
                    let m = choose|m: int|
                        0 <= m < old_len && is_matched(#[trigger] matched_pairs[m])
                            && old_table.rows@[m]@.key_hash == h;
                    assert(is_matched(pl[m]));
                }
                assert forall|m: int|
                    0 <= m < old_len && is_matched(#[trigger] pl[m]) implies consumed@.contains(
                    old_table.rows@[m]@.key_hash,
                ) by {
                    assert(is_matched(matched_pairs[m]));
                }
            }
            lemma_added_iff_matched(old_table, new_table, pl, consumed@);
            // the emitted pairs equal the canonical pairing
            let seg = pl.skip(old_len);
            assert forall|k: int|
                0 <= k < seg.len() implies (((#[trigger] seg[k]) matches RowPairing::AddedRow {
                ..
            }) && 0 <= added_index(seg[k]) < new_table.rows@.len()) by {
                assert(seg[k] == pl[old_len + k]);
            }
            assert forall|k1: int, k2: int|
                0 <= k1 < k2 < seg.len() implies added_index(#[trigger] seg[k1]) < added_index(
                #[trigger] seg[k2],
            ) by {
                assert(seg[k1] == pl[old_len + k1]);
                assert(seg[k2] == pl[old_len + k2]);
            }
            assert forall|j: int|
                #![trigger new_table.rows@[j]]
                0 <= j < new_table.rows@.len() implies ((exists|k: int|
                0 <= k < seg.len() && #[trigger] seg[k] == (RowPairing::AddedRow {
                    new_index: j as usize,
                })) <==> !spec_hash_consumed(
                *old_table,
                *new_table,
                new_table.rows@[j]@.key_hash,
            )) by {
                if exists|k: int|
                    0 <= k < seg.len() && #[trigger] seg[k] == (RowPairing::AddedRow {
                        new_index: j as usize,
                    }) {
                    let k = choose|k: int|
                        0 <= k < seg.len() && #[trigger] seg[k] == (RowPairing::AddedRow {
                            new_index: j as usize,
                        });
                    assert(pl[old_len + k] == (RowPairing::AddedRow { new_index: j as usize }));
                    assert(added_entry_for(pl, old_len, j));
                    assert(!consumed@.contains(new_table.rows@[j]@.key_hash));
                }
                if !spec_hash_consumed(*old_table, *new_table, new_table.rows@[j]@.key_hash) {
                    assert(!consumed@.contains(new_table.rows@[j]@.key_hash));
                    let k = choose|k: int|
                        old_len <= k < pl.len() && #[trigger] pl[k] == (RowPairing::AddedRow {
                            new_index: j as usize,
                        });
                    assert(seg[k - old_len] == (RowPairing::AddedRow { new_index: j as usize }));
                }
            }
            lemma_added_segment_canonical(old_table, new_table, seg, 0);
            assert forall|k: int| 0 <= k < old_len implies #[trigger] pl[k] == spec_pair_of_old(
                *old_table,
                *new_table,
                k,
            ) by {
                assert(pl[k] == matched_pairs[k]);
            }
            assert(pl =~= spec_pairs(*old_table, *new_table));
            if distinct_keys(old_table.rows_v()) && distinct_keys(new_table.rows_v())
                && hash_compatible(old_table.rows_v(), new_table.rows_v()) {
                lemma_new_coverage(old_table, new_table, pl, consumed@);
                lemma_new_uniqueness(old_table, new_table, pl, consumed@);
            }
        }
        pairs
    }
}

/// Pairs rows of two tables whose key columns are already set; the key
/// columns named here play no further part, matching is key-based.
pub fn match_rows_with_keys(
    old_table: &Table,
    new_table: &Table,
    _key_columns: &[String],
) -> (pairs: Vec<RowPairing>)
    requires
        old_table.wf(),
        new_table.wf(),
    ensures
        pairs@ == spec_pairs(*old_table, *new_table),
        pairs@.len() >= old_table.rows@.len(),
        forall|k: int| 0 <= k < old_table.rows@.len() ==> covers_old(#[trigger] pairs@[k], k),
        forall|k: int|
            old_table.rows@.len() <= k < pairs@.len() ==> ((#[trigger] pairs@[k]) matches
                RowPairing::AddedRow { new_index }),
        forall|k: int|
            0 <= k < pairs@.len() ==> pair_ok(#[trigger] pairs@[k], *old_table, *new_table),
        forall|k1: int, k2: int|
            old_table.rows@.len() <= k1 < k2 < pairs@.len() ==> added_index(#[trigger] pairs@[k1])
                < added_index(#[trigger] pairs@[k2]),
        forall|j: int|
            #![trigger new_table.rows@[j]]
            0 <= j < new_table.rows@.len() ==> (added_entry_for(
                pairs@,
                old_table.rows@.len() as int,
                j,
            ) <==> !match_consumes(pairs@, *old_table, new_table.rows@[j]@.key_hash)),
{
    let matcher = RowMatcher::new(&[]);
    matcher.match_rows(old_table, new_table)
}

} // verus!
