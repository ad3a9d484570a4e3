//! End-to-end behaviour of the diff engine.

use datadiff::config::Config;
use datadiff::engine::compute_diff;
use datadiff::engine::DiffEngine;
use datadiff::engine::RowChange;
use datadiff::schema::Column;
use datadiff::table::Table;
use datadiff::value::CellValue;

fn text(s: &str) -> CellValue {
    CellValue::Text(s.to_string())
}

fn table_with(columns: &[&str], key: &[&str], rows: &[Vec<CellValue>]) -> Table {
    let cols = columns
        .iter()
        .enumerate()
        .map(|(i, name)| Column::new(name.to_string(), i))
        .collect();
    let mut table = Table::new(cols);
    let keys: Vec<String> = key.iter().map(|k| k.to_string()).collect();
    table.set_key_columns(&keys);
    for (i, cells) in rows.iter().enumerate() {
        let owned: Vec<CellValue> = cells.iter().cloned().collect();
        table.add_row(owned, i + 2);
    }
    table
}

#[test]
fn one_modified_cell() {
    let old = table_with(
        &["id", "name", "age"],
        &["id"],
        &[vec![text("1"), text("Alice"), CellValue::Int(30)]],
    );
    let new = table_with(
        &["id", "name", "age"],
        &["id"],
        &[vec![text("1"), text("Alice"), CellValue::Int(31)]],
    );
    let diff = compute_diff(&old, &new, &Config::default());
    assert_eq!(diff.stats.rows_modified, 1);
    assert_eq!(diff.stats.rows_unchanged, 0);
    assert_eq!(diff.stats.cells_changed, 1);
    assert_eq!(diff.row_changes.len(), 1);
    match &diff.row_changes[0] {
        RowChange::Modified { key, changes, .. } => {
            assert_eq!(key.as_str(), "1");
            assert_eq!(changes.len(), 1);
            assert_eq!(changes[0].column.as_str(), "age");
            assert!(changes[0].old_value == CellValue::Int(30));
            assert!(changes[0].new_value == CellValue::Int(31));
        }
        other => panic!("expected a modified row, got {:?}", other),
    }
}

#[test]
fn one_added_row() {
    let old = table_with(&["id", "v"], &["id"], &[vec![text("1"), text("x")]]);
    let new = table_with(
        &["id", "v"],
        &["id"],
        &[vec![text("1"), text("x")], vec![text("2"), text("y")]],
    );
    let diff = compute_diff(&old, &new, &Config::default());
    assert_eq!(diff.stats.rows_added, 1);
    assert_eq!(diff.stats.rows_removed, 0);
    assert_eq!(diff.stats.rows_unchanged, 1);
    let added: Vec<_> = diff
        .row_changes
        .iter()
        .filter_map(|c| match c {
            RowChange::Added { key, .. } => Some(key.as_str()),
            _ => None,
        })
        .collect();
    assert_eq!(added, vec!["2"]);
}

#[test]
fn stats_partition_all_pairs() {
    let old = table_with(
        &["id", "v"],
        &["id"],
        &[
            vec![text("a"), CellValue::Int(1)],
            vec![text("b"), CellValue::Int(2)],
            vec![text("c"), CellValue::Int(3)],
        ],
    );
    let new = table_with(
        &["id", "v"],
        &["id"],
        &[
            vec![text("c"), CellValue::Int(30)],
            vec![text("d"), CellValue::Int(4)],
            vec![text("a"), CellValue::Int(1)],
        ],
    );
    let diff = compute_diff(&old, &new, &Config::default());
    // b removed, d added, c modified, a unchanged
    assert_eq!(diff.stats.rows_added, 1);
    assert_eq!(diff.stats.rows_removed, 1);
    assert_eq!(diff.stats.rows_modified, 1);
    assert_eq!(diff.stats.rows_unchanged, 1);
    assert_eq!(diff.stats.old_row_count, 3);
    assert_eq!(diff.stats.new_row_count, 3);
    // the four counts partition old and new rows
    assert_eq!(
        diff.stats.rows_removed + diff.stats.rows_modified + diff.stats.rows_unchanged,
        diff.stats.old_row_count
    );
    assert_eq!(
        diff.stats.rows_added + diff.stats.rows_modified + diff.stats.rows_unchanged,
        diff.stats.new_row_count
    );
    assert_eq!(
        diff.stats.rows_added + diff.stats.rows_removed + diff.stats.rows_modified,
        diff.row_changes.len()
    );
}

#[test]
fn matching_is_order_independent() {
    let old = table_with(
        &["id", "v"],
        &["id"],
        &[vec![text("1"), text("x")], vec![text("2"), text("y")]],
    );
    let new = table_with(
        &["id", "v"],
        &["id"],
        &[vec![text("2"), text("y")], vec![text("1"), text("x")]],
    );
    let diff = compute_diff(&old, &new, &Config::default());
    assert_eq!(diff.stats.rows_added, 0);
    assert_eq!(diff.stats.rows_removed, 0);
    assert_eq!(diff.stats.rows_modified, 0);
    assert_eq!(diff.stats.rows_unchanged, 2);
    assert!(!diff.has_changes());
}

#[test]
fn ignored_columns_do_not_count() {
    let old = table_with(
        &["id", "noise"],
        &["id"],
        &[vec![text("1"), text("a")]],
    );
    let new = table_with(
        &["id", "noise"],
        &["id"],
        &[vec![text("1"), text("b")]],
    );
    let config = Config::default().with_ignore_columns(vec!["noise".to_string()]);
    let engine = DiffEngine::new(config);
    let diff = engine.diff(&old, &new);
    assert_eq!(diff.stats.rows_modified, 0);
    assert_eq!(diff.stats.rows_unchanged, 1);
}

#[test]
fn whole_row_key_when_none_designated() {
    let old = table_with(&["a", "b"], &[], &[vec![text("x"), text("y")]]);
    let new = table_with(&["a", "b"], &[], &[vec![text("x"), text("z")]]);
    // with the whole row as key, a changed cell changes the key: the rows
    // no longer match, so one is removed and one added
    let diff = compute_diff(&old, &new, &Config::default());
    assert_eq!(diff.stats.rows_removed, 1);
    assert_eq!(diff.stats.rows_added, 1);
    assert_eq!(diff.stats.rows_modified, 0);
}

#[test]
fn missing_cells_read_as_null() {
    // the new row is shorter; the engine pads it with nulls at insertion
    let old = table_with(
        &["id", "v"],
        &["id"],
        &[vec![text("1"), text("x")]],
    );
    let new = table_with(&["id", "v"], &["id"], &[vec![text("1")]]);
    let diff = compute_diff(&old, &new, &Config::default());
    assert_eq!(diff.stats.rows_modified, 1);
    match &diff.row_changes[0] {
        RowChange::Modified { changes, .. } => {
            assert_eq!(changes.len(), 1);
            assert!(changes[0].old_value == text("x"));
            assert!(changes[0].new_value == CellValue::Null);
        }
        other => panic!("expected a modified row, got {:?}", other),
    }
}

#[test]
fn result_row_accessors() {
    let old = table_with(&["id"], &["id"], &[vec![text("1")], vec![text("2")]]);
    let new = table_with(&["id"], &["id"], &[vec![text("2")], vec![text("3")]]);
    let diff = compute_diff(&old, &new, &Config::default());
    assert_eq!(diff.added_rows().len(), 1);
    assert_eq!(diff.removed_rows().len(), 1);
    assert_eq!(diff.modified_rows().len(), 0);
    assert!(diff.has_changes());
}
