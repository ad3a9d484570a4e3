//! Schema comparison, type widening, keys, sorting and display forms.

use datadiff::config::parse_output_format;
use datadiff::config::OutputFormat;
use datadiff::git_driver::GitDriverArgs;
use datadiff::key::detect_key_columns;
use datadiff::key::KeyBuilder;
use datadiff::schema::CellType;
use datadiff::schema::Column;
use datadiff::schema_diff::SchemaChange;
use datadiff::schema_diff::SchemaDiff;
use datadiff::table::Row;
use datadiff::table::Table;
use datadiff::value::CellValue;
use datadiff::value::Date;
use datadiff::value::DateTime;
use datadiff::value::FloatVal;

fn text(s: &str) -> CellValue {
    CellValue::Text(s.to_string())
}

fn plain_table(columns: &[&str]) -> Table {
    let cols = columns
        .iter()
        .enumerate()
        .map(|(i, name)| Column::new(name.to_string(), i))
        .collect();
    Table::new(cols)
}

#[test]
fn widen_merges_types() {
    assert_eq!(CellType::Int.widen(CellType::Int), CellType::Int);
    assert_eq!(CellType::Int.widen(CellType::Float), CellType::Float);
    assert_eq!(CellType::Float.widen(CellType::Int), CellType::Float);
    assert_eq!(CellType::Date.widen(CellType::DateTime), CellType::DateTime);
    assert_eq!(CellType::Null.widen(CellType::Bool), CellType::Bool);
    assert_eq!(CellType::Bool.widen(CellType::Null), CellType::Bool);
    assert_eq!(CellType::Bool.widen(CellType::Text), CellType::Mixed);
    assert_eq!(CellType::Int.widen(CellType::Text), CellType::Mixed);
}

#[test]
fn rename_reports_removal_plus_addition() {
    let old = plain_table(&["id", "nm"]);
    let new = plain_table(&["id", "name"]);
    let changes = SchemaDiff::compare(&old, &new);
    assert_eq!(changes.len(), 2);
    match &changes[0] {
        SchemaChange::ColumnRemoved { name, index } => {
            assert_eq!(name.as_str(), "nm");
            assert_eq!(*index, 1);
        }
        other => panic!("expected a removed column, got {:?}", other),
    }
    match &changes[1] {
        SchemaChange::ColumnAdded { name, index } => {
            assert_eq!(name.as_str(), "name");
            assert_eq!(*index, 1);
        }
        other => panic!("expected an added column, got {:?}", other),
    }
}

#[test]
fn schema_symmetry_on_concrete_tables() {
    let a = plain_table(&["id", "left"]);
    let b = plain_table(&["id", "right"]);
    let ab = SchemaDiff::compare(&a, &b);
    let ba = SchemaDiff::compare(&b, &a);
    let added_ab: Vec<(String, usize)> = ab
        .iter()
        .filter_map(|c| match c {
            SchemaChange::ColumnAdded { name, index } => Some((name.clone(), *index)),
            _ => None,
        })
        .collect();
    let removed_ba: Vec<(String, usize)> = ba
        .iter()
        .filter_map(|c| match c {
            SchemaChange::ColumnRemoved { name, index } => Some((name.clone(), *index)),
            _ => None,
        })
        .collect();
    assert_eq!(added_ab, removed_ba);
}

#[test]
fn moved_and_retyped_columns() {
    let mut old = plain_table(&["a", "b"]);
    old.columns[0].inferred_type = CellType::Int;
    old.columns[1].inferred_type = CellType::Text;
    let mut new = plain_table(&["b", "a"]);
    new.columns[0].inferred_type = CellType::Text;
    new.columns[1].inferred_type = CellType::Float;
    let changes = SchemaDiff::compare(&old, &new);
    assert_eq!(changes.len(), 3);
    match &changes[0] {
        SchemaChange::ColumnMoved { name, from_index, to_index } => {
            assert_eq!(name.as_str(), "a");
            assert_eq!(*from_index, 0);
            assert_eq!(*to_index, 1);
        }
        other => panic!("expected a moved column, got {:?}", other),
    }
    match &changes[2] {
        SchemaChange::ColumnTypeChanged { name, old_type, new_type } => {
            assert_eq!(name.as_str(), "a");
            assert_eq!(old_type.as_str(), "int");
            assert_eq!(new_type.as_str(), "float");
        }
        other => panic!("expected a type change, got {:?}", other),
    }
}

#[test]
fn key_uses_designated_columns_only() {
    let indices = vec![0usize];
    let row_a = Row::new(vec![text("1"), text("x")], &indices, 2);
    let row_b = Row::new(vec![text("1"), text("y")], &indices, 3);
    // changing a non-key column never changes the key or its hash
    assert_eq!(row_a.key, row_b.key);
    assert_eq!(row_a.key_hash, row_b.key_hash);
    assert_eq!(row_a.key.as_str(), "1");
    // recomputing from the same values yields the same key and hash
    let row_c = Row::new(vec![text("1"), text("x")], &indices, 9);
    assert_eq!(row_a.key, row_c.key);
    assert_eq!(row_a.key_hash, row_c.key_hash);
}

#[test]
fn whole_row_key_joins_all_displays() {
    let row = Row::new(
        vec![text("a"), CellValue::Int(-5), CellValue::Null, CellValue::Bool(true)],
        &[],
        2,
    );
    assert_eq!(row.key.as_str(), "a|-5|NULL|true");
}

#[test]
fn key_builder_with_separator() {
    let builder = KeyBuilder::new()
        .with_columns(vec![1usize, 0usize])
        .with_separator("::".to_string());
    assert!(builder.has_key_columns());
    assert_eq!(builder.column_indices(), &[1usize, 0usize]);
    let key = builder.build_key(&[text("left"), text("right")]);
    assert_eq!(key.as_str(), "right::left");
    // an out-of-range index is skipped
    let partial = KeyBuilder::new().with_columns(vec![0usize, 9usize]);
    assert_eq!(partial.build_key(&[text("only")]).as_str(), "only");
}

#[test]
fn key_builder_by_names() {
    let table = plain_table(&["id", "name"]);
    let names = vec!["name".to_string(), "missing".to_string()];
    let builder = KeyBuilder::new().with_column_names(&table, &names);
    assert_eq!(builder.column_indices(), &[1usize]);
}

#[test]
fn display_forms() {
    assert_eq!(CellValue::Null.display().as_str(), "NULL");
    assert_eq!(CellValue::Bool(false).display().as_str(), "false");
    assert_eq!(CellValue::Int(i64::MIN).display().as_str(), "-9223372036854775808");
    assert_eq!(
        CellValue::Date(Date { year: 2024, month: 1, day: 5 }).display().as_str(),
        "2024-01-05"
    );
    assert_eq!(
        CellValue::DateTime(DateTime {
            date: Date { year: 1999, month: 12, day: 31 },
            hour: 23,
            minute: 59,
            second: 7,
            nano: 0,
        })
        .display()
        .as_str(),
        "1999-12-31 23:59:07"
    );
    assert_eq!(
        CellValue::DateTime(DateTime {
            date: Date { year: 2000, month: 6, day: 1 },
            hour: 1,
            minute: 2,
            second: 3,
            nano: 450_000_000,
        })
        .display()
        .as_str(),
        "2000-06-01 01:02:03.450"
    );
    let f = CellValue::Float(FloatVal::new(2.5f64.to_bits(), 2.5f64.to_string()));
    assert_eq!(f.display().as_str(), "2.5");
}

#[test]
fn sort_by_column_orders_rows() {
    let mut table = plain_table(&["id", "v"]);
    table.add_row(vec![CellValue::Int(3), text("c")], 2);
    table.add_row(vec![CellValue::Int(1), text("a")], 3);
    table.add_row(vec![CellValue::Int(2), text("b")], 4);
    table.sort_by_column("id");
    let ids: Vec<i64> = table
        .rows
        .iter()
        .map(|r| match r.cells[0] {
            CellValue::Int(i) => i,
            _ => panic!("expected an integer id"),
        })
        .collect();
    assert_eq!(ids, vec![1, 2, 3]);
    // rows keep their data; the index still finds them by key hash
    assert_eq!(table.row_count(), 3);
    let probe = table.get_row_by_hash(table.rows[0].key_hash);
    assert!(probe.is_some());
}

#[test]
fn detect_key_columns_finds_first_unique() {
    let mut table = plain_table(&["dup", "uniq"]);
    table.add_row(vec![text("x"), text("1")], 2);
    table.add_row(vec![text("x"), text("2")], 3);
    assert_eq!(detect_key_columns(&table), vec![1usize]);
    let mut none = plain_table(&["dup"]);
    none.add_row(vec![text("x")], 2);
    none.add_row(vec![text("x")], 3);
    assert_eq!(detect_key_columns(&none), Vec::<usize>::new());
}

#[test]
fn output_format_names() {
    assert_eq!(parse_output_format("terminal"), Some(OutputFormat::Terminal));
    assert_eq!(parse_output_format("JSON"), Some(OutputFormat::Json));
    assert_eq!(parse_output_format("Html"), Some(OutputFormat::Html));
    assert_eq!(parse_output_format("unified"), Some(OutputFormat::Unified));
    assert_eq!(parse_output_format("csv"), None);
}

#[test]
fn git_driver_arguments() {
    let args: Vec<String> = vec!["prog", "old.csv", "aaaa", "100644", "new.csv", "bbbb", "100644"]
        .into_iter()
        .map(|s| s.to_string())
        .collect();
    let parsed = GitDriverArgs::parse(&args).expect("seven arguments parse");
    assert_eq!(parsed.old_file.as_str(), "old.csv");
    assert_eq!(parsed.new_file.as_str(), "new.csv");
    assert!(GitDriverArgs::parse(&args[..5]).is_none());
}

#[test]
fn column_lookup() {
    let table = plain_table(&["id", "name"]);
    assert_eq!(table.column_index("name"), Some(1));
    assert_eq!(table.column_index("missing"), None);
    assert!(table.column("id").is_some());
    assert_eq!(table.column_count(), 2);
}
