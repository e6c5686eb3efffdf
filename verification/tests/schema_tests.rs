use csvpsql::accumulate::accumulate_columns;
use csvpsql::column::{Column, ColumnConstraint, ColumnType, Table};
use csvpsql::names::{get_column_names, get_table_name};
use csvpsql::schema::infer_schema;
use csvpsql::{Opt, SchemaError};
use std::path::{Path, PathBuf};

fn owned(rows: &[&[&str]]) -> Vec<Vec<String>> {
    rows.iter().map(|r| r.iter().map(|s| s.to_string()).collect()).collect()
}

fn header(fields: &[&str]) -> Vec<String> {
    fields.iter().map(|s| s.to_string()).collect()
}

fn opt_with(no_header: bool, columns: Option<&str>, null_as: &str, table_name: &str) -> Opt {
    Opt {
        no_header,
        delimiter: ',',
        columns: columns.map(|s| s.to_string()),
        null_as: null_as.to_string(),
        file: None,
        table_name: Some(table_name.to_string()),
    }
}

#[test]
fn test_get_table_name() {
    assert_eq!(
        get_table_name(
            Option::from("t".to_owned()),
            Option::from(PathBuf::from(Box::from(Path::new("f.csv"))))
        ),
        "t"
    );
    assert_eq!(
        get_table_name(None, Option::from(PathBuf::from(Box::from(Path::new("f.csv"))))),
        "f"
    );
}

#[test]
fn test_get_table_name_fallback() {
    assert_eq!(get_table_name(None, None), "csvpsql");
}

#[test]
fn test_column_names_override_wins_over_header() {
    let h = header(&["one", "two"]);
    let names = get_column_names(Some("x,y"), false, &h).unwrap();
    assert_eq!(names, vec!["x".to_string(), "y".to_string()]);
    // The same override with headers off: the header plays no part.
    let names = get_column_names(Some("x,y"), true, &h).unwrap();
    assert_eq!(names, vec!["x".to_string(), "y".to_string()]);
}

#[test]
fn test_column_names_header_wins_over_letters() {
    let h = header(&["City Name", "POPULATION"]);
    let names = get_column_names(None, false, &h).unwrap();
    assert_eq!(names, vec!["city_name".to_string(), "population".to_string()]);
}

#[test]
fn test_column_names_fallback_letters() {
    let h = header(&["1", "x"]);
    let names = get_column_names(None, true, &h).unwrap();
    assert_eq!(names, vec!["a".to_string(), "b".to_string()]);
}

#[test]
fn test_column_names_all_letters() {
    let fields: Vec<String> = (0..26).map(|i| i.to_string()).collect();
    let names = get_column_names(None, true, &fields).unwrap();
    assert_eq!(names.len(), 26);
    assert_eq!(names[0], "a");
    assert_eq!(names[25], "z");
}

#[test]
fn test_column_names_too_many_for_letters() {
    let fields: Vec<String> = (0..27).map(|i| i.to_string()).collect();
    assert_eq!(
        get_column_names(None, true, &fields),
        Err(SchemaError::UnsupportedColumnCount)
    );
}

#[test]
fn test_column_names_count_mismatch() {
    let h = header(&["one", "two", "three"]);
    assert_eq!(
        get_column_names(Some("x,y"), false, &h),
        Err(SchemaError::ColumnCountMismatch)
    );
}

#[test]
fn test_column_names_empty_segments() {
    let h = header(&["one", "two", "three"]);
    let names = get_column_names(Some("a,,b"), false, &h).unwrap();
    assert_eq!(names, vec!["a".to_string(), "".to_string(), "b".to_string()]);
}

#[test]
fn test_accumulate_nullability_join() {
    // One non-sentinel value makes the column not-null for good.
    let rows = owned(&[&["1"], &[""], &["3"]]);
    let (_, cons) = accumulate_columns(&rows, 1, "").unwrap();
    assert_eq!(cons, vec![ColumnConstraint::NotNull]);
    // A column of nothing but the sentinel stays nullable.
    let rows = owned(&[&[""], &[""], &[""]]);
    let (tys, cons) = accumulate_columns(&rows, 1, "").unwrap();
    assert_eq!(tys, vec![ColumnType::Unknown]);
    assert_eq!(cons, vec![ColumnConstraint::Nullable]);
}

#[test]
fn test_accumulate_widening_order_independent() {
    let forward = owned(&[&["1"], &["2.5"], &["text"]]);
    let backward = owned(&[&["text"], &["2.5"], &["1"]]);
    let (t1, _) = accumulate_columns(&forward, 1, "").unwrap();
    let (t2, _) = accumulate_columns(&backward, 1, "").unwrap();
    assert_eq!(t1, t2);
    assert_eq!(t1, vec![ColumnType::Text]);
}

#[test]
fn test_accumulate_row_arity_mismatch() {
    let rows = owned(&[&["a", "b"], &["c"]]);
    assert_eq!(
        accumulate_columns(&rows, 2, ""),
        Err(SchemaError::RowArityMismatch)
    );
}

#[test]
fn test_infer_schema_end_to_end() {
    let h = header(&["city", "country", "population"]);
    let rows = owned(&[
        &["Paris", "France", "2100000"],
        &["Lyon", "France", "513000"],
    ]);
    let out = infer_schema(opt_with(false, None, "", "cities"), &h, &rows).unwrap();
    assert_eq!(
        out,
        "create table cities (\n    city text not null,\n    country text not null,\n    population integer not null\n);\n"
    );
}

#[test]
fn test_infer_schema_headerless_letters() {
    // With headers off the first data row stands in for the header: it
    // is read only for its width.
    let rows = owned(&[&["1", "x"], &["2", "y"]]);
    let h = rows[0].clone();
    let out = infer_schema(opt_with(true, None, "", "t"), &h, &rows).unwrap();
    assert_eq!(
        out,
        "create table t (\n    a integer not null,\n    b text not null\n);\n"
    );
}

#[test]
fn test_infer_schema_single_row_sentinel_column() {
    // A single-row run where that row's field is the sentinel: no
    // non-sentinel value was ever seen, so the column stays nullable,
    // and its type falls back to text.
    let h = header(&["a", "b"]);
    let rows = owned(&[&["", "5"]]);
    let out = infer_schema(opt_with(false, None, "", "t"), &h, &rows).unwrap();
    assert_eq!(out, "create table t (\n    a text,\n    b integer not null\n);\n");
}

#[test]
fn test_infer_schema_empty_input() {
    let h = header(&["a"]);
    let rows: Vec<Vec<String>> = Vec::new();
    assert_eq!(
        infer_schema(opt_with(false, None, "", "t"), &h, &rows),
        Err(SchemaError::EmptyInput)
    );
}

#[test]
fn test_infer_schema_date_columns() {
    let h = header(&["day", "seen"]);
    let rows = owned(&[
        &["2020-01-01", "2020-01-01 18:30:04 +02:00"],
        &["2021-06-30", "2021-06-30 07:00:01 +02:00"],
    ]);
    let out = infer_schema(opt_with(false, None, "", "t"), &h, &rows).unwrap();
    assert_eq!(
        out,
        "create table t (\n    day date not null,\n    seen timestamp not null\n);\n"
    );
}

#[test]
fn test_render_idempotent() {
    let table = Table {
        name: "t".to_string(),
        columns: vec![
            Column {
                name: "a".to_string(),
                ctype: ColumnType::Integer,
                constraint: ColumnConstraint::NotNull,
            },
            Column {
                name: "b".to_string(),
                ctype: ColumnType::Text,
                constraint: ColumnConstraint::Nullable,
            },
        ],
    };
    let first = table.render();
    let second = table.render();
    assert_eq!(first, second);
    assert_eq!(first.as_bytes(), second.as_bytes());
    assert_eq!(first, "create table t (\n    a integer not null,\n    b text\n);\n");
}

#[test]
fn test_error_messages() {
    assert_eq!(SchemaError::EmptyInput.message(), "csv file has no records.");
    assert_eq!(
        SchemaError::ColumnCountMismatch.message(),
        "There is more columns in the file than provided by columns option."
    );
    assert_eq!(
        SchemaError::RowArityMismatch.message(),
        "A row has a different number of fields than the header."
    );
    assert_eq!(
        SchemaError::UnsupportedColumnCount.message(),
        "Default column names support at most 26 columns."
    );
}
