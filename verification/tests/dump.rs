use mysqldump_for_redshift::query::{plan_select_queries, probe_query, range_queries, select_list, ColumnInfo, SelectPlan};
use mysqldump_for_redshift::record::{to_json, Cell, Column, FieldValue};

fn info(name: &str, sql_type: &str) -> ColumnInfo {
    ColumnInfo { name: name.to_string(), sql_type: sql_type.to_string() }
}

fn column(name: &str, sql_type: &str, cell: Cell) -> Column {
    Column { name: name.to_string(), sql_type: sql_type.to_string(), cell }
}

fn text(s: &str) -> Option<FieldValue> {
    Some(FieldValue::Text(s.to_string()))
}

fn date_time(year: i32, month: u32, day: u32, hour: u32, minute: u32, second: u32, nano: u32) -> Cell {
    Cell::DateTime { year, month, day, hour, minute, second, nano }
}

/// The row of the `tests` table as it is read, column by column, with the
/// types under which it is fetched (the geometry column comes back as text).
/// The number of values per range for `min..=max` split into `parts` parts,
/// in the floating-point arithmetic that the program uses.
fn partition_size(min: i64, max: i64, parts: usize) -> i64 {
    let estimated_rows = max - min + 1;
    if estimated_rows < parts as i64 {
        estimated_rows
    } else {
        (estimated_rows as f64 / parts as f64).ceil() as i64
    }
}

fn tests_row() -> Vec<Column> {
    vec![
        column("col_boolean", "BOOLEAN", Cell::Bool(true)),
        column("col_tinyint", "TINYINT", Cell::Int(2)),
        column("col_smallint", "SMALLINT", Cell::Int(3)),
        column("col_mediumint", "MEDIUMINT", Cell::Int(4)),
        column("col_int", "INT", Cell::Int(5)),
        column("col_bigint", "BIGINT", Cell::Int(6)),
        column("col_float", "FLOAT", Cell::Float32Bits(7.1f32.to_bits())),
        column("col_double", "DOUBLE", Cell::Float64Bits(8.2f64.to_bits())),
        column("col_utinyint", "TINYINT UNSIGNED", Cell::UInt(9)),
        column("col_usmallint", "SMALLINT UNSIGNED", Cell::UInt(10)),
        column("col_umediumint", "MEDIUMINT UNSIGNED", Cell::UInt(11)),
        column("col_uint", "INT UNSIGNED", Cell::UInt(12)),
        column("col_ubigint", "BIGINT UNSIGNED", Cell::UInt(13)),
        column("col_ufloat", "FLOAT", Cell::Float32Bits(14.3f32.to_bits())),
        column("col_udouble", "DOUBLE", Cell::Float64Bits(15.4f64.to_bits())),
        column("col_date", "DATE", Cell::Date { year: 2022, month: 5, day: 19 }),
        column("col_time", "TIME", Cell::Time { hour: 1, minute: 52, second: 6, nano: 0 }),
        column("col_datetime", "DATETIME", date_time(2022, 5, 19, 1, 53, 32, 0)),
        column("col_timestamp", "TIMESTAMP", date_time(2022, 5, 19, 1, 54, 11, 0)),
        column("col_time6", "TIME", Cell::Time { hour: 7, minute: 34, second: 48, nano: 609_548_000 }),
        column("col_datetime6", "DATETIME", date_time(2022, 5, 23, 7, 15, 9, 982_443_000)),
        column("col_timestamp6", "TIMESTAMP", date_time(2022, 5, 23, 7, 15, 23, 331_896_000)),
        column("col_char", "CHAR", Cell::Text("20".to_string())),
        column("col_varchar", "VARCHAR", Cell::Text("21".to_string())),
        column("col_binary", "BINARY", Cell::Unread),
        column("col_varbinary", "VARBINARY", Cell::Unread),
        column("col_tinyblob", "TINYBLOB", Cell::Unread),
        column("col_blob", "BLOB", Cell::Unread),
        column("col_mediumblob", "MEDIUMBLOB", Cell::Unread),
        column("col_longblob", "LONGBLOB", Cell::Unread),
        column("col_tinytext", "TINYTEXT", Cell::Text("28".to_string())),
        column("col_text", "TEXT", Cell::Text("29".to_string())),
        column("col_mediumtext", "MEDIUMTEXT", Cell::Text("30".to_string())),
        column("col_longtext", "LONGTEXT", Cell::Text("31".to_string())),
        column("col_enum", "ENUM", Cell::Text("e2".to_string())),
        column("col_set", "CHAR", Cell::Text("s1,s3".to_string())),
        column("col_geometry", "LONGTEXT", Cell::Text("POINT(34 0)".to_string())),
        column("col_json", "JSON", Cell::Text(r#"{"values":[35]}"#.to_string())),
    ]
}

#[test]
fn it_works() {
    // The table has a row and no partition column: one query for the whole table.
    let probe = vec![info("col_boolean", "BOOLEAN"), info("col_geometry", "GEOMETRY"), info("col_json", "JSON")];
    let queries = match plan_select_queries("tests", Some(&probe), None) {
        SelectPlan::Queries(qs) => qs,
        SelectPlan::NeedsRange { .. } => panic!("no partition column was given"),
    };
    assert_eq!(queries.len(), 1);
    assert_eq!(
        queries[0],
        "select `col_boolean`, ST_AsText(`col_geometry`) as `col_geometry`, `col_json` from `tests`"
    );

    let record = to_json(&tests_row()).unwrap();
    let get = |k: &str| record.get(k).cloned();

    // numeric data types
    assert_eq!(get("col_boolean"), Some(FieldValue::Bool(true)));
    assert_eq!(get("col_tinyint"), Some(FieldValue::Int(2)));
    assert_eq!(get("col_smallint"), Some(FieldValue::Int(3)));
    assert_eq!(get("col_mediumint"), Some(FieldValue::Int(4)));
    assert_eq!(get("col_int"), Some(FieldValue::Int(5)));
    assert_eq!(get("col_bigint"), Some(FieldValue::Int(6)));
    assert_eq!(get("col_float"), Some(FieldValue::Float32Bits(7.1f32.to_bits())));
    assert_eq!(get("col_double"), Some(FieldValue::Float64Bits(8.2f64.to_bits())));
    assert_eq!(get("col_utinyint"), Some(FieldValue::UInt(9)));
    assert_eq!(get("col_usmallint"), Some(FieldValue::UInt(10)));
    assert_eq!(get("col_umediumint"), Some(FieldValue::UInt(11)));
    assert_eq!(get("col_uint"), Some(FieldValue::UInt(12)));
    assert_eq!(get("col_ubigint"), Some(FieldValue::UInt(13)));
    assert_eq!(get("col_ufloat"), Some(FieldValue::Float32Bits(14.3f32.to_bits())));
    assert_eq!(get("col_udouble"), Some(FieldValue::Float64Bits(15.4f64.to_bits())));

    // date and time data types
    assert_eq!(get("col_date"), text("2022-05-19"));
    assert_eq!(get("col_time"), text("01:52:06"));
    assert_eq!(get("col_datetime"), text("2022-05-19 01:53:32"));
    assert_eq!(get("col_timestamp"), text("2022-05-19 01:54:11"));
    assert_eq!(get("col_time6"), text("07:34:48.609548"));
    assert_eq!(get("col_datetime6"), text("2022-05-23 07:15:09.982443"));
    assert_eq!(get("col_timestamp6"), text("2022-05-23 07:15:23.331896"));

    // string data types (binary types are not supported)
    assert_eq!(get("col_char"), text("20"));
    assert_eq!(get("col_varchar"), text("21"));
    assert_eq!(get("col_binary"), None);
    assert_eq!(get("col_varbinary"), None);
    assert_eq!(get("col_tinyblob"), None);
    assert_eq!(get("col_blob"), None);
    assert_eq!(get("col_mediumblob"), None);
    assert_eq!(get("col_longblob"), None);
    assert_eq!(get("col_tinytext"), text("28"));
    assert_eq!(get("col_text"), text("29"));
    assert_eq!(get("col_mediumtext"), text("30"));
    assert_eq!(get("col_longtext"), text("31"));
    assert_eq!(get("col_enum"), text("e2"));
    assert_eq!(get("col_set"), text("s1,s3"));

    // spatial data types (converted to text format)
    assert_eq!(get("col_geometry"), text("POINT(34 0)"));

    // JSON data types
    assert_eq!(get("col_json"), text(r#"{"values":[35]}"#));

    // nothing else
    assert_eq!(record.len(), 32);

    // Partitioned table
    let probe = vec![info("id", "INT")];
    let (min_max, list) = match plan_select_queries("partitioned_tests", Some(&probe), Some("id")) {
        SelectPlan::NeedsRange { min_max_query, select_list } => (min_max_query, select_list),
        SelectPlan::Queries(_) => panic!("a partition column was given"),
    };
    assert_eq!(min_max, "select min(id), max(id) from `partitioned_tests`");
    let queries = range_queries(&list, "partitioned_tests", "id", 1, 20, partition_size(1, 20, 4));
    assert_eq!(queries.len(), 4);
    assert_eq!(queries[0], "select `id` from `partitioned_tests` where `id` between 1 and 5");
    assert_eq!(queries[1], "select `id` from `partitioned_tests` where `id` between 6 and 10");
    assert_eq!(queries[2], "select `id` from `partitioned_tests` where `id` between 11 and 15");
    assert_eq!(queries[3], "select `id` from `partitioned_tests` where `id` between 16 and 20");
}

#[test]
fn probe_query_fetches_one_row() {
    assert_eq!(probe_query("tests"), "select * from `tests` limit 1");
}

#[test]
fn empty_table_is_read_whole() {
    match plan_select_queries("tests", None, Some("id")) {
        SelectPlan::Queries(qs) => assert_eq!(qs, vec!["select * from `tests`".to_string()]),
        SelectPlan::NeedsRange { .. } => panic!("an empty table needs no range"),
    }
}

#[test]
fn select_list_of_no_columns_is_empty() {
    assert_eq!(select_list(&vec![]), "");
    assert_eq!(select_list(&vec![info("a", "INT")]), "`a`");
}
