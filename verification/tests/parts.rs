use mysqldump_for_redshift::calendar::{format_date, format_date_time, format_time};
use mysqldump_for_redshift::partition::{check_partition_fits, partition_ranges};
use mysqldump_for_redshift::query::{range_query, select_expression, ColumnInfo};
use mysqldump_for_redshift::record::{column_kind, convert_column, to_json, Cell, Column, ColumnKind, FieldValue, ToJsonError};
use mysqldump_for_redshift::text::{join, str_equal, to_ascii_lowercase};
use mysqldump_for_redshift::upload::{object_key, present_keys, UploadPlanner};
use mysqldump_for_redshift::compress::{compressed_len, finish_chunk, new_chunk, upload_body, write_json_line};
use std::io::Read;

fn column(name: &str, sql_type: &str, cell: Cell) -> Column {
    Column { name: name.to_string(), sql_type: sql_type.to_string(), cell }
}

#[test]
fn ranges_split_evenly() {
    assert_eq!(partition_ranges(1, 20, 5), vec![(1, 5), (6, 10), (11, 15), (16, 20)]);
}

#[test]
fn ranges_last_one_shorter() {
    assert_eq!(partition_ranges(1, 10, 4), vec![(1, 4), (5, 8), (9, 10)]);
}

#[test]
fn ranges_fewer_values_than_parts_give_one_range() {
    assert_eq!(partition_ranges(5, 7, 3), vec![(5, 7)]);
}

#[test]
fn ranges_of_the_largest_size_give_one_range() {
    assert_eq!(partition_ranges(-3, 4, i64::MAX), vec![(-3, 4)]);
}

#[test]
fn ranges_of_empty_interval_are_none() {
    assert_eq!(partition_ranges(10, 9, 0), vec![]);
}

#[test]
fn ranges_single_value() {
    assert_eq!(partition_ranges(42, 42, 1), vec![(42, 42)]);
}

#[test]
fn ranges_negative_values() {
    assert_eq!(partition_ranges(-10, -1, 5), vec![(-10, -6), (-5, -1)]);
}

#[test]
fn partition_fits_checks_overflow() {
    assert!(check_partition_fits(1, 20, 5));
    assert!(!check_partition_fits(1, i64::MAX, 5));
    assert!(!check_partition_fits(5, 10, i64::MAX));
    assert!(check_partition_fits(0, 10, i64::MAX));
    assert!(!check_partition_fits(1, 10, 0));
    assert!(!check_partition_fits(1, 10, -2));
    assert!(check_partition_fits(10, 9, 0));
}

#[test]
fn ranges_for_a_rounded_size() {
    // 2^53 + 1 values with one part: the size rounds to 2^53 in f64.
    let max: i64 = 1 << 53;
    let size = ((max + 1) as f64 / 1.0f64).ceil() as i64;
    assert_eq!(size, 1 << 53);
    assert_eq!(partition_ranges(0, max, size), vec![(0, max - 1), (max, max)]);
}

#[test]
fn range_query_writes_signed_bounds() {
    assert_eq!(
        range_query("`a`", "t", "a", i64::MIN, -1),
        "select `a` from `t` where `a` between -9223372036854775808 and -1"
    );
}

#[test]
fn geometry_is_selected_as_text() {
    let c = ColumnInfo { name: "shape".to_string(), sql_type: "GEOMETRY".to_string() };
    assert_eq!(select_expression(&c), "ST_AsText(`shape`) as `shape`");
    let c = ColumnInfo { name: "shape".to_string(), sql_type: "POINT".to_string() };
    assert_eq!(select_expression(&c), "`shape`");
}

#[test]
fn kinds_by_type_name() {
    assert_eq!(column_kind("BIGINT UNSIGNED"), Some(ColumnKind::UnsignedInteger));
    assert_eq!(column_kind("LONGBLOB"), Some(ColumnKind::Binary));
    assert_eq!(column_kind("GEOMETRY"), Some(ColumnKind::Geometry));
    assert_eq!(column_kind("DECIMAL"), None);
    assert_eq!(column_kind("int"), None);
}

#[test]
fn dates_follow_chrono() {
    assert_eq!(format_date(2022, 5, 19).as_deref(), Some("2022-05-19"));
    assert_eq!(format_date(999, 1, 2).as_deref(), Some("0999-01-02"));
    assert_eq!(format_date(-1, 12, 31).as_deref(), Some("-0001-12-31"));
    assert_eq!(format_date(10000, 1, 1).as_deref(), Some("+10000-01-01"));
    assert_eq!(format_date(2024, 2, 29).as_deref(), Some("2024-02-29"));
    assert_eq!(format_date(2023, 2, 29), None);
    assert_eq!(format_date(1900, 2, 29), None);
    assert_eq!(format_date(2022, 13, 1), None);
    assert_eq!(format_date(262143, 1, 1), None);
}

#[test]
fn times_follow_chrono() {
    assert_eq!(format_time(1, 52, 6, 0).as_deref(), Some("01:52:06"));
    assert_eq!(format_time(0, 0, 0, 123_000_000).as_deref(), Some("00:00:00.123"));
    assert_eq!(format_time(0, 0, 0, 123_456_000).as_deref(), Some("00:00:00.123456"));
    assert_eq!(format_time(0, 0, 0, 123_456_789).as_deref(), Some("00:00:00.123456789"));
    assert_eq!(format_time(0, 0, 0, 5).as_deref(), Some("00:00:00.000000005"));
    assert_eq!(format_time(23, 59, 59, 1_500_000_000).as_deref(), Some("23:59:60.500"));
    assert_eq!(format_time(23, 59, 58, 1_500_000_000), None);
    assert_eq!(format_time(24, 0, 0, 0), None);
    assert_eq!(
        format_date_time(2022, 5, 23, 7, 15, 9, 982_443_000).as_deref(),
        Some("2022-05-23 07:15:09.982443")
    );
    assert_eq!(format_date_time(2022, 5, 32, 7, 15, 9, 0), None);
}

#[test]
fn keys_are_lower_case_and_later_columns_win() {
    let row = vec![
        column("Id", "INT", Cell::Int(1)),
        column("ID", "INT", Cell::Int(2)),
        column("Name", "VARCHAR", Cell::Null),
    ];
    let record = to_json(&row).unwrap();
    assert_eq!(record.len(), 1);
    assert_eq!(record.get("id"), Some(&FieldValue::Int(2)));
    assert_eq!(record.get("ID"), None);
    assert_eq!(record.get("name"), None);
}

#[test]
fn null_values_are_left_out() {
    let row = vec![column("a", "DATE", Cell::Null), column("b", "JSON", Cell::Null)];
    assert_eq!(to_json(&row).unwrap().len(), 0);
}

#[test]
fn unsupported_type_is_an_error() {
    let row = vec![
        column("a", "INT", Cell::Int(1)),
        column("price", "DECIMAL", Cell::Unread),
        column("c", "INT", Cell::Unread),
    ];
    let err = to_json(&row).unwrap_err();
    assert_eq!(
        err,
        ToJsonError::UnsupportedType { column: "price".to_string(), sql_type: "DECIMAL".to_string() }
    );
    assert_eq!(err.message(), "Unsupported MySQL data type is found in price column: DECIMAL");
}

#[test]
fn undecodable_value_is_an_error() {
    let row = vec![column("d", "DATE", Cell::Date { year: 2022, month: 2, day: 30 })];
    let err = to_json(&row).unwrap_err();
    assert_eq!(err, ToJsonError::Undecodable { column: "d".to_string() });
    assert_eq!(err.message(), "failed to deserialize row data of d column");
    let row = vec![column("n", "INT", Cell::Text("1".to_string()))];
    assert_eq!(to_json(&row).unwrap_err(), ToJsonError::Undecodable { column: "n".to_string() });
}

#[test]
fn binary_columns_are_never_read() {
    let c = column("blob", "BLOB", Cell::Text("x".to_string()));
    assert_eq!(convert_column(&c), Ok(None));
}

#[test]
fn column_conversion_lower_cases_the_name() {
    let c = column("MixedCase_1", "BOOLEAN", Cell::Bool(false));
    assert_eq!(convert_column(&c), Ok(Some(("mixedcase_1".to_string(), FieldValue::Bool(false)))));
}

#[test]
fn object_keys_are_zero_padded() {
    assert_eq!(object_key("m4r/benchmark_tests/", 0), "m4r/benchmark_tests/00000.json.gz");
    assert_eq!(object_key("p/", 42), "p/00042.json.gz");
    assert_eq!(object_key("", 123456), "123456.json.gz");
}

#[test]
fn different_numbers_give_different_keys() {
    assert_ne!(object_key("p/", 1), object_key("p/", 10));
    assert_ne!(object_key("p/", 99999), object_key("p/", 999990));
}

#[test]
fn uploads_are_numbered_in_order() {
    let mut planner = UploadPlanner::new(100);
    assert_eq!(planner.after_row(10), None);
    assert_eq!(planner.after_row(100), Some(0));
    assert_eq!(planner.after_row(99), None);
    assert_eq!(planner.after_row(250), Some(1));
    assert_eq!(planner.at_end(0), None);
    assert_eq!(planner.planned_uploads(), 2);
    assert_eq!(planner.at_end(1), Some(2));
    assert_eq!(planner.planned_uploads(), 3);
}

#[test]
fn only_listed_objects_with_keys_are_deleted() {
    let listing = vec![Some("a".to_string()), None, Some("b".to_string())];
    assert_eq!(present_keys(&listing), vec!["a".to_string(), "b".to_string()]);
}

#[test]
fn text_helpers() {
    assert_eq!(to_ascii_lowercase("Col_ÄB"), "col_Äb");
    assert!(str_equal("GEOMETRY", "GEOMETRY"));
    assert!(!str_equal("GEOMETRY", "GEOMETRYX"));
    assert_eq!(join(&vec!["a".to_string(), "b".to_string()], ", "), "a, b");
}

fn gunzip(bytes: &[u8]) -> Vec<u8> {
    let mut out = Vec::new();
    flate2::read::GzDecoder::new(bytes).read_to_end(&mut out).unwrap();
    out
}

#[test]
fn chunk_holds_the_lines_written() {
    let mut chunk = new_chunk();
    write_json_line(&mut chunk, b"{\"a\":1}".to_vec()).unwrap();
    write_json_line(&mut chunk, b"{\"b\":\"x\"}".to_vec()).unwrap();
    let body = finish_chunk(chunk).unwrap();
    assert_eq!(&body[..10], &[0x1f, 0x8b, 8, 0, 0, 0, 0, 0, 0, 0xff]);
    assert_eq!(&body[body.len() - 4..], &[18, 0, 0, 0]);
    assert_eq!(gunzip(&body), b"{\"a\":1}\n{\"b\":\"x\"}\n".to_vec());
}

#[test]
fn empty_chunk_emits_nothing_until_finished() {
    let chunk = new_chunk();
    assert_eq!(compressed_len(&chunk), 0);
    let body = finish_chunk(chunk).unwrap();
    assert_eq!(gunzip(&body), Vec::<u8>::new());
    assert_eq!(&body[body.len() - 4..], &[0, 0, 0, 0]);
}

#[test]
fn compressed_length_grows_with_output() {
    let mut chunk = new_chunk();
    let mut line = Vec::new();
    for i in 0..200_000u32 {
        line.extend_from_slice(&i.to_le_bytes());
    }
    write_json_line(&mut chunk, line).unwrap();
    assert!(compressed_len(&chunk) > 0);
}

#[test]
fn upload_body_names_and_finishes_the_chunk() {
    let mut chunk = new_chunk();
    write_json_line(&mut chunk, b"1".to_vec()).unwrap();
    let (key, body) = upload_body(chunk, "p/", 3).unwrap();
    assert_eq!(key, "p/00003.json.gz");
    assert_eq!(gunzip(&body), b"1\n".to_vec());
}
