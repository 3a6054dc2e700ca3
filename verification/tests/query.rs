use std::time::Duration;

use rysql::errors::{friendly, friendly_mysql, ActorError, DriverError, DriverErrorKind, ExportError};
use rysql::query::{
    column_meta, column_shape, decode_cell, json_or_raw, pretty_json, query_result, Cell,
    ColumnShape, ColumnSource, RawCell, Real,
};

fn raw() -> RawCell {
    RawCell { signed: None, unsigned: None, boolean: None, number: None, text: None, bytes: None }
}

fn column(name: &str, sql_type: &str) -> ColumnSource {
    ColumnSource { name: name.to_string(), sql_type: sql_type.to_string(), source: None }
}

#[test]
fn types_decide_how_fields_are_decoded() {
    assert_eq!(column_shape("BIGINT UNSIGNED"), ColumnShape::Unsigned);
    assert_eq!(column_shape("int(11)"), ColumnShape::Signed);
    assert_eq!(column_shape("BOOLEAN"), ColumnShape::Boolean);
    assert_eq!(column_shape("DOUBLE"), ColumnShape::Real);
    assert_eq!(column_shape("VARBINARY(16)"), ColumnShape::Bytes);
    assert_eq!(column_shape("JSON"), ColumnShape::Json);
    assert_eq!(column_shape("BIT(8)"), ColumnShape::Bits);
    assert_eq!(column_shape("VARCHAR(20)"), ColumnShape::Text);
}

#[test]
fn fields_are_decoded_by_their_type() {
    let cell = decode_cell(RawCell { signed: Some(-5), ..raw() }, "INT");
    assert!(matches!(cell, Cell::Int(-5)));
    let cell = decode_cell(RawCell { unsigned: Some(5), ..raw() }, "INT UNSIGNED");
    assert!(matches!(cell, Cell::UInt(5)));
    let cell = decode_cell(RawCell { boolean: Some(true), ..raw() }, "BOOLEAN");
    assert!(matches!(cell, Cell::Bool(true)));
    let cell = decode_cell(RawCell { bytes: Some(vec![1, 2]), ..raw() }, "BLOB");
    assert_eq!(cell.display(), "<BLOB 2 bytes>");
    let cell = decode_cell(RawCell { text: Some("{\"a\":1}".to_string()), ..raw() }, "JSON");
    assert_eq!(cell.display(), "{\n  \"a\": 1\n}");
    let cell = decode_cell(RawCell { text: Some("x".to_string()), ..raw() }, "VARCHAR(5)");
    assert_eq!(cell.display(), "x");
    assert!(decode_cell(raw(), "INT").is_null());
}

#[test]
fn json_is_indented_or_left_alone() {
    assert_eq!(pretty_json("[1,2]"), "[\n  1,\n  2\n]");
    assert_eq!(pretty_json("not json"), "not json");
    assert_eq!(json_or_raw("raw", Some("nice".to_string())), "nice");
    assert_eq!(json_or_raw("raw", None), "raw");
}

#[test]
fn columns_know_where_they_come_from() {
    let meta = column_meta(&ColumnSource {
        name: "n".to_string(),
        sql_type: "INT".to_string(),
        source: Some(("shop.orders".to_string(), "id".to_string())),
    });
    assert_eq!(meta.origin, Some(("shop".to_string(), "orders".to_string())));
    assert_eq!(meta.original_name.as_deref(), Some("id"));
    let meta = column_meta(&column("n", "INT"));
    assert_eq!(meta.origin, None);
    assert_eq!(meta.original_name, None);
}

#[test]
fn results_without_rows_have_no_columns() {
    let empty = query_result(vec![column("a", "INT")], vec![], Duration::from_millis(1));
    assert!(empty.columns.is_empty());
    let one = query_result(
        vec![column("a", "INT")],
        vec![vec![RawCell { signed: Some(1), ..raw() }]],
        Duration::from_millis(1),
    );
    assert_eq!(one.columns.len(), 1);
    assert_eq!(one.rows[0][0].display(), "1");
    assert_eq!(one.elapsed, Duration::from_millis(1));
}

#[test]
fn cells_show_their_values() {
    assert_eq!(Cell::Null.display(), "");
    assert_eq!(Cell::Bool(true).display(), "1");
    assert_eq!(Cell::UInt(9).display(), "9");
    let r = Real { bits: 2.5f64.to_bits(), text: "2.5".to_string() };
    assert!(r.is_finite() && !r.is_nan());
    assert_eq!(Cell::Float(r).display(), "2.5");
    let nan = Real { bits: f64::NAN.to_bits(), text: "NaN".to_string() };
    assert!(nan.is_nan() && !nan.is_finite());
    let inf = Real { bits: f64::NEG_INFINITY.to_bits(), text: "-inf".to_string() };
    assert!(!inf.is_nan() && !inf.is_finite());
}

fn database(code: Option<&str>, number: Option<u16>, message: &str) -> DriverError {
    DriverError {
        kind: DriverErrorKind::Database {
            code: code.map(|c| c.to_string()),
            number,
            message: message.to_string(),
        },
        message: "full".to_string(),
    }
}

fn other(kind: DriverErrorKind) -> DriverError {
    DriverError { kind, message: "full".to_string() }
}

#[test]
fn known_errors_have_short_messages() {
    assert_eq!(
        friendly_mysql(1062, "Duplicate entry '1' for key 'PRIMARY'").as_deref(),
        Some("Duplicate entry — Duplicate entry '1' for key 'PRIMARY'")
    );
    assert_eq!(
        friendly_mysql(1213, "x").as_deref(),
        Some("Deadlock detected — transaction was rolled back, retry")
    );
    assert_eq!(friendly_mysql(9999, "x"), None);
    assert_eq!(
        friendly(&database(Some("42S02"), Some(1146), "Table 'a.b' doesn't exist")),
        "Table doesn't exist — Table 'a.b' doesn't exist"
    );
}

#[test]
fn every_driver_error_has_a_message() {
    assert_eq!(friendly(&database(Some("HY000"), Some(9999), "odd")), "[HY000/9999] odd");
    assert_eq!(friendly(&database(Some("HY000"), None, "odd")), "[HY000] odd");
    assert_eq!(friendly(&database(None, None, "odd")), "odd");
    assert_eq!(friendly(&other(DriverErrorKind::PoolTimedOut)), "Connection pool timed out");
    assert_eq!(friendly(&other(DriverErrorKind::PoolClosed)), "Connection pool is closed");
    assert_eq!(friendly(&other(DriverErrorKind::Io("e".to_string()))), "I/O: e");
    assert_eq!(friendly(&other(DriverErrorKind::Tls("e".to_string()))), "TLS: e");
    assert_eq!(friendly(&other(DriverErrorKind::Protocol("e".to_string()))), "Protocol error: e");
    assert_eq!(friendly(&other(DriverErrorKind::RowNotFound)), "No row returned");
    assert_eq!(
        friendly(&other(DriverErrorKind::ColumnNotFound("c".to_string()))),
        "Column not found: c"
    );
    assert_eq!(
        friendly(&other(DriverErrorKind::ColumnIndexOutOfBounds { index: 3, len: 2 })),
        "Column index 3 out of bounds (have 2)"
    );
    assert_eq!(friendly(&other(DriverErrorKind::Decode("e".to_string()))), "Decode error: e");
    assert_eq!(
        friendly(&other(DriverErrorKind::Configuration("e".to_string()))),
        "Configuration: e"
    );
    assert_eq!(friendly(&other(DriverErrorKind::Other)), "full");
}

#[test]
fn actor_and_export_errors() {
    assert_eq!(ActorError::Closed.friendly(), "Connection was closed");
    assert_eq!(ActorError::Closed.message(), "actor has been shut down");
    let e = ActorError::Sqlx(other(DriverErrorKind::RowNotFound));
    assert_eq!(e.friendly(), "No row returned");
    assert_eq!(e.message(), "full");
    assert_eq!(ExportError::Db(ActorError::Closed).friendly(), "Connection was closed");
    assert_eq!(ExportError::Io("disk full".to_string()).friendly(), "disk full");
}
