use rysql::csv::{csv_escape, csv_field, csv_record, csv_row};
use rysql::export::{
    append_inserts, is_generated, pick_delimiter, row_values, sanitize_filename, sql_literal,
    strip_definer, SqlDumpOptions, MAX_INSERT_BYTES,
};
use rysql::query::{Cell, Real};
use rysql::quote::{hex_literal, ident, plain_literal, qualified, quote_str};

fn texts(parts: &[&str]) -> Vec<String> {
    parts.iter().map(|p| p.to_string()).collect()
}

fn real_cell(v: f64) -> Cell {
    Cell::Float(Real { bits: v.to_bits(), text: v.to_string() })
}

#[test]
fn literal_escaping() {
    assert_eq!(sql_literal(&Cell::Null), "NULL");
    assert_eq!(sql_literal(&Cell::Int(-7)), "-7");
    assert_eq!(sql_literal(&Cell::UInt(7)), "7");
    assert_eq!(sql_literal(&Cell::Bool(true)), "1");
    assert_eq!(
        sql_literal(&Cell::Text("O'Brien\\x".into())),
        "'O''Brien\\\\x'"
    );
    assert_eq!(sql_literal(&Cell::Text("a\nb".into())), "'a\\nb'");
    assert_eq!(sql_literal(&Cell::Blob(vec![0x00, 0xff, 0x10])), "0x00ff10");
    assert_eq!(sql_literal(&Cell::Blob(vec![])), "''");
}

#[test]
fn strips_backtick_definer() {
    let ddl = "CREATE DEFINER=`root`@`localhost` PROCEDURE `p`() BEGIN END";
    assert_eq!(strip_definer(ddl), "CREATE PROCEDURE `p`() BEGIN END");
}

#[test]
fn strips_view_definer_with_quotes() {
    let ddl =
        "CREATE ALGORITHM=UNDEFINED DEFINER='adm'@'10.0.0.1' SQL SECURITY DEFINER VIEW `v` AS SELECT 1";
    assert_eq!(
        strip_definer(ddl),
        "CREATE ALGORITHM=UNDEFINED SQL SECURITY DEFINER VIEW `v` AS SELECT 1"
    );
}

#[test]
fn strips_bare_definer() {
    let ddl = "CREATE DEFINER=root@localhost TRIGGER `t` BEFORE INSERT ON `x`";
    assert_eq!(
        strip_definer(ddl),
        "CREATE TRIGGER `t` BEFORE INSERT ON `x`"
    );
}

#[test]
fn definer_absent_is_noop() {
    let ddl = "CREATE TABLE `t` (`id` int)";
    assert_eq!(strip_definer(ddl), ddl);
}

#[test]
fn csv_quotes_special_fields() {
    let rec = csv_record(&texts(&["a,b", "plain", "x\"y", "n\nl"]));
    assert_eq!(rec, "\"a,b\",plain,\"x\"\"y\",\"n\nl\"\n");
}

#[test]
fn extended_insert_groups_rows() {
    let cols = vec!["id".to_string()];
    let rows = vec![vec![Cell::Int(1)], vec![Cell::Int(2)]];
    let mut out = String::new();
    append_inserts(&mut out, "t", &cols, &rows, true);
    assert_eq!(out, "INSERT INTO `t` (`id`) VALUES\n(1),\n(2);\n");
}

#[test]
fn single_row_inserts() {
    let cols = vec!["id".to_string()];
    let rows = vec![vec![Cell::Int(1)], vec![Cell::Int(2)]];
    let mut out = String::new();
    append_inserts(&mut out, "t", &cols, &rows, false);
    assert_eq!(
        out,
        "INSERT INTO `t` (`id`) VALUES (1);\nINSERT INTO `t` (`id`) VALUES (2);\n"
    );
}

#[test]
fn detects_generated_columns() {
    assert!(is_generated("VIRTUAL GENERATED"));
    assert!(is_generated("STORED GENERATED"));
    assert!(is_generated("PERSISTENT"));
    assert!(is_generated("virtual"));
    assert!(!is_generated(""));
    assert!(!is_generated("auto_increment"));
    assert!(!is_generated("on update CURRENT_TIMESTAMP"));
    // MySQL 8 expression-default columns are writable, NOT generated.
    assert!(!is_generated("DEFAULT_GENERATED"));
    assert!(!is_generated(
        "DEFAULT_GENERATED on update CURRENT_TIMESTAMP"
    ));
}

#[test]
fn picks_clear_delimiter() {
    assert_eq!(pick_delimiter("BEGIN SELECT 1; END"), "$$");
    assert_eq!(pick_delimiter("BEGIN SET x = '$$'; END"), ";;");
    assert_eq!(pick_delimiter("weird $$ and ;; body"), "$RYSQL$");
}

#[test]
fn delimiter_is_made_longer_until_it_is_absent() {
    assert_eq!(pick_delimiter("$$ ;; $RYSQL$"), "$RYSQL$$");
    assert_eq!(pick_delimiter("$$ ;; $RYSQL$$$ x"), "$RYSQL$$$$");
}

#[test]
fn sanitizes_filenames() {
    assert_eq!(sanitize_filename("orders/2024"), "orders_2024");
    assert_eq!(sanitize_filename("a:b*c?"), "a_b_c_");
    assert_eq!(sanitize_filename("  "), "table");
}

#[test]
fn number_literals() {
    assert_eq!(sql_literal(&real_cell(1.5)), "1.5");
    assert_eq!(sql_literal(&real_cell(f64::NAN)), "NULL");
    assert_eq!(sql_literal(&real_cell(f64::INFINITY)), "NULL");
    assert_eq!(sql_literal(&Cell::Bool(false)), "0");
    assert_eq!(sql_literal(&Cell::Int(i64::MIN)), "-9223372036854775808");
    assert_eq!(sql_literal(&Cell::UInt(u64::MAX)), "18446744073709551615");
    assert_eq!(sql_literal(&Cell::Json("{\"a\": 1}".to_string())), "'{\"a\": 1}'");
    assert_eq!(row_values(&vec![Cell::Int(1), Cell::Null]), "1, NULL");
}

#[test]
fn quoting_escapes_control_characters() {
    assert_eq!(quote_str("a\0b\rc\nd\te"), "'a\\0b\\rc\\nd\\te'");
    assert_eq!(plain_literal("a\\b'c\n"), "'a\\\\b''c\n'");
    assert_eq!(hex_literal(&vec![0xde, 0xad]), "0xdead");
    assert_eq!(ident("we`ird"), "`we``ird`");
    assert_eq!(qualified("d`b", "t"), "`d``b`.`t`");
}

#[test]
fn inserts_stay_under_the_cap() {
    let cols = vec!["v".to_string()];
    let big = "x".repeat(MAX_INSERT_BYTES / 2);
    let rows: Vec<Vec<Cell>> = (0..3).map(|_| vec![Cell::Text(big.clone())]).collect();
    let mut out = String::new();
    append_inserts(&mut out, "t", &cols, &rows, true);
    let statements: Vec<&str> = out.split_inclusive(";\n").collect();
    assert_eq!(statements.len(), 3);
    for s in statements {
        assert!(s.len() <= MAX_INSERT_BYTES);
        assert!(s.starts_with("INSERT INTO `t` (`v`) VALUES\n('x"));
    }
}

#[test]
fn no_rows_no_inserts() {
    let mut out = "head".to_string();
    append_inserts(&mut out, "t", &texts(&["id"]), &vec![], true);
    append_inserts(&mut out, "t", &texts(&["id"]), &vec![], false);
    assert_eq!(out, "head");
}

#[test]
fn definer_is_found_in_any_case_and_cut_once() {
    assert_eq!(
        strip_definer("create definer=`a b`@`%` view v as select 'DEFINER=x'"),
        "create view v as select 'DEFINER=x'"
    );
}

#[test]
fn file_stems_are_safe() {
    assert_eq!(sanitize_filename("..secret.."), "secret");
    assert_eq!(sanitize_filename("..."), "table");
    assert_eq!(sanitize_filename(" .a.b. "), "a.b");
    assert_eq!(sanitize_filename("a\u{7}b"), "a_b");
    assert_eq!(sanitize_filename("tabla ñ"), "tabla ñ");
}

#[test]
fn csv_cells() {
    assert_eq!(csv_field(&Cell::Null), "");
    assert_eq!(csv_field(&Cell::Blob(vec![0x00, 0xff])), "00ff");
    assert_eq!(csv_field(&Cell::Int(-3)), "-3");
    assert_eq!(csv_escape("a\rb"), "\"a\rb\"");
    assert_eq!(csv_escape(""), "");
    assert_eq!(
        csv_row(&vec![Cell::Int(1), Cell::Text("a,b".to_string()), Cell::Null]),
        "1,\"a,b\",\n"
    );
    assert_eq!(csv_record(&vec![]), "\n");
}

#[test]
fn default_options_dump_everything() {
    let opts = SqlDumpOptions::default();
    assert!(opts.tables && opts.views && opts.procedures && opts.functions);
    assert!(opts.triggers && opts.events && opts.data && opts.drop_if_exists);
    assert!(opts.portability_header && opts.extended_insert && opts.omit_definer);
    assert!(opts.comment_header);
    assert!(!opts.create_database);
}
