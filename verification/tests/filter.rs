use rysql::filter::{
    build_where_clause, is_decimal_text, is_numeric_type, like_literal, sql_scalar, FilterCond,
    FilterOp,
};
use rysql::schema::ColumnInfo;

fn col(name: &str, data_type: &str) -> ColumnInfo {
    ColumnInfo {
        name: name.to_string(),
        data_type: data_type.to_string(),
        nullable: true,
        default_value: None,
        is_pk: false,
        extra: String::new(),
        comment: String::new(),
    }
}

fn cond(column: &str, op: FilterOp, value: &str) -> FilterCond {
    FilterCond {
        column: column.to_string(),
        op,
        value: value.to_string(),
    }
}

#[test]
fn empty_filters_yield_no_clause() {
    assert_eq!(build_where_clause(&[], &[]), None);
}

#[test]
fn blank_value_is_skipped() {
    let cols = [col("name", "varchar(255)")];
    let f = [cond("name", FilterOp::Eq, "   ")];
    assert_eq!(build_where_clause(&f, &cols), None);
}

#[test]
fn numeric_column_emits_bare_literal() {
    let cols = [col("age", "int")];
    let f = [cond("age", FilterOp::Gt, "30")];
    assert_eq!(build_where_clause(&f, &cols).as_deref(), Some("`age` > 30"));
}

#[test]
fn numeric_column_non_numeric_input_is_quoted() {
    let cols = [col("age", "int")];
    let f = [cond("age", FilterOp::Eq, "n/a")];
    assert_eq!(
        build_where_clause(&f, &cols).as_deref(),
        Some("`age` = 'n/a'")
    );
}

#[test]
fn text_column_is_quoted_and_escaped() {
    let cols = [col("name", "varchar(255)")];
    let f = [cond("name", FilterOp::Eq, "O'Brien")];
    assert_eq!(
        build_where_clause(&f, &cols).as_deref(),
        Some("`name` = 'O''Brien'")
    );
}

#[test]
fn contains_wraps_and_escapes_wildcards() {
    let cols = [col("name", "varchar(255)")];
    let f = [cond("name", FilterOp::Contains, "50%_off")];
    assert_eq!(
        build_where_clause(&f, &cols).as_deref(),
        Some(r"`name` LIKE '%50\%\_off%'")
    );
}

#[test]
fn starts_with_only_trails() {
    let cols = [col("name", "varchar(255)")];
    let f = [cond("name", FilterOp::StartsWith, "Ana")];
    assert_eq!(
        build_where_clause(&f, &cols).as_deref(),
        Some("`name` LIKE 'Ana%'")
    );
}

#[test]
fn null_ops_ignore_value_and_need_no_input() {
    let cols = [col("deleted_at", "datetime")];
    let f = [cond("deleted_at", FilterOp::IsNull, "ignored")];
    assert_eq!(
        build_where_clause(&f, &cols).as_deref(),
        Some("`deleted_at` IS NULL")
    );
}

#[test]
fn multiple_conditions_are_anded() {
    let cols = [col("status", "varchar(20)"), col("age", "int")];
    let f = [
        cond("status", FilterOp::Eq, "active"),
        cond("age", FilterOp::Ge, "18"),
    ];
    assert_eq!(
        build_where_clause(&f, &cols).as_deref(),
        Some("`status` = 'active' AND `age` >= 18")
    );
}

#[test]
fn backtick_in_column_is_escaped() {
    let cols = [col("we`ird", "int")];
    let f = [cond("we`ird", FilterOp::Eq, "1")];
    assert_eq!(
        build_where_clause(&f, &cols).as_deref(),
        Some("`we``ird` = 1")
    );
}

#[test]
fn unselected_column_is_skipped() {
    let cols = [col("age", "int")];
    let f = [cond("", FilterOp::Eq, "5")];
    assert_eq!(build_where_clause(&f, &cols), None);
}

#[test]
fn every_operator_has_its_sql() {
    let cols = [col("n", "int")];
    let cases = [
        (FilterOp::Eq, "=", "`n` = 5"),
        (FilterOp::Ne, "≠", "`n` <> 5"),
        (FilterOp::Lt, "<", "`n` < 5"),
        (FilterOp::Le, "≤", "`n` <= 5"),
        (FilterOp::Gt, ">", "`n` > 5"),
        (FilterOp::Ge, "≥", "`n` >= 5"),
        (FilterOp::Contains, "contains", "`n` LIKE '%5%'"),
        (FilterOp::StartsWith, "starts with", "`n` LIKE '5%'"),
        (FilterOp::IsNull, "is null", "`n` IS NULL"),
        (FilterOp::IsNotNull, "is not null", "`n` IS NOT NULL"),
    ];
    let all = FilterOp::all();
    assert_eq!(all.len(), cases.len());
    for (i, (op, label, sql)) in cases.iter().enumerate() {
        assert_eq!(all[i], *op);
        assert_eq!(op.label(), *label);
        assert_eq!(build_where_clause(&[cond("n", *op, " 5 ")], &cols).as_deref(), Some(*sql));
    }
    assert!(FilterOp::Eq.needs_value());
    assert!(!FilterOp::IsNull.needs_value());
    assert!(!FilterOp::IsNotNull.needs_value());
}

#[test]
fn numeric_types_are_known_by_their_first_letters() {
    for t in ["int", " BIGINT(20) unsigned", "decimal(10,2)", "Float", "double", "year", "bit(1)"] {
        assert!(is_numeric_type(t), "{t}");
    }
    for t in ["varchar(10)", "text", "datetime", "", "unsigned int"] {
        assert!(!is_numeric_type(t), "{t}");
    }
}

#[test]
fn numbers_are_those_of_the_standard_library_and_no_words() {
    let cases = [
        "", "+", "-", ".", "+.", "1", "+1", "-1", "1.", ".5", "-.5", "1.5", "1e5", "1E5", "1e+5",
        "1e-5", "1e", "1e+", "e5", ".e5", "1.e5", "1.5e5", "inf", "+inf", "-INF", "infinity",
        "Infinity", "infinit", "nan", "NaN", "+nan", "-nan", "1_000", " 1", "1 ", "0x10", "1f64",
        "--1", "+-1", "1..5", "1.5.5", "1e5e5", "1e5.5", "١", "in", "inff", "na",
    ];
    for c in cases {
        let number = c.parse::<f64>().is_ok() && c.contains(|d: char| d.is_ascii_digit());
        assert_eq!(is_decimal_text(c), number, "{c:?}");
    }
}

#[test]
fn scalars_are_bare_only_for_numbers_in_numeric_columns() {
    assert_eq!(sql_scalar("1.5", true), "1.5");
    assert_eq!(sql_scalar("1.5", false), "'1.5'");
    assert_eq!(sql_scalar("a'b\\c", true), "'a''b\\\\c'");
    assert_eq!(sql_scalar("nan", true), "'nan'");
    assert_eq!(sql_scalar("-Infinity", true), "'-Infinity'");
    let cols = [col("age", "int")];
    let f = [cond("age", FilterOp::Eq, "nan")];
    assert_eq!(build_where_clause(&f, &cols).as_deref(), Some("`age` = 'nan'"));
}

#[test]
fn like_patterns_escape_what_is_special() {
    assert_eq!(like_literal("a'b\\c%d_e", true, true), r"'%a''b\\\\c\%d\_e%'");
    assert_eq!(like_literal("a\\", false, true), r"'a\\\\%'");
    assert_eq!(like_literal("x", false, false), "'x'");
    assert_eq!(like_literal("x", true, false), "'%x'");
}
