use rysql::split::{split_statements, statement_at_cursor};

fn parts(s: &str) -> Vec<&str> {
    split_statements(s).into_iter().map(|r| &s[r]).collect()
}

#[test]
fn single_no_semicolon() {
    let s = "SELECT 1";
    assert_eq!(split_statements(s), vec![0..8]);
}

#[test]
fn two_statements() {
    let s = "SELECT 1; SELECT 2;";
    assert_eq!(split_statements(s), vec![0..9, 10..19]);
}

#[test]
fn semicolon_inside_string_ignored() {
    let s = "SELECT 'a;b'; SELECT 1";
    let parts = split_statements(s);
    assert_eq!(parts.len(), 2);
    assert_eq!(&s[parts[0].clone()], "SELECT 'a;b';");
    assert_eq!(&s[parts[1].clone()], "SELECT 1");
}

#[test]
fn semicolon_inside_line_comment_ignored() {
    let s = "SELECT 1 -- ; not a stmt\n; SELECT 2;";
    let parts = split_statements(s);
    assert_eq!(parts.len(), 2);
    assert_eq!(&s[parts[1].clone()], "SELECT 2;");
}

#[test]
fn semicolon_inside_block_comment_ignored() {
    let s = "SELECT /* ; ; */ 1; SELECT 2;";
    let parts = split_statements(s);
    assert_eq!(parts.len(), 2);
}

#[test]
fn statement_at_cursor_basic() {
    let s = "SELECT 1; SELECT 2;";
    assert_eq!(statement_at_cursor(s, 3), Some(0..9));
    assert_eq!(statement_at_cursor(s, 12), Some(10..19));
}

#[test]
fn create_procedure_with_internal_semicolons_is_one_statement() {
    let s = "\
DROP PROCEDURE IF EXISTS foo;

CREATE PROCEDURE foo()
BEGIN
    SELECT 1;
    SELECT 2;
END;
";
    let p = parts(s);
    assert_eq!(p.len(), 2);
    assert!(p[0].starts_with("DROP"));
    assert!(p[1].starts_with("CREATE"));
    assert!(p[1].trim_end().ends_with("END;"));
}

#[test]
fn nested_if_inside_begin_does_not_close_outer_block() {
    let s = "\
CREATE PROCEDURE foo()
BEGIN
    IF x THEN
        SELECT 1;
    END IF;
    SELECT 2;
END;
";
    let p = parts(s);
    assert_eq!(p.len(), 1);
    assert!(p[0].trim_end().ends_with("END;"));
}

#[test]
fn while_loop_repeat_blocks_do_not_close_outer_begin() {
    let s = "\
CREATE PROCEDURE foo()
BEGIN
    WHILE x DO
        SELECT 1;
    END WHILE;
    LOOP
        SELECT 2;
    END LOOP;
    REPEAT
        SELECT 3;
    UNTIL x END REPEAT;
    SELECT 4;
END;
";
    let p = parts(s);
    assert_eq!(p.len(), 1);
    assert!(p[0].trim_end().ends_with("END;"));
}

#[test]
fn inline_case_expression_outside_begin_does_not_decrement_stack() {
    // bare END here closes the CASE expression; `;` must still emit.
    let s = "SELECT CASE WHEN x THEN 1 ELSE 0 END; SELECT 2;";
    let p = parts(s);
    assert_eq!(p.len(), 2);
    assert!(p[0].starts_with("SELECT CASE"));
    assert_eq!(p[1], "SELECT 2;");
}

#[test]
fn inline_case_inside_begin_does_not_close_begin() {
    let s = "\
CREATE PROCEDURE foo()
BEGIN
    SELECT CASE WHEN x THEN 1 ELSE 0 END;
    SELECT 2;
END;
";
    let p = parts(s);
    assert_eq!(p.len(), 1);
    assert!(p[0].trim_end().ends_with("END;"));
}

#[test]
fn nested_begin_for_declare_handler() {
    let s = "\
CREATE PROCEDURE foo()
BEGIN
    DECLARE CONTINUE HANDLER FOR SQLEXCEPTION BEGIN SELECT 1; END;
    SELECT 2;
END;
";
    let p = parts(s);
    assert_eq!(p.len(), 1);
    assert!(p[0].trim_end().ends_with("END;"));
}

#[test]
fn transactional_begin_is_not_compound() {
    let s = "BEGIN; UPDATE t SET x = 1; COMMIT;";
    let p = parts(s);
    assert_eq!(p.len(), 3);
    assert_eq!(p[0], "BEGIN;");
    assert_eq!(p[1], "UPDATE t SET x = 1;");
    assert_eq!(p[2], "COMMIT;");
}

#[test]
fn begin_work_and_begin_transaction_are_not_compound() {
    let s = "BEGIN WORK; SELECT 1; COMMIT; BEGIN TRANSACTION; SELECT 2; COMMIT;";
    let p = parts(s);
    assert_eq!(p.len(), 6);
}

#[test]
fn begin_atomic_is_compound() {
    let s = "BEGIN ATOMIC SELECT 1; SELECT 2; END;";
    let p = parts(s);
    assert_eq!(p.len(), 1);
}

#[test]
fn user_variable_named_while_does_not_open_block() {
    // @while is a user variable; the `while` part must not be treated
    // as a WHILE keyword (otherwise `END WHILE` wouldn't be needed and
    // the trailing `;` of the SELECT would be suppressed).
    let s = "SELECT @while; SELECT 1;";
    let p = parts(s);
    assert_eq!(p.len(), 2);
}

#[test]
fn keyword_inside_identifier_is_not_a_keyword() {
    // BEGINS / ENDED / BEGINNING should not match BEGIN / END.
    let s = "SELECT BEGINNING; SELECT ENDED;";
    let p = parts(s);
    assert_eq!(p.len(), 2);
}

#[test]
fn dotted_column_ending_in_end_is_not_a_keyword() {
    // a column literally named `end` would be quoted, but a column
    // ending in `.end_at` should not match END as a keyword either.
    let s = "BEGIN SELECT t.end_at FROM t; END;";
    let p = parts(s);
    assert_eq!(p.len(), 1);
}

#[test]
fn case_inside_string_is_ignored() {
    let s = "SELECT 'BEGIN END' AS x; SELECT 'CASE END' AS y;";
    let p = parts(s);
    assert_eq!(p.len(), 2);
}

#[test]
fn semicolons_inside_block_comment_inside_begin_ignored() {
    let s = "\
CREATE PROCEDURE foo()
BEGIN
    /* ; ; ; */
    SELECT 1;
END;
";
    let p = parts(s);
    assert_eq!(p.len(), 1);
}

#[test]
fn keyword_after_block_comment_still_detected() {
    // `END /* comment */ IF` should still match `END IF`.
    let s = "\
CREATE PROCEDURE foo()
BEGIN
    IF x THEN
        SELECT 1;
    END /* note */ IF;
    SELECT 2;
END;
";
    let p = parts(s);
    assert_eq!(p.len(), 1);
}

#[test]
fn statement_at_cursor_inside_procedure_returns_full_procedure() {
    let s = "CREATE PROCEDURE foo() BEGIN SELECT 1; SELECT 2; END;";
    let inner = s.find("SELECT 2").unwrap() + 2;
    let r = statement_at_cursor(s, inner).unwrap();
    assert_eq!(&s[r], s);
}

#[test]
fn blank_text_has_no_statements() {
    assert!(split_statements("").is_empty());
    assert!(split_statements("  \n\t ").is_empty());
    assert_eq!(statement_at_cursor("", 0), None);
}

#[test]
fn lone_separator_is_no_statement() {
    assert!(split_statements(";").is_empty());
    assert!(split_statements(" ; ;").is_empty());
    assert_eq!(statement_at_cursor(";;", 0), None);
    assert_eq!(split_statements("SELECT 1;;"), vec![0..9]);
    assert_eq!(split_statements(";SELECT 1; ; SELECT 2"), vec![1..10, 13..21]);
}

#[test]
fn text_without_separators_is_taken_as_a_whole() {
    assert_eq!(statement_at_cursor("  SELECT 1  ", 0), Some(0..12));
    assert_eq!(statement_at_cursor("SELECT 1", 99), Some(0..8));
    assert_eq!(statement_at_cursor(" \n", 0), None);
    assert_eq!(statement_at_cursor("  SELECT ';'  ", 0), Some(2..12));
}

#[test]
fn scripts_split_one_after_the_other() {
    let a = "SELECT é; ; UPDATE t SET x = 1;";
    for b in ["", "SELECT 2", " BEGIN SELECT 1; END; x", "'a;", ";;y", "-- c;\n z"] {
        let whole = split_statements(&format!("{a}{b}"));
        let mut parts = split_statements(a);
        for r in split_statements(b) {
            parts.push(r.start + a.len()..r.end + a.len());
        }
        assert_eq!(whole, parts, "{b:?}");
    }
}

#[test]
fn statements_are_ordered_and_end_at_separators() {
    let s = "SELECT 'é;'; -- x;\nSELECT \"a;\"; SELECT `b;` /* ; */ ; SELECT 4";
    let ranges = split_statements(s);
    let texts: Vec<&str> = ranges.iter().map(|r| &s[r.clone()]).collect();
    assert_eq!(texts.len(), 4);
    assert_eq!(texts[0], "SELECT 'é;';");
    assert_eq!(texts[3], "SELECT 4");
    for pair in ranges.windows(2) {
        assert!(pair[0].end <= pair[1].start);
    }
    for text in &texts[..3] {
        assert!(text.ends_with(';'));
    }
}

#[test]
fn hash_comments_hide_separators() {
    assert_eq!(parts("SELECT 1 # ; x\n; SELECT 2").len(), 2);
}

#[test]
fn doubled_quotes_and_escapes_stay_in_the_literal() {
    assert_eq!(parts("SELECT 'it''s;'; SELECT 1").len(), 2);
    assert_eq!(parts("SELECT 'a\\';b'; SELECT 1").len(), 2);
}

#[test]
fn cursor_between_and_after_statements() {
    let s = "SELECT 1;  SELECT 2;  ";
    assert_eq!(statement_at_cursor(s, 0), Some(0..9));
    assert_eq!(statement_at_cursor(s, 11), Some(11..20));
    assert_eq!(statement_at_cursor(s, 22), Some(11..20));
}
