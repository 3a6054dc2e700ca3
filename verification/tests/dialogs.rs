use rysql::column_dialog::{
    build_add_column_sql, build_drop_column_sql, dialog_title, edit_choice, preview_text,
    ColumnDefault, ColumnEditChoice, ColumnEditMode, ColumnEditState,
};
use rysql::dialog::{
    confirm_choice, confirm_enabled, confirm_prompt, confirm_target, confirm_target_label,
    dialog_action, ConfirmChoice, DialogAction, NewConnectionDialog, TestOutcome,
};
use rysql::export_dialog::{
    any_object_selected, export_choice, export_title, run_enabled, ExportChoice, ExportState,
    OutputFormat,
};
use rysql::profile::{ConnectionProfile, TlsMode};
use rysql::schema::ObjectKind;
use rysql::state::{ConfirmAction, EditRequest, ObjectKey, PendingExec};

fn key() -> ObjectKey {
    ObjectKey { db: "sh`op".to_string(), kind: ObjectKind::Table, name: "orders".to_string() }
}

fn column(name: &str, data_type: &str) -> ColumnEditState {
    let mut state = ColumnEditState::new_add(key());
    state.name = name.to_string();
    state.data_type = data_type.to_string();
    state
}

#[test]
fn a_column_needs_a_name_and_a_type() {
    let state = ColumnEditState::new_add(key());
    assert_eq!(state.mode, ColumnEditMode::Add);
    assert_eq!(build_add_column_sql(&state), Err("Column name is required".to_string()));
    assert_eq!(build_add_column_sql(&column(" n ", " ")), Err("Type is required".to_string()));
    assert_eq!(preview_text(&build_add_column_sql(&state)), "(Column name is required)");
}

#[test]
fn add_column_statements() {
    let mut state = column(" no`te ", " varchar(64) ");
    assert_eq!(
        build_add_column_sql(&state).unwrap(),
        "ALTER TABLE `sh``op`.`orders` ADD COLUMN `no``te` varchar(64) NULL"
    );
    state.default_mode = ColumnDefault::Null;
    assert!(build_add_column_sql(&state).unwrap().ends_with(" NULL DEFAULT NULL"));
    state.nullable = false;
    assert!(build_add_column_sql(&state).unwrap().ends_with(" varchar(64) NOT NULL"));
    state.default_mode = ColumnDefault::Value;
    state.default_value = "a'b\\".to_string();
    state.comment = "  it's ".to_string();
    assert!(build_add_column_sql(&state)
        .unwrap()
        .ends_with(" NOT NULL DEFAULT 'a''b\\\\' COMMENT 'it''s'"));
    state.auto_increment = true;
    assert!(build_add_column_sql(&state)
        .unwrap()
        .ends_with(" NOT NULL AUTO_INCREMENT COMMENT 'it''s'"));
}

#[test]
fn drop_column_statement_and_title() {
    assert_eq!(
        build_drop_column_sql(&key(), "a`b"),
        "ALTER TABLE `sh``op`.`orders` DROP COLUMN `a``b`"
    );
    assert_eq!(dialog_title(&ColumnEditState::new_add(key())), "Add column to `sh`op`.`orders`");
}

#[test]
fn submitting_a_column_needs_a_statement() {
    let ok = || Ok("SQL".to_string());
    assert!(matches!(edit_choice(ok(), true, true), ColumnEditChoice::Submit { sql } if sql == "SQL"));
    assert!(matches!(edit_choice(Err("x".to_string()), true, true), ColumnEditChoice::Cancel));
    assert!(matches!(edit_choice(Err("x".to_string()), false, true), ColumnEditChoice::Nothing));
    assert!(matches!(edit_choice(ok(), false, false), ColumnEditChoice::Nothing));
}

#[test]
fn ports_are_numbers_from_1_to_65535() {
    let cases = [
        "", "+", "-", "0", "+0", "000", "1", "+80", "-0", "-1", "00080", "65535", "65536", "+65535", "99999999999",
        " 80", "80 ", "8o", "٣", "0x10", "++1", "000000000000000000000000065535", "4294967297",
    ];
    for c in cases {
        let form = NewConnectionDialog { port: c.to_string(), ..NewConnectionDialog::default() };
        match c.parse::<u16>() {
            Ok(port) if port > 0 => assert_eq!(form.to_profile().unwrap().port, port, "{c:?}"),
            _ => assert_eq!(form.to_profile(), Err("Port must be 1..=65535".to_string()), "{c:?}"),
        }
    }
}

#[test]
fn the_default_form_is_the_default_profile() {
    let form = NewConnectionDialog::default();
    assert_eq!(form.to_profile().unwrap(), ConnectionProfile::default());
    assert!(!form.testing());
}

#[test]
fn forms_are_checked_and_trimmed() {
    let mut form = NewConnectionDialog::default();
    form.name = "  ".to_string();
    form.host = " ".to_string();
    form.user = "".to_string();
    assert_eq!(form.to_profile(), Err("Name is required".to_string()));
    form.name = " prod ".to_string();
    assert_eq!(form.to_profile(), Err("Host is required".to_string()));
    form.host = " db.example.com ".to_string();
    assert_eq!(form.to_profile(), Err("User is required".to_string()));
    form.user = "app ".to_string();
    form.database = " orders ".to_string();
    form.socket = " ".to_string();
    form.tls = TlsMode::Required;
    assert_eq!(
        form.to_profile().unwrap(),
        ConnectionProfile {
            name: "prod".to_string(),
            host: "db.example.com".to_string(),
            port: 3306,
            user: "app".to_string(),
            database: Some("orders".to_string()),
            socket: None,
            tls: TlsMode::Required,
        }
    );
    form.last_test = Some(TestOutcome::Pending);
    assert!(form.testing());
}

#[test]
fn dialog_buttons() {
    assert_eq!(dialog_action(true, true, true, false), DialogAction::Cancel);
    assert_eq!(dialog_action(true, true, false, false), DialogAction::Save);
    assert_eq!(dialog_action(true, false, false, false), DialogAction::Test);
    assert_eq!(dialog_action(true, false, false, true), DialogAction::Nothing);
}

fn pending(kind: PendingExec) -> ConfirmAction {
    ConfirmAction { title: String::new(), message: String::new(), sql: String::new(), kind }
}

#[test]
fn names_have_to_be_typed() {
    let cases = [
        (PendingExec::DropObject { db: "d".to_string(), name: "n".to_string() }, "n", "object"),
        (PendingExec::Truncate { db: "d".to_string(), name: "n".to_string() }, "n", "table"),
        (PendingExec::DropDatabase { db: "d".to_string() }, "d", "database"),
    ];
    for (kind, target, label) in cases {
        let action = pending(kind);
        assert_eq!(confirm_target(&action).as_deref(), Some(target));
        assert_eq!(confirm_target_label(&action), label);
        assert_eq!(confirm_prompt(&action), format!("Type the {label} name to confirm:"));
        assert!(!confirm_enabled(&action, "other"));
        assert_eq!(confirm_choice(&action, "", true, false), ConfirmChoice::Nothing);
        assert_eq!(confirm_choice(&action, "", true, true), ConfirmChoice::Cancel);
        assert_eq!(
            confirm_choice(&action, &format!(" {target} "), true, true),
            ConfirmChoice::Confirm
        );
        assert_eq!(confirm_choice(&action, target, false, false), ConfirmChoice::Nothing);
    }
}

#[test]
fn harmless_statements_need_no_typing() {
    let edit = EditRequest { tab_id: 1, row: 0, col: 0, new_value: "x".to_string() };
    let cases = [
        (PendingExec::EditCell(edit), "cell"),
        (PendingExec::ReplaceSource { key: key() }, "routine"),
        (PendingExec::InsertRow { tab_id: 1 }, "row"),
    ];
    for (kind, label) in cases {
        let action = pending(kind);
        assert_eq!(confirm_target(&action), None);
        assert_eq!(confirm_target_label(&action), label);
        assert_eq!(confirm_choice(&action, "", true, false), ConfirmChoice::Confirm);
    }
}

#[test]
fn an_export_needs_something_to_export() {
    let mut state = ExportState::new("shop".to_string());
    assert_eq!(export_title(&state), "Export database `shop`");
    assert_eq!(state.format, OutputFormat::Sql);
    assert_eq!(export_choice(&state, true, true), ExportChoice::Run);
    state.opts.tables = false;
    state.opts.views = false;
    state.opts.procedures = false;
    state.opts.functions = false;
    state.opts.triggers = false;
    assert!(any_object_selected(&state.opts));
    state.opts.events = false;
    assert!(!any_object_selected(&state.opts));
    assert!(!run_enabled(&state));
    assert_eq!(export_choice(&state, true, true), ExportChoice::Cancel);
    assert_eq!(export_choice(&state, false, true), ExportChoice::Nothing);
    state.format = OutputFormat::Csv;
    assert_eq!(export_choice(&state, false, true), ExportChoice::Run);
}
