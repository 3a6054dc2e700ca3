use rysql::filter::{FilterCond, FilterOp};
use rysql::object_view::{
    column_headers, column_row, filter_column_label, index_row, kind_label, reference_line,
    rules_line, supports_column_editing, supports_data, supports_foreign_keys,
    supports_source_editing, supports_structure, FilterClicks, ObjectAction, ObjectViewState,
    SourceClicks, StructureClicks, SubTab,
};
use rysql::schema::{
    list_foreign_keys, list_indexes, ColumnInfo, ForeignKeyInfo, ForeignKeyRow, IndexInfo,
    IndexRow, ObjectKind,
};
use rysql::state::LoadState;

const KINDS: [ObjectKind; 6] = [
    ObjectKind::Table,
    ObjectKind::View,
    ObjectKind::Procedure,
    ObjectKind::Function,
    ObjectKind::Trigger,
    ObjectKind::Event,
];

fn view(kind: ObjectKind) -> ObjectViewState {
    ObjectViewState::new(kind, "shop".to_string(), "orders".to_string())
}

fn column(name: &str) -> ColumnInfo {
    ColumnInfo {
        name: name.to_string(),
        data_type: "int".to_string(),
        nullable: false,
        default_value: Some("0".to_string()),
        is_pk: true,
        extra: "auto_increment".to_string(),
        comment: "c".to_string(),
    }
}

fn quiet() -> StructureClicks {
    StructureClicks { edit: None, drop: None, add: false }
}

fn no_filter() -> FilterClicks {
    FilterClicks { add: false, apply: false, clear: false, entered: None, remove: None }
}

#[test]
fn what_each_kind_supports() {
    let structure: Vec<bool> = KINDS.iter().map(|k| supports_structure(*k)).collect();
    assert_eq!(structure, vec![true, true, false, false, false, false]);
    let data: Vec<bool> = KINDS.iter().map(|k| supports_data(*k)).collect();
    assert_eq!(data, structure);
    let keys: Vec<bool> = KINDS.iter().map(|k| supports_foreign_keys(*k)).collect();
    assert_eq!(keys, vec![true, false, false, false, false, false]);
    let editing: Vec<bool> = KINDS.iter().map(|k| supports_column_editing(*k)).collect();
    assert_eq!(editing, keys);
    let source: Vec<bool> = KINDS.iter().map(|k| supports_source_editing(*k)).collect();
    assert_eq!(source, vec![false, true, true, true, false, false]);
    assert_eq!(view(ObjectKind::Table).sub, SubTab::Structure);
    assert_eq!(view(ObjectKind::Event).sub, SubTab::Source);
    assert_eq!(kind_label(ObjectKind::Trigger), "Trigger");
    assert_eq!(view(ObjectKind::Function).title_line(), "F Function · shop.orders");
}

#[test]
fn subtabs_that_are_not_there_cannot_be_chosen() {
    let mut v = view(ObjectKind::Procedure);
    v.choose_sub(true, true, false);
    assert_eq!(v.sub, SubTab::Source);
    let mut v = view(ObjectKind::Table);
    v.choose_sub(false, true, false);
    assert_eq!(v.sub, SubTab::Data);
    v.choose_sub(true, true, true);
    assert_eq!(v.sub, SubTab::Source);
}

#[test]
fn the_structure_is_asked_for_once() {
    let mut v = view(ObjectKind::Table);
    let actions = v.show_structure(quiet());
    assert!(matches!(
        &actions[..],
        [ObjectAction::LoadColumns, ObjectAction::LoadIndexes, ObjectAction::LoadForeignKeys]
    ));
    assert!(v.show_structure(quiet()).is_empty());
    let mut v = view(ObjectKind::View);
    assert_eq!(v.show_structure(quiet()).len(), 2);
}

#[test]
fn columns_of_tables_can_be_changed() {
    let clicks = StructureClicks { edit: Some(1), drop: Some(0), add: true };
    let mut v = view(ObjectKind::Table);
    v.columns = LoadState::Loaded(vec![column("a"), column("b")]);
    v.indexes = LoadState::Loaded(vec![]);
    v.foreign_keys = LoadState::Loaded(vec![]);
    let actions = v.show_structure(clicks);
    assert!(matches!(
        &actions[..],
        [
            ObjectAction::ModifyColumn { name: edited },
            ObjectAction::DropColumn { name: dropped },
            ObjectAction::AddColumn
        ] if edited == "b" && dropped == "a"
    ));
    v.kind = ObjectKind::View;
    assert!(v.show_structure(clicks).is_empty());
}

#[test]
fn rows_are_loaded_retried_and_reloaded() {
    let mut v = view(ObjectKind::Table);
    assert!(matches!(&v.begin_data()[..], [ObjectAction::LoadColumns]));
    assert!(v.begin_data().is_empty());
    assert!(matches!(&v.show_data(false, false)[..], [ObjectAction::LoadData]));
    assert!(v.show_data(false, true).is_empty());
    assert_eq!(v.data_tab_id(), None);
    v.data = LoadState::Error("lost".to_string());
    assert!(v.show_data(false, false).is_empty());
    assert_eq!(v.show_data(false, true).len(), 1);
    v.data = LoadState::Loaded(4);
    assert!(v.show_data(true, false).is_empty());
    assert_eq!(v.data_tab_id(), Some(4));
    assert!(v.show_data(false, false).is_empty());
    assert_eq!(v.show_data(false, false).len(), 1);
}

#[test]
fn the_filter_bar_adds_removes_and_applies() {
    let mut v = view(ObjectKind::Table);
    assert!(v.filter_bar(FilterClicks { add: true, apply: true, ..no_filter() }).is_empty());
    assert!(v.data_filters.is_empty());
    v.columns = LoadState::Loaded(vec![column("id"), column("n")]);
    let actions = v.filter_bar(FilterClicks { add: true, apply: true, clear: true, ..no_filter() });
    assert!(matches!(&actions[..], [ObjectAction::ApplyDataFilter, ObjectAction::ClearDataFilter]));
    assert_eq!(v.data_filters[0].column, "id");
    assert_eq!(v.data_filters[0].op, FilterOp::Eq);
    assert_eq!(filter_column_label(&v.data_filters[0]), "id");
    v.data_filters[0].value = "7".to_string();
    assert_eq!(v.filter_bar(FilterClicks { entered: Some(0), ..no_filter() }).len(), 1);
    v.apply_filter();
    assert_eq!(v.applied_where.as_deref(), Some("`id` = 7"));
    v.data_filters[0].op = FilterOp::IsNull;
    assert!(v.filter_bar(FilterClicks { entered: Some(0), ..no_filter() }).is_empty());
    v.filter_bar(FilterClicks { remove: Some(0), ..no_filter() });
    assert!(v.data_filters.is_empty());
    v.data_filters = vec![FilterCond { column: String::new(), op: FilterOp::Eq, value: String::new() }];
    assert_eq!(filter_column_label(&v.data_filters[0]), "(column)");
    v.clear_filter();
    assert!(v.data_filters.is_empty() && v.applied_where.is_none());
    assert!(matches!(v.data, LoadState::NotLoaded));
}

#[test]
fn sources_are_edited_saved_and_reverted() {
    let click = |edit, save, revert| SourceClicks { edit, save, revert };
    let mut v = view(ObjectKind::View);
    assert!(matches!(&v.show_source(click(true, true, true))[..], [ObjectAction::LoadSource]));
    assert!(!v.source_editing);
    v.source = LoadState::Loaded("CREATE VIEW".to_string());
    assert!(v.show_source(click(true, true, false)).is_empty());
    assert!(v.source_editing && !v.source_dirty());
    v.source_buffer.push_str(" v2");
    assert!(v.source_dirty());
    let actions = v.show_source(click(false, true, false));
    assert!(matches!(&actions[..], [ObjectAction::SaveSource(s)] if s == "CREATE VIEW v2"));
    v.show_source(click(false, false, true));
    assert!(!v.source_editing && v.source_buffer.is_empty());
    v.source_editing = true;
    v.source_replaced();
    assert!(!v.source_editing && matches!(v.source, LoadState::NotLoaded));
    let mut table = view(ObjectKind::Table);
    table.source = LoadState::Loaded("CREATE TABLE".to_string());
    table.show_source(click(true, false, false));
    assert!(!table.source_editing);
}

#[test]
fn altered_columns_are_loaded_again() {
    let mut v = view(ObjectKind::Table);
    v.columns = LoadState::Loaded(vec![column("a")]);
    v.data = LoadState::Loaded(1);
    v.columns_altered();
    assert_eq!(v.show_structure(quiet()).len(), 3);
    assert_eq!(v.show_data(true, false).len(), 1);
}

#[test]
fn rows_of_the_structure_tables() {
    assert_eq!(column_row(&column("id")), vec!["id", "int", "NO", "✓", "0", "auto_increment", "c"]);
    let plain = ColumnInfo { nullable: true, is_pk: false, default_value: None, ..column("x") };
    assert_eq!(column_row(&plain), vec!["x", "int", "YES", "", "", "auto_increment", "c"]);
    assert_eq!(column_headers(true).len(), 8);
    assert_eq!(column_headers(false), vec!["Name", "Type", "Null", "PK", "Default", "Extra", "Comment"]);
    let index = IndexInfo {
        name: "i".to_string(),
        columns: vec!["a".to_string(), "b".to_string()],
        unique: true,
        index_type: "BTREE".to_string(),
    };
    assert_eq!(index_row(&index), vec!["i", "a, b", "✓", "BTREE"]);
    let fk = ForeignKeyInfo {
        name: "fk".to_string(),
        columns: vec!["user".to_string()],
        ref_db: "shop".to_string(),
        ref_table: "users".to_string(),
        ref_columns: vec!["id".to_string()],
        on_delete: "CASCADE".to_string(),
        on_update: "RESTRICT".to_string(),
    };
    assert_eq!(reference_line(&fk), "(user) → `shop`.`users` (id)");
    assert_eq!(rules_line(&fk), "ON DELETE CASCADE · ON UPDATE RESTRICT");
}

#[test]
fn rows_of_one_index_are_put_together() {
    let row = |name: &str, column: &str, unique: bool| IndexRow {
        name: name.to_string(),
        column: column.to_string(),
        unique,
        index_type: "BTREE".to_string(),
    };
    let found = list_indexes(vec![
        row("PRIMARY", "id", true),
        row("by_name", "last", false),
        row("by_name", "first", false),
    ]);
    assert_eq!(found.len(), 2);
    assert_eq!(found[0].name, "PRIMARY");
    assert_eq!(found[0].columns, vec!["id"]);
    assert!(found[0].unique);
    assert_eq!(found[1].name, "by_name");
    assert_eq!(found[1].columns, vec!["last", "first"]);
    assert!(!found[1].unique);
    assert_eq!(found[1].index_type, "BTREE");
    assert!(list_indexes(vec![]).is_empty());
}

#[test]
fn rows_of_one_foreign_key_are_put_together() {
    let row = |name: &str, column: &str, ref_column: &str| ForeignKeyRow {
        name: name.to_string(),
        column: column.to_string(),
        ref_db: "shop".to_string(),
        ref_table: "orders".to_string(),
        ref_column: ref_column.to_string(),
        on_delete: "CASCADE".to_string(),
        on_update: "RESTRICT".to_string(),
    };
    let found = list_foreign_keys(vec![row("fk", "a", "x"), row("fk", "b", "y"), row("fk2", "c", "z")]);
    assert_eq!(found.len(), 2);
    assert_eq!(found[0].columns, vec!["a", "b"]);
    assert_eq!(found[0].ref_columns, vec!["x", "y"]);
    assert_eq!(found[0].ref_db, "shop");
    assert_eq!(found[0].ref_table, "orders");
    assert_eq!(found[0].on_delete, "CASCADE");
    assert_eq!(found[0].on_update, "RESTRICT");
    assert_eq!(found[1].name, "fk2");
    assert_eq!(found[1].columns, vec!["c"]);
}
