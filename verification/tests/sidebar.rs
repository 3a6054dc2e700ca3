use rysql::dock::{
    close_action, editor_hover, editor_title, export_action, export_menu, forward, missing_object,
    object_hover, object_title, results_title, DockAction, DockTab,
};
use rysql::editor::Buffer;
use rysql::object_view::ObjectAction;
use rysql::profile::ConnectionProfile;
use rysql::results::{ExportFormat, ResultsAction};
use rysql::schema::{
    is_system_schema, list_databases_user, list_objects, show_create_column, show_create_sql,
    ObjectKind, SchemaObjects,
};
use rysql::sidebar::{
    categories, category_label, connection_actions, connection_label, database_actions,
    database_label, drop_label, endpoint_label, hits_label, nothing_found, object_actions,
    object_label, schema_label,
    visible_tree, Category, ConnectionClicks, DatabaseClicks, ObjectClicks, SidebarAction, TreeNode,
};
use rysql::state::{load_result, LoadState, ObjectKey, PendingExec, SchemaState};

fn names(list: &[&str]) -> Vec<String> {
    list.iter().map(|n| n.to_string()).collect()
}

fn shop() -> SchemaObjects {
    SchemaObjects {
        tables: names(&["orders", "Users"]),
        views: names(&["user_view"]),
        events: names(&["nightly"]),
        ..SchemaObjects::default()
    }
}

fn schema() -> SchemaState {
    let mut schema = SchemaState::default();
    schema.set("shop".to_string(), LoadState::Loaded(shop()));
    schema.set("blog".to_string(), LoadState::Loading);
    schema
}

#[test]
fn what_is_known_of_a_database_is_replaced() {
    let mut schema = schema();
    assert!(matches!(schema.get("blog"), Some(LoadState::Loading)));
    schema.set("blog".to_string(), load_result(Err("denied".to_string())));
    assert!(matches!(schema.get("blog"), Some(LoadState::Error(e)) if e == "denied"));
    assert!(matches!(schema.get("shop"), Some(LoadState::Loaded(_))));
    assert!(schema.get("none").is_none());
    assert_eq!(schema.objects.len(), 2);
    let mut load: LoadState<u8> = LoadState::default();
    assert!(load.begin());
    assert!(!load.begin());
}

#[test]
fn labels_of_connections() {
    let mut profile = ConnectionProfile::default();
    assert_eq!(endpoint_label(&profile), "root@127.0.0.1:3306");
    profile.database = Some("shop".to_string());
    assert_eq!(endpoint_label(&profile), "root@127.0.0.1:3306/shop");
    assert_eq!(connection_label(&profile, true), "● local");
    assert_eq!(connection_label(&profile, false), "○ local");
    assert_eq!(schema_label("11.4"), "Schema · 11.4");
}

#[test]
fn only_idle_connections_can_be_opened() {
    let all = ConnectionClicks {
        double_click: true,
        connect: false,
        disconnect: true,
        refresh: true,
        delete: true,
    };
    let idle = connection_actions("a", false, false, all);
    assert!(matches!(&idle[..], [SidebarAction::Connect(n), SidebarAction::DeleteProfile(_)] if n == "a"));
    let busy = connection_actions("a", false, true, all);
    assert!(matches!(&busy[..], [SidebarAction::DeleteProfile(_)]));
    let active = connection_actions("a", true, false, all);
    assert!(matches!(
        &active[..],
        [SidebarAction::Disconnect, SidebarAction::RefreshDatabases, SidebarAction::DeleteProfile(_)]
    ));
}

fn all_clicks() -> ObjectClicks {
    ObjectClicks {
        double_click: true,
        open: true,
        copy_name: true,
        copy_create: true,
        truncate: true,
        drop: true,
    }
}

#[test]
fn object_menus() {
    let table = object_actions("sh`op", ObjectKind::Table, "or`ders", all_clicks());
    assert_eq!(table.len(), 6);
    assert!(matches!(&table[2], SidebarAction::CopyText(n) if n == "or`ders"));
    assert!(matches!(&table[4], SidebarAction::Confirm(c)
        if c.title == "Truncate `or`ders`"
            && c.message == "This will remove ALL rows from `sh`op`.`or`ders`."
            && c.sql == "TRUNCATE TABLE `sh``op`.`or``ders`"
            && matches!(&c.kind, PendingExec::Truncate { db, name } if db == "sh`op" && name == "or`ders")));
    let view = object_actions("shop", ObjectKind::View, "v", all_clicks());
    assert_eq!(view.len(), 5);
    assert!(matches!(&view[4], SidebarAction::Confirm(c)
        if c.title == "Drop view `v`"
            && c.message == "This will permanently delete `shop`.`v`."
            && c.sql == "DROP VIEW `shop`.`v`"
            && matches!(&c.kind, PendingExec::DropObject { .. })));
    assert_eq!(drop_label(ObjectKind::Procedure), "Drop procedure…");
    assert_eq!(object_label(ObjectKind::Trigger, "t"), "   Tr  t");
}

#[test]
fn database_menus_and_lazy_loads() {
    let quiet = DatabaseClicks {
        expanded: true,
        retry: true,
        refresh: false,
        copy_name: false,
        export: false,
        drop: false,
    };
    let schema = schema();
    assert!(database_actions(&schema, "shop", quiet).is_empty());
    assert!(database_actions(&schema, "blog", quiet).is_empty());
    let fresh = database_actions(&schema, "new", quiet);
    assert!(matches!(&fresh[..], [SidebarAction::RefreshDatabase(db)] if db == "new"));
    let mut failed = SchemaState::default();
    failed.set("x".to_string(), LoadState::Error("denied".to_string()));
    assert_eq!(database_actions(&failed, "x", quiet).len(), 1);
    let menu = database_actions(
        &schema,
        "shop",
        DatabaseClicks {
            expanded: false,
            retry: false,
            refresh: true,
            copy_name: true,
            export: true,
            drop: true,
        },
    );
    assert_eq!(menu.len(), 4);
    assert!(matches!(&menu[3], SidebarAction::Confirm(c)
        if c.title == "Drop database `shop`"
            && c.message == "This will permanently delete the database `shop` and ALL its objects."
            && c.sql == "DROP DATABASE `shop`"));
    assert_eq!(database_label("shop"), "🗄 shop");
}

#[test]
fn the_tree_is_filtered_by_name() {
    let schema = schema();
    let dbs = names(&["blog", "shop", "users"]);
    assert_eq!(visible_tree(&schema, &dbs, "  ").len(), 3);
    let found = visible_tree(&schema, &dbs, " USER ");
    assert_eq!(found.len(), 2);
    match &found[0] {
        TreeNode::Hits { db, categories } => {
            assert_eq!(db, "shop");
            let labels: Vec<String> = categories.iter().map(category_label).collect();
            assert_eq!(labels, names(&["Tables (1)", "Views (1)"]));
            assert_eq!(categories[0].names, names(&["Users"]));
        }
        TreeNode::Full { .. } => panic!("the name of the database does not match"),
    }
    assert!(matches!(&found[1], TreeNode::Full { db } if db == "users"));
    assert!(visible_tree(&schema, &dbs, "zzz").is_empty());
    assert!(nothing_found(&visible_tree(&schema, &dbs, "zzz"), "zzz"));
    assert!(nothing_found(&visible_tree(&schema, &vec![], "zzz"), "zzz"));
    assert!(!nothing_found(&visible_tree(&schema, &vec![], "  "), "  "));
    assert!(!nothing_found(&visible_tree(&schema, &dbs, " USER "), " USER "));
    let two = Category {
        kind: ObjectKind::View,
        names: vec!["a".to_string(), "b".to_string()],
    };
    assert_eq!(hits_label(&two), "  Views (2)");
}

#[test]
fn empty_categories_are_left_out() {
    let all = categories(&shop(), "");
    let kinds: Vec<ObjectKind> = all.iter().map(|c: &Category| c.kind).collect();
    assert_eq!(kinds, vec![ObjectKind::Table, ObjectKind::View, ObjectKind::Event]);
    assert_eq!(all[0].names, shop().tables);
}

#[test]
fn schemas_are_listed() {
    assert!(is_system_schema("sys") && !is_system_schema("SYS"));
    assert_eq!(
        list_databases_user(names(&["a", "mysql", "b", "information_schema", "performance_schema"])),
        names(&["a", "b"])
    );
    let pair = |a: &str, b: &str| (a.to_string(), b.to_string());
    let objects = list_objects(
        vec![pair("t", "BASE TABLE"), pair("v", "view"), pair("s", "SYSTEM VIEW")],
        vec![pair("p", "procedure"), pair("f", "FUNCTION"), pair("x", "PACKAGE")],
        names(&["tr"]),
        names(&["ev"]),
    );
    assert_eq!(objects.tables, names(&["t", "s"]));
    assert_eq!(objects.views, names(&["v"]));
    assert_eq!(objects.procedures, names(&["p"]));
    assert_eq!(objects.functions, names(&["f"]));
    assert_eq!(objects.total(), 7);
    assert_eq!(
        show_create_sql("d`b", ObjectKind::Event, "e"),
        "SHOW CREATE EVENT `d``b`.`e`"
    );
    assert_eq!(show_create_column(ObjectKind::Function), 2);
    assert_eq!(show_create_column(ObjectKind::Trigger), 1);
}

fn key() -> ObjectKey {
    ObjectKey { db: "shop".to_string(), kind: ObjectKind::View, name: "v".to_string() }
}

#[test]
fn dock_tabs() {
    let mut buffer = Buffer::new(7, "query-7".to_string());
    assert_eq!(editor_title(Some(&buffer), 7), "query-7");
    buffer.dirty = true;
    assert_eq!(editor_title(Some(&buffer), 7), "● query-7");
    assert_eq!(editor_title(None, 9), "query-9");
    assert_eq!(editor_hover(Some(&buffer)), None);
    buffer.path = Some("/tmp/a.sql".to_string());
    assert_eq!(editor_hover(Some(&buffer)).as_deref(), Some("/tmp/a.sql"));
    assert_eq!(results_title(None, 3), "results #3");
    assert_eq!(object_title(&key()), "shop.v");
    assert_eq!(object_hover(&key()), "View · `shop`.`v`");
    assert_eq!(missing_object(&key()), "Object `shop.v` is no longer available.");
}

#[test]
fn dock_actions() {
    assert!(matches!(
        close_action(&DockTab::SqlEditor { buffer_id: 1 }),
        DockAction::CloseEditorBuffer(1)
    ));
    assert!(matches!(close_action(&DockTab::Results { tab_id: 2 }), DockAction::CloseResultsTab(2)));
    assert!(matches!(
        close_action(&DockTab::Object { key: key() }),
        DockAction::CloseObjectView(k) if k == key()
    ));
    let forwarded = forward(&key(), vec![ObjectAction::LoadColumns, ObjectAction::LoadSource]);
    assert_eq!(forwarded.len(), 2);
    assert!(matches!(
        &forwarded[1],
        DockAction::ObjectRequest { key: k, action: ObjectAction::LoadSource } if *k == key()
    ));
    let labels: Vec<&str> = export_menu().iter().map(|(label, _)| *label).collect();
    assert_eq!(labels, vec!["Copy as CSV", "Copy as TSV", "Copy as INSERT"]);
    assert!(matches!(
        export_action(&DockTab::Results { tab_id: 5 }, ExportFormat::Tsv),
        Some(ResultsAction::Export { tab_id: 5, format: ExportFormat::Tsv })
    ));
    assert!(export_action(&DockTab::SqlEditor { buffer_id: 1 }, ExportFormat::Csv).is_none());
}
