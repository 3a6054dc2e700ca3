use rysql::csv_export::{export_csv, CsvReply, CsvRequest};
use rysql::dump::{dump_database, insertable_columns, select_sql, DumpReply, DumpRequest};
use rysql::errors::{ActorError, ExportError};
use rysql::export::SqlDumpOptions;
use rysql::query::Cell;
use rysql::schema::{ColumnInfo, ObjectKind, SchemaObjects};

fn names(list: &[&str]) -> Vec<String> {
    list.iter().map(|n| n.to_string()).collect()
}

fn column(name: &str, extra: &str) -> ColumnInfo {
    ColumnInfo {
        name: name.to_string(),
        data_type: "int".to_string(),
        nullable: true,
        default_value: None,
        is_pk: false,
        extra: extra.to_string(),
        comment: String::new(),
    }
}

fn objects() -> SchemaObjects {
    SchemaObjects {
        tables: names(&["t"]),
        views: names(&["v"]),
        procedures: names(&["p"]),
        ..SchemaObjects::default()
    }
}

fn answer(request: &DumpRequest) -> DumpReply {
    match request {
        DumpRequest::ListObjects { .. } => DumpReply::Objects(objects()),
        DumpRequest::ServerInfo => DumpReply::Version("11.4".to_string()),
        DumpRequest::ShowCreate { kind, name, .. } => DumpReply::Definition(match kind {
            ObjectKind::Table => format!("CREATE TABLE `{name}` (`id` int)"),
            ObjectKind::View => format!("CREATE DEFINER=`a`@`b` VIEW `{name}` AS SELECT 1"),
            _ => format!("CREATE PROCEDURE `{name}`() BEGIN SELECT 1; END"),
        }),
        DumpRequest::ListColumns { .. } => {
            DumpReply::Columns(vec![column("id", ""), column("g", "VIRTUAL GENERATED")])
        }
        DumpRequest::Query { sql } => {
            assert_eq!(sql, "SELECT `id` FROM `shop`.`t`");
            DumpReply::Rows(vec![vec![Cell::Int(1)], vec![Cell::Int(2)]])
        }
        DumpRequest::Finished => panic!("nothing to answer"),
    }
}

#[test]
fn a_dump_holds_every_object() {
    let mut dump = dump_database("shop", &SqlDumpOptions::default());
    let mut progress = Vec::new();
    loop {
        let request = dump.request();
        if matches!(request, DumpRequest::Finished) {
            break;
        }
        if let Some(p) = dump.accept(answer(&request)) {
            progress.push((p.done, p.total, p.label));
        }
    }
    let text = dump.finish().unwrap().unwrap();
    assert_eq!(
        progress.iter().map(|(done, total, _)| (*done, *total)).collect::<Vec<_>>(),
        vec![(1, 3), (2, 3), (3, 3)]
    );
    for part in [
        "shop",
        "11.4",
        "SET FOREIGN_KEY_CHECKS=0;",
        "DROP TABLE IF EXISTS `t`;",
        "CREATE TABLE `t` (`id` int);",
        "INSERT INTO `t` (`id`) VALUES\n(1),\n(2);\n",
        "CREATE VIEW `v` AS SELECT 1;",
        "DELIMITER $$\n",
        "CREATE PROCEDURE `p`() BEGIN SELECT 1; END$$",
        "DELIMITER ;",
    ] {
        assert!(text.contains(part), "{part:?} is missing in\n{text}");
    }
    assert!(text.find("CREATE TABLE").unwrap() < text.find("CREATE PROCEDURE").unwrap());
    assert!(text.find("CREATE PROCEDURE").unwrap() < text.find("CREATE VIEW").unwrap());
}

#[test]
fn options_leave_parts_out() {
    let opts = SqlDumpOptions {
        views: false,
        procedures: false,
        data: false,
        drop_if_exists: false,
        portability_header: false,
        comment_header: false,
        create_database: true,
        ..SqlDumpOptions::default()
    };
    let mut dump = dump_database("shop", &opts);
    while !matches!(dump.request(), DumpRequest::Finished) {
        let request = dump.request();
        assert!(!matches!(request, DumpRequest::Query { .. }));
        dump.accept(answer(&request));
    }
    let text = dump.finish().unwrap().unwrap();
    assert!(text.contains("CREATE DATABASE IF NOT EXISTS `shop`"));
    assert!(text.contains("USE `shop`;"));
    assert!(!text.contains("VIEW") && !text.contains("DROP") && !text.contains("FOREIGN_KEY_CHECKS"));
}

#[test]
fn a_failure_ends_the_dump() {
    let mut dump = dump_database("shop", &SqlDumpOptions::default());
    assert!(dump.accept(DumpReply::Failed(ActorError::Closed)).is_none());
    assert!(matches!(dump.request(), DumpRequest::Finished));
    assert!(matches!(dump.finish(), Some(Err(ActorError::Closed))));
    let unfinished = dump_database("shop", &SqlDumpOptions::default());
    assert!(unfinished.finish().is_none());
}

#[test]
fn generated_columns_are_not_inserted() {
    let columns = vec![column("a`b", ""), column("g", "STORED GENERATED")];
    assert_eq!(insertable_columns(&columns), names(&["a`b"]));
    assert_eq!(select_sql("d", "t", &names(&["a`b", "c"])), "SELECT `a``b`, `c` FROM `d`.`t`");
}

#[test]
fn every_table_becomes_a_file() {
    let mut export = export_csv("shop");
    let mut files: Vec<(String, String)> = Vec::new();
    let mut progress = Vec::new();
    loop {
        let reply = match export.request() {
            CsvRequest::ListObjects { .. } => CsvReply::Tables(names(&["a/b", "c"])),
            CsvRequest::ListColumns { .. } => {
                CsvReply::Columns(vec![column("id", ""), column("g", "VIRTUAL GENERATED")])
            }
            CsvRequest::Query { .. } => {
                CsvReply::Rows(vec![vec![Cell::Int(1), Cell::Text("x,y".to_string())]])
            }
            CsvRequest::WriteFile { name, content } => {
                files.push((name, content));
                CsvReply::Written
            }
            CsvRequest::Finished => break,
        };
        if let Some(p) = export.accept(reply) {
            progress.push((p.done, p.total, p.label));
        }
    }
    assert_eq!(files.len(), 2);
    assert_eq!(files[0], ("a_b.csv".to_string(), "id,g\n1,\"x,y\"\n".to_string()));
    assert_eq!(files[1].0, "c.csv");
    assert_eq!(progress.len(), 2);
    assert_eq!((progress[1].0, progress[1].1), (2, 2));
    assert_eq!(export.finish().unwrap().unwrap().len(), 2);
}

#[test]
fn a_file_that_cannot_be_written_ends_the_export() {
    let mut export = export_csv("shop");
    export.accept(CsvReply::Failed(ExportError::Io("disk full".to_string())));
    assert!(matches!(export.request(), CsvRequest::Finished));
    assert!(matches!(export.finish(), Some(Err(ExportError::Io(m))) if m == "disk full"));
}
