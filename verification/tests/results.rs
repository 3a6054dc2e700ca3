use std::time::Duration;

use rysql::elapsed::Elapsed;
use rysql::order::Order;
use rysql::query::{Cell, ColumnMeta, QueryResult, Real};
use rysql::results::{
    cell_label, compare_cells, header_hover, header_label, no_rows_label, row_number, strip_actions, tab_title, CellTone, ExportFormat,
    ResultTab, ResultsAction, ResultsState, SortOrder,
};

fn result(cells: Vec<Cell>) -> QueryResult {
    QueryResult {
        columns: vec![ColumnMeta {
            name: "c".to_string(),
            sql_type: "INT".to_string(),
            origin: None,
            original_name: None,
        }],
        rows: cells.into_iter().map(|c| vec![c]).collect(),
        elapsed: Duration::from_secs(0),
    }
}

fn number(v: f64) -> Cell {
    Cell::Float(Real { bits: v.to_bits(), text: v.to_string() })
}

#[test]
fn cells_compare_by_value() {
    let cases = [
        (Cell::Int(-1), Cell::UInt(0), Order::Less),
        (Cell::UInt(u64::MAX), Cell::Int(i64::MAX), Order::Greater),
        (Cell::Int(2), Cell::Int(10), Order::Less),
        (number(-0.5), number(0.25), Order::Less),
        (number(0.0), number(-0.0), Order::Equal),
        (number(f64::NAN), number(1.0), Order::Equal),
        (number(f64::NEG_INFINITY), number(f64::MIN), Order::Less),
        (Cell::Bool(false), Cell::Bool(true), Order::Less),
        (Cell::Text("b".to_string()), Cell::Text("a".to_string()), Order::Greater),
        (Cell::Int(10), Cell::Text("9".to_string()), Order::Less),
        (Cell::Null, Cell::Int(i64::MIN), Order::Less),
        (Cell::Int(0), Cell::Null, Order::Greater),
        (Cell::Null, Cell::Null, Order::Equal),
    ];
    for (a, b, expected) in cases {
        assert_eq!(compare_cells(Some(&a), Some(&b)), expected, "{a:?} {b:?}");
    }
    assert_eq!(compare_cells(None, None), Order::Equal);
    assert_eq!(compare_cells(None, Some(&Cell::Int(1))), Order::Less);
    assert_eq!(compare_cells(Some(&Cell::Int(1)), None), Order::Greater);
}

#[test]
fn three_clicks_go_round() {
    let cells = vec![Cell::Int(3), Cell::Null, Cell::Int(1), Cell::Int(3), Cell::Int(2)];
    let mut tab = ResultTab::new("t".to_string(), result(cells));
    assert_eq!(tab.order, vec![0, 1, 2, 3, 4]);
    tab.cycle_sort(0);
    assert_eq!(tab.sort_by, Some((0, SortOrder::Asc)));
    assert_eq!(tab.order, vec![1, 2, 4, 0, 3]);
    tab.cycle_sort(0);
    assert_eq!(tab.sort_by, Some((0, SortOrder::Desc)));
    assert_eq!(tab.order, vec![3, 0, 4, 2, 1]);
    tab.cycle_sort(0);
    assert_eq!(tab.sort_by, None);
    assert_eq!(tab.order, vec![0, 1, 2, 3, 4]);
}

#[test]
fn many_rows_are_sorted_stably() {
    let cells: Vec<Cell> = (0..500).map(|i: i64| Cell::Int((i * 7919) % 17)).collect();
    let keys: Vec<i64> = (0..500).map(|i: i64| (i * 7919) % 17).collect();
    let mut tab = ResultTab::new("t".to_string(), result(cells));
    tab.cycle_sort(0);
    let mut expected: Vec<usize> = (0..500).collect();
    expected.sort_by_key(|i| keys[*i]);
    assert_eq!(tab.order, expected);
}

#[test]
fn the_oldest_of_seventeen_tabs_goes() {
    let mut state = ResultsState::default();
    assert!(state.is_empty());
    for i in 0..17 {
        state.push(ResultTab::new(format!("t{i}"), result(vec![])));
    }
    assert_eq!(state.tabs.len(), 16);
    assert_eq!(state.tabs[0].label, "t1");
    assert_eq!(state.active, 15);
    state.close(15);
    assert_eq!(state.active, 14);
    state.close(99);
    assert_eq!(state.tabs.len(), 15);
    while !state.is_empty() {
        state.close(0);
    }
    assert_eq!(state.active, 0);
}

#[test]
fn labels_of_tabs_headers_and_cells() {
    let tab = ResultTab::new("q".to_string(), result(vec![Cell::Int(1), Cell::Int(2)]));
    assert_eq!(tab_title(&tab), "q  (2 rows)");
    assert_eq!(header_label("c", None, 0), "c");
    assert_eq!(header_label("c", Some((0, SortOrder::Asc)), 0), "c  ▲");
    assert_eq!(header_label("c", Some((0, SortOrder::Desc)), 0), "c  ▼");
    assert_eq!(header_label("c", Some((1, SortOrder::Desc)), 0), "c");
    let null = cell_label(&Cell::Null);
    assert_eq!((null.text.as_str(), null.tone, null.hover), ("NULL", CellTone::Null, None));
    let long = cell_label(&Cell::Text("x".repeat(200)));
    assert_eq!(long.text.len(), 160);
    assert_eq!(long.hover, Some("x".repeat(200)));
    let json = cell_label(&Cell::Json("{}".to_string()));
    assert_eq!((json.text.as_str(), json.tone, json.hover), ("{}", CellTone::Json, Some("{}".to_string())));
}

#[test]
fn the_tab_strip_asks_for_what_was_clicked() {
    assert!(strip_actions(0, Some(0), None).is_empty());
    let actions = strip_actions(0, Some(2), Some(1));
    assert!(matches!(actions[0], ResultsAction::SelectTab(2)));
    assert!(matches!(actions[1], ResultsAction::CloseTab(1)));
    assert_ne!(ExportFormat::Csv, ExportFormat::Tsv);
}

#[test]
fn empty_results_say_how_long_they_took() {
    assert_eq!(no_rows_label(Elapsed { secs: 1, nanos: 540_000_000 }), "(no rows · 1.5s)");
    assert_eq!(no_rows_label(Elapsed { secs: 0, nanos: 2_000_000 }), "(no rows · 2.0ms)");
}

#[test]
fn rows_are_numbered_as_they_came() {
    let mut tab = ResultTab::new("t".to_string(), result(vec![Cell::Int(2), Cell::Int(1)]));
    tab.cycle_sort(0);
    assert_eq!(row_number(&tab, 0), "2");
    assert_eq!(row_number(&tab, 1), "1");
    assert_eq!(header_hover(&tab.result.columns[0]), "INT · click to sort");
}
