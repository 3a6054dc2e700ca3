use rysql::connect::{build_pool, replace_routine, ConnectionStats, DbError};
use rysql::crash::{crash_file_name, crash_report};
use rysql::errors::{DriverError, DriverErrorKind};
use rysql::history::{HistoryEntry, HistoryStore};
use rysql::history_view::{history_line, profile_label, HistoryAction, HistoryView};
use rysql::profile::{ConnectionProfile, CoreError, TlsMode};
use rysql::secret::{delete_password, fetch_password, store_password, KeyringError};
use rysql::settings::{default_history_limit, AppSettings, SettingsStore, ThemeChoice};
use rysql::store::ProfileStore;

fn entry(sql: &str, profile: &str) -> HistoryEntry {
    HistoryEntry {
        timestamp: "2024-01-01T00:00:00Z".to_string(),
        profile: profile.to_string(),
        sql: sql.to_string(),
        success: true,
        summary: "1 row".to_string(),
    }
}

#[test]
fn history_keeps_the_newest_and_skips_repeats() {
    let store = HistoryStore::at("/tmp/history.json".to_string(), 2);
    assert_eq!(store.path(), "/tmp/history.json");
    let one = store.push(vec![], entry("SELECT 1", "a"));
    assert!(one.changed);
    let again = store.push(one.entries, entry("SELECT 1", "a"));
    assert!(!again.changed);
    assert_eq!(again.entries.len(), 1);
    let other = store.push(again.entries, entry("SELECT 1", "b"));
    assert!(other.changed);
    let capped = store.push(other.entries, entry("SELECT 2", "b"));
    assert_eq!(capped.entries, vec![entry("SELECT 1", "b"), entry("SELECT 2", "b")]);
    let nothing = HistoryStore::at("x".to_string(), 0).push(vec![], entry("SELECT 1", "a"));
    assert!(nothing.entries.is_empty());
}

#[test]
fn unreadable_history_is_empty() {
    let store = HistoryStore::at("/tmp/history.json".to_string(), 2);
    assert!(store.load(None).is_empty());
    assert!(store.load(Some(Err("bad".to_string()))).is_empty());
    assert_eq!(store.load(Some(Ok(vec![entry("a", "b")]))), vec![entry("a", "b")]);
}

#[test]
fn history_is_searched_newest_first() {
    let mut view = HistoryView::default();
    view.entries = vec![
        entry("SELECT Users", "prod"),
        entry("DELETE FROM t", "users-db"),
        entry("UPDATE x", "dev"),
        HistoryEntry { summary: "USERS changed".to_string(), ..entry("SET y", "dev") },
    ];
    assert_eq!(view.filtered(), vec![3, 2, 1, 0]);
    view.query = "uSeRs".to_string();
    assert_eq!(view.filtered(), vec![3, 1, 0]);
    view.query = "zzz".to_string();
    assert!(view.filtered().is_empty());
    assert_eq!(view.count_label(), "4 entries");
}

#[test]
fn history_buttons() {
    let mut view = HistoryView::default();
    view.entries = vec![entry("SELECT 1", "a")];
    assert!(matches!(view.action(true, true, Some(0)), HistoryAction::Nothing));
    view.open = true;
    assert!(matches!(view.action(true, true, Some(0)), HistoryAction::LoadIntoEditor(s) if s == "SELECT 1"));
    assert!(matches!(view.action(true, true, None), HistoryAction::Clear));
    assert!(matches!(view.action(true, false, Some(9)), HistoryAction::Close));
    assert!(matches!(view.action(false, false, None), HistoryAction::Nothing));
}

#[test]
fn one_line_stands_for_a_statement() {
    let long = "x".repeat(201);
    let cases = [
        ("", ""),
        ("  SELECT 1  ", "SELECT 1"),
        ("SELECT 1\n", "SELECT 1"),
        ("SELECT 1\r\nFROM t", "SELECT 1…"),
        ("SELECT 1\n\n", "SELECT 1…"),
        ("\nSELECT 1", "…"),
    ];
    for (sql, line) in cases {
        assert_eq!(history_line(&entry(sql, "p")), line, "{sql:?}");
        let cut: String = sql.lines().next().unwrap_or("").trim().chars().take(200).collect();
        assert!(line.starts_with(&cut));
    }
    assert_eq!(history_line(&entry(&long, "p")), format!("{}…", "x".repeat(200)));
    assert_eq!(history_line(&entry(&long[1..], "p")), "x".repeat(200));
    assert_eq!(profile_label(&entry("", "prod")), "· prod");
}

#[test]
fn settings_fall_back_to_the_defaults() {
    let store = SettingsStore::at("/tmp/settings.toml".to_string());
    assert_eq!(store.path(), "/tmp/settings.toml");
    assert_eq!(store.load(None), AppSettings::default());
    assert_eq!(store.load(Some(Err("bad".to_string()))), AppSettings::default());
    let set = AppSettings {
        theme: ThemeChoice::Dark,
        history_limit: 7,
        last_browse_dir: Some("/home".to_string()),
    };
    assert_eq!(store.load(Some(Ok(set.clone()))), set);
    assert_eq!(default_history_limit(), 500);
    assert_eq!(AppSettings::default().history_limit, 0);
    assert_eq!(AppSettings::default().theme, ThemeChoice::System);
    assert_eq!(ThemeChoice::default(), ThemeChoice::System);
}

#[test]
fn profiles_that_cannot_be_parsed_are_an_error() {
    let store = ProfileStore::at("/tmp/connections.toml".to_string());
    assert_eq!(store.path(), "/tmp/connections.toml");
    assert_eq!(store.load(None), Ok(vec![]));
    let profiles = vec![ConnectionProfile::default()];
    assert_eq!(store.load(Some(Ok(profiles.clone()))), Ok(profiles));
    let bad = CoreError::Toml("expected `=`".to_string());
    assert_eq!(store.load(Some(Err(bad.clone()))), Err(bad));
}

#[test]
fn errors_of_the_core_have_messages() {
    assert_eq!(CoreError::InvalidConfig("x".to_string()).message(), "invalid configuration: x");
    assert_eq!(CoreError::NoConfigDir.message(), "no configuration directory");
    assert_eq!(CoreError::Io("io".to_string()).message(), "io");
    assert_eq!(CoreError::Keyring("locked".to_string()).message(), "locked");
    assert_eq!(DbError::Core(CoreError::Toml("t".to_string())).message(), "t");
    let driver = DriverError { kind: DriverErrorKind::PoolClosed, message: "closed".to_string() };
    assert_eq!(DbError::Sqlx(driver).message(), "closed");
}

#[test]
fn a_missing_password_is_no_error_where_it_is_read_or_deleted() {
    let none = || KeyringError::NoEntry("no entry".to_string());
    let locked = || KeyringError::Other("locked".to_string());
    assert_eq!(fetch_password(Err(none())), Ok(None));
    assert_eq!(fetch_password(Ok("pw".to_string())), Ok(Some("pw".to_string())));
    assert_eq!(fetch_password(Err(locked())), Err(CoreError::Keyring("locked".to_string())));
    assert_eq!(delete_password(Err(none())), Ok(()));
    assert_eq!(delete_password(Err(locked())), Err(CoreError::Keyring("locked".to_string())));
    assert_eq!(store_password(Err(none())), Err(CoreError::Keyring("no entry".to_string())));
    assert_eq!(store_password(Ok(())), Ok(()));
}

#[test]
fn one_connection_per_profile() {
    let mut profile = ConnectionProfile::default();
    profile.database = Some(String::new());
    profile.socket = Some("/run/mysqld.sock".to_string());
    profile.tls = TlsMode::Preferred;
    let plan = build_pool(&profile);
    assert_eq!((plan.host.as_str(), plan.port, plan.user.as_str()), ("127.0.0.1", 3306, "root"));
    assert_eq!(plan.database, None);
    assert_eq!(plan.socket.as_deref(), Some("/run/mysqld.sock"));
    assert_eq!(plan.tls, TlsMode::Preferred);
    assert_eq!((plan.max_connections, plan.min_connections), (1, 0));
    assert_eq!((plan.acquire_timeout_secs, plan.idle_timeout_secs), (10, 300));
    assert!(ConnectionStats::default().server.is_none());
}

#[test]
fn routines_are_dropped_before_they_are_created() {
    let steps = replace_routine(Some("DROP".to_string()), "CREATE".to_string());
    let steps: Vec<(&str, bool)> = steps.iter().map(|s| (s.sql.as_str(), s.optional)).collect();
    assert_eq!(steps, vec![("DROP", true), ("CREATE", false)]);
    assert_eq!(replace_routine(None, "CREATE".to_string()).len(), 1);
}

#[test]
fn crash_reports() {
    assert_eq!(crash_file_name("20240101T000000Z"), "panic-20240101T000000Z.txt");
    assert_eq!(
        crash_report("T", "0.6.0", "boom", "0: main"),
        "RySQL panic at T\nBuild: rysql-ui v0.6.0\n---\nboom\n---\n0: main\n"
    );
}

#[test]
fn roundtrip_empty() {
    let store = ProfileStore::at("/tmp/connections.toml".to_string());
    assert_eq!(store.load(None), Ok(vec![]));
    assert_eq!(store.load(Some(Ok(vec![]))), Ok(vec![]));
}
