use rysql::connect::ServerInfo;
use rysql::dialog::{DialogAction, TestOutcome};
use rysql::elapsed::Elapsed;
use rysql::profile::{ConnectionProfile, CoreError};
use rysql::session::{test_outcome, DialogEffect, Session, SessionEvent};

fn profile(name: &str) -> ConnectionProfile {
    ConnectionProfile { name: name.to_string(), ..ConnectionProfile::default() }
}

fn connected(name: &str) -> SessionEvent {
    SessionEvent::Connected {
        profile: name.to_string(),
        info: ServerInfo { version: "11.4".to_string() },
    }
}

#[test]
fn connecting_replaces_the_open_connection() {
    let mut session = Session::new(vec![profile("a"), profile("b")]);
    assert_eq!(session.status_texts(), vec!["Disconnected".to_string()]);
    assert_eq!(session.connect("a", Ok(Some("pw".to_string()))).as_deref(), Some("pw"));
    assert!(session.is_busy("a") && !session.is_busy("b"));
    assert!(!session.handle_event(connected("a")));
    assert!(session.is_active("a") && !session.is_busy("a"));
    assert!(session.handle_event(connected("b")));
    assert!(session.is_active("b") && !session.is_active("a"));
    assert_eq!(session.status_texts(), vec!["● b".to_string(), "Server: 11.4".to_string()]);
    assert!(session.disconnect());
    assert!(!session.disconnect());
}

#[test]
fn failures_to_connect_are_kept() {
    let mut session = Session::new(vec![profile("a")]);
    assert_eq!(session.connect("a", Ok(None)), None);
    assert_eq!(session.last_error.as_deref(), Some("No password in keyring for 'a'"));
    assert_eq!(session.connect("a", Err(CoreError::Keyring("locked".to_string()))), None);
    assert_eq!(session.last_error.as_deref(), Some("Keyring: locked"));
    session.connect("a", Ok(Some("pw".to_string())));
    session.handle_event(SessionEvent::ConnectFailed {
        profile: "a".to_string(),
        error: "refused".to_string(),
    });
    assert_eq!(session.last_error.as_deref(), Some("a: refused"));
    assert!(!session.is_busy("a"));
    session.handle_event(connected("a"));
    assert_eq!(session.last_error, None);
}

#[test]
fn tests_report_to_the_dialog() {
    let mut session = Session::new(vec![]);
    session.open_new_dialog();
    let effect = session.dialog_action(DialogAction::Test);
    assert!(matches!(effect, DialogEffect::RunTest { profile, password }
        if profile == ConnectionProfile::default() && password.is_empty()));
    assert!(session.is_busy("local"));
    assert!(session.dialog.as_ref().unwrap().testing());
    session.handle_event(SessionEvent::TestResult {
        profile: "local".to_string(),
        result: Ok(Elapsed { secs: 0, nanos: 12_340_000 }),
    });
    assert!(!session.is_busy("local"));
    let outcome = session.dialog.as_ref().unwrap().last_test.clone();
    assert!(matches!(outcome, Some(TestOutcome::Passed(m)) if m == "Connected in 12.3ms"));
    let failed = test_outcome(Err("refused".to_string()));
    assert!(matches!(failed, TestOutcome::Failed(m) if m == "Failed: refused"));
}

#[test]
fn a_form_that_is_no_profile_is_neither_tested_nor_saved() {
    let mut session = Session::new(vec![]);
    assert!(matches!(session.dialog_action(DialogAction::Save), DialogEffect::Nothing));
    session.open_new_dialog();
    session.dialog.as_mut().unwrap().port = "x".to_string();
    assert!(matches!(session.dialog_action(DialogAction::Test), DialogEffect::Nothing));
    let outcome = session.dialog.as_ref().unwrap().last_test.clone();
    assert!(matches!(outcome, Some(TestOutcome::Failed(m)) if m == "Port must be 1..=65535"));
    assert!(matches!(session.dialog_action(DialogAction::Save), DialogEffect::Nothing));
    assert_eq!(session.last_error.as_deref(), Some("Port must be 1..=65535"));
    assert!(matches!(session.dialog_action(DialogAction::Cancel), DialogEffect::Nothing));
    assert!(session.dialog.is_none());
}

#[test]
fn saving_replaces_the_profile_of_the_same_name() {
    let mut session = Session::new(vec![profile("a"), profile("local")]);
    session.open_new_dialog();
    session.dialog.as_mut().unwrap().host = "db.example.com".to_string();
    session.dialog.as_mut().unwrap().password = "pw".to_string();
    let saved = match session.dialog_action(DialogAction::Save) {
        DialogEffect::Save { profile, password } => {
            assert_eq!(password, "pw");
            profile
        }
        _ => panic!("nothing to save"),
    };
    assert!(!session.password_stored(saved.clone(), Err(CoreError::Keyring("locked".to_string()))));
    assert_eq!(session.last_error.as_deref(), Some("Keyring: locked"));
    assert!(session.password_stored(saved, Ok(())));
    assert_eq!(session.profiles.len(), 2);
    assert_eq!(session.find("local").unwrap().host, "db.example.com");
    assert!(session.password_stored(profile("new"), Ok(())));
    assert_eq!(session.profiles[2], profile("new"));
    session.profiles_saved(Err(CoreError::Io("disk full".to_string())));
    assert_eq!(session.last_error.as_deref(), Some("Save profiles: disk full"));
    assert!(session.dialog.is_some());
    session.profiles_saved(Ok(()));
    assert!(session.dialog.is_none());
}

#[test]
fn deleting_a_profile_closes_its_connection() {
    let mut session = Session::new(vec![profile("a"), profile("b")]);
    session.handle_event(connected("a"));
    assert_eq!(session.remove_profile("zzz"), None);
    assert_eq!(session.remove_profile("a"), Some(profile("a")));
    assert!(session.delete_profile("a", Err(CoreError::Io("disk full".to_string()))));
    assert_eq!(session.last_error.as_deref(), Some("Save profiles: disk full"));
    assert!(session.active.is_none());
    assert_eq!(session.find("a"), None);
    assert_eq!(session.profiles, vec![profile("b")]);
    session.handle_event(connected("b"));
    assert!(!session.delete_profile("a", Ok(())));
    assert!(session.is_active("b"));
}
