use authcore::registry::RegistryOutcome;
use authcore::registry::SessionRegistry;
use authcore::registry::REFRESH_WINDOW_SECS;

fn hit_value(r: RegistryOutcome) -> Option<String> {
    match r {
        RegistryOutcome::Hit(v) => Some(v),
        RegistryOutcome::Miss => None,
        RegistryOutcome::Unavailable(d) => panic!("the in-process registry answered Unavailable: {d}"),
    }
}

#[test]
fn unknown_key_is_a_miss_not_an_error() {
    let mut reg = SessionRegistry::new();
    let r = reg.lookup_and_refresh("app_auth_key_1", "session-a", 0);
    assert!(matches!(r, RegistryOutcome::Miss));
}

#[test]
fn unknown_session_of_a_known_key_is_a_miss() {
    let mut reg = SessionRegistry::new();
    reg.insert("app_auth_key_1".to_string(), "session-a".to_string(), "tok".to_string(), 0);
    let r = reg.lookup_and_refresh("app_auth_key_1", "session-b", 1);
    assert!(matches!(r, RegistryOutcome::Miss));
}

#[test]
fn live_entry_returns_stored_value_and_extends_ttl() {
    let mut reg = SessionRegistry::new();
    reg.insert("app_auth_key_1".to_string(), "session-a".to_string(), "tok".to_string(), 0);
    // live: the window is a full hour
    let r = reg.lookup_and_refresh("app_auth_key_1", "session-a", 3000);
    assert_eq!(hit_value(r), Some("tok".to_string()));
    // without the refresh the entry would have lapsed at 3600; the hit at
    // 3000 slid the deadline to 6600, so a lookup at 6000 still hits
    let r2 = reg.lookup_and_refresh("app_auth_key_1", "session-a", 6000);
    assert_eq!(hit_value(r2), Some("tok".to_string()));
    // and the second hit slid it again, to 9600
    let r3 = reg.lookup_and_refresh("app_auth_key_1", "session-a", 9599);
    assert_eq!(hit_value(r3), Some("tok".to_string()));
}

#[test]
fn entry_lapses_at_the_deadline_second() {
    let mut reg = SessionRegistry::new();
    reg.insert("app_auth_key_1".to_string(), "session-a".to_string(), "tok".to_string(), 0);
    assert_eq!(REFRESH_WINDOW_SECS, 3600);
    let r = reg.lookup_and_refresh("app_auth_key_1", "session-a", 3600);
    assert!(matches!(r, RegistryOutcome::Miss));
}

#[test]
fn two_sessions_of_one_key_do_not_disturb_each_other() {
    let mut reg = SessionRegistry::new();
    reg.insert("app_auth_key_1".to_string(), "session-a".to_string(), "tok-a".to_string(), 0);
    reg.insert("app_auth_key_1".to_string(), "session-b".to_string(), "tok-b".to_string(), 0);
    // two refreshes for the same namespace key under different session ids,
    // back to back: both succeed, each sees its own stored value
    let ra = reg.lookup_and_refresh("app_auth_key_1", "session-a", 10);
    let rb = reg.lookup_and_refresh("app_auth_key_1", "session-b", 10);
    assert_eq!(hit_value(ra), Some("tok-a".to_string()));
    assert_eq!(hit_value(rb), Some("tok-b".to_string()));
    // and in the other order as well
    let rb2 = reg.lookup_and_refresh("app_auth_key_1", "session-b", 20);
    let ra2 = reg.lookup_and_refresh("app_auth_key_1", "session-a", 20);
    assert_eq!(hit_value(rb2), Some("tok-b".to_string()));
    assert_eq!(hit_value(ra2), Some("tok-a".to_string()));
}

#[test]
fn different_keys_are_independent() {
    let mut reg = SessionRegistry::new();
    reg.insert("app_auth_key_1".to_string(), "s".to_string(), "tok-1".to_string(), 0);
    reg.insert("app_auth_key_2".to_string(), "s".to_string(), "tok-2".to_string(), 0);
    let r1 = reg.lookup_and_refresh("app_auth_key_1", "s", 5);
    let r2 = reg.lookup_and_refresh("app_auth_key_2", "s", 5);
    assert_eq!(hit_value(r1), Some("tok-1".to_string()));
    assert_eq!(hit_value(r2), Some("tok-2".to_string()));
}

#[test]
fn insert_replaces_the_session_value() {
    let mut reg = SessionRegistry::new();
    reg.insert("k".to_string(), "s".to_string(), "old".to_string(), 0);
    reg.insert("k".to_string(), "s".to_string(), "new".to_string(), 1);
    let r = reg.lookup_and_refresh("k", "s", 2);
    assert_eq!(hit_value(r), Some("new".to_string()));
}

#[test]
fn remove_revokes_every_session_of_the_key() {
    let mut reg = SessionRegistry::new();
    reg.insert("k".to_string(), "s1".to_string(), "t1".to_string(), 0);
    reg.insert("k".to_string(), "s2".to_string(), "t2".to_string(), 0);
    reg.insert("other".to_string(), "s1".to_string(), "t3".to_string(), 0);
    reg.remove("k");
    assert!(matches!(reg.lookup_and_refresh("k", "s1", 1), RegistryOutcome::Miss));
    assert!(matches!(reg.lookup_and_refresh("k", "s2", 1), RegistryOutcome::Miss));
    let other = reg.lookup_and_refresh("other", "s1", 1);
    assert_eq!(hit_value(other), Some("t3".to_string()));
}
