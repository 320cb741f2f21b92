//! Reloading and watching files.

use llm_orch::reload::ReloadGate;
use llm_orch::watcher::{concerns, watched_path, what_changed, Debounce};

#[test]
fn a_rejected_reload_is_retried() {
    let mut gate = ReloadGate::new();
    assert!(gate.should_reload(Some(10)));
    let settled = gate.handle_config_reload(10, false, None);
    assert!(!settled.apply && !settled.swap_keys);
    assert!(gate.should_reload(Some(10)), "the old settings are still in use");
}

#[test]
fn an_applied_reload_is_not_repeated() {
    let mut gate = ReloadGate::new();
    let settled = gate.handle_config_reload(10, true, None);
    assert!(settled.apply);
    assert!(!gate.should_reload(Some(10)));
    assert!(gate.should_reload(Some(11)));
}

#[test]
fn keys_are_swapped_only_when_they_can_be_read() {
    let mut gate = ReloadGate::new();
    assert!(gate.handle_config_reload(1, true, Some(true)).swap_keys);
    assert!(!gate.handle_config_reload(2, true, Some(false)).swap_keys);
    let mut keys = ReloadGate::new();
    assert!(!keys.handle_apikeys_reload(5, false));
    assert!(keys.should_reload(Some(5)));
    assert!(keys.handle_apikeys_reload(5, true));
    assert!(!keys.should_reload(Some(5)));
}

#[test]
fn bursts_collapse() {
    let mut pending = Debounce::new();
    for _ in 0..10 {
        pending.note("/etc/llm/config.yaml");
    }
    pending.note("/etc/llm/apikeys.txt");
    let changes = pending.drain();
    assert_eq!(changes.len(), 2);
    assert!(pending.drain().is_empty());
}

#[test]
fn changes_concern_the_watched_files() {
    let watched = vec!["/etc/llm/config.yaml".to_owned()];
    let canonical = vec!["/srv/llm/config.yaml".to_owned()];
    assert!(concerns("/etc/llm/config.yaml", Some("/x"), &canonical, &watched));
    assert!(!concerns("/etc/llm/config.yaml", None, &canonical, &watched));
    assert!(concerns("x", Some("/srv/llm/config.yaml"), &canonical, &watched));
    assert!(!concerns("/etc/llm/other", Some("/srv/llm/other"), &canonical, &watched));
    assert_eq!(watched_path("a", Some("/b/a")), "/b/a");
    assert_eq!(watched_path("a", None), "a");
    let c = what_changed(Some("/c"), Some("/c"), Some("/k"));
    assert!(c.config && !c.apikeys);
    let c = what_changed(Some("/k"), Some("/c"), Some("/k"));
    assert!(!c.config && c.apikeys);
}
