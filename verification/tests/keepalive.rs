//! GPU keep-alive.

use llm_orch::config::{GpuKeepAlive, KeepAliveConfig};
use llm_orch::keepalive::{build_slot_map, KeepAliveAction, KeepAliveManager};
use llm_orch::names::NameMap;

fn settings() -> Option<KeepAliveConfig> {
    Some(KeepAliveConfig {
        amd: Some(GpuKeepAlive {
            cmd: "touch {index}".to_owned(),
            sleep: 5,
        }),
    })
}

fn manager() -> KeepAliveManager {
    let mut cards = NameMap::new();
    cards.insert("0000:01:00.0", 3);
    KeepAliveManager::new(settings(), cards).unwrap()
}

#[test]
fn a_task_runs_while_a_slot_is_in_use() {
    let mut k = manager();
    match k.acquire("0000:01:00.0") {
        Some(KeepAliveAction::Start { slot, card, cmd, sleep }) => {
            assert_eq!(slot, "0000:01:00.0");
            assert_eq!(card, 3);
            assert_eq!(cmd, "touch 3");
            assert_eq!(sleep, 5);
        }
        other => panic!("the first use must start a task, got {other:?}"),
    }
    assert!(k.acquire("0000:01:00.0").is_none());
    assert!(k.release("0000:01:00.0").is_none());
    assert!(matches!(
        k.release("0000:01:00.0"),
        Some(KeepAliveAction::Stop { slot }) if slot == "0000:01:00.0"
    ));
    assert!(k.release("0000:01:00.0").is_none());
}

#[test]
fn unknown_slots_start_nothing() {
    let mut k = manager();
    assert!(k.acquire("0000:77:00.0").is_none());
}

#[test]
fn without_settings_there_is_no_manager() {
    assert!(KeepAliveManager::new(None, NameMap::new()).is_none());
    assert!(KeepAliveManager::new(Some(KeepAliveConfig { amd: None }), NameMap::new()).is_none());
    assert!(manager().matches(&settings()));
    assert!(!manager().matches(&None));
}

#[test]
fn all_tasks_can_be_stopped() {
    let mut k = manager();
    k.acquire("0000:01:00.0");
    assert_eq!(k.stop_all().len(), 1);
    assert!(k.stop_all().is_empty());
}

#[test]
fn cards_are_found_by_their_slot() {
    let map = build_slot_map(&vec![
        None,
        Some("DRIVER=amdgpu\nPCI_SLOT_NAME=0000:05:00.0\n".to_owned()),
    ]);
    assert_eq!(map.get("0000:05:00.0").copied(), Some(1));
    assert!(map.get("0000:06:00.0").is_none());
}

#[test]
fn references_balance_over_several_slots() {
    let mut k = manager();
    assert!(k.acquire("0000:01:00.0").is_some());
    // An instance that names the slot twice comes and goes.
    assert!(k.acquire("0000:01:00.0").is_none());
    assert!(k.acquire("0000:01:00.0").is_none());
    assert!(k.release("0000:01:00.0").is_none());
    assert!(k.release("0000:01:00.0").is_none());
    // The first one still holds the task.
    assert!(k.release("0000:01:00.0").is_some());
}
