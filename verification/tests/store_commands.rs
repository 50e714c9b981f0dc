use pet_scheduler::store::TaskStore;
use pet_scheduler::types::{ApiAction, ApiTrigger, TaskError};

fn trigger(kind: &str, config: &str) -> ApiTrigger {
    ApiTrigger { kind: kind.to_string(), config: config.to_string() }
}

fn action(kind: &str, config: &str) -> ApiAction {
    ApiAction { kind: kind.to_string(), config: config.to_string() }
}

fn create(
    store: &mut TaskStore,
    id: &str,
    trig: ApiTrigger,
    act: ApiAction,
    enabled: bool,
    now: i64,
) {
    store
        .create_task_at(
            id.to_string(),
            format!("task {id}"),
            None,
            trig,
            act,
            enabled,
            None,
            now,
        )
        .unwrap();
}

const INTERVAL_60: &str = r#"{"type":"interval","seconds":60}"#;
const NOTIF_CFG: &str = r#"{"type":"notification","title":"Hi","body":"B"}"#;

#[test]
fn created_disabled_task_has_null_next_run() {
    let mut store = TaskStore::new();
    create(&mut store, "a", trigger("interval", INTERVAL_60), action("notification", NOTIF_CFG), false, 1000);
    let t = store.get_task(&"a".to_string()).unwrap();
    assert_eq!(t.next_run, None);
    assert_eq!(t.last_run, None);
    assert_eq!(t.created_at, 1000);
}

#[test]
fn created_enabled_interval_task_is_seeded_from_creation_time() {
    let mut store = TaskStore::new();
    create(&mut store, "a", trigger("interval", INTERVAL_60), action("notification", NOTIF_CFG), true, 1000);
    let t = store.get_task(&"a".to_string()).unwrap();
    assert_eq!(t.next_run, Some(61000));
}

#[test]
fn created_enabled_zero_interval_task_has_null_next_run() {
    let mut store = TaskStore::new();
    let cfg = r#"{"type":"interval","seconds":0}"#;
    create(&mut store, "a", trigger("interval", cfg), action("notification", NOTIF_CFG), true, 1000);
    let t = store.get_task(&"a".to_string()).unwrap();
    assert_eq!(t.next_run, None);
}

#[test]
fn disabling_clears_next_run_and_enabling_recomputes_it() {
    let mut store = TaskStore::new();
    create(&mut store, "a", trigger("interval", INTERVAL_60), action("notification", NOTIF_CFG), true, 1000);
    store.set_enabled_at(&"a".to_string(), false, 2000).unwrap();
    let t = store.get_task(&"a".to_string()).unwrap();
    assert!(!t.enabled);
    assert_eq!(t.next_run, None);
    assert_eq!(t.updated_at, Some(2000));
    store.set_enabled_at(&"a".to_string(), true, 5000).unwrap();
    let t = store.get_task(&"a".to_string()).unwrap();
    assert!(t.enabled);
    assert_eq!(t.next_run, Some(65000));
}

#[test]
fn enabling_twice_recomputes_from_call_time_not_cumulatively() {
    let mut store = TaskStore::new();
    create(&mut store, "a", trigger("interval", INTERVAL_60), action("notification", NOTIF_CFG), true, 1000);
    store.set_enabled_at(&"a".to_string(), true, 7000).unwrap();
    let once = store.get_task(&"a".to_string()).unwrap().next_run;
    assert_eq!(once, Some(67000));
    store.set_enabled_at(&"a".to_string(), true, 7000).unwrap();
    let twice = store.get_task(&"a".to_string()).unwrap().next_run;
    assert_eq!(twice, once);
}

#[test]
fn get_task_round_trips_trigger_and_action_verbatim() {
    let mut store = TaskStore::new();
    create(&mut store, "a", trigger("interval", INTERVAL_60), action("notification", NOTIF_CFG), true, 1000);
    let t = store.get_task(&"a".to_string()).unwrap();
    assert_eq!(t.trigger.kind, "interval");
    assert_eq!(t.trigger.config, INTERVAL_60);
    assert_eq!(t.action.kind, "notification");
    assert_eq!(t.action.config, NOTIF_CFG);
}

#[test]
fn get_missing_task_is_not_found() {
    let store = TaskStore::new();
    assert_eq!(store.get_task(&"nope".to_string()).unwrap_err(), TaskError::NotFound);
}

#[test]
fn create_with_taken_id_is_a_conflict() {
    let mut store = TaskStore::new();
    create(&mut store, "a", trigger("manual", "{}"), action("script", "{}"), false, 1000);
    let r = store.create_task_at(
        "a".to_string(),
        "again".to_string(),
        None,
        trigger("manual", "{}"),
        action("script", "{}"),
        false,
        None,
        2000,
    );
    assert_eq!(r.unwrap_err(), TaskError::IdConflict);
}

#[test]
fn list_tasks_is_newest_created_first() {
    let mut store = TaskStore::new();
    create(&mut store, "a", trigger("manual", "{}"), action("script", "{}"), false, 1000);
    create(&mut store, "b", trigger("manual", "{}"), action("script", "{}"), false, 3000);
    create(&mut store, "c", trigger("manual", "{}"), action("script", "{}"), false, 2000);
    let all = store.list_tasks();
    let ids: Vec<&str> = all.iter().map(|t| t.id.as_str()).collect();
    assert_eq!(ids, vec!["b", "c", "a"]);
}

#[test]
fn update_replaces_only_supplied_fields_and_recomputes_next_run() {
    let mut store = TaskStore::new();
    create(&mut store, "a", trigger("interval", INTERVAL_60), action("notification", NOTIF_CFG), true, 1000);
    store
        .update_task_at(
            &"a".to_string(),
            Some("renamed".to_string()),
            None,
            None,
            Some(r#"{"type":"interval","seconds":1}"#.to_string()),
            None,
            None,
            None,
            None,
            5000,
        )
        .unwrap();
    let t = store.get_task(&"a".to_string()).unwrap();
    assert_eq!(t.name, "renamed");
    assert_eq!(t.trigger.kind, "interval");
    assert_eq!(t.trigger.config, r#"{"type":"interval","seconds":1}"#);
    assert_eq!(t.action.config, NOTIF_CFG);
    assert_eq!(t.next_run, Some(6000));
    assert_eq!(t.updated_at, Some(5000));
    assert_eq!(t.created_at, 1000);
}

#[test]
fn update_that_disables_clears_next_run() {
    let mut store = TaskStore::new();
    create(&mut store, "a", trigger("interval", INTERVAL_60), action("notification", NOTIF_CFG), true, 1000);
    store
        .update_task_at(&"a".to_string(), None, None, None, None, None, None, Some(false), None, 5000)
        .unwrap();
    let t = store.get_task(&"a".to_string()).unwrap();
    assert!(!t.enabled);
    assert_eq!(t.next_run, None);
}

#[test]
fn update_missing_task_is_not_found() {
    let mut store = TaskStore::new();
    let r = store.update_task_at(
        &"nope".to_string(),
        Some("x".to_string()),
        None,
        None,
        None,
        None,
        None,
        None,
        None,
        5000,
    );
    assert_eq!(r.unwrap_err(), TaskError::NotFound);
}

#[test]
fn set_enabled_on_missing_task_is_not_found() {
    let mut store = TaskStore::new();
    assert_eq!(store.set_enabled_at(&"nope".to_string(), true, 1).unwrap_err(), TaskError::NotFound);
}

#[test]
fn delete_removes_the_task_and_is_a_noop_when_absent() {
    let mut store = TaskStore::new();
    create(&mut store, "a", trigger("manual", "{}"), action("script", "{}"), false, 1000);
    store.delete_task(&"a".to_string());
    assert_eq!(store.get_task(&"a".to_string()).unwrap_err(), TaskError::NotFound);
    store.delete_task(&"a".to_string());
    assert!(store.list_tasks().is_empty());
}

#[test]
fn due_tasks_are_capped_at_twenty_and_exclude_disabled_and_unscheduled() {
    let mut store = TaskStore::new();
    for i in 0..25 {
        let id = format!("en{i}");
        store
            .create_task_at(
                id,
                "t".to_string(),
                None,
                trigger("interval", INTERVAL_60),
                action("notification", NOTIF_CFG),
                true,
                None,
                1000 + i,
            )
            .unwrap();
    }
    create(&mut store, "off", trigger("interval", INTERVAL_60), action("notification", NOTIF_CFG), false, 1000);
    create(&mut store, "manual", trigger("manual", "{}"), action("script", "{}"), true, 1000);
    let far_future = 10_000_000;
    let due = store.list_due_tasks(far_future);
    assert_eq!(due.len(), 20);
    for t in &due {
        assert!(t.enabled);
        assert!(t.next_run.is_some());
        assert!(t.next_run.unwrap() <= far_future);
        assert_ne!(t.id, "off");
        assert_ne!(t.id, "manual");
    }
    // earliest-due first
    for w in due.windows(2) {
        assert!(w[0].next_run.unwrap() <= w[1].next_run.unwrap());
    }
    // nothing is due before any task's next_run
    assert!(store.list_due_tasks(60_000).is_empty());
}

#[test]
fn due_tasks_are_ordered_earliest_first() {
    let mut store = TaskStore::new();
    create(&mut store, "late", trigger("interval", INTERVAL_60), action("notification", NOTIF_CFG), true, 9000);
    create(&mut store, "early", trigger("interval", INTERVAL_60), action("notification", NOTIF_CFG), true, 1000);
    let due = store.list_due_tasks(100_000);
    assert_eq!(due.len(), 2);
    assert_eq!(due[0].id, "early");
    assert_eq!(due[1].id, "late");
}
