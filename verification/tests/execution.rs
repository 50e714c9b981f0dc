use pet_scheduler::commands::{scheduler_create_task, scheduler_execute_now, scheduler_get_task};
use pet_scheduler::executor::{execute_task_at, tick_at};
use pet_scheduler::runner::SchedulerRunner;
use pet_scheduler::store::TaskStore;
use pet_scheduler::types::{ApiAction, ApiTrigger, HostEvent, TaskError};

fn trigger(kind: &str, config: &str) -> ApiTrigger {
    ApiTrigger { kind: kind.to_string(), config: config.to_string() }
}

fn action(kind: &str, config: &str) -> ApiAction {
    ApiAction { kind: kind.to_string(), config: config.to_string() }
}

fn create(
    store: &mut TaskStore,
    id: &str,
    trig: ApiTrigger,
    act: ApiAction,
    enabled: bool,
    now: i64,
) {
    store
        .create_task_at(id.to_string(), format!("task {id}"), None, trig, act, enabled, None, now)
        .unwrap();
}

const INTERVAL_1: &str = r#"{"type":"interval","seconds":1}"#;
const NOTIF_CFG: &str = r#"{"type":"notification","title":"Hi","body":"B"}"#;
const NOTIF_PAYLOAD: &str =
    r#"{"actionButton":null,"actionCallback":null,"body":"B","title":"Hi"}"#;

#[test]
fn notification_execution_records_success_and_advances_next_run() {
    let mut store = TaskStore::new();
    create(&mut store, "a", trigger("interval", INTERVAL_1), action("notification", NOTIF_CFG), true, 1000);
    let events = execute_task_at(&mut store, &"a".to_string(), "e1".to_string(), 5000, 5200).unwrap();
    let t = store.get_task(&"a".to_string()).unwrap();
    assert_eq!(t.last_run, Some(5200));
    assert_eq!(t.next_run, Some(6200));
    assert_eq!(t.updated_at, Some(5200));
    let execs = store.list_executions(&"a".to_string(), None);
    assert_eq!(execs.len(), 1);
    let e = &execs[0];
    assert_eq!(e.id, "e1");
    assert_eq!(e.task_id, "a");
    assert_eq!(e.status, "success");
    assert_eq!(e.started_at, 5000);
    assert_eq!(e.completed_at, Some(5200));
    assert_eq!(e.duration, Some(200));
    assert_eq!(e.result.as_deref(), Some(NOTIF_PAYLOAD));
    assert_eq!(e.error, None);
    assert_eq!(events.len(), 3);
    assert!(matches!(&events[0], HostEvent::TaskStarted { task_id } if task_id == "a"));
    assert!(matches!(&events[1], HostEvent::TaskNotification { payload } if payload == NOTIF_PAYLOAD));
    assert!(matches!(&events[2], HostEvent::TaskCompleted { task_id } if task_id == "a"));
}

#[test]
fn one_tick_runs_a_due_notification_task() {
    let mut store = TaskStore::new();
    create(&mut store, "a", trigger("interval", INTERVAL_1), action("notification", NOTIF_CFG), true, 1000);
    let next = store.get_task(&"a".to_string()).unwrap().next_run.unwrap();
    assert_eq!(next, 2000);
    let events = tick_at(&mut store, next);
    let t = store.get_task(&"a".to_string()).unwrap();
    assert!(t.last_run.is_some());
    let execs = store.list_executions(&"a".to_string(), None);
    assert_eq!(execs.len(), 1);
    assert_eq!(execs[0].status, "success");
    assert!(execs[0].result.as_deref().unwrap().contains(r#""title":"Hi""#));
    let completed = execs[0].completed_at.unwrap();
    assert_eq!(t.last_run, Some(completed));
    assert_eq!(t.next_run, Some(completed + 1000));
    assert_eq!(events.len(), 3);
}

#[test]
fn tick_with_nothing_due_does_nothing() {
    let mut store = TaskStore::new();
    create(&mut store, "a", trigger("interval", INTERVAL_1), action("notification", NOTIF_CFG), true, 1000);
    let events = tick_at(&mut store, 1500);
    assert!(events.is_empty());
    assert!(store.list_executions(&"a".to_string(), None).is_empty());
}

#[test]
fn script_action_fails_as_unsupported() {
    let mut store = TaskStore::new();
    create(&mut store, "s", trigger("manual", "{}"), action("script", "{}"), true, 1000);
    let events = scheduler_execute_now(&mut store, &"s".to_string()).unwrap();
    let execs = store.list_executions(&"s".to_string(), None);
    assert_eq!(execs.len(), 1);
    assert_eq!(execs[0].status, "failed");
    assert_eq!(execs[0].error.as_deref(), Some("unsupported action type"));
    assert_eq!(execs[0].result, None);
    assert_eq!(events.len(), 2);
    assert!(matches!(&events[0], HostEvent::TaskStarted { task_id } if task_id == "s"));
    assert!(
        matches!(&events[1], HostEvent::TaskFailed { task_id, error }
            if task_id == "s" && error == "unsupported action type")
    );
}

#[test]
fn execute_now_on_missing_id_is_not_found_and_writes_nothing() {
    let mut store = TaskStore::new();
    create(&mut store, "a", trigger("manual", "{}"), action("script", "{}"), true, 1000);
    let r = scheduler_execute_now(&mut store, &"ghost".to_string());
    assert_eq!(r.unwrap_err(), TaskError::NotFound);
    assert!(store.list_executions(&"ghost".to_string(), None).is_empty());
    assert!(store.list_executions(&"a".to_string(), None).is_empty());
}

#[test]
fn unknown_action_type_fails_with_its_tag_named() {
    let mut store = TaskStore::new();
    create(&mut store, "u", trigger("manual", "{}"), action("bogus", "{}"), true, 1000);
    execute_task_at(&mut store, &"u".to_string(), "e1".to_string(), 10, 20).unwrap();
    let execs = store.list_executions(&"u".to_string(), None);
    assert_eq!(execs[0].status, "failed");
    assert_eq!(execs[0].error.as_deref(), Some("unknown action type: bogus"));
}

#[test]
fn undecodable_notification_config_fails_the_execution() {
    let mut store = TaskStore::new();
    create(&mut store, "n", trigger("manual", "{}"), action("notification", r#"{"type":"notification","title":"Hi"}"#), true, 1000);
    execute_task_at(&mut store, &"n".to_string(), "e1".to_string(), 10, 20).unwrap();
    let execs = store.list_executions(&"n".to_string(), None);
    assert_eq!(execs[0].status, "failed");
    assert_eq!(execs[0].error.as_deref(), Some("invalid notification action config"));
    assert_eq!(execs[0].result, None);
}

#[test]
fn agent_task_execution_re_encodes_its_config() {
    let mut store = TaskStore::new();
    let cfg = r#"{"type":"agent_task","prompt":"p","maxSteps":3}"#;
    create(&mut store, "g", trigger("manual", "{}"), action("agent_task", cfg), true, 1000);
    let events = execute_task_at(&mut store, &"g".to_string(), "e1".to_string(), 10, 20).unwrap();
    let execs = store.list_executions(&"g".to_string(), None);
    assert_eq!(execs[0].status, "success");
    let expected = r#"{"maxSteps":3,"prompt":"p","toolsAllowed":null}"#;
    assert_eq!(execs[0].result.as_deref(), Some(expected));
    assert!(matches!(&events[1], HostEvent::TaskAgentExecute { payload } if payload == expected));
}

#[test]
fn workflow_execution_re_encodes_its_config() {
    let mut store = TaskStore::new();
    let cfg = r#"{"type":"workflow","workflowId":"w1","input":{"k":1}}"#;
    create(&mut store, "w", trigger("manual", "{}"), action("workflow", cfg), true, 1000);
    let events = execute_task_at(&mut store, &"w".to_string(), "e1".to_string(), 10, 20).unwrap();
    let execs = store.list_executions(&"w".to_string(), None);
    assert_eq!(execs[0].status, "success");
    let expected = r#"{"input":{"k":1},"workflowId":"w1"}"#;
    assert_eq!(execs[0].result.as_deref(), Some(expected));
    assert!(matches!(&events[1], HostEvent::TaskWorkflowExecute { payload } if payload == expected));
}

#[test]
fn executing_a_disabled_task_keeps_next_run_null() {
    let mut store = TaskStore::new();
    create(&mut store, "d", trigger("interval", INTERVAL_1), action("script", "{}"), false, 1000);
    execute_task_at(&mut store, &"d".to_string(), "e1".to_string(), 10, 20).unwrap();
    let t = store.get_task(&"d".to_string()).unwrap();
    assert_eq!(t.last_run, Some(20));
    assert_eq!(t.next_run, None);
}

#[test]
fn executions_list_is_most_recent_first_and_clamped() {
    let mut store = TaskStore::new();
    create(&mut store, "a", trigger("manual", "{}"), action("script", "{}"), true, 1000);
    for i in 0..5 {
        let eid = format!("e{i}");
        execute_task_at(&mut store, &"a".to_string(), eid, 100 * (i + 1), 100 * (i + 1) + 10)
            .unwrap();
    }
    let all = store.list_executions(&"a".to_string(), None);
    assert_eq!(all.len(), 5);
    for w in all.windows(2) {
        assert!(w[0].started_at >= w[1].started_at);
    }
    assert_eq!(all[0].id, "e4");
    let two = store.list_executions(&"a".to_string(), Some(2));
    assert_eq!(two.len(), 2);
    assert_eq!(two[0].id, "e4");
    assert_eq!(two[1].id, "e3");
    let clamped_low = store.list_executions(&"a".to_string(), Some(0));
    assert_eq!(clamped_low.len(), 1);
    let clamped_high = store.list_executions(&"a".to_string(), Some(300));
    assert_eq!(clamped_high.len(), 5);
}

#[test]
fn undecodable_agent_and_workflow_configs_fail_their_executions() {
    let mut store = TaskStore::new();
    create(&mut store, "g", trigger("manual", "{}"), action("agent_task", r#"{"type":"agent_task"}"#), true, 1000);
    create(&mut store, "w", trigger("manual", "{}"), action("workflow", r#"{"type":"workflow"}"#), true, 1000);
    execute_task_at(&mut store, &"g".to_string(), "e1".to_string(), 10, 20).unwrap();
    execute_task_at(&mut store, &"w".to_string(), "e2".to_string(), 10, 20).unwrap();
    let g = store.list_executions(&"g".to_string(), None);
    assert_eq!(g[0].status, "failed");
    assert_eq!(g[0].error.as_deref(), Some("invalid agent_task action config"));
    let w = store.list_executions(&"w".to_string(), None);
    assert_eq!(w[0].status, "failed");
    assert_eq!(w[0].error.as_deref(), Some("invalid workflow action config"));
}

#[test]
fn reusing_an_execution_id_is_a_conflict_and_writes_nothing() {
    let mut store = TaskStore::new();
    create(&mut store, "a", trigger("manual", "{}"), action("script", "{}"), true, 1000);
    execute_task_at(&mut store, &"a".to_string(), "dup".to_string(), 10, 20).unwrap();
    let before = store.list_executions(&"a".to_string(), None).len();
    let r = execute_task_at(&mut store, &"a".to_string(), "dup".to_string(), 30, 40);
    assert_eq!(r.unwrap_err(), TaskError::IdConflict);
    assert_eq!(store.list_executions(&"a".to_string(), None).len(), before);
    let t = store.get_task(&"a".to_string()).unwrap();
    assert_eq!(t.last_run, Some(20));
}

#[test]
fn executions_default_limit_is_fifty_and_the_cap_is_two_hundred() {
    let mut store = TaskStore::new();
    create(&mut store, "a", trigger("manual", "{}"), action("script", "{}"), true, 1000);
    for i in 0..205i64 {
        let eid = format!("e{i}");
        execute_task_at(&mut store, &"a".to_string(), eid, i, i).unwrap();
    }
    assert_eq!(store.list_executions(&"a".to_string(), None).len(), 50);
    assert_eq!(store.list_executions(&"a".to_string(), Some(300)).len(), 200);
    let newest = store.list_executions(&"a".to_string(), Some(1));
    assert_eq!(newest.len(), 1);
    assert_eq!(newest[0].id, "e204");
}

#[test]
fn deleting_a_task_cascades_to_its_executions() {
    let mut store = TaskStore::new();
    create(&mut store, "a", trigger("manual", "{}"), action("script", "{}"), true, 1000);
    create(&mut store, "b", trigger("manual", "{}"), action("script", "{}"), true, 1000);
    execute_task_at(&mut store, &"a".to_string(), "ea".to_string(), 10, 20).unwrap();
    execute_task_at(&mut store, &"b".to_string(), "eb".to_string(), 10, 20).unwrap();
    store.delete_task(&"a".to_string());
    assert!(store.list_executions(&"a".to_string(), None).is_empty());
    assert_eq!(store.list_executions(&"b".to_string(), None).len(), 1);
}

#[test]
fn duration_is_never_negative_for_ordered_times() {
    let mut store = TaskStore::new();
    create(&mut store, "a", trigger("manual", "{}"), action("script", "{}"), true, 1000);
    execute_task_at(&mut store, &"a".to_string(), "e1".to_string(), 500, 500).unwrap();
    let execs = store.list_executions(&"a".to_string(), None);
    assert_eq!(execs[0].duration, Some(0));
}

#[test]
fn command_surface_creates_with_fresh_id_and_reads_back() {
    let mut store = TaskStore::new();
    let id = scheduler_create_task(
        &mut store,
        "via commands".to_string(),
        Some("d".to_string()),
        "interval".to_string(),
        r#"{"type":"interval","seconds":60}"#.to_string(),
        "notification".to_string(),
        NOTIF_CFG.to_string(),
        true,
        None,
    )
    .unwrap();
    assert_eq!(id.len(), 36);
    let t = scheduler_get_task(&store, &id).unwrap();
    assert_eq!(t.name, "via commands");
    assert_eq!(t.description.as_deref(), Some("d"));
    assert_eq!(t.trigger.config, r#"{"type":"interval","seconds":60}"#);
    assert_eq!(t.next_run, Some(t.created_at + 60_000));
}

#[test]
fn runner_start_is_idempotent_and_stop_is_cooperative() {
    let mut r = SchedulerRunner::new();
    assert!(r.should_run());
    assert!(r.start());
    assert!(!r.start());
    assert!(r.should_run());
    r.stop();
    assert!(!r.should_run());
    assert!(!r.start());
}
