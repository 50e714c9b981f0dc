//! Command surface: the synchronous request/response operations a host
//! uses to manage tasks outside the tick cycle. Each reads the clock (and,
//! for creation, draws a fresh id) and delegates to the store or executor.

use vstd::prelude::*;

use crate::executor::{execute_effect, execute_task, spec_events};
use crate::runtime::{fresh_id, now_millis};
use crate::store::{
    contains_task_id, effective_limit, executions_without, set_enabled_effect,
    sorted_by_created_desc, sorted_by_started_desc, spec_new_task, spec_task, task_index_of,
    update_task_effect, TaskStore,
};
use crate::types::{
    events_view, ApiAction, ApiTask, ApiTaskExecution, ApiTrigger, HostEvent, TaskError,
};

verus! {

/// Creates a task from its parts, with a fresh id and the current time as
/// its creation time; the initial `next_run` is seeded from the trigger
/// only when the task is enabled. Fails only when the drawn id collides
/// with a stored one.
pub fn scheduler_create_task(
    store: &mut TaskStore,
    name: String,
    description: Option<String>,
    trigger_type: String,
    trigger_config: String,
    action_type: String,
    action_config: String,
    enabled: bool,
    metadata: Option<String>,
) -> (r: Result<String, TaskError>)
    requires
        old(store).wf(),
    ensures
        final(store).wf(),
        r matches Err(e) ==> e == TaskError::IdConflict && *final(store) == *old(store),
        r matches Ok(id) ==> id@.len() == 36,
        r matches Ok(id) ==> final(store).executions@ == old(store).executions@,
        r matches Ok(id) ==> ({
            let t = final(store).tasks@.last();
            &&& final(store).tasks@ == old(store).tasks@.push(
                spec_new_task(
                    t.id,
                    name,
                    description,
                    (ApiTrigger { kind: trigger_type, config: trigger_config }),
                    (ApiAction { kind: action_type, config: action_config }),
                    enabled,
                    metadata,
                    t.created_at,
                ),
            )
            &&& t.id == id
        }),
{
    let id = fresh_id();
    let now = now_millis();
    let id_copy = id.clone();
    let trigger = ApiTrigger { kind: trigger_type, config: trigger_config };
    let action = ApiAction { kind: action_type, config: action_config };
    match store.create_task_at(id, name, description, trigger, action, enabled, metadata, now) {
        Ok(()) => {
            proof {
                assert(store.tasks@ == old(store).tasks@.push(
                    spec_new_task(
                        id_copy,
                        name,
                        description,
                        (ApiTrigger { kind: trigger_type, config: trigger_config }),
                        (ApiAction { kind: action_type, config: action_config }),
                        enabled,
                        metadata,
                        now,
                    ),
                ));
                assert(store.tasks@.last().id == id_copy);
                assert(store.tasks@.last().created_at == now);
            }
            Ok(id_copy)
        },
        Err(e) => Err(e),
    }
}

/// Returns the task with the given id, or `NotFound`.
pub fn scheduler_get_task(store: &TaskStore, id: &String) -> (r: Result<ApiTask, TaskError>)
    requires
        store.wf(),
    ensures
        contains_task_id(store.tasks@, id@) ==> r == Ok::<ApiTask, TaskError>(
            spec_task(store.tasks@, id@),
        ),
        !contains_task_id(store.tasks@, id@) ==> r == Err::<ApiTask, TaskError>(
            TaskError::NotFound,
        ),
{
    store.get_task(id)
}

/// Returns all tasks, newest-created first.
pub fn scheduler_get_all_tasks(store: &TaskStore) -> (r: Vec<ApiTask>)
    ensures
        r@.to_multiset() == store.tasks@.to_multiset(),
        sorted_by_created_desc(r@),
{
    store.list_tasks()
}

/// Applies a partial update at the current time: supplied fields replace
/// stored ones, and `next_run` is recomputed from the resulting effective
/// trigger and enabled flag. Fails with `NotFound` when the id is absent.
pub fn scheduler_update_task(
    store: &mut TaskStore,
    id: &String,
    name: Option<String>,
    description: Option<String>,
    trigger_type: Option<String>,
    trigger_config: Option<String>,
    action_type: Option<String>,
    action_config: Option<String>,
    enabled: Option<bool>,
    metadata: Option<String>,
) -> (r: Result<(), TaskError>)
    requires
        old(store).wf(),
    ensures
        final(store).wf(),
        !contains_task_id(old(store).tasks@, id@) ==> r == Err::<(), TaskError>(
            TaskError::NotFound,
        ) && *final(store) == *old(store),
        contains_task_id(old(store).tasks@, id@) ==> r == Ok::<(), TaskError>(()) && exists|
            now: i64,
        |
            update_task_effect(
                *old(store),
                *final(store),
                id@,
                name,
                description,
                trigger_type,
                trigger_config,
                action_type,
                action_config,
                enabled,
                metadata,
                now,
            ),
{
    let now = now_millis();
    store.update_task_at(
        id,
        name,
        description,
        trigger_type,
        trigger_config,
        action_type,
        action_config,
        enabled,
        metadata,
        now,
    )
}

/// Removes the task with the given id, cascading removal of its execution
/// records; removing an absent id is a no-op. Always succeeds.
pub fn scheduler_delete_task(store: &mut TaskStore, id: &String) -> (r: Result<(), TaskError>)
    requires
        old(store).wf(),
    ensures
        final(store).wf(),
        r == Ok::<(), TaskError>(()),
        contains_task_id(old(store).tasks@, id@) ==> final(store).tasks@ == old(
            store,
        ).tasks@.remove(task_index_of(old(store).tasks@, id@)),
        !contains_task_id(old(store).tasks@, id@) ==> final(store).tasks@ == old(store).tasks@,
        final(store).executions@ == executions_without(old(store).executions@, id@),
{
    store.delete_task(id);
    Ok(())
}

/// Toggles `enabled` at the current time, recomputing `next_run` (cleared
/// to null when disabling). Fails with `NotFound` when the id is absent.
pub fn scheduler_enable_task(store: &mut TaskStore, id: &String, enabled: bool) -> (r: Result<
    (),
    TaskError,
>)
    requires
        old(store).wf(),
    ensures
        final(store).wf(),
        !contains_task_id(old(store).tasks@, id@) ==> r == Err::<(), TaskError>(
            TaskError::NotFound,
        ) && *final(store) == *old(store),
        contains_task_id(old(store).tasks@, id@) ==> r == Ok::<(), TaskError>(()) && exists|
            now: i64,
        | set_enabled_effect(*old(store), *final(store), id@, enabled, now),
{
    let now = now_millis();
    store.set_enabled_at(id, enabled, now)
}

/// Runs one execution attempt for the task synchronously, returning the
/// events owed to the host. Fails with `NotFound`, and writes no execution
/// record, exactly when the id is absent.
pub fn scheduler_execute_now(store: &mut TaskStore, id: &String) -> (r: Result<
    Vec<HostEvent>,
    TaskError,
>)
    requires
        old(store).wf(),
    ensures
        final(store).wf(),
        !contains_task_id(old(store).tasks@, id@) ==> r == Err::<Vec<HostEvent>, TaskError>(
            TaskError::NotFound,
        ) && *final(store) == *old(store),
        contains_task_id(old(store).tasks@, id@) ==> r is Ok || r == Err::<
            Vec<HostEvent>,
            TaskError,
        >(TaskError::IdConflict),
        r == Err::<Vec<HostEvent>, TaskError>(TaskError::IdConflict) ==> *final(store) == *old(
            store,
        ),
        r is Ok ==> exists|exec_id: Seq<char>, start_ms: i64, end_ms: i64|
            execute_effect(*old(store), *final(store), id@, exec_id, start_ms, end_ms)
                && events_view(r->Ok_0@) == ({
                let t = spec_task(old(store).tasks@, id@);
                spec_events(t.id@, t.action.kind@, t.action.config@)
            }),
{
    execute_task(store, id)
}

/// Returns the execution records of a task, most recent first, capped at
/// the clamped limit (default 50, clamped to `[1, 200]`).
pub fn scheduler_get_executions(store: &TaskStore, task_id: &String, limit: Option<i64>) -> (r: Vec<
    ApiTaskExecution,
>)
    ensures
        r@.len() <= effective_limit(limit),
        forall|k: int|
            0 <= k < r@.len() ==> (#[trigger] r@[k]).task_id@ == task_id@
                && store.executions@.contains(r@[k]),
        sorted_by_started_desc(r@),
        forall|i: int|
            0 <= i < store.executions@.len() && (#[trigger] store.executions@[i]).task_id@
                == task_id@ ==> r@.len() == effective_limit(limit) || r@.contains(
                store.executions@[i],
            ),
        forall|i: int, k: int|
            0 <= i < store.executions@.len() && (#[trigger] store.executions@[i]).task_id@
                == task_id@ && !r@.contains(store.executions@[i]) && 0 <= k < r@.len() ==> (
            #[trigger] r@[k]).started_at >= store.executions@[i].started_at,
        r@.to_multiset().subset_of(store.executions@.to_multiset()),
{
    store.list_executions(task_id, limit)
}

} // verus!
