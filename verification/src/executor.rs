//! Task executor: performs exactly one execution attempt for a task,
//! leaves one corresponding execution record in a terminal state, updates
//! the task's run info, and returns the events owed to the host, in order.

use vstd::prelude::*;

use crate::actions::{dispatch_action, spec_action_outcome, spec_payload_event};
use crate::evaluator::{compute_next_run, opt_string_view, spec_next_run};
use crate::runtime::{fresh_id, now_millis};
use crate::store::{
    contains_execution_id, contains_task_id, due_list_of, lemma_task_index_unique, spec_task,
    task_index_of, TaskStore,
};
use crate::types::{
    events_view, string_eq_lit, ApiTask, ApiTaskExecution, EventView, HostEvent, TaskError,
};

verus! {

/// i64 subtraction, saturating at the type's bounds.
pub open spec fn spec_saturating_sub(a: i64, b: i64) -> i64 {
    if a - b > i64::MAX {
        i64::MAX
    } else if a - b < i64::MIN {
        i64::MIN
    } else {
        (a - b) as i64
    }
}

/// Computes `spec_saturating_sub` executably.
fn saturating_sub_i64(a: i64, b: i64) -> (r: i64)
    ensures
        r == spec_saturating_sub(a, b),
{
    let d: i128 = (a as i128) - (b as i128);
    if d > i64::MAX as i128 {
        i64::MAX
    } else if d < i64::MIN as i128 {
        i64::MIN
    } else {
        d as i64
    }
}

/// The terminal execution record of one attempt: status decided by the
/// action outcome, result and error recorded from it, and the duration
/// derived from the two observed times.
pub open spec fn record_matches(
    e: ApiTaskExecution,
    exec_id: Seq<char>,
    task_id: Seq<char>,
    kind: Seq<char>,
    config: Seq<char>,
    start_ms: i64,
    end_ms: i64,
) -> bool {
    let oc = spec_action_outcome(kind, config);
    &&& e.id@ == exec_id
    &&& e.task_id@ == task_id
    &&& e.status@ == (if oc.success {
        "success"@
    } else {
        "failed"@
    })
    &&& e.started_at == start_ms
    &&& e.completed_at == Some(end_ms)
    &&& opt_string_view(e.result) == oc.payload
    &&& opt_string_view(e.error) == oc.error
    &&& e.duration == Some(spec_saturating_sub(end_ms, start_ms))
}

/// The task row after a run: `last_run` and `updated_at` set to the
/// completion time, and `next_run` recomputed from the unchanged trigger
/// at that time (left empty for a disabled task, which can only have been
/// run by explicit invocation).
pub open spec fn spec_run_update(t: ApiTask, end_ms: i64) -> ApiTask {
    ApiTask {
        last_run: Some(end_ms),
        next_run: if t.enabled {
            spec_next_run(t.trigger.kind@, t.trigger.config@, end_ms)
        } else {
            None
        },
        updated_at: Some(end_ms),
        ..t
    }
}

/// The events of one attempt, in order: started; the action-specific
/// notify event on success; then completed or failed.
pub open spec fn spec_events(task_id: Seq<char>, kind: Seq<char>, config: Seq<char>) -> Seq<
    EventView,
> {
    let oc = spec_action_outcome(kind, config);
    if oc.success {
        seq![
            EventView::Started(task_id),
            spec_payload_event(kind, oc.payload->Some_0),
            EventView::Completed(task_id),
        ]
    } else {
        seq![EventView::Started(task_id), EventView::Failed(task_id, oc.error->Some_0)]
    }
}

/// Relates the stores before and after one successful execution attempt:
/// one new terminal execution record, one updated task row, and nothing
/// else touched.
pub open spec fn execute_effect(
    pre: TaskStore,
    post: TaskStore,
    id: Seq<char>,
    exec_id: Seq<char>,
    start_ms: i64,
    end_ms: i64,
) -> bool {
    let t = spec_task(pre.tasks@, id);
    let ti = task_index_of(pre.tasks@, id);
    &&& contains_task_id(pre.tasks@, id)
    &&& post.tasks@ == pre.tasks@.update(ti, spec_run_update(t, end_ms))
    &&& post.executions@.len() == pre.executions@.len() + 1
    &&& post.executions@.take(pre.executions@.len() as int) == pre.executions@
    &&& record_matches(
        post.executions@.last(),
        exec_id,
        t.id@,
        t.action.kind@,
        t.action.config@,
        start_ms,
        end_ms,
    )
}

/// Performs one execution attempt at the observed times `start_ms` and
/// `end_ms`, with `exec_id` as the new record's id. Fails with `NotFound`
/// when the task id is absent (and then writes nothing), and with
/// `IdConflict` when `exec_id` is already taken.
pub fn execute_task_at(
    store: &mut TaskStore,
    id: &String,
    exec_id: String,
    start_ms: i64,
    end_ms: i64,
) -> (r: Result<Vec<HostEvent>, TaskError>)
    requires
        old(store).wf(),
    ensures
        final(store).wf(),
        !contains_task_id(old(store).tasks@, id@) ==> r == Err::<Vec<HostEvent>, TaskError>(
            TaskError::NotFound,
        ) && *final(store) == *old(store),
        contains_task_id(old(store).tasks@, id@) && contains_execution_id(
            old(store).executions@,
            exec_id@,
        ) ==> r == Err::<Vec<HostEvent>, TaskError>(TaskError::IdConflict) && *final(store) == *old(
            store,
        ),
        forall|x: Seq<char>|
            contains_task_id(final(store).tasks@, x) == contains_task_id(old(store).tasks@, x),
        contains_task_id(old(store).tasks@, id@) && !contains_execution_id(
            old(store).executions@,
            exec_id@,
        ) ==> r is Ok && execute_effect(
            *old(store),
            *final(store),
            id@,
            exec_id@,
            start_ms,
            end_ms,
        ) && events_view(r->Ok_0@) == ({
            let t = spec_task(old(store).tasks@, id@);
            spec_events(t.id@, t.action.kind@, t.action.config@)
        }),
{
    let ti = match store.find_index(id) {
        Some(ti) => ti,
        None => {
            return Err(TaskError::NotFound);
        },
    };
    proof {
        lemma_task_index_unique(store.tasks@, id@, ti as int);
    }
    if store.has_execution_id(&exec_id) {
        return Err(TaskError::IdConflict);
    }
    let task = store.tasks[ti].clone();
    let exec_id_copy = exec_id.clone();
    let running = ApiTaskExecution {
        id: exec_id,
        task_id: task.id.clone(),
        status: String::from_str("running"),
        started_at: start_ms,
        completed_at: None,
        result: None,
        error: None,
        duration: None,
    };
    let ghost pre_execs = store.executions@;
    store.push_execution(running);
    let mut events: Vec<HostEvent> = Vec::new();
    events.push(HostEvent::TaskStarted { task_id: task.id.clone() });
    let (success, payload, error) = dispatch_action(&task.action.kind, &task.action.config);
    let mut result_payload: Option<String> = None;
    if success {
        let p = match payload {
            Some(p) => p,
            None => String::new(),
        };
        if string_eq_lit(&task.action.kind, "notification") {
            events.push(HostEvent::TaskNotification { payload: p.clone() });
        } else if string_eq_lit(&task.action.kind, "agent_task") {
            events.push(HostEvent::TaskAgentExecute { payload: p.clone() });
        } else {
            events.push(HostEvent::TaskWorkflowExecute { payload: p.clone() });
        }
        result_payload = Some(p);
    }
    let duration = saturating_sub_i64(end_ms, start_ms);
    let err_copy = match &error {
        Some(e) => Some(e.clone()),
        None => None,
    };
    let rec = ApiTaskExecution {
        id: exec_id_copy,
        task_id: task.id.clone(),
        status: if success {
            String::from_str("success")
        } else {
            String::from_str("failed")
        },
        started_at: start_ms,
        completed_at: Some(end_ms),
        result: result_payload,
        error: err_copy,
        duration: Some(duration),
    };
    let rec_index = store.executions.len() - 1;
    store.put_execution(rec_index, rec);
    let mut t2 = store.tasks[ti].clone();
    t2.last_run = Some(end_ms);
    t2.next_run = if t2.enabled {
        compute_next_run(&t2.trigger.kind, &t2.trigger.config, end_ms)
    } else {
        None
    };
    t2.updated_at = Some(end_ms);
    store.put_task(ti, t2);
    if success {
        events.push(HostEvent::TaskCompleted { task_id: task.id.clone() });
    } else {
        let err_text = match error {
            Some(e) => e,
            None => String::from_str("unknown error"),
        };
        events.push(HostEvent::TaskFailed { task_id: task.id.clone(), error: err_text });
    }
    proof {
        assert(store.executions@.take(pre_execs.len() as int) =~= pre_execs);
        assert(events_view(events@) =~= spec_events(
            task.id@,
            task.action.kind@,
            task.action.config@,
        ));
        let pre_tasks = old(store).tasks@;
        assert forall|x: Seq<char>|
            contains_task_id(store.tasks@, x) == contains_task_id(pre_tasks, x) by {
            assert(store.tasks@ =~= pre_tasks.update(ti as int, store.tasks@[ti as int]));
            crate::store::lemma_contains_update_iff(
                pre_tasks,
                ti as int,
                store.tasks@[ti as int],
                x,
            );
        }
    }
    Ok(events)
}

/// Performs one execution attempt now: draws a fresh record id, reads the
/// clock for the start and completion times, and runs `execute_task_at`.
/// Returns `NotFound`, and writes nothing, exactly when the task id is
/// absent; whatever the clock and the drawn id, a success leaves one new
/// terminal execution record and one updated task row.
pub fn execute_task(store: &mut TaskStore, id: &String) -> (r: Result<Vec<HostEvent>, TaskError>)
    requires
        old(store).wf(),
    ensures
        final(store).wf(),
        forall|x: Seq<char>|
            contains_task_id(final(store).tasks@, x) == contains_task_id(old(store).tasks@, x),
        !contains_task_id(old(store).tasks@, id@) ==> r == Err::<Vec<HostEvent>, TaskError>(
            TaskError::NotFound,
        ) && *final(store) == *old(store),
        contains_task_id(old(store).tasks@, id@) ==> r is Ok || r == Err::<
            Vec<HostEvent>,
            TaskError,
        >(TaskError::IdConflict),
        r == Err::<Vec<HostEvent>, TaskError>(TaskError::IdConflict) ==> *final(store) == *old(
            store,
        ),
        r is Ok ==> exists|exec_id: Seq<char>, start_ms: i64, end_ms: i64|
            execute_effect(*old(store), *final(store), id@, exec_id, start_ms, end_ms)
                && events_view(r->Ok_0@) == ({
                let t = spec_task(old(store).tasks@, id@);
                spec_events(t.id@, t.action.kind@, t.action.config@)
            }),
{
    let exec_id = fresh_id();
    let start_ms = now_millis();
    let end_ms = now_millis();
    let ghost eid = exec_id@;
    let r = execute_task_at(store, id, exec_id, start_ms, end_ms);
    proof {
        if r is Ok {
            assert(execute_effect(*old(store), *store, id@, eid, start_ms, end_ms));
        }
    }
    r
}

/// One step of a tick for one due task: either the attempt ran — one new
/// terminal record, the task's run info updated, the attempt's events
/// emitted — or nothing changed, which can only happen when the task row
/// is gone or the drawn record id was already taken.
pub open spec fn tick_step(
    pre: TaskStore,
    post: TaskStore,
    t: ApiTask,
    exec_id: Seq<char>,
    start_ms: i64,
    end_ms: i64,
    events: Seq<EventView>,
) -> bool {
    if !contains_task_id(pre.tasks@, t.id@) {
        &&& post == pre
        &&& events == Seq::<EventView>::empty()
    } else if contains_execution_id(pre.executions@, exec_id) {
        &&& post == pre
        &&& events == Seq::<EventView>::empty()
    } else {
        &&& execute_effect(pre, post, t.id@, exec_id, start_ms, end_ms)
        &&& events == ({
            let u = spec_task(pre.tasks@, t.id@);
            spec_events(u.id@, u.action.kind@, u.action.config@)
        })
    }
}

/// The whole of one tick's work: the stores are chained by one `tick_step`
/// per due task, sequentially in the due list's order, and the emitted
/// events are the steps' events concatenated in that order. A step that
/// fails (a vanished row, a colliding drawn id) leaves its store unchanged
/// and never stops the later steps.
pub open spec fn runs_due_in_order(
    pre: TaskStore,
    post: TaskStore,
    due: Seq<ApiTask>,
    ids: Seq<Seq<char>>,
    starts: Seq<i64>,
    ends: Seq<i64>,
    events: Seq<EventView>,
) -> bool
    decreases due.len(),
{
    if due.len() == 0 {
        &&& post == pre
        &&& events == Seq::<EventView>::empty()
    } else {
        exists|mid: TaskStore, head: Seq<EventView>|
            #![trigger tick_step(pre, mid, due[0], ids[0], starts[0], ends[0], head)]
            {
                &&& tick_step(pre, mid, due[0], ids[0], starts[0], ends[0], head)
                &&& head.len() <= events.len()
                &&& events.take(head.len() as int) == head
                &&& runs_due_in_order(
                    mid,
                    post,
                    due.drop_first(),
                    ids.drop_first(),
                    starts.drop_first(),
                    ends.drop_first(),
                    events.skip(head.len() as int),
                )
            }
    }
}

/// Appending one step to a chain of steps extends the chain.
proof fn lemma_runs_due_snoc(
    pre: TaskStore,
    mid: TaskStore,
    post: TaskStore,
    due: Seq<ApiTask>,
    ids: Seq<Seq<char>>,
    starts: Seq<i64>,
    ends: Seq<i64>,
    events: Seq<EventView>,
    t: ApiTask,
    exec_id: Seq<char>,
    start_ms: i64,
    end_ms: i64,
    step_events: Seq<EventView>,
)
    requires
        ids.len() == due.len(),
        starts.len() == due.len(),
        ends.len() == due.len(),
        runs_due_in_order(pre, mid, due, ids, starts, ends, events),
        tick_step(mid, post, t, exec_id, start_ms, end_ms, step_events),
    ensures
        runs_due_in_order(
            pre,
            post,
            due.push(t),
            ids.push(exec_id),
            starts.push(start_ms),
            ends.push(end_ms),
            events + step_events,
        ),
    decreases due.len(),
{
    let due2 = due.push(t);
    let ids2 = ids.push(exec_id);
    let starts2 = starts.push(start_ms);
    let ends2 = ends.push(end_ms);
    let events2 = events + step_events;
    if due.len() == 0 {
        // the chain was empty: the appended step is the whole chain
        assert(mid == pre && events == Seq::<EventView>::empty());
        assert(tick_step(pre, post, due2[0], ids2[0], starts2[0], ends2[0], step_events));
        assert(events2 =~= step_events);
        assert(events2.take(step_events.len() as int) =~= step_events);
        assert(due2.drop_first() =~= Seq::<ApiTask>::empty());
        assert(ids2.drop_first() =~= Seq::<Seq<char>>::empty());
        assert(starts2.drop_first() =~= Seq::<i64>::empty());
        assert(ends2.drop_first() =~= Seq::<i64>::empty());
        assert(events2.skip(step_events.len() as int) =~= Seq::<EventView>::empty());
        assert(runs_due_in_order(
            post,
            post,
            due2.drop_first(),
            ids2.drop_first(),
            starts2.drop_first(),
            ends2.drop_first(),
            events2.skip(step_events.len() as int),
        ));
    } else {
        let (m0, h0) = choose|m0: TaskStore, h0: Seq<EventView>|
            #![trigger tick_step(pre, m0, due[0], ids[0], starts[0], ends[0], h0)]
            {
                &&& tick_step(pre, m0, due[0], ids[0], starts[0], ends[0], h0)
                &&& h0.len() <= events.len()
                &&& events.take(h0.len() as int) == h0
                &&& runs_due_in_order(
                    m0,
                    mid,
                    due.drop_first(),
                    ids.drop_first(),
                    starts.drop_first(),
                    ends.drop_first(),
                    events.skip(h0.len() as int),
                )
            };
        lemma_runs_due_snoc(
            m0,
            mid,
            post,
            due.drop_first(),
            ids.drop_first(),
            starts.drop_first(),
            ends.drop_first(),
            events.skip(h0.len() as int),
            t,
            exec_id,
            start_ms,
            end_ms,
            step_events,
        );
        assert(due2.drop_first() =~= due.drop_first().push(t));
        assert(ids2.drop_first() =~= ids.drop_first().push(exec_id));
        assert(starts2.drop_first() =~= starts.drop_first().push(start_ms));
        assert(ends2.drop_first() =~= ends.drop_first().push(end_ms));
        assert(events2.skip(h0.len() as int) =~= events.skip(h0.len() as int) + step_events);
        assert(events2.take(h0.len() as int) =~= events.take(h0.len() as int));
        assert(tick_step(pre, m0, due2[0], ids2[0], starts2[0], ends2[0], h0));
        assert(runs_due_in_order(
            m0,
            post,
            due2.drop_first(),
            ids2.drop_first(),
            starts2.drop_first(),
            ends2.drop_first(),
            events2.skip(h0.len() as int),
        ));
    }
}

/// What one tick does, as observed from outside: for some drawn record ids
/// and observed times, a due list of the reference time was executed in
/// order, per `runs_due_in_order`.
pub open spec fn tick_effect(
    pre: TaskStore,
    post: TaskStore,
    now: i64,
    events: Seq<EventView>,
) -> bool {
    exists|due: Seq<ApiTask>, ids: Seq<Seq<char>>, starts: Seq<i64>, ends: Seq<i64>|
        #![trigger runs_due_in_order(pre, post, due, ids, starts, ends, events)]
        due_list_of(pre, now, due) && runs_due_in_order(pre, post, due, ids, starts, ends, events)
}

/// One scheduler tick at time `now`: queries the due tasks (at most 20)
/// and executes each sequentially, earliest-due first, collecting the
/// events owed to the host, per `tick_effect`. A per-task failure is
/// isolated: the remainder of the tick proceeds. No task is created or
/// removed, the existing execution records are untouched, and every record
/// the tick adds is terminal (never left `running`).
pub fn tick_at(store: &mut TaskStore, now: i64) -> (events: Vec<HostEvent>)
    requires
        old(store).wf(),
    ensures
        final(store).wf(),
        forall|x: Seq<char>|
            contains_task_id(final(store).tasks@, x) == contains_task_id(old(store).tasks@, x),
        final(store).executions@.len() >= old(store).executions@.len(),
        final(store).executions@.len() <= old(store).executions@.len() + 20,
        final(store).executions@.take(old(store).executions@.len() as int) == old(
            store,
        ).executions@,
        forall|k: int|
            old(store).executions@.len() <= k < final(store).executions@.len() ==> (
            #[trigger] final(store).executions@[k]).completed_at is Some,
        tick_effect(*old(store), *final(store), now, events_view(events@)),
{
    let due = store.list_due_tasks(now);
    let ghost orig = *store;
    let mut events: Vec<HostEvent> = Vec::new();
    let n = due.len();
    let mut i: usize = 0;
    let ghost mut g_ids: Seq<Seq<char>> = Seq::empty();
    let ghost mut g_starts: Seq<i64> = Seq::empty();
    let ghost mut g_ends: Seq<i64> = Seq::empty();
    proof {
        assert(due@.take(0) =~= Seq::<ApiTask>::empty());
        assert(events_view(events@) =~= Seq::<EventView>::empty());
    }
    while i < n
        invariant
            i <= n,
            n == due@.len(),
            n <= 20,
            orig == *old(store),
            due_list_of(orig, now, due@),
            store.wf(),
            forall|x: Seq<char>|
                contains_task_id(store.tasks@, x) == contains_task_id(orig.tasks@, x),
            store.executions@.len() >= orig.executions@.len(),
            store.executions@.len() <= orig.executions@.len() + i,
            store.executions@.take(orig.executions@.len() as int) == orig.executions@,
            forall|k: int|
                orig.executions@.len() <= k < store.executions@.len() ==> (
                #[trigger] store.executions@[k]).completed_at is Some,
            g_ids.len() == i,
            g_starts.len() == i,
            g_ends.len() == i,
            runs_due_in_order(
                orig,
                *store,
                due@.take(i as int),
                g_ids,
                g_starts,
                g_ends,
                events_view(events@),
            ),
        decreases n - i,
    {
        let exec_id = fresh_id();
        let ghost eid = exec_id@;
        let start_ms = now_millis();
        let end_ms = now_millis();
        let ghost pre = *store;
        let ghost pre_events = events@;
        match execute_task_at(store, &due[i].id, exec_id, start_ms, end_ms) {
            Ok(mut evs) => {
                let ghost evs_v = evs@;
                events.append(&mut evs);
                proof {
                    assert(tick_step(
                        pre,
                        *store,
                        due@[i as int],
                        eid,
                        start_ms,
                        end_ms,
                        events_view(evs_v),
                    ));
                    lemma_runs_due_snoc(
                        orig,
                        pre,
                        *store,
                        due@.take(i as int),
                        g_ids,
                        g_starts,
                        g_ends,
                        events_view(pre_events),
                        due@[i as int],
                        eid,
                        start_ms,
                        end_ms,
                        events_view(evs_v),
                    );
                    assert(events_view(events@) =~= events_view(pre_events) + events_view(evs_v));
                }
            },
            Err(_) => {
                // isolated per-task failure; the tick proceeds
                proof {
                    assert(tick_step(
                        pre,
                        *store,
                        due@[i as int],
                        eid,
                        start_ms,
                        end_ms,
                        Seq::<EventView>::empty(),
                    ));
                    lemma_runs_due_snoc(
                        orig,
                        pre,
                        *store,
                        due@.take(i as int),
                        g_ids,
                        g_starts,
                        g_ends,
                        events_view(pre_events),
                        due@[i as int],
                        eid,
                        start_ms,
                        end_ms,
                        Seq::<EventView>::empty(),
                    );
                    assert(events_view(events@) + Seq::<EventView>::empty() =~= events_view(
                        events@,
                    ));
                }
            },
        }
        proof {
            g_ids = g_ids.push(eid);
            g_starts = g_starts.push(start_ms);
            g_ends = g_ends.push(end_ms);
            assert(due@.take(i as int).push(due@[i as int]) =~= due@.take(i + 1));
            if store.executions@.len() > pre.executions@.len() {
                assert(store.executions@.take(pre.executions@.len() as int) == pre.executions@);
                assert(store.executions@.take(orig.executions@.len() as int)
                    =~= pre.executions@.take(orig.executions@.len() as int));
                assert forall|k: int|
                    orig.executions@.len() <= k < store.executions@.len() implies (
                #[trigger] store.executions@[k]).completed_at is Some by {
                    if k < pre.executions@.len() {
                        assert(store.executions@.take(pre.executions@.len() as int)[k]
                            == pre.executions@[k]);
                    } else {
                        assert(store.executions@[k] == store.executions@.last());
                    }
                }
            }
        }
        i += 1;
    }
    proof {
        assert(due@.take(n as int) =~= due@);
        assert(runs_due_in_order(
            orig,
            *store,
            due@,
            g_ids,
            g_starts,
            g_ends,
            events_view(events@),
        ));
        assert(tick_effect(orig, *store, now, events_view(events@)));
    }
    events
}

/// One scheduler tick: reads the clock once for the due query, then
/// executes the due tasks as `tick_at` does: whatever the clock read, the
/// due tasks of that instant were executed in order, per `tick_effect`.
pub fn tick(store: &mut TaskStore) -> (events: Vec<HostEvent>)
    requires
        old(store).wf(),
    ensures
        final(store).wf(),
        forall|x: Seq<char>|
            contains_task_id(final(store).tasks@, x) == contains_task_id(old(store).tasks@, x),
        final(store).executions@.len() >= old(store).executions@.len(),
        final(store).executions@.len() <= old(store).executions@.len() + 20,
        final(store).executions@.take(old(store).executions@.len() as int) == old(
            store,
        ).executions@,
        forall|k: int|
            old(store).executions@.len() <= k < final(store).executions@.len() ==> (
            #[trigger] final(store).executions@[k]).completed_at is Some,
        exists|now: i64|
            #![trigger tick_effect(*old(store), *final(store), now, events_view(events@))]
            tick_effect(*old(store), *final(store), now, events_view(events@)),
{
    let now = now_millis();
    let events = tick_at(store, now);
    proof {
        assert(tick_effect(*old(store), *store, now, events_view(events@)));
    }
    events
}


} // verus!
