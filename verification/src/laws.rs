//! Laws of the scheduler: properties that relate several operations or
//! hold of every state, stated over the spec functions that the
//! operations' contracts use, and proved from them.

use vstd::prelude::*;

use crate::actions::spec_action_outcome;
use crate::evaluator::{interval_seconds_of, spec_next_run};
use crate::executor::{execute_effect, spec_run_update};
use crate::store::{
    contains_task_id, lemma_task_index_unique, lemma_unique_update_same_id, set_enabled_effect,
    spec_new_task, spec_set_enabled, spec_task, task_index_of, task_wf, unique_task_ids, TaskStore,
};
use crate::types::{ApiAction, ApiTrigger};

verus! {

/// Every stored task that is disabled has no next run. The store invariant
/// carries this, and every operation's contract re-establishes the
/// invariant, so it holds after create, update, and enable alike.
pub proof fn lemma_disabled_task_has_no_next_run(s: TaskStore, i: int)
    requires
        s.wf(),
        0 <= i < s.tasks@.len(),
        !s.tasks@[i].enabled,
    ensures
        s.tasks@[i].next_run is None,
{
    assert(task_wf(s.tasks@[i]));
}

/// An interval trigger whose config decodes to a positive `seconds` value
/// is next run exactly `seconds * 1000` milliseconds after the reference
/// time, whenever that instant fits the timestamp type; with `seconds`
/// equal to 60 this gives `from_ms + 60000`.
pub proof fn lemma_interval_next_run(config: Seq<char>, seconds: i64, from_ms: i64)
    requires
        interval_seconds_of(config) == Some(seconds),
        seconds > 0,
        i64::MIN <= from_ms + seconds * 1000 <= i64::MAX,
    ensures
        spec_next_run("interval"@, config, from_ms) == Some((from_ms + seconds * 1000) as i64),
{
}

/// An interval trigger whose config decodes to a non-positive `seconds`
/// value has no next run, from any reference time.
pub proof fn lemma_interval_nonpositive_no_next_run(config: Seq<char>, seconds: i64, from_ms: i64)
    requires
        interval_seconds_of(config) == Some(seconds),
        seconds <= 0,
    ensures
        spec_next_run("interval"@, config, from_ms) is None,
{
}

/// A task created enabled with an interval trigger whose config decodes to
/// a non-positive `seconds` value still has no next run: enabling cannot
/// make a non-recurring interval fire.
pub proof fn lemma_new_task_nonpositive_interval(
    id: String,
    name: String,
    description: Option<String>,
    trigger: ApiTrigger,
    action: ApiAction,
    metadata: Option<String>,
    now: i64,
)
    requires
        trigger.kind@ == "interval"@,
        interval_seconds_of(trigger.config@) is Some,
        interval_seconds_of(trigger.config@)->Some_0 <= 0,
    ensures
        spec_new_task(id, name, description, trigger, action, true, metadata, now).next_run
            is None,
{
}

/// Round trip: after a creation, looking the new id up returns a task
/// whose trigger and action hold the given kind tags and config payloads
/// verbatim.
pub proof fn lemma_create_then_get_round_trip(
    pre: TaskStore,
    post: TaskStore,
    id: String,
    name: String,
    description: Option<String>,
    trigger: ApiTrigger,
    action: ApiAction,
    enabled: bool,
    metadata: Option<String>,
    now: i64,
)
    requires
        unique_task_ids(pre.tasks@),
        !contains_task_id(pre.tasks@, id@),
        post.tasks@ == pre.tasks@.push(
            spec_new_task(id, name, description, trigger, action, enabled, metadata, now),
        ),
    ensures
        contains_task_id(post.tasks@, id@),
        spec_task(post.tasks@, id@).trigger == trigger,
        spec_task(post.tasks@, id@).action == action,
{
    let t = spec_new_task(id, name, description, trigger, action, enabled, metadata, now);
    let n = pre.tasks@.len() as int;
    assert(post.tasks@[n] == t);
    assert forall|p: int, q: int|
        0 <= p < post.tasks@.len() && 0 <= q < post.tasks@.len() && p != q implies (
    #[trigger] post.tasks@[p]).id@ != (#[trigger] post.tasks@[q]).id@ by {
        if p < n && q < n {
            assert(post.tasks@[p] == pre.tasks@[p]);
            assert(post.tasks@[q] == pre.tasks@[q]);
        } else if p == n {
            assert(post.tasks@[q] == pre.tasks@[q]);
        } else {
            assert(post.tasks@[p] == pre.tasks@[p]);
        }
    }
    lemma_task_index_unique(post.tasks@, id@, n);
}

/// A `script` action is reserved: dispatching it always fails, with the
/// fixed unsupported-action error, whatever its config holds.
pub proof fn lemma_script_action_always_fails(config: Seq<char>)
    ensures
        !spec_action_outcome("script"@, config).success,
        spec_action_outcome("script"@, config).error == Some("unsupported action type"@),
        spec_action_outcome("script"@, config).payload is None,
{
    reveal_strlit("script");
    reveal_strlit("notification");
    reveal_strlit("agent_task");
    reveal_strlit("workflow");
    assert("script"@.len() == 6);
    assert("notification"@.len() == 12);
    assert("agent_task"@.len() == 10);
    assert("workflow"@.len() == 8);
}

/// After an execution attempt for an enabled task with a positive interval
/// trigger, the task's `last_run` is the completion time and its
/// `next_run` has advanced by the interval from that time (whenever that
/// instant fits the timestamp type) — regardless of whether the attempt
/// succeeded or failed.
pub proof fn lemma_execution_advances_interval_next_run(
    pre: TaskStore,
    post: TaskStore,
    id: Seq<char>,
    exec_id: Seq<char>,
    start_ms: i64,
    end_ms: i64,
    seconds: i64,
)
    requires
        unique_task_ids(pre.tasks@),
        execute_effect(pre, post, id, exec_id, start_ms, end_ms),
        spec_task(pre.tasks@, id).enabled,
        spec_task(pre.tasks@, id).trigger.kind@ == "interval"@,
        interval_seconds_of(spec_task(pre.tasks@, id).trigger.config@) == Some(seconds),
        seconds > 0,
        i64::MIN <= end_ms + seconds * 1000 <= i64::MAX,
    ensures
        spec_task(post.tasks@, id).last_run == Some(end_ms),
        spec_task(post.tasks@, id).next_run == Some((end_ms + seconds * 1000) as i64),
{
    let ti = task_index_of(pre.tasks@, id);
    let t = spec_task(pre.tasks@, id);
    let u = spec_run_update(t, end_ms);
    lemma_unique_update_same_id(pre.tasks@, ti, u);
    assert(post.tasks@[ti] == u);
    lemma_task_index_unique(post.tasks@, id, ti);
}

/// Enabling a task twice in a row leaves the same next run as enabling it
/// once at the second call's time: the recomputation reads only the
/// unchanged trigger and the clock at call time, never the prior
/// `next_run`.
pub proof fn lemma_set_enabled_idempotent(
    s0: TaskStore,
    s1: TaskStore,
    s2: TaskStore,
    s_direct: TaskStore,
    id: Seq<char>,
    now1: i64,
    now2: i64,
)
    requires
        unique_task_ids(s0.tasks@),
        set_enabled_effect(s0, s1, id, true, now1),
        set_enabled_effect(s1, s2, id, true, now2),
        set_enabled_effect(s0, s_direct, id, true, now2),
    ensures
        spec_task(s2.tasks@, id).next_run == spec_task(s_direct.tasks@, id).next_run,
{
    let ti = task_index_of(s0.tasks@, id);
    assert(0 <= ti < s0.tasks@.len() && s0.tasks@[ti].id@ == id);
    let t0 = spec_task(s0.tasks@, id);
    let u1 = spec_set_enabled(t0, true, now1);
    lemma_unique_update_same_id(s0.tasks@, ti, u1);
    assert(s1.tasks@[ti] == u1);
    lemma_task_index_unique(s1.tasks@, id, ti);
    let u2 = spec_set_enabled(u1, true, now2);
    lemma_unique_update_same_id(s1.tasks@, ti, u2);
    assert(s2.tasks@[ti] == u2);
    lemma_task_index_unique(s2.tasks@, id, ti);
    let ud = spec_set_enabled(t0, true, now2);
    lemma_unique_update_same_id(s0.tasks@, ti, ud);
    assert(s_direct.tasks@[ti] == ud);
    lemma_task_index_unique(s_direct.tasks@, id, ti);
    assert(u1.trigger == t0.trigger);
    assert(u2.next_run == spec_next_run(t0.trigger.kind@, t0.trigger.config@, now2));
    assert(ud.next_run == spec_next_run(t0.trigger.kind@, t0.trigger.config@, now2));
}

} // verus!
