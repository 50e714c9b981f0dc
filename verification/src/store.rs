//! Task store: an in-memory table of tasks and their execution records,
//! with the schema invariants and query contracts of the scheduler.
//!
//! Rows are kept in insertion order; the list queries state their own
//! ordering. A host application is expected to persist the two tables.

use vstd::prelude::*;

use crate::evaluator::{compute_next_run, spec_next_run};
use crate::types::{string_eq, ApiAction, ApiTask, ApiTaskExecution, ApiTrigger, TaskError};

verus! {

/// A task row is well formed when `next_run` is populated only while the
/// task is enabled.
pub open spec fn task_wf(t: ApiTask) -> bool {
    t.next_run is Some ==> t.enabled
}

/// True when some row carries the given id.
pub open spec fn contains_task_id(tasks: Seq<ApiTask>, id: Seq<char>) -> bool {
    exists|i: int| 0 <= i < tasks.len() && (#[trigger] tasks[i]).id@ == id
}

/// The index of the row carrying the given id (meaningful under
/// `unique_task_ids` together with `contains_task_id`).
pub open spec fn task_index_of(tasks: Seq<ApiTask>, id: Seq<char>) -> int {
    choose|i: int| 0 <= i < tasks.len() && (#[trigger] tasks[i]).id@ == id
}

/// The row carrying the given id.
pub open spec fn spec_task(tasks: Seq<ApiTask>, id: Seq<char>) -> ApiTask {
    tasks[task_index_of(tasks, id)]
}

/// No two rows carry the same id.
pub open spec fn unique_task_ids(tasks: Seq<ApiTask>) -> bool {
    forall|i: int, j: int|
        0 <= i < tasks.len() && 0 <= j < tasks.len() && i != j ==> (#[trigger] tasks[i]).id@ != (
        #[trigger] tasks[j]).id@
}

/// No two execution records carry the same id.
pub open spec fn unique_execution_ids(execs: Seq<ApiTaskExecution>) -> bool {
    forall|i: int, j: int|
        0 <= i < execs.len() && 0 <= j < execs.len() && i != j ==> (#[trigger] execs[i]).id@ != (
        #[trigger] execs[j]).id@
}

/// True when some execution record carries the given id.
pub open spec fn contains_execution_id(execs: Seq<ApiTaskExecution>, id: Seq<char>) -> bool {
    exists|i: int| 0 <= i < execs.len() && (#[trigger] execs[i]).id@ == id
}

/// The in-memory task store: one table of tasks, one of execution records,
/// both in insertion order.
pub struct TaskStore {
    pub tasks: Vec<ApiTask>,
    pub executions: Vec<ApiTaskExecution>,
}

impl TaskStore {
    /// The store's invariant: rows well formed, ids unique in both tables,
    /// and every execution record owned by a stored task (the cascade-delete
    /// foreign key).
    pub open spec fn wf(self) -> bool {
        &&& forall|i: int| 0 <= i < self.tasks@.len() ==> task_wf(#[trigger] self.tasks@[i])
        &&& unique_task_ids(self.tasks@)
        &&& unique_execution_ids(self.executions@)
        &&& forall|i: int|
            0 <= i < self.executions@.len() ==> contains_task_id(
                self.tasks@,
                (#[trigger] self.executions@[i]).task_id@,
            )
    }

    /// An empty store.
    pub fn new() -> (r: TaskStore)
        ensures
            r.wf(),
            r.tasks@ == Seq::<ApiTask>::empty(),
            r.executions@ == Seq::<ApiTaskExecution>::empty(),
    {
        TaskStore { tasks: Vec::new(), executions: Vec::new() }
    }

    /// Finds the index of the task with the given id.
    pub(crate) fn find_index(&self, id: &String) -> (r: Option<usize>)
        ensures
            match r {
                Some(i) => i < self.tasks@.len() && self.tasks@[i as int].id@ == id@
                    && contains_task_id(self.tasks@, id@),
                None => !contains_task_id(self.tasks@, id@),
            },
    {
        let n = self.tasks.len();
        let mut i: usize = 0;
        while i < n
            invariant
                i <= n,
                n == self.tasks@.len(),
                forall|k: int| 0 <= k < i ==> (#[trigger] self.tasks@[k]).id@ != id@,
            decreases n - i,
        {
            if string_eq(&self.tasks[i].id, id) {
                return Some(i);
            }
            i += 1;
        }
        None
    }
}

/// Under unique ids, the row found at an index carrying the id is the row
/// that the lookup specs denote.
pub proof fn lemma_task_index_unique(tasks: Seq<ApiTask>, id: Seq<char>, i: int)
    requires
        unique_task_ids(tasks),
        0 <= i < tasks.len(),
        tasks[i].id@ == id,
    ensures
        contains_task_id(tasks, id),
        task_index_of(tasks, id) == i,
        spec_task(tasks, id) == tasks[i],
{
    assert(contains_task_id(tasks, id));
    let j = task_index_of(tasks, id);
    assert(0 <= j < tasks.len() && tasks[j].id@ == id);
    if i != j {
        assert(tasks[i].id@ != tasks[j].id@);
    }
}

/// A row keeps its id when another row is pushed.
proof fn lemma_contains_push(tasks: Seq<ApiTask>, t: ApiTask, id: Seq<char>)
    requires
        contains_task_id(tasks, id),
    ensures
        contains_task_id(tasks.push(t), id),
{
    let i = choose|i: int| 0 <= i < tasks.len() && (#[trigger] tasks[i]).id@ == id;
    assert(tasks.push(t)[i].id@ == id);
}

/// The task row that `create_task_at` inserts: `last_run` empty,
/// `created_at` the creation time, and `next_run` seeded from the trigger
/// only when the task is enabled.
pub open spec fn spec_new_task(
    id: String,
    name: String,
    description: Option<String>,
    trigger: ApiTrigger,
    action: ApiAction,
    enabled: bool,
    metadata: Option<String>,
    now: i64,
) -> ApiTask {
    ApiTask {
        id,
        name,
        description,
        trigger,
        action,
        enabled,
        last_run: None,
        next_run: if enabled {
            spec_next_run(trigger.kind@, trigger.config@, now)
        } else {
            None
        },
        metadata,
        created_at: now,
        updated_at: None,
    }
}

impl TaskStore {
    /// Inserts a new task at the creation time `now`. Fails only when the
    /// given id is already stored.
    pub fn create_task_at(
        &mut self,
        id: String,
        name: String,
        description: Option<String>,
        trigger: ApiTrigger,
        action: ApiAction,
        enabled: bool,
        metadata: Option<String>,
        now: i64,
    ) -> (r: Result<(), TaskError>)
        requires
            old(self).wf(),
        ensures
            final(self).wf(),
            contains_task_id(old(self).tasks@, id@) ==> r == Err::<(), TaskError>(
                TaskError::IdConflict,
            ) && *final(self) == *old(self),
            !contains_task_id(old(self).tasks@, id@) ==> r == Ok::<(), TaskError>(())
                && final(self).executions@ == old(self).executions@
                && final(self).tasks@ == old(self).tasks@.push(
                spec_new_task(id, name, description, trigger, action, enabled, metadata, now),
            ),
    {
        if self.find_index(&id).is_some() {
            return Err(TaskError::IdConflict);
        }
        let next_run = if enabled {
            compute_next_run(&trigger.kind, &trigger.config, now)
        } else {
            None
        };
        let task = ApiTask {
            id,
            name,
            description,
            trigger,
            action,
            enabled,
            last_run: None,
            next_run,
            metadata,
            created_at: now,
            updated_at: None,
        };
        let ghost pre = self.tasks@;
        self.tasks.push(task);
        proof {
            assert forall|i: int|
                0 <= i < self.executions@.len() implies contains_task_id(
                self.tasks@,
                (#[trigger] self.executions@[i]).task_id@,
            ) by {
                lemma_contains_push(pre, task, self.executions@[i].task_id@);
            }
        }
        Ok(())
    }

    /// Returns a copy of the task with the given id, or `NotFound`.
    pub fn get_task(&self, id: &String) -> (r: Result<ApiTask, TaskError>)
        requires
            self.wf(),
        ensures
            contains_task_id(self.tasks@, id@) ==> r == Ok::<ApiTask, TaskError>(
                spec_task(self.tasks@, id@),
            ),
            !contains_task_id(self.tasks@, id@) ==> r == Err::<ApiTask, TaskError>(
                TaskError::NotFound,
            ),
    {
        match self.find_index(id) {
            Some(i) => {
                proof {
                    lemma_task_index_unique(self.tasks@, id@, i as int);
                }
                Ok(self.tasks[i].clone())
            },
            None => Err(TaskError::NotFound),
        }
    }
}

/// A row keeps its id when a row elsewhere is replaced by one carrying the
/// same id as before.
proof fn lemma_contains_update_same_id(tasks: Seq<ApiTask>, i: int, t: ApiTask, id: Seq<char>)
    requires
        0 <= i < tasks.len(),
        tasks[i].id@ == t.id@,
        contains_task_id(tasks, id),
    ensures
        contains_task_id(tasks.update(i, t), id),
{
    let k = choose|k: int| 0 <= k < tasks.len() && (#[trigger] tasks[k]).id@ == id;
    assert(tasks.update(i, t)[k].id@ == id);
}

/// Replacing a row by one carrying the same id keeps ids unique.
pub proof fn lemma_unique_update_same_id(tasks: Seq<ApiTask>, i: int, t: ApiTask)
    requires
        unique_task_ids(tasks),
        0 <= i < tasks.len(),
        tasks[i].id@ == t.id@,
    ensures
        unique_task_ids(tasks.update(i, t)),
{
    let u = tasks.update(i, t);
    assert forall|p: int, q: int|
        0 <= p < u.len() && 0 <= q < u.len() && p != q implies (#[trigger] u[p]).id@ != (
    #[trigger] u[q]).id@ by {
        assert(u[p].id@ == tasks[p].id@);
        assert(u[q].id@ == tasks[q].id@);
    }
}

/// Replacing a row by one carrying the same id changes no id's presence.
pub proof fn lemma_contains_update_iff(tasks: Seq<ApiTask>, i: int, t: ApiTask, id: Seq<char>)
    requires
        0 <= i < tasks.len(),
        tasks[i].id@ == t.id@,
    ensures
        contains_task_id(tasks.update(i, t), id) == contains_task_id(tasks, id),
{
    if contains_task_id(tasks, id) {
        lemma_contains_update_same_id(tasks, i, t, id);
    }
    if contains_task_id(tasks.update(i, t), id) {
        let u = tasks.update(i, t);
        let k = choose|k: int| 0 <= k < u.len() && (#[trigger] u[k]).id@ == id;
        if k == i {
            assert(tasks[i].id@ == id);
        } else {
            assert(tasks[k].id@ == id);
        }
    }
}

/// The new value of a field under partial-update semantics: the supplied
/// value if any, else the prior one.
pub open spec fn spec_opt_or<T>(new: Option<T>, prior: T) -> T {
    match new {
        Some(v) => v,
        None => prior,
    }
}

/// The task row after `set_enabled_at`: the flag replaced, `next_run`
/// recomputed from the unchanged trigger at `now` (cleared when disabling),
/// and `updated_at` set.
pub open spec fn spec_set_enabled(t: ApiTask, enabled: bool, now: i64) -> ApiTask {
    ApiTask {
        enabled,
        next_run: if enabled {
            spec_next_run(t.trigger.kind@, t.trigger.config@, now)
        } else {
            None
        },
        updated_at: Some(now),
        ..t
    }
}

/// Relates the stores before and after a successful `set_enabled_at`.
pub open spec fn set_enabled_effect(
    pre: TaskStore,
    post: TaskStore,
    id: Seq<char>,
    enabled: bool,
    now: i64,
) -> bool {
    &&& contains_task_id(pre.tasks@, id)
    &&& post.tasks@ == pre.tasks@.update(
        task_index_of(pre.tasks@, id),
        spec_set_enabled(spec_task(pre.tasks@, id), enabled, now),
    )
    &&& post.executions@ == pre.executions@
}

/// The task row after `update_task_at`: each supplied field replaced,
/// unsupplied fields retained, and `next_run` recomputed from the resulting
/// effective trigger and enabled flag at `now`.
pub open spec fn spec_merged_task(
    t: ApiTask,
    name: Option<String>,
    description: Option<String>,
    trigger_type: Option<String>,
    trigger_config: Option<String>,
    action_type: Option<String>,
    action_config: Option<String>,
    enabled: Option<bool>,
    metadata: Option<String>,
    now: i64,
) -> ApiTask {
    let new_trigger = ApiTrigger {
        kind: spec_opt_or(trigger_type, t.trigger.kind),
        config: spec_opt_or(trigger_config, t.trigger.config),
    };
    let new_enabled = spec_opt_or(enabled, t.enabled);
    ApiTask {
        id: t.id,
        name: spec_opt_or(name, t.name),
        description: if description is Some {
            description
        } else {
            t.description
        },
        trigger: new_trigger,
        action: ApiAction {
            kind: spec_opt_or(action_type, t.action.kind),
            config: spec_opt_or(action_config, t.action.config),
        },
        enabled: new_enabled,
        last_run: t.last_run,
        next_run: if new_enabled {
            spec_next_run(new_trigger.kind@, new_trigger.config@, now)
        } else {
            None
        },
        metadata: if metadata is Some {
            metadata
        } else {
            t.metadata
        },
        created_at: t.created_at,
        updated_at: Some(now),
    }
}

/// Relates the stores before and after a successful `update_task_at`.
pub open spec fn update_task_effect(
    pre: TaskStore,
    post: TaskStore,
    id: Seq<char>,
    name: Option<String>,
    description: Option<String>,
    trigger_type: Option<String>,
    trigger_config: Option<String>,
    action_type: Option<String>,
    action_config: Option<String>,
    enabled: Option<bool>,
    metadata: Option<String>,
    now: i64,
) -> bool {
    &&& contains_task_id(pre.tasks@, id)
    &&& post.tasks@ == pre.tasks@.update(
        task_index_of(pre.tasks@, id),
        spec_merged_task(
            spec_task(pre.tasks@, id),
            name,
            description,
            trigger_type,
            trigger_config,
            action_type,
            action_config,
            enabled,
            metadata,
            now,
        ),
    )
    &&& post.executions@ == pre.executions@
}

impl TaskStore {
    /// Replaces the task row at a found index with a well-formed row
    /// carrying the same id, preserving the store invariant.
    pub(crate) fn put_task(&mut self, i: usize, t: ApiTask)
        requires
            old(self).wf(),
            i < old(self).tasks@.len(),
            old(self).tasks@[i as int].id@ == t.id@,
            task_wf(t),
        ensures
            final(self).wf(),
            final(self).tasks@ == old(self).tasks@.update(i as int, t),
            final(self).executions@ == old(self).executions@,
    {
        let ghost pre = self.tasks@;
        self.tasks.set(i, t);
        proof {
            assert forall|k: int|
                0 <= k < self.executions@.len() implies contains_task_id(
                self.tasks@,
                (#[trigger] self.executions@[k]).task_id@,
            ) by {
                lemma_contains_update_same_id(pre, i as int, t, self.executions@[k].task_id@);
            }
        }
    }

    /// Toggles `enabled` at time `now`, recomputing `next_run` (cleared to
    /// null when disabling). Fails with `NotFound` when the id is absent.
    pub fn set_enabled_at(&mut self, id: &String, enabled: bool, now: i64) -> (r: Result<
        (),
        TaskError,
    >)
        requires
            old(self).wf(),
        ensures
            final(self).wf(),
            contains_task_id(old(self).tasks@, id@) ==> r == Ok::<(), TaskError>(())
                && set_enabled_effect(*old(self), *final(self), id@, enabled, now),
            !contains_task_id(old(self).tasks@, id@) ==> r == Err::<(), TaskError>(
                TaskError::NotFound,
            ) && *final(self) == *old(self),
    {
        match self.find_index(id) {
            Some(i) => {
                proof {
                    lemma_task_index_unique(self.tasks@, id@, i as int);
                }
                let mut t = self.tasks[i].clone();
                t.enabled = enabled;
                t.next_run = if enabled {
                    compute_next_run(&t.trigger.kind, &t.trigger.config, now)
                } else {
                    None
                };
                t.updated_at = Some(now);
                self.put_task(i, t);
                Ok(())
            },
            None => Err(TaskError::NotFound),
        }
    }

    /// Applies a partial update at time `now`: supplied fields replace the
    /// stored ones, and `next_run` is unconditionally recomputed from the
    /// resulting effective trigger and enabled flag. Fails with `NotFound`
    /// when the id is absent.
    pub fn update_task_at(
        &mut self,
        id: &String,
        name: Option<String>,
        description: Option<String>,
        trigger_type: Option<String>,
        trigger_config: Option<String>,
        action_type: Option<String>,
        action_config: Option<String>,
        enabled: Option<bool>,
        metadata: Option<String>,
        now: i64,
    ) -> (r: Result<(), TaskError>)
        requires
            old(self).wf(),
        ensures
            final(self).wf(),
            contains_task_id(old(self).tasks@, id@) ==> r == Ok::<(), TaskError>(())
                && update_task_effect(
                *old(self),
                *final(self),
                id@,
                name,
                description,
                trigger_type,
                trigger_config,
                action_type,
                action_config,
                enabled,
                metadata,
                now,
            ),
            !contains_task_id(old(self).tasks@, id@) ==> r == Err::<(), TaskError>(
                TaskError::NotFound,
            ) && *final(self) == *old(self),
    {
        match self.find_index(id) {
            Some(i) => {
                proof {
                    lemma_task_index_unique(self.tasks@, id@, i as int);
                }
                let mut t = self.tasks[i].clone();
                match name {
                    Some(v) => {
                        t.name = v;
                    },
                    None => {},
                }
                match description {
                    Some(v) => {
                        t.description = Some(v);
                    },
                    None => {},
                }
                match trigger_type {
                    Some(v) => {
                        t.trigger.kind = v;
                    },
                    None => {},
                }
                match trigger_config {
                    Some(v) => {
                        t.trigger.config = v;
                    },
                    None => {},
                }
                match action_type {
                    Some(v) => {
                        t.action.kind = v;
                    },
                    None => {},
                }
                match action_config {
                    Some(v) => {
                        t.action.config = v;
                    },
                    None => {},
                }
                match enabled {
                    Some(v) => {
                        t.enabled = v;
                    },
                    None => {},
                }
                match metadata {
                    Some(v) => {
                        t.metadata = Some(v);
                    },
                    None => {},
                }
                t.next_run = if t.enabled {
                    compute_next_run(&t.trigger.kind, &t.trigger.config, now)
                } else {
                    None
                };
                t.updated_at = Some(now);
                self.put_task(i, t);
                Ok(())
            },
            None => Err(TaskError::NotFound),
        }
    }
}

/// The execution records that survive a cascade delete of the given task.
pub open spec fn executions_without(execs: Seq<ApiTaskExecution>, id: Seq<char>) -> Seq<
    ApiTaskExecution,
> {
    execs.filter(|e: ApiTaskExecution| e.task_id@ != id)
}

/// A row keeps its id when a row with a different id is removed.
proof fn lemma_contains_remove(tasks: Seq<ApiTask>, i: int, id: Seq<char>)
    requires
        0 <= i < tasks.len(),
        contains_task_id(tasks, id),
        tasks[i].id@ != id,
    ensures
        contains_task_id(tasks.remove(i), id),
{
    let k = choose|k: int| 0 <= k < tasks.len() && (#[trigger] tasks[k]).id@ == id;
    if k < i {
        assert(tasks.remove(i)[k].id@ == id);
    } else {
        assert(tasks.remove(i)[k - 1].id@ == id);
    }
}

impl TaskStore {
    /// Removes the task with the given id, if stored, and cascades removal
    /// of its execution records. Removing an absent id is a no-op.
    pub fn delete_task(&mut self, id: &String)
        requires
            old(self).wf(),
        ensures
            final(self).wf(),
            contains_task_id(old(self).tasks@, id@) ==> final(self).tasks@ == old(
                self,
            ).tasks@.remove(task_index_of(old(self).tasks@, id@)),
            !contains_task_id(old(self).tasks@, id@) ==> final(self).tasks@ == old(self).tasks@,
            final(self).executions@ == executions_without(old(self).executions@, id@),
    {
        let ghost pre_tasks = self.tasks@;
        match self.find_index(id) {
            Some(i) => {
                proof {
                    lemma_task_index_unique(self.tasks@, id@, i as int);
                }
                self.tasks.remove(i);
            },
            None => {},
        }
        let mut retained: Vec<ApiTaskExecution> = Vec::new();
        let n = self.executions.len();
        let mut j: usize = 0;
        while j < n
            invariant
                j <= n,
                n == self.executions@.len(),
                unique_execution_ids(self.executions@),
                retained@ == executions_without(self.executions@.take(j as int), id@),
                unique_execution_ids(retained@),
                forall|k: int|
                    0 <= k < retained@.len() ==> exists|m: int|
                        0 <= m < j && (#[trigger] retained@[k]) == self.executions@[m]
                            && retained@[k].task_id@ != id@,
            decreases n - j,
        {
            let e = &self.executions[j];
            let ghost prev = retained@;
            if !string_eq(&e.task_id, id) {
                retained.push(e.clone());
            }
            proof {
                let s = self.executions@;
                reveal(Seq::filter);
                assert(s.take(j + 1).drop_last() =~= s.take(j as int));
                assert(s.take(j + 1).last() == s[j as int]);
                assert(retained@ == executions_without(s.take(j + 1), id@));
                assert forall|k: int| 0 <= k < retained@.len() implies exists|m: int|
                    0 <= m < j + 1 && (#[trigger] retained@[k]) == s[m] && retained@[k].task_id@
                        != id@ by {
                    if k < prev.len() {
                        assert(prev[k] == retained@[k]);
                        let m = choose|m: int|
                            0 <= m < j && (#[trigger] prev[k]) == s[m] && prev[k].task_id@ != id@;
                        assert(retained@[k] == s[m]);
                    } else {
                        assert(retained@[k] == s[j as int]);
                    }
                }
                assert forall|p: int, q: int|
                    0 <= p < retained@.len() && 0 <= q < retained@.len() && p != q implies (
                #[trigger] retained@[p]).id@ != (#[trigger] retained@[q]).id@ by {
                    if p < prev.len() && q < prev.len() {
                        assert(prev[p] == retained@[p] && prev[q] == retained@[q]);
                    } else {
                        let (a, b): (int, int) = if p < q {
                            (p, q)
                        } else {
                            (q, p)
                        };
                        // b is the freshly pushed row s[j]; a maps to an
                        // earlier source row, and source ids are unique
                        assert(prev[a] == retained@[a]);
                        let m = choose|m: int|
                            0 <= m < j && (#[trigger] prev[a]) == s[m] && prev[a].task_id@ != id@;
                        assert(retained@[b] == s[j as int]);
                        assert(s[m].id@ != s[j as int].id@);
                    }
                }
            }
            j += 1;
        }
        proof {
            assert(self.executions@.take(n as int) =~= self.executions@);
        }
        let ghost pre_execs = self.executions@;
        self.executions = retained;
        proof {
            assert forall|k: int|
                0 <= k < self.executions@.len() implies contains_task_id(
                self.tasks@,
                (#[trigger] self.executions@[k]).task_id@,
            ) by {
                let m = choose|m: int|
                    0 <= m < n && (#[trigger] self.executions@[k]) == pre_execs[m]
                        && self.executions@[k].task_id@ != id@;
                assert(contains_task_id(pre_tasks, pre_execs[m].task_id@));
                if contains_task_id(pre_tasks, id@) {
                    lemma_contains_remove(
                        pre_tasks,
                        task_index_of(pre_tasks, id@),
                        self.executions@[k].task_id@,
                    );
                }
            }
        }
    }
}

/// Tasks ordered newest-created first.
pub open spec fn sorted_by_created_desc(s: Seq<ApiTask>) -> bool {
    forall|i: int, j: int|
        0 <= i < j < s.len() ==> (#[trigger] s[i]).created_at >= (#[trigger] s[j]).created_at
}

/// Tasks ordered earliest-due first (all rows carry a `next_run`).
pub open spec fn sorted_by_next_run_asc(s: Seq<ApiTask>) -> bool {
    forall|i: int, j: int|
        0 <= i < j < s.len() ==> (#[trigger] s[i]).next_run->Some_0 <= (
        #[trigger] s[j]).next_run->Some_0
}

/// Execution records ordered most-recently-started first.
pub open spec fn sorted_by_started_desc(s: Seq<ApiTaskExecution>) -> bool {
    forall|i: int, j: int|
        0 <= i < j < s.len() ==> (#[trigger] s[i]).started_at >= (#[trigger] s[j]).started_at
}

/// A pushed sequence keeps its members.
proof fn lemma_seq_contains_push<A>(s: Seq<A>, x: A, y: A)
    requires
        s.contains(y),
    ensures
        s.push(x).contains(y),
{
    let i = choose|i: int| 0 <= i < s.len() && s[i] == y;
    assert(s.push(x)[i] == y);
}

/// Sequences with the same multiset have the same members.
proof fn lemma_multiset_contains<A>(s1: Seq<A>, s2: Seq<A>, x: A)
    requires
        s1.to_multiset() == s2.to_multiset(),
        s1.contains(x),
    ensures
        s2.contains(x),
{
    broadcast use vstd::seq_lib::group_to_multiset_ensures;

    assert(s1.to_multiset().count(x) > 0);
}

/// Inserts a task into a sequence sorted newest-created first, keeping it
/// sorted; the contents gain exactly the new row.
fn insert_sorted_created(out: &mut Vec<ApiTask>, t: ApiTask)
    requires
        sorted_by_created_desc(old(out)@),
    ensures
        sorted_by_created_desc(final(out)@),
        final(out)@.to_multiset() == old(out)@.to_multiset().insert(t),
        final(out)@.len() == old(out)@.len() + 1,
        forall|k: int|
            0 <= k < final(out)@.len() ==> final(out)@[k] == t || old(out)@.contains(
                #[trigger] final(out)@[k],
            ),
{
    let n = out.len();
    let mut j: usize = 0;
    while j < n && out[j].created_at >= t.created_at
        invariant
            j <= n,
            n == out@.len(),
            out@ == old(out)@,
            forall|k: int| 0 <= k < j ==> (#[trigger] out@[k]).created_at >= t.created_at,
        decreases n - j,
    {
        j += 1;
    }
    let ghost pre = out@;
    out.insert(j, t);
    proof {
        pre.insert_ensures(j as int, t);
        vstd::seq_lib::to_multiset_insert(pre, j as int, t);
        assert forall|p: int, q: int|
            0 <= p < q < out@.len() implies (#[trigger] out@[p]).created_at >= (
        #[trigger] out@[q]).created_at by {
            if p == j && q > j {
                assert(out@[q] == pre[q - 1]);
                if j < n {
                    assert(pre[q - 1].created_at <= pre[j as int].created_at);
                }
            }
        }
        assert forall|k: int|
            0 <= k < out@.len() implies out@[k] == t || pre.contains(#[trigger] out@[k]) by {
            if k < j {
                assert(out@[k] == pre[k]);
            } else if k > j {
                assert(out@[k] == pre[k - 1]);
            }
        }
    }
}

/// Sorts tasks newest-created first; the contents are unchanged.
fn sort_tasks_by_created_desc(v: Vec<ApiTask>) -> (r: Vec<ApiTask>)
    ensures
        r@.to_multiset() == v@.to_multiset(),
        sorted_by_created_desc(r@),
{
    let mut input = v;
    let mut out: Vec<ApiTask> = Vec::new();
    proof {
        broadcast use vstd::seq_lib::group_to_multiset_ensures;
    }
    loop
        invariant
            sorted_by_created_desc(out@),
            out@.to_multiset().add(input@.to_multiset()) == v@.to_multiset(),
        decreases input@.len(),
    {
        let ghost pre_input = input@;
        let ghost pre_out = out@;
        match input.pop() {
            Some(x) => {
                proof {
                    broadcast use vstd::seq_lib::group_to_multiset_ensures;

                    assert(pre_input =~= input@.push(x));
                    assert(pre_input.to_multiset() == input@.to_multiset().insert(x));
                }
                insert_sorted_created(&mut out, x);
                proof {
                    assert(out@.to_multiset().add(input@.to_multiset()) =~= pre_out.to_multiset().insert(
                        x,
                    ).add(input@.to_multiset()));
                    assert(pre_out.to_multiset().insert(x).add(input@.to_multiset())
                        =~= pre_out.to_multiset().add(pre_input.to_multiset()));
                }
            },
            None => {
                proof {
                    broadcast use vstd::seq_lib::group_to_multiset_ensures;

                    assert(input@.to_multiset().len() == 0);
                    assert(out@.to_multiset().add(input@.to_multiset()) =~= out@.to_multiset());
                }
                return out;
            },
        }
    }
}

impl TaskStore {
    /// Returns copies of all tasks, newest-created first.
    pub fn list_tasks(&self) -> (r: Vec<ApiTask>)
        ensures
            r@.to_multiset() == self.tasks@.to_multiset(),
            sorted_by_created_desc(r@),
    {
        let mut copies: Vec<ApiTask> = Vec::new();
        let n = self.tasks.len();
        let mut i: usize = 0;
        while i < n
            invariant
                i <= n,
                n == self.tasks@.len(),
                copies@ == self.tasks@.take(i as int),
            decreases n - i,
        {
            copies.push(self.tasks[i].clone());
            proof {
                assert(copies@ =~= self.tasks@.take(i + 1));
            }
            i += 1;
        }
        proof {
            assert(self.tasks@.take(n as int) =~= self.tasks@);
        }
        sort_tasks_by_created_desc(copies)
    }
}

/// A due task: enabled, with a populated `next_run` at or before `now`.
pub open spec fn is_due(t: ApiTask, now: i64) -> bool {
    t.enabled && t.next_run is Some && t.next_run->Some_0 <= now
}

/// A prefix of a sequence is a sub-multiset of it.
proof fn lemma_take_submultiset<A>(s: Seq<A>, k: int)
    requires
        0 <= k <= s.len(),
    ensures
        s.take(k).to_multiset().subset_of(s.to_multiset()),
{
    broadcast use vstd::multiset::group_multiset_axioms;

    assert(s =~= s.take(k) + s.skip(k));
    vstd::seq_lib::lemma_multiset_commutative(s.take(k), s.skip(k));
}

/// Pushing the same row on both sides preserves the sub-multiset relation.
proof fn lemma_push_submultiset<A>(a: Seq<A>, b: Seq<A>, x: A)
    requires
        a.to_multiset().subset_of(b.to_multiset()),
    ensures
        a.push(x).to_multiset().subset_of(b.push(x).to_multiset()),
{
    broadcast use vstd::seq_lib::group_to_multiset_ensures;
    broadcast use vstd::multiset::group_multiset_axioms;

    assert(a.push(x).to_multiset() =~= a.to_multiset().insert(x));
    assert(b.push(x).to_multiset() =~= b.to_multiset().insert(x));
}

/// Extending the right side preserves the sub-multiset relation.
proof fn lemma_push_right_submultiset<A>(a: Seq<A>, b: Seq<A>, x: A)
    requires
        a.to_multiset().subset_of(b.to_multiset()),
    ensures
        a.to_multiset().subset_of(b.push(x).to_multiset()),
{
    broadcast use vstd::seq_lib::group_to_multiset_ensures;
    broadcast use vstd::multiset::group_multiset_axioms;

    assert(b.push(x).to_multiset() =~= b.to_multiset().insert(x));
}

/// Inserts a task (carrying a `next_run`) into a sequence sorted
/// earliest-due first, keeping it sorted; the contents gain exactly the
/// new row.
fn insert_sorted_next_run(out: &mut Vec<ApiTask>, t: ApiTask)
    requires
        sorted_by_next_run_asc(old(out)@),
        forall|k: int| 0 <= k < old(out)@.len() ==> (#[trigger] old(out)@[k]).next_run is Some,
        t.next_run is Some,
    ensures
        sorted_by_next_run_asc(final(out)@),
        forall|k: int| 0 <= k < final(out)@.len() ==> (#[trigger] final(out)@[k]).next_run is Some,
        final(out)@.to_multiset() == old(out)@.to_multiset().insert(t),
        final(out)@.len() == old(out)@.len() + 1,
        forall|k: int|
            0 <= k < final(out)@.len() ==> final(out)@[k] == t || old(out)@.contains(
                #[trigger] final(out)@[k],
            ),
{
    let key = match t.next_run {
        Some(v) => v,
        None => 0,
    };
    let n = out.len();
    let mut j: usize = 0;
    while j < n
        invariant
            j <= n,
            n == out@.len(),
            out@ == old(out)@,
            t.next_run is Some && key == t.next_run->Some_0,
            forall|k: int| 0 <= k < out@.len() ==> (#[trigger] out@[k]).next_run is Some,
            forall|k: int|
                0 <= k < j ==> (#[trigger] out@[k]).next_run->Some_0 <= t.next_run->Some_0,
        ensures
            j <= n,
            n == out@.len(),
            out@ == old(out)@,
            forall|k: int|
                0 <= k < j ==> (#[trigger] out@[k]).next_run->Some_0 <= t.next_run->Some_0,
            j < n ==> out@[j as int].next_run->Some_0 > t.next_run->Some_0,
        decreases n - j,
    {
        let v = match out[j].next_run {
            Some(v) => v,
            None => 0,
        };
        if v > key {
            break;
        }
        j += 1;
    }
    let ghost pre = out@;
    out.insert(j, t);
    proof {
        pre.insert_ensures(j as int, t);
        vstd::seq_lib::to_multiset_insert(pre, j as int, t);
        assert forall|p: int, q: int|
            0 <= p < q < out@.len() implies (#[trigger] out@[p]).next_run->Some_0 <= (
        #[trigger] out@[q]).next_run->Some_0 by {
            if p == j && q > j {
                assert(out@[q] == pre[q - 1]);
                if j < n {
                    assert(pre[q - 1].next_run->Some_0 >= pre[j as int].next_run->Some_0);
                }
            }
        }
        assert forall|k: int|
            0 <= k < out@.len() implies out@[k] == t || pre.contains(#[trigger] out@[k]) by {
            if k < j {
                assert(out@[k] == pre[k]);
            } else if k > j {
                assert(out@[k] == pre[k - 1]);
            }
        }
    }
}

/// Sorts tasks (all carrying a `next_run`) earliest-due first; the
/// contents are unchanged.
fn sort_tasks_by_next_run_asc(v: Vec<ApiTask>) -> (r: Vec<ApiTask>)
    requires
        forall|k: int| 0 <= k < v@.len() ==> (#[trigger] v@[k]).next_run is Some,
    ensures
        r@.to_multiset() == v@.to_multiset(),
        sorted_by_next_run_asc(r@),
{
    let mut input = v;
    let mut out: Vec<ApiTask> = Vec::new();
    proof {
        broadcast use vstd::seq_lib::group_to_multiset_ensures;
    }
    loop
        invariant
            sorted_by_next_run_asc(out@),
            forall|k: int| 0 <= k < out@.len() ==> (#[trigger] out@[k]).next_run is Some,
            forall|k: int| 0 <= k < input@.len() ==> (#[trigger] input@[k]).next_run is Some,
            out@.to_multiset().add(input@.to_multiset()) == v@.to_multiset(),
        decreases input@.len(),
    {
        let ghost pre_input = input@;
        let ghost pre_out = out@;
        match input.pop() {
            Some(x) => {
                proof {
                    broadcast use vstd::seq_lib::group_to_multiset_ensures;

                    assert(pre_input =~= input@.push(x));
                    assert(pre_input.to_multiset() == input@.to_multiset().insert(x));
                }
                insert_sorted_next_run(&mut out, x);
                proof {
                    assert(out@.to_multiset().add(input@.to_multiset()) =~= pre_out.to_multiset().insert(
                        x,
                    ).add(input@.to_multiset()));
                    assert(pre_out.to_multiset().insert(x).add(input@.to_multiset())
                        =~= pre_out.to_multiset().add(pre_input.to_multiset()));
                }
            },
            None => {
                proof {
                    broadcast use vstd::seq_lib::group_to_multiset_ensures;

                    assert(input@.to_multiset().len() == 0);
                    assert(out@.to_multiset().add(input@.to_multiset()) =~= out@.to_multiset());
                }
                return out;
            },
        }
    }
}

/// What a due-task query returns for a store at time `now`: at most 20
/// rows, each a stored due row, no row more often than it is stored,
/// ordered earliest-due first; complete when under the cap, and when the
/// cap binds, the omitted due rows are all due no earlier than any
/// returned one.
pub open spec fn due_list_of(s: TaskStore, now: i64, due: Seq<ApiTask>) -> bool {
    &&& due.len() <= 20
    &&& forall|k: int| 0 <= k < due.len() ==> is_due(#[trigger] due[k], now) && s.tasks@.contains(due[k])
    &&& due.to_multiset().subset_of(s.tasks@.to_multiset())
    &&& sorted_by_next_run_asc(due)
    &&& forall|i: int|
        0 <= i < s.tasks@.len() && is_due(#[trigger] s.tasks@[i], now) ==> due.len() == 20
            || due.contains(s.tasks@[i])
    &&& forall|i: int, k: int|
        0 <= i < s.tasks@.len() && is_due(#[trigger] s.tasks@[i], now) && !due.contains(s.tasks@[i])
            && 0 <= k < due.len() ==> (#[trigger] due[k]).next_run->Some_0
            <= s.tasks@[i].next_run->Some_0
}

impl TaskStore {
    /// Returns copies of at most 20 due tasks (`enabled` with `next_run` at
    /// or before `now`), earliest-due first, per `due_list_of`: no stored
    /// row is repeated, and when the backlog exceeds 20, the omitted due
    /// tasks are all due no earlier than any returned one.
    pub fn list_due_tasks(&self, now: i64) -> (r: Vec<ApiTask>)
        ensures
            due_list_of(*self, now, r@),
    {
        let mut due: Vec<ApiTask> = Vec::new();
        let n = self.tasks.len();
        let mut i: usize = 0;
        proof {
            assert(due@ =~= self.tasks@.take(0));
        }
        while i < n
            invariant
                i <= n,
                n == self.tasks@.len(),
                forall|k: int|
                    0 <= k < due@.len() ==> is_due(#[trigger] due@[k], now) && self.tasks@.contains(
                        due@[k],
                    ),
                forall|m: int|
                    0 <= m < i && is_due(#[trigger] self.tasks@[m], now) ==> due@.contains(
                        self.tasks@[m],
                    ),
                due@.to_multiset().subset_of(self.tasks@.take(i as int).to_multiset()),
            decreases n - i,
        {
            let t = &self.tasks[i];
            let due_now = t.enabled && (match t.next_run {
                Some(v) => v <= now,
                None => false,
            });
            let ghost pre = due@;
            if due_now {
                due.push(t.clone());
                proof {
                    assert(due@[pre.len() as int] == self.tasks@[i as int]);
                    assert(due@.contains(self.tasks@[i as int]));
                    assert forall|m: int|
                        0 <= m < i + 1 && is_due(#[trigger] self.tasks@[m], now) implies due@.contains(
                        self.tasks@[m],
                    ) by {
                        if m < i {
                            lemma_seq_contains_push(pre, self.tasks@[i as int], self.tasks@[m]);
                        }
                    }
                }
            }
            proof {
                assert(self.tasks@.take(i + 1) =~= self.tasks@.take(i as int).push(
                    self.tasks@[i as int],
                ));
                if due@ == pre {
                    lemma_push_right_submultiset(
                        pre,
                        self.tasks@.take(i as int),
                        self.tasks@[i as int],
                    );
                } else {
                    lemma_push_submultiset(
                        pre,
                        self.tasks@.take(i as int),
                        self.tasks@[i as int],
                    );
                    assert(due@ =~= pre.push(self.tasks@[i as int]));
                }
            }
            i += 1;
        }
        proof {
            assert(self.tasks@.take(n as int) =~= self.tasks@);
        }
        let ghost due_seq = due@;
        let mut r = sort_tasks_by_next_run_asc(due);
        let ghost sorted_seq = r@;
        if r.len() > 20 {
            r.truncate(20);
        }
        proof {
            assert forall|k: int|
                0 <= k < r@.len() implies is_due(#[trigger] r@[k], now) && self.tasks@.contains(
                r@[k],
            ) by {
                assert(r@[k] == sorted_seq[k]);
                assert(sorted_seq.contains(sorted_seq[k]));
                lemma_multiset_contains(sorted_seq, due_seq, sorted_seq[k]);
                let m = choose|m: int| 0 <= m < due_seq.len() && due_seq[m] == sorted_seq[k];
                assert(is_due(due_seq[m], now));
            }
            assert forall|i2: int|
                0 <= i2 < self.tasks@.len() && is_due(
                    #[trigger] self.tasks@[i2],
                    now,
                ) implies r@.len() == 20 || r@.contains(self.tasks@[i2]) by {
                if r@.len() < 20 {
                    assert(due_seq.contains(self.tasks@[i2]));
                    lemma_multiset_contains(due_seq, sorted_seq, self.tasks@[i2]);
                    let m = choose|m: int|
                        0 <= m < sorted_seq.len() && sorted_seq[m] == self.tasks@[i2];
                    assert(r@ == sorted_seq);
                    assert(r@[m] == self.tasks@[i2]);
                    assert(r@.contains(self.tasks@[i2]));
                }
            }
            assert forall|i2: int, k: int|
                0 <= i2 < self.tasks@.len() && is_due(#[trigger] self.tasks@[i2], now)
                    && !r@.contains(self.tasks@[i2]) && 0 <= k < r@.len() implies (
            #[trigger] r@[k]).next_run->Some_0 <= self.tasks@[i2].next_run->Some_0 by {
                assert(due_seq.contains(self.tasks@[i2]));
                lemma_multiset_contains(due_seq, sorted_seq, self.tasks@[i2]);
                let m = choose|m: int| 0 <= m < sorted_seq.len() && sorted_seq[m] == self.tasks@[i2];
                if m < r@.len() {
                    assert(r@[m] == self.tasks@[i2]);
                    assert(r@.contains(self.tasks@[i2]));
                }
                assert(r@[k] == sorted_seq[k]);
            }
            lemma_take_submultiset(sorted_seq, r@.len() as int);
            assert(r@ =~= sorted_seq.take(r@.len() as int));
            assert forall|x: ApiTask|
                r@.to_multiset().count(x) <= self.tasks@.to_multiset().count(x) by {
                assert(r@.to_multiset().count(x) <= sorted_seq.to_multiset().count(x));
                assert(sorted_seq.to_multiset().count(x) == due_seq.to_multiset().count(x));
            }
        }
        r
    }
}

impl TaskStore {
    /// True when some execution record carries the given id.
    pub(crate) fn has_execution_id(&self, id: &String) -> (r: bool)
        ensures
            r == contains_execution_id(self.executions@, id@),
    {
        let n = self.executions.len();
        let mut i: usize = 0;
        while i < n
            invariant
                i <= n,
                n == self.executions@.len(),
                forall|k: int| 0 <= k < i ==> (#[trigger] self.executions@[k]).id@ != id@,
            decreases n - i,
        {
            if string_eq(&self.executions[i].id, id) {
                proof {
                    assert(contains_execution_id(self.executions@, id@));
                }
                return true;
            }
            i += 1;
        }
        false
    }

    /// Replaces the execution record at a found index with a row carrying
    /// the same id and an owned task, preserving the store invariant.
    pub(crate) fn put_execution(&mut self, i: usize, e: ApiTaskExecution)
        requires
            old(self).wf(),
            i < old(self).executions@.len(),
            old(self).executions@[i as int].id@ == e.id@,
            contains_task_id(old(self).tasks@, e.task_id@),
        ensures
            final(self).wf(),
            final(self).executions@ == old(self).executions@.update(i as int, e),
            final(self).tasks@ == old(self).tasks@,
    {
        self.executions.set(i, e);
    }

    /// Appends a fresh execution record owned by a stored task, preserving
    /// the store invariant.
    pub(crate) fn push_execution(&mut self, e: ApiTaskExecution)
        requires
            old(self).wf(),
            !contains_execution_id(old(self).executions@, e.id@),
            contains_task_id(old(self).tasks@, e.task_id@),
        ensures
            final(self).wf(),
            final(self).executions@ == old(self).executions@.push(e),
            final(self).tasks@ == old(self).tasks@,
    {
        self.executions.push(e);
    }
}

/// The row cap that `list_executions` applies: the requested limit clamped
/// to `[1, 200]`, defaulting to 50.
pub open spec fn effective_limit(limit: Option<i64>) -> int {
    match limit {
        Some(v) => if v < 1 {
            1
        } else if v > 200 {
            200
        } else {
            v as int
        },
        None => 50,
    }
}

/// Inserts an execution record into a sequence sorted most-recent first,
/// keeping it sorted; the contents gain exactly the new row.
fn insert_sorted_started(out: &mut Vec<ApiTaskExecution>, e: ApiTaskExecution)
    requires
        sorted_by_started_desc(old(out)@),
    ensures
        sorted_by_started_desc(final(out)@),
        final(out)@.to_multiset() == old(out)@.to_multiset().insert(e),
        final(out)@.len() == old(out)@.len() + 1,
        forall|k: int|
            0 <= k < final(out)@.len() ==> final(out)@[k] == e || old(out)@.contains(
                #[trigger] final(out)@[k],
            ),
{
    let n = out.len();
    let mut j: usize = 0;
    while j < n && out[j].started_at >= e.started_at
        invariant
            j <= n,
            n == out@.len(),
            out@ == old(out)@,
            forall|k: int| 0 <= k < j ==> (#[trigger] out@[k]).started_at >= e.started_at,
        decreases n - j,
    {
        j += 1;
    }
    let ghost pre = out@;
    out.insert(j, e);
    proof {
        pre.insert_ensures(j as int, e);
        vstd::seq_lib::to_multiset_insert(pre, j as int, e);
        assert forall|p: int, q: int|
            0 <= p < q < out@.len() implies (#[trigger] out@[p]).started_at >= (
        #[trigger] out@[q]).started_at by {
            if p == j && q > j {
                assert(out@[q] == pre[q - 1]);
                if j < n {
                    assert(pre[q - 1].started_at <= pre[j as int].started_at);
                }
            }
        }
        assert forall|k: int|
            0 <= k < out@.len() implies out@[k] == e || pre.contains(#[trigger] out@[k]) by {
            if k < j {
                assert(out@[k] == pre[k]);
            } else if k > j {
                assert(out@[k] == pre[k - 1]);
            }
        }
    }
}

/// Sorts execution records most-recently-started first; the contents are
/// unchanged.
fn sort_execs_by_started_desc(v: Vec<ApiTaskExecution>) -> (r: Vec<ApiTaskExecution>)
    ensures
        r@.to_multiset() == v@.to_multiset(),
        sorted_by_started_desc(r@),
{
    let mut input = v;
    let mut out: Vec<ApiTaskExecution> = Vec::new();
    proof {
        broadcast use vstd::seq_lib::group_to_multiset_ensures;
    }
    loop
        invariant
            sorted_by_started_desc(out@),
            out@.to_multiset().add(input@.to_multiset()) == v@.to_multiset(),
        decreases input@.len(),
    {
        let ghost pre_input = input@;
        let ghost pre_out = out@;
        match input.pop() {
            Some(x) => {
                proof {
                    broadcast use vstd::seq_lib::group_to_multiset_ensures;

                    assert(pre_input =~= input@.push(x));
                    assert(pre_input.to_multiset() == input@.to_multiset().insert(x));
                }
                insert_sorted_started(&mut out, x);
                proof {
                    assert(out@.to_multiset().add(input@.to_multiset()) =~= pre_out.to_multiset().insert(
                        x,
                    ).add(input@.to_multiset()));
                    assert(pre_out.to_multiset().insert(x).add(input@.to_multiset())
                        =~= pre_out.to_multiset().add(pre_input.to_multiset()));
                }
            },
            None => {
                proof {
                    broadcast use vstd::seq_lib::group_to_multiset_ensures;

                    assert(input@.to_multiset().len() == 0);
                    assert(out@.to_multiset().add(input@.to_multiset()) =~= out@.to_multiset());
                }
                return out;
            },
        }
    }
}

impl TaskStore {
    /// Returns copies of the execution records of a task, most recent
    /// first, capped at the clamped limit; when the history exceeds the
    /// cap, the omitted records all started no later than any returned one.
    pub fn list_executions(&self, task_id: &String, limit: Option<i64>) -> (r: Vec<
        ApiTaskExecution,
    >)
        ensures
            r@.len() <= effective_limit(limit),
            forall|k: int|
                0 <= k < r@.len() ==> (#[trigger] r@[k]).task_id@ == task_id@
                    && self.executions@.contains(r@[k]),
            sorted_by_started_desc(r@),
            forall|i: int|
                0 <= i < self.executions@.len() && (#[trigger] self.executions@[i]).task_id@
                    == task_id@ ==> r@.len() == effective_limit(limit) || r@.contains(
                    self.executions@[i],
                ),
            forall|i: int, k: int|
                0 <= i < self.executions@.len() && (#[trigger] self.executions@[i]).task_id@
                    == task_id@ && !r@.contains(self.executions@[i]) && 0 <= k < r@.len() ==> (
                #[trigger] r@[k]).started_at >= self.executions@[i].started_at,
            r@.to_multiset().subset_of(self.executions@.to_multiset()),
    {
        let lim_i64: i64 = match limit {
            Some(v) => if v < 1 {
                1
            } else if v > 200 {
                200
            } else {
                v
            },
            None => 50,
        };
        let lim: usize = lim_i64 as usize;
        let mut matching: Vec<ApiTaskExecution> = Vec::new();
        let n = self.executions.len();
        let mut i: usize = 0;
        proof {
            assert(matching@ =~= self.executions@.take(0));
        }
        while i < n
            invariant
                i <= n,
                n == self.executions@.len(),
                forall|k: int|
                    0 <= k < matching@.len() ==> (#[trigger] matching@[k]).task_id@ == task_id@
                        && self.executions@.contains(matching@[k]),
                forall|m: int|
                    0 <= m < i && (#[trigger] self.executions@[m]).task_id@ == task_id@
                        ==> matching@.contains(self.executions@[m]),
                matching@.to_multiset().subset_of(
                    self.executions@.take(i as int).to_multiset(),
                ),
            decreases n - i,
        {
            let e = &self.executions[i];
            let ghost pre = matching@;
            if string_eq(&e.task_id, task_id) {
                matching.push(e.clone());
                proof {
                    assert(matching@[pre.len() as int] == self.executions@[i as int]);
                    assert(matching@.contains(self.executions@[i as int]));
                    assert forall|m: int|
                        0 <= m < i + 1 && (#[trigger] self.executions@[m]).task_id@
                            == task_id@ implies matching@.contains(self.executions@[m]) by {
                        if m < i {
                            lemma_seq_contains_push(
                                pre,
                                self.executions@[i as int],
                                self.executions@[m],
                            );
                        }
                    }
                }
            }
            proof {
                assert(self.executions@.take(i + 1) =~= self.executions@.take(i as int).push(
                    self.executions@[i as int],
                ));
                if matching@ == pre {
                    lemma_push_right_submultiset(
                        pre,
                        self.executions@.take(i as int),
                        self.executions@[i as int],
                    );
                } else {
                    lemma_push_submultiset(
                        pre,
                        self.executions@.take(i as int),
                        self.executions@[i as int],
                    );
                    assert(matching@ =~= pre.push(self.executions@[i as int]));
                }
            }
            i += 1;
        }
        proof {
            assert(self.executions@.take(n as int) =~= self.executions@);
        }
        let ghost matching_seq = matching@;
        let mut r = sort_execs_by_started_desc(matching);
        let ghost sorted_seq = r@;
        if r.len() > lim {
            r.truncate(lim);
        }
        proof {
            assert forall|k: int|
                0 <= k < r@.len() implies (#[trigger] r@[k]).task_id@ == task_id@
                    && self.executions@.contains(r@[k]) by {
                assert(r@[k] == sorted_seq[k]);
                assert(sorted_seq.contains(sorted_seq[k]));
                lemma_multiset_contains(sorted_seq, matching_seq, sorted_seq[k]);
                let m = choose|m: int|
                    0 <= m < matching_seq.len() && matching_seq[m] == sorted_seq[k];
                assert(matching_seq[m].task_id@ == task_id@);
            }
            assert forall|i2: int|
                0 <= i2 < self.executions@.len() && (#[trigger] self.executions@[i2]).task_id@
                    == task_id@ implies r@.len() == effective_limit(limit) || r@.contains(
                self.executions@[i2],
            ) by {
                if r@.len() < lim {
                    assert(matching_seq.contains(self.executions@[i2]));
                    lemma_multiset_contains(matching_seq, sorted_seq, self.executions@[i2]);
                    let m = choose|m: int|
                        0 <= m < sorted_seq.len() && sorted_seq[m] == self.executions@[i2];
                    assert(r@ == sorted_seq);
                    assert(r@[m] == self.executions@[i2]);
                    assert(r@.contains(self.executions@[i2]));
                }
            }
            assert forall|i2: int, k: int|
                0 <= i2 < self.executions@.len() && (#[trigger] self.executions@[i2]).task_id@
                    == task_id@ && !r@.contains(self.executions@[i2]) && 0 <= k
                    < r@.len() implies (#[trigger] r@[k]).started_at
                >= self.executions@[i2].started_at by {
                assert(matching_seq.contains(self.executions@[i2]));
                lemma_multiset_contains(matching_seq, sorted_seq, self.executions@[i2]);
                let m = choose|m: int|
                    0 <= m < sorted_seq.len() && sorted_seq[m] == self.executions@[i2];
                if m < r@.len() {
                    assert(r@[m] == self.executions@[i2]);
                    assert(r@.contains(self.executions@[i2]));
                }
                assert(r@[k] == sorted_seq[k]);
            }
            lemma_take_submultiset(sorted_seq, r@.len() as int);
            assert(r@ =~= sorted_seq.take(r@.len() as int));
            assert forall|x: ApiTaskExecution|
                r@.to_multiset().count(x) <= self.executions@.to_multiset().count(x) by {
                assert(r@.to_multiset().count(x) <= sorted_seq.to_multiset().count(x));
                assert(sorted_seq.to_multiset().count(x) == matching_seq.to_multiset().count(x));
            }
        }
        r
    }
}

} // verus!
