//! Data model: tasks, execution records, errors, and host-facing events.

use vstd::prelude::*;

verus! {

/// A trigger: a kind tag (`"interval"`, `"cron"`, `"manual"`, `"event"`)
/// and an opaque structured config payload, stored as text.
#[derive(Debug)]
pub struct ApiTrigger {
    pub kind: String,
    pub config: String,
}

/// An action: a kind tag (`"notification"`, `"agent_task"`, `"workflow"`,
/// `"script"`) and an opaque structured config payload, stored as text.
#[derive(Debug)]
pub struct ApiAction {
    pub kind: String,
    pub config: String,
}

/// A persisted schedulable unit. Timestamps are milliseconds since the epoch.
#[derive(Debug)]
pub struct ApiTask {
    pub id: String,
    pub name: String,
    pub description: Option<String>,
    pub trigger: ApiTrigger,
    pub action: ApiAction,
    pub enabled: bool,
    pub last_run: Option<i64>,
    pub next_run: Option<i64>,
    pub metadata: Option<String>,
    pub created_at: i64,
    pub updated_at: Option<i64>,
}

/// One recorded attempt to run a task's action.
#[derive(Debug)]
pub struct ApiTaskExecution {
    pub id: String,
    pub task_id: String,
    pub status: String,
    pub started_at: i64,
    pub completed_at: Option<i64>,
    pub result: Option<String>,
    pub error: Option<String>,
    pub duration: Option<i64>,
}

/// Errors surfaced by the command surface.
#[derive(Debug, PartialEq, Eq, Structural)]
pub enum TaskError {
    /// The referenced task does not exist.
    NotFound,
    /// A freshly generated id collided with a stored row's id.
    IdConflict,
}

impl TaskError {
    /// A human-readable description, mirroring the store's error strings.
    pub fn message(&self) -> (r: String)
        ensures
            *self == TaskError::NotFound ==> r@ == "task not found"@,
            *self == TaskError::IdConflict ==> r@ == "failed to insert row: id conflict"@,
    {
        match self {
            TaskError::NotFound => String::from_str("task not found"),
            TaskError::IdConflict => String::from_str("failed to insert row: id conflict"),
        }
    }
}

/// An outbound event for the host's event channel (fire-and-forget).
#[derive(Debug)]
pub enum HostEvent {
    /// An execution attempt has started for the task.
    TaskStarted { task_id: String },
    /// A notification action fired; the payload is the decoded config.
    TaskNotification { payload: String },
    /// An agent-task action fired; the payload is the decoded config.
    TaskAgentExecute { payload: String },
    /// A workflow action fired; the payload is the decoded config.
    TaskWorkflowExecute { payload: String },
    /// The execution attempt finished with status `success`.
    TaskCompleted { task_id: String },
    /// The execution attempt finished with status `failed`.
    TaskFailed { task_id: String, error: String },
}

/// The mathematical shape of a `HostEvent`: each variant over `Seq<char>`.
pub ghost enum EventView {
    Started(Seq<char>),
    Notification(Seq<char>),
    AgentExecute(Seq<char>),
    WorkflowExecute(Seq<char>),
    Completed(Seq<char>),
    Failed(Seq<char>, Seq<char>),
}

impl View for HostEvent {
    type V = EventView;

    open spec fn view(&self) -> EventView {
        match self {
            HostEvent::TaskStarted { task_id } => EventView::Started(task_id@),
            HostEvent::TaskNotification { payload } => EventView::Notification(payload@),
            HostEvent::TaskAgentExecute { payload } => EventView::AgentExecute(payload@),
            HostEvent::TaskWorkflowExecute { payload } => EventView::WorkflowExecute(payload@),
            HostEvent::TaskCompleted { task_id } => EventView::Completed(task_id@),
            HostEvent::TaskFailed { task_id, error } => EventView::Failed(task_id@, error@),
        }
    }
}

/// The views of a sequence of events, in order.
pub open spec fn events_view(s: Seq<HostEvent>) -> Seq<EventView> {
    s.map_values(|e: HostEvent| e@)
}

/// True of a `String` and a literal whose views are equal.
pub fn string_eq_lit(s: &String, lit: &str) -> (r: bool)
    ensures
        r == (s@ == lit@),
{
    *s == String::from_str(lit)
}

/// True of `String` values whose views are equal.
pub fn string_eq(a: &String, b: &String) -> (r: bool)
    ensures
        r == (a@ == b@),
{
    *a == *b
}

impl Clone for ApiTrigger {
    fn clone(&self) -> (r: Self)
        ensures
            r == *self,
    {
        ApiTrigger { kind: self.kind.clone(), config: self.config.clone() }
    }
}

impl Clone for ApiAction {
    fn clone(&self) -> (r: Self)
        ensures
            r == *self,
    {
        ApiAction { kind: self.kind.clone(), config: self.config.clone() }
    }
}

/// Clones an optional string, preserving the value exactly.
fn clone_opt_string(s: &Option<String>) -> (r: Option<String>)
    ensures
        r == *s,
{
    match s {
        Some(v) => Some(v.clone()),
        None => None,
    }
}

impl Clone for ApiTask {
    fn clone(&self) -> (r: Self)
        ensures
            r == *self,
    {
        ApiTask {
            id: self.id.clone(),
            name: self.name.clone(),
            description: clone_opt_string(&self.description),
            trigger: self.trigger.clone(),
            action: self.action.clone(),
            enabled: self.enabled,
            last_run: self.last_run,
            next_run: self.next_run,
            metadata: clone_opt_string(&self.metadata),
            created_at: self.created_at,
            updated_at: self.updated_at,
        }
    }
}

impl Clone for ApiTaskExecution {
    fn clone(&self) -> (r: Self)
        ensures
            r == *self,
    {
        ApiTaskExecution {
            id: self.id.clone(),
            task_id: self.task_id.clone(),
            status: self.status.clone(),
            started_at: self.started_at,
            completed_at: self.completed_at,
            result: clone_opt_string(&self.result),
            error: clone_opt_string(&self.error),
            duration: self.duration,
        }
    }
}

} // verus!
