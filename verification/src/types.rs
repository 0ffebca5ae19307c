//! Data model of the orchestration engine: workflow graphs, flow versions,
//! tasks and the records the planner emits.
use vstd::prelude::*;

verus! {

/// Deployment lane a task belongs to; the scheduler polls `Testing` first.
#[derive(Clone, Copy, PartialEq, Eq, Structural, Debug)]
pub enum Stage {
    Testing,
    Production,
}

impl Stage {
    /// Wire name of the lane, as the store records it.
    pub fn as_str(&self) -> (r: &'static str)
        ensures
            self is Testing ==> r@ == "testing"@,
            self is Production ==> r@ == "production"@,
    {
        match self {
            Stage::Testing => "testing",
            Stage::Production => "production",
        }
    }
}

/// Lifecycle state of a task. `Completed`, `Error` and `Cancelled` are terminal.
#[derive(Clone, Copy, PartialEq, Eq, Structural, Debug)]
pub enum TaskStatus {
    Pending,
    Processing,
    Completed,
    Error,
    Cancelled,
}

impl TaskStatus {
    /// Wire name of the status, as the store records it.
    pub fn as_str(&self) -> (r: &'static str)
        ensures
            self is Pending ==> r@ == "pending"@,
            self is Processing ==> r@ == "processing"@,
            self is Completed ==> r@ == "completed"@,
            self is Error ==> r@ == "error"@,
            self is Cancelled ==> r@ == "cancelled"@,
    {
        match self {
            TaskStatus::Pending => "pending",
            TaskStatus::Processing => "processing",
            TaskStatus::Completed => "completed",
            TaskStatus::Error => "error",
            TaskStatus::Cancelled => "cancelled",
        }
    }
}

/// Type tag of a workflow node: the distinguished entry point or an ordinary action.
#[derive(Clone, Copy, PartialEq, Eq, Structural, Debug)]
pub enum NodeKind {
    Trigger,
    Standard,
}

/// Unrendered template blobs copied verbatim from an action onto a task.
#[derive(Clone, Debug)]
pub struct TaskConfig {
    pub variables: Option<String>,
    pub inputs: Option<String>,
}

/// A node of a workflow graph.
#[derive(Clone, Debug)]
pub struct ActionNode {
    pub node_id: String,
    pub kind: NodeKind,
    pub plugin_id: Option<String>,
    pub variables: Option<String>,
    pub input: Option<String>,
}

/// A directed edge between two nodes, named by their ids.
#[derive(Clone, Debug)]
pub struct Edge {
    pub source: String,
    pub target: String,
}

/// A workflow graph: actions and the edges between them.
#[derive(Clone, Debug)]
pub struct Workflow {
    pub actions: Vec<ActionNode>,
    pub edges: Vec<Edge>,
}

/// Immutable snapshot of one version of a flow's definition.
#[derive(Clone, Debug)]
pub struct FlowVersion {
    pub flow_version_id: String,
    pub flow_version_name: Option<String>,
    pub workflow: Workflow,
}

/// The persisted unit of execution: one action instance within one flow run,
/// or the trigger itself.
#[derive(Clone, Debug)]
pub struct Task {
    pub task_id: String,
    pub account_id: String,
    pub flow_id: String,
    pub flow_version_id: String,
    pub flow_version_name: Option<String>,
    pub trigger_id: String,
    pub trigger_session_id: String,
    pub flow_session_id: String,
    pub node_id: String,
    pub plugin_id: Option<String>,
    pub stage: Stage,
    pub task_status: TaskStatus,
    pub is_trigger: bool,
    pub processing_order: i32,
    pub config: TaskConfig,
    pub result: Option<String>,
}

/// A task-creation record the planner emits for each visited node.
#[derive(Clone, Debug)]
pub struct CreateTaskInput {
    pub account_id: String,
    pub task_status: TaskStatus,
    pub flow_id: String,
    pub flow_version_id: String,
    pub flow_version_name: String,
    pub trigger_id: String,
    pub trigger_session_id: String,
    pub trigger_session_status: TaskStatus,
    pub flow_session_id: String,
    pub flow_session_status: TaskStatus,
    pub node_id: String,
    pub is_trigger: bool,
    pub plugin_id: Option<String>,
    pub stage: Stage,
    pub config: TaskConfig,
    pub test_config: Option<TaskConfig>,
    pub processing_order: i32,
}

/// The body of a status-transition write against the store.
#[derive(Clone, Copy, PartialEq, Eq, Structural, Debug)]
pub struct UpdateTaskInput {
    pub task_status: TaskStatus,
}

impl UpdateTaskInput {
    pub fn new(status: TaskStatus) -> (r: UpdateTaskInput)
        ensures
            r.task_status == status,
    {
        UpdateTaskInput { task_status: status }
    }
}

/// One auth-provider account with refreshed credentials, as the bundler
/// receives it: its slug and its account object as JSON text.
#[derive(Clone, Debug)]
pub struct AuthAccount {
    pub slug: String,
    pub payload_json: String,
}

/// View of an optional string as an optional character sequence.
pub open spec fn view_opt(o: Option<String>) -> Option<Seq<char>> {
    match o {
        Some(s) => Some(s@),
        None => None,
    }
}

/// Clones an optional string, preserving its view.
pub fn clone_opt_string(o: &Option<String>) -> (r: Option<String>)
    ensures
        view_opt(r) == view_opt(*o),
{
    match o {
        Some(s) => Some(s.clone()),
        None => None,
    }
}

} // verus!
