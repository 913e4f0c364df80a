use vstd::prelude::*;

verus! {

/// Identity of a submitted task, unique within the process.
pub type TaskId = u128;

/// Lifecycle of a submitted task.
#[derive(Clone, Copy, Debug, PartialEq, Eq, Structural)]
pub enum TaskState {
    Pending,
    Running,
    Completed,
    Failed,
}

impl TaskState {
    /// Whether no further transition can leave this state.
    pub fn is_terminal(&self) -> (r: bool)
        ensures
            r == (*self is Completed || *self is Failed),
    {
        match self {
            TaskState::Completed | TaskState::Failed => true,
            _ => false,
        }
    }
}

/// Errors reported by the scheduler and the task registry.
#[derive(Clone, Debug)]
pub enum TaskError {
    /// A type-exclusivity check or a resource-lock batch failed at admission.
    LockConflict(String),
    /// The operation named a task identity that is not tracked.
    InvalidState,
}

/// The message of a lock conflict, or `None` for any other error.
pub open spec fn conflict_of(e: TaskError) -> Option<Seq<char>> {
    match e {
        TaskError::LockConflict(m) => Some(m@),
        TaskError::InvalidState => None,
    }
}

/// What a unit of work declares about itself: its type tag, the resource
/// keys it holds while it runs, and its concurrency policy.
#[derive(Clone, Debug)]
pub struct TaskPolicy {
    pub tag: String,
    pub locks: Vec<String>,
    pub queueable: bool,
    pub max_concurrent: Option<usize>,
    pub requires_global_lock: bool,
}

impl TaskPolicy {
    /// The defaults of a work contract: no locks, queueable, no ceiling,
    /// no type exclusivity.
    pub fn new(tag: String) -> (r: Self)
        ensures
            r.tag@ == tag@,
            r.locks@.len() == 0,
            r.queueable,
            r.max_concurrent is None,
            !r.requires_global_lock,
    {
        TaskPolicy {
            tag,
            locks: Vec::new(),
            queueable: true,
            max_concurrent: None,
            requires_global_lock: false,
        }
    }
}

} // verus!
