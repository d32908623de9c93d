use vstd::prelude::*;

verus! {

/// The lifecycle of one invocation. A task settles exactly once; a settled
/// task never changes again.
#[derive(PartialEq, Eq, Structural, Clone, Copy, Debug)]
pub enum TaskState {
    /// Accepted, the worker has not begun.
    Pending,
    /// The worker is inside the pipeline; the native call is not preemptible.
    Running,
    /// Cancellation arrived while the native call runs: the call finishes
    /// undisturbed, but the handle will settle as cancelled and the result
    /// will not be delivered.
    CancelPending,
    /// Settled with a result delivered.
    Done,
    /// Settled with an error delivered.
    Failed,
    /// Settled without a result because cancellation won.
    Cancelled,
}

/// What the host runtime observes about the task.
#[derive(PartialEq, Eq, Structural, Clone, Copy, Debug)]
pub enum TaskEvent {
    /// The worker thread picks the task up.
    Start,
    /// The pipeline returned a result.
    Complete,
    /// The pipeline returned an error, or its failure boundary caught an
    /// abrupt termination.
    Fail,
    /// The caller's abort signal fired.
    CancelRequested,
}

/// What the runtime must do after a transition.
#[derive(PartialEq, Eq, Structural, Clone, Copy, Debug)]
pub enum TaskAction {
    /// Run the pipeline now.
    RunPipeline,
    /// Hand the caller the result.
    DeliverResult,
    /// Hand the caller the error.
    DeliverError,
    /// Settle the handle as cancelled without delivering anything; the
    /// pipeline must not be entered after this.
    SettleCancelled,
    /// Do nothing: the event arrived on a settled task, or it carries no
    /// decision (a cancel noted while the native call runs cannot preempt
    /// it and only marks the handle).
    Ignore,
}

/// Whether a state is settled: no transition leaves it.
pub open spec fn spec_settled(s: TaskState) -> bool {
    s == TaskState::Done || s == TaskState::Failed || s == TaskState::Cancelled
}

/// One step of the task lifecycle. Cancellation before the start settles
/// the task without running the pipeline. Cancellation during the run
/// cannot preempt the native call: the call runs to completion, but the
/// handle is marked, and when the call returns — with a result or with a
/// failure — the task settles as cancelled and delivers nothing. Events on
/// a settled task change nothing.
pub open spec fn spec_task_step(s: TaskState, e: TaskEvent) -> (TaskState, TaskAction) {
    match (s, e) {
        (TaskState::Pending, TaskEvent::CancelRequested) => (
            TaskState::Cancelled,
            TaskAction::SettleCancelled,
        ),
        (TaskState::Pending, TaskEvent::Start) => (TaskState::Running, TaskAction::RunPipeline),
        (TaskState::Running, TaskEvent::Complete) => (TaskState::Done, TaskAction::DeliverResult),
        (TaskState::Running, TaskEvent::Fail) => (TaskState::Failed, TaskAction::DeliverError),
        (TaskState::Running, TaskEvent::CancelRequested) => (
            TaskState::CancelPending,
            TaskAction::Ignore,
        ),
        (TaskState::CancelPending, TaskEvent::Complete) => (
            TaskState::Cancelled,
            TaskAction::SettleCancelled,
        ),
        (TaskState::CancelPending, TaskEvent::Fail) => (
            TaskState::Cancelled,
            TaskAction::SettleCancelled,
        ),
        _ => (s, TaskAction::Ignore),
    }
}

/// Drive the task lifecycle by one observed event.
pub fn task_step(s: TaskState, e: TaskEvent) -> (r: (TaskState, TaskAction))
    ensures
        r == spec_task_step(s, e),
{
    match (s, e) {
        (TaskState::Pending, TaskEvent::CancelRequested) => (
            TaskState::Cancelled,
            TaskAction::SettleCancelled,
        ),
        (TaskState::Pending, TaskEvent::Start) => (TaskState::Running, TaskAction::RunPipeline),
        (TaskState::Running, TaskEvent::Complete) => (TaskState::Done, TaskAction::DeliverResult),
        (TaskState::Running, TaskEvent::Fail) => (TaskState::Failed, TaskAction::DeliverError),
        (TaskState::Running, TaskEvent::CancelRequested) => (
            TaskState::CancelPending,
            TaskAction::Ignore,
        ),
        (TaskState::CancelPending, TaskEvent::Complete) => (
            TaskState::Cancelled,
            TaskAction::SettleCancelled,
        ),
        (TaskState::CancelPending, TaskEvent::Fail) => (
            TaskState::Cancelled,
            TaskAction::SettleCancelled,
        ),
        _ => (s, TaskAction::Ignore),
    }
}

/// A settled task never changes: every later event leaves the state as it
/// was and asks the runtime to do nothing, so a task settles at most once.
pub proof fn lemma_settled_is_final(s: TaskState, e: TaskEvent)
    requires
        spec_settled(s),
    ensures
        spec_task_step(s, e) == (s, TaskAction::Ignore),
{
}

/// Cancelling a task before it starts settles it as cancelled, and the
/// pipeline is never entered: the only transition that runs the pipeline
/// leaves from the pending state on a start event.
pub proof fn lemma_cancel_before_start(s: TaskState, e: TaskEvent)
    ensures
        spec_task_step(TaskState::Pending, TaskEvent::CancelRequested) == (
            TaskState::Cancelled,
            TaskAction::SettleCancelled,
        ),
        spec_task_step(s, e).1 == TaskAction::RunPipeline ==> s == TaskState::Pending && e
            == TaskEvent::Start,
        spec_settled(s) ==> spec_task_step(s, e).1 != TaskAction::RunPipeline,
{
}

/// Cancelling after the start does not abort the running computation: the
/// in-flight call keeps running (the runtime is told to do nothing), but
/// the handle is marked, and once the call returns — however it returns —
/// the task settles as cancelled and no result or error is delivered.
pub proof fn lemma_cancel_while_running()
    ensures
        spec_task_step(TaskState::Running, TaskEvent::CancelRequested) == (
            TaskState::CancelPending,
            TaskAction::Ignore,
        ),
        spec_task_step(TaskState::CancelPending, TaskEvent::Complete) == (
            TaskState::Cancelled,
            TaskAction::SettleCancelled,
        ),
        spec_task_step(TaskState::CancelPending, TaskEvent::Fail) == (
            TaskState::Cancelled,
            TaskAction::SettleCancelled,
        ),
        forall|e: TaskEvent|
            (#[trigger] spec_task_step(TaskState::CancelPending, e)).1 != TaskAction::DeliverResult
                && spec_task_step(TaskState::CancelPending, e).1 != TaskAction::DeliverError,
{
}

} // verus!
