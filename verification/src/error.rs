use vstd::prelude::*;

verus! {

/// Errors that can occur while building, scheduling or running tasks.
#[derive(Debug, Clone, Copy, PartialEq, Eq, Structural)]
pub enum SkedgyError {
    /// A message could not be sent to the scheduler.
    SendError,
    /// A message could not be received from the scheduler.
    RecvError,
    /// An invalid cron expression was provided.
    InvalidCron,
    /// An error occurred during a scheduler tick.
    TickError,
    /// A task was built without a schedule.
    NoSchedule,
    /// A schedule was built without a task.
    NoTask,
}

impl SkedgyError {
    /// The human-readable description of the error.
    pub fn message(&self) -> (r: &'static str)
        ensures
            *self == SkedgyError::SendError ==> r@ == "Error sending message to scheduler"@,
            *self == SkedgyError::RecvError ==> r@ == "Error receiving message from scheduler"@,
            *self == SkedgyError::InvalidCron ==> r@ == "Invalid cron expression"@,
            *self == SkedgyError::TickError ==> r@ == "Error during scheduler tick"@,
            *self == SkedgyError::NoSchedule ==> r@ == "No schedule was set for the task"@,
            *self == SkedgyError::NoTask ==> r@ == "No task was set for the schedule"@,
    {
        match self {
            SkedgyError::SendError => "Error sending message to scheduler",
            SkedgyError::RecvError => "Error receiving message from scheduler",
            SkedgyError::InvalidCron => "Invalid cron expression",
            SkedgyError::TickError => "Error during scheduler tick",
            SkedgyError::NoSchedule => "No schedule was set for the task",
            SkedgyError::NoTask => "No task was set for the schedule",
        }
    }
}

} // verus!
