use vstd::prelude::*;

use crate::executor::Executor;

verus! {

/// The scheduling record of one task: how many ownership units are alive
/// for it, and whether its computation has reported that it is done.
#[derive(Debug, Clone, Copy)]
pub struct Task {
    pub(crate) units: u64,
    pub(crate) finished: bool,
}

/// Why [`Task::spawn`] refused to create a task.
#[derive(Debug, Clone, Copy, PartialEq, Eq)]
pub enum SpawnError {
    /// No task is being advanced, so there is no executor to spawn on.
    OutsideTask,
}

impl Task {
    /// The record of a task just created: one unit, held by the queue slot
    /// that it is enqueued under, and not done.
    pub(crate) fn new() -> (t: Task)
        ensures
            t.units == 1,
            !t.finished,
    {
        Task { units: 1, finished: false }
    }

    /// Creates a sibling of the task being advanced, on the same executor,
    /// and enqueues it. Outside any advance it fails and changes nothing.
    pub fn spawn(exec: &mut Executor) -> (r: Result<usize, SpawnError>)
        requires
            old(exec).wf(),
            old(exec).num_tasks() < usize::MAX,
        ensures
            final(exec).wf(),
            match r {
                Ok(id) => {
                    &&& old(exec).advancing() is Some
                    &&& Executor::spawned(*old(exec), *final(exec), id)
                },
                Err(e) => {
                    &&& old(exec).advancing() is None
                    &&& e == SpawnError::OutsideTask
                    &&& *final(exec) == *old(exec)
                },
            },
    {
        match exec.current_task() {
            Some(_) => Ok(exec.spawn()),
            None => Err(SpawnError::OutsideTask),
        }
    }
}

} // verus!
