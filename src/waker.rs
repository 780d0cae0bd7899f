use vstd::prelude::*;

verus! {

/// One ownership unit of a task, handed to its computation so that it can
/// ask to be advanced again. It is neither `Clone` nor `Copy`: every copy is
/// made through the executor, which counts it.
#[derive(Debug)]
pub struct Waker {
    task: usize,
}

impl Waker {
    /// The task this handle belongs to.
    pub closed spec fn task(&self) -> usize {
        self.task
    }

    /// Binds a fresh handle to `task`.
    pub(crate) fn from_task(task: usize) -> (w: Waker)
        ensures
            w.task() == task,
    {
        Waker { task }
    }

    /// The identifier of the task this handle belongs to.
    pub fn task_id(&self) -> (r: usize)
        ensures
            r == self.task(),
    {
        self.task
    }
}

} // verus!
