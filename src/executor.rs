use std::collections::VecDeque;
use vstd::prelude::*;

use crate::task::Task;
use crate::waker::Waker;

verus! {

/// How many times `t` stands in `q`.
pub open spec fn count_in(q: Seq<usize>, t: usize) -> nat {
    q.to_multiset().count(t)
}

proof fn lemma_count_push(q: Seq<usize>, x: usize, t: usize)
    ensures
        count_in(q.push(x), t) == count_in(q, t) + (if x == t { 1nat } else { 0nat }),
{
    broadcast use vstd::seq_lib::group_to_multiset_ensures;
}

proof fn lemma_count_drop_first(q: Seq<usize>, t: usize)
    requires
        q.len() > 0,
    ensures
        count_in(q, t) == count_in(q.drop_first(), t) + (if q[0] == t { 1nat } else { 0nat }),
{
    broadcast use vstd::seq_lib::group_to_multiset_ensures;

    assert(q.remove(0) =~= q.drop_first());
}

/// A task identifier that is not yet created stands nowhere in the queue.
proof fn lemma_fresh_not_queued(e: Executor, id: usize)
    requires
        e.wf(),
        id >= e.num_tasks(),
    ensures
        count_in(e.queue(), id) == 0,
{
    broadcast use vstd::seq_lib::group_to_multiset_ensures;

    if e.queue().contains(id) {
        let i = choose|i: int| 0 <= i < e.queue().len() && e.queue()[i] == id;
        assert(e.queue()[i] < e.num_tasks());
    }
}

/// What a computation reports when one advance of it ends.
#[derive(Debug, Clone, Copy, PartialEq, Eq)]
pub enum Poll {
    /// The computation is done; its task is never advanced again.
    Ready,
    /// The computation suspended; it is advanced again once woken.
    Pending,
}

/// One decision of the drive loop.
#[derive(Debug)]
pub enum Step {
    /// Advance the computation of the waker's task, handing it the waker;
    /// then report the outcome with [`Executor::end_advance`].
    Advance(Waker),
    /// The front slot named a task whose computation is already done: the
    /// slot was dropped without advancing anything.
    Skip(usize),
    /// The queue is empty but a producer is left: block until a task is woken.
    Wait,
    /// The queue is empty and no producer is left: the drive loop is over.
    Exit,
}

/// A change that touches task `t` alone keeps the executor well formed when
/// it leaves the queue as it was, pushes `t` at the back, or takes `t` off
/// the front, and keeps the count of `t` right.
proof fn lemma_wf_after(pre: Executor, post: Executor, t: usize)
    requires
        pre.wf(),
        post.storage_ok(),
        t < pre.num_tasks(),
        post.num_tasks() == pre.num_tasks(),
        Executor::others_unchanged(pre, post, t),
        post.queue() == pre.queue() || post.queue() == pre.queue().push(t) || (pre.queue().len()
            > 0 && pre.queue()[0] == t && post.queue() == pre.queue().drop_first()),
        post.units(t) == count_in(post.queue(), t) + post.handles(t),
        post.advancing() matches Some(c) ==> c < pre.num_tasks(),
    ensures
        post.wf(),
{
    assert forall|i: int| 0 <= i < post.queue().len() implies post.queue()[i]
        < post.num_tasks() by {
        if post.queue() == pre.queue() {
            assert(pre.queue()[i] < pre.num_tasks());
        } else if post.queue() == pre.queue().push(t) {
            if i < pre.queue().len() {
                assert(pre.queue()[i] < pre.num_tasks());
            }
        } else {
            assert(pre.queue()[i + 1] < pre.num_tasks());
        }
    }
    assert forall|u: usize| u < post.num_tasks() implies #[trigger] post.units(u) == count_in(
        post.queue(),
        u,
    ) + post.handles(u) by {
        if u != t {
            assert(pre.units(u) == count_in(pre.queue(), u) + pre.handles(u));
            if post.queue() == pre.queue().push(t) {
                lemma_count_push(pre.queue(), t, u);
            } else if post.queue() != pre.queue() {
                lemma_count_drop_first(pre.queue(), u);
            }
        }
    }
}

/// Drives tasks in first-in, first-out order on a single thread.
///
/// Each task owns some ownership units: one per queue slot that holds it and
/// one per live [`Waker`] bound to it. A task whose count drops to zero is
/// released. The executor holds a producer handle of its own until
/// [`Executor::close`], and every live task holds one too; the drive loop
/// ends once the queue is empty and no producer is left.
pub struct Executor {
    queue: VecDeque<usize>,
    tasks: Vec<Task>,
    handles: Ghost<Seq<nat>>,
    own_handle: bool,
    current: Option<usize>,
}

impl Executor {
    /// The task identifiers waiting to be advanced, front first.
    pub closed spec fn queue(&self) -> Seq<usize> {
        self.queue@
    }

    /// How many tasks have been created so far.
    pub closed spec fn num_tasks(&self) -> nat {
        self.tasks@.len()
    }

    /// The live ownership units of task `t`.
    pub closed spec fn units(&self, t: usize) -> nat {
        self.tasks@[t as int].units as nat
    }

    /// Whether the computation of task `t` has reported that it is done.
    pub closed spec fn is_finished(&self, t: usize) -> bool {
        self.tasks@[t as int].finished
    }

    /// How many live [`Waker`]s are bound to task `t`.
    pub closed spec fn handles(&self, t: usize) -> nat {
        self.handles@[t as int]
    }

    /// Whether the executor still holds its own producer handle.
    pub closed spec fn holds_own_handle(&self) -> bool {
        self.own_handle
    }

    /// The task being advanced, if any: the spawn context.
    pub closed spec fn advancing(&self) -> Option<usize> {
        self.current
    }

    /// The ghost count of wakers covers every task.
    pub closed spec fn storage_ok(&self) -> bool {
        self.handles@.len() == self.tasks@.len()
    }

    /// Every ownership unit of a task is a queue slot or a live waker, and
    /// every identifier that the executor speaks of names a created task.
    pub open spec fn wf(&self) -> bool {
        &&& self.storage_ok()
        &&& forall|i: int| 0 <= i < self.queue().len() ==> self.queue()[i] < self.num_tasks()
        &&& forall|t: usize|
            t < self.num_tasks() ==> #[trigger] self.units(t) == count_in(self.queue(), t)
                + self.handles(t)
        &&& (self.advancing() matches Some(t) ==> t < self.num_tasks())
    }

    /// Whether some task still has a live ownership unit.
    pub open spec fn has_live_task(&self) -> bool {
        exists|t: usize| t < self.num_tasks() && #[trigger] self.units(t) > 0
    }

    /// Tasks other than `t` keep their units, wakers and state.
    pub open spec fn others_unchanged(pre: Executor, post: Executor, t: usize) -> bool {
        &&& forall|u: usize|
            u < pre.num_tasks() && u != t ==> #[trigger] post.units(u) == pre.units(u)
        &&& forall|u: usize|
            u < pre.num_tasks() && u != t ==> #[trigger] post.handles(u) == pre.handles(u)
        &&& forall|u: usize|
            u < pre.num_tasks() && u != t ==> #[trigger] post.is_finished(u) == pre.is_finished(u)
    }

    /// A new task `id` was created with one unit, held by the slot pushed
    /// at the back of the queue.
    pub open spec fn spawned(pre: Executor, post: Executor, id: usize) -> bool {
        &&& id == pre.num_tasks()
        &&& post.num_tasks() == pre.num_tasks() + 1
        &&& post.queue() == pre.queue().push(id)
        &&& post.units(id) == 1
        &&& post.handles(id) == 0
        &&& !post.is_finished(id)
        &&& Executor::others_unchanged(pre, post, id)
        &&& post.holds_own_handle() == pre.holds_own_handle()
        &&& post.advancing() == pre.advancing()
    }

    /// A fresh executor: no task, an empty queue, its own producer handle
    /// held, and no task being advanced.
    pub fn new() -> (e: Executor)
        ensures
            e.wf(),
            e.num_tasks() == 0,
            e.queue().len() == 0,
            e.holds_own_handle(),
            e.advancing() is None,
    {
        Executor {
            queue: VecDeque::new(),
            tasks: Vec::new(),
            handles: Ghost(Seq::empty()),
            own_handle: true,
            current: None,
        }
    }

    /// Creates a task and enqueues it; returns its identifier, under which
    /// the caller keeps the task's computation.
    pub fn spawn(&mut self) -> (id: usize)
        requires
            old(self).wf(),
            old(self).num_tasks() < usize::MAX,
        ensures
            final(self).wf(),
            Executor::spawned(*old(self), *final(self), id),
    {
        let id = self.tasks.len();
        let ghost pre = *self;
        self.tasks.push(Task::new());
        self.handles = Ghost(self.handles@.push(0nat));
        self.queue.push_back(id);
        proof {
            assert forall|i: int| 0 <= i < self.queue().len() implies self.queue()[i]
                < self.num_tasks() by {
                if i < pre.queue().len() {
                    assert(pre.queue()[i] < pre.num_tasks());
                }
            }
            assert forall|t: usize| t < self.num_tasks() implies #[trigger] self.units(t) == count_in(
                self.queue(),
                t,
            ) + self.handles(t) by {
                lemma_count_push(pre.queue(), id, t);
                if t < id {
                    assert(pre.units(t) == count_in(pre.queue(), t) + pre.handles(t));
                } else {
                    lemma_fresh_not_queued(pre, id);
                }
            }
        }
        id
    }

    /// Whether `w` is a live waker of a created task.
    pub open spec fn holds_waker(&self, w: Waker) -> bool {
        w.task() < self.num_tasks() && self.handles(w.task()) > 0
    }

    /// Everything but the queue, the units and the wakers of `t` is as it was.
    pub open spec fn framed(pre: Executor, post: Executor, t: usize) -> bool {
        &&& post.num_tasks() == pre.num_tasks()
        &&& post.holds_own_handle() == pre.holds_own_handle()
        &&& post.advancing() == pre.advancing()
        &&& post.is_finished(t) == pre.is_finished(t)
        &&& Executor::others_unchanged(pre, post, t)
    }

    /// One decision of the drive loop: on an empty queue, wait while a
    /// producer is left and exit otherwise; else take the front slot, drop it
    /// if its task is done, or hand its unit to a fresh waker and make that
    /// task the one being advanced.
    pub open spec fn stepped(pre: Executor, post: Executor, s: Step) -> bool {
        if pre.queue().len() == 0 {
            &&& post == pre
            &&& s == (if pre.holds_own_handle() || pre.has_live_task() {
                Step::Wait
            } else {
                Step::Exit
            })
        } else {
            let t = pre.queue()[0];
            &&& post.queue() == pre.queue().drop_first()
            &&& post.num_tasks() == pre.num_tasks()
            &&& post.holds_own_handle() == pre.holds_own_handle()
            &&& post.is_finished(t) == pre.is_finished(t)
            &&& Executor::others_unchanged(pre, post, t)
            &&& if pre.is_finished(t) {
                &&& s == Step::Skip(t)
                &&& post.units(t) + 1 == pre.units(t)
                &&& post.handles(t) == pre.handles(t)
                &&& post.advancing() == pre.advancing()
            } else {
                &&& s is Advance
                &&& s->Advance_0.task() == t
                &&& post.units(t) == pre.units(t)
                &&& post.handles(t) == pre.handles(t) + 1
                &&& post.advancing() == Some(t)
            }
        }
    }

    /// The advance of `t` ended with `outcome`: its waker was dropped, the
    /// outcome recorded, and the spawn context cleared.
    pub open spec fn advanced(pre: Executor, post: Executor, t: usize, outcome: Poll) -> bool {
        &&& post.queue() == pre.queue()
        &&& post.num_tasks() == pre.num_tasks()
        &&& post.holds_own_handle() == pre.holds_own_handle()
        &&& post.advancing() is None
        &&& post.is_finished(t) == (outcome == Poll::Ready)
        &&& post.units(t) + 1 == pre.units(t)
        &&& post.handles(t) + 1 == pre.handles(t)
        &&& Executor::others_unchanged(pre, post, t)
    }

    /// A waker of `t` was used up to push `t` at the back of the queue: its
    /// unit moved into the queue slot.
    pub open spec fn woken(pre: Executor, post: Executor, t: usize) -> bool {
        &&& Executor::framed(pre, post, t)
        &&& post.queue() == pre.queue().push(t)
        &&& post.units(t) == pre.units(t)
        &&& post.handles(t) + 1 == pre.handles(t)
    }

    /// A waker of `t` pushed a new unit of `t` at the back of the queue and
    /// stays live.
    pub open spec fn woken_by_ref(pre: Executor, post: Executor, t: usize) -> bool {
        &&& Executor::framed(pre, post, t)
        &&& post.queue() == pre.queue().push(t)
        &&& post.units(t) == pre.units(t) + 1
        &&& post.handles(t) == pre.handles(t)
    }

    /// A waker of `t` was copied: one more unit and one more waker.
    pub open spec fn cloned(pre: Executor, post: Executor, t: usize) -> bool {
        &&& Executor::framed(pre, post, t)
        &&& post.queue() == pre.queue()
        &&& post.units(t) == pre.units(t) + 1
        &&& post.handles(t) == pre.handles(t) + 1
    }

    /// A waker of `t` was discarded without waking: one unit fewer.
    pub open spec fn dropped(pre: Executor, post: Executor, t: usize) -> bool {
        &&& Executor::framed(pre, post, t)
        &&& post.queue() == pre.queue()
        &&& post.units(t) + 1 == pre.units(t)
        &&& post.handles(t) + 1 == pre.handles(t)
    }

    /// Whether some task still has a live ownership unit.
    fn any_live(&self) -> (r: bool)
        requires
            self.wf(),
        ensures
            r == self.has_live_task(),
    {
        let mut i: usize = 0;
        while i < self.tasks.len()
            invariant
                i <= self.tasks.len(),
                forall|u: usize| u < i ==> #[trigger] self.units(u) == 0,
            decreases self.tasks.len() - i,
        {
            if self.tasks[i].units > 0 {
                assert(self.units(i) > 0);
                return true;
            }
            i = i + 1;
        }
        false
    }

    /// Takes one decision of the drive loop (see [`Executor::stepped`]).
    pub fn next(&mut self) -> (s: Step)
        requires
            old(self).wf(),
            old(self).advancing() is None,
        ensures
            final(self).wf(),
            Executor::stepped(*old(self), *final(self), s),
    {
        let ghost pre = *self;
        if self.queue.len() == 0 {
            return if self.own_handle || self.any_live() {
                Step::Wait
            } else {
                Step::Exit
            };
        }
        let t = match self.queue.pop_front() {
            Some(t) => t,
            None => 0,
        };
        proof {
            assert(pre.queue()[0] < pre.num_tasks());
            assert(pre.units(t) == count_in(pre.queue(), t) + pre.handles(t));
            lemma_count_drop_first(pre.queue(), t);
            assert(self.queue@ =~= pre.queue().drop_first());
        }
        let task = self.tasks[t];
        if task.finished {
            self.tasks[t] = Task { units: task.units - 1, finished: true };
            proof {
                lemma_wf_after(pre, *self, t);
            }
            Step::Skip(t)
        } else {
            self.handles = Ghost(self.handles@.update(t as int, self.handles@[t as int] + 1));
            self.current = Some(t);
            proof {
                lemma_wf_after(pre, *self, t);
            }
            Step::Advance(Waker::from_task(t))
        }
    }

    /// Ends the advance of the task that `w` belongs to, with the outcome
    /// that its computation reported. The waker minted for the advance is
    /// dropped; returns whether that released the task.
    pub fn end_advance(&mut self, w: Waker, outcome: Poll) -> (released: bool)
        requires
            old(self).wf(),
            old(self).holds_waker(w),
            old(self).advancing() == Some(w.task()),
        ensures
            final(self).wf(),
            Executor::advanced(*old(self), *final(self), w.task(), outcome),
            released == (final(self).units(w.task()) == 0),
    {
        let ghost pre = *self;
        let t = w.task_id();
        proof {
            assert(pre.units(t) == count_in(pre.queue(), t) + pre.handles(t));
        }
        let units = self.tasks[t].units - 1;
        self.tasks[t] = Task { units, finished: matches!(outcome, Poll::Ready) };
        self.handles = Ghost(self.handles@.update(t as int, (self.handles@[t as int] - 1) as nat));
        self.current = None;
        proof {
            lemma_wf_after(pre, *self, t);
        }
        units == 0
    }

    /// Uses up `w` to push its task at the back of the queue.
    pub fn wake(&mut self, w: Waker)
        requires
            old(self).wf(),
            old(self).holds_waker(w),
        ensures
            final(self).wf(),
            Executor::woken(*old(self), *final(self), w.task()),
    {
        let ghost pre = *self;
        let t = w.task_id();
        self.handles = Ghost(self.handles@.update(t as int, (self.handles@[t as int] - 1) as nat));
        self.queue.push_back(t);
        proof {
            assert(pre.units(t) == count_in(pre.queue(), t) + pre.handles(t));
            lemma_count_push(pre.queue(), t, t);
            lemma_wf_after(pre, *self, t);
        }
    }

    /// Pushes the task of `w` at the back of the queue under a new unit;
    /// `w` stays live.
    pub fn wake_by_ref(&mut self, w: &Waker)
        requires
            old(self).wf(),
            old(self).holds_waker(*w),
            old(self).units(w.task()) < u64::MAX,
        ensures
            final(self).wf(),
            Executor::woken_by_ref(*old(self), *final(self), w.task()),
    {
        let ghost pre = *self;
        let t = w.task_id();
        let task = self.tasks[t];
        self.tasks[t] = Task { units: task.units + 1, finished: task.finished };
        self.queue.push_back(t);
        proof {
            assert(pre.units(t) == count_in(pre.queue(), t) + pre.handles(t));
            lemma_count_push(pre.queue(), t, t);
            lemma_wf_after(pre, *self, t);
        }
    }

    /// A new waker for the task of `w`, under a new unit.
    pub fn clone_waker(&mut self, w: &Waker) -> (r: Waker)
        requires
            old(self).wf(),
            old(self).holds_waker(*w),
            old(self).units(w.task()) < u64::MAX,
        ensures
            final(self).wf(),
            r.task() == w.task(),
            Executor::cloned(*old(self), *final(self), w.task()),
    {
        let ghost pre = *self;
        let t = w.task_id();
        let task = self.tasks[t];
        self.tasks[t] = Task { units: task.units + 1, finished: task.finished };
        self.handles = Ghost(self.handles@.update(t as int, self.handles@[t as int] + 1));
        proof {
            assert(pre.units(t) == count_in(pre.queue(), t) + pre.handles(t));
            lemma_wf_after(pre, *self, t);
        }
        Waker::from_task(t)
    }

    /// Discards `w` without waking; returns whether that released its task.
    pub fn drop_waker(&mut self, w: Waker) -> (released: bool)
        requires
            old(self).wf(),
            old(self).holds_waker(w),
        ensures
            final(self).wf(),
            Executor::dropped(*old(self), *final(self), w.task()),
            released == (final(self).units(w.task()) == 0),
    {
        let ghost pre = *self;
        let t = w.task_id();
        proof {
            assert(pre.units(t) == count_in(pre.queue(), t) + pre.handles(t));
        }
        let task = self.tasks[t];
        let units = task.units - 1;
        self.tasks[t] = Task { units, finished: task.finished };
        self.handles = Ghost(self.handles@.update(t as int, (self.handles@[t as int] - 1) as nat));
        proof {
            lemma_wf_after(pre, *self, t);
        }
        units == 0
    }

    /// Drops the executor's own producer handle, as the drive loop does when
    /// it starts: from then on the loop ends once no task is left.
    pub fn close(&mut self)
        requires
            old(self).wf(),
        ensures
            final(self).wf(),
            !final(self).holds_own_handle(),
            final(self).queue() == old(self).queue(),
            final(self).num_tasks() == old(self).num_tasks(),
            final(self).advancing() == old(self).advancing(),
            forall|u: usize|
                u < old(self).num_tasks() ==> {
                    &&& #[trigger] final(self).units(u) == old(self).units(u)
                    &&& final(self).handles(u) == old(self).handles(u)
                    &&& final(self).is_finished(u) == old(self).is_finished(u)
                },
    {
        let ghost pre = *self;
        self.own_handle = false;
        proof {
            assert forall|t: usize| t < self.num_tasks() implies #[trigger] self.units(t) == count_in(
                self.queue(),
                t,
            ) + self.handles(t) by {
                assert(pre.units(t) == count_in(pre.queue(), t) + pre.handles(t));
            }
            assert forall|i: int| 0 <= i < self.queue().len() implies self.queue()[i]
                < self.num_tasks() by {
                assert(pre.queue()[i] < pre.num_tasks());
            }
        }
    }

    /// The task being advanced, if any.
    pub fn current_task(&self) -> (r: Option<usize>)
        ensures
            r == self.advancing(),
    {
        self.current
    }

    /// How many tasks have been created.
    pub fn task_count(&self) -> (r: usize)
        ensures
            r == self.num_tasks(),
    {
        self.tasks.len()
    }

    /// The live ownership units of task `t`; zero once it is released.
    pub fn units_of(&self, t: usize) -> (r: u64)
        requires
            t < self.num_tasks(),
        ensures
            r == self.units(t),
    {
        self.tasks[t].units
    }

    /// Whether the computation of task `t` has reported that it is done.
    pub fn is_done(&self, t: usize) -> (r: bool)
        requires
            t < self.num_tasks(),
        ensures
            r == self.is_finished(t),
    {
        self.tasks[t].finished
    }

    /// Whether the executor still holds its own producer handle.
    pub fn has_own_handle(&self) -> (r: bool)
        ensures
            r == self.holds_own_handle(),
    {
        self.own_handle
    }

    /// The task identifiers waiting in the queue, front first.
    pub fn queued(&self) -> (r: Vec<usize>)
        ensures
            r@ == self.queue(),
    {
        let mut r: Vec<usize> = Vec::new();
        let mut i: usize = 0;
        while i < self.queue.len()
            invariant
                i <= self.queue@.len(),
                r@ == self.queue@.subrange(0, i as int),
            decreases self.queue@.len() - i,
        {
            r.push(self.queue[i]);
            i = i + 1;
            assert(r@ =~= self.queue@.subrange(0, i as int));
        }
        assert(self.queue@.subrange(0, i as int) =~= self.queue@);
        r
    }
}

impl Default for Executor {
    fn default() -> (e: Executor)
        ensures
            e.wf(),
            e.num_tasks() == 0,
            e.queue().len() == 0,
            e.holds_own_handle(),
            e.advancing() is None,
    {
        Executor::new()
    }
}

} // verus!
