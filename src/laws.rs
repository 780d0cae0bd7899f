use vstd::prelude::*;

use crate::executor::{count_in, Executor, Poll, Step};
use crate::futures::{Timer, TimerPoll};
use crate::waker::Waker;

verus! {

/// Tasks spawned one after another are queued in the order of their
/// spawns, behind what was queued before, under increasing identifiers.
pub proof fn lemma_spawns_queue_in_order(states: Seq<Executor>, ids: Seq<usize>)
    requires
        states.len() == ids.len() + 1,
        forall|i: int|
            0 <= i < ids.len() ==> Executor::spawned(states[i], #[trigger] states[i + 1], ids[i]),
    ensures
        states.last().queue() == states[0].queue() + ids,
        forall|i: int, j: int| 0 <= i < j < ids.len() ==> ids[i] < ids[j],
    decreases ids.len(),
{
    if ids.len() > 0 {
        let n = ids.len() - 1;
        lemma_spawns_queue_in_order(states.drop_last(), ids.drop_last());
        assert(Executor::spawned(states[n], states[n + 1], ids[n]));
        assert(states.drop_last().last() == states[n]);
        assert(states[0].queue() + ids =~= (states[0].queue() + ids.drop_last()).push(ids[n]));
        assert forall|i: int, j: int| 0 <= i < j < ids.len() implies ids[i] < ids[j] by {
            if j == n {
                lemma_spawned_ids_grow(states.drop_last(), ids.drop_last(), i);
            } else {
                assert(ids.drop_last()[i] < ids.drop_last()[j]);
            }
        }
    }
}

/// Each spawn of a sequence creates one more task.
proof fn lemma_spawned_ids_grow(states: Seq<Executor>, ids: Seq<usize>, i: int)
    requires
        states.len() == ids.len() + 1,
        forall|k: int|
            0 <= k < ids.len() ==> Executor::spawned(states[k], #[trigger] states[k + 1], ids[k]),
        0 <= i < ids.len(),
    ensures
        ids[i] < states.last().num_tasks(),
    decreases ids.len(),
{
    let n = ids.len() - 1;
    assert(Executor::spawned(states[n], states[n + 1], ids[n]));
    if i < n {
        lemma_spawned_ids_grow(states.drop_last(), ids.drop_last(), i);
        assert(states.drop_last().last() == states[n]);
    }
}

/// Tasks spawned on an empty queue are advanced in the order of their
/// spawns: the queue holds exactly them, first spawn in front, and the next
/// decision of the drive loop advances the first one.
pub proof fn lemma_fifo_order(states: Seq<Executor>, ids: Seq<usize>, after: Executor, s: Step)
    requires
        states.len() == ids.len() + 1,
        ids.len() > 0,
        forall|i: int|
            0 <= i < ids.len() ==> Executor::spawned(states[i], #[trigger] states[i + 1], ids[i]),
        states[0].queue().len() == 0,
        Executor::stepped(states.last(), after, s),
    ensures
        states.last().queue() == ids,
        s is Advance,
        s->Advance_0.task() == ids[0],
        after.queue() == ids.drop_first(),
{
    lemma_spawns_queue_in_order(states, ids);
    assert(states[0].queue() + ids =~= ids);
    lemma_spawned_stays_unfinished(states, ids, 0);
}

/// A task created in a sequence of spawns is not done at its end.
proof fn lemma_spawned_stays_unfinished(states: Seq<Executor>, ids: Seq<usize>, i: int)
    requires
        states.len() == ids.len() + 1,
        forall|k: int|
            0 <= k < ids.len() ==> Executor::spawned(states[k], #[trigger] states[k + 1], ids[k]),
        0 <= i < ids.len(),
    ensures
        !states.last().is_finished(ids[i]),
    decreases ids.len(),
{
    let n = ids.len() - 1;
    assert(Executor::spawned(states[n], states[n + 1], ids[n]));
    if i < n {
        lemma_spawned_stays_unfinished(states.drop_last(), ids.drop_last(), i);
        assert(states.drop_last().last() == states[n]);
        lemma_spawned_ids_grow(states.drop_last(), ids.drop_last(), i);
    }
}

/// The state before the `k`-th decision of a run in which every advanced
/// task finishes: the queued tasks from the `k`-th on, none of them done.
spec fn fifo_run_at(states: Seq<Executor>, ids: Seq<usize>, k: int) -> bool {
    &&& states[2 * k].queue() == ids.subrange(k, ids.len() as int)
    &&& forall|j: int|
        k <= j < ids.len() ==> #[trigger] ids[j] < states[2 * k].num_tasks() && !states[2
            * k].is_finished(ids[j])
}

/// The steps of a run: each decision of the drive loop, followed, when it
/// advances a task, by the end of that advance with the task done.
pub open spec fn finishing_run(states: Seq<Executor>, steps: Seq<Step>) -> bool {
    &&& states.len() == 2 * steps.len() + 1
    &&& forall|k: int|
        0 <= k < steps.len() ==> Executor::stepped(
            states[2 * k],
            states[2 * k + 1],
            #[trigger] steps[k],
        )
    &&& forall|k: int|
        0 <= k < steps.len() && (#[trigger] steps[k] is Advance) ==> Executor::advanced(
            states[2 * k + 1],
            states[2 * k + 2],
            steps[k]->Advance_0.task(),
            Poll::Ready,
        )
}

proof fn lemma_fifo_run_prefix(states: Seq<Executor>, steps: Seq<Step>, ids: Seq<usize>, k: int)
    requires
        finishing_run(states, steps),
        steps.len() == ids.len(),
        fifo_run_at(states, ids, 0),
        forall|i: int, j: int| 0 <= i < j < ids.len() ==> ids[i] != ids[j],
        0 <= k <= ids.len(),
    ensures
        fifo_run_at(states, ids, k),
    decreases k,
{
    if k > 0 {
        let p = k - 1;
        lemma_fifo_run_prefix(states, steps, ids, p);
        assert(Executor::stepped(states[2 * p], states[2 * p + 1], steps[p]));
        let t = ids[p];
        assert(ids.subrange(p, ids.len() as int)[0] == t);
        assert(t < states[2 * p].num_tasks() && !states[2 * p].is_finished(t));
        assert(Executor::advanced(states[2 * p + 1], states[2 * p + 2], t, Poll::Ready));
        assert(2 * p + 2 == 2 * k);
        assert(ids.subrange(p, ids.len() as int).drop_first() =~= ids.subrange(k, ids.len() as int));
        assert forall|j: int| k <= j < ids.len() implies #[trigger] ids[j] < states[2
            * k].num_tasks() && !states[2 * k].is_finished(ids[j]) by {
            assert(ids[j] < states[2 * p].num_tasks() && !states[2 * p].is_finished(ids[j]));
            assert(ids[j] != t);
        }
    }
}

/// Distinct tasks queued in some order, none of them done, each of which
/// finishes on its first advance, are advanced in exactly that order.
pub proof fn lemma_fifo_run(states: Seq<Executor>, steps: Seq<Step>, ids: Seq<usize>)
    requires
        finishing_run(states, steps),
        steps.len() == ids.len(),
        states[0].queue() == ids,
        forall|i: int, j: int| 0 <= i < j < ids.len() ==> ids[i] != ids[j],
        forall|j: int|
            0 <= j < ids.len() ==> #[trigger] ids[j] < states[0].num_tasks()
                && !states[0].is_finished(ids[j]),
    ensures
        forall|k: int|
            0 <= k < ids.len() ==> #[trigger] steps[k] is Advance && steps[k]->Advance_0.task()
                == ids[k],
{
    assert(ids.subrange(0, ids.len() as int) =~= ids);
    assert forall|k: int| 0 <= k < ids.len() implies #[trigger] steps[k] is Advance
        && steps[k]->Advance_0.task() == ids[k] by {
        lemma_fifo_run_prefix(states, steps, ids, k);
        assert(Executor::stepped(states[2 * k], states[2 * k + 1], steps[k]));
        assert(ids.subrange(k, ids.len() as int)[0] == ids[k]);
        assert(ids[k] < states[2 * k].num_tasks() && !states[2 * k].is_finished(ids[k]));
    }
}

/// A task that suspends once, keeping a copy of its waker, and is woken
/// once through that copy is queued exactly once more, and advanced again by
/// the next decision of the drive loop.
pub proof fn lemma_wake_readmits_once(
    e0: Executor,
    e1: Executor,
    e2: Executor,
    e3: Executor,
    e4: Executor,
    e5: Executor,
    t: usize,
    first: Step,
    second: Step,
)
    requires
        e0.wf(),
        e0.queue() == seq![t],
        !e0.is_finished(t),
        Executor::stepped(e0, e1, first),
        Executor::cloned(e1, e2, t),
        Executor::advanced(e2, e3, t, Poll::Pending),
        Executor::woken(e3, e4, t),
        Executor::stepped(e4, e5, second),
    ensures
        first is Advance,
        first->Advance_0.task() == t,
        e3.queue().len() == 0,
        e4.queue() == seq![t],
        second is Advance,
        second->Advance_0.task() == t,
        e5.queue().len() == 0,
{
    assert(e0.queue().drop_first() =~= Seq::<usize>::empty());
    assert(Seq::<usize>::empty().push(t) =~= seq![t]);
}

/// Every ownership unit of a task is a queue slot or a live waker. So a task
/// is released exactly when nothing holds it any more; and a released task
/// stands nowhere in the queue and has no live waker, so that no operation
/// can reach it, and it is never released a second time.
pub proof fn lemma_units_cover_holders(e: Executor, t: usize)
    requires
        e.wf(),
        t < e.num_tasks(),
    ensures
        e.units(t) == count_in(e.queue(), t) + e.handles(t),
        e.units(t) == 0 <==> (!e.queue().contains(t) && e.handles(t) == 0),
        e.units(t) == 0 ==> forall|w: Waker| w.task() == t ==> !e.holds_waker(w),
{
    broadcast use vstd::seq_lib::group_to_multiset_ensures;

    assert(e.units(t) == count_in(e.queue(), t) + e.handles(t));
}

/// Waking twice through the same waker without using it up queues its task
/// twice, and the waker is still live for a third wake.
pub proof fn lemma_wake_by_ref_twice(e0: Executor, e1: Executor, e2: Executor, w: Waker)
    requires
        e0.wf(),
        e0.holds_waker(w),
        Executor::woken_by_ref(e0, e1, w.task()),
        Executor::woken_by_ref(e1, e2, w.task()),
    ensures
        e2.queue() == e0.queue().push(w.task()).push(w.task()),
        e2.units(w.task()) == e0.units(w.task()) + 2,
        e2.holds_waker(w),
{
}

/// With an empty queue, its own handle dropped and no live task, the next
/// decision of the drive loop is to exit.
pub proof fn lemma_drained_exits(e0: Executor, e1: Executor, s: Step)
    requires
        e0.wf(),
        e0.queue().len() == 0,
        !e0.holds_own_handle(),
        forall|t: usize| t < e0.num_tasks() ==> #[trigger] e0.units(t) == 0,
        Executor::stepped(e0, e1, s),
    ensures
        s == Step::Exit,
{
}

/// A timer made at `created` for `d` is done on a poll exactly when `d` has
/// elapsed; while it is pending, the wake it asks for comes no earlier than
/// `d` after `created`.
pub proof fn lemma_timer_never_early(timer: Timer, created: u64, d: u64, now: u64, r: TimerPoll)
    requires
        timer.deadline() == created + d,
        timer.polled(now, r),
    ensures
        r == TimerPoll::Ready <==> now >= created + d,
        r matches TimerPoll::Pending(left) ==> now + left >= created + d,
{
}

} // verus!
