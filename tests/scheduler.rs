use simple_async::executor::{Executor, Poll, Step};
use simple_async::futures::{sleep, TimerPoll};
use simple_async::task::{SpawnError, Task};
use simple_async::waker::Waker;

fn advance(exec: &mut Executor) -> Waker {
    match exec.next() {
        Step::Advance(w) => w,
        other => panic!("expected an advance, got {:?}", other),
    }
}

#[test]
fn fifo_order_of_spawns() {
    let mut exec = Executor::new();
    let a = exec.spawn();
    let b = exec.spawn();
    let c = exec.spawn();
    assert_eq!(exec.queued(), vec![a, b, c]);
    exec.close();
    let mut order = Vec::new();
    for _ in 0..3 {
        let w = advance(&mut exec);
        order.push(w.task_id());
        assert!(exec.end_advance(w, Poll::Ready));
    }
    assert_eq!(order, vec![a, b, c]);
    assert!(matches!(exec.next(), Step::Exit));
}

#[test]
fn wake_once_gives_one_more_advance() {
    let mut exec = Executor::new();
    let t = exec.spawn();
    exec.close();
    let mut advances = 0;
    let w = advance(&mut exec);
    advances += 1;
    let kept = exec.clone_waker(&w);
    assert!(!exec.end_advance(w, Poll::Pending));
    assert!(matches!(exec.next(), Step::Wait));
    exec.wake(kept);
    assert_eq!(exec.queued(), vec![t]);
    let w = advance(&mut exec);
    advances += 1;
    assert_eq!(w.task_id(), t);
    assert!(exec.end_advance(w, Poll::Ready));
    assert!(matches!(exec.next(), Step::Exit));
    assert_eq!(advances, 2);
}

#[test]
fn ownership_released_once_after_last_unit() {
    let mut exec = Executor::new();
    let t = exec.spawn();
    exec.close();
    let w = advance(&mut exec);
    assert_eq!(exec.units_of(t), 1);
    let c1 = exec.clone_waker(&w);
    let c2 = exec.clone_waker(&c1);
    assert_eq!(exec.units_of(t), 3);
    assert!(!exec.end_advance(w, Poll::Pending));
    assert!(!exec.drop_waker(c1));
    assert_eq!(exec.units_of(t), 1);
    exec.wake_by_ref(&c2);
    assert_eq!(exec.units_of(t), 2);
    assert!(!exec.drop_waker(c2));
    assert_eq!(exec.units_of(t), 1);
    let w = advance(&mut exec);
    assert!(exec.end_advance(w, Poll::Ready));
    assert_eq!(exec.units_of(t), 0);
    assert!(matches!(exec.next(), Step::Exit));
}

#[test]
fn suspended_without_waker_is_released() {
    let mut exec = Executor::new();
    let t = exec.spawn();
    exec.close();
    let w = advance(&mut exec);
    assert!(exec.end_advance(w, Poll::Pending));
    assert!(!exec.is_done(t));
    assert_eq!(exec.units_of(t), 0);
    assert!(matches!(exec.next(), Step::Exit));
}

#[test]
fn wake_by_ref_twice_keeps_waker() {
    let mut exec = Executor::new();
    let t = exec.spawn();
    let w = advance(&mut exec);
    let kept = exec.clone_waker(&w);
    exec.end_advance(w, Poll::Pending);
    exec.wake_by_ref(&kept);
    exec.wake_by_ref(&kept);
    assert_eq!(exec.queued(), vec![t, t]);
    exec.wake_by_ref(&kept);
    assert_eq!(exec.queued(), vec![t, t, t]);
    assert_eq!(exec.units_of(t), 4);
}

#[test]
fn finished_task_slot_is_skipped() {
    let mut exec = Executor::new();
    let t = exec.spawn();
    exec.close();
    let w = advance(&mut exec);
    let kept = exec.clone_waker(&w);
    exec.end_advance(w, Poll::Pending);
    exec.wake_by_ref(&kept);
    exec.wake(kept);
    let w = advance(&mut exec);
    assert!(!exec.end_advance(w, Poll::Ready));
    assert!(exec.is_done(t));
    assert!(matches!(exec.next(), Step::Skip(s) if s == t));
    assert_eq!(exec.units_of(t), 0);
    assert!(matches!(exec.next(), Step::Exit));
}

#[test]
fn drained_executor_exits() {
    let mut exec = Executor::new();
    assert!(matches!(exec.next(), Step::Wait));
    assert!(exec.has_own_handle());
    exec.close();
    assert!(!exec.has_own_handle());
    assert!(matches!(exec.next(), Step::Exit));
}

#[test]
fn waits_while_a_waker_is_held() {
    let mut exec = Executor::new();
    exec.spawn();
    exec.close();
    let w = advance(&mut exec);
    let kept = exec.clone_waker(&w);
    exec.end_advance(w, Poll::Pending);
    assert!(matches!(exec.next(), Step::Wait));
    assert!(exec.drop_waker(kept));
    assert!(matches!(exec.next(), Step::Exit));
}

#[test]
fn nested_spawn_inside_advance() {
    let mut exec = Executor::new();
    let parent = exec.spawn();
    exec.close();
    let w = advance(&mut exec);
    assert_eq!(exec.current_task(), Some(parent));
    let child = Task::spawn(&mut exec).unwrap();
    assert_eq!(child, parent + 1);
    assert_eq!(exec.queued(), vec![child]);
    assert!(exec.end_advance(w, Poll::Ready));
    assert_eq!(exec.current_task(), None);
    let w = advance(&mut exec);
    assert_eq!(w.task_id(), child);
    assert!(exec.end_advance(w, Poll::Ready));
    assert!(matches!(exec.next(), Step::Exit));
}

#[test]
fn spawn_outside_advance_fails() {
    let mut exec = Executor::new();
    assert_eq!(Task::spawn(&mut exec), Err(SpawnError::OutsideTask));
    assert_eq!(exec.task_count(), 0);
    assert!(exec.queued().is_empty());
    exec.spawn();
    assert_eq!(Task::spawn(&mut exec), Err(SpawnError::OutsideTask));
    assert_eq!(exec.task_count(), 1);
    assert_eq!(exec.queued().len(), 1);
}

#[test]
fn timer_pending_then_ready() {
    let t = sleep(100, 50);
    assert_eq!(t.end(), 150);
    assert_eq!(t.poll(100), TimerPoll::Pending(50));
    assert_eq!(t.poll(120), TimerPoll::Pending(30));
    assert_eq!(t.poll(150), TimerPoll::Ready);
    assert_eq!(t.poll(1000), TimerPoll::Ready);
}

#[test]
fn timer_of_zero_is_ready_at_once() {
    let t = sleep(7, 0);
    assert_eq!(t.poll(7), TimerPoll::Ready);
}
