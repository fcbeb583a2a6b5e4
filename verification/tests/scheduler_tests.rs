use gunship::scheduler::NextWork;
use gunship::scheduler::Scheduler;
use gunship::scheduler::Work;
use gunship::scheduler::WorkId;

fn work(id: usize) -> Work<&'static str> {
    Work { func: "job", id: WorkId(id) }
}

fn next_work_id(scheduler: &mut Scheduler<&'static str, char>) -> Option<usize> {
    match scheduler.next() {
        Some(NextWork::Work(work)) => Some(work.id.0),
        _ => None,
    }
}

fn next_fiber(scheduler: &mut Scheduler<&'static str, char>) -> Option<char> {
    match scheduler.next() {
        Some(NextWork::Fiber(fiber)) => Some(fiber),
        _ => None,
    }
}

#[test]
fn new_work_runs_first_in_order() {
    let mut scheduler: Scheduler<&'static str, char> = Scheduler::new();
    assert!(scheduler.next().is_none());
    scheduler.schedule_work(work(1));
    scheduler.schedule_work(work(2));
    assert_eq!(next_work_id(&mut scheduler), Some(1));
    assert_eq!(next_work_id(&mut scheduler), Some(2));
    assert!(scheduler.next().is_none());
}

#[test]
fn dependency_on_finished_work_does_not_wait() {
    let mut scheduler: Scheduler<&'static str, char> = Scheduler::new();
    assert!(!scheduler.add_dependency(10, WorkId(1)));
}

#[test]
fn waiting_fiber_is_ready_once_its_work_finishes() {
    let mut scheduler: Scheduler<&'static str, char> = Scheduler::new();
    scheduler.schedule_work(work(1));
    // Fiber 10 awaits work 1 and suspends.
    assert!(scheduler.add_dependency(10, WorkId(1)));
    scheduler.handle_suspended(10, 'a');
    assert_eq!(next_work_id(&mut scheduler), Some(1));
    assert!(scheduler.next().is_none());
    // Fiber 20 runs work 1 to completion.
    scheduler.start_work(20, WorkId(1));
    scheduler.finish_work(20, WorkId(1));
    assert_eq!(next_fiber(&mut scheduler), Some('a'));
    // Work 1 is done, so awaiting it again returns at once.
    assert!(!scheduler.add_dependency(10, WorkId(1)));
}

#[test]
fn fiber_released_before_suspending_is_not_queued() {
    let mut scheduler: Scheduler<&'static str, char> = Scheduler::new();
    scheduler.schedule_work(work(1));
    assert!(scheduler.add_dependency(10, WorkId(1)));
    assert_eq!(next_work_id(&mut scheduler), Some(1));
    scheduler.start_work(20, WorkId(1));
    scheduler.finish_work(20, WorkId(1));
    // Fiber 10 no longer waits, but it never suspended, so there is nothing to resume.
    assert!(scheduler.next().is_none());
    assert_eq!(scheduler.next_fiber(), None);
}

#[test]
fn suspended_fibers_are_filed_by_state() {
    let mut scheduler: Scheduler<&'static str, char> = Scheduler::new();
    scheduler.schedule_work(work(1));
    scheduler.start_work(30, WorkId(1));
    // Fiber 30 still has work, so it is ready; fiber 40 has none, so it is finished.
    scheduler.handle_suspended(30, 'x');
    scheduler.handle_suspended(40, 'y');
    assert_eq!(scheduler.next_fiber(), Some('x'));
    assert_eq!(scheduler.next_fiber(), Some('y'));
    assert_eq!(scheduler.next_fiber(), None);
}
