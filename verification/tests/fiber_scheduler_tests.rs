use gunship::asynchronous::Future;
use gunship::asynchronous::scheduler::Scheduler;

#[test]
fn ready_fibers_run_last_in_first_out() {
    let mut scheduler = Scheduler::new();
    assert_eq!(scheduler.next(), None);
    scheduler.schedule(1);
    scheduler.schedule(2);
    assert_eq!(scheduler.next(), Some(2));
    assert_eq!(scheduler.next(), Some(1));
    assert_eq!(scheduler.next(), None);
}

#[test]
fn waiting_schedules_dependencies_that_are_not_running() {
    let mut scheduler = Scheduler::new();
    scheduler.handle_resumed(10, None);
    scheduler.handle_resumed(11, Some(10));
    scheduler.handle_resumed(10, None);
    // Fibers 10 and 11 are running now.
    scheduler.wait_for_all(10, &vec![11, 12, 13]);
    assert_eq!(scheduler.next(), Some(13));
    assert_eq!(scheduler.next(), Some(12));
    assert_eq!(scheduler.next(), None);
}

#[test]
fn finishing_the_last_dependency_releases_the_waiting_fiber() {
    let mut scheduler = Scheduler::new();
    scheduler.wait_for_all(1, &vec![2, 3]);
    scheduler.wait_for(4, 3);
    assert_eq!(scheduler.next(), Some(3));
    assert_eq!(scheduler.next(), Some(3));
    assert_eq!(scheduler.next(), Some(2));
    scheduler.finish(3);
    // Fiber 4 waited only for 3; fiber 1 still waits for 2.
    assert_eq!(scheduler.next(), Some(4));
    assert_eq!(scheduler.next(), None);
    scheduler.finish(2);
    assert_eq!(scheduler.next(), Some(1));
    assert_eq!(scheduler.next(), None);
}

#[test]
fn waiting_for_nothing_is_released_by_any_finish() {
    let mut scheduler = Scheduler::new();
    scheduler.wait_for_all(7, &Vec::new());
    assert_eq!(scheduler.next(), None);
    scheduler.finish(99);
    assert_eq!(scheduler.next(), Some(7));
}

#[test]
fn resumed_fiber_replaces_the_previous_one() {
    let mut scheduler = Scheduler::new();
    scheduler.handle_resumed(1, None);
    scheduler.finish(1);
    scheduler.handle_resumed(2, Some(1));
    // Fiber 1 no longer runs, so waiting for it schedules it again.
    scheduler.wait_for(3, 1);
    assert_eq!(scheduler.next(), Some(1));
}

struct Countdown(u32);

impl Future for Countdown {
    type Item = u32;
    type Error = &'static str;

    fn run(&mut self) -> Result<u32, &'static str> {
        if self.0 == 0 {
            Err("already done")
        } else {
            self.0 -= 1;
            Ok(self.0)
        }
    }
}

#[test]
fn futures_run_to_an_item_or_an_error() {

    let mut future = Countdown(1);
    assert_eq!(future.run(), Ok(0));
    assert_eq!(future.run(), Err("already done"));
}
