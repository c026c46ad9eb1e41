use portable_async_sleep::request::WakeRequest;
use portable_async_sleep::scheduler::{Cycle, Event, Flow, Scheduler};
use portable_async_sleep::time::{deadline_after, IDLE_WAIT};

const MS: u128 = 1_000_000;

fn sleep_request(now: u128, millis: u128, name: &'static str) -> WakeRequest<&'static str> {
    let deadline: u128 = deadline_after(now, millis * MS).unwrap();
    WakeRequest::new(deadline, name)
}

fn submit(scheduler: &mut Scheduler<&'static str>, request: WakeRequest<&'static str>) {
    assert!(matches!(scheduler.on_event(Event::Arrived(request)), Flow::Continue));
}

fn names(requests: &Vec<WakeRequest<&'static str>>) -> Vec<&'static str> {
    let mut out: Vec<&'static str> = Vec::new();
    for r in requests.iter() {
        out.push(r.completion);
    }
    out
}

#[test]
fn single_sleep_resolves_at_its_deadline_and_not_before() {
    let mut scheduler: Scheduler<&'static str> = Scheduler::new();
    submit(&mut scheduler, sleep_request(0, 100, "a"));

    let cycle: Cycle<&'static str> = scheduler.begin_cycle(0);
    assert!(cycle.resolved.is_empty());
    assert_eq!(cycle.timeout, 100 * MS);

    let cycle: Cycle<&'static str> = scheduler.begin_cycle(100 * MS - 1);
    assert!(cycle.resolved.is_empty());
    assert_eq!(cycle.timeout, 1);
    assert_eq!(scheduler.pending_count(), 1);

    let cycle: Cycle<&'static str> = scheduler.begin_cycle(100 * MS);
    assert_eq!(names(&cycle.resolved), vec!["a"]);
    assert_eq!(cycle.resolved[0].deadline, 100 * MS);
    assert_eq!(cycle.timeout, IDLE_WAIT);
    assert_eq!(scheduler.pending_count(), 0);
}

#[test]
fn single_sleep_resolved_late_is_still_resolved() {
    let mut scheduler: Scheduler<&'static str> = Scheduler::new();
    submit(&mut scheduler, sleep_request(0, 100, "a"));
    let cycle: Cycle<&'static str> = scheduler.begin_cycle(150 * MS);
    assert_eq!(names(&cycle.resolved), vec!["a"]);
    assert_eq!(scheduler.pending_count(), 0);
}

#[test]
fn two_concurrent_sleeps_end_with_the_longer_one() {
    let mut scheduler: Scheduler<&'static str> = Scheduler::new();
    submit(&mut scheduler, sleep_request(0, 100, "short"));
    submit(&mut scheduler, sleep_request(0, 200, "long"));

    let first: Cycle<&'static str> = scheduler.begin_cycle(0);
    assert!(first.resolved.is_empty());
    assert_eq!(first.timeout, 100 * MS);

    let second: Cycle<&'static str> = scheduler.begin_cycle(first.timeout);
    assert_eq!(names(&second.resolved), vec!["short"]);
    assert_eq!(second.timeout, 100 * MS);

    let end: u128 = first.timeout + second.timeout;
    assert_eq!(end, 200 * MS);
    let third: Cycle<&'static str> = scheduler.begin_cycle(end);
    assert_eq!(names(&third.resolved), vec!["long"]);
    assert_eq!(third.timeout, IDLE_WAIT);
    assert_eq!(scheduler.pending_count(), 0);
}

#[test]
fn test_join_2() {
    let mut scheduler: Scheduler<&'static str> = Scheduler::new();
    let mut ready: Vec<&'static str> = Vec::new();

    //kick off all 3
    submit(&mut scheduler, sleep_request(0, 100, "f1"));
    submit(&mut scheduler, sleep_request(0, 10, "f2"));
    submit(&mut scheduler, sleep_request(0, 400, "f3"));
    let cycle: Cycle<&'static str> = scheduler.begin_cycle(0);
    assert!(cycle.resolved.is_empty());
    assert_eq!(cycle.timeout, 10 * MS);

    let mut now: u128 = 15 * MS;
    ready.extend(names(&scheduler.begin_cycle(now).resolved));
    assert!(ready.contains(&"f2"));
    assert!(!ready.contains(&"f1"));
    assert!(!ready.contains(&"f3"));

    now += 90 * MS;
    ready.extend(names(&scheduler.begin_cycle(now).resolved));
    assert!(ready.contains(&"f1"));
    assert!(!ready.contains(&"f3"));

    now += 298 * MS;
    ready.extend(names(&scheduler.begin_cycle(now).resolved));
    assert!(ready.contains(&"f3"));
    assert_eq!(ready, vec!["f2", "f1", "f3"]);
}

#[test]
fn zero_duration_resolves_at_the_next_prune() {
    let mut scheduler: Scheduler<&'static str> = Scheduler::new();
    let now: u128 = 7 * MS;
    let request: WakeRequest<&'static str> = sleep_request(now, 0, "now");
    assert_eq!(request.deadline, now);
    assert!(request.due_at(now));
    submit(&mut scheduler, request);
    assert_eq!(scheduler.pending_count(), 1);
    let cycle: Cycle<&'static str> = scheduler.begin_cycle(now);
    assert_eq!(names(&cycle.resolved), vec!["now"]);
}

#[test]
fn short_arrival_preempts_a_long_wait() {
    let mut scheduler: Scheduler<&'static str> = Scheduler::new();
    submit(&mut scheduler, sleep_request(0, 3_600_000, "hour"));
    let cycle: Cycle<&'static str> = scheduler.begin_cycle(0);
    assert_eq!(cycle.timeout, 3_600_000 * MS);

    let arrival: u128 = 5 * MS;
    submit(&mut scheduler, sleep_request(arrival, 1, "blink"));
    let cycle: Cycle<&'static str> = scheduler.begin_cycle(arrival);
    assert!(cycle.resolved.is_empty());
    assert_eq!(cycle.timeout, MS);

    let cycle: Cycle<&'static str> = scheduler.begin_cycle(arrival + MS);
    assert_eq!(names(&cycle.resolved), vec!["blink"]);
    assert_eq!(cycle.timeout, 3_600_000 * MS - 6 * MS);
    assert_eq!(scheduler.pending_count(), 1);
}

#[test]
fn late_arrival_behind_the_head_leaves_the_wait_alone() {
    let mut scheduler: Scheduler<&'static str> = Scheduler::new();
    submit(&mut scheduler, sleep_request(0, 20, "head"));
    submit(&mut scheduler, sleep_request(0, 50, "tail"));
    assert_eq!(scheduler.next_timeout(0), 20 * MS);
    assert_eq!(scheduler.next_timeout(5 * MS), 15 * MS);
    assert_eq!(scheduler.earliest_deadline(), Some(20 * MS));
}

#[test]
fn distinct_durations_resolve_in_ascending_order() {
    let durations: Vec<(u128, &'static str)> =
        vec![(50, "d50"), (10, "d10"), (40, "d40"), (20, "d20"), (30, "d30")];
    let mut scheduler: Scheduler<&'static str> = Scheduler::new();
    for (millis, name) in durations.iter() {
        submit(&mut scheduler, sleep_request(0, *millis, *name));
    }
    let mut order: Vec<&'static str> = Vec::new();
    let mut now: u128 = 0;
    let mut cycles: u32 = 0;
    while scheduler.pending_count() > 0 {
        let cycle: Cycle<&'static str> = scheduler.begin_cycle(now);
        order.extend(names(&cycle.resolved));
        now += cycle.timeout.min(50 * MS);
        cycles += 1;
        assert!(cycles <= 10);
    }
    assert_eq!(order, vec!["d10", "d20", "d30", "d40", "d50"]);
}

#[test]
fn one_prune_at_the_latest_deadline_resolves_all_in_order() {
    let mut scheduler: Scheduler<&'static str> = Scheduler::new();
    submit(&mut scheduler, sleep_request(0, 30, "c"));
    submit(&mut scheduler, sleep_request(0, 10, "a"));
    submit(&mut scheduler, sleep_request(0, 20, "b"));
    let early: Vec<WakeRequest<&'static str>> = scheduler.prune(9 * MS);
    assert!(early.is_empty());
    assert_eq!(scheduler.pending_count(), 3);
    let all: Vec<WakeRequest<&'static str>> = scheduler.prune(30 * MS);
    assert_eq!(names(&all), vec!["a", "b", "c"]);
    assert_eq!(scheduler.pending_count(), 0);
}

#[test]
fn equal_deadlines_keep_arrival_order() {
    let mut scheduler: Scheduler<&'static str> = Scheduler::new();
    scheduler.accept(WakeRequest::new(5, "first"));
    scheduler.accept(WakeRequest::new(9, "late"));
    scheduler.accept(WakeRequest::new(5, "second"));
    scheduler.accept(WakeRequest::new(1, "early"));
    scheduler.accept(WakeRequest::new(5, "third"));
    let all: Vec<WakeRequest<&'static str>> = scheduler.shut_down();
    assert_eq!(names(&all), vec!["early", "first", "second", "third", "late"]);
    let deadlines: Vec<u128> = all.iter().map(|r| r.deadline).collect();
    assert_eq!(deadlines, vec![1, 5, 5, 5, 9]);
}

#[test]
fn prune_in_two_stages_matches_one_prune() {
    let deadlines: Vec<u128> = vec![8, 3, 12, 3, 7, 20];
    let mut staged: Scheduler<usize> = Scheduler::new();
    let mut single: Scheduler<usize> = Scheduler::new();
    for (i, d) in deadlines.iter().enumerate() {
        staged.accept(WakeRequest::new(*d, i));
        single.accept(WakeRequest::new(*d, i));
    }
    let mut got: Vec<usize> = staged.prune(7).iter().map(|r| r.completion).collect();
    assert_eq!(got, vec![1, 3, 4]);
    got.extend(staged.prune(12).iter().map(|r| r.completion));
    let want: Vec<usize> = single.prune(12).iter().map(|r| r.completion).collect();
    assert_eq!(got, want);
    assert_eq!(got, vec![1, 3, 4, 0, 2]);
    assert_eq!(staged.pending_count(), 1);
    assert_eq!(single.pending_count(), 1);
}

#[test]
fn timeout_event_changes_nothing() {
    let mut scheduler: Scheduler<&'static str> = Scheduler::new();
    submit(&mut scheduler, sleep_request(0, 10, "a"));
    submit(&mut scheduler, sleep_request(0, 20, "b"));
    assert!(matches!(scheduler.on_event(Event::TimedOut), Flow::Continue));
    assert_eq!(scheduler.pending_count(), 2);
    assert_eq!(scheduler.next_timeout(0), 10 * MS);
}

#[test]
fn disconnect_hands_back_everything_still_queued() {
    let mut scheduler: Scheduler<&'static str> = Scheduler::new();
    submit(&mut scheduler, sleep_request(0, 400, "far"));
    submit(&mut scheduler, sleep_request(0, 100, "near"));
    let cycle: Cycle<&'static str> = scheduler.begin_cycle(MS);
    assert!(cycle.resolved.is_empty());
    match scheduler.on_event(Event::Disconnected) {
        Flow::Shutdown(abandoned) => {
            assert_eq!(names(&abandoned), vec!["near", "far"]);
        }
        Flow::Continue => panic!("a disconnect ends the loop"),
    }
    assert_eq!(scheduler.pending_count(), 0);
    assert_eq!(scheduler.next_timeout(MS), IDLE_WAIT);
}

#[test]
fn disconnect_with_nothing_queued_hands_back_nothing() {
    let mut scheduler: Scheduler<u8> = Scheduler::new();
    match scheduler.on_event(Event::Disconnected) {
        Flow::Shutdown(abandoned) => assert!(abandoned.is_empty()),
        Flow::Continue => panic!("a disconnect ends the loop"),
    }
}

#[test]
fn idle_scheduler_waits_a_million_seconds() {
    let mut scheduler: Scheduler<u8> = Scheduler::new();
    assert_eq!(scheduler.pending_count(), 0);
    assert_eq!(scheduler.earliest_deadline(), None);
    let cycle: Cycle<u8> = scheduler.begin_cycle(123);
    assert!(cycle.resolved.is_empty());
    assert_eq!(cycle.timeout, 1_000_000_000_000_000);
    assert_eq!(scheduler.next_timeout(u128::MAX), IDLE_WAIT);
}

#[test]
fn overdue_head_gives_a_zero_timeout() {
    let mut scheduler: Scheduler<u8> = Scheduler::new();
    scheduler.accept(WakeRequest::new(10, 1));
    scheduler.accept(WakeRequest::new(30, 2));
    assert_eq!(scheduler.next_timeout(10), 0);
    assert_eq!(scheduler.next_timeout(25), 0);
    assert_eq!(scheduler.next_timeout(9), 1);
}
