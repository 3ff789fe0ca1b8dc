use tcp_server::schedule::{DeadlineQueue, Schedule, ScheduleQueue};

#[test]
fn deadline_ordering() {
    let mut q: DeadlineQueue<u32> = DeadlineQueue::new();
    q.push(Schedule::new(1, 50));
    q.push(Schedule::new(2, 10));
    q.push(Schedule::new(3, 30));
    assert_eq!(q.len(), 3);
    assert!(matches!(q.get_late_schedule(100), Some(2)));
    assert!(matches!(q.get_late_schedule(100), Some(3)));
    assert!(matches!(q.get_late_schedule(100), Some(1)));
    assert!(q.get_late_schedule(100).is_none());
}

#[test]
fn equal_deadlines_are_interchangeable() {
    let mut q: DeadlineQueue<u32> = DeadlineQueue::new();
    q.push(Schedule::new(1, 10));
    q.push(Schedule::new(2, 10));
    let a = q.get_late_schedule(10).unwrap();
    let b = q.get_late_schedule(10).unwrap();
    assert!(a != b);
    assert!(a == 1 || a == 2);
    assert!(b == 1 || b == 2);
    assert!(q.is_empty());
}

#[test]
fn past_deadline_is_immediately_eligible() {
    let mut q: DeadlineQueue<u32> = DeadlineQueue::new();
    assert!(q.get_late_schedule(5).is_none());
    q.push(Schedule::new(9, 3));
    assert!(matches!(q.get_late_schedule(5), Some(9)));
}

#[test]
fn nothing_pops_before_its_deadline() {
    let mut q: DeadlineQueue<u32> = DeadlineQueue::new();
    q.push(Schedule::new(4, 10));
    assert!(q.get_late_schedule(9).is_none());
    assert_eq!(q.len(), 1);
    assert!(matches!(q.get_late_schedule(10), Some(4)));
}

#[test]
fn wait_first_schedule_names_the_earliest_deadline() {
    let mut q: DeadlineQueue<u32> = DeadlineQueue::new();
    assert!(q.wait_first_schedule().is_err());
    q.push(Schedule::new(1, 42));
    assert!(matches!(q.wait_first_schedule(), Ok(42)));
    q.push(Schedule::new(2, 7));
    assert!(matches!(q.wait_first_schedule(), Ok(7)));
    q.push(Schedule::new(3, 99));
    assert!(matches!(q.wait_first_schedule(), Ok(7)));
}

#[test]
fn pop_returns_the_minimum_schedule() {
    let mut q: DeadlineQueue<u32> = DeadlineQueue::new();
    q.push(Schedule::new(1, 80));
    q.push(Schedule::new(2, 20));
    let s = q.pop().unwrap();
    assert_eq!(s.deadline, 20);
    assert_eq!(s.job, 2);
    let s = q.pop().unwrap();
    assert_eq!(s.deadline, 80);
    assert_eq!(s.job, 1);
    assert!(q.pop().is_none());
}

#[test]
fn schedule_constructors_keep_their_fields() {
    let s = Schedule::new(5u32, 17);
    assert_eq!(s.job, 5);
    assert_eq!(s.deadline, 17);
    let s = Schedule::now(6u32, 99);
    assert_eq!(s.job, 6);
    assert_eq!(s.deadline, 99);
}
