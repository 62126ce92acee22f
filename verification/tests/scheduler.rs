use corewar::scheduler::{ProcessQueue, Scheduler};

#[test]
fn queue_is_first_in_first_out_round_the_ring() {
    let mut q = ProcessQueue::new(3);
    assert_eq!(q.len(), 0);
    assert_eq!(q.pop_front(), None);
    q.push_back(10);
    q.push_back(20);
    q.push_back(30);
    assert_eq!(q.len(), 3);
    assert_eq!(q.pop_front(), Some(10));
    q.push_back(40);
    assert_eq!(q.pop_front(), Some(20));
    assert_eq!(q.pop_front(), Some(30));
    q.push_back(50);
    q.push_back(60);
    assert_eq!(q.pop_front(), Some(40));
    assert_eq!(q.pop_front(), Some(50));
    assert_eq!(q.pop_front(), Some(60));
    assert_eq!(q.pop_front(), None);
    q.push_back(70);
    q.clear();
    assert_eq!(q.len(), 0);
    assert_eq!(q.pop_front(), None);
}

#[test]
fn next_of_a_dead_warrior_is_none() {
    let mut s = Scheduler::new(2, 4);
    assert_eq!(s.num_warriors(), 2);
    assert_eq!(s.max_processes(), 4);
    assert_eq!(s.next(0), None);
    s.reschedule(1, 7);
    assert_eq!(s.next(0), None);
    assert_eq!(s.next(1), Some(7));
    assert_eq!(s.next(1), None);
}

#[test]
fn spawn_is_refused_at_the_cap() {
    let mut s = Scheduler::new(1, 2);
    assert!(s.spawn(0, 1));
    assert!(s.spawn(0, 2));
    assert!(!s.spawn(0, 3));
    assert_eq!(s.count(0), 2);
    assert_eq!(s.next(0), Some(1));
    assert!(s.spawn(0, 4));
    assert!(!s.spawn(0, 5));
    assert_eq!(s.next(0), Some(2));
    assert_eq!(s.next(0), Some(4));
    assert_eq!(s.next(0), None);
}

#[test]
fn restart_and_clear() {
    let mut s = Scheduler::new(3, 2);
    s.reschedule(0, 1);
    s.reschedule(0, 2);
    s.reschedule(2, 9);
    s.restart(0, 5);
    assert_eq!(s.count(0), 1);
    assert_eq!(s.next(0), Some(5));
    s.restart(1, 6);
    s.clear();
    assert_eq!(s.count(0), 0);
    assert_eq!(s.count(1), 0);
    assert_eq!(s.count(2), 0);
}
