use minecrevy::timer::{ScheduledWake, TimerAction, WakeQueue};

#[test]
fn schedule_wakes_past_deadlines_immediately() {
    let mut q = WakeQueue::new();
    assert!(q.schedule(5, 10, 1));
    assert!(q.schedule(10, 10, 2));
    assert!(q.is_empty());
    assert!(!q.schedule(11, 10, 3));
    assert_eq!(q.len(), 1);
}

#[test]
fn next_action_pops_the_earliest_due_deadline() {
    let mut q = WakeQueue::new();
    q.push(30, 3).unwrap();
    q.push(10, 1).unwrap();
    q.push(20, 2).unwrap();
    assert_eq!(q.next_action(25), TimerAction::Wake(ScheduledWake { at: 10, handle: 1 }));
    assert_eq!(q.next_action(25), TimerAction::Wake(ScheduledWake { at: 20, handle: 2 }));
    assert_eq!(q.next_action(25), TimerAction::SleepUntil(30));
    assert_eq!(q.len(), 1);
    assert_eq!(q.next_action(30), TimerAction::Wake(ScheduledWake { at: 30, handle: 3 }));
    assert_eq!(q.next_action(30), TimerAction::Idle);
}

#[test]
fn equal_deadlines_all_get_woken() {
    let mut q = WakeQueue::new();
    q.push(7, 1).unwrap();
    q.push(7, 2).unwrap();
    let first = q.next_action(7);
    let second = q.next_action(7);
    let mut handles = match (first, second) {
        (TimerAction::Wake(a), TimerAction::Wake(b)) => vec![a.handle, b.handle],
        other => panic!("expected two wakes, got {:?}", other),
    };
    handles.sort();
    assert_eq!(handles, vec![1, 2]);
    assert_eq!(q.next_action(7), TimerAction::Idle);
}
