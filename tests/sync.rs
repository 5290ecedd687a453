use ruisutil::sync::{wait_step, WaitStep, WaiterList};

#[test]
fn mod_it_works() {
    assert_eq!(2 + 2, 4);
}

#[test]
fn notify_one_resolves_exactly_one_of_two() {
    let mut w = WaiterList::new();
    assert!(!w.poll(1, false));
    assert!(!w.poll(2, false));
    assert!(!w.poll(1, false));
    assert_eq!(w.len(), 2);
    assert_eq!(w.notify_one(), Some(1));
    let a = w.poll(1, false);
    let b = w.poll(2, false);
    assert!(a != b);
    assert!(a);
    assert_eq!(w.len(), 1);
}

#[test]
fn notify_all_resolves_both() {
    let mut w = WaiterList::new();
    assert!(!w.poll(7, false));
    assert!(!w.poll(9, false));
    assert_eq!(w.notify_all(), vec![7, 9]);
    assert!(w.poll(9, false));
    assert!(w.poll(7, false));
    assert_eq!(w.len(), 0);
    assert_eq!(w.notify_one(), None);
}

#[test]
fn done_context_resolves_every_poll() {
    let mut w = WaiterList::new();
    assert!(!w.poll(1, false));
    assert!(w.poll(1, true));
    assert!(w.poll(5, true));
    assert_eq!(w.len(), 1);
    w.remove(1);
    assert_eq!(w.len(), 0);
    w.remove(3);
    assert_eq!(w.len(), 0);
}

#[test]
fn wait_steps() {
    assert_eq!(wait_step(true, true), WaitStep::Cancelled);
    assert_eq!(wait_step(false, true), WaitStep::Cancelled);
    assert_eq!(wait_step(true, false), WaitStep::Finished);
    assert_eq!(wait_step(false, false), WaitStep::Sleep);
}
