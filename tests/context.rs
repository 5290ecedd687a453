use std::time::{Duration, Instant};

use ruisutil::{done_from, Context};

#[test]
fn lib_it_works() {
    assert_eq!(2 + 2, 4);
}

fn wait_until_done(ctx: &Context, limit: Duration) -> bool {
    let start = Instant::now();
    while start.elapsed() < limit {
        if ctx.done() {
            return true;
        }
    }
    ctx.done()
}

#[test]
fn timeout_child_becomes_done_after_its_deadline() {
    let parent = Context::background(None);
    let child = Context::with_timeout(Some(parent.clone()), Duration::from_millis(30));
    assert!(!child.done());
    let start = Instant::now();
    assert!(wait_until_done(&child, Duration::from_secs(5)));
    assert!(start.elapsed() >= Duration::from_millis(25));
    assert!(!parent.done());
}

#[test]
fn stopping_the_parent_stops_the_child_at_once() {
    let parent = Context::background(None);
    let child = Context::with_timeout(Some(parent.clone()), Duration::from_secs(3600));
    let grandchild = Context::background(Some(child.clone()));
    assert!(!child.done());
    assert!(!grandchild.done());
    assert!(parent.stop());
    assert!(child.done());
    assert!(grandchild.done());
}

#[test]
fn stop_is_idempotent_and_local() {
    let parent = Context::background(None);
    let child = Context::background(Some(parent.clone()));
    assert!(child.stop());
    assert!(child.stop());
    assert!(child.done());
    assert!(!parent.done());
    assert!(child.done_err().is_err());
    assert!(parent.done_err().is_ok());
}

#[test]
fn done_decision() {
    assert!(!done_from(false, false, 10, None));
    assert!(!done_from(false, false, 10, Some(10)));
    assert!(done_from(false, false, 11, Some(10)));
    assert!(done_from(true, false, 0, None));
    assert!(done_from(false, true, 0, Some(100)));
}
