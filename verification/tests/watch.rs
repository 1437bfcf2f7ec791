use wip::watch::{parent_is_init, watch_step, WatchStep, INIT_PID};

#[test]
fn watcher_decisions() {
    assert!(parent_is_init(INIT_PID));
    assert!(!parent_is_init(4242));
    assert_eq!(watch_step(false, 4242, 4242), WatchStep::Sleep);
    assert_eq!(watch_step(true, 4242, 4242), WatchStep::Stop);
    assert_eq!(watch_step(false, 1, 4242), WatchStep::Stop);
    assert_eq!(watch_step(false, 77, 4242), WatchStep::Stop);
}
