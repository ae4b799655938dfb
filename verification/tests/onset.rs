use magenta_dj::onset::OnsetQueue;

#[test]
fn nothing_pending_means_no_deadline_and_nothing_due() {
    let mut q = OnsetQueue::new();
    assert_eq!(q.deadline(), None);
    assert_eq!(q.pop_due(u64::MAX), None);
}

#[test]
fn the_earliest_deadline_fires_first_and_only_when_due() {
    let mut q = OnsetQueue::new();
    q.schedule(0, 7, 500);
    q.schedule(1, 3, 200);
    assert_eq!(q.deadline(), Some(200));
    assert_eq!(q.pop_due(199), None);
    assert_eq!(q.pop_due(600), Some((1, 3)));
    assert_eq!(q.pop_due(600), Some((0, 7)));
    assert_eq!(q.pop_due(600), None);
    assert_eq!(q.deadline(), None);
}

#[test]
fn a_newer_schedule_supersedes_the_decks_older_one() {
    let mut q = OnsetQueue::new();
    q.schedule(0, 1, 100);
    q.schedule(1, 9, 150);
    q.schedule(0, 2, 300);
    assert_eq!(q.deadline(), Some(150));
    assert_eq!(q.pop_due(1000), Some((1, 9)));
    assert_eq!(q.pop_due(1000), Some((0, 2)));
    assert_eq!(q.pop_due(1000), None);
}

#[test]
fn equal_deadlines_fire_in_scheduling_order() {
    let mut q = OnsetQueue::new();
    q.schedule(1, 4, 50);
    q.schedule(0, 5, 50);
    assert_eq!(q.pop_due(50), Some((1, 4)));
    assert_eq!(q.pop_due(50), Some((0, 5)));
}
