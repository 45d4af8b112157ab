use terminalclustering::scheduler::{Scheduler, SchedulerAction};

/// Drives a scheduler, finishing games in launch order; returns the most
/// games that ran at once and how many finished.
fn drive(cap: usize, games: u64) -> (usize, u64) {
    let mut s = Scheduler::new(cap, games);
    let mut most = 0;
    let mut finished = 0;
    loop {
        match s.next_action() {
            SchedulerAction::StartGame => s.started(),
            SchedulerAction::AwaitGame => {
                s.finished();
                finished += 1;
            }
            SchedulerAction::Done => return (most, finished),
        }
        most = most.max(s.running());
    }
}

#[test]
fn never_more_than_the_cap() {
    for cap in 1..6 {
        for games in 0..12 {
            let (most, finished) = drive(cap, games);
            assert!(most <= cap);
            assert_eq!(most, cap.min(games as usize));
            assert_eq!(finished, games);
        }
    }
}

#[test]
fn waits_at_the_cap_then_starts_the_next() {
    let mut s = Scheduler::new(2, 3);
    assert_eq!(s.next_action(), SchedulerAction::StartGame);
    s.started();
    assert_eq!(s.next_action(), SchedulerAction::StartGame);
    s.started();
    assert_eq!(s.next_action(), SchedulerAction::AwaitGame);
    s.finished();
    assert_eq!(s.next_action(), SchedulerAction::StartGame);
    s.started();
    assert_eq!(s.next_action(), SchedulerAction::AwaitGame);
    s.finished();
    assert_eq!(s.next_action(), SchedulerAction::AwaitGame);
    s.finished();
    assert_eq!(s.next_action(), SchedulerAction::Done);
}
