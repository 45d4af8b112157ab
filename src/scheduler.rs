//! Admission control for concurrent games: at most `cap` games run at once.
//! The caller runs the games; this decides when to start one and when to
//! wait for one to finish.
use vstd::prelude::*;

verus! {

/// What the caller is to do next.
#[derive(Clone, Copy, Debug, PartialEq, Eq, Structural)]
pub enum SchedulerAction {
    /// Start one more game, then report it with `started`.
    StartGame,
    /// Wait for the earliest running game to finish, then report it with
    /// `finished`.
    AwaitGame,
    /// Every game has been started and has finished.
    Done,
}

/// Counts of the games left to start and of those running.
pub struct Scheduler {
    cap: usize,
    remaining: u64,
    in_flight: usize,
}

impl Scheduler {
    /// The most games that may run at once.
    pub closed spec fn cap(&self) -> usize {
        self.cap
    }

    /// Games not yet started.
    pub closed spec fn remaining(&self) -> u64 {
        self.remaining
    }

    /// Games started and not yet finished.
    pub closed spec fn in_flight(&self) -> usize {
        self.in_flight
    }

    /// The cap is positive and never exceeded.
    pub open spec fn wf(&self) -> bool {
        1 <= self.cap() && self.in_flight() <= self.cap()
    }

    /// The action for a scheduler in this state.
    pub open spec fn action(&self) -> SchedulerAction {
        if self.remaining() > 0 && self.in_flight() < self.cap() {
            SchedulerAction::StartGame
        } else if self.in_flight() > 0 {
            SchedulerAction::AwaitGame
        } else {
            SchedulerAction::Done
        }
    }

    /// A scheduler for `games` games, at most `cap` of them at once.
    pub fn new(cap: usize, games: u64) -> (r: Self)
        requires
            cap >= 1,
        ensures
            r.wf(),
            r.cap() == cap,
            r.remaining() == games,
            r.in_flight() == 0,
    {
        Scheduler { cap, remaining: games, in_flight: 0 }
    }

    /// The number of games running.
    pub fn running(&self) -> (r: usize)
        ensures
            r == self.in_flight(),
    {
        self.in_flight
    }

    /// Start while below the cap and games remain; else wait while any game
    /// runs; else done.
    pub fn next_action(&self) -> (r: SchedulerAction)
        ensures
            r == self.action(),
    {
        if self.remaining > 0 && self.in_flight < self.cap {
            SchedulerAction::StartGame
        } else if self.in_flight > 0 {
            SchedulerAction::AwaitGame
        } else {
            SchedulerAction::Done
        }
    }

    /// Records that a game was started.
    pub fn started(&mut self)
        requires
            old(self).wf(),
            old(self).action() == SchedulerAction::StartGame,
        ensures
            final(self).wf(),
            final(self).cap() == old(self).cap(),
            final(self).remaining() == old(self).remaining() - 1,
            final(self).in_flight() == old(self).in_flight() + 1,
    {
        self.remaining = self.remaining - 1;
        self.in_flight = self.in_flight + 1;
    }

    /// Records that a running game finished.
    pub fn finished(&mut self)
        requires
            old(self).wf(),
            old(self).in_flight() > 0,
        ensures
            final(self).wf(),
            final(self).cap() == old(self).cap(),
            final(self).remaining() == old(self).remaining(),
            final(self).in_flight() == old(self).in_flight() - 1,
    {
        self.in_flight = self.in_flight - 1;
    }
}

/// In every reachable state no more games run than the cap allows, and a
/// start is only ever asked for while below it.
pub proof fn lemma_cap_respected(s: Scheduler)
    requires
        s.wf(),
    ensures
        s.in_flight() <= s.cap(),
        s.action() == SchedulerAction::StartGame ==> s.in_flight() + 1 <= s.cap(),
{
}

/// The scheduler finishes: each step lowers twice the games left to start
/// plus the games running.
pub proof fn lemma_progress(s: Scheduler, t: Scheduler)
    requires
        s.wf(),
        s.action() == SchedulerAction::StartGame ==> t.remaining() == s.remaining() - 1 && t.in_flight() == s.in_flight() + 1,
        s.action() == SchedulerAction::AwaitGame ==> t.remaining() == s.remaining() && t.in_flight() == s.in_flight() - 1,
        s.action() != SchedulerAction::Done,
    ensures
        2 * t.remaining() + t.in_flight() < 2 * s.remaining() + s.in_flight(),
{
}

} // verus!
