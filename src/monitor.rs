//! The per-process restart state machine.
//!
//! A monitor cycles Starting -> Running -> Sleeping -> Starting ... for as
//! long as the supervisor runs. In each phase it owes one action to the
//! world (launch the child, wait for it, sleep the restart delay), and the
//! world answers with an event that moves it on. The delay is the same on
//! every cycle: no backoff, no jitter, no cap.
//!
//! Failure policy: a launch that fails is announced and followed by the
//! usual restart delay, so one process with a bad path never brings the
//! supervisor down. A failure to learn a child's status stops that monitor
//! alone.
use vstd::prelude::*;
use crate::process::Process;

verus! {

#[derive(PartialEq, Eq, Structural, Clone, Copy, Debug)]
pub enum Phase {
    /// About to launch the child.
    Starting,
    /// The child runs; waiting for it to terminate.
    Running,
    /// Waiting out the restart delay.
    Sleeping,
    /// Supervision of this process has ended.
    Stopped,
}

/// How a child terminated.
#[derive(PartialEq, Eq, Structural, Clone, Copy, Debug)]
pub enum ExitOutcome {
    Code(i32),
    Signal(i32),
}

/// What the world reports back after an action.
#[derive(PartialEq, Eq, Structural, Clone, Copy, Debug)]
pub enum Event {
    Spawned,
    SpawnFailed,
    Exited(ExitOutcome),
    WaitFailed,
    Woke,
}

/// What a monitor asks the world to do next.
#[derive(PartialEq, Eq, Structural, Clone, Copy, Debug)]
pub enum Action {
    Launch,
    AwaitExit,
    /// Sleep this many milliseconds.
    Sleep(u64),
    Halt,
}

/// The status line, if any, that an event calls for.
#[derive(PartialEq, Eq, Structural, Clone, Copy, Debug)]
pub enum Notice {
    Quiet,
    Started,
    SpawnFailed,
    Exited(ExitOutcome),
    WaitFailed,
}

/// The monitor of one process.
#[derive(PartialEq, Eq, Structural, Clone, Copy, Debug)]
pub struct Monitor {
    pub phase: Phase,
    /// Milliseconds between an exit and the next launch.
    pub restart_delay: u64,
    /// Completed cycles: launches that ended in an exit or failed, counted
    /// up to `u64::MAX`.
    pub cycles: u64,
}

/// The action owed in a phase.
pub open spec fn owed(phase: Phase, delay: u64) -> Action {
    match phase {
        Phase::Starting => Action::Launch,
        Phase::Running => Action::AwaitExit,
        Phase::Sleeping => Action::Sleep(delay),
        Phase::Stopped => Action::Halt,
    }
}

/// The next phase and the notice for an event; an event that the phase
/// does not expect changes nothing.
pub open spec fn transition(phase: Phase, e: Event) -> (Phase, Notice) {
    match (phase, e) {
        (Phase::Starting, Event::Spawned) => (Phase::Running, Notice::Started),
        (Phase::Starting, Event::SpawnFailed) => (Phase::Sleeping, Notice::SpawnFailed),
        (Phase::Running, Event::Exited(o)) => (Phase::Sleeping, Notice::Exited(o)),
        (Phase::Running, Event::WaitFailed) => (Phase::Stopped, Notice::WaitFailed),
        (Phase::Sleeping, Event::Woke) => (Phase::Starting, Notice::Quiet),
        _ => (phase, Notice::Quiet),
    }
}

/// Whether an event in a phase completes a cycle.
pub open spec fn ends_cycle(phase: Phase, e: Event) -> bool {
    (phase == Phase::Starting && e == Event::SpawnFailed) || (phase == Phase::Running
        && e is Exited)
}

impl Monitor {
    /// A monitor about to make its first launch.
    pub fn new(restart_delay: u64) -> (r: Monitor)
        ensures
            r == (Monitor { phase: Phase::Starting, restart_delay, cycles: 0 }),
    {
        Monitor { phase: Phase::Starting, restart_delay, cycles: 0 }
    }

    /// The action that the monitor owes now.
    pub fn pending(&self) -> (r: Action)
        ensures
            r == owed(self.phase, self.restart_delay),
    {
        match self.phase {
            Phase::Starting => Action::Launch,
            Phase::Running => Action::AwaitExit,
            Phase::Sleeping => Action::Sleep(self.restart_delay),
            Phase::Stopped => Action::Halt,
        }
    }

    /// Takes in what the world reported after the pending action.
    pub fn handle(&mut self, e: Event) -> (n: Notice)
        ensures
            (final(self).phase, n) == transition(old(self).phase, e),
            final(self).restart_delay == old(self).restart_delay,
            final(self).cycles == if ends_cycle(old(self).phase, e) && old(self).cycles < u64::MAX {
                (old(self).cycles + 1) as u64
            } else {
                old(self).cycles
            },
    {
        let (next, notice) = match (self.phase, e) {
            (Phase::Starting, Event::Spawned) => (Phase::Running, Notice::Started),
            (Phase::Starting, Event::SpawnFailed) => (Phase::Sleeping, Notice::SpawnFailed),
            (Phase::Running, Event::Exited(o)) => (Phase::Sleeping, Notice::Exited(o)),
            (Phase::Running, Event::WaitFailed) => (Phase::Stopped, Notice::WaitFailed),
            (Phase::Sleeping, Event::Woke) => (Phase::Starting, Notice::Quiet),
            _ => (self.phase, Notice::Quiet),
        };
        let ends = match (self.phase, e) {
            (Phase::Starting, Event::SpawnFailed) => true,
            (Phase::Running, Event::Exited(_)) => true,
            _ => false,
        };
        if ends && self.cycles < u64::MAX {
            self.cycles = self.cycles + 1;
        }
        self.phase = next;
        notice
    }
}

/// One monitor per registry record, in registry order, each about to make
/// its first launch with the record's restart delay.
pub fn monitors_for(ps: &Vec<Process>) -> (r: Vec<Monitor>)
    ensures
        r.len() == ps.len(),
        forall|i: int| 0 <= i < ps.len() ==> #[trigger] r[i] == (Monitor {
            phase: Phase::Starting,
            restart_delay: ps[i].restart_delay,
            cycles: 0,
        }),
{
    let mut out: Vec<Monitor> = Vec::new();
    let mut i: usize = 0;
    while i < ps.len()
        invariant
            i <= ps.len(),
            out.len() == i,
            forall|k: int| 0 <= k < i ==> #[trigger] out[k] == (Monitor {
                phase: Phase::Starting,
                restart_delay: ps[k].restart_delay,
                cycles: 0,
            }),
        decreases ps.len() - i,
    {
        out.push(Monitor::new(ps[i].restart_delay));
        i = i + 1;
    }
    out
}

/// No restart comes early: a new launch is owed only after the sleep of the
/// restart delay has ended; an exit is always followed by that sleep, for
/// the same delay on every cycle; and a sleeping monitor stays asleep until
/// it is woken.
pub proof fn lemma_no_early_restart(phase: Phase, e: Event, delay: u64)
    ensures
        owed(transition(phase, e).0, delay) == Action::Launch ==> (phase == Phase::Starting
            || (phase == Phase::Sleeping && e == Event::Woke)),
        phase != Phase::Starting && owed(transition(phase, e).0, delay) == Action::Launch ==> owed(
            phase,
            delay,
        ) == Action::Sleep(delay),
        phase == Phase::Running && e is Exited ==> owed(transition(phase, e).0, delay)
            == Action::Sleep(delay),
        phase == Phase::Sleeping && e != Event::Woke ==> transition(phase, e).0 == Phase::Sleeping,
{
}

/// A launch that fails never stops the monitor: it is announced, and the
/// next launch follows the usual restart delay.
pub proof fn lemma_spawn_failure_recovers(delay: u64)
    ensures
        transition(Phase::Starting, Event::SpawnFailed) == (Phase::Sleeping, Notice::SpawnFailed),
        owed(Phase::Sleeping, delay) == Action::Sleep(delay),
        owed(transition(Phase::Sleeping, Event::Woke).0, delay) == Action::Launch,
{
}

/// The phases a monitor passes through from `p` as the events `es` come in:
/// the `j`th is the phase before the `j`th event, the last the one after all.
pub open spec fn phases_after(p: Phase, es: Seq<Event>) -> Seq<Phase>
    decreases es.len(),
{
    if es.len() == 0 {
        seq![p]
    } else {
        let init = phases_after(p, es.drop_last());
        init.push(transition(init.last(), es.last()).0)
    }
}

proof fn lemma_phases_after(p: Phase, es: Seq<Event>)
    ensures
        phases_after(p, es).len() == es.len() + 1,
        phases_after(p, es)[0] == p,
        forall|j: int| 0 <= j < es.len() ==> #[trigger] phases_after(p, es)[j + 1] == transition(
            phases_after(p, es)[j],
            es[j],
        ).0,
    decreases es.len(),
{
    if es.len() > 0 {
        let init = es.drop_last();
        lemma_phases_after(p, init);
        let ps = phases_after(p, es);
        assert forall|j: int| 0 <= j < es.len() implies #[trigger] ps[j + 1] == transition(
            ps[j],
            es[j],
        ).0 by {
            if j < es.len() - 1 {
                assert(init[j] == es[j]);
                assert(phases_after(p, init)[j + 1] == transition(phases_after(p, init)[j], init[j]).0);
            }
        }
    }
}

proof fn lemma_back_to_starting(ps: Seq<Phase>, es: Seq<Event>, i: int, k: int)
    requires
        ps.len() == es.len() + 1,
        forall|j: int| 0 <= j < es.len() ==> #[trigger] ps[j + 1] == transition(ps[j], es[j]).0,
        0 <= i < k <= es.len(),
        ps[i] != Phase::Starting,
        ps[k] == Phase::Starting,
    ensures
        exists|j: int| i <= j < k && ps[j] == Phase::Sleeping && #[trigger] es[j] == Event::Woke,
    decreases k - i,
{
    let j = k - 1;
    assert(ps[j + 1] == transition(ps[j], es[j]).0);
    if ps[j] == Phase::Starting {
        lemma_back_to_starting(ps, es, i, j);
    } else {
        assert(ps[j] == Phase::Sleeping && es[j] == Event::Woke);
    }
}

/// Over any run of events: once a monitor has left the launching phase,
/// it owes another launch only after a wake-up from the sleeping phase,
/// whose owed action is the sleep of the full restart delay.
pub proof fn lemma_relaunch_only_after_sleep(p: Phase, es: Seq<Event>, delay: u64, i: int, k: int)
    requires
        0 <= i < k <= es.len(),
        phases_after(p, es)[i] != Phase::Starting,
        owed(phases_after(p, es)[k], delay) == Action::Launch,
    ensures
        exists|j: int|
            i <= j < k && owed(phases_after(p, es)[j], delay) == Action::Sleep(delay)
                && #[trigger] es[j] == Event::Woke,
{
    lemma_phases_after(p, es);
    lemma_back_to_starting(phases_after(p, es), es, i, k);
    let j = choose|j: int|
        i <= j < k && phases_after(p, es)[j] == Phase::Sleeping && #[trigger] es[j] == Event::Woke;
    assert(owed(phases_after(p, es)[j], delay) == Action::Sleep(delay));
}

/// The events meant for one monitor, in order, out of an interleaving of
/// the events of two monitors (`false` tags the first, `true` the second).
pub open spec fn events_for(tagged: Seq<(bool, Event)>, who: bool) -> Seq<Event>
    decreases tagged.len(),
{
    if tagged.len() == 0 {
        Seq::empty()
    } else {
        let init = events_for(tagged.drop_last(), who);
        if tagged.last().0 == who {
            init.push(tagged.last().1)
        } else {
            init
        }
    }
}

/// The phases of two monitors, starting from `p0` and `p1`, after the
/// interleaved events `tagged` have come in, each to its own monitor.
pub open spec fn run_pair(p0: Phase, p1: Phase, tagged: Seq<(bool, Event)>) -> (Phase, Phase)
    decreases tagged.len(),
{
    if tagged.len() == 0 {
        (p0, p1)
    } else {
        let (a, b) = run_pair(p0, p1, tagged.drop_last());
        let (who, e) = tagged.last();
        if who {
            (a, transition(b, e).0)
        } else {
            (transition(a, e).0, b)
        }
    }
}

proof fn lemma_phases_after_push(p: Phase, es: Seq<Event>, e: Event)
    ensures
        phases_after(p, es.push(e)).last() == transition(phases_after(p, es).last(), e).0,
{
    assert(es.push(e).drop_last() =~= es);
}

/// Monitors are independent: however the events of two monitors
/// interleave, and whatever happens to one of them (a child that never
/// exits, a crash loop, a halt), each ends in the phase it would reach
/// alone on its own events.
pub proof fn lemma_monitors_independent(p0: Phase, p1: Phase, tagged: Seq<(bool, Event)>)
    ensures
        run_pair(p0, p1, tagged).0 == phases_after(p0, events_for(tagged, false)).last(),
        run_pair(p0, p1, tagged).1 == phases_after(p1, events_for(tagged, true)).last(),
    decreases tagged.len(),
{
    if tagged.len() > 0 {
        let init = tagged.drop_last();
        lemma_monitors_independent(p0, p1, init);
        let e = tagged.last().1;
        lemma_phases_after_push(p0, events_for(init, false), e);
        lemma_phases_after_push(p1, events_for(init, true), e);
    }
}

} // verus!
