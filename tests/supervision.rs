use superv::launch::{launch_plan, start_notice, InputSource};
use superv::monitor::{monitors_for, Action, Event, ExitOutcome, Monitor, Notice, Phase};
use superv::process::{Process, StreamTarget};

fn record(name: &str, delay: u64) -> Process {
    Process {
        name: name.to_string(),
        path: "/bin/true".to_string(),
        args: vec!["-a".to_string(), "b".to_string()],
        restart_delay: delay,
        cwd: Some("/work".to_string()),
        stdout_target: StreamTarget::Append("out.log".to_string()),
        stderr_target: StreamTarget::Discard,
    }
}

/// Drives a monitor whose child exits at once, on a simulated clock, and
/// returns the times of its launches within `window` milliseconds.
fn launches_within(m: &mut Monitor, window: u64) -> Vec<u64> {
    let mut now: u64 = 0;
    let mut times = Vec::new();
    while now < window {
        match m.pending() {
            Action::Launch => {
                times.push(now);
                m.handle(Event::Spawned);
            }
            Action::AwaitExit => {
                m.handle(Event::Exited(ExitOutcome::Code(0)));
            }
            Action::Sleep(ms) => {
                now += ms.max(1);
                m.handle(Event::Woke);
            }
            Action::Halt => break,
        }
    }
    times
}

#[test]
fn plan_follows_the_record() {
    let p = record("svc", 5);
    let plan = launch_plan(&p);
    assert_eq!(plan.program, "/bin/true");
    assert_eq!(plan.args, vec!["-a".to_string(), "b".to_string()]);
    assert_eq!(plan.cwd, Some("/work".to_string()));
    assert_eq!(plan.stdout, StreamTarget::Append("out.log".to_string()));
    assert_eq!(plan.stderr, StreamTarget::Discard);
    assert_eq!(plan.stdin, InputSource::Null);
}

#[test]
fn start_line_names_the_process() {
    assert_eq!(start_notice("pinger"), "starting process pinger");
}

#[test]
fn monitor_cycles_through_its_phases() {
    let mut m = Monitor::new(250);
    assert_eq!(m.pending(), Action::Launch);
    assert_eq!(m.handle(Event::Spawned), Notice::Started);
    assert_eq!(m.pending(), Action::AwaitExit);
    assert_eq!(m.handle(Event::Exited(ExitOutcome::Signal(9))), Notice::Exited(ExitOutcome::Signal(9)));
    assert_eq!(m.pending(), Action::Sleep(250));
    assert_eq!(m.cycles, 1);
    assert_eq!(m.handle(Event::Woke), Notice::Quiet);
    assert_eq!(m.phase, Phase::Starting);
    assert_eq!(m.pending(), Action::Launch);
}

#[test]
fn sleeping_monitor_does_not_launch_before_waking() {
    let mut m = Monitor::new(100);
    m.handle(Event::Spawned);
    m.handle(Event::Exited(ExitOutcome::Code(1)));
    for e in [Event::Spawned, Event::SpawnFailed, Event::Exited(ExitOutcome::Code(0)), Event::WaitFailed] {
        assert_eq!(m.handle(e), Notice::Quiet);
        assert_eq!(m.pending(), Action::Sleep(100));
    }
}

#[test]
fn restarts_are_spaced_by_the_delay() {
    let mut m = Monitor::new(40);
    let times = launches_within(&mut m, 400);
    assert_eq!(times.len(), 10);
    for w in times.windows(2) {
        assert!(w[1] - w[0] >= 40);
    }
}

#[test]
fn pinger_restarts_about_ten_times_a_second() {
    let mut m = Monitor::new(100);
    let times = launches_within(&mut m, 1000);
    assert!(times.len() >= 8 && times.len() <= 10);
    assert_eq!(times.len(), 10);
}

#[test]
fn monitors_progress_independently() {
    let ps = vec![record("fast", 50), record("slow", 500)];
    let mut ms = monitors_for(&ps);
    let fast = launches_within(&mut ms[0], 1000);
    let slow = launches_within(&mut ms[1], 1000);
    assert_eq!(fast.len(), 20);
    assert_eq!(slow.len(), 2);
}

#[test]
fn spawn_failure_is_retried_after_the_delay() {
    let mut m = Monitor::new(300);
    assert_eq!(m.handle(Event::SpawnFailed), Notice::SpawnFailed);
    assert_eq!(m.pending(), Action::Sleep(300));
    assert_eq!(m.cycles, 1);
    m.handle(Event::Woke);
    assert_eq!(m.pending(), Action::Launch);
}

#[test]
fn wait_failure_stops_only_that_monitor() {
    let ps = vec![record("a", 10), record("b", 10)];
    let mut ms = monitors_for(&ps);
    ms[0].handle(Event::Spawned);
    assert_eq!(ms[0].handle(Event::WaitFailed), Notice::WaitFailed);
    assert_eq!(ms[0].pending(), Action::Halt);
    assert_eq!(ms[1].pending(), Action::Launch);
}

#[test]
fn monitors_follow_registry_order() {
    let ps = vec![record("a", 1), record("b", 2), record("c", 3)];
    let ms = monitors_for(&ps);
    assert_eq!(ms.len(), 3);
    for (i, m) in ms.iter().enumerate() {
        assert_eq!(m.restart_delay, (i + 1) as u64);
        assert_eq!(m.phase, Phase::Starting);
        assert_eq!(m.cycles, 0);
    }
}
