use taskmaster::child::{Child, ChildAction, Status, WaitStatus};
use taskmaster::config::{RestartLimit, RestartPolicy, Signal, StartPolicy};
use taskmaster::program::Program;
use taskmaster::status::StatusKind;

fn demo_program(name: &str, command: &str) -> Program {
    Program {
        name: name.to_string(),
        command: command.to_string(),
        start_policy: StartPolicy::Auto,
        processes: 1,
        min_runtime: 0,
        valid_exit_codes: vec![],
        restart_policy: RestartPolicy::Never,
        max_restarts: RestartLimit::Limited(0),
        valid_signal: Signal::Term,
        graceful_timeout: 0,
        stdin: None,
        stdout: None,
        env: None,
        cwd: None,
        umask: None,
        childs: vec![],
    }
}

#[test]
fn default_processes_is_one() {
    assert_eq!(taskmaster::default_processes(), 1);
}

#[test]
fn fresh_child_is_starting_with_no_restarts() {
    let c = Child::new(42);
    assert_eq!(c.status, Status::Starting(42));
    assert_eq!(c.restarts, 0);
}

#[test]
fn auto_start_and_run() {
    // Two children spawned at once reach Running after the minimum runtime,
    // and the status table reports 2/2 Running.
    let mut p = demo_program("sleeper", "sleep 60");
    p.processes = 2;
    p.min_runtime = 1000;
    assert_eq!(p.missing_count(), 2);
    p.start(2, 0);
    assert_eq!(p.childs.len(), 2);
    assert_eq!(p.childs[0].status, Status::Starting(0));

    let waits = vec![WaitStatus::Alive, WaitStatus::Alive];
    let r = p.tick(&waits, 1100);
    assert_eq!(r.actions, vec![ChildAction::Idle, ChildAction::Idle]);
    assert_eq!(r.kept, vec![true, true]);
    assert_eq!(p.childs[0].status, Status::Running(1100));
    assert_eq!(p.childs[1].status, Status::Running(1100));

    let table = p.status(1100);
    assert_eq!(table.len(), 1);
    assert_eq!(table[0].state, "Running");
    assert_eq!(table[0].kind, Some(StatusKind::Running));
    assert_eq!(table[0].count, 2);
    assert_eq!(table[0].total, 2);
    assert_eq!(table[0].since_ms, 0);
}

#[test]
fn unexpected_exit_triggers_bounded_restart() {
    // A command that keeps failing is respawned at most max_restarts times,
    // one second apart at the earliest.
    let mut p = demo_program("flaky", "false");
    p.restart_policy = RestartPolicy::UnexpectedExit;
    p.valid_exit_codes = vec![0];
    p.max_restarts = RestartLimit::Limited(3);
    p.start(1, 0);

    let mut now: u64 = 10;
    // first exit is recorded but the respawn throttle holds it for a second
    let r = p.tick(&vec![WaitStatus::Exited(Some(1))], now);
    assert_eq!(r.actions[0], ChildAction::Idle);
    assert_eq!(p.childs[0].status, Status::Finished(10, Some(1)));

    for round in 1..=3u64 {
        now += 1000;
        let r = p.tick(&vec![WaitStatus::Exited(Some(1))], now);
        assert_eq!(r.actions[0], ChildAction::Respawn);
        assert_eq!(p.childs[0].status, Status::Starting(now));
        assert_eq!(p.childs[0].restarts, round);
        now += 10;
        let r = p.tick(&vec![WaitStatus::Exited(Some(1))], now);
        assert_eq!(r.actions[0], ChildAction::Idle);
        assert_eq!(p.childs[0].status, Status::Finished(now, Some(1)));
    }
    // the bound is reached: no further respawn, the child stays Finished
    now += 5000;
    let r = p.tick(&vec![WaitStatus::Exited(Some(1))], now);
    assert_eq!(r.actions[0], ChildAction::Idle);
    assert_eq!(p.childs[0].restarts, 3);
    assert!(matches!(p.childs[0].status, Status::Finished(_, Some(1))));
}

#[test]
fn valid_exit_does_not_restart() {
    let mut p = demo_program("oneshot", "true");
    p.restart_policy = RestartPolicy::UnexpectedExit;
    p.valid_exit_codes = vec![0];
    p.max_restarts = RestartLimit::Limited(3);
    p.start(1, 0);

    let r = p.tick(&vec![WaitStatus::Exited(Some(0))], 10);
    assert_eq!(r.actions[0], ChildAction::Idle);
    let r = p.tick(&vec![WaitStatus::Exited(Some(0))], 5000);
    assert_eq!(r.actions[0], ChildAction::Idle);
    assert_eq!(p.childs[0].restarts, 0);
    assert_eq!(p.childs[0].status, Status::Finished(10, Some(0)));
}

#[test]
fn always_policy_respawns_even_on_valid_exit() {
    let mut p = demo_program("loop", "true");
    p.restart_policy = RestartPolicy::Always;
    p.valid_exit_codes = vec![0];
    p.max_restarts = RestartLimit::Unlimited;
    p.start(1, 0);
    p.tick(&vec![WaitStatus::Exited(Some(0))], 10);
    let r = p.tick(&vec![WaitStatus::Exited(Some(0))], 2000);
    assert_eq!(r.actions[0], ChildAction::Respawn);
    assert_eq!(p.childs[0].restarts, 1);
}

#[test]
fn never_policy_keeps_restarts_at_zero() {
    let mut p = demo_program("once", "false");
    p.restart_policy = RestartPolicy::Never;
    p.start(1, 0);
    p.tick(&vec![WaitStatus::Exited(Some(7))], 10);
    let r = p.tick(&vec![WaitStatus::Exited(Some(7))], 9000);
    assert_eq!(r.actions[0], ChildAction::Idle);
    assert_eq!(p.childs[0].restarts, 0);
    assert_eq!(p.childs[0].status, Status::Finished(10, Some(7)));
}

#[test]
fn graceful_then_forceful() {
    // A stop signal moves the child to Terminating at once; past the
    // graceful timeout the next tick force-kills it.
    let mut p = demo_program("stubborn", "sleep 600");
    p.graceful_timeout = 2000;
    p.min_runtime = 0;
    p.start(1, 0);
    let waits = vec![WaitStatus::Alive];
    p.tick(&waits, 5);
    assert_eq!(p.childs[0].status, Status::Running(5));

    p.stop(&vec![true], 100);
    assert_eq!(p.childs[0].status, Status::Terminating(100));

    // before the deadline nothing happens
    let r = p.tick(&waits, 1500);
    assert_eq!(r.actions[0], ChildAction::Idle);
    assert_eq!(p.childs[0].status, Status::Terminating(100));

    // past the deadline the child is force-killed
    let r = p.tick(&waits, 2200);
    assert_eq!(r.actions[0], ChildAction::ForceKill);
    assert_eq!(p.childs[0].status, Status::Stopped(2200));
}

#[test]
fn failed_signal_send_leaves_child_running() {
    let mut p = demo_program("deaf", "sleep 600");
    p.start(1, 0);
    p.tick(&vec![WaitStatus::Alive], 5);
    p.stop(&vec![false], 100);
    assert_eq!(p.childs[0].status, Status::Running(5));
}

#[test]
fn stop_twice_equals_stop_once() {
    let mut p = demo_program("pair", "sleep 60");
    p.processes = 2;
    p.start(2, 0);
    p.stop(&vec![true, true], 50);
    let snapshot = p.childs.clone();
    p.stop(&vec![true, true], 80);
    assert_eq!(p.childs, snapshot);
}

#[test]
fn start_on_full_program_is_noop() {
    let mut p = demo_program("full", "sleep 60");
    p.processes = 2;
    p.start(2, 0);
    let snapshot = p.childs.clone();
    assert_eq!(p.missing_count(), 0);
    p.start(0, 99);
    assert_eq!(p.childs, snapshot);
}

#[test]
fn kill_sweeps_every_non_quiescent_child() {
    // The sweep reaches finished children not at all, and running as well as
    // still-terminating ones on the spot: nothing survives it.
    let mut p = demo_program("mix", "sleep 60");
    p.processes = 3;
    p.start(3, 0);
    p.tick(&vec![WaitStatus::Exited(Some(0)), WaitStatus::Alive, WaitStatus::Alive], 5);
    p.stop(&vec![false, false, true], 20);
    assert_eq!(p.childs[2].status, Status::Terminating(20));
    let to_kill = p.kill(40);
    assert_eq!(to_kill, vec![false, true, true]);
    assert_eq!(p.childs[0].status, Status::Finished(5, Some(0)));
    assert_eq!(p.childs[1].status, Status::Stopped(40));
    assert_eq!(p.childs[2].status, Status::Stopped(40));
    assert!(p.all_stopped());
}

#[test]
fn stopped_children_linger_then_drop() {
    let mut p = demo_program("fade", "sleep 60");
    p.start(1, 0);
    p.tick(&vec![WaitStatus::Alive], 5);
    p.kill(100);
    // within the linger time the slot is kept for one more render
    let r = p.tick(&vec![WaitStatus::Alive], 500);
    assert_eq!(r.kept, vec![true]);
    assert_eq!(p.childs.len(), 1);
    // after the linger time the slot is dropped
    let r = p.tick(&vec![WaitStatus::Alive], 1200);
    assert_eq!(r.kept, vec![false]);
    assert_eq!(p.childs.len(), 0);
}

#[test]
fn wait_error_leaves_status_alone() {
    let mut p = demo_program("odd", "sleep 60");
    p.min_runtime = 1000;
    p.start(1, 0);
    let r = p.tick(&vec![WaitStatus::Unknown], 500);
    assert_eq!(r.actions[0], ChildAction::Idle);
    assert_eq!(p.childs[0].status, Status::Starting(0));
}

#[test]
fn observed_exit_wins_over_escalation() {
    // A terminating process that exits on its own is recorded as Finished,
    // not force-killed, even past the graceful timeout.
    let mut p = demo_program("racer", "sleep 600");
    p.graceful_timeout = 100;
    p.start(1, 0);
    p.tick(&vec![WaitStatus::Alive], 5);
    p.stop(&vec![true], 10);
    let r = p.tick(&vec![WaitStatus::Exited(None)], 500);
    assert_eq!(r.actions[0], ChildAction::Idle);
    assert_eq!(p.childs[0].status, Status::Finished(500, None));
}

#[test]
fn observed_exit_wins_over_promotion() {
    // A starting process that exits is recorded as Finished, never promoted.
    let mut p = demo_program("early", "true");
    p.min_runtime = 10;
    p.start(1, 0);
    let r = p.tick(&vec![WaitStatus::Exited(Some(0))], 50);
    assert_eq!(r.actions[0], ChildAction::Idle);
    assert_eq!(p.childs[0].status, Status::Finished(50, Some(0)));
}

#[test]
fn status_of_empty_program_reports_not_launched() {
    let p = demo_program("idle", "sleep 60");
    let table = p.status(0);
    assert_eq!(table.len(), 1);
    assert_eq!(table[0].state, "Not launched");
    assert_eq!(table[0].kind, None);
    assert_eq!(table[0].count, 0);
    assert_eq!(table[0].total, 0);
}

#[test]
fn status_orders_kinds_and_counts() {
    let mut p = demo_program("mixed", "sleep 60");
    p.processes = 4;
    p.min_runtime = 0;
    p.start(4, 0);
    // one finished at 5, the rest running at 5
    p.tick(&vec![
        WaitStatus::Exited(Some(0)),
        WaitStatus::Alive,
        WaitStatus::Alive,
        WaitStatus::Alive,
    ], 5);
    let table = p.status(7);
    assert_eq!(table.len(), 2);
    assert_eq!(table[0].state, "Running");
    assert_eq!(table[0].count, 3);
    assert_eq!(table[0].total, 4);
    assert_eq!(table[0].since_ms, 2);
    assert_eq!(table[1].state, "Finished");
    assert_eq!(table[1].count, 1);
    assert_eq!(table[1].since_ms, 2);
}

#[test]
fn child_last_update_follows_transitions() {
    let mut c = Child::new(3);
    assert_eq!(c.last_update(), 3);
    c.kill(9);
    assert_eq!(c.last_update(), 9);
    assert_eq!(c.status, Status::Stopped(9));
}

#[test]
fn status_labels() {
    assert_eq!(Status::Running(0).label(), "Running");
    assert_eq!(Status::Finished(0, Some(1)).label(), "Finished");
    assert_eq!(Status::Terminating(0).label(), "Terminating");
}

#[test]
fn signal_numbers() {
    assert_eq!(Signal::Term.number(), 15);
    assert_eq!(Signal::Kill.number(), 9);
    assert_eq!(Signal::Hup.number(), 1);
}

#[test]
fn argv_splits_on_whitespace() {
    let mut p = demo_program("sleeper", "sleep 60");
    assert_eq!(p.argv(), vec!["sleep".to_string(), "60".to_string()]);
    p.command = "  /bin/echo\thello   world\n".to_string();
    assert_eq!(
        p.argv(),
        vec!["/bin/echo".to_string(), "hello".to_string(), "world".to_string()]
    );
    p.command = "".to_string();
    assert_eq!(p.argv(), Vec::<String>::new());
}

#[test]
fn umask_parses_octal() {
    assert_eq!(taskmaster::program::parse_umask("022"), Some(0o22));
    assert_eq!(taskmaster::program::parse_umask("0777"), Some(0o777));
    assert_eq!(taskmaster::program::parse_umask("7"), Some(7));
    assert_eq!(taskmaster::program::parse_umask(""), None);
    assert_eq!(taskmaster::program::parse_umask("8"), None);
    assert_eq!(taskmaster::program::parse_umask("02x"), None);
    assert_eq!(taskmaster::program::parse_umask("00022"), None);
}
