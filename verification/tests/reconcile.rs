use taskmaster::child::{Status, WaitStatus};
use taskmaster::config::{Config, RestartLimit, RestartPolicy, Signal, StartPolicy};
use taskmaster::program::Program;
use taskmaster::supervisor::{Command, Directive, Supervisor};

fn named_program(name: &str, command: &str) -> Program {
    Program {
        name: name.to_string(),
        command: command.to_string(),
        start_policy: StartPolicy::Auto,
        processes: 1,
        min_runtime: 0,
        valid_exit_codes: vec![],
        restart_policy: RestartPolicy::Never,
        max_restarts: RestartLimit::Limited(0),
        valid_signal: Signal::Term,
        graceful_timeout: 0,
        stdin: None,
        stdout: None,
        env: None,
        cwd: None,
        umask: None,
        childs: vec![],
    }
}

fn live_config(programs: Vec<Program>) -> Config {
    Config {
        user: None,
        program: programs,
        loglevel: "info".to_string(),
        program_deletions: vec![],
    }
}

fn names(c: &Config) -> Vec<String> {
    c.program.iter().map(|p| p.name.clone()).collect()
}

#[test]
fn reload_preserves_replaces_and_removes() {
    // Live: a, b, c, all with one running child. The new configuration keeps
    // a as it is, changes b's command, omits c, and adds d.
    let mut cfg = live_config(vec![
        named_program("a", "sleep 60"),
        named_program("b", "sleep 60"),
        named_program("c", "sleep 60"),
    ]);
    for p in &mut cfg.program {
        p.start(1, 0);
        p.tick(&vec![WaitStatus::Alive], 5);
    }
    let a_children = cfg.program[0].childs.clone();

    let mut changed_b = named_program("b", "sleep 120");
    changed_b.childs = vec![];
    let incoming = live_config(vec![
        named_program("a", "sleep 60"),
        changed_b,
        named_program("d", "sleep 60"),
    ]);

    let report = cfg.update(incoming);

    // a is retained with its children untouched; the old b and c linger until
    // quiescent; the new b and d are appended.
    assert_eq!(names(&cfg), vec!["a", "b", "c", "b", "d"]);
    assert_eq!(cfg.program[0].childs, a_children);
    assert_eq!(cfg.program[3].command, "sleep 120");
    assert_eq!(cfg.program_deletions, vec!["b".to_string(), "c".to_string()]);
    assert_eq!(report.to_stop, vec![1, 2]);
    assert_eq!(report.to_start, vec![3, 4]);

    // stop the outgoing programs as the report says, let their children
    // finish, and drain the deletion queue
    for &i in &report.to_stop {
        let sent = vec![true; cfg.program[i].childs.len()];
        cfg.program[i].stop(&sent, 10);
    }
    assert_eq!(cfg.program[1].childs[0].status, Status::Terminating(10));
    cfg.drain_deletions();
    // still settling: both names stay queued
    assert_eq!(cfg.program_deletions, vec!["b".to_string(), "c".to_string()]);
    for i in [1usize, 2] {
        cfg.program[i].tick(&vec![WaitStatus::Exited(None)], 20);
    }
    cfg.drain_deletions();
    assert_eq!(names(&cfg), vec!["a", "b", "d"]);
    assert_eq!(cfg.program[1].command, "sleep 120");
    assert!(cfg.program_deletions.is_empty());
}

#[test]
fn update_with_identical_configuration_is_identity() {
    let mut cfg = live_config(vec![
        named_program("a", "sleep 60"),
        named_program("b", "sleep 90"),
    ]);
    cfg.program[0].start(1, 0);
    let before = names(&cfg);
    let a_children = cfg.program[0].childs.clone();

    let same = live_config(vec![
        named_program("a", "sleep 60"),
        named_program("b", "sleep 90"),
    ]);
    let report = cfg.update(same);
    assert_eq!(names(&cfg), before);
    assert_eq!(cfg.program[0].childs, a_children);
    assert!(cfg.program_deletions.is_empty());
    assert!(report.to_stop.is_empty());
    assert!(report.to_start.is_empty());
}

#[test]
fn repeated_reload_retains_the_replacement() {
    // After a replace, the live list holds the doomed old b and its
    // replacement. Reloading the same new configuration again must retain
    // the replacement: nothing appended, nothing queued a second time.
    let mut cfg = live_config(vec![named_program("b", "sleep 60")]);
    cfg.program[0].start(1, 0);
    let incoming = live_config(vec![named_program("b", "sleep 120")]);
    let report = cfg.update(incoming);
    assert_eq!(names(&cfg), vec!["b", "b"]);
    assert_eq!(report.to_stop, vec![0]);
    assert_eq!(report.to_start, vec![1]);
    cfg.program[1].start(1, 5);

    let incoming_again = live_config(vec![named_program("b", "sleep 120")]);
    let report = cfg.update(incoming_again);
    assert_eq!(names(&cfg), vec!["b", "b"]);
    assert!(report.to_start.is_empty());
    // the doomed namesake is not queued a second time
    assert_eq!(cfg.program_deletions, vec!["b".to_string()]);
    // the replacement keeps its children untouched
    assert_eq!(cfg.program[1].childs.len(), 1);

    // once the doomed program settles, only it is removed: the replacement
    // survives even with all its children quiescent
    cfg.program[0].kill(10);
    cfg.program[1].kill(10);
    cfg.drain_deletions();
    assert_eq!(names(&cfg), vec!["b"]);
    assert_eq!(cfg.program[0].command, "sleep 120");
    assert!(cfg.program_deletions.is_empty());
}

#[test]
fn update_starts_only_auto_programs() {
    let mut cfg = live_config(vec![]);
    let mut manual = named_program("m", "sleep 60");
    manual.start_policy = StartPolicy::Manual;
    let incoming = live_config(vec![named_program("a", "sleep 60"), manual]);
    let report = cfg.update(incoming);
    assert_eq!(report.to_start, vec![0]);
    assert!(report.to_stop.is_empty());
}

#[test]
fn drain_drops_names_of_unknown_programs() {
    let mut cfg = live_config(vec![named_program("a", "sleep 60")]);
    cfg.program_deletions = vec!["ghost".to_string()];
    cfg.drain_deletions();
    assert!(cfg.program_deletions.is_empty());
    assert_eq!(names(&cfg), vec!["a"]);
}

#[test]
fn force_quit_on_second_quit() {
    let mut cfg = live_config(vec![named_program("a", "sleep 60")]);
    cfg.program[0].start(1, 0);
    let mut sup = Supervisor {
        config: cfg,
        config_path: "config/default.toml".to_string(),
        pending_quit: false,
        force_quit: false,
    };
    // first quit: shut everything down gracefully, keep waiting
    let d = sup.handle_command(Command::Quit);
    assert_eq!(d, Directive::StopAll);
    assert!(sup.pending_quit);
    let sent = vec![true; sup.config.program[0].childs.len()];
    sup.config.program[0].stop(&sent, 10);
    assert!(!sup.should_exit());
    // second quit before the children settle: force the exit
    let d = sup.handle_command(Command::Quit);
    assert_eq!(d, Directive::ForceQuit);
    assert!(sup.should_exit());
    // the terminal sweep reaches the still-terminating child: no orphans
    assert_eq!(sup.config.program[0].childs[0].status, Status::Terminating(10));
    let to_kill = sup.config.program[0].kill(20);
    assert_eq!(to_kill, vec![true]);
    assert_eq!(sup.config.program[0].childs[0].status, Status::Stopped(20));
}

#[test]
fn quit_waits_for_quiescence() {
    let mut cfg = live_config(vec![named_program("a", "sleep 60")]);
    cfg.program[0].start(1, 0);
    let mut sup = Supervisor {
        config: cfg,
        config_path: "config/default.toml".to_string(),
        pending_quit: false,
        force_quit: false,
    };
    sup.handle_command(Command::Quit);
    assert!(!sup.should_exit());
    sup.config.program[0].kill(10);
    assert!(sup.should_exit());
}

#[test]
fn named_commands_resolve_or_report_unknown() {
    let cfg = live_config(vec![
        named_program("a", "sleep 60"),
        named_program("b", "sleep 60"),
    ]);
    let mut sup = Supervisor {
        config: cfg,
        config_path: "p.toml".to_string(),
        pending_quit: false,
        force_quit: false,
    };
    assert_eq!(sup.handle_command(Command::Start(String::new())), Directive::StartAll);
    assert_eq!(sup.handle_command(Command::Start("b".to_string())), Directive::StartOne(1));
    assert_eq!(sup.handle_command(Command::Stop("a".to_string())), Directive::StopOne(0));
    assert_eq!(sup.handle_command(Command::Restart("b".to_string())), Directive::RestartOne(1));
    assert_eq!(
        sup.handle_command(Command::Stop("zzz".to_string())),
        Directive::UnknownName("zzz".to_string())
    );
}

#[test]
fn reload_command_resolves_empty_path_to_original() {
    let cfg = live_config(vec![]);
    let mut sup = Supervisor {
        config: cfg,
        config_path: "orig.toml".to_string(),
        pending_quit: false,
        force_quit: false,
    };
    assert_eq!(
        sup.handle_command(Command::Reload(String::new())),
        Directive::LoadFrom("orig.toml".to_string())
    );
    assert_eq!(
        sup.handle_command(Command::Reload("other.toml".to_string())),
        Directive::LoadFrom("other.toml".to_string())
    );
}

#[test]
fn log_level_command_stores_level() {
    let cfg = live_config(vec![]);
    let mut sup = Supervisor {
        config: cfg,
        config_path: "p.toml".to_string(),
        pending_quit: false,
        force_quit: false,
    };
    let d = sup.handle_command(Command::LogLevel("debug".to_string()));
    assert_eq!(d, Directive::ApplyLogLevel);
    assert_eq!(sup.config.loglevel, "debug");
}
