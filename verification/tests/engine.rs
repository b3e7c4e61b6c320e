use velocity_engine::config::types::{
    Config, DaemonConfig, GameRule, LoggingConfig, PluginConfig, ProfileConfig,
};
use velocity_engine::config::{ConfigLoader, ConfigSource};
use velocity_engine::daemon::DaemonEngine;
use velocity_engine::error::EngineError;
use velocity_engine::SystemUtils;
use velocity_engine::optimizer::scheduler::SchedulerOptimizer;
use velocity_engine::optimizer::{
    OptimizationState, OptimizerManager, Step, SysReply, SysRequest,
};

fn rule(name: &str, processes: &[&str], profile: &str) -> GameRule {
    GameRule {
        name: name.to_string(),
        processes: processes.iter().map(|p| p.to_string()).collect(),
        profile: profile.to_string(),
        custom_affinity: None,
        custom_priority: None,
        custom_io_priority: None,
        plugins: vec![],
    }
}

fn gaming_profile() -> ProfileConfig {
    let mut p = ProfileConfig::default();
    p.cpu_governor = Some("performance".to_string());
    p
}

fn config() -> Config {
    Config {
        daemon: DaemonConfig::default(),
        profiles: vec![
            ("gaming".to_string(), gaming_profile()),
            ("default".to_string(), ProfileConfig::default()),
        ],
        games: vec![rule("Test", &["test.exe"], "gaming")],
        plugins: PluginConfig::default(),
        logging: LoggingConfig::default(),
    }
}

fn config_message(r: Result<(), EngineError>) -> String {
    match r {
        Err(EngineError::Config(m)) => m,
        other => panic!("expected a configuration error, got {:?}", other),
    }
}

#[test]
fn defaults() {
    let d = DaemonConfig::default();
    assert_eq!(d.config_path, "/etc/velocity-engine/default.toml");
    assert_eq!(d.poll_interval_ms, 1000);
    assert_eq!(d.restore_timeout_ms, 5000);
    assert!(d.enable_plugins);
    assert_eq!(d.dbus_name, "org.velocityos.Engine");
    let l = LoggingConfig::default();
    assert_eq!((l.level.as_str(), l.journald, l.format.as_str()), ("info", true, "text"));
    let p = PluginConfig::default();
    assert!(p.enabled.is_empty() && p.disabled.is_empty());
    let pc = ProfileConfig::default();
    assert!(pc.cpu_governor.is_none() && pc.tweaks.is_empty());
}

#[test]
fn validation_accepts_and_refuses() {
    assert!(ConfigLoader::validate(&config()).is_ok());

    let mut c = config();
    c.profiles.clear();
    assert_eq!(config_message(ConfigLoader::validate(&c)), "No profiles defined");

    let mut c = config();
    c.games.push(rule("Other", &["o.exe"], "turbo"));
    assert_eq!(
        config_message(ConfigLoader::validate(&c)),
        "Game 'Other' references unknown profile 'turbo'"
    );

    let mut c = config();
    c.daemon.poll_interval_ms = 99;
    assert_eq!(config_message(ConfigLoader::validate(&c)), "poll_interval_ms must be >= 100");

    let mut c = config();
    c.daemon.poll_interval_ms = 100;
    assert!(ConfigLoader::validate(&c).is_ok());
}

#[test]
fn loader_keeps_config_when_reload_fails() {
    let mut loader = ConfigLoader::new("/tmp/v.toml".to_string(), ConfigSource::Parsed(config())).unwrap();
    assert_eq!(loader.path(), "/tmp/v.toml");
    assert_eq!(loader.get().daemon.poll_interval_ms, 1000);
    assert!(loader.get().profiles.iter().any(|(n, _)| n == "gaming"));
    assert_eq!(loader.get().games.len(), 1);
    assert_eq!(loader.get().games[0].name, "Test");

    let r = loader.reload(ConfigSource::Unparsable("bad toml".to_string()));
    assert_eq!(config_message(r), "Cannot parse config: bad toml");
    assert_eq!(loader.get().daemon.poll_interval_ms, 1000);

    let mut bad = config();
    bad.daemon.poll_interval_ms = 10;
    assert!(loader.reload(ConfigSource::Parsed(bad)).is_err());
    assert_eq!(loader.get().daemon.poll_interval_ms, 1000);

    let mut next = config();
    next.daemon.poll_interval_ms = 2000;
    assert!(loader.reload(ConfigSource::Parsed(next)).is_ok());
    assert_eq!(loader.get().daemon.poll_interval_ms, 2000);
}

#[test]
fn loader_reports_unreadable_file() {
    match ConfigLoader::new("/nope".to_string(), ConfigSource::Unreadable("No such file".to_string())) {
        Err(EngineError::Config(m)) => assert_eq!(m, "Cannot read config file: No such file"),
        other => panic!("unexpected {:?}", other.map(|_| ())),
    }
}

/// Drives a run of the optimizer with scripted replies; returns the requests
/// seen and the outcome.
fn drive_apply(
    manager: &mut OptimizerManager,
    run: &mut velocity_engine::optimizer::ApplyRun,
    replies: Vec<SysReply>,
) -> (Vec<String>, Result<(), EngineError>) {
    let mut seen = Vec::new();
    let mut replies = replies.into_iter();
    let mut reply = None;
    loop {
        match manager.apply_step(run, reply.take()) {
            Step::Request(q) => {
                seen.push(format!("{:?}", q));
                reply = replies.next();
            },
            Step::Working => {},
            Step::Done(r) => return (seen, r),
        }
    }
}

fn full_profile() -> ProfileConfig {
    ProfileConfig {
        cpu_governor: Some("performance".to_string()),
        cpu_affinity: Some(vec![0, 1]),
        process_priority: Some(-5),
        io_priority: Some("best-effort".to_string()),
        power_profile: Some("performance".to_string()),
        scheduler: Some("batch".to_string()),
        tweaks: vec![],
    }
}

#[test]
fn apply_then_restore_puts_back_what_was_found() {
    let mut manager = OptimizerManager::new();
    let mut run = manager.apply_profile(&full_profile(), &vec![10]);
    let (seen, result) = drive_apply(
        &mut manager,
        &mut run,
        vec![
            SysReply::Governor(Some("schedutil".to_string())),
            SysReply::Done(Ok(())),
            SysReply::Affinity(vec![0, 1]),
            SysReply::Priority(-1, Some(0)),
            SysReply::Done(Ok(())),
            SysReply::IoPriority(Some(16388)),
            SysReply::Done(Ok(())),
            SysReply::PowerProfile(Some("balanced".to_string())),
            SysReply::Done(Ok(())),
            SysReply::Scheduler(Some("default".to_string())),
            SysReply::Done(Ok(())),
        ],
    );
    assert!(result.is_ok());
    assert_eq!(
        seen,
        vec![
            "ReadGovernor",
            "SetGovernor(\"performance\")",
            "ReadAffinity(10)",
            "ReadPriority(10)",
            "SetPriority(10, -5)",
            "ReadIoPriority(10)",
            "SetIoPriority(10, \"best-effort\", -5)",
            "ReadPowerProfile",
            "SetPowerProfile(\"performance\")",
            "ReadScheduler",
            "SetScheduler(\"batch\")",
        ]
    );
    let state: &OptimizationState = manager.state();
    assert_eq!(state.cpu_governor, Some("schedutil".to_string()));
    assert_eq!(state.cpu_affinity.len(), 0);
    // -1 read with errno 0 counts as 0.
    assert_eq!(state.process_priorities.get(&10), Some(&0));
    // The I/O priority word read before the change is what is kept.
    assert_eq!(state.io_priorities.get(&10), Some(&16388));
    assert_eq!(state.power_profile, Some("balanced".to_string()));
    assert_eq!(state.scheduler, Some("default".to_string()));

    let mut restore = manager.restore();
    let mut seen = Vec::new();
    let mut reply = None;
    let outcome = loop {
        match manager.restore_step(&mut restore, reply.take()) {
            Step::Request(q) => {
                seen.push(format!("{:?}", q));
                // A failed priority change does not stop the restore.
                reply = Some(if matches!(q, SysRequest::SetPriority(..)) {
                    SysReply::Done(Err("gone".to_string()))
                } else {
                    SysReply::Done(Ok(()))
                });
            },
            Step::Working => {},
            Step::Done(r) => break r,
        }
    };
    assert!(outcome.is_ok());
    assert_eq!(
        seen,
        vec![
            "SetGovernor(\"schedutil\")",
            "SetPriority(10, 0)",
            "RestoreIoPriority(10, 16388)",
            "SetPowerProfile(\"balanced\")",
            "SetScheduler(\"default\")",
        ]
    );
    assert!(manager.state().cpu_governor.is_none());
    assert_eq!(manager.state().process_priorities.len(), 0);
    assert_eq!(manager.state().io_priorities.len(), 0);
    let mut again = manager.restore();
    assert!(matches!(manager.restore_step(&mut again, None), Step::Done(Ok(()))));
}

#[test]
fn affinity_change_is_recorded_per_process() {
    let mut manager = OptimizerManager::new();
    let mut p = ProfileConfig::default();
    p.cpu_affinity = Some(vec![2, 3]);
    let mut run = manager.apply_profile(&p, &vec![7, 8]);
    let (seen, result) = drive_apply(
        &mut manager,
        &mut run,
        vec![
            SysReply::Affinity(vec![0, 1, 2, 3]),
            SysReply::Done(Ok(())),
            SysReply::Affinity(vec![2, 3]),
        ],
    );
    assert!(result.is_ok());
    assert_eq!(seen, vec!["ReadAffinity(7)", "SetAffinity(7, [2, 3])", "ReadAffinity(8)"]);
    assert_eq!(manager.state().cpu_affinity.get(&7), Some(&vec![0, 1, 2, 3]));
    assert!(manager.state().cpu_affinity.get(&8).is_none());
}

#[test]
fn failed_change_stops_the_apply() {
    let mut manager = OptimizerManager::new();
    let mut run = manager.apply_profile(&full_profile(), &vec![10]);
    let (_, result) = drive_apply(
        &mut manager,
        &mut run,
        vec![SysReply::Governor(Some("schedutil".to_string())), SysReply::Done(Err("denied".to_string()))],
    );
    match result {
        Err(EngineError::Optimizer(m)) => assert_eq!(m, "Cannot set CPU governor: denied"),
        other => panic!("unexpected {:?}", other),
    }
    assert!(manager.state().cpu_governor.is_none());
    assert!(run.is_over());
}

#[test]
fn failed_io_priority_stops_the_apply() {
    let mut manager = OptimizerManager::new();
    let mut p = ProfileConfig::default();
    p.process_priority = Some(0);
    p.io_priority = Some("idle".to_string());
    let mut run = manager.apply_profile(&p, &vec![3]);
    let (seen, result) = drive_apply(
        &mut manager,
        &mut run,
        vec![
            SysReply::Priority(0, None),
            SysReply::IoPriority(Some(16388)),
            SysReply::Done(Err("EPERM".to_string())),
        ],
    );
    assert_eq!(seen, vec!["ReadPriority(3)", "ReadIoPriority(3)", "SetIoPriority(3, \"idle\", 0)"]);
    match result {
        Err(EngineError::Optimizer(m)) => assert_eq!(m, "Cannot set I/O priority: EPERM"),
        other => panic!("unexpected {:?}", other),
    }
    assert_eq!(manager.state().io_priorities.len(), 0);
}

#[test]
fn minus_one_with_an_error_is_kept_as_read() {
    let mut manager = OptimizerManager::new();
    let mut p = ProfileConfig::default();
    p.process_priority = Some(4);
    let mut run = manager.apply_profile(&p, &vec![12]);
    let (seen, result) = drive_apply(
        &mut manager,
        &mut run,
        vec![SysReply::Priority(-1, Some(3)), SysReply::Done(Ok(()))],
    );
    assert!(result.is_ok());
    assert_eq!(seen, vec!["ReadPriority(12)", "SetPriority(12, 4)"]);
    assert_eq!(manager.state().process_priorities.get(&12), Some(&-1));
}

#[test]
fn priority_alone_sets_only_the_nice_value() {
    let mut manager = OptimizerManager::new();
    let mut p = ProfileConfig::default();
    p.process_priority = Some(-5);
    let mut run = manager.apply_profile(&p, &vec![7, 8]);
    let (seen, result) = drive_apply(
        &mut manager,
        &mut run,
        vec![
            SysReply::Priority(3, Some(0)),
            SysReply::Done(Ok(())),
            SysReply::Priority(-5, Some(0)),
        ],
    );
    assert!(result.is_ok());
    assert_eq!(seen, vec!["ReadPriority(7)", "SetPriority(7, -5)", "ReadPriority(8)"]);
    assert_eq!(manager.state().process_priorities.get(&7), Some(&3));
    assert!(manager.state().process_priorities.get(&8).is_none());
    assert_eq!(manager.state().io_priorities.len(), 0);
}

#[test]
fn io_priority_already_held_is_left_alone() {
    let mut manager = OptimizerManager::new();
    let mut p = ProfileConfig::default();
    p.process_priority = Some(3);
    p.io_priority = Some("best-effort".to_string());
    let mut run = manager.apply_profile(&p, &vec![5]);
    let (seen, result) = drive_apply(
        &mut manager,
        &mut run,
        vec![SysReply::Priority(3, None), SysReply::IoPriority(Some(16387))],
    );
    assert!(result.is_ok());
    assert_eq!(seen, vec!["ReadPriority(5)", "ReadIoPriority(5)"]);
    assert_eq!(manager.state().io_priorities.len(), 0);
}

#[test]
fn unreadable_io_priority_is_set_but_not_recorded() {
    let mut manager = OptimizerManager::new();
    let mut p = ProfileConfig::default();
    p.process_priority = Some(3);
    p.io_priority = Some("realtime".to_string());
    let mut run = manager.apply_profile(&p, &vec![5]);
    let (seen, result) = drive_apply(
        &mut manager,
        &mut run,
        vec![SysReply::Priority(3, None), SysReply::IoPriority(None), SysReply::Done(Ok(()))],
    );
    assert!(result.is_ok());
    assert_eq!(seen, vec!["ReadPriority(5)", "ReadIoPriority(5)", "SetIoPriority(5, \"realtime\", 3)"]);
    assert_eq!(manager.state().io_priorities.len(), 0);
    let mut restore = manager.restore();
    assert!(matches!(manager.restore_step(&mut restore, None), Step::Done(Ok(()))));
}

#[test]
fn failed_io_restore_is_passed_over() {
    let mut manager = OptimizerManager::new();
    let mut p = ProfileConfig::default();
    p.process_priority = Some(1);
    p.io_priority = Some("idle".to_string());
    let mut run = manager.apply_profile(&p, &vec![4]);
    let (_, result) = drive_apply(
        &mut manager,
        &mut run,
        vec![SysReply::Priority(1, None), SysReply::IoPriority(Some(16384)), SysReply::Done(Ok(()))],
    );
    assert!(result.is_ok());
    let mut restore = manager.restore();
    let first = manager.restore_step(&mut restore, None);
    assert_eq!(format!("{:?}", first), "Request(RestoreIoPriority(4, 16384))");
    assert!(matches!(
        manager.restore_step(&mut restore, Some(SysReply::Done(Err("ESRCH".to_string())))),
        Step::Done(Ok(()))
    ));
    assert_eq!(manager.state().io_priorities.len(), 0);
}

#[test]
fn failed_restore_of_governor_is_an_error() {
    let mut manager = OptimizerManager::new();
    let mut run = manager.apply_profile(&gaming_profile(), &vec![]);
    let (_, r) = drive_apply(
        &mut manager,
        &mut run,
        vec![SysReply::Governor(Some("powersave".to_string())), SysReply::Done(Ok(()))],
    );
    assert!(r.is_ok());
    let mut restore = manager.restore();
    assert!(matches!(manager.restore_step(&mut restore, None), Step::Request(SysRequest::SetGovernor(_))));
    match manager.restore_step(&mut restore, Some(SysReply::Done(Err("busy".to_string())))) {
        Step::Done(Err(EngineError::Optimizer(m))) => assert_eq!(m, "Cannot restore CPU governor: busy"),
        other => panic!("unexpected {:?}", other),
    }
    assert_eq!(manager.state().cpu_governor, Some("powersave".to_string()));
}

#[test]
fn optimizer_names() {
    let manager = OptimizerManager::new();
    assert_eq!(manager.list_optimizers(), vec!["cpu", "io", "power", "scheduler"]);
}

#[test]
fn scheduler_commands() {
    assert_eq!(SchedulerOptimizer::set_scheduler("normal"), Ok(vec!["-o".to_string(), "0".to_string(), "0".to_string()]));
    assert_eq!(SchedulerOptimizer::set_scheduler("batch"), Ok(vec!["-b".to_string(), "0".to_string(), "0".to_string()]));
    assert_eq!(SchedulerOptimizer::set_scheduler("fifo"), Err("Unknown scheduler: fifo".to_string()));
    assert_eq!(SchedulerOptimizer::get_current_scheduler(Some("x".to_string())), Some("default".to_string()));
    assert_eq!(SchedulerOptimizer::get_current_scheduler(None), None);
}

/// Drives an engine run on a simulated system whose governor starts as
/// `governor`; every change succeeds.
fn drive_engine(
    engine: &mut DaemonEngine,
    run: &mut velocity_engine::daemon::EngineRun,
    governor: &str,
) -> (Vec<String>, Result<(), EngineError>) {
    let mut seen = Vec::new();
    let mut reply = None;
    let mut current = governor.to_string();
    loop {
        match engine.step(run, reply.take()) {
            Step::Request(q) => {
                seen.push(format!("{:?}", q));
                if let SysRequest::SetGovernor(g) = &q {
                    current = g.clone();
                }
                reply = Some(match q {
                    SysRequest::ReadGovernor => SysReply::Governor(Some(current.clone())),
                    SysRequest::ReadAffinity(_) => SysReply::Affinity(vec![]),
                    SysRequest::ReadPriority(_) => SysReply::Priority(0, Some(0)),
                    SysRequest::ReadIoPriority(_) => SysReply::IoPriority(Some(0)),
                    SysRequest::ReadPowerProfile => SysReply::PowerProfile(None),
                    SysRequest::ReadScheduler => SysReply::Scheduler(None),
                    _ => SysReply::Done(Ok(())),
                });
            },
            Step::Working => {},
            Step::Done(r) => return (seen, r),
        }
    }
}

#[test]
fn engine_detects_optimizes_and_restores() {
    let mut engine = DaemonEngine::new(config()).unwrap();
    assert_eq!(engine.active_profile(), "default");
    assert_eq!(engine.active_games_count(), 0);
    assert_eq!(engine.dbus_name(), "org.velocityos.Engine");
    assert_eq!(engine.poll_interval(), 1000);
    assert_eq!(engine.list_games(), vec!["Test".to_string()]);
    assert_eq!(engine.list_profiles(), vec!["gaming".to_string(), "default".to_string()]);
    assert_eq!(engine.get_applied_optimizations().len(), 4);
    assert_eq!(engine.status(), "active_games=0, active_profile=default");

    let processes = vec![(100u32, "test.exe".to_string())];
    let mut run = engine.detect_and_optimize(&processes);
    let (seen, r) = drive_engine(&mut engine, &mut run, "schedutil");
    assert!(r.is_ok());
    // The profile is applied twice; the second time the governor already holds.
    assert_eq!(seen, vec!["ReadGovernor", "SetGovernor(\"performance\")", "ReadGovernor"]);
    assert_eq!(engine.active_profile(), "gaming");
    assert_eq!(engine.active_games_count(), 1);
    assert_eq!(engine.status(), "active_games=1, active_profile=gaming");

    // Detected again: already active, nothing more is applied.
    let mut run = engine.detect_and_optimize(&processes);
    let (seen, r) = drive_engine(&mut engine, &mut run, "performance");
    assert!(r.is_ok());
    assert!(seen.is_empty());

    // The game stops: what was found before is put back.
    let mut run = engine.game_stopped("Test");
    let (seen, r) = drive_engine(&mut engine, &mut run, "performance");
    assert!(r.is_ok());
    assert_eq!(seen, vec!["SetGovernor(\"schedutil\")"]);
    assert_eq!(engine.active_profile(), "default");
    assert_eq!(engine.active_games_count(), 0);
}

#[test]
fn engine_restores_when_no_game_runs() {
    let mut engine = DaemonEngine::new(config()).unwrap();
    let mut run = engine.detect_and_optimize(&vec![(1u32, "test.exe".to_string())]);
    assert!(drive_engine(&mut engine, &mut run, "ondemand").1.is_ok());
    let mut run = engine.detect_and_optimize(&vec![]);
    let (seen, r) = drive_engine(&mut engine, &mut run, "performance");
    assert!(r.is_ok());
    assert_eq!(seen, vec!["SetGovernor(\"ondemand\")"]);
    assert_eq!(engine.active_games_count(), 0);
    assert_eq!(engine.active_profile(), "default");
    // Nothing recorded any more: a further check asks nothing.
    let mut run = engine.detect_and_optimize(&vec![]);
    let (seen, r) = drive_engine(&mut engine, &mut run, "performance");
    assert!(r.is_ok() && seen.is_empty());
}

#[test]
fn engine_refuses_unknown_profiles() {
    let mut engine = DaemonEngine::new(config()).unwrap();
    let mut run = engine.game_started("Test", "turbo", &vec![]);
    match drive_engine(&mut engine, &mut run, "x").1 {
        Err(EngineError::Profile(m)) => assert_eq!(m, "Profile not found: turbo"),
        other => panic!("unexpected {:?}", other),
    }
    let mut run = engine.activate_profile("turbo", &vec![]);
    assert!(matches!(drive_engine(&mut engine, &mut run, "x").1, Err(EngineError::Profile(_))));
    assert_eq!(engine.active_profile(), "default");

    let mut c = config();
    c.games.push(rule("Ghost", &["ghost"], "nowhere"));
    let mut engine = DaemonEngine::new(c).unwrap();
    let mut run = engine.detect_and_optimize(&vec![(3u32, "ghost".to_string())]);
    match drive_engine(&mut engine, &mut run, "x").1 {
        Err(EngineError::Profile(m)) => assert_eq!(m, "Profile not found: nowhere"),
        other => panic!("unexpected {:?}", other),
    }
    assert_eq!(engine.active_games_count(), 1);
}

#[test]
fn engine_activates_profiles_by_request() {
    let mut engine = DaemonEngine::new(config()).unwrap();
    let mut run = engine.game_started("Test", "gaming", &vec![(9u32, "test.exe".to_string())]);
    let (seen, r) = drive_engine(&mut engine, &mut run, "powersave");
    assert!(r.is_ok());
    assert_eq!(seen, vec!["ReadGovernor", "SetGovernor(\"performance\")"]);
    assert_eq!(engine.active_profile(), "gaming");
    assert_eq!(engine.active_games_count(), 1);
    let mut run = engine.activate_profile("default", &vec![]);
    assert!(drive_engine(&mut engine, &mut run, "performance").1.is_ok());
    assert_eq!(engine.active_profile(), "default");
    let mut run = engine.restore_all();
    let (seen, r) = drive_engine(&mut engine, &mut run, "x");
    assert!(r.is_ok());
    assert_eq!(seen, vec!["SetGovernor(\"powersave\")"]);
    assert_eq!(engine.active_profile(), "default");
    assert_eq!(engine.active_games_count(), 0);
}

#[test]
fn plugin_started_game_is_restored_when_it_stops() {
    let mut engine = DaemonEngine::new(config()).unwrap();
    let mut run = engine.game_started("G", "gaming", &vec![]);
    let (seen, r) = drive_engine(&mut engine, &mut run, "powersave");
    assert!(r.is_ok());
    assert_eq!(seen, vec!["ReadGovernor", "SetGovernor(\"performance\")"]);
    assert_eq!(engine.active_profile(), "gaming");
    assert_eq!(engine.active_games_count(), 1);
    // No configured game runs, but the plugin's game is left to the plugin.
    let mut run = engine.detect_and_optimize(&vec![]);
    let (seen, r) = drive_engine(&mut engine, &mut run, "performance");
    assert!(r.is_ok() && seen.is_empty());
    assert_eq!(engine.active_profile(), "gaming");
    let mut run = engine.game_stopped("G");
    let (seen, r) = drive_engine(&mut engine, &mut run, "performance");
    assert!(r.is_ok());
    assert_eq!(seen, vec!["SetGovernor(\"powersave\")"]);
    assert_eq!(engine.active_profile(), "default");
    assert_eq!(engine.active_games_count(), 0);
}

#[test]
fn reload_takes_up_the_new_configuration() {
    let mut engine = DaemonEngine::new(config()).unwrap();
    let mut run = engine.game_started("Test", "gaming", &vec![]);
    assert!(drive_engine(&mut engine, &mut run, "powersave").1.is_ok());
    let mut c = config();
    c.profiles = vec![("quiet".to_string(), ProfileConfig::default())];
    c.games = vec![rule("Other", &["other.bin"], "quiet"), rule("Third", &["third"], "quiet")];
    c.daemon.poll_interval_ms = 250;
    assert!(engine.reload_config(c).is_ok());
    assert_eq!(engine.list_profiles(), vec!["quiet".to_string()]);
    assert_eq!(engine.list_games(), vec!["Other".to_string(), "Third".to_string()]);
    assert_eq!(engine.poll_interval(), 250);
    // What was applied before the reload is still kept, and still put back.
    assert_eq!(engine.active_profile(), "gaming");
    assert_eq!(engine.active_games_count(), 1);
    let mut run = engine.game_stopped("Test");
    let (seen, r) = drive_engine(&mut engine, &mut run, "performance");
    assert!(r.is_ok());
    assert_eq!(seen, vec!["SetGovernor(\"powersave\")"]);
}

#[test]
fn status_counts_many_games() {
    let mut c = config();
    c.games = (0..12).map(|i| rule(&format!("G{}", i), &[&format!("g{}.exe", i)], "default")).collect();
    let mut engine = DaemonEngine::new(c).unwrap();
    let processes: Vec<(u32, String)> = (0..12).map(|i| (i as u32 + 1, format!("g{}.exe", i))).collect();
    let mut run = engine.detect_and_optimize(&processes);
    let (seen, r) = drive_engine(&mut engine, &mut run, "x");
    assert!(r.is_ok() && seen.is_empty());
    assert_eq!(engine.status(), "active_games=12, active_profile=default");
    // The last game stops: nothing was changed, so nothing is asked.
    for i in 0..12 {
        let mut run = engine.game_stopped(&format!("G{}", i));
        let (seen, r) = drive_engine(&mut engine, &mut run, "x");
        assert!(r.is_ok() && seen.is_empty());
    }
    assert_eq!(engine.status(), "active_games=0, active_profile=default");
}

/// A system whose reads report the value in force and whose changes take effect.
#[derive(Clone, Debug, PartialEq)]
struct Sim {
    governor: String,
    affinity: std::collections::BTreeMap<u32, Vec<usize>>,
    nice: std::collections::BTreeMap<u32, i32>,
    io: std::collections::BTreeMap<u32, i32>,
    power: String,
    scheduler: String,
}

impl Sim {
    fn answer(&mut self, q: SysRequest) -> SysReply {
        match q {
            SysRequest::ReadGovernor => SysReply::Governor(Some(self.governor.clone())),
            SysRequest::ReadAffinity(p) => SysReply::Affinity(self.affinity[&p].clone()),
            SysRequest::ReadPriority(p) => SysReply::Priority(self.nice[&p], Some(0)),
            SysRequest::ReadIoPriority(p) => SysReply::IoPriority(Some(self.io[&p])),
            SysRequest::ReadPowerProfile => SysReply::PowerProfile(Some(self.power.clone())),
            SysRequest::ReadScheduler => SysReply::Scheduler(Some(self.scheduler.clone())),
            SysRequest::SetGovernor(g) => {
                self.governor = g;
                SysReply::Done(Ok(()))
            },
            SysRequest::SetAffinity(p, c) => {
                self.affinity.insert(p, c);
                SysReply::Done(Ok(()))
            },
            SysRequest::SetPriority(p, l) => {
                self.nice.insert(p, l);
                SysReply::Done(Ok(()))
            },
            SysRequest::SetIoPriority(p, c, l) => match SystemUtils::io_priority_data(&c, l) {
                Ok(w) => {
                    self.io.insert(p, w);
                    SysReply::Done(Ok(()))
                },
                Err(e) => SysReply::Done(Err(e)),
            },
            SysRequest::RestoreIoPriority(p, w) => {
                self.io.insert(p, w);
                SysReply::Done(Ok(()))
            },
            SysRequest::SetPowerProfile(x) => {
                self.power = x;
                SysReply::Done(Ok(()))
            },
            SysRequest::SetScheduler(x) => {
                self.scheduler = x;
                SysReply::Done(Ok(()))
            },
        }
    }
}

#[test]
fn apply_then_restore_leaves_the_system_as_it_was() {
    let mut sim = Sim {
        governor: "schedutil".to_string(),
        affinity: [(10, vec![0, 1, 2, 3]), (11, vec![0, 1])].into_iter().collect(),
        nice: [(10, 0), (11, -5)].into_iter().collect(),
        io: [(10, 16388), (11, 16384)].into_iter().collect(),
        power: "balanced".to_string(),
        scheduler: "default".to_string(),
    };
    let before = sim.clone();
    let mut manager = OptimizerManager::new();
    let mut run = manager.apply_profile(&full_profile(), &vec![10, 11, 10]);
    let mut reply = None;
    let applied = loop {
        match manager.apply_step(&mut run, reply.take()) {
            Step::Request(q) => reply = Some(sim.answer(q)),
            Step::Working => {},
            Step::Done(r) => break r,
        }
    };
    assert!(applied.is_ok());
    assert_eq!(sim.governor, "performance");
    assert_eq!(sim.affinity[&10], vec![0, 1]);
    assert_eq!(sim.nice[&10], -5);
    assert_eq!(sim.io[&10], 16384);
    assert_eq!(sim.io[&11], 16384);
    let mut restore = manager.restore();
    let restored = loop {
        match manager.restore_step(&mut restore, reply.take()) {
            Step::Request(q) => reply = Some(sim.answer(q)),
            Step::Working => {},
            Step::Done(r) => break r,
        }
    };
    assert!(restored.is_ok());
    assert_eq!(sim, before);
}

#[test]
fn first_recorded_value_is_what_is_put_back() {
    let mut sim = Sim {
        governor: "schedutil".to_string(),
        affinity: [(3, vec![0, 1, 2, 3])].into_iter().collect(),
        nice: [(3, 2)].into_iter().collect(),
        io: [(3, 16388)].into_iter().collect(),
        power: "balanced".to_string(),
        scheduler: "default".to_string(),
    };
    let before = sim.clone();
    let mut manager = OptimizerManager::new();
    let mut quiet = ProfileConfig::default();
    quiet.cpu_governor = Some("powersave".to_string());
    quiet.process_priority = Some(10);
    quiet.io_priority = Some("idle".to_string());
    for profile in [full_profile(), quiet] {
        let mut run = manager.apply_profile(&profile, &vec![3]);
        let mut reply = None;
        let applied = loop {
            match manager.apply_step(&mut run, reply.take()) {
                Step::Request(q) => reply = Some(sim.answer(q)),
                Step::Working => {},
                Step::Done(r) => break r,
            }
        };
        assert!(applied.is_ok());
    }
    assert_eq!(sim.governor, "powersave");
    assert_eq!(sim.nice[&3], 10);
    assert_eq!(manager.state().cpu_governor, Some("schedutil".to_string()));
    assert_eq!(manager.state().process_priorities.get(&3), Some(&2));
    assert_eq!(manager.state().io_priorities.get(&3), Some(&16388));
    let mut restore = manager.restore();
    let mut reply = None;
    let restored = loop {
        match manager.restore_step(&mut restore, reply.take()) {
            Step::Request(q) => reply = Some(sim.answer(q)),
            Step::Working => {},
            Step::Done(r) => break r,
        }
    };
    assert!(restored.is_ok());
    assert_eq!(sim, before);
}

fn drive_engine_on(
    engine: &mut DaemonEngine,
    run: &mut velocity_engine::daemon::EngineRun,
    sim: &mut Sim,
) -> Result<(), EngineError> {
    let mut reply = None;
    loop {
        match engine.step(run, reply.take()) {
            Step::Request(q) => reply = Some(sim.answer(q)),
            Step::Working => {},
            Step::Done(r) => return r,
        }
    }
}

#[test]
fn game_exit_leaves_the_system_as_it_was() {
    let mut c = config();
    c.profiles[0].1 = full_profile();
    let mut engine = DaemonEngine::new(c).unwrap();
    let mut sim = Sim {
        governor: "schedutil".to_string(),
        affinity: [(100, vec![0, 1, 2, 3]), (101, vec![2])].into_iter().collect(),
        nice: [(100, 0), (101, 1)].into_iter().collect(),
        io: [(100, 4), (101, 24576)].into_iter().collect(),
        power: "balanced".to_string(),
        scheduler: "default".to_string(),
    };
    let before = sim.clone();
    let processes = vec![(100u32, "test.exe".to_string()), (7u32, "bash".to_string())];
    let mut run = engine.detect_and_optimize(&processes);
    assert!(drive_engine_on(&mut engine, &mut run, &mut sim).is_ok());
    assert_eq!(engine.active_profile(), "gaming");
    assert_eq!(sim.governor, "performance");
    assert_eq!(sim.nice[&100], -5);
    assert_eq!(sim.io[&100], 16384);
    // A plugin starts a second game, then the profile is changed by hand.
    let mut run = engine.game_started("Plugged", "default", &vec![(101u32, "Plugged".to_string())]);
    assert!(drive_engine_on(&mut engine, &mut run, &mut sim).is_ok());
    let mut quiet = ProfileConfig::default();
    quiet.process_priority = Some(7);
    let mut c2 = config();
    c2.profiles.push(("quiet".to_string(), quiet));
    assert!(engine.reload_config(c2).is_ok());
    let mut run = engine.activate_profile("quiet", &processes);
    assert!(drive_engine_on(&mut engine, &mut run, &mut sim).is_ok());
    assert_eq!(sim.nice[&100], 7);
    let mut run = engine.game_stopped("Plugged");
    assert!(drive_engine_on(&mut engine, &mut run, &mut sim).is_ok());
    assert_eq!(sim.nice[&100], 7);
    let mut run = engine.game_stopped("Test");
    assert!(drive_engine_on(&mut engine, &mut run, &mut sim).is_ok());
    assert_eq!(sim, before);
    assert_eq!(engine.active_profile(), "default");
    assert_eq!(engine.active_games_count(), 0);
}
