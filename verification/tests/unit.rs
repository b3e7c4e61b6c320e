use velocity_engine::config::types::{GameRule, ProfileConfig};
use velocity_engine::detector::GameDetector;
use velocity_engine::profiles::ProfileManager;
use velocity_engine::system::SystemUtils;

fn rule(name: &str, processes: &[&str], profile: &str) -> GameRule {
    GameRule {
        name: name.to_string(),
        processes: processes.iter().map(|p| p.to_string()).collect(),
        profile: profile.to_string(),
        custom_affinity: None,
        custom_priority: None,
        custom_io_priority: None,
        plugins: vec![],
    }
}

#[test]
fn test_profile_manager_get_profile() {
    let mut profiles = Vec::new();
    profiles.push(("gaming".to_string(), ProfileConfig::default()));

    let manager = ProfileManager::new(profiles, vec![]);
    assert!(manager.get_profile("gaming").is_some());
    assert!(manager.get_profile("nonexistent").is_none());
}

#[test]
fn test_profile_manager_find_profile_for_process() {
    let mut profiles = Vec::new();
    profiles.push(("gaming".to_string(), ProfileConfig::default()));

    let games = vec![GameRule {
        name: "Test".to_string(),
        processes: vec!["test.exe".to_string()],
        profile: "gaming".to_string(),
        custom_affinity: None,
        custom_priority: None,
        custom_io_priority: None,
        plugins: vec![],
    }];

    let manager = ProfileManager::new(profiles, games);
    assert!(manager.find_profile_for_process("test.exe").is_some());
    assert!(manager.find_profile_for_process("other.exe").is_none());
}

#[test]
fn test_game_detector_active_tracking() {
    let games = vec![GameRule {
        name: "Test".to_string(),
        processes: vec!["nonexistent.exe".to_string()],
        profile: "gaming".to_string(),
        custom_affinity: None,
        custom_priority: None,
        custom_io_priority: None,
        plugins: vec![],
    }];

    let mut detector = GameDetector::new(games);
    // No game is running, so detected list should be empty
    let processes = vec![(1u32, "systemd".to_string()), (42u32, "bash".to_string())];
    let detected = detector.check_games(&processes).unwrap();
    assert!(detected.is_empty());
}

#[test]
fn test_system_utils_parse_cpu_list() {
    let result = SystemUtils::parse_cpu_list("0-3,5,7-8");
    assert_eq!(result, vec![0, 1, 2, 3, 5, 7, 8]);
}

#[test]
fn parse_cpu_list_edge_cases() {
    assert_eq!(SystemUtils::parse_cpu_list(""), Vec::<usize>::new());
    assert_eq!(SystemUtils::parse_cpu_list("5"), vec![5]);
    assert_eq!(SystemUtils::parse_cpu_list("3-1"), Vec::<usize>::new());
    assert_eq!(SystemUtils::parse_cpu_list("a,2"), vec![2]);
    assert_eq!(SystemUtils::parse_cpu_list("1-2-3,4"), vec![4]);
    assert_eq!(SystemUtils::parse_cpu_list("+4"), vec![4]);
    assert_eq!(SystemUtils::parse_cpu_list(" 5"), Vec::<usize>::new());
    assert_eq!(SystemUtils::parse_cpu_list("2-2"), vec![2]);
    assert_eq!(SystemUtils::parse_cpu_list("-3"), Vec::<usize>::new());
    assert_eq!(SystemUtils::parse_cpu_list("99999999999999999999999"), Vec::<usize>::new());
}

#[test]
fn read_first_line_cases() {
    assert_eq!(
        SystemUtils::read_first_line(Some("performance\nother\n".to_string())),
        Some("performance".to_string())
    );
    assert_eq!(SystemUtils::read_first_line(Some("a\r\nb".to_string())), Some("a".to_string()));
    assert_eq!(SystemUtils::read_first_line(Some("\nb".to_string())), Some(String::new()));
    assert_eq!(SystemUtils::read_first_line(Some(String::new())), None);
    assert_eq!(SystemUtils::read_first_line(None), None);
    assert_eq!(
        SystemUtils::get_current_cpu_governor(Some("schedutil\n".to_string())),
        Some("schedutil".to_string())
    );
}

#[test]
fn available_governors_are_words() {
    assert_eq!(
        SystemUtils::get_available_governors(Some("performance  powersave\tschedutil \n".to_string())),
        vec!["performance".to_string(), "powersave".to_string(), "schedutil".to_string()]
    );
    assert!(SystemUtils::get_available_governors(None).is_empty());
    assert!(SystemUtils::get_available_governors(Some(" \n".to_string())).is_empty());
}

#[test]
fn cpu_affinity_from_status() {
    let status = "Name:\tgame\nCpus_allowed:\tff\nCpus_allowed_list:\t0-3,6\nMems_allowed:\t1\n";
    assert_eq!(SystemUtils::get_cpu_affinity(Some(status.to_string())), vec![0, 1, 2, 3, 6]);
    assert!(SystemUtils::get_cpu_affinity(Some("Name:\tx\n".to_string())).is_empty());
    assert!(SystemUtils::get_cpu_affinity(None).is_empty());
    let two_colons = "Cpus_allowed_list: 1:2\nCpus_allowed_list: 7\n";
    assert_eq!(SystemUtils::get_cpu_affinity(Some(two_colons.to_string())), vec![7]);
}

#[test]
fn processes_by_name() {
    let processes = vec![
        (10u32, "game.exe".to_string()),
        (11u32, "bash".to_string()),
        (12u32, "game.exe".to_string()),
    ];
    assert!(SystemUtils::is_process_running("bash", &processes));
    assert!(!SystemUtils::is_process_running("zsh", &processes));
    assert_eq!(SystemUtils::find_pids_by_name("game.exe", &processes), vec![10, 12]);
    assert!(SystemUtils::find_pids_by_name("zsh", &processes).is_empty());
}

#[test]
fn process_names_from_cmdline() {
    assert_eq!(SystemUtils::process_name(&b"/usr/bin/game\0--fullscreen\0".to_vec()), "game");
    assert_eq!(SystemUtils::process_name(&b"plain".to_vec()), "plain");
    assert_eq!(SystemUtils::process_name(&b"".to_vec()), "");
    assert_eq!(SystemUtils::process_name(&b"/opt/\xffbad/x\xff\0y".to_vec()), "x\u{fffd}");
}

#[test]
fn process_list_from_proc_entries() {
    let entries: Vec<(String, Option<Vec<u8>>)> = vec![
        ("1".to_string(), Some(b"/sbin/init\0splash".to_vec())),
        ("self".to_string(), Some(b"/bin/cat".to_vec())),
        ("2".to_string(), None),
        ("3".to_string(), Some(Vec::new())),
        ("44".to_string(), Some(b"steam".to_vec())),
        ("99999999999".to_string(), Some(b"big".to_vec())),
    ];
    let list = SystemUtils::get_process_list(&entries);
    assert_eq!(list, vec![(1u32, "init".to_string()), (44u32, "steam".to_string())]);
}

#[test]
fn io_priority_words() {
    assert_eq!(SystemUtils::io_priority_data("realtime", 4), Ok(8196));
    assert_eq!(SystemUtils::io_priority_data("realtime", 12), Ok(8199));
    assert_eq!(SystemUtils::io_priority_data("best-effort", -5), Ok(16384));
    assert_eq!(SystemUtils::io_priority_data("best-effort", 3), Ok(16387));
    assert_eq!(SystemUtils::io_priority_data("idle", 5), Ok(24576));
    assert_eq!(
        SystemUtils::io_priority_data("bogus", 1),
        Err("Unknown I/O priority class: bogus".to_string())
    );
}

#[test]
fn affinity_masks() {
    assert_eq!(SystemUtils::affinity_mask(&vec![0, 2]), 5);
    assert_eq!(SystemUtils::affinity_mask(&vec![63, 64, 100]), 1u64 << 63);
    assert_eq!(SystemUtils::affinity_mask(&vec![]), 0);
    assert_eq!(SystemUtils::affinity_mask(&vec![1, 1]), 2);
}

#[test]
fn later_profile_of_same_name_wins() {
    let mut fast = ProfileConfig::default();
    fast.cpu_governor = Some("performance".to_string());
    let mut slow = ProfileConfig::default();
    slow.cpu_governor = Some("powersave".to_string());
    let profiles = vec![
        ("p".to_string(), fast),
        ("q".to_string(), ProfileConfig::default()),
        ("p".to_string(), slow),
    ];
    let manager = ProfileManager::new(profiles, vec![]);
    assert_eq!(
        manager.get_profile("p").unwrap().cpu_governor,
        Some("powersave".to_string())
    );
    assert_eq!(manager.list_profiles(), vec!["p".to_string(), "q".to_string()]);
}

#[test]
fn game_rules_and_lists() {
    let mut profiles = Vec::new();
    profiles.push(("gaming".to_string(), ProfileConfig::default()));
    let games = vec![
        rule("A", &["a.exe"], "gaming"),
        rule("B", &["b.exe", "shared.exe"], "missing"),
        rule("C", &["shared.exe"], "gaming"),
    ];
    let manager = ProfileManager::new(profiles, games);
    assert_eq!(manager.get_game_rule("B").unwrap().profile, "missing");
    assert!(manager.get_game_rule("Z").is_none());
    let names: Vec<String> = manager.list_games().into_iter().cloned().collect();
    assert_eq!(names, vec!["A".to_string(), "B".to_string(), "C".to_string()]);
    // The first game listing the process decides, even if its profile is missing.
    assert!(manager.find_profile_for_process("shared.exe").is_none());
    assert!(manager.find_profile_for_process("a.exe").is_some());
}

#[test]
fn detector_reports_running_games_once() {
    let games = vec![
        rule("A", &["a.exe", "a2.exe"], "gaming"),
        rule("B", &["b.exe"], "gaming"),
        rule("A", &["other.exe"], "gaming"),
    ];
    let mut detector = GameDetector::new(games);
    let processes = vec![(5u32, "a2.exe".to_string()), (6u32, "other.exe".to_string())];
    let detected = detector.check_games(&processes).unwrap();
    assert_eq!(detected.len(), 1);
    assert_eq!(detected[0].name, "A");
    assert_eq!(detected[0].processes, vec!["a.exe".to_string(), "a2.exe".to_string()]);
    assert!(detector.is_game_active("A"));
    assert!(!detector.is_game_active("B"));
    assert_eq!(detector.get_active_games(), vec!["A".to_string()]);
    assert_eq!(detector.games().len(), 3);
    let detected = detector.check_games(&vec![]).unwrap();
    assert!(detected.is_empty());
    assert!(detector.get_active_games().is_empty());
}
