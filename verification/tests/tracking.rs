use std::collections::HashSet;

use tlscope::process::tracking::{matching_processes, ProcessInfo, ProcessTrackingConfig};

#[test]
fn tracks_descendants_of_child_process() {
    let snapshot = vec![
        ProcessInfo {
            pid: 10,
            parent_pid: None,
            name: "parent.exe".to_string(),
            executable_path: None,
        },
        ProcessInfo {
            pid: 11,
            parent_pid: Some(10),
            name: "worker.exe".to_string(),
            executable_path: None,
        },
    ];

    let matches = matching_processes(
        &ProcessTrackingConfig::default(),
        Some(10),
        &HashSet::new(),
        &snapshot,
    );

    assert_eq!(
        matches
            .iter()
            .map(|process| process.pid)
            .collect::<Vec<_>>(),
        [10, 11]
    );
}

#[test]
fn ignores_baseline_matching_processes_but_tracks_new_ones() {
    let mut config = ProcessTrackingConfig::default();
    config.add_process_name("game.exe");
    let baseline = HashSet::from([1]);
    let snapshot = vec![
        ProcessInfo {
            pid: 1,
            parent_pid: None,
            name: "game.exe".to_string(),
            executable_path: None,
        },
        ProcessInfo {
            pid: 2,
            parent_pid: None,
            name: "game.exe".to_string(),
            executable_path: None,
        },
    ];

    let matches = matching_processes(&config, None, &baseline, &snapshot);

    assert_eq!(
        matches
            .iter()
            .map(|process| process.pid)
            .collect::<Vec<_>>(),
        [2]
    );
}

#[test]
fn matches_process_by_file_stem() {
    let mut config = ProcessTrackingConfig::default();
    config.add_process_name("The Farmer Was Replaced");
    let snapshot = vec![ProcessInfo {
        pid: 7,
        parent_pid: None,
        name: "The Farmer Was Replaced.exe".to_string(),
        executable_path: None,
    }];

    let matches = matching_processes(&config, None, &HashSet::new(), &snapshot);

    assert_eq!(
        matches
            .iter()
            .map(|process| process.pid)
            .collect::<Vec<_>>(),
        [7]
    );
}
