use compose_menu::launcher::{launcher_actions, Launcher, LauncherAction};

#[test]
fn first_probe_success_launches_without_restart() {
    let actions = launcher_actions(&vec![true]);
    assert_eq!(actions, vec![LauncherAction::Launch]);
}

#[test]
fn n_failures_mean_n_restarts_then_one_launch() {
    let actions = launcher_actions(&vec![false, false, false, true]);
    let expected = vec![
        LauncherAction::Restart,
        LauncherAction::Restart,
        LauncherAction::Restart,
        LauncherAction::Launch,
    ];
    assert_eq!(actions, expected);
}

#[test]
fn probes_after_first_success_are_not_consumed() {
    let actions = launcher_actions(&vec![false, true, false, true]);
    assert_eq!(actions, vec![LauncherAction::Restart, LauncherAction::Launch]);
}

#[test]
fn failing_probes_only_restart() {
    let actions = launcher_actions(&vec![false, false]);
    assert_eq!(actions, vec![LauncherAction::Restart, LauncherAction::Restart]);
}

#[test]
fn step_counts_restarts_until_launch() {
    let mut launcher = Launcher::new();
    assert!(!launcher.launched);
    assert_eq!(launcher.restarts, 0);
    assert_eq!(launcher.step(false), LauncherAction::Restart);
    assert_eq!(launcher.step(false), LauncherAction::Restart);
    assert_eq!(launcher.restarts, 2);
    assert!(!launcher.launched);
    assert_eq!(launcher.step(true), LauncherAction::Launch);
    assert!(launcher.launched);
    assert_eq!(launcher.restarts, 2);
}
