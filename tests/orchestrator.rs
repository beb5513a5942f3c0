use steam_patch::orchestrator::{first_step, is_client_running, log_path_for, next_step, CycleStep};

#[test]
fn client_detected_by_exact_name() {
    let names = vec!["bash".to_string(), "steamwebhelper".to_string(), "steam".to_string()];
    assert!(is_client_running(&names));
    let names = vec!["steamwebhelper".to_string(), "Steam".to_string()];
    assert!(!is_client_running(&names));
    assert!(!is_client_running(&Vec::new()));
}

#[test]
fn log_path_for_user() {
    assert_eq!(log_path_for("deck"), "/home/deck/.local/share/Steam/logs/bootstrap_log.txt");
}

#[test]
fn cycle_runs_in_order() {
    let mut step = first_step();
    assert_eq!(step, CycleStep::Connect);
    step = next_step(step, true);
    assert_eq!(step, CycleStep::ApplyPatches);
    step = next_step(step, false);
    assert_eq!(step, CycleStep::Reload);
    step = next_step(step, true);
    assert_eq!(step, CycleStep::Finished);
}

#[test]
fn cycle_abandoned_without_connection() {
    assert_eq!(next_step(CycleStep::Connect, false), CycleStep::Finished);
}
