//! End-to-end scenarios on the session state: one-shot transfers,
//! background watch jobs, termination, and background-mode switches.

use back_me_up::commands::app::{
    add_backup, backup_on_change, delete_backup, set_background_backups,
    start_background_backups, terminate_background_backup, BackgroundChange,
};
use back_me_up::commands::{
    check_job_status, graceful_exit, reset, set_config, set_state_and_test_connection,
};
use back_me_up::jobs::backup::{entity_to_server, finish_backup};
use back_me_up::jobs::Status;
use back_me_up::models::app::{AppState, Config};
use back_me_up::models::backup::{Backup, Kind, Location, Options};
use back_me_up::ssh::commands::backup_to_server;

fn test_config(allow_background: bool) -> Config {
    Config {
        client_name: "H1".to_string(),
        username: "H1".to_string(),
        server_address: "host".to_string(),
        server_port: 22,
        allow_background_backup: allow_background,
    }
}

fn directory_backup(client: &str, server: &str, use_client_directory: bool) -> Backup {
    let client_entity = client.rsplit('/').next().unwrap_or("").to_string();
    let server_entity = server.rsplit('/').next().unwrap_or("").to_string();
    Backup {
        kind: Kind::Directory,
        client_location: Location {
            entity_name: client_entity,
            path: client.to_string(),
        },
        server_location: Location {
            entity_name: server_entity,
            path: server.to_string(),
        },
        latest_run: None,
        options: Some(Options {
            use_client_directory,
        }),
    }
}

fn connected_state(allow_background: bool) -> AppState {
    let mut state = AppState::new(None, "/cache".to_string(), "/log".to_string());
    let outcome = set_state_and_test_connection(&mut state, test_config(allow_background), true);
    assert!(outcome.is_ok());
    state
}

#[test]
fn one_shot_transfer_runs_and_completes() {
    let mut state = connected_state(false);
    let backup = directory_backup("/a/b", "/s/t", true);
    let push = entity_to_server(&mut state, &backup).expect("scheduling must succeed");
    assert_eq!(push.backup.server_location.path, "/s/t/H1");
    assert_eq!(push.folder_to_assert, "./t/H1");
    assert_eq!(push.job_id, "/a/b_/s/t/H1_backup");
    assert!(matches!(
        check_job_status(&state, &push.job_id),
        Status::Running
    ));
    let rsync = backup_to_server(&push.backup, &test_config(false), true);
    assert_eq!(rsync.destination, "H1@host:/s/t/H1");
    assert_eq!(rsync.source, "/a/b");
    assert_eq!(rsync.ssh_option, "ssh -p 22");
    assert!(finish_backup(&mut state, &push.job_id, true));
    assert!(matches!(
        check_job_status(&state, &push.job_id),
        Status::Completed
    ));
}

#[test]
fn failed_one_shot_is_reported_failed() {
    let mut state = connected_state(false);
    let backup = directory_backup("/a/b", "/s/t", true);
    let push = entity_to_server(&mut state, &backup).expect("scheduling must succeed");
    assert!(finish_backup(&mut state, &push.job_id, false));
    assert!(matches!(
        check_job_status(&state, &push.job_id),
        Status::Failed
    ));
    let other = "nowhere_at_all_backup".to_string();
    assert!(matches!(check_job_status(&state, &other), Status::Completed));
}

#[test]
fn rerun_after_failure_clears_failed_record() {
    let mut state = connected_state(false);
    let backup = directory_backup("/a/b", "/s/t", true);
    let push = entity_to_server(&mut state, &backup).expect("scheduling must succeed");
    assert!(finish_backup(&mut state, &push.job_id, false));
    assert!(matches!(
        check_job_status(&state, &push.job_id),
        Status::Failed
    ));
    let second = entity_to_server(&mut state, &backup).expect("rescheduling must succeed");
    assert!(matches!(
        check_job_status(&state, &second.job_id),
        Status::Running
    ));
}

#[test]
fn one_shot_without_connection_is_refused() {
    let mut state = AppState::new(None, "/cache".to_string(), "/log".to_string());
    let backup = directory_backup("/a/b", "/s/t", true);
    assert!(entity_to_server(&mut state, &backup).is_err());
    set_config(&mut state, test_config(false));
    assert!(entity_to_server(&mut state, &backup).is_err());
}

#[test]
fn watch_job_starts_once_and_terminates() {
    let mut state = connected_state(true);
    let backup = directory_backup("/a/b", "/s/t", false);
    let started = backup_on_change(&mut state, &backup).expect("scheduling must succeed");
    assert!(started.is_some());
    let id = "/a/b_/s/t_backup_on_change".to_string();
    assert!(matches!(check_job_status(&state, &id), Status::Running));
    let again = backup_on_change(&mut state, &backup).expect("a duplicate is a quiet no-op");
    assert!(again.is_none());
    let trigger = terminate_background_backup(&mut state, &backup).expect("job is running");
    assert_eq!(trigger, "/a/b/.bmu_event_trigger");
    assert!(matches!(check_job_status(&state, &id), Status::Completed));
    assert_eq!(state.pool.available_workers(), 1);
}

#[test]
fn watch_job_needs_background_enabled() {
    let mut state = connected_state(false);
    let backup = directory_backup("/a/b", "/s/t", false);
    assert!(backup_on_change(&mut state, &backup).is_err());
}

#[test]
fn terminating_unknown_watch_job_is_refused() {
    let mut state = connected_state(true);
    let backup = directory_backup("/a/b", "/s/t", false);
    assert!(terminate_background_backup(&mut state, &backup).is_err());
}

#[test]
fn pool_grows_by_exactly_the_shortfall() {
    let mut state = connected_state(true);
    assert_eq!(state.pool.workers.len(), 0);
    let backups = vec![
        directory_backup("/a/b", "/s/t", false),
        directory_backup("/c/d", "/s/u", false),
    ];
    let started = start_background_backups(&mut state, &backups).expect("start must succeed");
    assert_eq!(started.len(), 2);
    assert_eq!(state.pool.workers.len(), 2);
    for entry in &started {
        assert!(matches!(
            check_job_status(&state, &entry.job_id),
            Status::Running
        ));
    }
}

#[test]
fn starting_twice_leaves_running_unchanged() {
    let mut state = connected_state(true);
    let backups = vec![
        directory_backup("/a/b", "/s/t", false),
        directory_backup("/c/d", "/s/u", false),
    ];
    let first = start_background_backups(&mut state, &backups).expect("start must succeed");
    assert_eq!(first.len(), 2);
    let pool_size = state.pool.workers.len();
    let second = start_background_backups(&mut state, &backups).expect("restart must succeed");
    assert!(second.is_empty());
    assert_eq!(state.pool.workers.len(), pool_size);
    assert!(matches!(
        check_job_status(&state, &"/a/b_/s/t_backup_on_change".to_string()),
        Status::Running
    ));
    assert!(matches!(
        check_job_status(&state, &"/c/d_/s/u_backup_on_change".to_string()),
        Status::Running
    ));
}

#[test]
fn disabling_background_terminates_every_watch_job() {
    let mut state = connected_state(true);
    let backups = vec![
        directory_backup("/a/b", "/s/t", false),
        directory_backup("/c/d", "/s/u", false),
    ];
    start_background_backups(&mut state, &backups).expect("start must succeed");
    let change =
        set_background_backups(&mut state, false, &backups).expect("disabling must succeed");
    match change {
        BackgroundChange::Terminated(triggers) => {
            assert_eq!(triggers.len(), 2);
            assert!(triggers.contains(&"/a/b/.bmu_event_trigger".to_string()));
            assert!(triggers.contains(&"/c/d/.bmu_event_trigger".to_string()));
        }
        BackgroundChange::Started(_) => panic!("disabling must terminate, not start"),
    }
    assert_eq!(state.jobs.len(), 0);
    match &state.config {
        Some(config) => assert!(!config.allow_background_backup),
        None => panic!("the configuration must survive the switch"),
    }
}

#[test]
fn enabling_background_starts_catalog_watches() {
    let mut state = connected_state(false);
    let backups = vec![directory_backup("/a/b", "/s/t", false)];
    let change =
        set_background_backups(&mut state, true, &backups).expect("enabling must succeed");
    match change {
        BackgroundChange::Started(started) => assert_eq!(started.len(), 1),
        BackgroundChange::Terminated(_) => panic!("enabling must start, not terminate"),
    }
    assert!(matches!(
        check_job_status(&state, &"/a/b_/s/t_backup_on_change".to_string()),
        Status::Running
    ));
}

#[test]
fn reset_clears_connection_jobs_and_config() {
    let mut state = connected_state(true);
    let backups = vec![directory_backup("/a/b", "/s/t", false)];
    start_background_backups(&mut state, &backups).expect("start must succeed");
    let triggers = reset(&mut state);
    assert_eq!(triggers, vec!["/a/b/.bmu_event_trigger".to_string()]);
    assert!(!state.connected);
    assert!(state.config.is_none());
    assert_eq!(state.jobs.len(), 0);
}

#[test]
fn graceful_exit_keeps_config_but_stops_everything() {
    let mut state = connected_state(true);
    let backups = vec![directory_backup("/a/b", "/s/t", false)];
    start_background_backups(&mut state, &backups).expect("start must succeed");
    let triggers = graceful_exit(&mut state);
    assert_eq!(triggers.len(), 1);
    assert!(!state.connected);
    assert!(state.config.is_some());
    assert_eq!(state.jobs.len(), 0);
}

#[test]
fn adding_a_backup_schedules_its_watch() {
    let mut state = connected_state(true);
    let mut storage = back_me_up::storage::Storage::load(
        "/cache".to_string(),
        "/config".to_string(),
        "/data".to_string(),
        Vec::new(),
    );
    let backup = directory_backup("/a/b", "/s/t", false);
    let scheduled = add_backup(&mut state, &mut storage, &backup).expect("adding must succeed");
    assert!(scheduled.is_some());
    assert_eq!(storage.backups.len(), 1);
    let id = "/a/b_/s/t_backup_on_change".to_string();
    assert!(matches!(check_job_status(&state, &id), Status::Running));
    assert!(add_backup(&mut state, &mut storage, &backup).is_err());
    assert_eq!(storage.backups.len(), 1);
}

#[test]
fn deleting_a_backup_stops_its_watch() {
    let mut state = connected_state(true);
    let mut storage = back_me_up::storage::Storage::load(
        "/cache".to_string(),
        "/config".to_string(),
        "/data".to_string(),
        Vec::new(),
    );
    let backup = directory_backup("/a/b", "/s/t", false);
    add_backup(&mut state, &mut storage, &backup).expect("adding must succeed");
    let trigger = delete_backup(&mut state, &mut storage, &backup).expect("deleting must succeed");
    assert_eq!(trigger, Some("/a/b/.bmu_event_trigger".to_string()));
    assert_eq!(storage.backups.len(), 0);
    let id = "/a/b_/s/t_backup_on_change".to_string();
    assert!(matches!(check_job_status(&state, &id), Status::Completed));
}

#[test]
fn failed_connection_is_not_recorded() {
    let mut state = AppState::new(None, "/cache".to_string(), "/log".to_string());
    let outcome = set_state_and_test_connection(&mut state, test_config(false), false);
    assert!(outcome.is_err());
    assert!(!state.connected);
    assert!(state.config.is_some());
}
