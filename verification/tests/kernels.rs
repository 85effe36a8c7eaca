//! The watch-and-mirror kernel's decisions and the transport command
//! lines, on concrete values.

use back_me_up::jobs::backup::{
    event_triggers_transfer, exec_backup_command, handle_notify_error, sentinel_path, watch_root,
    EventKind, WatchDirectory,
};
use back_me_up::jobs::{id_from_backup, worker_step, Kind as JobKind, Message, WorkerStep};
use back_me_up::models::app::Config;
use back_me_up::models::backup::{Backup, Kind, Location, Options};
use back_me_up::ssh::commands::{
    backup_to_server, delete_from_server, home_folder_entry, whoami_matches,
};

fn watch_job(use_client_directory: bool) -> WatchDirectory {
    WatchDirectory {
        backup: Backup {
            kind: Kind::Directory,
            client_location: Location {
                entity_name: "b".to_string(),
                path: "/a/b".to_string(),
            },
            server_location: Location {
                entity_name: "t".to_string(),
                path: "/s/t".to_string(),
            },
            latest_run: None,
            options: Some(Options {
                use_client_directory,
            }),
        },
        config: Config {
            client_name: "H1".to_string(),
            username: "H1".to_string(),
            server_address: "host".to_string(),
            server_port: 22,
            allow_background_backup: true,
        },
    }
}

#[test]
fn create_event_pushes_to_merged_destination() {
    let job = watch_job(false);
    let path = "/a/b/new.txt".to_string();
    let command =
        exec_backup_command(&path, false, 10, 10, 5, &job).expect("a fresh file is transferred");
    assert_eq!(command.backup.server_location.path, "/s/t/H1/new.txt");
    assert_eq!(command.backup.client_location.path, "/a/b/new.txt");
    assert!(!command.is_directory);
    assert_eq!(command.modified, 10);
}

#[test]
fn create_event_keeps_client_directory_when_asked() {
    let job = watch_job(true);
    let path = "/a/b/new.txt".to_string();
    let command =
        exec_backup_command(&path, false, 10, 10, 5, &job).expect("a fresh file is transferred");
    assert_eq!(command.backup.server_location.path, "/s/t/H1/b/new.txt");
}

#[test]
fn hidden_entities_are_ignored() {
    let job = watch_job(false);
    let path = "/a/b/.bmu_event_trigger".to_string();
    assert!(exec_backup_command(&path, false, 10, 10, 5, &job).is_none());
}

#[test]
fn blacklisted_extension_is_ignored() {
    let job = watch_job(false);
    let path = "/a/b/scratch.sb".to_string();
    assert!(exec_backup_command(&path, false, 10, 10, 5, &job).is_none());
    let similar = "/a/b/scratch.sbx".to_string();
    assert!(exec_backup_command(&similar, false, 10, 10, 5, &job).is_some());
}

#[test]
fn unchanged_root_is_ignored() {
    let job = watch_job(false);
    let path = "/a/b/old.txt".to_string();
    assert!(exec_backup_command(&path, false, 10, 5, 5, &job).is_none());
    assert!(exec_backup_command(&path, false, 10, 5, 7, &job).is_none());
}

#[test]
fn deletion_is_mirrored_relative_to_the_client_root() {
    let job = watch_job(false);
    let path = "/a/b/sub/x.txt".to_string();
    let delete = handle_notify_error(true, &path, &job).expect("a deletion is mirrored");
    assert_eq!(delete.server_location.path, "/s/t/H1/b/sub/x.txt");
    assert_ne!(delete.server_location.path, "/s/t");
}

#[test]
fn deletion_never_touches_the_server_root() {
    let job = watch_job(false);
    let root = "/s/t".to_string();
    assert!(handle_notify_error(true, &root, &job).is_none());
    let other = "/a/b/x".to_string();
    assert!(handle_notify_error(false, &other, &job).is_none());
}

#[test]
fn deletion_escapes_spaces_for_the_remote_shell() {
    let job = watch_job(false);
    let path = "/a/b/my file.txt".to_string();
    let delete = handle_notify_error(true, &path, &job).expect("a deletion is mirrored");
    assert_eq!(delete.server_location.path, "/s/t/H1/b/my\\ file.txt");
    assert_eq!(delete.client_location.entity_name, "my\\ file.txt");
}

#[test]
fn only_create_and_rename_events_transfer() {
    assert!(event_triggers_transfer(&EventKind::Create));
    assert!(event_triggers_transfer(&EventKind::ModifyName));
    assert!(!event_triggers_transfer(&EventKind::Other));
}

#[test]
fn watch_root_of_a_file_backup_is_its_parent() {
    let mut backup = watch_job(false).backup;
    assert_eq!(watch_root(&backup), "/a/b");
    assert_eq!(sentinel_path(&backup), "/a/b/.bmu_event_trigger");
    backup.kind = Kind::File;
    backup.client_location.path = "/a/b/notes.txt".to_string();
    assert_eq!(watch_root(&backup), "/a/b");
    assert_eq!(sentinel_path(&backup), "/a/b/.bmu_event_trigger");
}

#[test]
fn job_ids_join_paths_and_kind() {
    let backup = watch_job(false).backup;
    assert_eq!(id_from_backup(&backup, &JobKind::Backup), "/a/b_/s/t_backup");
    assert_eq!(
        id_from_backup(&backup, &JobKind::BackupOnChange),
        "/a/b_/s/t_backup_on_change"
    );
}

#[test]
fn rsync_source_gets_a_slash_only_when_merging_a_directory() {
    let job = watch_job(false);
    let merged = backup_to_server(&job.backup, &job.config, true);
    assert_eq!(merged.source, "/a/b/");
    let kept = backup_to_server(&watch_job(true).backup, &job.config, true);
    assert_eq!(kept.source, "/a/b");
    let file = backup_to_server(&job.backup, &job.config, false);
    assert_eq!(file.source, "/a/b");
    let mut bare = job.backup;
    bare.options = None;
    let without_options = backup_to_server(&bare, &job.config, true);
    assert_eq!(without_options.source, "/a/b");
}

#[test]
fn rsync_destination_strips_the_http_scheme() {
    let job = watch_job(false);
    let mut config = job.config;
    config.server_address = "http://host".to_string();
    let push = backup_to_server(&job.backup, &config, true);
    assert_eq!(push.destination, "H1@host:/s/t");
    assert_eq!(push.ssh_option, "ssh -p 22");
}

#[test]
fn remote_delete_names_port_host_and_path() {
    let job = watch_job(false);
    let delete = delete_from_server(&job.backup, &job.config);
    assert_eq!(delete.port, "22");
    assert_eq!(delete.destination, "H1@host");
    assert_eq!(delete.command, "rm -rf /s/t");
}

#[test]
fn home_listing_keeps_plain_directories_only() {
    let user = "H1".to_string();
    let folder = home_folder_entry("music".to_string(), true, 7, &user)
        .expect("a plain directory is listed");
    assert_eq!(folder.path, "/home/H1/music");
    assert_eq!(folder.name, "music");
    assert!(home_folder_entry(".ssh".to_string(), true, 7, &user).is_none());
    assert!(home_folder_entry("notes.txt".to_string(), false, 7, &user).is_none());
}

#[test]
fn whoami_output_must_match_the_configured_user() {
    let user = "H1".to_string();
    assert!(whoami_matches(&user, &"H1\n".to_string()));
    assert!(!whoami_matches(&user, &"root\n".to_string()));
    assert!(!whoami_matches(&user, &"H1".to_string()));
}

#[test]
fn workers_obey_only_their_own_terminate_order() {
    assert!(matches!(
        worker_step(3, Message::New("job".to_string())),
        WorkerStep::Run(_)
    ));
    assert!(matches!(worker_step(3, Message::Terminate(3)), WorkerStep::Exit));
    assert!(matches!(
        worker_step(3, Message::Terminate(4)),
        WorkerStep::Ignore
    ));
}
