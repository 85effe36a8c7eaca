//! The backup catalog, the maintenance patterns, and the small utility
//! functions, on concrete values.

use back_me_up::jobs::maintenance::{clean, Directories, Options as CleanOptions};
use back_me_up::jobs::{thread_action_stops, ThreadAction};
use back_me_up::models::backup::{Backup, Kind, Location, Options};
use back_me_up::models::folder::Size;
use back_me_up::models::app::{is_ipv4_address, Config};
use back_me_up::paths::{
    before_first_exec, escape_spaces_exec, last_segment, parent_of, strip_prefix_exec,
    u16_to_string,
};
use back_me_up::storage::json::{catalog_from_json, catalog_to_json};
use back_me_up::storage::Storage;

fn backup(client: &str, server: &str) -> Backup {
    Backup {
        kind: Kind::Directory,
        client_location: Location {
            entity_name: client.rsplit('/').next().unwrap_or("").to_string(),
            path: client.to_string(),
        },
        server_location: Location {
            entity_name: server.rsplit('/').next().unwrap_or("").to_string(),
            path: server.to_string(),
        },
        latest_run: None,
        options: Some(Options {
            use_client_directory: false,
        }),
    }
}

fn empty_storage() -> Storage {
    Storage::load(
        "/cache".to_string(),
        "/config".to_string(),
        "/data".to_string(),
        Vec::new(),
    )
}

#[test]
fn duplicate_backups_are_refused() {
    let mut storage = empty_storage();
    assert!(storage.add_backup(backup("/a/b", "/s/t")).is_ok());
    assert!(storage.add_backup(backup("/a/b", "/s/t")).is_err());
    assert_eq!(storage.backups.len(), 1);
    assert!(storage.add_backup(backup("/a/b", "/s/u")).is_ok());
    assert_eq!(storage.backups.len(), 2);
}

#[test]
fn adding_then_deleting_restores_the_catalog() {
    let mut storage = empty_storage();
    storage.add_backup(backup("/a/b", "/s/t")).unwrap();
    storage.add_backup(backup("/c/d", "/s/u")).unwrap();
    storage.add_backup(backup("/e/f", "/s/v")).unwrap();
    storage.delete_backup(&backup("/c/d", "/s/u")).unwrap();
    assert_eq!(storage.backups.len(), 2);
    assert_eq!(storage.backups[0].client_location.path, "/a/b");
    assert_eq!(storage.backups[1].client_location.path, "/e/f");
    storage.add_backup(backup("/c/d", "/s/u")).unwrap();
    storage.delete_backup(&backup("/c/d", "/s/u")).unwrap();
    assert_eq!(storage.backups.len(), 2);
}

#[test]
fn deleting_a_missing_backup_changes_nothing() {
    let mut storage = empty_storage();
    storage.add_backup(backup("/a/b", "/s/t")).unwrap();
    storage.delete_backup(&backup("/x/y", "/s/z")).unwrap();
    assert_eq!(storage.backups.len(), 1);
}

#[test]
fn cleaning_defaults_to_logs_only() {
    let directories = Directories {
        cache: "/home/me/.cache/app".to_string(),
        log: "/home/me/.config/app/logs".to_string(),
    };
    let patterns = clean(&directories, None);
    assert_eq!(patterns, vec!["/home/me/.config/app/logs/*.log".to_string()]);
    let all = clean(
        &directories,
        Some(CleanOptions {
            connections: true,
            daemon: true,
            logs: true,
        }),
    );
    assert_eq!(
        all,
        vec![
            "/home/me/.cache/app/.ssh-connection*".to_string(),
            "/home/me/.cache/app/daemon/*".to_string(),
            "/home/me/.config/app/logs/*.log".to_string(),
        ]
    );
}

#[test]
fn sizes_convert_to_whole_megabytes() {
    assert_eq!(Size::B(3 * 1024 * 1024 + 17).in_mb(), 3);
    assert_eq!(Size::KB(2048).in_mb(), 2);
    assert_eq!(Size::MB(5).in_mb(), 5);
    assert_eq!(Size::GB(2).in_mb(), 2048);
}

#[test]
fn path_helpers_take_paths_apart() {
    assert_eq!(last_segment(&"/a/b/c.txt".to_string()), "c.txt");
    assert_eq!(last_segment(&"plain".to_string()), "plain");
    assert_eq!(parent_of(&"/a/b/c.txt".to_string()), "/a/b");
    assert_eq!(before_first_exec(&"/a/b_/s/t_backup".to_string(), '_'), "/a/b");
    assert_eq!(before_first_exec(&"nodash".to_string(), '_'), "nodash");
    assert_eq!(
        strip_prefix_exec(&"/a/b/sub".to_string(), &"/a/b".to_string()),
        "/sub"
    );
    assert_eq!(
        strip_prefix_exec(&"/elsewhere".to_string(), &"/a/b".to_string()),
        "/elsewhere"
    );
    assert_eq!(escape_spaces_exec(&"my file a".to_string()), "my\\ file\\ a");
    assert_eq!(u16_to_string(2222), "2222");
    assert_eq!(u16_to_string(0), "0");
    assert_eq!(u16_to_string(65535), "65535");
}

#[test]
fn catalog_survives_its_json_round_trip() {
    let mut with_options = backup("/a/b", "/s/t");
    with_options.latest_run = Some(1234567890);
    let mut spaced = backup("/my docs/a \"quoted\" name", "/srv/back\\slash");
    spaced.kind = Kind::File;
    spaced.options = None;
    let originals = vec![with_options, spaced];
    let text = catalog_to_json(&originals);
    let parsed = catalog_from_json(&text).expect("the encoder's output parses");
    assert_eq!(parsed.len(), originals.len());
    for (p, o) in parsed.iter().zip(originals.iter()) {
        assert_eq!(p.client_location.path, o.client_location.path);
        assert_eq!(p.client_location.entity_name, o.client_location.entity_name);
        assert_eq!(p.server_location.path, o.server_location.path);
        assert_eq!(p.server_location.entity_name, o.server_location.entity_name);
        assert_eq!(p.latest_run, o.latest_run);
        assert!(p.kind == o.kind);
        assert_eq!(
            p.options.map(|x| x.use_client_directory),
            o.options.map(|x| x.use_client_directory)
        );
    }
    assert_eq!(
        catalog_to_json(&Vec::new()),
        "[]"
    );
    assert!(catalog_from_json(&"[]".to_string()).expect("an empty array parses").is_empty());
    assert!(catalog_from_json(&"nonsense".to_string()).is_none());
}

#[test]
fn config_validity_checks_port_and_address() {
    assert!(is_ipv4_address(&"192.168.0.1".to_string()));
    assert!(is_ipv4_address(&"255.255.255.255".to_string()));
    assert!(is_ipv4_address(&"0.0.0.0".to_string()));
    assert!(!is_ipv4_address(&"256.1.1.1".to_string()));
    assert!(!is_ipv4_address(&"1.2.3".to_string()));
    assert!(!is_ipv4_address(&"1.2.3.4.5".to_string()));
    assert!(!is_ipv4_address(&"01.2.3.4".to_string()));
    assert!(!is_ipv4_address(&"a.b.c.d".to_string()));
    assert!(!is_ipv4_address(&"host".to_string()));
    assert!(!is_ipv4_address(&"1..2.3".to_string()));
    let mut config = Config {
        client_name: "H1".to_string(),
        username: "H1".to_string(),
        server_address: "192.168.0.1".to_string(),
        server_port: 22,
        allow_background_backup: false,
    };
    assert!(config.is_valid());
    config.server_port = 0;
    assert!(!config.is_valid());
    config.server_port = 22;
    config.server_address = "host".to_string();
    assert!(!config.is_valid());
}

#[test]
fn only_terminate_stops_a_watch_loop() {
    assert!(!thread_action_stops(&ThreadAction::Start));
    assert!(!thread_action_stops(&ThreadAction::Continue));
    assert!(thread_action_stops(&ThreadAction::Terminate));
}
