use backupd::config::{Configuration, RecursionMode, WatchTarget};
use backupd::context::BackupContext;
use backupd::errors::BackupError;
use backupd::mirror::{is_valid_source_path, resolve_mirror_path};

fn ctx(base: &str) -> BackupContext {
    BackupContext::new(Vec::new(), base)
}

#[test]
fn mirror_path_reproduces_source_under_base() {
    let r = resolve_mirror_path("/backup", "/home/user/notes/a.txt");
    assert_eq!(r.full, "/backup/home/user/notes/a.txt");
    assert_eq!(r.dir, "/backup/home/user/notes");
}

#[test]
fn mirror_path_for_top_level_file() {
    let r = resolve_mirror_path("/backup", "/a.txt");
    assert_eq!(r.full, "/backup/a.txt");
    assert_eq!(r.dir, "/backup");
}

#[test]
fn mirror_path_is_deterministic_across_calls() {
    let a = resolve_mirror_path("/b", "/x/y.cfg");
    let b = resolve_mirror_path("/b", "/x/y.cfg");
    assert_eq!(a.full, b.full);
    assert_eq!(a.dir, b.dir);
    // resolution is pure: repeating it cannot fail, whatever already exists
    // on the backup side
    let c = resolve_mirror_path("/b", "/x/y.cfg");
    assert_eq!(c.full, a.full);
}

#[test]
fn source_path_validity() {
    assert!(is_valid_source_path("/a/b.txt"));
    assert!(is_valid_source_path("/a.txt"));
    assert!(!is_valid_source_path("a/b.txt"));
    assert!(!is_valid_source_path("/"));
    assert!(!is_valid_source_path("/a/"));
    assert!(!is_valid_source_path("/a/."));
    assert!(!is_valid_source_path("/a/.."));
    assert!(!is_valid_source_path(""));
    // a dotfile is a real leaf name
    assert!(is_valid_source_path("/home/.zshrc"));
}

#[test]
fn backup_file_path_rejects_malformed_sources() {
    let c = ctx("/backup");
    assert!(matches!(
        c.get_backup_file_path(&"relative.txt".to_string()),
        Err(BackupError::InvalidInput)
    ));
    assert!(matches!(
        c.get_backup_file_path(&"/dir/".to_string()),
        Err(BackupError::InvalidInput)
    ));
    let ok = c.get_backup_file_path(&"/dir/f.txt".to_string()).unwrap();
    assert_eq!(ok.full, "/backup/dir/f.txt");
    assert_eq!(ok.dir, "/backup/dir");
}

#[test]
fn watch_target_coverage() {
    let rec = WatchTarget { path: "/d".to_string(), mode: RecursionMode::Recursive };
    let flat = WatchTarget { path: "/d".to_string(), mode: RecursionMode::NonRecursive };
    assert!(rec.covers(&"/d".to_string()));
    assert!(rec.covers(&"/d/a.txt".to_string()));
    assert!(rec.covers(&"/d/sub/a.txt".to_string()));
    assert!(!rec.covers(&"/dd/a.txt".to_string()));
    assert!(!rec.covers(&"/e/a.txt".to_string()));
    assert!(flat.covers(&"/d/a.txt".to_string()));
    assert!(!flat.covers(&"/d/sub/a.txt".to_string()));
}

#[test]
fn first_covering_configuration_decides_the_delay() {
    let mk = |path: &str, delay: u64| Configuration {
        name: path.to_string(),
        watch_targets: vec![WatchTarget {
            path: path.to_string(),
            mode: RecursionMode::Recursive,
        }],
        commit_delay_ms: delay,
    };
    let configs = vec![mk("/a", 1000), mk("/a/inner", 2000), mk("/b", 3000)];
    let c = BackupContext::new(configs, "/backup");
    let srv = backupd::server::BackupServer::new(c);
    // /a/inner is covered by the first configuration too, which wins
    assert_eq!(srv.find_commit_delay(&"/a/inner/x".to_string()), Some(1000));
    assert_eq!(srv.find_commit_delay(&"/b/x".to_string()), Some(3000));
    assert_eq!(srv.find_commit_delay(&"/c/x".to_string()), None);
}
