use backupd::context::BackupContext;
use backupd::errors::BackupError;
use backupd::proc::{ProcessReport, command_outcome, split_spaces};
use backupd::setup::{
    PackageManager, Program, RustProgram, ZshProgram, exec, exec_in_dir, exec_outcome,
    exists_outcome,
};

fn exited(success: bool, code: Option<i32>) -> ProcessReport {
    ProcessReport::Exited { success, code }
}

#[test]
fn split_keeps_empty_fields() {
    let f = split_spaces("git  clone url");
    assert_eq!(f, vec!["git", "", "clone", "url"]);
    assert_eq!(split_spaces(""), vec![""]);
    assert_eq!(split_spaces("one"), vec!["one"]);
}

#[test]
fn exec_plans_program_and_args() {
    let plan = exec(&"git clone https://example.invalid/r.git".to_string());
    assert_eq!(plan.program, "git");
    assert_eq!(plan.args, vec!["clone", "https://example.invalid/r.git"]);
    assert!(plan.working_dir.is_none());
}

#[test]
fn exec_in_dir_carries_the_directory() {
    let plan = exec_in_dir(&"git status".to_string(), &"/repo".to_string());
    assert_eq!(plan.program, "git");
    assert_eq!(plan.args, vec!["status"]);
    assert_eq!(plan.working_dir.as_deref(), Some("/repo"));
}

#[test]
fn exec_outcome_returns_stdout_or_stderr() {
    let ok = exec_outcome(&exited(true, Some(0)), "out".to_string(), "err".to_string());
    assert_eq!(ok, Ok("out".to_string()));
    let bad = exec_outcome(&exited(false, Some(2)), "out".to_string(), "err".to_string());
    assert_eq!(bad, Err("err".to_string()));
}

#[test]
fn command_outcome_for_each_report() {
    assert_eq!(command_outcome(&ProcessReport::LaunchFailed), Err(BackupError::Io));
    assert_eq!(command_outcome(&exited(true, Some(0))), Ok(()));
    assert_eq!(
        command_outcome(&exited(false, Some(128))),
        Err(BackupError::SubprocessFailure { code: Some(128) })
    );
    assert_eq!(
        command_outcome(&exited(false, None)),
        Err(BackupError::SubprocessFailure { code: None })
    );
}

#[test]
fn commit_reports_the_failing_invocation() {
    let c = BackupContext::new(Vec::new(), "/backup");
    let hint = "/d/a.txt".to_string();
    // stage could not launch
    let r = c.commit(&hint, &ProcessReport::LaunchFailed, &None);
    assert_eq!(r, Err(BackupError::Io));
    // stage exited non-zero: its code is carried
    let r = c.commit(&hint, &exited(false, Some(1)), &None);
    assert_eq!(r, Err(BackupError::SubprocessFailure { code: Some(1) }));
    // stage fine, commit exited non-zero
    let r = c.commit(&hint, &exited(true, Some(0)), &Some(exited(false, Some(1))));
    assert_eq!(r, Err(BackupError::SubprocessFailure { code: Some(1) }));
    // both fine
    let r = c.commit(&hint, &exited(true, Some(0)), &Some(exited(true, Some(0))));
    assert_eq!(r, Ok(()));
}

#[test]
fn commit_commands_are_the_fixed_git_pair() {
    let c = BackupContext::new(Vec::new(), "/backup");
    let (stage, commit) = c.commit_commands();
    assert_eq!(stage.program, "git");
    assert_eq!(stage.args, vec!["add", "."]);
    assert_eq!(stage.working_dir.as_deref(), Some("/backup"));
    assert_eq!(commit.program, "git");
    assert_eq!(commit.args, vec!["commit", "-m", "'commit_'"]);
    assert_eq!(commit.working_dir.as_deref(), Some("/backup"));
}

#[test]
fn package_manager_install_plan() {
    let plan = PackageManager::AptGet.install("zsh");
    assert_eq!(plan.program, "sudo");
    assert_eq!(plan.args, vec!["apt-get", "install", "zsh"]);
    assert!(plan.working_dir.is_none());
}

#[test]
fn package_manager_install_multiple_plan() {
    let names = vec!["libssl-dev".to_string(), "pkg-config".to_string()];
    let plan = PackageManager::AptGet.install_multiple(&names);
    assert_eq!(plan.program, "apt-get");
    assert_eq!(plan.args, vec!["install", "libssl-dev", "pkg-config"]);
}

#[test]
fn package_manager_uninstall_is_a_noop() {
    assert_eq!(PackageManager::Pacman.uninstall("zsh"), Ok(()));
}

#[test]
fn zsh_program_probe_and_install() {
    let zsh = ZshProgram::new(Vec::new());
    assert_eq!(zsh.get_name().as_str(), "zsh");
    let probe = zsh.exists_command();
    assert_eq!(probe.program, "sh");
    assert_eq!(probe.args, vec!["-c", "command", "-v", "zsh"]);
    // already present: installing again is refused
    assert!(matches!(zsh.install(true), Err(BackupError::AlreadyExists)));
    // absent: the plan goes through the package manager
    let plan = zsh.install(false).unwrap();
    assert_eq!(plan.program, "sudo");
    assert_eq!(plan.args, vec!["apt-get", "install", "zsh"]);
    assert_eq!(zsh.uninstall(), Ok(()));
    assert_eq!(zsh.config(), Ok(()));
}

#[test]
fn exists_outcome_from_probe_report() {
    assert!(exists_outcome(&exited(true, Some(0))));
    assert!(!exists_outcome(&exited(false, Some(127))));
    assert!(!exists_outcome(&ProcessReport::LaunchFailed));
}

#[test]
fn rust_program_prerequisites() {
    assert_eq!(RustProgram::install(), "libssl-dev pkg-config");
}

#[test]
fn error_kinds_describe_and_fatality() {
    assert!(BackupError::SchedulerInitFailure.is_fatal());
    assert!(!BackupError::Io.is_fatal());
    assert!(!BackupError::WatchRegistrationFailure.is_fatal());
    assert!(!BackupError::InvalidInput.describe().is_empty());
    assert!(!BackupError::SubprocessFailure { code: Some(1) }.describe().is_empty());
    assert!(!BackupError::AlreadyExists.describe().is_empty());
}
