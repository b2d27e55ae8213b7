use vstd::prelude::*;

verus! {

/// The failure kinds of the backup coordinator.
///
/// `InvalidInput` is returned when a directory (or anything that is not a
/// regular file) is passed where a file is required, and when a source path
/// is malformed. `Io` covers an unreadable source or an uncreatable mirror
/// directory. `SubprocessFailure` reports a stage or commit invocation that
/// exited with a non-zero status; it carries the exit code when the process
/// exited normally, `None` when it was terminated without one.
/// `WatchRegistrationFailure` marks a single watch target that could not be
/// subscribed, and `SchedulerInitFailure` a watch source or timer pool that
/// could not be created at startup. `AlreadyExists` refuses setting up what
/// is already in place: an installed program, a fetched plugin.
#[derive(Clone, Debug, PartialEq, Eq)]
pub enum BackupError {
    InvalidInput,
    Io,
    SubprocessFailure { code: Option<i32> },
    WatchRegistrationFailure,
    SchedulerInitFailure,
    AlreadyExists,
}

impl BackupError {
    /// Whether this error is fatal at startup: the coordinating service
    /// cannot run without its scheduler and watch source, while every other
    /// kind is recovered by dropping the triggering event or target.
    pub fn is_fatal(&self) -> (r: bool)
        ensures
            r == (*self is SchedulerInitFailure),
    {
        match self {
            BackupError::SchedulerInitFailure => true,
            _ => false,
        }
    }

    /// A short description of the error kind, for logging by the caller.
    pub fn describe(&self) -> (r: String)
        ensures
            r@.len() > 0,
    {
        let d = match self {
            BackupError::InvalidInput => "invalid input: a regular file is required",
            BackupError::Io => "i/o failure while mirroring",
            BackupError::SubprocessFailure { .. } => "subprocess exited with a failure status",
            BackupError::WatchRegistrationFailure => "a watch target could not be registered",
            BackupError::SchedulerInitFailure => "the scheduler or watch source could not be created",
            BackupError::AlreadyExists => "already installed or already present",
        };
        proof {
            reveal_strlit("already installed or already present");
            reveal_strlit("invalid input: a regular file is required");
            reveal_strlit("i/o failure while mirroring");
            reveal_strlit("subprocess exited with a failure status");
            reveal_strlit("a watch target could not be registered");
            reveal_strlit("the scheduler or watch source could not be created");
        }
        String::from_str(d)
    }
}

} // verus!
