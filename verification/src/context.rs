use vstd::prelude::*;
use vstd::string::*;
use crate::config::Configuration;
use crate::errors::BackupError;
use crate::mirror::{
    MirrorPath, is_valid_source_path, resolve_mirror_path, spec_mirror_dir, spec_mirror_full,
    valid_base_path, valid_source_path,
};
use crate::proc::{CommandPlan, ProcessReport, command_outcome, spec_outcome};
use crate::store::PathTable;

verus! {

/// What the application found and did at the source path before asking the
/// coordinator to record a hold: the path was not a regular file, the copy
/// to the resolved mirror path failed, or the copy succeeded and these are
/// the bytes that were mirrored.
pub enum SourceProbe {
    NotFile,
    CopyFailed,
    Copied { contents: Vec<u8> },
}

/// Whether a hold with this probe on this path succeeds: only a completed
/// copy of a well-formed source path is recorded.
pub open spec fn spec_hold_ok(source: SourceProbe, p: Seq<char>) -> bool {
    source is Copied && valid_source_path(p)
}

/// The verdict a hold returns for each probe: a path that is not a regular
/// file is invalid input, a failed copy is an I/O error, a completed copy of
/// a well-formed path succeeds.
pub open spec fn spec_hold_result(source: SourceProbe, p: Seq<char>) -> Result<(), BackupError> {
    match source {
        SourceProbe::NotFile => Err(BackupError::InvalidInput),
        SourceProbe::CopyFailed => Err(BackupError::Io),
        SourceProbe::Copied { .. } => if valid_source_path(p) {
            Ok(())
        } else {
            Err(BackupError::InvalidInput)
        },
    }
}

/// The backup coordinator: the immutable configuration set, the holding
/// store (source path to the instant of its last successful hold), a model
/// of the mirror tree (destination path to mirrored bytes), and the backup
/// base path. It is the single synchronization point for mirroring; the
/// surrounding application serializes access to it.
pub struct BackupContext {
    configurations: Vec<Configuration>,
    holding_paths: PathTable<u64>,
    mirror_files: PathTable<Vec<u8>>,
    backup_base_path: String,
}

impl BackupContext {
    /// The stores keep their keys distinct and the base path is absolute
    /// without a trailing separator.
    pub closed spec fn wf(self) -> bool {
        &&& valid_base_path(self.backup_base_path@)
        &&& self.holding_paths.wf()
        &&& self.mirror_files.wf()
    }

    /// The holding store: source path to instant of last successful hold.
    pub closed spec fn holding(self) -> Map<Seq<char>, u64> {
        self.holding_paths.as_map()
    }

    /// How many paths the holding store has recorded.
    pub closed spec fn holding_len(self) -> nat {
        self.holding_paths.count()
    }

    /// The mirror tree: destination path to the bytes last written there.
    pub closed spec fn mirror(self) -> Map<Seq<char>, Vec<u8>> {
        self.mirror_files.as_map()
    }

    /// The configuration set.
    pub closed spec fn configs(self) -> Seq<Configuration> {
        self.configurations@
    }

    /// The backup base path.
    pub closed spec fn base(self) -> Seq<char> {
        self.backup_base_path@
    }

    pub fn new(configurations: Vec<Configuration>, backup_base_path: &str) -> (r: Self)
        requires
            valid_base_path(backup_base_path@),
        ensures
            r.wf(),
            r.configs() == configurations@,
            r.base() == backup_base_path@,
            r.holding() == Map::<Seq<char>, u64>::empty(),
            r.mirror() == Map::<Seq<char>, Vec<u8>>::empty(),
            r.holding_len() == 0,
    {
        BackupContext {
            configurations,
            holding_paths: PathTable::new(),
            mirror_files: PathTable::new(),
            backup_base_path: String::from_str(backup_base_path),
        }
    }

    /// Reference to the configuration set, for registering watch targets.
    pub fn configurations(&self) -> (r: &Vec<Configuration>)
        ensures
            r@ == self.configs(),
    {
        &self.configurations
    }

    /// How many paths the holding store has recorded.
    pub fn holding_count(&self) -> (n: usize)
        ensures
            n == self.holding_len(),
    {
        self.holding_paths.len()
    }

    /// The instant of the last successful hold of `path`, if any.
    pub fn held_at(&self, path: &String) -> (r: Option<u64>)
        requires
            self.wf(),
        ensures
            match r {
                Some(t) => self.holding().contains_key(path@) && t == self.holding()[path@],
                None => !self.holding().contains_key(path@),
            },
    {
        match self.holding_paths.get(path) {
            Some(t) => Some(*t),
            None => None,
        }
    }

    /// The bytes last mirrored to destination path `dest`, if any.
    pub fn mirror_contents(&self, dest: &String) -> (r: Option<&Vec<u8>>)
        requires
            self.wf(),
        ensures
            match r {
                Some(c) => self.mirror().contains_key(dest@) && *c == self.mirror()[dest@],
                None => !self.mirror().contains_key(dest@),
            },
    {
        self.mirror_files.get(dest)
    }

    /// Where a source file's mirror lives in the backup tree: the directory
    /// to create and the full destination path. Fails with `InvalidInput`
    /// exactly on a path that no regular file can have.
    pub fn get_backup_file_path(&self, from_path: &String) -> (r: Result<MirrorPath, BackupError>)
        requires
            self.wf(),
        ensures
            match r {
                Ok(mp) => valid_source_path(from_path@) && mp.full@ == spec_mirror_full(
                    self.base(),
                    from_path@,
                ) && mp.dir@ == spec_mirror_dir(self.base(), from_path@),
                Err(e) => !valid_source_path(from_path@) && e == BackupError::InvalidInput,
            },
    {
        if is_valid_source_path(from_path.as_str()) {
            Ok(resolve_mirror_path(self.backup_base_path.as_str(), from_path.as_str()))
        } else {
            Err(BackupError::InvalidInput)
        }
    }

    /// Record the outcome of mirroring `from_path`. A path that is not a
    /// regular file (a directory, or anything unreadable as a file) is
    /// rejected with `InvalidInput` and nothing is recorded; a failed copy
    /// is an `Io` error and nothing is recorded. Only a successful copy
    /// updates the mirror model at the resolved destination and records
    /// `now_ms` against `from_path` in the holding store.
    pub fn hold(&mut self, from_path: &String, source: SourceProbe, now_ms: u64) -> (r: Result<
        (),
        BackupError,
    >)
        requires
            old(self).wf(),
        ensures
            final(self).wf(),
            final(self).configs() == old(self).configs(),
            final(self).base() == old(self).base(),
            r == spec_hold_result(source, from_path@),
            !spec_hold_ok(source, from_path@) ==> *final(self) == *old(self),
            spec_hold_ok(source, from_path@) ==> final(self).holding() == old(
                self,
            ).holding().insert(from_path@, now_ms),
            source is NotFile ==> r == Err::<(), BackupError>(BackupError::InvalidInput)
                && *final(self) == *old(self),
            source is CopyFailed ==> r == Err::<(), BackupError>(BackupError::Io) && *final(self)
                == *old(self),
            source is Copied && !valid_source_path(from_path@) ==> r == Err::<(), BackupError>(
                BackupError::InvalidInput,
            ) && *final(self) == *old(self),
            source matches SourceProbe::Copied { contents }
                ==> valid_source_path(from_path@)
                ==> (r == Ok::<(), BackupError>(()) && final(self).holding() == old(self).holding().insert(from_path@, now_ms)
                    && final(self).mirror() == old(self).mirror().insert(spec_mirror_full(old(self).base(), from_path@), contents)
                    && final(self).holding_len() == old(self).holding_len()
                        + (if old(self).holding().contains_key(from_path@) { 0int } else { 1int })),
    {
        match source {
            SourceProbe::NotFile => Err(BackupError::InvalidInput),
            SourceProbe::CopyFailed => Err(BackupError::Io),
            SourceProbe::Copied { contents } => {
                match self.get_backup_file_path(from_path) {
                    Err(e) => Err(e),
                    Ok(mp) => {
                        self.mirror_files.set(&mp.full, contents);
                        self.holding_paths.set(from_path, now_ms);
                        Ok(())
                    },
                }
            },
        }
    }

    /// The two fixed invocations a commit makes against the backup base
    /// directory: stage everything, then commit with a fixed,
    /// non-interactive message.
    pub fn commit_commands(&self) -> (r: (CommandPlan, CommandPlan))
        ensures
            r.0.program@ == "git"@,
            r.0.args.deep_view() == seq!["add"@, "."@],
            r.0.working_dir matches Some(d) && d@ == self.base(),
            r.1.program@ == "git"@,
            r.1.args.deep_view() == seq!["commit"@, "-m"@, "'commit_'"@],
            r.1.working_dir matches Some(d) && d@ == self.base(),
    {
        let mut stage_args: Vec<String> = Vec::new();
        stage_args.push(String::from_str("add"));
        stage_args.push(String::from_str("."));
        let stage = CommandPlan {
            program: String::from_str("git"),
            args: stage_args,
            working_dir: Some(self.backup_base_path.clone()),
        };
        let mut commit_args: Vec<String> = Vec::new();
        commit_args.push(String::from_str("commit"));
        commit_args.push(String::from_str("-m"));
        commit_args.push(String::from_str("'commit_'"));
        let commit = CommandPlan {
            program: String::from_str("git"),
            args: commit_args,
            working_dir: Some(self.backup_base_path.clone()),
        };
        proof {
            assert(stage.args.deep_view() =~= seq!["add"@, "."@]);
            assert(commit.args.deep_view() =~= seq!["commit"@, "-m"@, "'commit_'"@]);
        }
        (stage, commit)
    }

    /// The commit verdict, from the reports on the stage and commit
    /// invocations. The stage invocation runs first; the commit invocation
    /// runs only when staging succeeded, so its report is present exactly
    /// then. An error carries the failing invocation's exit code.
    pub fn commit(
        &self,
        _path_hint: &String,
        stage: &ProcessReport,
        commit_run: &Option<ProcessReport>,
    ) -> (r: Result<(), BackupError>)
        requires
            (stage matches ProcessReport::Exited { success: true, .. }) ==> commit_run is Some,
        ensures
            r == spec_commit_result(*stage, *commit_run),
    {
        match stage {
            ProcessReport::LaunchFailed => Err(BackupError::Io),
            ProcessReport::Exited { success, code } => {
                if !*success {
                    Err(BackupError::SubprocessFailure { code: *code })
                } else {
                    match commit_run {
                        Some(c) => command_outcome(c),
                        None => {
                            proof {
                                assert(false);
                            }
                            Err(BackupError::Io)
                        },
                    }
                }
            },
        }
    }
}

/// The verdict of a stage-then-commit pair: a stage failure is reported
/// first; otherwise the commit invocation's own outcome decides.
pub open spec fn spec_commit_result(stage: ProcessReport, commit_run: Option<ProcessReport>) -> Result<
    (),
    BackupError,
> {
    match stage {
        ProcessReport::Exited { success: true, .. } => match commit_run {
            Some(c) => spec_outcome(c),
            None => arbitrary(),
        },
        _ => spec_outcome(stage),
    }
}

} // verus!
