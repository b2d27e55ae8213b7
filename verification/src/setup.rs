use vstd::prelude::*;
use vstd::string::*;
use crate::config::WatchTarget;
use crate::errors::BackupError;
use crate::proc::{CommandPlan, ProcessReport, spec_split_spaces, split_spaces};

verus! {

/// The system package manager a program installs through. Every variant
/// currently stages its work through the same `apt-get` invocations, as the
/// installer has always done.
#[derive(Clone, Copy, Debug, PartialEq, Eq, Structural)]
pub enum PackageManager {
    AptGet,
    Pacman,
    Other,
}

impl PackageManager {
    /// The invocation that installs one package, run with elevated rights.
    pub fn install(&self, name: &str) -> (plan: CommandPlan)
        ensures
            plan.program@ == "sudo"@,
            plan.args.deep_view() == seq!["apt-get"@, "install"@, name@],
            plan.working_dir is None,
    {
        let mut args: Vec<String> = Vec::new();
        args.push(String::from_str("apt-get"));
        args.push(String::from_str("install"));
        args.push(String::from_str(name));
        proof {
            assert(args.deep_view() =~= seq!["apt-get"@, "install"@, name@]);
        }
        CommandPlan { program: String::from_str("sudo"), args, working_dir: None }
    }

    /// The invocation that installs several packages in one run.
    pub fn install_multiple(&self, names: &Vec<String>) -> (plan: CommandPlan)
        ensures
            plan.program@ == "apt-get"@,
            plan.args.deep_view() == seq!["install"@] + names.deep_view(),
            plan.working_dir is None,
    {
        let mut args: Vec<String> = Vec::new();
        args.push(String::from_str("install"));
        let n = names.len();
        let mut i: usize = 0;
        while i < n
            invariant
                i <= n,
                n == names@.len(),
                args.deep_view() == seq!["install"@] + names.deep_view().subrange(0, i as int),
            decreases n - i,
        {
            let ghost before = args.deep_view();
            args.push(names[i].clone());
            proof {
                assert(args.deep_view() =~= before.push(names@[i as int]@));
                assert(args.deep_view() =~= seq!["install"@] + names.deep_view().subrange(
                    0,
                    i as int + 1,
                ));
            }
            i = i + 1;
        }
        proof {
            assert(names.deep_view().subrange(0, n as int) =~= names.deep_view());
        }
        CommandPlan { program: String::from_str("apt-get"), args, working_dir: None }
    }

    /// Uninstallation is not wired to any invocation and always succeeds.
    pub fn uninstall(&self, _name: &str) -> (r: Result<(), BackupError>)
        ensures
            r == Ok::<(), BackupError>(()),
    {
        Ok(())
    }
}

/// Plan a command line split on spaces: the first field is the program, the
/// rest its arguments, run in the inherited working directory.
pub fn exec(command: &String) -> (plan: CommandPlan)
    ensures
        plan.program@ == spec_split_spaces(command@)[0],
        plan.args.deep_view() == spec_split_spaces(command@).drop_first(),
        plan.working_dir is None,
{
    let mut fields = split_spaces(command.as_str());
    let program = fields.remove(0);
    proof {
        assert(program@ == spec_split_spaces(command@)[0]);
        assert(fields.deep_view() =~= spec_split_spaces(command@).drop_first());
    }
    CommandPlan { program, args: fields, working_dir: None }
}

/// As `exec`, but run inside `dir`.
pub fn exec_in_dir(command: &String, dir: &String) -> (plan: CommandPlan)
    ensures
        plan.program@ == spec_split_spaces(command@)[0],
        plan.args.deep_view() == spec_split_spaces(command@).drop_first(),
        plan.working_dir matches Some(d) && d@ == dir@,
{
    let mut fields = split_spaces(command.as_str());
    let program = fields.remove(0);
    proof {
        assert(program@ == spec_split_spaces(command@)[0]);
        assert(fields.deep_view() =~= spec_split_spaces(command@).drop_first());
    }
    CommandPlan { program, args: fields, working_dir: Some(dir.clone()) }
}

/// What a captured run of a planned command yields: its standard output on
/// success, its standard error otherwise. The report must describe a
/// process that ran.
pub fn exec_outcome(report: &ProcessReport, stdout: String, stderr: String) -> (r: Result<
    String,
    String,
>)
    requires
        *report is Exited,
    ensures
        *report matches ProcessReport::Exited { success, .. } ==> (if success {
            r == Ok::<String, String>(stdout)
        } else {
            r == Err::<String, String>(stderr)
        }),
{
    match report {
        ProcessReport::Exited { success, .. } => {
            if *success {
                Ok(stdout)
            } else {
                Err(stderr)
            }
        },
        ProcessReport::LaunchFailed => {
            proof {
                assert(false);
            }
            Err(stderr)
        },
    }
}

/// Whether a presence probe (`sh -c command -v <name>`) found the program:
/// a launch failure counts as absent.
pub fn exists_outcome(report: &ProcessReport) -> (r: bool)
    ensures
        r == (report matches ProcessReport::Exited { success: true, .. }),
{
    match report {
        ProcessReport::Exited { success, .. } => *success,
        ProcessReport::LaunchFailed => false,
    }
}

/// A program that the setup flow can probe for, install through a package
/// manager, and configure. Implementors supply the name and the manager;
/// the planning methods are shared.
pub trait Program {
    spec fn spec_name(&self) -> Seq<char>;

    spec fn spec_pm(&self) -> PackageManager;

    fn get_name(&self) -> (n: &String)
        ensures
            n@ == self.spec_name(),
    ;

    fn get_package_manager(&self) -> (pm: &PackageManager)
        ensures
            *pm == self.spec_pm(),
    ;

    fn config(&self) -> (r: Result<(), BackupError>);

    /// The installation plan, refused when the program is already present.
    fn install(&self, already_present: bool) -> (r: Result<CommandPlan, BackupError>)
        ensures
            already_present ==> r == Err::<CommandPlan, BackupError>(BackupError::AlreadyExists),
            !already_present ==> (r matches Ok(plan) && plan.program@ == "sudo"@
                && plan.args.deep_view() == seq!["apt-get"@, "install"@, self.spec_name()]
                && plan.working_dir is None),
    {
        if already_present {
            Err(BackupError::AlreadyExists)
        } else {
            Ok(self.get_package_manager().install(self.get_name().as_str()))
        }
    }

    fn uninstall(&self) -> (r: Result<(), BackupError>)
        ensures
            r == Ok::<(), BackupError>(()),
    {
        self.get_package_manager().uninstall(self.get_name().as_str())
    }

    /// The presence probe: `sh -c command -v <name>`.
    fn exists_command(&self) -> (plan: CommandPlan)
        ensures
            plan.program@ == "sh"@,
            plan.args.deep_view() == seq!["-c"@, "command"@, "-v"@, self.spec_name()],
            plan.working_dir is None,
    {
        let mut args: Vec<String> = Vec::new();
        args.push(String::from_str("-c"));
        args.push(String::from_str("command"));
        args.push(String::from_str("-v"));
        args.push(String::from_str(self.get_name().as_str()));
        proof {
            assert(args.deep_view() =~= seq!["-c"@, "command"@, "-v"@, self.spec_name()]);
        }
        CommandPlan { program: String::from_str("sh"), args, working_dir: None }
    }
}

/// The toolchain program: its own installation is handled elsewhere, but
/// these build prerequisites must be put in place first.
pub struct RustProgram {
    pub name: String,
}

impl RustProgram {
    /// The packages to prepend to any toolchain installation.
    pub fn install() -> (prepending: String)
        ensures
            prepending@ == "libssl-dev pkg-config"@,
    {
        String::from_str("libssl-dev pkg-config")
    }
}

/// The shell program: installed through the package manager and watched
/// through the library's watch targets.
pub struct ZshProgram {
    name: String,
    configurations: Vec<WatchTarget>,
    pm: PackageManager,
}

impl ZshProgram {
    /// The watch targets this program was configured with.
    pub closed spec fn targets(self) -> Seq<WatchTarget> {
        self.configurations@
    }

    pub fn new(configurations: Vec<WatchTarget>) -> (r: Self)
        ensures
            r.spec_name() == "zsh"@,
            r.spec_pm() is AptGet,
            r.targets() == configurations@,
    {
        ZshProgram {
            name: String::from_str("zsh"),
            configurations,
            pm: PackageManager::AptGet,
        }
    }
}

impl Program for ZshProgram {
    closed spec fn spec_name(&self) -> Seq<char> {
        self.name@
    }

    closed spec fn spec_pm(&self) -> PackageManager {
        self.pm
    }

    fn get_name(&self) -> (n: &String) {
        &self.name
    }

    fn get_package_manager(&self) -> (pm: &PackageManager) {
        proof {
            assert(self.spec_pm() == self.pm);
        }
        &self.pm
    }

    fn config(&self) -> (r: Result<(), BackupError>) {
        Ok(())
    }
}

} // verus!
