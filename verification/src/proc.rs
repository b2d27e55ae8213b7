use vstd::prelude::*;
use vstd::string::*;
use crate::errors::BackupError;

verus! {

/// A subprocess invocation planned by the library: the program, its
/// arguments, and the working directory, if any. The surrounding
/// application spawns it with inherited standard output and reports what
/// happened back as a `ProcessReport`.
pub struct CommandPlan {
    pub program: String,
    pub args: Vec<String>,
    pub working_dir: Option<String>,
}

/// What became of a planned invocation: the process could not be launched,
/// or it ran and finished with the given status. `code` is the exit code
/// when the process exited normally, `None` when it was terminated without
/// one.
#[derive(Clone, Debug, PartialEq, Eq)]
pub enum ProcessReport {
    LaunchFailed,
    Exited { success: bool, code: Option<i32> },
}

/// The library's verdict on one finished invocation: a launch failure is an
/// I/O error, a non-zero status is a subprocess failure carrying the exit
/// code, and success is success.
pub open spec fn spec_outcome(rep: ProcessReport) -> Result<(), BackupError> {
    match rep {
        ProcessReport::LaunchFailed => Err(BackupError::Io),
        ProcessReport::Exited { success, code } => if success {
            Ok(())
        } else {
            Err(BackupError::SubprocessFailure { code })
        },
    }
}

/// Turn a report on one invocation into the library's error kind.
pub fn command_outcome(report: &ProcessReport) -> (r: Result<(), BackupError>)
    ensures
        r == spec_outcome(*report),
{
    match report {
        ProcessReport::LaunchFailed => Err(BackupError::Io),
        ProcessReport::Exited { success, code } => {
            if *success {
                Ok(())
            } else {
                Err(BackupError::SubprocessFailure { code: *code })
            }
        },
    }
}

/// Splitting a command line on single spaces, as the launcher does before
/// spawning: empty fields are kept, so two adjacent spaces yield an empty
/// token, and the result always has at least one field.
pub open spec fn spec_split_spaces(s: Seq<char>) -> Seq<Seq<char>>
    decreases s.len(),
{
    if s.len() == 0 {
        seq![Seq::<char>::empty()]
    } else if s[0] == ' ' {
        seq![Seq::<char>::empty()] + spec_split_spaces(s.drop_first())
    } else {
        let rest = spec_split_spaces(s.drop_first());
        seq![seq![s[0]] + rest[0]] + rest.drop_first()
    }
}

/// The split of a spaceless string is that string alone.
proof fn lemma_split_no_spaces(t: Seq<char>)
    requires
        forall|j: int| 0 <= j < t.len() ==> t[j] != ' ',
    ensures
        spec_split_spaces(t) == seq![t],
    decreases t.len(),
{
    if t.len() == 0 {
        assert(spec_split_spaces(t) =~~= seq![t]);
    } else {
        lemma_split_no_spaces(t.drop_first());
        assert(seq![t[0]] + t.drop_first() =~= t);
        assert(spec_split_spaces(t) =~~= seq![t]);
    }
}

/// Splitting at the first space: everything before it is the first field.
proof fn lemma_split_first_token(t: Seq<char>, k: int)
    requires
        0 <= k < t.len(),
        t[k] == ' ',
        forall|j: int| 0 <= j < k ==> t[j] != ' ',
    ensures
        spec_split_spaces(t) == seq![t.subrange(0, k)] + spec_split_spaces(
            t.subrange(k + 1, t.len() as int),
        ),
    decreases k,
{
    if k == 0 {
        assert(t.drop_first() =~= t.subrange(1, t.len() as int));
        assert(t.subrange(0, 0) =~= Seq::<char>::empty());
        assert(spec_split_spaces(t) =~~= seq![t.subrange(0, 0)] + spec_split_spaces(
            t.subrange(1, t.len() as int),
        ));
    } else {
        let d = t.drop_first();
        lemma_split_first_token(d, k - 1);
        assert(d.subrange(0, k - 1) =~= t.subrange(1, k));
        assert(d.subrange(k, d.len() as int) =~= t.subrange(k + 1, t.len() as int));
        assert(seq![t[0]] + t.subrange(1, k) =~= t.subrange(0, k));
        assert(spec_split_spaces(t) =~~= seq![t.subrange(0, k)] + spec_split_spaces(
            t.subrange(k + 1, t.len() as int),
        ));
    }
}

/// Split `s` on spaces into owned fields.
pub fn split_spaces(s: &str) -> (r: Vec<String>)
    ensures
        r.deep_view() == spec_split_spaces(s@),
        r@.len() >= 1,
{
    let n = s.unicode_len();
    let mut fields: Vec<String> = Vec::new();
    let mut start: usize = 0;
    let mut i: usize = 0;
    proof {
        assert(s@.subrange(0, n as int) =~= s@);
        assert(fields.deep_view() =~= Seq::<Seq<char>>::empty());
        assert(fields.deep_view() + spec_split_spaces(s@) =~~= spec_split_spaces(s@));
    }
    while i < n
        invariant
            start <= i <= n,
            n == s@.len(),
            spec_split_spaces(s@) == fields.deep_view() + spec_split_spaces(
                s@.subrange(start as int, n as int),
            ),
            forall|j: int| start <= j < i ==> s@[j] != ' ',
        decreases n - i,
    {
        if s.get_char(i) == ' ' {
            let ghost old_fields = fields.deep_view();
            let tok = String::from_str(s.substring_char(start, i));
            fields.push(tok);
            proof {
                let t = s@.subrange(start as int, n as int);
                lemma_split_first_token(t, i - start);
                assert(t.subrange(0, i - start) =~= s@.subrange(start as int, i as int));
                assert(t.subrange(i - start + 1, t.len() as int) =~= s@.subrange(
                    i as int + 1,
                    n as int,
                ));
                assert(fields.deep_view() =~= old_fields.push(tok@));
                assert(spec_split_spaces(s@) =~~= fields.deep_view() + spec_split_spaces(
                    s@.subrange(i as int + 1, n as int),
                ));
            }
            start = i + 1;
        }
        i = i + 1;
    }
    let ghost old_fields = fields.deep_view();
    let tok = String::from_str(s.substring_char(start, n));
    fields.push(tok);
    proof {
        lemma_split_no_spaces(s@.subrange(start as int, n as int));
        assert(fields.deep_view() =~= old_fields.push(tok@));
        assert(fields.deep_view() =~~= spec_split_spaces(s@));
    }
    fields
}

} // verus!
