use vstd::prelude::*;
use vstd::string::*;

verus! {

/// Mirror path resolution: the pure mapping from an absolute source path to
/// its location in the backup tree. The source's absolute path is reproduced
/// verbatim under the backup base path; the directory portion is what the
/// caller must create (idempotently) on the backup side before copying.

/// Index of the last `/` in `s`, or `-1` when `s` has none.
pub open spec fn last_sep_index(s: Seq<char>) -> int
    decreases s.len(),
{
    if s.len() == 0 {
        -1
    } else if s[s.len() - 1] == '/' {
        s.len() - 1
    } else {
        last_sep_index(s.drop_last())
    }
}

/// The final path component of `s`: everything after the last `/`.
pub open spec fn spec_file_name(s: Seq<char>) -> Seq<char> {
    s.subrange(last_sep_index(s) + 1, s.len() as int)
}

/// A source path the holding store accepts: absolute, not ending in a
/// separator, and with a real leaf name (not `.` or `..`, which could not be
/// split off as a filename).
pub open spec fn valid_source_path(s: Seq<char>) -> bool {
    &&& s.len() >= 2
    &&& s[0] == '/'
    &&& spec_file_name(s).len() >= 1
    &&& spec_file_name(s) != seq!['.']
    &&& spec_file_name(s) != seq!['.', '.']
}

/// A backup base path: absolute and without a trailing separator, so that
/// concatenating a source path under it yields a well-formed absolute path.
pub open spec fn valid_base_path(s: Seq<char>) -> bool {
    &&& s.len() >= 1
    &&& s[0] == '/'
    &&& s[s.len() - 1] != '/'
}

/// The full backup-tree path for a source file: the source's absolute path
/// appended verbatim under the base.
pub open spec fn spec_mirror_full(base: Seq<char>, from: Seq<char>) -> Seq<char> {
    base + from
}

/// The backup-side directory that must exist before the mirror file can be
/// written: the base plus the source's directory portion.
pub open spec fn spec_mirror_dir(base: Seq<char>, from: Seq<char>) -> Seq<char> {
    base + from.subrange(0, last_sep_index(from))
}

/// `last_sep_index` is the greatest separator position: it is in bounds,
/// points at a separator when non-negative, and nothing after it is one.
pub proof fn lemma_last_sep_props(s: Seq<char>)
    ensures
        -1 <= last_sep_index(s) < s.len(),
        last_sep_index(s) >= 0 ==> s[last_sep_index(s)] == '/',
        forall|j: int| last_sep_index(s) < j < s.len() ==> s[j] != '/',
    decreases s.len(),
{
    if s.len() == 0 {
    } else if s[s.len() - 1] == '/' {
    } else {
        lemma_last_sep_props(s.drop_last());
        assert(forall|j: int| 0 <= j < s.len() - 1 ==> s.drop_last()[j] == s[j]);
    }
}

/// A separator with nothing after it is the last one.
pub proof fn lemma_last_sep_at(s: Seq<char>, i: int)
    requires
        0 <= i < s.len(),
        s[i] == '/',
        forall|j: int| i < j < s.len() ==> s[j] != '/',
    ensures
        last_sep_index(s) == i,
    decreases s.len(),
{
    if i == s.len() - 1 {
    } else {
        assert(s[s.len() - 1] != '/');
        assert(forall|j: int| 0 <= j < s.len() - 1 ==> s.drop_last()[j] == s[j]);
        lemma_last_sep_at(s.drop_last(), i);
    }
}

/// A string without separators has no last one.
pub proof fn lemma_last_sep_none(s: Seq<char>)
    requires
        forall|j: int| 0 <= j < s.len() ==> s[j] != '/',
    ensures
        last_sep_index(s) == -1,
    decreases s.len(),
{
    if s.len() > 0 {
        assert(forall|j: int| 0 <= j < s.len() - 1 ==> s.drop_last()[j] == s[j]);
        lemma_last_sep_none(s.drop_last());
    }
}

/// Position of the last `/` in `s`, scanning from the end.
pub fn find_last_sep(s: &str) -> (r: Option<usize>)
    ensures
        match r {
            Some(i) => i < s@.len() && last_sep_index(s@) == i,
            None => last_sep_index(s@) == -1,
        },
{
    let n = s.unicode_len();
    let mut i = n;
    while i > 0
        invariant
            i <= n,
            n == s@.len(),
            forall|j: int| i <= j < s@.len() ==> s@[j] != '/',
        decreases i,
    {
        i = i - 1;
        if s.get_char(i) == '/' {
            proof {
                lemma_last_sep_at(s@, i as int);
            }
            return Some(i);
        }
    }
    proof {
        lemma_last_sep_none(s@);
    }
    None
}

/// Whether `s` is a source path the holding store accepts.
pub fn is_valid_source_path(s: &str) -> (r: bool)
    ensures
        r == valid_source_path(s@),
{
    let n = s.unicode_len();
    if n < 2 {
        return false;
    }
    if s.get_char(0) != '/' {
        return false;
    }
    let last: usize = match find_last_sep(s) {
        Some(i) => i,
        None => {
            proof {
                lemma_last_sep_props(s@);
            }
            return false;
        },
    };
    let name_len = n - 1 - last;
    if name_len == 0 {
        return false;
    }
    if name_len == 1 && s.get_char(last + 1) == '.' {
        assert(spec_file_name(s@) =~= seq!['.']);
        return false;
    }
    if name_len == 2 && s.get_char(last + 1) == '.' && s.get_char(last + 2) == '.' {
        assert(spec_file_name(s@) =~= seq!['.', '.']);
        return false;
    }
    proof {
        if spec_file_name(s@) == seq!['.'] {
            assert(spec_file_name(s@).len() == 1);
            assert(spec_file_name(s@)[0] == seq!['.'][0]);
            assert(spec_file_name(s@)[0] == s@[last + 1]);
            assert(s@[last + 1] == '.');
        }
        if spec_file_name(s@) == seq!['.', '.'] {
            assert(spec_file_name(s@).len() == 2);
            assert(spec_file_name(s@)[0] == seq!['.', '.'][0]);
            assert(spec_file_name(s@)[1] == seq!['.', '.'][1]);
            assert(spec_file_name(s@)[0] == s@[last + 1]);
            assert(spec_file_name(s@)[1] == s@[last + 2]);
            assert(s@[last + 1] == '.');
            assert(s@[last + 2] == '.');
        }
    }
    true
}

/// The two outputs of mirror path resolution: the directory to create on the
/// backup side, and the full destination path of the mirror file.
pub struct MirrorPath {
    pub dir: String,
    pub full: String,
}

/// Resolve the backup-tree location of an absolute source path under a base.
/// Pure: the outputs are a function of the two inputs alone.
pub fn resolve_mirror_path(base: &str, from: &str) -> (r: MirrorPath)
    requires
        valid_base_path(base@),
        valid_source_path(from@),
    ensures
        r.full@ == spec_mirror_full(base@, from@),
        r.dir@ == spec_mirror_dir(base@, from@),
{
    let last: usize = match find_last_sep(from) {
        Some(i) => i,
        None => {
            // a valid source path starts with a separator, so one is found
            proof {
                lemma_last_sep_props(from@);
                assert(false);
            }
            0
        },
    };
    let dir_part = from.substring_char(0, last);
    let dir = String::from_str(base).concat(dir_part);
    let full = String::from_str(base).concat(from);
    MirrorPath { dir, full }
}

/// The mirror path function is deterministic: identical (source path, base
/// path) inputs yield identical output paths. The only side effect of
/// mirroring a path, creating the missing backup-side directories, is the
/// caller's idempotent action on `spec_mirror_dir`, so resolution itself is
/// total and repeated resolutions of the same path never fail.
pub proof fn lemma_mirror_resolution_deterministic(
    base1: Seq<char>,
    from1: Seq<char>,
    base2: Seq<char>,
    from2: Seq<char>,
)
    requires
        base1 == base2,
        from1 == from2,
    ensures
        spec_mirror_full(base1, from1) == spec_mirror_full(base2, from2),
        spec_mirror_dir(base1, from1) == spec_mirror_dir(base2, from2),
{
}

} // verus!
