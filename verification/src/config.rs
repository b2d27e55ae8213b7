use vstd::prelude::*;
use vstd::string::*;

verus! {

/// How a watch target subscribes to its path: the whole subtree, or only the
/// entries directly inside it.
#[derive(Clone, Copy, Debug, PartialEq, Eq, Structural)]
pub enum RecursionMode {
    Recursive,
    NonRecursive,
}

/// One watched path with its recursion mode. Immutable once configured.
pub struct WatchTarget {
    pub path: String,
    pub mode: RecursionMode,
}

/// A named set of watch targets sharing one commit delay. Loaded once at
/// startup and immutable for the process lifetime.
pub struct Configuration {
    pub name: String,
    pub watch_targets: Vec<WatchTarget>,
    pub commit_delay_ms: u64,
}

/// `p` lies strictly below directory `dir`: `dir` is a proper prefix and the
/// next character is a separator.
pub open spec fn path_under(dir: Seq<char>, p: Seq<char>) -> bool {
    &&& p.len() > dir.len()
    &&& p.subrange(0, dir.len() as int) == dir
    &&& p[dir.len() as int] == '/'
}

/// `p` is directly inside directory `dir`: below it, with no further
/// separator after the one that follows `dir`.
pub open spec fn path_directly_inside(dir: Seq<char>, p: Seq<char>) -> bool {
    &&& path_under(dir, p)
    &&& forall|j: int| dir.len() < j < p.len() ==> p[j] != '/'
}

/// Whether a change at `p` falls under watch target `t`: the target's own
/// path, anything below it when recursive, or only its direct entries when
/// non-recursive.
pub open spec fn target_covers(t: WatchTarget, p: Seq<char>) -> bool {
    ||| t.path@ == p
    ||| (t.mode is Recursive && path_under(t.path@, p))
    ||| (t.mode is NonRecursive && path_directly_inside(t.path@, p))
}

/// Whether some target of `c` covers `p`.
pub open spec fn config_covers(c: Configuration, p: Seq<char>) -> bool {
    exists|i: int| 0 <= i < c.watch_targets@.len() && target_covers(c.watch_targets@[i], p)
}

/// The commit delay that applies to a change at `p`: the delay of the first
/// configuration, in order, with a target covering `p`.
pub open spec fn spec_find_delay(cs: Seq<Configuration>, p: Seq<char>) -> Option<u64>
    decreases cs.len(),
{
    if cs.len() == 0 {
        None
    } else if config_covers(cs[0], p) {
        Some(cs[0].commit_delay_ms)
    } else {
        spec_find_delay(cs.drop_first(), p)
    }
}

/// `p` starts with `dir` followed by a separator.
fn check_under(dir: &String, p: &String) -> (r: bool)
    ensures
        r == path_under(dir@, p@),
{
    let dn = dir.as_str().unicode_len();
    let pn = p.as_str().unicode_len();
    if pn <= dn {
        return false;
    }
    if p.as_str().get_char(dn) != '/' {
        return false;
    }
    let mut i: usize = 0;
    while i < dn
        invariant
            i <= dn,
            dn == dir@.len(),
            pn == p@.len(),
            pn > dn,
            forall|j: int| 0 <= j < i ==> p@[j] == dir@[j],
        decreases dn - i,
    {
        if p.as_str().get_char(i) != dir.as_str().get_char(i) {
            assert(p@.subrange(0, dir@.len() as int)[i as int] != dir@[i as int]);
            return false;
        }
        i = i + 1;
    }
    proof {
        assert(p@.subrange(0, dir@.len() as int) =~= dir@);
    }
    true
}

/// No separator occurs in `p` strictly after position `start`.
fn check_no_sep_after(p: &String, start: usize) -> (r: bool)
    requires
        start <= p@.len(),
    ensures
        r == (forall|j: int| start < j < p@.len() ==> p@[j] != '/'),
{
    let pn = p.as_str().unicode_len();
    if start >= pn {
        return true;
    }
    let mut i: usize = start + 1;
    while i < pn
        invariant
            start + 1 <= i <= pn,
            pn == p@.len(),
            forall|j: int| start < j < i ==> p@[j] != '/',
        decreases pn - i,
    {
        if p.as_str().get_char(i) == '/' {
            return false;
        }
        i = i + 1;
    }
    true
}

impl WatchTarget {
    /// Whether a change at `p` falls under this target.
    pub fn covers(&self, p: &String) -> (r: bool)
        ensures
            r == target_covers(*self, p@),
    {
        if self.path == *p {
            return true;
        }
        match self.mode {
            RecursionMode::Recursive => check_under(&self.path, p),
            RecursionMode::NonRecursive => {
                if check_under(&self.path, p) {
                    let dn = self.path.as_str().unicode_len();
                    check_no_sep_after(p, dn)
                } else {
                    false
                }
            },
        }
    }
}

impl Configuration {
    /// Whether some target of this configuration covers `p`.
    pub fn covers(&self, p: &String) -> (r: bool)
        ensures
            r == config_covers(*self, p@),
    {
        let n = self.watch_targets.len();
        let mut i: usize = 0;
        while i < n
            invariant
                i <= n,
                n == self.watch_targets@.len(),
                forall|j: int| 0 <= j < i ==> !target_covers(self.watch_targets@[j], p@),
            decreases n - i,
        {
            if self.watch_targets[i].covers(p) {
                return true;
            }
            i = i + 1;
        }
        false
    }
}

/// The commit delay that applies to a change at `p` under `cs`, if any
/// configuration covers it.
pub fn find_delay(cs: &Vec<Configuration>, p: &String) -> (r: Option<u64>)
    ensures
        r == spec_find_delay(cs@, p@),
{
    let n = cs.len();
    let mut i: usize = 0;
    proof {
        assert(cs@.subrange(0, n as int) =~= cs@);
    }
    while i < n
        invariant
            i <= n,
            n == cs@.len(),
            spec_find_delay(cs@, p@) == spec_find_delay(cs@.subrange(i as int, n as int), p@),
        decreases n - i,
    {
        proof {
            assert(cs@.subrange(i as int, n as int)[0] == cs@[i as int]);
            assert(cs@.subrange(i as int, n as int).drop_first() =~= cs@.subrange(
                i as int + 1,
                n as int,
            ));
        }
        if cs[i].covers(p) {
            return Some(cs[i].commit_delay_ms);
        }
        i = i + 1;
    }
    proof {
        assert(cs@.subrange(n as int, n as int).len() == 0);
    }
    None
}

} // verus!
