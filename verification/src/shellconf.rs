use vstd::prelude::*;
use vstd::string::*;
use crate::errors::BackupError;

verus! {

/// A shell configuration text, edited line-wise. A variable line has the
/// shape `indent [prefix-word ws] NAME=VALUE`: optional leading whitespace,
/// at most one word (such as `export`) before the name, a word-character
/// name, and a non-empty value running to the end of the line.

/// Word characters: letters, digits and underscore.
pub open spec fn is_word_char(c: char) -> bool {
    ('a' <= c && c <= 'z') || ('A' <= c && c <= 'Z') || ('0' <= c && c <= '9') || c == '_'
}

/// In-line whitespace.
pub open spec fn is_space_char(c: char) -> bool {
    c == ' ' || c == '\t'
}

/// First position at or after `i` that is not in-line whitespace.
pub open spec fn scan_ws(line: Seq<char>, i: int) -> int
    decreases line.len() - i,
{
    if i < 0 || i >= line.len() {
        i
    } else if is_space_char(line[i]) {
        scan_ws(line, i + 1)
    } else {
        i
    }
}

/// First position at or after `i` that is not a word character.
pub open spec fn scan_word(line: Seq<char>, i: int) -> int
    decreases line.len() - i,
{
    if i < 0 || i >= line.len() {
        i
    } else if is_word_char(line[i]) {
        scan_word(line, i + 1)
    } else {
        i
    }
}

/// The spans of a parsed variable line: the optional prefix word and the
/// name; the value is everything after the `=` that closes the name.
pub struct VarLine {
    pub pfx_start: int,
    pub pfx_end: int,
    pub name_start: int,
    pub name_end: int,
}

pub open spec fn line_prefix(line: Seq<char>, v: VarLine) -> Seq<char> {
    line.subrange(v.pfx_start, v.pfx_end)
}

pub open spec fn line_name(line: Seq<char>, v: VarLine) -> Seq<char> {
    line.subrange(v.name_start, v.name_end)
}

pub open spec fn line_value(line: Seq<char>, v: VarLine) -> Seq<char> {
    line.subrange(v.name_end + 1, line.len() as int)
}

/// Parse one line as a variable assignment, if it has the shape.
pub open spec fn parse_var_line(line: Seq<char>) -> Option<VarLine> {
    let a = scan_ws(line, 0);
    let b = scan_word(line, a);
    if b > a && b < line.len() && line[b] == '=' && line.len() > b + 1 {
        Some(VarLine { pfx_start: a, pfx_end: a, name_start: a, name_end: b })
    } else {
        let c = scan_ws(line, b);
        let d = scan_word(line, c);
        if b > a && c > b && d > c && d < line.len() && line[d] == '=' && line.len() > d + 1 {
            Some(VarLine { pfx_start: a, pfx_end: b, name_start: c, name_end: d })
        } else {
            None
        }
    }
}

/// The first line carrying a variable named `name`, with its parse.
pub open spec fn spec_find_named(lines: Seq<Seq<char>>, name: Seq<char>) -> Option<(int, VarLine)>
    decreases lines.len(),
{
    if lines.len() == 0 {
        None
    } else {
        match parse_var_line(lines[0]) {
            Some(v) => if line_name(lines[0], v) == name {
                Some((0, v))
            } else {
                shift_found(spec_find_named(lines.drop_first(), name))
            },
            None => shift_found(spec_find_named(lines.drop_first(), name)),
        }
    }
}

/// The first line named `name` whose prefix word is `export` or absent;
/// lines with any other prefix word are passed over.
pub open spec fn spec_find_exportable(lines: Seq<Seq<char>>, name: Seq<char>) -> Option<
    (int, VarLine),
>
    decreases lines.len(),
{
    if lines.len() == 0 {
        None
    } else {
        match parse_var_line(lines[0]) {
            Some(v) => if line_name(lines[0], v) == name && (line_prefix(lines[0], v) == "export"@
                || line_prefix(lines[0], v) =~= Seq::<char>::empty()) {
                Some((0, v))
            } else {
                shift_found(spec_find_exportable(lines.drop_first(), name))
            },
            None => shift_found(spec_find_exportable(lines.drop_first(), name)),
        }
    }
}

pub open spec fn shift_found(r: Option<(int, VarLine)>) -> Option<(int, VarLine)> {
    match r {
        Some((i, v)) => Some((i + 1, v)),
        None => None,
    }
}

/// Whether `line` declares `name` exported: leading whitespace, the word
/// `export`, optional further whitespace, then `name=` and a non-empty
/// value.
pub open spec fn export_matches(line: Seq<char>, name: Seq<char>) -> bool {
    let a = scan_ws(line, 0);
    let c = scan_ws(line, a + 6);
    &&& a + 6 <= line.len()
    &&& line.subrange(a, a + 6) == "export"@
    &&& c + name.len() < line.len()
    &&& line.subrange(c, c + name.len() as int) == name
    &&& line[c + name.len()] == '='
    &&& c + name.len() + 1 < line.len()
}

/// A line rewritten to export its variable in place.
pub open spec fn exported_line(line: Seq<char>, v: VarLine) -> Seq<char> {
    line.subrange(0, v.name_start) + "export "@ + line_name(line, v) + "="@ + line_value(line, v)
}

/// A line with its value replaced, everything before the `=` kept.
pub open spec fn revalued_line(line: Seq<char>, v: VarLine, val: Seq<char>) -> Seq<char> {
    line.subrange(0, v.name_end) + "="@ + val
}

/// Splitting a text on newlines; every line is kept, empty ones included.
pub open spec fn spec_split_nl(s: Seq<char>) -> Seq<Seq<char>>
    decreases s.len(),
{
    if s.len() == 0 {
        seq![Seq::<char>::empty()]
    } else if s[0] == '\n' {
        seq![Seq::<char>::empty()] + spec_split_nl(s.drop_first())
    } else {
        let rest = spec_split_nl(s.drop_first());
        seq![seq![s[0]] + rest[0]] + rest.drop_first()
    }
}

/// Joining lines with newlines: the inverse direction of the split.
pub open spec fn spec_join_nl(lines: Seq<Seq<char>>) -> Seq<char>
    decreases lines.len(),
{
    if lines.len() == 0 {
        Seq::empty()
    } else if lines.len() == 1 {
        lines[0]
    } else {
        spec_join_nl(lines.drop_last()) + seq!['\n'] + lines.last()
    }
}

/// First position at or after `i` in `line` that is not in-line whitespace.
fn scan_ws_exec(line: &str, i: usize) -> (r: usize)
    requires
        i <= line@.len(),
    ensures
        r == scan_ws(line@, i as int),
        i <= r <= line@.len(),
{
    let n = line.unicode_len();
    let mut j = i;
    while j < n
        invariant
            i <= j <= n,
            n == line@.len(),
            scan_ws(line@, i as int) == scan_ws(line@, j as int),
        decreases n - j,
    {
        let c = line.get_char(j);
        if !(c == ' ' || c == '\t') {
            return j;
        }
        j = j + 1;
    }
    j
}

/// First position at or after `i` in `line` that is not a word character.
fn scan_word_exec(line: &str, i: usize) -> (r: usize)
    requires
        i <= line@.len(),
    ensures
        r == scan_word(line@, i as int),
        i <= r <= line@.len(),
{
    let n = line.unicode_len();
    let mut j = i;
    while j < n
        invariant
            i <= j <= n,
            n == line@.len(),
            scan_word(line@, i as int) == scan_word(line@, j as int),
        decreases n - j,
    {
        let c = line.get_char(j);
        if !(('a' <= c && c <= 'z') || ('A' <= c && c <= 'Z') || ('0' <= c && c <= '9') || c
            == '_') {
            return j;
        }
        j = j + 1;
    }
    j
}

/// Parse one line as a variable assignment: the spans of the prefix word
/// and the name, when the line has the shape.
fn parse_line(line: &str) -> (r: Option<(usize, usize, usize, usize)>)
    ensures
        match r {
            Some(t) => parse_var_line(line@) == Some(
                VarLine {
                    pfx_start: t.0 as int,
                    pfx_end: t.1 as int,
                    name_start: t.2 as int,
                    name_end: t.3 as int,
                },
            ) && t.0 <= t.1 <= t.2 <= t.3 && t.3 < line@.len(),
            None => parse_var_line(line@) is None,
        },
{
    let n = line.unicode_len();
    let a = scan_ws_exec(line, 0);
    let b = scan_word_exec(line, a);
    if b > a && b < n && line.get_char(b) == '=' && n > b + 1 {
        return Some((a, a, a, b));
    }
    let c = scan_ws_exec(line, b);
    let d = scan_word_exec(line, c);
    if b > a && c > b && d > c && d < n && line.get_char(d) == '=' && n > d + 1 {
        return Some((a, b, c, d));
    }
    None
}

/// Whether `line` is the range `[from, to)` of `hay`.
fn range_is(hay: &str, from: usize, to: usize, what: &str) -> (r: bool)
    requires
        from <= to <= hay@.len(),
    ensures
        r == (hay@.subrange(from as int, to as int) == what@),
{
    let s = hay.substring_char(from, to);
    let owned = s.to_owned();
    let w = what.to_owned();
    owned == w
}

/// A shell configuration text, held line by line; the text itself is the
/// lines joined with newlines.
pub struct ShellConfiguration {
    lines: Vec<String>,
}

impl ShellConfiguration {
    /// The lines of the configuration.
    pub closed spec fn view(self) -> Seq<Seq<char>> {
        self.lines.deep_view()
    }

    /// Split `content` into lines.
    pub fn new(content: &str) -> (r: Self)
        ensures
            r@ == spec_split_nl(content@),
    {
        let n = content.unicode_len();
        let mut lines: Vec<String> = Vec::new();
        let mut start: usize = 0;
        let mut i: usize = 0;
        proof {
            assert(content@.subrange(0, n as int) =~= content@);
            assert(lines.deep_view() =~= Seq::<Seq<char>>::empty());
            assert(lines.deep_view() + spec_split_nl(content@) =~~= spec_split_nl(content@));
        }
        while i < n
            invariant
                start <= i <= n,
                n == content@.len(),
                spec_split_nl(content@) == lines.deep_view() + spec_split_nl(
                    content@.subrange(start as int, n as int),
                ),
                forall|j: int| start <= j < i ==> content@[j] != '\n',
            decreases n - i,
        {
            if content.get_char(i) == '\n' {
                let ghost old_lines = lines.deep_view();
                let tok = String::from_str(content.substring_char(start, i));
                lines.push(tok);
                proof {
                    let t = content@.subrange(start as int, n as int);
                    lemma_split_nl_first(t, i - start);
                    assert(t.subrange(0, i - start) =~= content@.subrange(start as int, i as int));
                    assert(t.subrange(i - start + 1, t.len() as int) =~= content@.subrange(
                        i as int + 1,
                        n as int,
                    ));
                    assert(lines.deep_view() =~= old_lines.push(tok@));
                    assert(spec_split_nl(content@) =~~= lines.deep_view() + spec_split_nl(
                        content@.subrange(i as int + 1, n as int),
                    ));
                }
                start = i + 1;
            }
            i = i + 1;
        }
        let ghost old_lines = lines.deep_view();
        let tok = String::from_str(content.substring_char(start, n));
        lines.push(tok);
        proof {
            lemma_split_nl_none(content@.subrange(start as int, n as int));
            assert(lines.deep_view() =~= old_lines.push(tok@));
            assert(lines.deep_view() =~~= spec_split_nl(content@));
        }
        ShellConfiguration { lines }
    }

    /// The configuration text: the lines joined with newlines.
    pub fn content(&self) -> (r: String)
        ensures
            r@ == spec_join_nl(self@),
    {
        let n = self.lines.len();
        let mut out = String::new();
        let mut i: usize = 0;
        proof {
            assert(self@.subrange(0, 0) =~= Seq::<Seq<char>>::empty());
        }
        while i < n
            invariant
                i <= n,
                n == self@.len(),
                self@.len() == self.lines@.len(),
                out@ == spec_join_nl(self@.subrange(0, i as int)),
            decreases n - i,
        {
            if i > 0 {
                out.append("\n");
            }
            out.append(self.lines[i].as_str());
            proof {
                assert(self@[i as int] == self.lines@[i as int]@);
                assert(self@.subrange(0, i as int + 1).drop_last() =~= self@.subrange(
                    0,
                    i as int,
                ));
                assert(self@.subrange(0, i as int + 1).last() == self@[i as int]);
                reveal_strlit("\n");
                if i == 0 {
                    assert(out@ =~= spec_join_nl(self@.subrange(0, 1)));
                } else {
                    assert(out@ =~= spec_join_nl(self@.subrange(0, i as int + 1)));
                }
            }
            i = i + 1;
        }
        proof {
            assert(self@.subrange(0, n as int) =~= self@);
        }
        out
    }

    /// The value of the first line declaring `name`, with or without a
    /// prefix word, or `None` when no line declares it.
    pub fn get_var(&self, name: &str) -> (r: Option<String>)
        ensures
            match spec_find_named(self@, name@) {
                Some(iv) => r matches Some(val) && val@ == line_value(self@[iv.0], iv.1),
                None => r is None,
            },
    {
        match self.find_named(name) {
            Some((i, ns, ne)) => {
                let line = &self.lines[i];
                let len = line.as_str().unicode_len();
                Some(String::from_str(line.as_str().substring_char(ne + 1, len)))
            },
            None => None,
        }
    }

    /// Remove the first line declaring `name`: the line's text is blanked,
    /// the newline structure kept, and the removed value returned.
    pub fn remove_var(&mut self, name: &str) -> (r: Option<String>)
        ensures
            match spec_find_named(old(self)@, name@) {
                Some(iv) => r matches Some(val) && val@ == line_value(old(self)@[iv.0], iv.1)
                    && final(self)@ == old(self)@.update(iv.0, Seq::<char>::empty()),
                None => r is None && final(self)@ == old(self)@,
            },
    {
        match self.find_named(name) {
            Some((i, ns, ne)) => {
                let line = &self.lines[i];
                let len = line.as_str().unicode_len();
                let val = String::from_str(line.as_str().substring_char(ne + 1, len));
                let ghost before = self.lines.deep_view();
                self.lines[i] = String::new();
                proof {
                    assert(self.lines.deep_view() =~= before.update(
                        i as int,
                        Seq::<char>::empty(),
                    ));
                }
                Some(val)
            },
            None => None,
        }
    }

    /// Set `name` to `val`. An existing declaration keeps everything before
    /// its `=` (its indent and prefix word) and takes the new value, and the
    /// old value is returned; otherwise a fresh `name=val` line is appended.
    /// Quoting is the caller's: a quoted value must be passed quoted.
    pub fn put_var(&mut self, name: &str, val: &str) -> (r: Option<String>)
        ensures
            match spec_find_named(old(self)@, name@) {
                Some(iv) => r matches Some(old_val) && old_val@ == line_value(
                    old(self)@[iv.0],
                    iv.1,
                ) && final(self)@ == old(self)@.update(
                    iv.0,
                    revalued_line(old(self)@[iv.0], iv.1, val@),
                ),
                None => r is None && final(self)@ == old(self)@.push(name@ + "="@ + val@),
            },
    {
        match self.find_named(name) {
            Some((i, ns, ne)) => {
                let line = &self.lines[i];
                let len = line.as_str().unicode_len();
                let old_val = String::from_str(line.as_str().substring_char(ne + 1, len));
                let mut nl = String::from_str(line.as_str().substring_char(0, ne));
                nl.append("=");
                nl.append(val);
                let ghost before = self.lines.deep_view();
                let ghost target = revalued_line(before[i as int], spec_find_named(
                    before, name@).unwrap().1, val@);
                proof {
                    reveal_strlit("=");
                    assert(nl@ =~= target);
                }
                self.lines[i] = nl;
                proof {
                    assert(self.lines.deep_view() =~= before.update(i as int, target));
                }
                Some(old_val)
            },
            None => {
                let mut nl = String::from_str(name);
                nl.append("=");
                nl.append(val);
                let ghost before = self.lines.deep_view();
                proof {
                    reveal_strlit("=");
                }
                self.lines.push(nl);
                proof {
                    assert(self.lines.deep_view() =~= before.push(name@ + "="@ + val@));
                }
                None
            },
        }
    }

    /// Whether some line declares `name` with the `export` word.
    pub fn is_exported_var(&self, name: &str) -> (r: bool)
        ensures
            r == exists|i: int| 0 <= i < self@.len() && export_matches(self@[i], name@),
    {
        let n = self.lines.len();
        let mut i: usize = 0;
        while i < n
            invariant
                i <= n,
                n == self@.len(),
                self@.len() == self.lines@.len(),
                forall|j: int| 0 <= j < i ==> !export_matches(self@[j], name@),
            decreases n - i,
        {
            proof {
                assert(self@[i as int] == self.lines@[i as int]@);
            }
            if self.line_is_export(i, name) {
                return true;
            }
            i = i + 1;
        }
        false
    }

    /// Export the first line declaring `name` that is exportable: one
    /// already exported returns its value unchanged; one with no prefix
    /// word is rewritten in place with `export ` before the name; lines
    /// with any other prefix word are passed over.
    pub fn export_var(&mut self, name: &str) -> (r: Option<String>)
        ensures
            match spec_find_exportable(old(self)@, name@) {
                Some(iv) => r matches Some(val) && val@ == line_value(old(self)@[iv.0], iv.1) && (
                if line_prefix(old(self)@[iv.0], iv.1) == "export"@ {
                    final(self)@ == old(self)@
                } else {
                    final(self)@ == old(self)@.update(
                        iv.0,
                        exported_line(old(self)@[iv.0], iv.1),
                    )
                }),
                None => r is None && final(self)@ == old(self)@,
            },
    {
        match self.find_exportable(name) {
            Some((i, ps, pe, ns, ne)) => {
                let line = &self.lines[i];
                let len = line.as_str().unicode_len();
                let val = String::from_str(line.as_str().substring_char(ne + 1, len));
                let already = range_is(line.as_str(), ps, pe, "export");
                if already {
                    Some(val)
                } else {
                    let mut nl = String::from_str(line.as_str().substring_char(0, ns));
                    nl.append("export ");
                    nl.append(line.as_str().substring_char(ns, ne));
                    nl.append("=");
                    nl.append(val.as_str());
                    let ghost before = self.lines.deep_view();
                    let ghost v = spec_find_exportable(before, name@).unwrap().1;
                    proof {
                        reveal_strlit("export ");
                        reveal_strlit("=");
                        assert(nl@ =~= exported_line(before[i as int], v));
                    }
                    self.lines[i] = nl;
                    proof {
                        assert(self.lines.deep_view() =~= before.update(
                            i as int,
                            exported_line(before[i as int], v),
                        ));
                    }
                    Some(val)
                }
            },
            None => None,
        }
    }

    /// Whether line `i` declares `name` with the `export` word.
    fn line_is_export(&self, i: usize, name: &str) -> (r: bool)
        requires
            i < self.lines@.len(),
            self@.len() == self.lines@.len(),
        ensures
            r == export_matches(self@[i as int], name@),
    {
        proof {
            assert(self@[i as int] == self.lines@[i as int]@);
        }
        let line = self.lines[i].as_str();
        let n = line.unicode_len();
        let a = scan_ws_exec(line, 0);
        if n < 6 || a > n - 6 {
            return false;
        }
        if !range_is(line, a, a + 6, "export") {
            return false;
        }
        let c = scan_ws_exec(line, a + 6);
        let name_len = name.unicode_len();
        if name_len >= n - c {
            return false;
        }
        if !range_is(line, c, c + name_len, name) {
            return false;
        }
        if line.get_char(c + name_len) != '=' {
            return false;
        }
        if c + name_len + 1 >= n {
            return false;
        }
        true
    }

    /// The first line declaring `name`: its index and name span.
    fn find_named(&self, name: &str) -> (r: Option<(usize, usize, usize)>)
        ensures
            match r {
                Some(t) => ({
                    &&& t.0 < self.lines@.len()
                    &&& self@.len() == self.lines@.len()
                    &&& spec_find_named(self@, name@) matches Some(iv) && iv.0 == t.0
                        && iv.1.name_start == t.1 && iv.1.name_end == t.2 && t.1 <= t.2 && t.2
                        < self@[t.0 as int].len()
                }),
                None => spec_find_named(self@, name@) is None,
            },
    {
        let n = self.lines.len();
        let mut i: usize = 0;
        proof {
            assert(self@.subrange(0, n as int) =~= self@);
        }
        while i < n
            invariant
                i <= n,
                n == self@.len(),
                self@.len() == self.lines@.len(),
                spec_find_named(self@, name@) == shift_found_by(
                    spec_find_named(self@.subrange(i as int, n as int), name@),
                    i as int,
                ),
            decreases n - i,
        {
            proof {
                assert(self@.subrange(i as int, n as int)[0] == self@[i as int]);
                assert(self@.subrange(i as int, n as int).drop_first() =~= self@.subrange(
                    i as int + 1,
                    n as int,
                ));
                assert(self@[i as int] == self.lines@[i as int]@);
            }
            let line = self.lines[i].as_str();
            if let Some((_ps, _pe, ns, ne)) = parse_line(line) {
                if range_is(line, ns, ne, name) {
                    return Some((i, ns, ne));
                }
            }
            i = i + 1;
        }
        proof {
            assert(self@.subrange(n as int, n as int).len() == 0);
        }
        None
    }

    /// The first exportable line declaring `name`: its index, prefix span
    /// and name span.
    fn find_exportable(&self, name: &str) -> (r: Option<(usize, usize, usize, usize, usize)>)
        ensures
            match r {
                Some(t) => ({
                    &&& t.0 < self.lines@.len()
                    &&& self@.len() == self.lines@.len()
                    &&& spec_find_exportable(self@, name@) matches Some(iv) && iv.0 == t.0
                        && iv.1.pfx_start == t.1 && iv.1.pfx_end == t.2 && iv.1.name_start == t.3
                        && iv.1.name_end == t.4 && t.1 <= t.2 <= t.3 <= t.4 && t.4
                        < self@[t.0 as int].len()
                }),
                None => spec_find_exportable(self@, name@) is None,
            },
    {
        let n = self.lines.len();
        let mut i: usize = 0;
        proof {
            assert(self@.subrange(0, n as int) =~= self@);
        }
        while i < n
            invariant
                i <= n,
                n == self@.len(),
                self@.len() == self.lines@.len(),
                spec_find_exportable(self@, name@) == shift_found_by(
                    spec_find_exportable(self@.subrange(i as int, n as int), name@),
                    i as int,
                ),
            decreases n - i,
        {
            proof {
                assert(self@.subrange(i as int, n as int)[0] == self@[i as int]);
                assert(self@.subrange(i as int, n as int).drop_first() =~= self@.subrange(
                    i as int + 1,
                    n as int,
                ));
                assert(self@[i as int] == self.lines@[i as int]@);
            }
            let line = self.lines[i].as_str();
            if let Some((ps, pe, ns, ne)) = parse_line(line) {
                if range_is(line, ns, ne, name) {
                    let exported = range_is(line, ps, pe, "export");
                    let bare = ps == pe;
                    if exported || bare {
                        proof {
                            if ps == pe {
                                assert(line_prefix(self@[i as int],
                                    parse_var_line(self@[i as int]).unwrap()) =~= Seq::<
                                    char,
                                >::empty());
                            }
                        }
                        return Some((i, ps, pe, ns, ne));
                    }
                }
            }
            i = i + 1;
        }
        proof {
            assert(self@.subrange(n as int, n as int).len() == 0);
        }
        None
    }
}

/// Like `shift_found`, displacing an index found in a suffix by `k`.
pub open spec fn shift_found_by(r: Option<(int, VarLine)>, k: int) -> Option<(int, VarLine)> {
    match r {
        Some((i, v)) => Some((i + k, v)),
        None => None,
    }
}

/// A split always yields at least one line.
proof fn lemma_split_nl_nonempty(s: Seq<char>)
    ensures
        spec_split_nl(s).len() >= 1,
    decreases s.len(),
{
    if s.len() > 0 && s[0] != '\n' {
        lemma_split_nl_nonempty(s.drop_first());
    }
}

/// Joining with a line in front inserts one newline after it.
proof fn lemma_join_cons(x: Seq<char>, ls: Seq<Seq<char>>)
    requires
        ls.len() >= 1,
    ensures
        spec_join_nl(seq![x] + ls) == x + seq!['\n'] + spec_join_nl(ls),
    decreases ls.len(),
{
    if ls.len() == 1 {
        assert((seq![x] + ls).drop_last() =~= seq![x]);
        assert((seq![x] + ls).last() == ls[0]);
        assert(spec_join_nl(seq![x]) == x);
        assert(spec_join_nl(ls) == ls[0]);
        assert(spec_join_nl(seq![x] + ls) =~= x + seq!['\n'] + spec_join_nl(ls));
    } else {
        lemma_join_cons(x, ls.drop_last());
        assert((seq![x] + ls).drop_last() =~= seq![x] + ls.drop_last());
        assert((seq![x] + ls).last() == ls.last());
        assert(spec_join_nl(seq![x] + ls) =~= x + seq!['\n'] + spec_join_nl(ls));
    }
}

/// The text is recoverable from its lines: joining the split of any text
/// yields the text back, so building a configuration from a text and
/// reading its content reproduces the text exactly.
pub proof fn lemma_content_roundtrip(s: Seq<char>)
    ensures
        spec_join_nl(spec_split_nl(s)) == s,
    decreases s.len(),
{
    if s.len() == 0 {
        assert(spec_join_nl(spec_split_nl(s)) =~= s);
    } else if s[0] == '\n' {
        lemma_content_roundtrip(s.drop_first());
        lemma_split_nl_nonempty(s.drop_first());
        lemma_join_cons(Seq::<char>::empty(), spec_split_nl(s.drop_first()));
        assert(spec_join_nl(spec_split_nl(s)) =~= s);
    } else {
        let rest = spec_split_nl(s.drop_first());
        lemma_content_roundtrip(s.drop_first());
        lemma_split_nl_nonempty(s.drop_first());
        if rest.len() == 1 {
            assert(spec_split_nl(s) =~= seq![seq![s[0]] + rest[0]]);
            assert(spec_join_nl(rest) == rest[0]);
            assert(rest[0] == s.drop_first());
            assert(spec_join_nl(seq![seq![s[0]] + rest[0]]) == seq![s[0]] + rest[0]);
            assert(seq![s[0]] + s.drop_first() =~= s);
            assert(spec_join_nl(spec_split_nl(s)) =~= s);
        } else {
            assert(seq![rest[0]] + rest.drop_first() =~= rest);
            lemma_join_cons(rest[0], rest.drop_first());
            lemma_join_cons(seq![s[0]] + rest[0], rest.drop_first());
            assert(spec_join_nl(spec_split_nl(s)) == (seq![s[0]] + rest[0]) + seq!['\n']
                + spec_join_nl(rest.drop_first()));
            assert(spec_join_nl(rest) == rest[0] + seq!['\n'] + spec_join_nl(rest.drop_first()));
            assert(seq![s[0]] + s.drop_first() =~= s);
            assert(spec_join_nl(spec_split_nl(s)) =~= seq![s[0]] + spec_join_nl(rest));
            assert(spec_join_nl(spec_split_nl(s)) =~= s);
        }
    }
}

/// `needle` occurs contiguously somewhere in `hay`.
pub open spec fn has_substring(hay: Seq<char>, needle: Seq<char>) -> bool {
    exists|k: int|
        0 <= k && k + needle.len() <= hay.len() && #[trigger] hay.subrange(
            k,
            k + needle.len() as int,
        ) == needle
}

/// Whether `needle` occurs in `hay`.
pub fn contains_sub(hay: &str, needle: &str) -> (r: bool)
    ensures
        r == has_substring(hay@, needle@),
{
    let n = hay.unicode_len();
    let m = needle.unicode_len();
    if m > n {
        return false;
    }
    if m == 0 {
        proof {
            assert(hay@.subrange(0int, 0 + needle@.len() as int) =~= needle@);
        }
        return true;
    }
    let mut k: usize = 0;
    while k <= n - m
        invariant
            1 <= m <= n,
            n == hay@.len(),
            m == needle@.len(),
            k <= n - m + 1,
            forall|j: int|
                0 <= j < k ==> #[trigger] hay@.subrange(j, j + needle@.len() as int) != needle@,
        decreases n - k,
    {
        if range_is(hay, k, k + m, needle) {
            return true;
        }
        k = k + 1;
    }
    false
}

/// The shell program's configuration driver: it reads the configuration
/// text and decides how the plugin list changes as clone attempts resolve.
/// Probing the plugin directory and running the clone itself are the
/// caller's; their outcomes are fed back in.
pub struct ZshProgram<'a> {
    zshrc_content: &'a ShellConfiguration,
    zsh_home: String,
}

impl<'a> ZshProgram<'a> {
    /// The home directory this program was configured with.
    pub closed spec fn spec_home(self) -> Seq<char> {
        self.zsh_home@
    }

    /// The configuration text this program reads.
    pub closed spec fn spec_content(self) -> Seq<Seq<char>> {
        self.zshrc_content@
    }

    pub fn new(content: &'a ShellConfiguration, zsh_home: &str) -> (r: Self)
        ensures
            r.spec_home() == zsh_home@,
            r.spec_content() == content@,
    {
        ZshProgram { zshrc_content: content, zsh_home: String::from_str(zsh_home) }
    }

    /// The plugin list variable, as the configuration declares it.
    pub fn plugins_var(&self) -> (r: Option<String>)
        ensures
            match spec_find_named(self.spec_content(), "plugins"@) {
                Some(iv) => r matches Some(val) && val@ == line_value(
                    self.spec_content()[iv.0],
                    iv.1,
                ),
                None => r is None,
            },
    {
        proof {
            reveal_strlit("plugins");
        }
        self.zshrc_content.get_var("plugins")
    }

    /// Where a plugin of this name lives under the home directory.
    pub fn plugin_path(&self, name: &str) -> (r: String)
        ensures
            r@ == self.spec_home() + "custom/plugins/"@ + name@,
    {
        let mut r = self.zsh_home.clone();
        r.append("custom/plugins/");
        r.append(name);
        r
    }

    /// The invocation that fetches a plugin into `path`.
    pub fn clone_command(&self, url: &str, path: &str) -> (r: String)
        ensures
            r@ == "git clone "@ + url@ + " "@ + path@,
    {
        let mut r = String::from_str("git clone ");
        r.append(url);
        r.append(" ");
        r.append(path);
        r
    }

    /// The verdict on one plugin fetch: a plugin directory that already
    /// exists is refused; a failed download is an I/O error; otherwise the
    /// plugin's name is returned. `run` is the captured clone invocation,
    /// present exactly when the directory was absent.
    pub fn get_plugin_with_git_clone(
        &self,
        name: &str,
        dir_exists: bool,
        run: &Option<Result<String, String>>,
    ) -> (r: Result<String, BackupError>)
        requires
            !dir_exists ==> run is Some,
        ensures
            dir_exists ==> r == Err::<String, BackupError>(BackupError::AlreadyExists),
            !dir_exists ==> match run {
                Some(Ok(_)) => r matches Ok(n) && n@ == name@,
                Some(Err(_)) => r == Err::<String, BackupError>(BackupError::Io),
                None => false,
            },
    {
        if dir_exists {
            return Err(BackupError::AlreadyExists);
        }
        match run {
            Some(Ok(_)) => Ok(String::from_str(name)),
            Some(Err(_)) => Err(BackupError::Io),
            None => {
                proof {
                    assert(false);
                }
                Err(BackupError::Io)
            },
        }
    }

    /// How the plugin list changes once a clone attempt has resolved: a
    /// fresh fetch appends the plugin's name; one refused because the
    /// plugin was already on disk appends the name only if the list does
    /// not carry it yet; any other failure leaves the list alone, to be
    /// logged by the caller.
    pub fn config_plugin_with_git(
        &self,
        plugins: &mut String,
        name: &str,
        clone_result: &Result<String, BackupError>,
    )
        ensures
            match clone_result {
                Ok(_) => final(plugins)@ == old(plugins)@ + name@,
                Err(e) => if e == BackupError::AlreadyExists {
                    if has_substring(old(plugins)@, name@) {
                        final(plugins)@ == old(plugins)@
                    } else {
                        final(plugins)@ == old(plugins)@ + name@
                    }
                } else {
                    final(plugins)@ == old(plugins)@
                },
            },
    {
        match clone_result {
            Ok(_) => plugins.append(name),
            Err(BackupError::AlreadyExists) => {
                if !contains_sub(plugins.as_str(), name) {
                    plugins.append(name);
                }
            },
            Err(_) => {},
        }
    }

    /// The plugins the configuration flow fetches, each with its source.
    pub fn plugin_specs() -> (r: Vec<(String, String)>)
        ensures
            r@.len() == 2,
            r@[0].0@ == "zsh-autosuggestions"@,
            r@[0].1@ == "https://github.com/zsh-users/zsh-autosuggestions"@,
            r@[1].0@ == "zsh-syntax-highlighting"@,
            r@[1].1@ == "https://github.com/zsh-users/zsh-syntax-highlighting.git"@,
    {
        let mut r: Vec<(String, String)> = Vec::new();
        r.push(
            (
                String::from_str("zsh-autosuggestions"),
                String::from_str("https://github.com/zsh-users/zsh-autosuggestions"),
            ),
        );
        r.push(
            (
                String::from_str("zsh-syntax-highlighting"),
                String::from_str("https://github.com/zsh-users/zsh-syntax-highlighting.git"),
            ),
        );
        r
    }
}

/// The split of a newline-free text is that text alone.
proof fn lemma_split_nl_none(t: Seq<char>)
    requires
        forall|j: int| 0 <= j < t.len() ==> t[j] != '\n',
    ensures
        spec_split_nl(t) == seq![t],
    decreases t.len(),
{
    if t.len() == 0 {
        assert(spec_split_nl(t) =~~= seq![t]);
    } else {
        lemma_split_nl_none(t.drop_first());
        assert(seq![t[0]] + t.drop_first() =~= t);
        assert(spec_split_nl(t) =~~= seq![t]);
    }
}

/// Splitting at the first newline: everything before it is the first line.
proof fn lemma_split_nl_first(t: Seq<char>, k: int)
    requires
        0 <= k < t.len(),
        t[k] == '\n',
        forall|j: int| 0 <= j < k ==> t[j] != '\n',
    ensures
        spec_split_nl(t) == seq![t.subrange(0, k)] + spec_split_nl(
            t.subrange(k + 1, t.len() as int),
        ),
    decreases k,
{
    if k == 0 {
        assert(t.drop_first() =~= t.subrange(1, t.len() as int));
        assert(t.subrange(0, 0) =~= Seq::<char>::empty());
        assert(spec_split_nl(t) =~~= seq![t.subrange(0, 0)] + spec_split_nl(
            t.subrange(1, t.len() as int),
        ));
    } else {
        let d = t.drop_first();
        lemma_split_nl_first(d, k - 1);
        assert(d.subrange(0, k - 1) =~= t.subrange(1, k));
        assert(d.subrange(k, d.len() as int) =~= t.subrange(k + 1, t.len() as int));
        assert(seq![t[0]] + t.subrange(1, k) =~= t.subrange(0, k));
        assert(spec_split_nl(t) =~~= seq![t.subrange(0, k)] + spec_split_nl(
            t.subrange(k + 1, t.len() as int),
        ));
    }
}

} // verus!
