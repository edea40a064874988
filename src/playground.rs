//! The compile-task collaborator's own rules: task descriptions, errors,
//! toolchain names and dependency comments.
use crate::strs::str_eq;
use semver::Version;
use vstd::prelude::*;
use vstd::string::StrSliceExecFns;
use vstd::string::StringExecFns;

verus! {

/// What a compile task asks cargo to do.
#[derive(PartialEq, Eq, Structural, Clone, Copy, Debug)]
pub enum TaskType {
    Run,
    Check,
    Test,
    Clean,
}

impl TaskType {
    /// The cargo subcommand for the task.
    pub fn as_str(&self) -> (r: &'static str)
        ensures
            r@ == (match self {
                TaskType::Run | TaskType::Check => "build"@,
                TaskType::Test => "test"@,
                TaskType::Clean => "clean"@,
            }),
    {
        match self {
            TaskType::Run => "build",
            TaskType::Check => "build",
            TaskType::Test => "test",
            TaskType::Clean => "clean",
        }
    }
}

/// A compile task: toolchain, source, what to run, and how.
pub struct Task {
    pub toolchain: String,
    pub code: String,
    pub task_type: TaskType,
    pub backtrace: bool,
    pub release: bool,
}

/// The result of a compiler run.
pub struct CompilerResult {
    pub success: bool,
    pub stdout: String,
    pub stderr: String,
    /// The path of the produced binary, if any.
    pub executable: Option<String>,
}

/// The failures of the compile-task collaborator.
#[derive(Debug)]
pub enum Error {
    ToolchainParseError(String),
    MissingRustup,
    ReadingToolchainsDir,
    CompileFailed(String),
    ToolchainSelectFailed(String),
    CreateOutputFailed(String),
    MalformedDependency(String),
    BadExit(String),
}

impl Error {
    /// The code sent with the error: a bad exit is 1, a missing toolchain
    /// manager 10, a malformed dependency 30, anything else 2.
    pub fn error_code(&self) -> (r: u32)
        ensures
            r == (match self {
                Error::BadExit(_) => 1u32,
                Error::MissingRustup => 10u32,
                Error::MalformedDependency(_) => 30u32,
                _ => 2u32,
            }),
    {
        match self {
            Error::BadExit(_) => 1,
            Error::MissingRustup => 10,
            Error::MalformedDependency(_) => 30,
            _ => 2,
        }
    }
}

/// The suffix of toolchains for this platform.
pub open spec fn native_suffix() -> Seq<char> {
    "-apple-darwin"@
}

pub open spec fn ends_with(s: Seq<char>, p: Seq<char>) -> bool {
    p.len() <= s.len() && s.skip(s.len() - p.len()) == p
}

/// `s` with every trailing copy of `p` removed.
pub open spec fn trim_end_matches(s: Seq<char>, p: Seq<char>) -> Seq<char>
    decreases s.len(),
{
    if p.len() > 0 && ends_with(s, p) { trim_end_matches(s.take(s.len() - p.len()), p) } else { s }
}

/// The index of the first `c` in `s`, if any.
pub open spec fn index_of(s: Seq<char>, c: char) -> Option<int>
    decreases s.len(),
{
    if s.len() == 0 {
        None
    } else if s[0] == c {
        Some(0)
    } else {
        match index_of(s.drop_first(), c) {
            Some(i) => Some(i + 1),
            None => None,
        }
    }
}

/// `info` is what a toolchain name splits into: the name without the
/// platform suffix and trailing dashes, cut at its first dash into channel
/// and date.
pub open spec fn info_from_name(info: ToolchainInfo, name: Seq<char>) -> bool {
    let t = trim_end_matches(trim_end_matches(name, native_suffix()), "-"@);
    &&& info.name@ == name
    &&& match index_of(t, '-') {
        Some(i) => info.channel@ == t.take(i) && info.date.is_some() && info.date.unwrap()@ == t.skip(i + 1),
        None => info.channel@ == t && info.date.is_none(),
    }
}

/// An installed toolchain: its full name, channel, and date if present.
pub struct ToolchainInfo {
    pub name: String,
    pub channel: String,
    pub date: Option<String>,
}

/// Whether `s` ends with `p`.
fn str_ends_with(s: &str, n: usize, p: &str) -> (r: bool)
    requires
        n <= s@.len(),
    ensures
        r == ends_with(s@.take(n as int), p@),
{
    let m = p.unicode_len();
    if m > n {
        return false;
    }
    let tail = s.substring_char(n - m, n);
    proof {
        assert(s@.take(n as int).skip(n - m) =~= s@.subrange(n - m, n as int));
    }
    str_eq(tail, p)
}

impl ToolchainInfo {
    /// Splits a toolchain name: without the platform suffix and trailing
    /// dashes, the channel runs to the first dash and the date follows it.
    pub fn from_name(name: String) -> (r: Result<ToolchainInfo, Error>)
        ensures
            r is Ok,
            info_from_name(r->Ok_0, name@),
    {
        let s = name.as_str();
        let mut n = s.unicode_len();
        let suffix = "-apple-darwin";
        proof {
            reveal_strlit("-apple-darwin");
            assert(s@.take(n as int) =~= s@);
        }
        while str_ends_with(s, n, suffix)
            invariant
                n <= s@.len(),
                suffix@ == native_suffix(),
                suffix@.len() == 13,
                trim_end_matches(s@.take(n as int), native_suffix()) == trim_end_matches(s@, native_suffix()),
            decreases n,
        {
            proof {
                assert(s@.take(n as int).take(n - 13) =~= s@.take(n - 13));
            }
            n = n - 13;
        }
        let ghost t1 = s@.take(n as int);
        let mut m = n;
        proof {
            reveal_strlit("-");
            assert(s@.take(m as int) =~= t1);
        }
        while m > 0 && s.get_char(m - 1) == '-'
            invariant
                m <= n <= s@.len(),
                "-"@ == seq!['-'],
                t1 == s@.take(n as int),
                trim_end_matches(s@.take(m as int), "-"@) == trim_end_matches(t1, "-"@),
            decreases m,
        {
            proof {
                assert(ends_with(s@.take(m as int), "-"@)) by {
                    assert(s@.take(m as int).skip(m - 1) =~= seq!['-']);
                }
                assert(trim_end_matches(s@.take(m as int), "-"@) == trim_end_matches(s@.take(m as int).take(m - 1), "-"@));
                assert(s@.take(m as int).take(m - 1) =~= s@.take(m - 1));
            }
            m = m - 1;
        }
        proof {
            reveal_strlit("-");
            if m > 0 {
                assert(!ends_with(s@.take(m as int), "-"@)) by {
                    assert(s@.take(m as int).skip(m - 1)[0] == s@[m - 1]);
                }
            }
            assert(trim_end_matches(s@.take(m as int), "-"@) == s@.take(m as int));
        }
        let ghost t = s@.take(m as int);
        let mut i: usize = 0;
        assert(t.skip(0) =~= t);
        while i < m && s.get_char(i) != '-'
            invariant
                i <= m <= s@.len(),
                t == s@.take(m as int),
                forall|k: int| 0 <= k < i ==> s@[k] != '-',
                index_of(t, '-') == match index_of(t.skip(i as int), '-') {
                    Some(j) => Some(j + i),
                    None => None::<int>,
                },
            decreases m - i,
        {
            proof {
                assert(t.skip(i as int).drop_first() =~= t.skip(i + 1));
            }
            i = i + 1;
        }
        proof {
            if i < m {
                assert(t.skip(i as int)[0] == '-');
            } else {
                assert(t.skip(i as int).len() == 0);
            }
        }
        let channel = String::from_str(s.substring_char(0, i));
        let date = if i < m { Some(String::from_str(s.substring_char(i + 1, m))) } else { None };
        proof {
            assert(s@.subrange(0, i as int) =~= t.take(i as int));
            if i < m {
                assert(s@.subrange(i + 1, m as int) =~= t.skip(i + 1));
            } else {
                assert(s@.subrange(0, i as int) =~= t);
            }
        }
        Ok(ToolchainInfo { name, channel, date })
    }
}

/// The names among `s` that end with the platform suffix, in order.
pub open spec fn native_names(s: Seq<Seq<char>>) -> Seq<Seq<char>>
    decreases s.len(),
{
    if s.len() == 0 {
        Seq::empty()
    } else {
        let p = native_names(s.drop_last());
        if ends_with(s.last(), native_suffix()) { p.push(s.last()) } else { p }
    }
}

pub open spec fn infos_names(v: Seq<ToolchainInfo>) -> Seq<Seq<char>> {
    v.map_values(|t: ToolchainInfo| t.name@)
}

/// The installed toolchains for this platform, from the names of the
/// toolchain manager's entries: names without the platform suffix are left
/// out.
pub fn list_toolchains(names: &Vec<String>) -> (r: Result<Vec<ToolchainInfo>, Error>)
    ensures
        r is Ok,
        infos_names(r->Ok_0@) == native_names(names@.map_values(|n: String| n@)),
        forall|k: int| 0 <= k < r->Ok_0@.len() ==> info_from_name(#[trigger] r->Ok_0@[k], r->Ok_0@[k].name@),
{
    let mut out: Vec<ToolchainInfo> = Vec::new();
    let mut i: usize = 0;
    let suffix = "-apple-darwin";
    proof {
        reveal_strlit("-apple-darwin");
    }
    while i < names.len()
        invariant
            0 <= i <= names@.len(),
            suffix@ == native_suffix(),
            infos_names(out@) == native_names(names@.map_values(|n: String| n@).take(i as int)),
            forall|k: int| 0 <= k < out@.len() ==> info_from_name(#[trigger] out@[k], out@[k].name@),
        decreases names@.len() - i,
    {
        let name = names[i].as_str();
        let n = name.unicode_len();
        let keep = str_ends_with(name, n, suffix);
        proof {
            let all = names@.map_values(|n: String| n@);
            assert(all.take(i + 1).drop_last() =~= all.take(i as int));
            assert(all.take(i + 1).last() == names@[i as int]@);
            assert(name@.take(n as int) =~= name@);
        }
        if keep {
            let info = ToolchainInfo::from_name(names[i].clone());
            match info {
                Ok(t) => {
                    out.push(t);
                },
                Err(e) => {
                    return Err(e);
                },
            }
        }
        proof {
            assert(infos_names(out@) =~= native_names(names@.map_values(|n: String| n@).take(i + 1)));
        }
        i = i + 1;
    }
    proof {
        assert(names@.map_values(|n: String| n@).take(i as int) =~= names@.map_values(|n: String| n@));
    }
    Ok(out)
}

/// Unicode's White_Space characters.
pub open spec fn is_space(c: char) -> bool {
    ('\u{9}' <= c && c <= '\u{d}') || c == ' ' || c == '\u{85}' || c == '\u{a0}' || c == '\u{1680}'
        || ('\u{2000}' <= c && c <= '\u{200a}') || c == '\u{2028}' || c == '\u{2029}' || c == '\u{202f}'
        || c == '\u{205f}' || c == '\u{3000}'
}

pub fn is_space_char(c: char) -> (r: bool)
    ensures
        r == is_space(c),
{
    ('\u{9}' <= c && c <= '\u{d}') || c == ' ' || c == '\u{85}' || c == '\u{a0}' || c == '\u{1680}'
        || ('\u{2000}' <= c && c <= '\u{200a}') || c == '\u{2028}' || c == '\u{2029}' || c == '\u{202f}'
        || c == '\u{205f}' || c == '\u{3000}'
}

pub open spec fn ltrim(s: Seq<char>) -> Seq<char>
    decreases s.len(),
{
    if s.len() > 0 && is_space(s[0]) { ltrim(s.drop_first()) } else { s }
}

pub open spec fn rtrim(s: Seq<char>) -> Seq<char>
    decreases s.len(),
{
    if s.len() > 0 && is_space(s.last()) { rtrim(s.drop_last()) } else { s }
}

/// `s` without leading and trailing whitespace.
pub open spec fn trim(s: Seq<char>) -> Seq<char> {
    rtrim(ltrim(s))
}

/// `s` with every leading copy of `p` removed.
pub open spec fn trim_start_matches(s: Seq<char>, p: Seq<char>) -> Seq<char>
    decreases s.len(),
{
    if p.len() > 0 && p.len() <= s.len() && s.take(p.len() as int) == p { trim_start_matches(s.skip(p.len() as int), p) } else { s }
}

/// `s` without leading and trailing `c`.
pub open spec fn trim_char(s: Seq<char>, c: char) -> Seq<char>
    decreases s.len(),
{
    if s.len() > 0 && s[0] == c {
        trim_char(s.drop_first(), c)
    } else if s.len() > 0 && s.last() == c {
        trim_char(s.drop_last(), c)
    } else {
        s
    }
}

/// The whitespace-separated words of `s` from `i` on, `cur` being the
/// word read so far.
pub open spec fn words(s: Seq<char>, i: int, cur: Seq<char>) -> Seq<Seq<char>>
    decreases s.len() - i,
{
    if i >= s.len() {
        if cur.len() > 0 { seq![cur] } else { Seq::empty() }
    } else if is_space(s[i]) {
        (if cur.len() > 0 { seq![cur] } else { Seq::empty() }) + words(s, i + 1, Seq::empty())
    } else {
        words(s, i + 1, cur.push(s[i]))
    }
}

pub open spec fn legal_in_crate_name_spec(c: char) -> bool {
    ('a' <= c && c <= 'z') || ('A' <= c && c <= 'Z') || ('0' <= c && c <= '9') || c == '_' || c == '-'
}

pub open spec fn legal_in_version_spec(c: char) -> bool {
    ('0' <= c && c <= '9') || c == '.'
}

pub fn legal_in_crate_name(c: char) -> (r: bool)
    ensures
        r == legal_in_crate_name_spec(c),
{
    ('a' <= c && c <= 'z') || ('A' <= c && c <= 'Z') || ('0' <= c && c <= '9') || c == '_' || c == '-'
}

pub fn legal_in_version(c: char) -> (r: bool)
    ensures
        r == legal_in_version_spec(c),
{
    ('0' <= c && c <= '9') || c == '.'
}

/// What a dependency comment line stands for: the manifest line it adds,
/// or the malformed text (the line without comment marker and spaces).
pub open spec fn dep_line(line: Seq<char>) -> Result<Seq<char>, Seq<char>> {
    let l = trim(trim_start_matches(trim(line), "//~"@));
    let t = words(l, 0, Seq::empty());
    if t.len() == 2 && t[0] == "use"@ {
        if forall|k: int| 0 <= k < t[1].len() ==> legal_in_crate_name_spec(#[trigger] t[1][k]) {
            Ok(t[1] + " = \"*\""@)
        } else {
            Err(l)
        }
    } else if t.len() == 4 && t[0] == "use"@ && t[2] == "="@ {
        let v = trim_char(t[3], '"');
        if (forall|k: int| 0 <= k < t[1].len() ==> legal_in_crate_name_spec(#[trigger] t[1][k])) && v.len() > 0
            && (forall|k: int| 0 <= k < v.len() ==> legal_in_version_spec(#[trigger] v[k])) {
            Ok(t[1] + " = \""@ + v + "\""@)
        } else {
            Err(l)
        }
    } else {
        Err(l)
    }
}

/// Trims whitespace off both ends of `s[a..b]`, giving the new bounds.
fn trim_range(s: &str, a: usize, b: usize) -> (r: (usize, usize))
    requires
        a <= b <= s@.len(),
    ensures
        r.0 <= r.1,
        a <= r.0,
        r.1 <= b,
        s@.subrange(r.0 as int, r.1 as int) == trim(s@.subrange(a as int, b as int)),
{
    let mut x = a;
    while x < b && is_space_char(s.get_char(x))
        invariant
            a <= x <= b <= s@.len(),
            ltrim(s@.subrange(x as int, b as int)) == ltrim(s@.subrange(a as int, b as int)),
        decreases b - x,
    {
        proof {
            assert(s@.subrange(x as int, b as int).drop_first() =~= s@.subrange(x + 1, b as int));
        }
        x = x + 1;
    }
    proof {
        if x < b {
            assert(s@.subrange(x as int, b as int)[0] == s@[x as int]);
        }
        assert(ltrim(s@.subrange(x as int, b as int)) == s@.subrange(x as int, b as int));
    }
    let mut y = b;
    while y > x && is_space_char(s.get_char(y - 1))
        invariant
            a <= x <= y <= b <= s@.len(),
            rtrim(s@.subrange(x as int, y as int)) == trim(s@.subrange(a as int, b as int)),
        decreases y - x,
    {
        proof {
            assert(s@.subrange(x as int, y as int).drop_last() =~= s@.subrange(x as int, y - 1));
        }
        y = y - 1;
    }
    proof {
        if y > x {
            assert(s@.subrange(x as int, y as int).last() == s@[y - 1]);
        }
    }
    (x, y)
}

/// Splits `s[a..b]` into whitespace-separated words, as bounds.
fn word_ranges(s: &str, a: usize, b: usize) -> (r: Vec<(usize, usize)>)
    requires
        a <= b <= s@.len(),
    ensures
        r@.len() == words(s@.subrange(a as int, b as int), 0, Seq::empty()).len(),
        forall|k: int| 0 <= k < r@.len() ==> (#[trigger] r@[k]).0 <= r@[k].1 <= s@.len()
            && s@.subrange(r@[k].0 as int, r@[k].1 as int) == words(s@.subrange(a as int, b as int), 0, Seq::empty())[k],
{
    let ghost l = s@.subrange(a as int, b as int);
    let mut out: Vec<(usize, usize)> = Vec::new();
    let mut i = a;
    let mut cs = a;
    proof {
        assert(s@.subrange(a as int, a as int) =~= Seq::<char>::empty());
        assert(out@.map_values(|p: (usize, usize)| s@.subrange(p.0 as int, p.1 as int)) =~= Seq::<Seq<char>>::empty());
        assert(Seq::<Seq<char>>::empty() + words(l, 0, Seq::empty()) =~= words(l, 0, Seq::empty()));
    }
    while i < b
        invariant
            a <= cs <= i <= b <= s@.len(),
            l == s@.subrange(a as int, b as int),
            forall|k: int| 0 <= k < out@.len() ==> (#[trigger] out@[k]).0 <= out@[k].1 <= s@.len(),
            out@.map_values(|p: (usize, usize)| s@.subrange(p.0 as int, p.1 as int))
                + words(l, i - a, s@.subrange(cs as int, i as int)) == words(l, 0, Seq::empty()),
        decreases b - i,
    {
        let ghost before = out@;
        let c = s.get_char(i);
        proof {
            assert(l[i - a] == s@[i as int]);
        }
        if is_space_char(c) {
            if cs < i {
                out.push((cs, i));
            }
            proof {
                let f = |p: (usize, usize)| s@.subrange(p.0 as int, p.1 as int);
                assert(s@.subrange((i + 1) as int, (i + 1) as int) =~= Seq::<char>::empty());
                assert(out@.map_values(f) =~= before.map_values(f) + (if s@.subrange(cs as int, i as int).len() > 0 {
                    seq![s@.subrange(cs as int, i as int)] } else { Seq::<Seq<char>>::empty() }));
            }
            cs = i + 1;
        } else {
            proof {
                assert(s@.subrange(cs as int, i + 1) =~= s@.subrange(cs as int, i as int).push(s@[i as int]));
            }
        }
        i = i + 1;
    }
    let ghost before = out@;
    if cs < i {
        out.push((cs, i));
    }
    proof {
        let f = |p: (usize, usize)| s@.subrange(p.0 as int, p.1 as int);
        assert(out@.map_values(f) =~= before.map_values(f) + words(l, i - a, s@.subrange(cs as int, i as int)));
        assert forall|k: int| 0 <= k < out@.len() implies (#[trigger] out@[k]).0 <= out@[k].1 <= s@.len()
            && s@.subrange(out@[k].0 as int, out@[k].1 as int) == words(l, 0, Seq::empty())[k] by {
            assert(out@.map_values(f)[k] == f(out@[k]));
        }
    }
    out
}

/// Whether every character of `s[a..b]` satisfies the crate-name rule
/// (`version` false) or the version rule (`version` true).
fn all_legal(s: &str, a: usize, b: usize, version: bool) -> (r: bool)
    requires
        a <= b <= s@.len(),
    ensures
        r == (forall|k: int| 0 <= k < b - a ==> (if version {
            legal_in_version_spec(#[trigger] s@.subrange(a as int, b as int)[k])
        } else {
            legal_in_crate_name_spec(s@.subrange(a as int, b as int)[k])
        })),
{
    let mut i = a;
    while i < b
        invariant
            a <= i <= b <= s@.len(),
            forall|k: int| 0 <= k < i - a ==> (if version {
                legal_in_version_spec(#[trigger] s@.subrange(a as int, b as int)[k])
            } else {
                legal_in_crate_name_spec(s@.subrange(a as int, b as int)[k])
            }),
        decreases b - i,
    {
        let c = s.get_char(i);
        proof {
            assert(s@.subrange(a as int, b as int)[i - a] == c);
        }
        let ok = if version { legal_in_version(c) } else { legal_in_crate_name(c) };
        if !ok {
            return false;
        }
        i = i + 1;
    }
    true
}

/// Reads one dependency comment, `//~ use NAME` or `//~ use NAME = VERSION`
/// (quotes around the version are dropped), as a manifest line. A name is
/// letters, digits, `_` and `-`; a version is one or more digits and dots.
pub fn dep_for_comment_line(line: &str) -> (r: Result<String, Error>)
    ensures
        match (r, dep_line(line@)) {
            (Ok(x), Ok(y)) => x@ == y,
            (Err(Error::MalformedDependency(m)), Err(y)) => m@ == y,
            _ => false,
        },
{
    let n = line.unicode_len();
    let (mut a, b0) = trim_range(line, 0, n);
    proof {
        assert(line@.subrange(0, n as int) =~= line@);
        reveal_strlit("//~");
    }
    let ghost t0 = line@.subrange(a as int, b0 as int);
    while b0 - a >= 3 && str_eq(line.substring_char(a, a + 3), "//~")
        invariant
            a <= b0 <= line@.len(),
            "//~"@.len() == 3,
            trim_start_matches(line@.subrange(a as int, b0 as int), "//~"@) == trim_start_matches(t0, "//~"@),
        decreases b0 - a,
    {
        proof {
            let u = line@.subrange(a as int, b0 as int);
            assert(u.take(3) =~= line@.subrange(a as int, a + 3));
            assert(u.skip(3) =~= line@.subrange(a + 3, b0 as int));
        }
        a = a + 3;
    }
    proof {
        let u = line@.subrange(a as int, b0 as int);
        if b0 - a >= 3 {
            assert(u.take(3) =~= line@.subrange(a as int, a + 3));
        }
        assert(trim_start_matches(u, "//~"@) == u);
    }
    let (a, b) = trim_range(line, a, b0);
    let ws = word_ranges(line, a, b);
    let ghost l = line@.subrange(a as int, b as int);
    let ghost t = words(l, 0, Seq::empty());
    let malformed = String::from_str(line.substring_char(a, b));
    if ws.len() >= 2 && str_eq(line.substring_char(ws[0].0, ws[0].1), "use") {
        let (n0, n1) = ws[1];
        if ws.len() == 2 {
            if all_legal(line, n0, n1, false) {
                let mut out = String::from_str(line.substring_char(n0, n1));
                out.append(" = \"*\"");
                return Ok(out);
            }
            return Err(Error::MalformedDependency(malformed));
        }
        if ws.len() == 4 && str_eq(line.substring_char(ws[2].0, ws[2].1), "=") {
            let (mut v0, mut v1) = ws[3];
            let ghost w = line@.subrange(v0 as int, v1 as int);
            while v0 < v1 && line.get_char(v0) == '"'
                invariant
                    v0 <= v1 <= line@.len(),
                    trim_char(line@.subrange(v0 as int, v1 as int), '"') == trim_char(w, '"'),
                decreases v1 - v0,
            {
                proof {
                    assert(line@.subrange(v0 as int, v1 as int).drop_first() =~= line@.subrange(v0 + 1, v1 as int));
                }
                v0 = v0 + 1;
            }
            let ghost front = v0;
            proof {
                if v0 < v1 {
                    assert(line@.subrange(v0 as int, v1 as int)[0] == line@[v0 as int]);
                }
            }
            while v1 > v0 && line.get_char(v1 - 1) == '"'
                invariant
                    front == v0,
                    v0 <= v1 <= line@.len(),
                    v0 < v1 ==> line@[v0 as int] != '"',
                    trim_char(line@.subrange(v0 as int, v1 as int), '"') == trim_char(w, '"'),
                decreases v1 - v0,
            {
                proof {
                    let u = line@.subrange(v0 as int, v1 as int);
                    assert(u.drop_last() =~= line@.subrange(v0 as int, v1 - 1));
                    assert(u[0] == line@[v0 as int]);
                    assert(u.last() == line@[v1 - 1]);
                }
                v1 = v1 - 1;
            }
            proof {
                let u = line@.subrange(v0 as int, v1 as int);
                if u.len() > 0 {
                    assert(u[0] == line@[v0 as int]);
                    assert(u.last() == line@[v1 - 1]);
                }
                assert(trim_char(u, '"') == u);
            }
            if all_legal(line, n0, n1, false) && v0 < v1 && all_legal(line, v0, v1, true) {
                let mut out = String::from_str(line.substring_char(n0, n1));
                out.append(" = \"");
                out.append(line.substring_char(v0, v1));
                out.append("\"");
                return Ok(out);
            }
        }
    }
    Err(Error::MalformedDependency(malformed))
}

/// `c` without a final carriage return.
pub open spec fn strip_cr(c: Seq<char>) -> Seq<char> {
    if c.len() > 0 && c.last() == '\r' { c.drop_last() } else { c }
}

/// The lines of `s` from `i` on, `cur` being the line read so far: lines end
/// at a newline, which goes with a carriage return before it; the last line
/// needs no newline, and nothing follows a final newline.
pub open spec fn text_lines(s: Seq<char>, i: int, cur: Seq<char>) -> Seq<Seq<char>>
    decreases s.len() - i,
{
    if i >= s.len() {
        if cur.len() > 0 { seq![cur] } else { Seq::empty() }
    } else if s[i] == '\n' {
        seq![strip_cr(cur)] + text_lines(s, i + 1, Seq::empty())
    } else {
        text_lines(s, i + 1, cur.push(s[i]))
    }
}

pub open spec fn is_dep_comment(line: Seq<char>) -> bool {
    "//~"@.len() <= trim(line).len() && trim(line).take("//~"@.len() as int) == "//~"@
}

/// The manifest lines of the dependency comments among `lines`, or the
/// first malformed one.
pub open spec fn dep_lines(lines: Seq<Seq<char>>) -> Result<Seq<Seq<char>>, Seq<char>>
    decreases lines.len(),
{
    if lines.len() == 0 {
        Ok(Seq::empty())
    } else {
        let first = lines[0];
        if is_dep_comment(first) {
            match dep_line(first) {
                Err(e) => Err(e),
                Ok(l) => match dep_lines(lines.drop_first()) {
                    Ok(rest) => Ok(seq![l] + rest),
                    Err(e) => Err(e),
                },
            }
        } else {
            dep_lines(lines.drop_first())
        }
    }
}

/// Bounds of the lines of `s`, as `text_lines` has them.
fn line_ranges(s: &str) -> (r: Vec<(usize, usize)>)
    ensures
        r@.len() == text_lines(s@, 0, Seq::empty()).len(),
        forall|k: int| 0 <= k < r@.len() ==> (#[trigger] r@[k]).0 <= r@[k].1 <= s@.len()
            && s@.subrange(r@[k].0 as int, r@[k].1 as int) == text_lines(s@, 0, Seq::empty())[k],
{
    let n = s.unicode_len();
    let mut out: Vec<(usize, usize)> = Vec::new();
    let mut i: usize = 0;
    let mut cs: usize = 0;
    let ghost f = |p: (usize, usize)| s@.subrange(p.0 as int, p.1 as int);
    proof {
        assert(s@.subrange(0, 0) =~= Seq::<char>::empty());
        assert(out@.map_values(f) =~= Seq::<Seq<char>>::empty());
        assert(Seq::<Seq<char>>::empty() + text_lines(s@, 0, Seq::empty()) =~= text_lines(s@, 0, Seq::empty()));
    }
    while i < n
        invariant
            n == s@.len(),
            cs <= i <= n,
            f == (|p: (usize, usize)| s@.subrange(p.0 as int, p.1 as int)),
            forall|k: int| 0 <= k < out@.len() ==> (#[trigger] out@[k]).0 <= out@[k].1 <= s@.len(),
            out@.map_values(f) + text_lines(s@, i as int, s@.subrange(cs as int, i as int)) == text_lines(s@, 0, Seq::empty()),
        decreases n - i,
    {
        let ghost before = out@;
        let c = s.get_char(i);
        if c == '\n' {
            let end = if i > cs && s.get_char(i - 1) == '\r' { i - 1 } else { i };
            out.push((cs, end));
            proof {
                let cur = s@.subrange(cs as int, i as int);
                if i > cs && s@[i - 1] == '\r' {
                    assert(cur.last() == s@[i - 1]);
                    assert(cur.drop_last() =~= s@.subrange(cs as int, end as int));
                } else {
                    assert(cur.len() == 0 || cur.last() == s@[i - 1]);
                }
                assert(strip_cr(cur) == s@.subrange(cs as int, end as int));
                assert(s@.subrange((i + 1) as int, (i + 1) as int) =~= Seq::<char>::empty());
                assert(out@.map_values(f) =~= before.map_values(f).push(strip_cr(cur)));
                assert(out@.map_values(f) + text_lines(s@, i + 1, Seq::empty())
                    =~= before.map_values(f) + (seq![strip_cr(cur)] + text_lines(s@, i + 1, Seq::empty())));
            }
            cs = i + 1;
        } else {
            proof {
                assert(s@.subrange(cs as int, i + 1) =~= s@.subrange(cs as int, i as int).push(s@[i as int]));
            }
        }
        i = i + 1;
    }
    let ghost before = out@;
    if cs < i {
        out.push((cs, i));
    }
    proof {
        assert(out@.map_values(f) =~= before.map_values(f) + text_lines(s@, i as int, s@.subrange(cs as int, i as int)));
        assert forall|k: int| 0 <= k < out@.len() implies (#[trigger] out@[k]).0 <= out@[k].1 <= s@.len()
            && s@.subrange(out@[k].0 as int, out@[k].1 as int) == text_lines(s@, 0, Seq::empty())[k] by {
            assert(out@.map_values(f)[k] == f(out@[k]));
        }
    }
    out
}

/// The manifest lines for the dependency comments of `code` (lines that
/// start with `//~` once trimmed), or the first malformed one.
pub fn parse_dep_comments(code: &str) -> (r: Result<Vec<String>, Error>)
    ensures
        match (r, dep_lines(text_lines(code@, 0, Seq::empty()))) {
            (Ok(v), Ok(w)) => v@.len() == w.len() && forall|k: int| 0 <= k < w.len() ==> (#[trigger] v@[k])@ == w[k],
            (Err(Error::MalformedDependency(m)), Err(e)) => m@ == e,
            _ => false,
        },
{
    let ranges = line_ranges(code);
    let ghost lines = text_lines(code@, 0, Seq::empty());
    let mut out: Vec<String> = Vec::new();
    let mut k: usize = 0;
    proof {
        reveal_strlit("//~");
        assert(lines.skip(0) =~= lines);
        assert(out@.map_values(|x: String| x@) =~= Seq::<Seq<char>>::empty());
        match dep_lines(lines) {
            Ok(rest) => {
                assert(Seq::<Seq<char>>::empty() + rest =~= rest);
            },
            Err(_) => {},
        }
    }
    while k < ranges.len()
        invariant
            ranges@.len() == lines.len(),
            lines == text_lines(code@, 0, Seq::empty()),
            forall|q: int| 0 <= q < ranges@.len() ==> (#[trigger] ranges@[q]).0 <= ranges@[q].1 <= code@.len()
                && code@.subrange(ranges@[q].0 as int, ranges@[q].1 as int) == lines[q],
            "//~"@.len() == 3,
            0 <= k <= ranges@.len(),
            dep_lines(lines) == match dep_lines(lines.skip(k as int)) {
                Ok(rest) => Ok(out@.map_values(|x: String| x@) + rest),
                Err(e) => Err(e),
            },
        decreases ranges@.len() - k,
    {
        let (a, b) = ranges[k];
        let line = code.substring_char(a, b);
        proof {
            let rest = lines.skip(k as int);
            assert(rest[0] == lines[k as int]);
            assert(rest.drop_first() =~= lines.skip(k + 1));
        }
        let n = line.unicode_len();
        let (ta, tb) = trim_range(line, 0, n);
        proof {
            assert(line@.subrange(0, n as int) =~= line@);
        }
        let is_comment = tb - ta >= 3 && str_eq(line.substring_char(ta, ta + 3), "//~");
        proof {
            let t = line@.subrange(ta as int, tb as int);
            if tb - ta >= 3 {
                assert(t.take(3) =~= line@.subrange(ta as int, ta + 3));
            }
            assert(is_comment == is_dep_comment(line@));
        }
        if is_comment {
            match dep_for_comment_line(line) {
                Ok(l) => {
                    let ghost before = out@;
                    out.push(l);
                    proof {
                        assert(out@.map_values(|x: String| x@) =~= before.map_values(|x: String| x@).push(out@.last()@));
                        let rest = lines.skip(k + 1);
                        match dep_lines(rest) {
                            Ok(r2) => {
                                assert(before.map_values(|x: String| x@) + (seq![out@.last()@] + r2)
                                    =~= out@.map_values(|x: String| x@) + r2);
                            },
                            Err(_) => {},
                        }
                    }
                },
                Err(e) => {
                    return Err(e);
                },
            }
        }
        k = k + 1;
    }
    proof {
        assert(lines.skip(k as int) =~= Seq::<Seq<char>>::empty());
        assert(out@.map_values(|x: String| x@) + Seq::<Seq<char>>::empty() =~= out@.map_values(|x: String| x@));
    }
    Ok(out)
}

#[verifier::external_type_specification]
#[verifier::external_body]
pub struct ExVersion(Version);

/// Relies on semver's Version::parse; `None` when the text is no version.
#[verifier::external_body]
fn parse_version(s: &str) -> Option<Version> {
    Version::parse(s).ok()
}

/// Relies on semver's Version and Identifier to build the pre-release
/// version `0.0.0-ord.s`.
#[verifier::external_body]
fn pre_release_version(ord: u64, s: &str) -> Version {
    Version {
        major: 0,
        minor: 0,
        patch: 0,
        pre: vec![semver::Identifier::Numeric(ord), semver::Identifier::AlphaNumeric(s.to_string())],
        build: vec![],
    }
}

/// Relies on semver's ordering of versions.
#[verifier::external_body]
fn version_le(a: &Version, b: &Version) -> bool {
    a <= b
}

/// Relies on str::replace: every underscore becomes a dash.
#[verifier::external_body]
fn underscores_to_dashes(s: &str) -> (r: String)
    ensures
        r@ == s@.map_values(|c: char| if c == '_' { '-' } else { c }),
{
    s.replace('_', "-")
}

/// Whether `s` starts with `p`.
fn str_starts_with(s: &str, p: &str) -> (r: bool)
    ensures
        r == (p@.len() <= s@.len() && s@.take(p@.len() as int) == p@),
{
    let n = s.unicode_len();
    let m = p.unicode_len();
    if m > n {
        return false;
    }
    let head = s.substring_char(0, m);
    proof {
        assert(s@.subrange(0, m as int) =~= s@.take(m as int));
    }
    str_eq(head, p)
}

/// The length of `s[..n]` once every trailing copy of `suffix` is removed.
fn trimmed_len(s: &str, len: usize, suffix: &str) -> (r: usize)
    requires
        len <= s@.len(),
    ensures
        r <= len,
{
    let m = suffix.unicode_len();
    if m == 0 {
        return len;
    }
    let mut n = len;
    while m <= n && str_ends_with(s, n, suffix)
        invariant
            n <= len <= s@.len(),
            m >= 1,
        decreases n,
    {
        n = n - m;
    }
    n
}

/// The ordering key of a toolchain name, without the platform suffix and
/// architecture, so that a channel orders before its dated builds:
/// stable, then beta, then nightly channels, then released versions by
/// version number, then anything else.
pub fn toolchain_sort_key(name: &str) -> Version {
    let n = name.unicode_len();
    let n = trimmed_len(name, n, "-apple-darwin");
    let n = trimmed_len(name, n, "-x86_64");
    let s = name.substring_char(0, n);
    if str_starts_with(s, "stable") {
        pre_release_version(0, s)
    } else if str_starts_with(s, "beta") {
        pre_release_version(1, s)
    } else if str_starts_with(s, "nightly") {
        pre_release_version(2, s)
    } else {
        let dashed = underscores_to_dashes(s);
        match parse_version(dashed.as_str()) {
            Some(v) => v,
            None => pre_release_version(3, s),
        }
    }
}

/// Whether `s` is the text of one of `l`.
pub open spec fn is_one_of(s: Seq<char>, l: Seq<String>) -> bool {
    exists|j: int| 0 <= j < l.len() && l[j]@ == s
}

/// `p` maps each position of `a` to a distinct position of `b` holding the
/// same text: `a` is `b` reordered.
pub open spec fn is_permutation_of(p: Seq<int>, a: Seq<String>, b: Seq<String>) -> bool {
    &&& p.len() == a.len() && a.len() == b.len()
    &&& forall|k: int| 0 <= k < p.len() ==> 0 <= #[trigger] p[k] < b.len() && a[k]@ == b[p[k]]@
    &&& forall|i: int, j: int| 0 <= i < j < p.len() ==> #[trigger] p[i] != #[trigger] p[j]
}

/// Sorts toolchain names by their keys, keeping the order of equal keys.
pub fn toolchain_sort(v: &mut Vec<String>)
    ensures
        final(v)@.len() == old(v)@.len(),
        forall|k: int| 0 <= k < final(v)@.len() ==> is_one_of((#[trigger] final(v)@[k])@, old(v)@),
        exists|p: Seq<int>| is_permutation_of(p, final(v)@, old(v)@),
{
    let n = v.len();
    let mut keys: Vec<Version> = Vec::new();
    let mut order: Vec<usize> = Vec::new();
    let mut i: usize = 0;
    while i < n
        invariant
            n == v@.len(),
            v@ == old(v)@,
            i <= n,
            keys@.len() == i,
            order@.len() == i,
            forall|k: int| 0 <= k < i ==> (#[trigger] order@[k]) < n,
            forall|k: int| 0 <= k < i ==> (#[trigger] order@[k]) == k,
        decreases n - i,
    {
        keys.push(toolchain_sort_key(v[i].as_str()));
        order.push(i);
        i = i + 1;
    }
    let mut i: usize = 1;
    while i < n
        invariant
            n == v@.len(),
            v@ == old(v)@,
            keys@.len() == n,
            order@.len() == n,
            forall|k: int| 0 <= k < n ==> (#[trigger] order@[k]) < n,
            forall|a: int, b: int| 0 <= a < b < n ==> #[trigger] order@[a] != #[trigger] order@[b],
        decreases n - i,
    {
        let mut j = i;
        while j > 0 && !version_le(&keys[order[j - 1]], &keys[order[j]])
            invariant
                n == v@.len(),
                v@ == old(v)@,
                keys@.len() == n,
                order@.len() == n,
                j <= i < n,
                forall|k: int| 0 <= k < n ==> (#[trigger] order@[k]) < n,
                forall|a: int, b: int| 0 <= a < b < n ==> #[trigger] order@[a] != #[trigger] order@[b],
            decreases j,
        {
            let a = order[j - 1];
            let b = order[j];
            let ghost o0 = order@;
            order.set(j - 1, b);
            order.set(j, a);
            proof {
                assert forall|x: int, y: int| 0 <= x < y < n implies #[trigger] order@[x] != #[trigger] order@[y] by {
                    assert(o0[j - 1] != o0[j as int]);
                }
            }
            j = j - 1;
        }
        i = i + 1;
    }
    let mut out: Vec<String> = Vec::new();
    let mut src: Ghost<Seq<int>> = Ghost(Seq::empty());
    let mut k: usize = 0;
    while k < n
        invariant
            n == v@.len(),
            v@ == old(v)@,
            order@.len() == n,
            forall|q: int| 0 <= q < n ==> (#[trigger] order@[q]) < n,
            out@.len() == k,
            src@.len() == k,
            k <= n,
            forall|q: int| 0 <= q < k ==> 0 <= #[trigger] src@[q] < n && out@[q]@ == v@[src@[q]]@,
            forall|a: int, b: int| 0 <= a < b < n ==> #[trigger] order@[a] != #[trigger] order@[b],
            forall|q: int| 0 <= q < k ==> #[trigger] src@[q] == order@[q] as int,
        decreases n - k,
    {
        let s = v[order[k]].clone();
        out.push(s);
        src = Ghost(src@.push(order@[k as int] as int));
        k = k + 1;
    }
    let ghost o = out@;
    *v = out;
    proof {
        assert(v@ == o);
        assert forall|q: int| 0 <= q < v@.len() implies is_one_of((#[trigger] v@[q])@, old(v)@) by {
            let j = src@[q];
            assert(0 <= j < old(v)@.len() && v@[q]@ == old(v)@[j]@);
        }
        assert(is_permutation_of(src@, v@, old(v)@));
    }
}

} // verus!
