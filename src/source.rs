//! The decisions around fetching a diff and describing a repository: which
//! arguments count, which diff command to run, how a remote target splits,
//! and how the remote reply reads. Running the commands is left to callers.
use vstd::prelude::*;
use crate::text::{
    chars_of, copy_range, find_exec, find_from, is_ws, is_ws_exec, split_lines, string_of,
    text_lines,
};

verus! {

/// The diff range and the remote target that the program was started with.
#[derive(Clone, Debug)]
pub struct StartupArgs {
    pub range: Option<String>,
    pub remote: Option<String>,
}

/// A repository: its display name, its current branch and its path.
#[derive(Clone, Debug)]
pub struct RepoInfo {
    pub name: String,
    pub branch: String,
    pub path: String,
}

/// An argument given as the empty string counts as not given.
pub fn extract_optional_arg(value: Option<&str>) -> (r: Option<String>)
    ensures
        match value {
            Some(s) => if s@.len() == 0 {
                r is None
            } else {
                r matches Some(t) && t@ == s@
            },
            None => r is None,
        },
{
    match value {
        Some(s) => {
            if s.unicode_len() == 0 {
                None
            } else {
                Some(s.to_owned())
            }
        },
        None => None,
    }
}

/// The first positional argument names a diff range unless it is an option
/// (it begins with `-`).
pub fn range_from_first_arg(arg: Option<String>) -> (r: Option<String>)
    ensures
        match arg {
            Some(a) => if a@.len() > 0 && a@[0] == '-' {
                r is None
            } else {
                r == Some(a)
            },
            None => r is None,
        },
{
    match arg {
        Some(a) => {
            let s = a.as_str();
            if s.unicode_len() > 0 && s.get_char(0) == '-' {
                None
            } else {
                Some(a)
            }
        },
        None => None,
    }
}

/// The arguments of the diff command: against the given range, or else
/// against the current head.
pub fn git_diff_args(range: Option<&str>) -> (r: Vec<String>)
    ensures
        r@.len() == 2,
        r@[0]@ == "diff"@,
        match range {
            Some(s) => r@[1]@ == s@,
            None => r@[1]@ == "HEAD"@,
        },
{
    let mut r: Vec<String> = Vec::new();
    r.push("diff".to_owned());
    match range {
        Some(s) => r.push(s.to_owned()),
        None => r.push("HEAD".to_owned()),
    }
    r
}

/// A failed diff against the current head is tried once more against
/// nothing (a repository without commits has no head); a failed diff of a
/// given range is not.
pub fn falls_back_without_head(range: Option<&str>, succeeded: bool) -> (r: bool)
    ensures
        r == (range is None && !succeeded),
{
    range.is_none() && !succeeded
}

/// A remote target `host:path` splits at its first colon; both parts must be
/// non-empty.
pub open spec fn remote_parts(s: Seq<char>) -> Option<(Seq<char>, Seq<char>)> {
    match find_from(s, ":"@, 0) {
        Some(k) => if k > 0 && k + 1 < s.len() {
            Some((s.subrange(0, k), s.subrange(k + 1, s.len() as int)))
        } else {
            None
        },
        None => None,
    }
}

/// Splits a remote target into host and path.
pub fn parse_remote_path(remote: &str) -> (r: Result<(String, String), String>)
    ensures
        match remote_parts(remote@) {
            Some(p) => r matches Ok(hp) && hp.0@ == p.0 && hp.1@ == p.1,
            None => r is Err,
        },
{
    let cs = chars_of(remote);
    match find_exec(&cs, ":", 0) {
        Some(k) => {
            proof {
                reveal_strlit(":");
            }
            if k > 0 && k + 1 < cs.len() {
                let host = copy_range(&cs, 0, k);
                let path = copy_range(&cs, k + 1, cs.len());
                Ok((string_of(&host), string_of(&path)))
            } else {
                Err("Invalid remote path: expected host:path".to_owned())
            }
        },
        None => Err("Invalid remote path: expected host:path".to_owned()),
    }
}

/// `s` without its leading whitespace.
pub open spec fn trim_start(s: Seq<char>) -> Seq<char>
    decreases s.len(),
{
    if s.len() > 0 && is_ws(s[0]) {
        trim_start(s.drop_first())
    } else {
        s
    }
}

/// `s` without its trailing whitespace.
pub open spec fn trim_end(s: Seq<char>) -> Seq<char>
    decreases s.len(),
{
    if s.len() > 0 && is_ws(s.last()) {
        trim_end(s.drop_last())
    } else {
        s
    }
}

/// `s` without leading or trailing whitespace, as `str::trim` gives it.
pub open spec fn trim(s: Seq<char>) -> Seq<char> {
    trim_end(trim_start(s))
}

/// Line `i` of `ls`, or nothing where there are fewer lines.
pub open spec fn line_or_empty(ls: Seq<Seq<char>>, i: int) -> Seq<char> {
    if 0 <= i < ls.len() {
        ls[i]
    } else {
        seq![]
    }
}

fn trim_exec(s: &Vec<char>) -> (r: Vec<char>)
    ensures
        r@ == trim(s@),
{
    let mut a: usize = 0;
    assert(s@.subrange(0, s@.len() as int) =~= s@);
    while a < s.len() && is_ws_exec(s[a])
        invariant
            a <= s@.len(),
            trim_start(s@) == trim_start(s@.subrange(a as int, s@.len() as int)),
        decreases s.len() - a,
    {
        assert(s@.subrange(a as int, s@.len() as int).drop_first() =~= s@.subrange(
            a + 1,
            s@.len() as int,
        ));
        a = a + 1;
    }
    let ghost ts = s@.subrange(a as int, s@.len() as int);
    assert(trim_start(s@) == ts);
    let mut e: usize = s.len();
    while e > a && is_ws_exec(s[e - 1])
        invariant
            a <= e <= s@.len(),
            ts == s@.subrange(a as int, s@.len() as int),
            trim_end(ts) == trim_end(s@.subrange(a as int, e as int)),
        decreases e,
    {
        assert(s@.subrange(a as int, e as int).drop_last() =~= s@.subrange(a as int, e - 1));
        e = e - 1;
    }
    copy_range(s, a, e)
}

/// The repository root and the branch from the reply of the remote
/// command, which prints one per line; a missing line reads as empty.
pub fn remote_root_and_branch(stdout: &str) -> (r: (String, String))
    ensures
        r.0@ == line_or_empty(text_lines(trim(stdout@)), 0),
        r.1@ == line_or_empty(text_lines(trim(stdout@)), 1),
{
    let cs = chars_of(stdout);
    let t = trim_exec(&cs);
    let lines = split_lines(&t);
    let ghost lv = lines@.map_values(|l: Vec<char>| l@);
    assert(lv.len() == lines@.len());
    let root = if lines.len() > 0 {
        assert(lv[0] == lines@[0]@);
        string_of(&lines[0])
    } else {
        String::new()
    };
    let branch = if lines.len() > 1 {
        assert(lv[1] == lines@[1]@);
        string_of(&lines[1])
    } else {
        String::new()
    };
    (root, branch)
}

} // verus!
