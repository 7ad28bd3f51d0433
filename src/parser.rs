//! The unified diff parser: a state machine over the lines of the text.
//!
//! Outside a file block, lines are skipped until a `diff --git ` line opens
//! one. Inside a block, metadata lines set the file's status and paths, and a
//! hunk header opens a hunk. Inside a hunk, `+`, `-` and ` ` lines become
//! numbered lines until a file boundary or another hunk header.
use vstd::prelude::*;
use crate::header::{decode_hunk_header, hunk_header};
use crate::model::{
    files_view, DiffFile, DiffHunk, DiffLine, FileStatus, FileView, HunkView, LineType, LineView,
};
use crate::text::{
    after, chars_of, copy_range, equals_str, has_prefix, occurs_at, rest_after, rfind, rfind_exec,
    rfind_from, split_lines, starts_with, string_of, text_lines,
};

verus! {

/// Where the parser stands after some lines: the finished files, the file
/// being read, the hunk being read, and the next old and new line numbers.
pub struct ParseState {
    pub done: Seq<FileView>,
    pub file: Option<FileView>,
    pub hunk: Option<HunkView>,
    pub old_line: u32,
    pub new_line: u32,
}

pub open spec fn initial_state() -> ParseState {
    ParseState { done: seq![], file: None, hunk: None, old_line: 0, new_line: 0 }
}

/// The line that opens a file block.
pub open spec fn is_boundary(l: Seq<char>) -> bool {
    starts_with(l, "diff --git "@)
}

/// The line that says the preceding line had no newline at the end of its file.
pub open spec fn no_newline_line() -> Seq<char> {
    "\\ No newline at end of file"@
}

/// A line number one further on; the 32-bit counter wraps.
pub open spec fn next_no(n: u32) -> u32 {
    if n == u32::MAX {
        0
    } else {
        (n + 1) as u32
    }
}

/// The path of a boundary line: what follows the last ` b/`, or nothing.
pub open spec fn boundary_path(l: Seq<char>) -> Seq<char> {
    match rfind(l, " b/"@) {
        Some(k) => l.subrange(k + " b/"@.len(), l.len() as int),
        None => seq![],
    }
}

/// The file that a boundary line opens.
pub open spec fn opened_file(l: Seq<char>) -> FileView {
    FileView {
        path: boundary_path(l),
        old_path: None,
        hunks: seq![],
        status: FileStatus::Modified,
    }
}

/// Ends the hunk being read, adding it to the file being read.
pub open spec fn close_hunk(st: ParseState) -> ParseState {
    match st.hunk {
        Some(h) => match st.file {
            Some(f) => ParseState {
                done: st.done,
                file: Some(
                    FileView {
                        path: f.path,
                        old_path: f.old_path,
                        hunks: f.hunks.push(h),
                        status: f.status,
                    },
                ),
                hunk: None,
                old_line: st.old_line,
                new_line: st.new_line,
            },
            None => ParseState {
                done: st.done,
                file: st.file,
                hunk: None,
                old_line: st.old_line,
                new_line: st.new_line,
            },
        },
        None => st,
    }
}

/// Ends the file being read, adding it to the finished files.
pub open spec fn close_file(st: ParseState) -> ParseState {
    let s = close_hunk(st);
    match s.file {
        Some(f) => ParseState {
            done: s.done.push(f),
            file: None,
            hunk: None,
            old_line: s.old_line,
            new_line: s.new_line,
        },
        None => s,
    }
}

pub open spec fn with_hunk(
    st: ParseState,
    h: HunkView,
    old_line: u32,
    new_line: u32,
) -> ParseState {
    ParseState { done: st.done, file: st.file, hunk: Some(h), old_line, new_line }
}

pub open spec fn with_line(h: HunkView, l: LineView) -> HunkView {
    HunkView {
        header: h.header,
        old_start: h.old_start,
        old_count: h.old_count,
        new_start: h.new_start,
        new_count: h.new_count,
        lines: h.lines.push(l),
    }
}

/// A line inside a hunk.
pub open spec fn body_line(st: ParseState, l: Seq<char>) -> ParseState {
    match st.hunk {
        Some(h) => if l == no_newline_line() {
            st
        } else if starts_with(l, "+"@) {
            let dl = LineView {
                content: after(l, "+"@),
                line_type: LineType::Addition,
                old_line_no: None,
                new_line_no: Some(st.new_line),
            };
            with_hunk(st, with_line(h, dl), st.old_line, next_no(st.new_line))
        } else if starts_with(l, "-"@) {
            let dl = LineView {
                content: after(l, "-"@),
                line_type: LineType::Deletion,
                old_line_no: Some(st.old_line),
                new_line_no: None,
            };
            with_hunk(st, with_line(h, dl), next_no(st.old_line), st.new_line)
        } else if starts_with(l, " "@) {
            let dl = LineView {
                content: after(l, " "@),
                line_type: LineType::Context,
                old_line_no: Some(st.old_line),
                new_line_no: Some(st.new_line),
            };
            with_hunk(st, with_line(h, dl), next_no(st.old_line), next_no(st.new_line))
        } else {
            st
        },
        None => st,
    }
}

pub open spec fn with_file(st: ParseState, f: FileView) -> ParseState {
    ParseState {
        done: st.done,
        file: Some(f),
        hunk: st.hunk,
        old_line: st.old_line,
        new_line: st.new_line,
    }
}

/// A line of a file block outside any hunk.
pub open spec fn meta_line(st: ParseState, l: Seq<char>) -> ParseState {
    match st.file {
        Some(f) => if starts_with(l, "new file mode"@) {
            with_file(
                st,
                FileView {
                    path: f.path,
                    old_path: f.old_path,
                    hunks: f.hunks,
                    status: FileStatus::Added,
                },
            )
        } else if starts_with(l, "deleted file mode"@) {
            with_file(
                st,
                FileView {
                    path: f.path,
                    old_path: f.old_path,
                    hunks: f.hunks,
                    status: FileStatus::Deleted,
                },
            )
        } else if starts_with(l, "rename from "@) {
            with_file(
                st,
                FileView {
                    path: f.path,
                    old_path: Some(after(l, "rename from "@)),
                    hunks: f.hunks,
                    status: FileStatus::Renamed,
                },
            )
        } else if starts_with(l, "rename to "@) {
            with_file(
                st,
                FileView {
                    path: after(l, "rename to "@),
                    old_path: f.old_path,
                    hunks: f.hunks,
                    status: f.status,
                },
            )
        } else if starts_with(l, "Binary files"@) {
            close_file(st)
        } else if starts_with(l, "--- "@) || starts_with(l, "+++ "@) {
            st
        } else {
            match hunk_header(l) {
                Some(r) => {
                    let h = HunkView {
                        header: l,
                        old_start: r.0,
                        old_count: r.1,
                        new_start: r.2,
                        new_count: r.3,
                        lines: seq![],
                    };
                    with_hunk(st, h, r.0, r.2)
                },
                None => st,
            }
        },
        None => st,
    }
}

/// One step of the parser on one line.
pub open spec fn step(st: ParseState, l: Seq<char>) -> ParseState {
    if is_boundary(l) {
        let s = close_file(st);
        ParseState {
            done: s.done,
            file: Some(opened_file(l)),
            hunk: None,
            old_line: s.old_line,
            new_line: s.new_line,
        }
    } else if st.file is None {
        st
    } else if st.hunk is Some && !starts_with(l, "@@ "@) {
        body_line(st, l)
    } else {
        meta_line(close_hunk(st), l)
    }
}

/// The parser's state after the given lines.
pub open spec fn run(lines: Seq<Seq<char>>) -> ParseState
    decreases lines.len(),
{
    if lines.len() == 0 {
        initial_state()
    } else {
        step(run(lines.drop_last()), lines.last())
    }
}

/// The files of a diff given as lines.
pub open spec fn parse_lines(lines: Seq<Seq<char>>) -> Seq<FileView> {
    close_file(run(lines)).done
}

/// The files of a diff text.
pub open spec fn parse_text(t: Seq<char>) -> Seq<FileView> {
    parse_lines(text_lines(t))
}

struct Parser {
    done: Vec<DiffFile>,
    file: Option<DiffFile>,
    hunk: Option<DiffHunk>,
    old_line: u32,
    new_line: u32,
}

spec fn opt_file_view(f: Option<DiffFile>) -> Option<FileView> {
    match f {
        Some(x) => Some(x@),
        None => None,
    }
}

spec fn opt_hunk_view(h: Option<DiffHunk>) -> Option<HunkView> {
    match h {
        Some(x) => Some(x@),
        None => None,
    }
}

impl View for Parser {
    type V = ParseState;

    closed spec fn view(&self) -> ParseState {
        ParseState {
            done: files_view(self.done@),
            file: opt_file_view(self.file),
            hunk: opt_hunk_view(self.hunk),
            old_line: self.old_line,
            new_line: self.new_line,
        }
    }
}

fn next_no_exec(n: u32) -> (r: u32)
    ensures
        r == next_no(n),
{
    if n == u32::MAX {
        0
    } else {
        n + 1
    }
}

fn content_after(l: &Vec<char>, p: &str) -> (r: String)
    requires
        starts_with(l@, p@),
    ensures
        r@ == after(l@, p@),
{
    let rest = rest_after(l, p);
    string_of(&rest)
}

fn close_hunk_exec(p: Parser) -> (r: Parser)
    ensures
        r@ == close_hunk(p@),
{
    let Parser { done, file, hunk, old_line, new_line } = p;
    match hunk {
        Some(h) => match file {
            Some(f) => {
                let DiffFile { path, old_path, hunks, status } = f;
                let mut hunks = hunks;
                let ghost prev = hunks@.map_values(|x: DiffHunk| x@);
                let ghost hv = h@;
                hunks.push(h);
                assert(hunks@.map_values(|x: DiffHunk| x@) =~= prev.push(hv));
                Parser {
                    done,
                    file: Some(DiffFile { path, old_path, hunks, status }),
                    hunk: None,
                    old_line,
                    new_line,
                }
            },
            None => Parser { done, file: None, hunk: None, old_line, new_line },
        },
        None => Parser { done, file, hunk: None, old_line, new_line },
    }
}

fn close_file_exec(p: Parser) -> (r: Parser)
    ensures
        r@ == close_file(p@),
{
    let p = close_hunk_exec(p);
    let Parser { done, file, hunk, old_line, new_line } = p;
    match file {
        Some(f) => {
            let mut done = done;
            let ghost prev = files_view(done@);
            let ghost fv = f@;
            done.push(f);
            assert(files_view(done@) =~= prev.push(fv));
            Parser { done, file: None, hunk: None, old_line, new_line }
        },
        None => Parser { done, file: None, hunk, old_line, new_line },
    }
}

fn body_line_exec(p: Parser, l: &Vec<char>) -> (r: Parser)
    ensures
        r@ == body_line(p@, l@),
{
    let Parser { done, file, hunk, old_line, new_line } = p;
    match hunk {
        Some(h) => {
            let (line, old2, new2) = if equals_str(l, "\\ No newline at end of file") {
                return Parser { done, file, hunk: Some(h), old_line, new_line };
            } else if has_prefix(l, "+") {
                let dl = DiffLine {
                    content: content_after(l, "+"),
                    line_type: LineType::Addition,
                    old_line_no: None,
                    new_line_no: Some(new_line),
                };
                (dl, old_line, next_no_exec(new_line))
            } else if has_prefix(l, "-") {
                let dl = DiffLine {
                    content: content_after(l, "-"),
                    line_type: LineType::Deletion,
                    old_line_no: Some(old_line),
                    new_line_no: None,
                };
                (dl, next_no_exec(old_line), new_line)
            } else if has_prefix(l, " ") {
                let dl = DiffLine {
                    content: content_after(l, " "),
                    line_type: LineType::Context,
                    old_line_no: Some(old_line),
                    new_line_no: Some(new_line),
                };
                (dl, next_no_exec(old_line), next_no_exec(new_line))
            } else {
                return Parser { done, file, hunk: Some(h), old_line, new_line };
            };
            let DiffHunk { header, old_start, old_count, new_start, new_count, lines } = h;
            let mut lines = lines;
            let ghost prev = lines@.map_values(|x: DiffLine| x@);
            let ghost lv = line@;
            lines.push(line);
            assert(lines@.map_values(|x: DiffLine| x@) =~= prev.push(lv));
            let h2 = DiffHunk { header, old_start, old_count, new_start, new_count, lines };
            Parser { done, file, hunk: Some(h2), old_line: old2, new_line: new2 }
        },
        None => Parser { done, file, hunk: None, old_line, new_line },
    }
}

fn meta_line_exec(p: Parser, l: &Vec<char>) -> (r: Parser)
    ensures
        r@ == meta_line(p@, l@),
{
    let Parser { done, file, hunk, old_line, new_line } = p;
    match file {
        Some(f) => {
            let DiffFile { path, old_path, hunks, status } = f;
            if has_prefix(l, "new file mode") {
                let f2 = DiffFile { path, old_path, hunks, status: FileStatus::Added };
                Parser { done, file: Some(f2), hunk, old_line, new_line }
            } else if has_prefix(l, "deleted file mode") {
                let f2 = DiffFile { path, old_path, hunks, status: FileStatus::Deleted };
                Parser { done, file: Some(f2), hunk, old_line, new_line }
            } else if has_prefix(l, "rename from ") {
                let from = content_after(l, "rename from ");
                let f2 = DiffFile {
                    path,
                    old_path: Some(from),
                    hunks,
                    status: FileStatus::Renamed,
                };
                Parser { done, file: Some(f2), hunk, old_line, new_line }
            } else if has_prefix(l, "rename to ") {
                let to = content_after(l, "rename to ");
                let f2 = DiffFile { path: to, old_path, hunks, status };
                Parser { done, file: Some(f2), hunk, old_line, new_line }
            } else if has_prefix(l, "Binary files") {
                let f2 = DiffFile { path, old_path, hunks, status };
                close_file_exec(Parser { done, file: Some(f2), hunk, old_line, new_line })
            } else if has_prefix(l, "--- ") || has_prefix(l, "+++ ") {
                let f2 = DiffFile { path, old_path, hunks, status };
                Parser { done, file: Some(f2), hunk, old_line, new_line }
            } else {
                let f2 = DiffFile { path, old_path, hunks, status };
                match decode_hunk_header(l) {
                    Some(r) => {
                        let (a, b, c, d) = r;
                        let header = string_of(l);
                        let h = DiffHunk {
                            header,
                            old_start: a,
                            old_count: b,
                            new_start: c,
                            new_count: d,
                            lines: Vec::new(),
                        };
                        assert(h@.lines =~= Seq::<LineView>::empty());
                        Parser { done, file: Some(f2), hunk: Some(h), old_line: a, new_line: c }
                    },
                    None => Parser { done, file: Some(f2), hunk, old_line, new_line },
                }
            }
        },
        None => Parser { done, file: None, hunk, old_line, new_line },
    }
}

fn step_exec(p: Parser, l: &Vec<char>) -> (r: Parser)
    ensures
        r@ == step(p@, l@),
{
    if has_prefix(l, "diff --git ") {
        let p = close_file_exec(p);
        let Parser { done, file, hunk, old_line, new_line } = p;
        let path = match rfind_exec(l, " b/") {
            Some(k) => {
                proof {
                    reveal_strlit(" b/");
                    assert(" b/"@.len() == 3);
                    lemma_rfind_in_bounds(l@, " b/"@, l@.len() - 3);
                    assert(occurs_at(l@, " b/"@, k as int));
                }
                let n = l.len();
                assert(k + 3 <= n);
                let rest = copy_range(l, k + 3, n);
                string_of(&rest)
            },
            None => String::new(),
        };
        let f = DiffFile { path, old_path: None, hunks: Vec::new(), status: FileStatus::Modified };
        assert(f@.hunks =~= Seq::<HunkView>::empty());
        assert(f@.path =~= boundary_path(l@));
        Parser { done, file: Some(f), hunk: None, old_line, new_line }
    } else if p.file.is_none() {
        p
    } else if p.hunk.is_some() && !has_prefix(l, "@@ ") {
        body_line_exec(p, l)
    } else {
        let p = close_hunk_exec(p);
        meta_line_exec(p, l)
    }
}

proof fn lemma_rfind_in_bounds(s: Seq<char>, p: Seq<char>, i: int)
    ensures
        rfind_from(s, p, i) matches Some(k) ==> occurs_at(s, p, k),
    decreases i + 1,
{
    if i >= 0 && !occurs_at(s, p, i) {
        lemma_rfind_in_bounds(s, p, i - 1);
    }
}

/// Parses a unified diff text into its files, in the order of the text.
pub fn parse_unified_diff(diff_text: &str) -> (files: Vec<DiffFile>)
    ensures
        files_view(files@) == parse_text(diff_text@),
{
    let chars = chars_of(diff_text);
    let lines = split_lines(&chars);
    let ghost lv = lines@.map_values(|l: Vec<char>| l@);
    let mut p = Parser { done: Vec::new(), file: None, hunk: None, old_line: 0, new_line: 0 };
    proof {
        assert(files_view(p.done@) =~= Seq::<FileView>::empty());
        assert(lv.take(0) =~= Seq::<Seq<char>>::empty());
    }
    let mut i: usize = 0;
    while i < lines.len()
        invariant
            i <= lines@.len(),
            lv == lines@.map_values(|l: Vec<char>| l@),
            p@ == run(lv.take(i as int)),
        decreases lines.len() - i,
    {
        p = step_exec(p, &lines[i]);
        proof {
            assert(lv.take(i + 1).drop_last() =~= lv.take(i as int));
            assert(lv.take(i + 1).last() == lines@[i as int]@);
        }
        i = i + 1;
    }
    proof {
        assert(lv.take(i as int) =~= lv);
    }
    let p = close_file_exec(p);
    p.done
}

} // verus!
