//! The structured form of a diff: files, hunks and lines, with their views.
use vstd::prelude::*;

verus! {

/// How a file changed.
#[derive(Clone, Copy, Debug, PartialEq, Eq, Structural)]
pub enum FileStatus {
    Added,
    Modified,
    Deleted,
    Renamed,
}

/// What a line of a hunk records.
#[derive(Clone, Copy, Debug, PartialEq, Eq, Structural)]
pub enum LineType {
    Addition,
    Deletion,
    Context,
}

/// One line of a hunk, its marker stripped, with its place in the old and
/// the new file.
#[derive(Clone, Debug)]
pub struct DiffLine {
    pub content: String,
    pub line_type: LineType,
    pub old_line_no: Option<u32>,
    pub new_line_no: Option<u32>,
}

/// One contiguous changed region of a file.
#[derive(Clone, Debug)]
pub struct DiffHunk {
    pub header: String,
    pub old_start: u32,
    pub old_count: u32,
    pub new_start: u32,
    pub new_count: u32,
    pub lines: Vec<DiffLine>,
}

/// One changed path.
#[derive(Clone, Debug)]
pub struct DiffFile {
    pub path: String,
    pub old_path: Option<String>,
    pub hunks: Vec<DiffHunk>,
    pub status: FileStatus,
}

pub struct LineView {
    pub content: Seq<char>,
    pub line_type: LineType,
    pub old_line_no: Option<u32>,
    pub new_line_no: Option<u32>,
}

pub struct HunkView {
    pub header: Seq<char>,
    pub old_start: u32,
    pub old_count: u32,
    pub new_start: u32,
    pub new_count: u32,
    pub lines: Seq<LineView>,
}

pub struct FileView {
    pub path: Seq<char>,
    pub old_path: Option<Seq<char>>,
    pub hunks: Seq<HunkView>,
    pub status: FileStatus,
}

pub open spec fn opt_view(o: Option<String>) -> Option<Seq<char>> {
    match o {
        Some(s) => Some(s@),
        None => None,
    }
}

impl View for DiffLine {
    type V = LineView;

    open spec fn view(&self) -> LineView {
        LineView {
            content: self.content@,
            line_type: self.line_type,
            old_line_no: self.old_line_no,
            new_line_no: self.new_line_no,
        }
    }
}

impl View for DiffHunk {
    type V = HunkView;

    open spec fn view(&self) -> HunkView {
        HunkView {
            header: self.header@,
            old_start: self.old_start,
            old_count: self.old_count,
            new_start: self.new_start,
            new_count: self.new_count,
            lines: self.lines@.map_values(|l: DiffLine| l@),
        }
    }
}

impl View for DiffFile {
    type V = FileView;

    open spec fn view(&self) -> FileView {
        FileView {
            path: self.path@,
            old_path: opt_view(self.old_path),
            hunks: self.hunks@.map_values(|h: DiffHunk| h@),
            status: self.status,
        }
    }
}

/// The views of a list of files.
pub open spec fn files_view(v: Seq<DiffFile>) -> Seq<FileView> {
    v.map_values(|f: DiffFile| f@)
}

} // verus!
