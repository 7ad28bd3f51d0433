use great_review::header::{parse_hunk_header, parse_range};
use great_review::{parse_unified_diff, DiffFile, FileStatus, LineType};

fn check_numbering(files: &[DiffFile]) {
    for f in files {
        for h in &f.hunks {
            let mut old = h.old_start;
            let mut new = h.new_start;
            for l in &h.lines {
                match l.line_type {
                    LineType::Addition => {
                        assert_eq!(l.old_line_no, None);
                        assert_eq!(l.new_line_no, Some(new));
                        new += 1;
                    }
                    LineType::Deletion => {
                        assert_eq!(l.old_line_no, Some(old));
                        assert_eq!(l.new_line_no, None);
                        old += 1;
                    }
                    LineType::Context => {
                        assert_eq!(l.old_line_no, Some(old));
                        assert_eq!(l.new_line_no, Some(new));
                        old += 1;
                        new += 1;
                    }
                }
            }
        }
    }
}

const MIXED: &str = "\
diff --git a/one.txt b/one.txt
index 1..2 100644
--- a/one.txt
+++ b/one.txt
@@ -3,4 +3,5 @@ fn context()
 keep
-drop
+add one
+add two
 keep again
diff --git a/two.txt b/two.txt
deleted file mode 100644
--- a/two.txt
+++ /dev/null
@@ -1,2 +0,0 @@
-gone one
-gone two
diff --git a/three.txt b/three.txt
new file mode 100644
--- /dev/null
+++ b/three.txt
@@ -0,0 +1 @@
+only
";

#[test]
fn file_count_matches_boundaries() {
    let files = parse_unified_diff(MIXED);
    assert_eq!(files.len(), 3);
    assert_eq!(files[0].path, "one.txt");
    assert_eq!(files[1].path, "two.txt");
    assert_eq!(files[2].path, "three.txt");
}

#[test]
fn boundary_without_metadata_still_yields_a_file() {
    let files = parse_unified_diff("diff --git a/x b/x\ndiff --git a/y b/y\n");
    assert_eq!(files.len(), 2);
    assert_eq!(files[0].status, FileStatus::Modified);
    assert!(files[0].hunks.is_empty());
    assert_eq!(files[1].path, "y");
}

#[test]
fn numbering_present_and_consecutive() {
    let files = parse_unified_diff(MIXED);
    check_numbering(&files);
    let l = &files[0].hunks[0].lines;
    assert_eq!(l.len(), 5);
    assert_eq!(l[2].new_line_no, Some(4));
    assert_eq!(l[3].new_line_no, Some(5));
    assert_eq!(l[4].old_line_no, Some(5));
    assert_eq!(l[4].new_line_no, Some(6));
}

#[test]
fn status_from_mode_lines() {
    let files = parse_unified_diff(MIXED);
    assert_eq!(files[0].status, FileStatus::Modified);
    assert_eq!(files[1].status, FileStatus::Deleted);
    assert_eq!(files[2].status, FileStatus::Added);
    assert_eq!(files[2].hunks[0].new_count, 1);
    assert_eq!(files[2].hunks[0].old_count, 0);
}

#[test]
fn rename_sets_both_paths() {
    let diff = "\
diff --git a/src/a.rs b/src/b.rs
similarity index 90%
rename from src/a.rs
rename to src/b.rs
@@ -1 +1 @@
-x
+y
";
    let files = parse_unified_diff(diff);
    assert_eq!(files.len(), 1);
    assert_eq!(files[0].status, FileStatus::Renamed);
    assert_eq!(files[0].old_path, Some("src/a.rs".to_string()));
    assert_eq!(files[0].path, "src/b.rs");
    assert_eq!(files[0].hunks.len(), 1);
}

#[test]
fn binary_block_has_no_hunks() {
    let diff = "\
diff --git a/pic.png b/pic.png
index 1..2 100644
Binary files a/pic.png and b/pic.png differ
@@ -1 +1 @@
-a
+b
";
    let files = parse_unified_diff(diff);
    assert_eq!(files.len(), 1);
    assert!(files[0].hunks.is_empty());
    assert_eq!(files[0].path, "pic.png");
}

#[test]
fn no_newline_marker_leaves_no_trace() {
    let with = "\
diff --git a/f b/f
--- a/f
+++ b/f
@@ -4,2 +4,2 @@
-a
\\ No newline at end of file
+b
 c
";
    let without = "\
diff --git a/f b/f
--- a/f
+++ b/f
@@ -4,2 +4,2 @@
-a
+b
 c
";
    let a = parse_unified_diff(with);
    let b = parse_unified_diff(without);
    assert_eq!(a.len(), b.len());
    let (la, lb) = (&a[0].hunks[0].lines, &b[0].hunks[0].lines);
    assert_eq!(la.len(), 3);
    assert_eq!(la.len(), lb.len());
    for (x, y) in la.iter().zip(lb.iter()) {
        assert_eq!(x.content, y.content);
        assert_eq!(x.old_line_no, y.old_line_no);
        assert_eq!(x.new_line_no, y.new_line_no);
    }
    assert_eq!(la[2].old_line_no, Some(5));
    assert_eq!(la[2].new_line_no, Some(5));
}

#[test]
fn empty_text_has_no_files() {
    assert!(parse_unified_diff("").is_empty());
    assert!(parse_unified_diff("index 1..2\n--- a\n+++ b\n").is_empty());
}

#[test]
fn single_new_three_line_file() {
    let diff = "\
diff --git a/n.txt b/n.txt
new file mode 100644
--- /dev/null
+++ b/n.txt
@@ -0,0 +1,3 @@
+a
+b
+c
";
    let files = parse_unified_diff(diff);
    assert_eq!(files.len(), 1);
    assert_eq!(files[0].status, FileStatus::Added);
    assert_eq!(files[0].hunks.len(), 1);
    let lines = &files[0].hunks[0].lines;
    assert_eq!(lines.len(), 3);
    for (i, l) in lines.iter().enumerate() {
        assert_eq!(l.line_type, LineType::Addition);
        assert_eq!(l.old_line_no, None);
        assert_eq!(l.new_line_no, Some(i as u32 + 1));
    }
}

#[test]
fn two_files_reset_counters() {
    let diff = "\
diff --git a/p b/p
@@ -7,1 +9,1 @@
-p old
+p new
diff --git a/q b/q
@@ -2,1 +3,1 @@
-q old
+q new
";
    let files = parse_unified_diff(diff);
    assert_eq!(files.len(), 2);
    assert_eq!(files[0].hunks[0].lines[0].old_line_no, Some(7));
    assert_eq!(files[0].hunks[0].lines[1].new_line_no, Some(9));
    assert_eq!(files[1].hunks[0].lines[0].old_line_no, Some(2));
    assert_eq!(files[1].hunks[0].lines[1].new_line_no, Some(3));
}

#[test]
fn pure_rename_without_hunks() {
    let diff = "\
diff --git a/from.txt b/to.txt
similarity index 100%
rename from from.txt
rename to to.txt
";
    let files = parse_unified_diff(diff);
    assert_eq!(files.len(), 1);
    assert_eq!(files[0].old_path, Some("from.txt".to_string()));
    assert_eq!(files[0].path, "to.txt");
    assert!(files[0].hunks.is_empty());
}

#[test]
fn two_hunks_anchored_to_own_headers() {
    let diff = "\
diff --git a/m b/m
@@ -1,2 +1,2 @@
 a
-b
@@ -20,2 +21,2 @@
 x
+y
";
    let files = parse_unified_diff(diff);
    let h = &files[0].hunks;
    assert_eq!(h.len(), 2);
    assert_eq!(h[0].lines[0].old_line_no, Some(1));
    assert_eq!(h[0].lines[1].old_line_no, Some(2));
    assert_eq!(h[1].lines[0].old_line_no, Some(20));
    assert_eq!(h[1].lines[0].new_line_no, Some(21));
    assert_eq!(h[1].lines[1].new_line_no, Some(22));
    assert_eq!(h[1].header, "@@ -20,2 +21,2 @@");
}

#[test]
fn header_fields_and_defaults() {
    assert_eq!(parse_hunk_header("@@ -10,4 +12,6 @@ fn f()"), Some((10, 4, 12, 6)));
    assert_eq!(parse_hunk_header("@@ -5 +7 @@"), Some((5, 1, 7, 1)));
    assert_eq!(parse_hunk_header("@@ -x,2 +3,y @@"), Some((0, 2, 3, 0)));
    assert_eq!(parse_hunk_header("@@ -1,2 +3,4"), None);
    assert_eq!(parse_hunk_header("@@ +1,2 -3,4 @@"), None);
    assert_eq!(parse_hunk_header("@@ -1,2 @@"), None);
    assert_eq!(parse_hunk_header("@@ -99999999999 ++4 @@"), Some((0, 1, 4, 1)));
}

#[test]
fn range_forms() {
    assert_eq!(parse_range("3,9"), (3, 9));
    assert_eq!(parse_range("3"), (3, 1));
    assert_eq!(parse_range(""), (0, 1));
    assert_eq!(parse_range(","), (0, 0));
    assert_eq!(parse_range("4294967295,1"), (4294967295, 1));
    assert_eq!(parse_range("4294967296,1"), (0, 1));
}

#[test]
fn malformed_header_is_skipped() {
    let diff = "\
diff --git a/f b/f
@@ nonsense
+not in a hunk
@@ -2 +2 @@
+in a hunk
";
    let files = parse_unified_diff(diff);
    assert_eq!(files[0].hunks.len(), 1);
    assert_eq!(files[0].hunks[0].lines.len(), 1);
    assert_eq!(files[0].hunks[0].lines[0].content, "in a hunk");
    assert_eq!(files[0].hunks[0].lines[0].new_line_no, Some(2));
}

#[test]
fn crlf_lines_and_path_after_last_separator() {
    let diff = "diff --git a/x b/dir b/y.txt\r\n@@ -1 +1 @@\r\n-old\r\n+new\r\n";
    let files = parse_unified_diff(diff);
    assert_eq!(files[0].path, "y.txt");
    assert_eq!(files[0].hunks[0].lines[0].content, "old");
    assert_eq!(files[0].hunks[0].lines[1].content, "new");
    assert_eq!(files[0].hunks[0].header, "@@ -1 +1 @@");
}

#[test]
fn unknown_body_lines_are_skipped() {
    let diff = "diff --git a/f b/f\n@@ -1 +1 @@\n?odd\n\n context\n";
    let files = parse_unified_diff(diff);
    let lines = &files[0].hunks[0].lines;
    assert_eq!(lines.len(), 1);
    assert_eq!(lines[0].line_type, LineType::Context);
    assert_eq!(lines[0].content, "context");
}

#[test]
fn counter_wraps_at_the_largest_line_number() {
    let diff = "diff --git a/f b/f\n@@ -4294967295 +1 @@\n-a\n-b\n";
    let files = parse_unified_diff(diff);
    let lines = &files[0].hunks[0].lines;
    assert_eq!(lines[0].old_line_no, Some(4294967295));
    assert_eq!(lines[1].old_line_no, Some(0));
}

#[test]
fn non_ascii_content_kept() {
    let diff = "diff --git a/ü b/ü\n@@ -1 +1 @@\n+größe ✓\n";
    let files = parse_unified_diff(diff);
    assert_eq!(files[0].path, "ü");
    assert_eq!(files[0].hunks[0].lines[0].content, "größe ✓");
}
