use great_review::{parse_unified_diff, FileStatus, LineType};

#[test]
fn test_parse_additions_only() {
    let diff = "\
diff --git a/hello.txt b/hello.txt
new file mode 100644
index 0000000..e69de29
--- /dev/null
+++ b/hello.txt
@@ -0,0 +1,3 @@
+line one
+line two
+line three
";
    let files = parse_unified_diff(diff);
    assert_eq!(files.len(), 1);
    assert_eq!(files[0].path, "hello.txt");
    assert_eq!(files[0].status, FileStatus::Added);
    assert_eq!(files[0].hunks.len(), 1);
    assert_eq!(files[0].hunks[0].lines.len(), 3);
    for line in &files[0].hunks[0].lines {
        assert_eq!(line.line_type, LineType::Addition);
        assert!(line.old_line_no.is_none());
        assert!(line.new_line_no.is_some());
    }
}

#[test]
fn test_parse_deletions_only() {
    let diff = "\
diff --git a/old.txt b/old.txt
deleted file mode 100644
index abc1234..0000000
--- a/old.txt
+++ /dev/null
@@ -1,3 +0,0 @@
-first line
-second line
-third line
";
    let files = parse_unified_diff(diff);
    assert_eq!(files.len(), 1);
    assert_eq!(files[0].status, FileStatus::Deleted);
    assert_eq!(files[0].hunks[0].lines.len(), 3);
    for line in &files[0].hunks[0].lines {
        assert_eq!(line.line_type, LineType::Deletion);
        assert!(line.old_line_no.is_some());
        assert!(line.new_line_no.is_none());
    }
}

#[test]
fn test_parse_mixed_changes() {
    let diff = "\
diff --git a/file.txt b/file.txt
index abc1234..def5678 100644
--- a/file.txt
+++ b/file.txt
@@ -1,5 +1,5 @@
 line one
-line two old
+line two new
 line three
-line four old
+line four new
";
    let files = parse_unified_diff(diff);
    assert_eq!(files.len(), 1);
    assert_eq!(files[0].status, FileStatus::Modified);
    let lines = &files[0].hunks[0].lines;
    assert_eq!(lines.len(), 6);
    assert_eq!(lines[0].line_type, LineType::Context);
    assert_eq!(lines[1].line_type, LineType::Deletion);
    assert_eq!(lines[2].line_type, LineType::Addition);
    assert_eq!(lines[3].line_type, LineType::Context);
    assert_eq!(lines[4].line_type, LineType::Deletion);
    assert_eq!(lines[5].line_type, LineType::Addition);
}

#[test]
fn test_parse_multiple_files() {
    let diff = "\
diff --git a/a.txt b/a.txt
index abc..def 100644
--- a/a.txt
+++ b/a.txt
@@ -1,2 +1,2 @@
 unchanged
-old a
+new a
diff --git a/b.txt b/b.txt
index 111..222 100644
--- a/b.txt
+++ b/b.txt
@@ -1,2 +1,2 @@
 unchanged
-old b
+new b
";
    let files = parse_unified_diff(diff);
    assert_eq!(files.len(), 2);
    assert_eq!(files[0].path, "a.txt");
    assert_eq!(files[1].path, "b.txt");
}

#[test]
fn test_parse_renamed_file() {
    let diff = "\
diff --git a/old_name.txt b/new_name.txt
similarity index 100%
rename from old_name.txt
rename to new_name.txt
";
    let files = parse_unified_diff(diff);
    assert_eq!(files.len(), 1);
    assert_eq!(files[0].path, "new_name.txt");
    assert_eq!(files[0].old_path, Some("old_name.txt".to_string()));
    assert_eq!(files[0].status, FileStatus::Renamed);
}

#[test]
fn test_parse_new_file() {
    let diff = "\
diff --git a/new.rs b/new.rs
new file mode 100644
index 0000000..abc1234
--- /dev/null
+++ b/new.rs
@@ -0,0 +1,2 @@
+fn main() {}
+// done
";
    let files = parse_unified_diff(diff);
    assert_eq!(files.len(), 1);
    assert_eq!(files[0].status, FileStatus::Added);
    assert_eq!(files[0].hunks[0].lines.len(), 2);
    assert_eq!(files[0].hunks[0].lines[0].content, "fn main() {}");
}

#[test]
fn test_parse_deleted_file() {
    let diff = "\
diff --git a/gone.txt b/gone.txt
deleted file mode 100644
index abc1234..0000000
--- a/gone.txt
+++ /dev/null
@@ -1,1 +0,0 @@
-goodbye
";
    let files = parse_unified_diff(diff);
    assert_eq!(files.len(), 1);
    assert_eq!(files[0].status, FileStatus::Deleted);
    assert_eq!(files[0].hunks[0].lines.len(), 1);
    assert_eq!(files[0].hunks[0].lines[0].content, "goodbye");
    assert_eq!(files[0].hunks[0].lines[0].line_type, LineType::Deletion);
}

#[test]
fn test_parse_binary_files_skipped() {
    let diff = "\
diff --git a/image.png b/image.png
new file mode 100644
Binary files /dev/null and b/image.png differ
diff --git a/text.txt b/text.txt
index abc..def 100644
--- a/text.txt
+++ b/text.txt
@@ -1,1 +1,1 @@
-old
+new
";
    let files = parse_unified_diff(diff);
    assert_eq!(files.len(), 2);
    // Binary file should have no hunks
    assert_eq!(files[0].path, "image.png");
    assert!(files[0].hunks.is_empty());
    // Text file should parse normally
    assert_eq!(files[1].path, "text.txt");
    assert_eq!(files[1].hunks.len(), 1);
}

#[test]
fn test_parse_empty_diff() {
    let files = parse_unified_diff("");
    assert!(files.is_empty());
}

#[test]
fn test_line_numbers() {
    let diff = "\
diff --git a/nums.txt b/nums.txt
index abc..def 100644
--- a/nums.txt
+++ b/nums.txt
@@ -10,4 +10,4 @@
 context at 10
-deleted at 11
+added at 11
 context at 12
";
    let files = parse_unified_diff(diff);
    let lines = &files[0].hunks[0].lines;

    // Context line at old=10, new=10
    assert_eq!(lines[0].old_line_no, Some(10));
    assert_eq!(lines[0].new_line_no, Some(10));

    // Deletion at old=11
    assert_eq!(lines[1].old_line_no, Some(11));
    assert!(lines[1].new_line_no.is_none());

    // Addition at new=11
    assert!(lines[2].old_line_no.is_none());
    assert_eq!(lines[2].new_line_no, Some(11));

    // Context at old=12, new=12
    assert_eq!(lines[3].old_line_no, Some(12));
    assert_eq!(lines[3].new_line_no, Some(12));
}

#[test]
fn test_no_newline_at_end() {
    let diff = "\
diff --git a/no_nl.txt b/no_nl.txt
index abc..def 100644
--- a/no_nl.txt
+++ b/no_nl.txt
@@ -1,1 +1,1 @@
-old content
\\ No newline at end of file
+new content
\\ No newline at end of file
";
    let files = parse_unified_diff(diff);
    let lines = &files[0].hunks[0].lines;
    assert_eq!(lines.len(), 2);
    assert_eq!(lines[0].line_type, LineType::Deletion);
    assert_eq!(lines[0].content, "old content");
    assert_eq!(lines[1].line_type, LineType::Addition);
    assert_eq!(lines[1].content, "new content");
}

#[test]
fn test_multiple_hunks_in_one_file() {
    let diff = "\
diff --git a/multi.txt b/multi.txt
index abc..def 100644
--- a/multi.txt
+++ b/multi.txt
@@ -1,3 +1,3 @@
 first
-old second
+new second
 third
@@ -20,3 +20,3 @@
 twentieth
-old twentyfirst
+new twentyfirst
 twentysecond
";
    let files = parse_unified_diff(diff);
    assert_eq!(files.len(), 1);
    assert_eq!(files[0].hunks.len(), 2);

    assert_eq!(files[0].hunks[0].old_start, 1);
    assert_eq!(files[0].hunks[0].new_start, 1);
    assert_eq!(files[0].hunks[0].lines.len(), 4);

    assert_eq!(files[0].hunks[1].old_start, 20);
    assert_eq!(files[0].hunks[1].new_start, 20);
    assert_eq!(files[0].hunks[1].lines.len(), 4);
}
