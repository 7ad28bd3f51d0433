use great_review::source::{
    extract_optional_arg, falls_back_without_head, git_diff_args, parse_remote_path,
    range_from_first_arg, remote_root_and_branch,
};

#[test]
fn empty_argument_counts_as_absent() {
    assert_eq!(extract_optional_arg(Some("")), None);
    assert_eq!(extract_optional_arg(None), None);
    assert_eq!(extract_optional_arg(Some("HEAD~1")), Some("HEAD~1".to_string()));
}

#[test]
fn option_is_not_a_range() {
    assert_eq!(range_from_first_arg(Some("--verbose".to_string())), None);
    assert_eq!(range_from_first_arg(Some("main..dev".to_string())), Some("main..dev".to_string()));
    assert_eq!(range_from_first_arg(None), None);
}

#[test]
fn diff_args_default_to_head() {
    assert_eq!(git_diff_args(None), vec!["diff".to_string(), "HEAD".to_string()]);
    assert_eq!(git_diff_args(Some("a..b")), vec!["diff".to_string(), "a..b".to_string()]);
}

#[test]
fn fallback_only_without_range() {
    assert!(falls_back_without_head(None, false));
    assert!(!falls_back_without_head(None, true));
    assert!(!falls_back_without_head(Some("a..b"), false));
}

#[test]
fn remote_target_splits_at_first_colon() {
    assert_eq!(
        parse_remote_path("dev@box:/srv/repo:x"),
        Ok(("dev@box".to_string(), "/srv/repo:x".to_string()))
    );
    assert!(parse_remote_path("no-colon").is_err());
    assert!(parse_remote_path(":/path").is_err());
    assert!(parse_remote_path("host:").is_err());
}

#[test]
fn remote_reply_lines() {
    assert_eq!(
        remote_root_and_branch("  /srv/repo\nmain\n\n"),
        ("/srv/repo".to_string(), "main".to_string())
    );
    assert_eq!(remote_root_and_branch("/only\n"), ("/only".to_string(), String::new()));
    assert_eq!(remote_root_and_branch(""), (String::new(), String::new()));
}
