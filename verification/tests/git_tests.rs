use git_scroll::git::GitHandler;
use git_scroll::git::{CloneFailure, CloneStep, RepositoryMetadata};

#[test]
fn test_validate_url() {
    // Valid URLs
    assert!(GitHandler::validate_url("https://github.com/user/repo.git"));
    assert!(GitHandler::validate_url("https://gitlab.com/user/repo.git"));
    assert!(GitHandler::validate_url("https://github.com/user/repo")); // Without .git suffix is valid
    assert!(GitHandler::validate_url("git@github.com:user/repo.git")); // SSH format is valid
    assert!(GitHandler::validate_url("file:///path/to/repo")); // Local file URL is valid
    assert!(GitHandler::validate_url("/absolute/path/to/repo")); // Absolute path is valid

    // Invalid URLs
    assert!(!GitHandler::validate_url("invalid-url")); // No protocol or path format
    assert!(!GitHandler::validate_url("ftp://github.com/user/repo.git")); // Unsupported protocol
}

#[test]
fn test_new_git_handler() {
    let handler = GitHandler::new(true);
    assert!(handler.keep_repository);

    let handler = GitHandler::new(false);
    assert!(!handler.keep_repository);
}

#[test]
fn test_validate_git_url() {
    // Test valid URLs
    assert!(GitHandler::validate_url("https://github.com/user/repo.git"));
    assert!(GitHandler::validate_url("https://github.com/user/repo")); // No .git suffix is valid
    assert!(GitHandler::validate_url("git@github.com:user/repo.git")); // SSH format is valid
    assert!(GitHandler::validate_url("file:///path/to/repo")); // Local file path is valid
    assert!(GitHandler::validate_url("/absolute/path/to/repo")); // Absolute path is valid

    // Test invalid URLs
    assert!(!GitHandler::validate_url("invalid-url")); // No protocol or path format
}

#[test]
fn a_url_must_begin_with_a_known_scheme() {
    assert!(GitHandler::validate_url("/"));
    assert!(GitHandler::validate_url("git@"));
    assert!(!GitHandler::validate_url(""));
    assert!(!GitHandler::validate_url(" https://github.com/user/repo.git"));
    assert!(!GitHandler::validate_url("http://github.com/user/repo.git"));
    assert!(!GitHandler::validate_url("relative/path"));
    // The rest of the URL must be on one line.
    assert!(!GitHandler::validate_url("https://github.com/user\n/repo.git"));
}

#[test]
fn only_a_match_accepts() {
    assert!(GitHandler::accepts(Some(true)));
    assert!(!GitHandler::accepts(Some(false)));
    assert!(!GitHandler::accepts(None));
}

#[test]
fn a_failed_clone_is_retried_with_the_git_suffix() {
    assert_eq!(
        GitHandler::retry_url("https://github.com/user/repo"),
        Some("https://github.com/user/repo.git".to_string())
    );
    assert_eq!(GitHandler::retry_url("https://github.com/user/repo.git"), None);
    assert_eq!(GitHandler::retry_url(".git"), None);
    assert_eq!(GitHandler::retry_url("git"), Some("git.git".to_string()));
    assert_eq!(GitHandler::retry_url(""), Some(".git".to_string()));
    assert_eq!(
        GitHandler::after_clone_failure("/srv/repo", CloneFailure::Auth, "denied"),
        CloneStep::Retry("/srv/repo.git".to_string())
    );
}

#[test]
fn a_failed_clone_of_a_git_url_is_reported_by_kind() {
    assert_eq!(
        GitHandler::after_clone_failure("/srv/repo.git", CloneFailure::Auth, "denied"),
        CloneStep::Fail(
            "Authentication failed for /srv/repo.git. Check your credentials or ensure the repository is public."
                .to_string()
        )
    );
    assert_eq!(
        GitHandler::clone_error("/srv/repo.git", CloneFailure::NotFound, "no such thing"),
        "Repository not found: /srv/repo.git. Verify the URL is correct."
    );
    assert_eq!(
        GitHandler::clone_error("/srv/repo.git", CloneFailure::Other, "timeout"),
        "Failed to clone /srv/repo.git. Error: timeout. Check your internet connection and URL."
    );
}

#[test]
fn a_failed_retry_reports_both_attempts() {
    assert_eq!(
        GitHandler::retry_error("/srv/repo", "first", "second"),
        "Failed to clone repository:\n- Original URL (/srv/repo): first\n- With .git suffix (/srv/repo.git): second"
    );
}

#[test]
fn a_destination_that_is_a_file_is_in_the_way() {
    assert!(GitHandler::destination_blocked(true, false));
    assert!(!GitHandler::destination_blocked(true, true));
    assert!(!GitHandler::destination_blocked(false, false));
    assert!(!GitHandler::destination_blocked(false, true));
    assert_eq!(
        GitHandler::destination_error("/tmp/x"),
        "Destination path exists but is not a directory: /tmp/x"
    );
}

#[test]
fn repositories_are_removed_unless_kept() {
    assert!(GitHandler::new(false).should_remove(true));
    assert!(!GitHandler::new(false).should_remove(false));
    assert!(!GitHandler::new(true).should_remove(true));
    assert!(!GitHandler::new(true).should_remove(false));
}

#[test]
fn metadata_is_put_together_from_what_was_read() {
    let metadata =
        RepositoryMetadata::assemble("/tmp/clones/git_scroll", Some("main".to_string()), 42, 1234567890);
    assert_eq!(metadata.name, "git_scroll");
    assert_eq!(metadata.branch, "main");
    assert_eq!(metadata.commit_count, 42);
    assert_eq!(metadata.last_commit_date, "2009-02-13 23:31:30");
    let metadata = RepositoryMetadata::assemble("/", None, 0, 0);
    assert_eq!(metadata.name, "unknown");
    assert_eq!(metadata.branch, "detached HEAD");
    assert_eq!(metadata.last_commit_date, "1970-01-01 00:00:00");
    let metadata = RepositoryMetadata::assemble("repo/..", None, 0, i64::MAX);
    assert_eq!(metadata.name, "unknown");
    assert_eq!(metadata.last_commit_date, "unknown");
    let metadata = RepositoryMetadata::assemble("repo", None, 0, -1);
    assert_eq!(metadata.name, "repo");
    assert_eq!(metadata.last_commit_date, "1969-12-31 23:59:59");
}

#[test]
fn dates_are_known_for_the_years_that_the_calendar_holds() {
    let date = |seconds: i64| RepositoryMetadata::assemble("repo", None, 0, seconds).last_commit_date;
    assert_eq!(date(8_210_266_876_799), "+262142-12-31 23:59:59");
    assert_eq!(date(8_210_266_876_800), "unknown");
    assert_eq!(date(-8_334_601_228_800), "-262143-01-01 00:00:00");
    assert_eq!(date(-8_334_601_228_801), "unknown");
    assert_eq!(date(i64::MIN), "unknown");
    assert_eq!(date(951_782_400), "2000-02-29 00:00:00");
}
