//! The rules around fetching a repository: which URLs are accepted, what to
//! try when a clone fails and what to report, when to clean up, and how the
//! facts about a repository are put together.

use vstd::prelude::*;
use vstd::string::StringExecFns;
use crate::paths::{file_name, file_name_spec};
use crate::text::{ends_with, is_suffix};
use crate::trusted::{
    format_utc_timestamp, regex_is_match, regex_is_valid, regex_matches, timestamp_in_range,
    utc_text_of,
};

verus! {

/// The regular expression that an accepted URL matches: it begins with
/// `https://`, `git@`, `file://` or `/`.
pub open spec fn url_pattern() -> Seq<char> {
    "^(https://|git@|file://|/).*(\\.git)?$"@
}

/// Whether the URL is accepted: the URL pattern is a regular expression and
/// the URL matches it.
pub open spec fn url_is_valid(url: Seq<char>) -> bool {
    regex_is_valid(url_pattern()) && regex_matches(url_pattern(), url)
}

/// What a URL ends with where the clone is not tried a second time.
pub open spec fn git_suffix() -> Seq<char> {
    ".git"@
}

/// Why a clone failed, as far as the report depends on it.
#[derive(Debug, Clone, Copy, PartialEq, Eq, Structural)]
pub enum CloneFailure {
    /// The server asked for credentials and did not accept any.
    Auth,
    /// There is no repository at the URL.
    NotFound,
    /// Anything else.
    Other,
}

/// What to do after a clone has failed.
#[derive(Debug, PartialEq, Eq)]
pub enum CloneStep {
    /// Try again with this URL.
    Retry(String),
    /// Give up and report this.
    Fail(String),
}

/// The report of a failed clone of a URL that ends with `.git`.
pub open spec fn clone_error_text(url: Seq<char>, failure: CloneFailure, detail: Seq<char>) -> Seq<
    char,
> {
    match failure {
        CloneFailure::Auth => "Authentication failed for "@ + url
            + ". Check your credentials or ensure the repository is public."@,
        CloneFailure::NotFound => "Repository not found: "@ + url + ". Verify the URL is correct."@,
        CloneFailure::Other => "Failed to clone "@ + url + ". Error: "@ + detail
            + ". Check your internet connection and URL."@,
    }
}

/// The report of a clone that failed with and without `.git` at the end of
/// the URL.
pub open spec fn retry_error_text(
    url: Seq<char>,
    first_detail: Seq<char>,
    second_detail: Seq<char>,
) -> Seq<char> {
    "Failed to clone repository:\n- Original URL ("@ + url + "): "@ + first_detail
        + "\n- With .git suffix ("@ + url + git_suffix() + "): "@ + second_detail
}

/// What follows a failed first clone: a second try with `.git` behind the
/// URL where it does not end so, else the report.
pub open spec fn after_failure_spec(url: Seq<char>, failure: CloneFailure, detail: Seq<char>) -> (
    bool,
    Seq<char>,
) {
    if is_suffix(git_suffix(), url) {
        (false, clone_error_text(url, failure, detail))
    } else {
        (true, url + git_suffix())
    }
}

/// Handles Git repository operations.
#[derive(Debug, Clone, Copy, PartialEq, Eq)]
pub struct GitHandler {
    /// Whether to keep the repository after cloning.
    pub keep_repository: bool,
}

impl GitHandler {
    /// A handler that keeps cloned repositories or not.
    pub fn new(keep_repository: bool) -> (handler: GitHandler)
        ensures
            handler.keep_repository == keep_repository,
    {
        GitHandler { keep_repository }
    }

    /// Tells whether a URL is accepted as that of a Git repository.
    pub fn validate_url(url: &str) -> (valid: bool)
        ensures
            valid == url_is_valid(url@),
    {
        let matched = regex_is_match("^(https://|git@|file://|/).*(\\.git)?$", url);
        GitHandler::accepts(matched)
    }

    /// Tells whether the answer of the regular expression accepts the URL:
    /// it does where the expression compiled and matched.
    pub fn accepts(matched: Option<bool>) -> (valid: bool)
        ensures
            valid == (matched == Some(true)),
    {
        match matched {
            Some(m) => m,
            None => false,
        }
    }

    /// Tells whether the destination of a clone is in the way: something is
    /// there that is no directory.
    pub fn destination_blocked(exists: bool, is_directory: bool) -> (blocked: bool)
        ensures
            blocked == (exists && !is_directory),
    {
        exists && !is_directory
    }

    /// The report of a destination that is in the way.
    pub fn destination_error(destination: &str) -> (message: String)
        ensures
            message@ == "Destination path exists but is not a directory: "@ + destination@,
    {
        let mut message = String::from_str("Destination path exists but is not a directory: ");
        message.append(destination);
        message
    }

    /// The URL to try after a clone of `url` has failed: the same with
    /// `.git` behind it, unless it ends so already.
    pub fn retry_url(url: &str) -> (retry: Option<String>)
        ensures
            retry is Some == !is_suffix(git_suffix(), url@),
            retry matches Some(r) ==> r@ == url@ + git_suffix(),
    {
        if ends_with(url, ".git") {
            None
        } else {
            let mut retry = String::from_str(url);
            retry.append(".git");
            Some(retry)
        }
    }

    /// The report of a failed clone of a URL that ends with `.git`.
    pub fn clone_error(url: &str, failure: CloneFailure, detail: &str) -> (message: String)
        ensures
            message@ == clone_error_text(url@, failure, detail@),
    {
        match failure {
            CloneFailure::Auth => {
                let mut message = String::from_str("Authentication failed for ");
                message.append(url);
                message.append(". Check your credentials or ensure the repository is public.");
                message
            },
            CloneFailure::NotFound => {
                let mut message = String::from_str("Repository not found: ");
                message.append(url);
                message.append(". Verify the URL is correct.");
                message
            },
            CloneFailure::Other => {
                let mut message = String::from_str("Failed to clone ");
                message.append(url);
                message.append(". Error: ");
                message.append(detail);
                message.append(". Check your internet connection and URL.");
                message
            },
        }
    }

    /// What to do after the first clone of `url` has failed.
    pub fn after_clone_failure(url: &str, failure: CloneFailure, detail: &str) -> (step: CloneStep)
        ensures
            match step {
                CloneStep::Retry(retry) => after_failure_spec(url@, failure, detail@) == (
                    true,
                    retry@,
                ),
                CloneStep::Fail(message) => after_failure_spec(url@, failure, detail@) == (
                    false,
                    message@,
                ),
            },
    {
        match GitHandler::retry_url(url) {
            Some(retry) => CloneStep::Retry(retry),
            None => CloneStep::Fail(GitHandler::clone_error(url, failure, detail)),
        }
    }

    /// The report of a clone that failed both as it was and with `.git`
    /// behind the URL.
    pub fn retry_error(url: &str, first_detail: &str, second_detail: &str) -> (message: String)
        ensures
            message@ == retry_error_text(url@, first_detail@, second_detail@),
    {
        let mut message = String::from_str("Failed to clone repository:\n- Original URL (");
        message.append(url);
        message.append("): ");
        message.append(first_detail);
        message.append("\n- With .git suffix (");
        message.append(url);
        message.append(".git");
        message.append("): ");
        message.append(second_detail);
        assert(message@ =~= retry_error_text(url@, first_detail@, second_detail@));
        message
    }

    /// Tells whether to remove the repository at a path: only where the
    /// handler does not keep repositories and the path exists.
    pub fn should_remove(&self, path_exists: bool) -> (remove: bool)
        ensures
            remove == (!self.keep_repository && path_exists),
    {
        !self.keep_repository && path_exists
    }
}

/// What is known of a Git repository.
#[derive(Debug)]
pub struct RepositoryMetadata {
    /// Repository name.
    pub name: String,
    /// Current branch.
    pub branch: String,
    /// Number of commits.
    pub commit_count: usize,
    /// Date of the last commit.
    pub last_commit_date: String,
}

/// Name of the repository at a path: the file name of the path, or
/// `unknown` where it has none.
pub open spec fn repository_name_spec(path: Seq<char>) -> Seq<char> {
    match file_name_spec(path) {
        Some(name) => name,
        None => "unknown"@,
    }
}

/// Text of the date of the last commit: the moment in UTC written in
/// `date_format`, or `unknown` where the seconds are out of range or the
/// formatting reports an error.
pub open spec fn commit_date_spec(seconds: int) -> Seq<char> {
    if timestamp_in_range(seconds) {
        match utc_text_of(seconds, date_format()) {
            Some(text) => text,
            None => "unknown"@,
        }
    } else {
        "unknown"@
    }
}

/// The form that the date of a commit is written in: year, month, day,
/// hours, minutes and seconds.
pub open spec fn date_format() -> Seq<char> {
    "%Y-%m-%d %H:%M:%S"@
}

impl RepositoryMetadata {
    /// Name of the repository at a path.
    pub fn name_of(path: &str) -> (name: String)
        ensures
            name@ == repository_name_spec(path@),
    {
        match file_name(path) {
            Some(name) => name,
            None => String::from_str("unknown"),
        }
    }

    /// Text of a date that is known or not.
    pub fn date_text(formatted: Option<String>) -> (text: String)
        ensures
            text@ == match formatted {
                Some(t) => t@,
                None => "unknown"@,
            },
    {
        match formatted {
            Some(t) => t,
            None => String::from_str("unknown"),
        }
    }

    /// Puts together what was read from a repository: the name comes from
    /// the path, a head without a branch name counts as detached, and the
    /// time of the last commit is given in UTC.
    pub fn assemble(
        path: &str,
        branch: Option<String>,
        commit_count: usize,
        last_commit_seconds: i64,
    ) -> (metadata: RepositoryMetadata)
        ensures
            metadata.name@ == repository_name_spec(path@),
            metadata.branch@ == match branch {
                Some(b) => b@,
                None => "detached HEAD"@,
            },
            metadata.commit_count == commit_count,
            metadata.last_commit_date@ == commit_date_spec(last_commit_seconds as int),
    {
        let branch = match branch {
            Some(b) => b,
            None => String::from_str("detached HEAD"),
        };
        RepositoryMetadata {
            name: RepositoryMetadata::name_of(path),
            branch,
            commit_count,
            last_commit_date: RepositoryMetadata::date_text(
                format_utc_timestamp(last_commit_seconds, "%Y-%m-%d %H:%M:%S"),
            ),
        }
    }
}

} // verus!
