//! The ways in which resolving a project or building its address can fail.

use vstd::prelude::*;
use vstd::string::*;

verus! {

/// Why no browse address could be produced.
#[derive(Debug, PartialEq, Eq)]
pub enum BrowseError {
    /// The configuration file does not exist.
    ConfigNotFound,
    /// The configuration file exists but could not be read; the cause is kept
    /// as text.
    ConfigUnreadable(String),
    /// No remote on BitBucket was found, and at least one `remote` section
    /// was too damaged to tell whether it was the one.
    ConfigFormat,
    /// The configuration was read, and none of its remotes is on BitBucket.
    NoBitbucketRemote,
    /// A remote's address yields no workspace and repository name.
    UrlFormat,
    /// A repository given by hand is not of the form `workspace/repo`.
    InvalidRepoSpec,
    /// The address could not be assembled at all.
    Internal,
}

impl BrowseError {
    /// What the user is told.
    pub open spec fn message_text(self) -> Seq<char> {
        match self {
            BrowseError::ConfigNotFound => "Error while parsing Git config: .git/config not found"@,
            BrowseError::ConfigUnreadable(cause) => "Unexpected error while parsing Git config: "@
                + cause@,
            BrowseError::ConfigFormat =>
                "Error while parsing Git config: a remote section is incomplete"@,
            BrowseError::NoBitbucketRemote =>
                "Project does not appear to be a repository on BitBucket."@,
            BrowseError::UrlFormat => "The remote's URL does not name a BitBucket repository"@,
            BrowseError::InvalidRepoSpec => "The repository must be given as WORKSPACE/REPO"@,
            BrowseError::Internal => "Unable to build the BitBucket URL"@,
        }
    }

    /// The message for the user, one for each kind of failure.
    pub fn message(&self) -> (r: String)
        ensures
            r@ == self.message_text(),
    {
        match self {
            BrowseError::ConfigNotFound => String::from_str(
                "Error while parsing Git config: .git/config not found",
            ),
            BrowseError::ConfigUnreadable(cause) => String::from_str(
                "Unexpected error while parsing Git config: ",
            ).concat(cause.as_str()),
            BrowseError::ConfigFormat => String::from_str(
                "Error while parsing Git config: a remote section is incomplete",
            ),
            BrowseError::NoBitbucketRemote => String::from_str(
                "Project does not appear to be a repository on BitBucket.",
            ),
            BrowseError::UrlFormat => String::from_str(
                "The remote's URL does not name a BitBucket repository",
            ),
            BrowseError::InvalidRepoSpec => String::from_str(
                "The repository must be given as WORKSPACE/REPO",
            ),
            BrowseError::Internal => String::from_str("Unable to build the BitBucket URL"),
        }
    }
}

} // verus!
