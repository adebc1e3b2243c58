//! The `browse` command: from where the project comes and which page is
//! wanted to the address of that page.

use crate::bitbucket_repo::{
    agrees, from_remote_url, from_user_string, remote_identity, user_identity, BitBucketRepo,
    RepoId,
};
use crate::error::BrowseError;
use crate::git_config::{
    last_bitbucket, lemma_last_bitbucket, parse_local, parse_text, parsed_hosts, ConfigRead,
    ConfigView, GitConfig,
};
use crate::text::optional_text;
use crate::web::{
    all_fit, extend_path, texts, url_parts, url_with_segments, BITBUCKET_HOST, MAX_SEGMENT_LEN,
};
use vstd::prelude::*;
use vstd::string::*;

verus! {

/// How every browse address begins, before the host.
pub const BROWSE_SCHEME: &'static str = "https://";

/// The path segment that precedes a branch name.
pub const BRANCH_SEGMENT: &'static str = "branch";

/// The path segment that precedes a commit.
pub const COMMIT_SEGMENT: &'static str = "src";

/// Where the project comes from.
#[derive(Debug, PartialEq, Eq)]
pub enum RepoSource {
    /// The user named it, as `workspace/repo`.
    Named(String),
    /// It is to be found in the working copy's configuration, of which this
    /// is what reading it gave.
    Local(ConfigRead),
}

/// What is to be done with the address.
#[derive(Debug, PartialEq, Eq)]
pub enum BrowseAction {
    /// Write it to standard output.
    Print(String),
    /// Open it in the browser.
    Open(String),
}

/// The address from which every browse address is extended.
pub open spec fn browse_base() -> Seq<char> {
    BROWSE_SCHEME@ + BITBUCKET_HOST@
}

/// The path segments of the page for a project: workspace and name, then
/// `branch` and the branch where one is given, then `src` and the commit
/// where one is given.
pub open spec fn target_segments(
    id: RepoId,
    branch: Option<Seq<char>>,
    commit: Option<Seq<char>>,
) -> Seq<Seq<char>> {
    seq![id.workspace, id.name] + (match branch {
        Some(b) => seq![BRANCH_SEGMENT@, b],
        None => Seq::empty(),
    }) + (match commit {
        Some(c) => seq![COMMIT_SEGMENT@, c],
        None => Seq::empty(),
    })
}

/// The address of the page: the base extended by the page's segments. `None`
/// where a segment is too long or the address builder gives nothing.
pub open spec fn browse_address(
    id: RepoId,
    branch: Option<Seq<char>>,
    commit: Option<Seq<char>>,
) -> Option<Seq<char>> {
    let segments = target_segments(id, branch, commit);
    if all_fit(segments) {
        url_with_segments(browse_base(), segments)
    } else {
        None
    }
}

/// The project that a configuration leads to: that behind the address of the
/// remote chosen. Where no remote is chosen, a damaged section may have held
/// the one that was needed, and the error says so.
pub open spec fn discovery(config: ConfigView) -> Result<RepoId, BrowseError> {
    match last_bitbucket(parsed_hosts(config.remotes)) {
        Some(i) => {
            let url = config.remotes[i].url;
            match remote_identity(url_parts(url), url) {
                Some(id) => Ok(id),
                None => Err(BrowseError::UrlFormat),
            }
        },
        None => if config.malformed > 0 {
            Err(BrowseError::ConfigFormat)
        } else {
            Err(BrowseError::NoBitbucketRemote)
        },
    }
}

/// The project that a source leads to.
pub open spec fn resolution(source: RepoSource) -> Result<RepoId, BrowseError> {
    match source {
        RepoSource::Named(given) => match user_identity(given@) {
            Some(id) => Ok(id),
            None => Err(BrowseError::InvalidRepoSpec),
        },
        RepoSource::Local(read) => match read {
            ConfigRead::Text(text) => discovery(parse_text(text@)),
            ConfigRead::NotFound => Err(BrowseError::ConfigNotFound),
            ConfigRead::Unreadable(cause) => Err(BrowseError::ConfigUnreadable(cause)),
        },
    }
}

/// The path segments of the page for `repo`, in order.
pub fn browse_segments(
    repo: BitBucketRepo,
    branch: Option<String>,
    commit: Option<String>,
) -> (segments: Vec<String>)
    ensures
        texts(segments@) == target_segments(repo@, optional_text(branch), optional_text(commit)),
{
    let mut segments: Vec<String> = Vec::new();
    segments.push(repo.workspace);
    segments.push(repo.name);
    if let Some(b) = branch {
        segments.push(String::from_str(BRANCH_SEGMENT));
        segments.push(b);
    }
    if let Some(c) = commit {
        segments.push(String::from_str(COMMIT_SEGMENT));
        segments.push(c);
    }
    assert(texts(segments@) =~= target_segments(
        repo@,
        optional_text(branch),
        optional_text(commit),
    ));
    segments
}

fn segments_fit(segments: &Vec<String>) -> (r: bool)
    ensures
        r == all_fit(texts(segments@)),
{
    let mut i: usize = 0;
    while i < segments.len()
        invariant
            i <= segments.len(),
            forall|k: int| 0 <= k < i ==> (#[trigger] texts(segments@)[k]).len() <= MAX_SEGMENT_LEN,
        decreases segments.len() - i,
    {
        if segments[i].as_str().unicode_len() > MAX_SEGMENT_LEN {
            assert(texts(segments@)[i as int].len() > MAX_SEGMENT_LEN);
            return false;
        }
        i += 1;
    }
    true
}

/// Builds the address of the page for `repo`, of one of its branches or of
/// its sources at one commit. Every part becomes one path segment, encoded
/// by the address builder. Fails only where a part is longer than
/// [`MAX_SEGMENT_LEN`] or the address builder gives nothing.
pub fn build(repo: BitBucketRepo, branch: Option<String>, commit: Option<String>) -> (r: Result<
    String,
    BrowseError,
>)
    ensures
        match browse_address(repo@, optional_text(branch), optional_text(commit)) {
            Some(address) => r is Ok && r->Ok_0@ == address,
            None => r == Err::<String, BrowseError>(BrowseError::Internal),
        },
{
    let segments = browse_segments(repo, branch, commit);
    assert(texts(segments@).len() == segments@.len() <= 6);
    if !segments_fit(&segments) {
        return Err(BrowseError::Internal);
    }
    let base = String::from_str(BROWSE_SCHEME).concat(BITBUCKET_HOST);
    proof {
        reveal_strlit("https://");
        reveal_strlit("bitbucket.org");
    }
    match extend_path(base.as_str(), &segments) {
        Some(address) => Ok(address),
        None => Err(BrowseError::Internal),
    }
}

/// Finds the project of a working copy in its configuration.
pub fn discover(config: &GitConfig) -> (r: Result<BitBucketRepo, BrowseError>)
    ensures
        agrees(r, discovery(config@)),
        r is Ok ==> r->Ok_0@.is_valid(),
{
    proof {
        lemma_last_bitbucket(parsed_hosts(config@.remotes));
    }
    match config.find_bitbucket_remote() {
        Some(remote) => from_remote_url(remote.url.as_str()),
        None => if config.malformed > 0 {
            Err(BrowseError::ConfigFormat)
        } else {
            Err(BrowseError::NoBitbucketRemote)
        },
    }
}

/// Finds the project: the one that the user named, or else the one that the
/// working copy's configuration leads to.
pub fn resolve(source: RepoSource) -> (r: Result<BitBucketRepo, BrowseError>)
    ensures
        agrees(r, resolution(source)),
        r is Ok ==> r->Ok_0@.is_valid(),
{
    match source {
        RepoSource::Named(given) => from_user_string(given.as_str()),
        RepoSource::Local(read) => match parse_local(read) {
            Ok(config) => discover(&config),
            Err(e) => Err(e),
        },
    }
}

/// Carries out the `browse` command as far as the address: finds the
/// project, builds the address of the page wanted, and says whether it is to
/// be printed or opened.
pub fn browse(
    branch: Option<String>,
    commit: Option<String>,
    no_browser: bool,
    source: RepoSource,
) -> (r: Result<BrowseAction, BrowseError>)
    ensures
        match resolution(source) {
            Err(e) => r == Err::<BrowseAction, BrowseError>(e),
            Ok(id) => match browse_address(id, optional_text(branch), optional_text(commit)) {
                None => r == Err::<BrowseAction, BrowseError>(BrowseError::Internal),
                Some(address) => match r {
                    Ok(BrowseAction::Print(text)) => no_browser && text@ == address,
                    Ok(BrowseAction::Open(text)) => !no_browser && text@ == address,
                    Err(_) => false,
                },
            },
        },
{
    let repo = match resolve(source) {
        Ok(repo) => repo,
        Err(e) => {
            return Err(e);
        },
    };
    match build(repo, branch, commit) {
        Ok(address) => if no_browser {
            Ok(BrowseAction::Print(address))
        } else {
            Ok(BrowseAction::Open(address))
        },
        Err(e) => Err(e),
    }
}

} // verus!
