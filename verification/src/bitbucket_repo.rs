//! The identity of a BitBucket project, and the two ways of arriving at one:
//! from the address of a remote and from what a user typed.

use crate::error::BrowseError;
use crate::text::{
    chars_of, filled, find_first, first_index, has_prefix, keep_filled, lemma_first_index,
    lemma_first_index_bound, lemma_split_clean, lemma_split_concat, lemma_trim_suffix_done, rows,
    slice_of, split, split_chars, text_of, trim_suffix, trim_suffix_chars,
};
use crate::web::{parse_url, url_parts};
use vstd::prelude::*;

verus! {

/// The ending that clone addresses carry and project names do not.
pub const GIT_SUFFIX: &'static str = ".git";

/// A project on BitBucket: a repository within a workspace.
#[derive(Debug, PartialEq, Eq)]
pub struct BitBucketRepo {
    pub name: String,
    pub workspace: String,
}

/// What a [`BitBucketRepo`] stands for.
pub struct RepoId {
    pub workspace: Seq<char>,
    pub name: Seq<char>,
}

impl RepoId {
    /// Neither part is empty, and the name does not end in `.git`.
    pub open spec fn is_valid(self) -> bool {
        &&& self.workspace.len() > 0
        &&& self.name.len() > 0
        &&& !GIT_SUFFIX@.is_suffix_of(self.name)
    }
}

impl View for BitBucketRepo {
    type V = RepoId;

    open spec fn view(&self) -> RepoId {
        RepoId { workspace: self.workspace@, name: self.name@ }
    }
}

/// The project that a slash-separated path names: its first two non-empty
/// segments, the second without any trailing `.git`. `None` where there are
/// fewer than two such segments or nothing is left of the name.
pub open spec fn path_identity(path: Seq<char>) -> Option<RepoId> {
    let segments = filled(split(path, '/'));
    if segments.len() >= 2 && trim_suffix(segments[1], GIT_SUFFIX@).len() > 0 {
        Some(RepoId { workspace: segments[0], name: trim_suffix(segments[1], GIT_SUFFIX@) })
    } else {
        None
    }
}

/// The path of an address in the short secure-shell form `user@host:path`:
/// what follows the first colon, provided that something other than a slash
/// stands before it and no `//` directly after it.
pub open spec fn scp_path(url: Seq<char>) -> Option<Seq<char>> {
    let colon = first_index(url, ':');
    if 0 < colon < url.len() && colon < first_index(url, '/') && !"//"@.is_prefix_of(
        url.skip(colon + 1),
    ) {
        Some(url.skip(colon + 1))
    } else {
        None
    }
}

/// The project behind a remote's address, given what the address parser made
/// of it: the parsed path decides where there is one, the short secure-shell
/// form where the parser rejected the address.
pub open spec fn remote_identity(
    parsed: Option<(Option<Seq<char>>, Seq<char>)>,
    url: Seq<char>,
) -> Option<RepoId> {
    match parsed {
        Some(parts) => path_identity(parts.1),
        None => match scp_path(url) {
            Some(path) => path_identity(path),
            None => None,
        },
    }
}

/// The project that a user names as `workspace/repo`: the first two pieces
/// between slashes, the second without any trailing `.git`. `None` where
/// there is no slash or either part comes out empty.
pub open spec fn user_identity(given: Seq<char>) -> Option<RepoId> {
    let tokens = split(given, '/');
    if tokens.len() >= 2 && tokens[0].len() > 0 && trim_suffix(tokens[1], GIT_SUFFIX@).len() > 0 {
        Some(RepoId { workspace: tokens[0], name: trim_suffix(tokens[1], GIT_SUFFIX@) })
    } else {
        None
    }
}

/// `r` is the project or the error that `wanted` names.
pub open spec fn agrees(
    r: Result<BitBucketRepo, BrowseError>,
    wanted: Result<RepoId, BrowseError>,
) -> bool {
    match wanted {
        Ok(id) => r is Ok && r->Ok_0@ == id,
        Err(e) => r == Err::<BitBucketRepo, BrowseError>(e),
    }
}

/// `r` is the project `wanted` where there is one, and `failure` where there
/// is none.
pub open spec fn resolves_to(
    r: Result<BitBucketRepo, BrowseError>,
    wanted: Option<RepoId>,
    failure: BrowseError,
) -> bool {
    match wanted {
        Some(id) => r is Ok && r->Ok_0@ == id,
        None => r == Err::<BitBucketRepo, BrowseError>(failure),
    }
}

/// Whatever a path names is a valid project.
pub proof fn lemma_path_identity_valid(path: Seq<char>)
    ensures
        path_identity(path) is Some ==> path_identity(path)->Some_0.is_valid(),
{
    let segments = filled(split(path, '/'));
    if segments.len() >= 2 {
        reveal_strlit(".git");
        split(path, '/').lemma_filter_pred(|p: Seq<char>| p.len() > 0, 0);
        lemma_trim_suffix_done(segments[1], GIT_SUFFIX@);
    }
}

/// Whatever a user's text names is a valid project.
pub proof fn lemma_user_identity_valid(given: Seq<char>)
    ensures
        user_identity(given) is Some ==> user_identity(given)->Some_0.is_valid(),
{
    let tokens = split(given, '/');
    if tokens.len() >= 2 {
        reveal_strlit(".git");
        lemma_trim_suffix_done(tokens[1], GIT_SUFFIX@);
    }
}

/// Whatever the address of a remote names is a valid project.
pub proof fn lemma_remote_identity_valid(
    parsed: Option<(Option<Seq<char>>, Seq<char>)>,
    url: Seq<char>,
)
    ensures
        remote_identity(parsed, url) is Some ==> remote_identity(parsed, url)->Some_0.is_valid(),
{
    match parsed {
        Some(parts) => lemma_path_identity_valid(parts.1),
        None => match scp_path(url) {
            Some(path) => lemma_path_identity_valid(path),
            None => {},
        },
    }
}

/// The paths `/workspace/name.git` and `workspace/name.git` name the project
/// `workspace`, `name`, for every non-empty workspace and name without a
/// slash, the name not itself ending in `.git`.
pub proof fn lemma_path_round_trip(workspace: Seq<char>, name: Seq<char>)
    requires
        workspace.len() > 0,
        name.len() > 0,
        !workspace.contains('/'),
        !name.contains('/'),
        !GIT_SUFFIX@.is_suffix_of(name),
    ensures
        path_identity(seq!['/'] + workspace + seq!['/'] + name + GIT_SUFFIX@) == Some(
            RepoId { workspace, name },
        ),
        path_identity(workspace + seq!['/'] + name + GIT_SUFFIX@) == Some(
            RepoId { workspace, name },
        ),
{
    reveal_strlit(".git");
    let last = name + GIT_SUFFIX@;
    let rooted = seq!['/'] + workspace + seq!['/'] + name + GIT_SUFFIX@;
    let relative = workspace + seq!['/'] + name + GIT_SUFFIX@;
    let nothing = Seq::<char>::empty();
    assert(!last.contains('/')) by {
        if last.contains('/') {
            let i = choose|i: int| 0 <= i < last.len() && last[i] == '/';
            if i < name.len() {
                assert(name[i] == '/');
            }
        }
    }
    assert(rooted =~= (nothing.push('/') + workspace).push('/') + last);
    assert(relative =~= workspace.push('/') + last);
    lemma_split_concat(nothing.push('/') + workspace, last, '/');
    lemma_split_concat(nothing, workspace, '/');
    lemma_split_concat(workspace, last, '/');
    lemma_split_clean(nothing, '/');
    lemma_split_clean(workspace, '/');
    lemma_split_clean(last, '/');
    let long = split(rooted, '/');
    let short = split(relative, '/');
    assert(long =~= seq![nothing, workspace, last]);
    assert(short =~= seq![workspace, last]);
    assert(filled(long) =~= seq![workspace, last] && filled(short) =~= seq![workspace, last]) by {
        reveal_with_fuel(Seq::filter, 4);
        assert(long.drop_last() =~= seq![nothing, workspace]);
        assert(long.drop_last().drop_last() =~= seq![nothing]);
        assert(long.drop_last().drop_last().drop_last() =~= Seq::<Seq<char>>::empty());
        assert(short.drop_last() =~= seq![workspace]);
        assert(short.drop_last().drop_last() =~= Seq::<Seq<char>>::empty());
    }
    assert(last.take(last.len() - GIT_SUFFIX@.len()) =~= name);
    assert(GIT_SUFFIX@.is_suffix_of(last)) by {
        assert(last.subrange(last.len() - GIT_SUFFIX@.len(), last.len() as int) =~= GIT_SUFFIX@);
    }
    assert(trim_suffix(last, GIT_SUFFIX@) == trim_suffix(name, GIT_SUFFIX@));
}

/// An address in which the address parser finds the path
/// `/workspace/name.git` resolves to the project `workspace`, `name`, for
/// every non-empty workspace and name without a slash, the name not itself
/// ending in `.git`.
pub proof fn lemma_remote_url_round_trip(
    url: Seq<char>,
    host: Option<Seq<char>>,
    workspace: Seq<char>,
    name: Seq<char>,
)
    requires
        workspace.len() > 0,
        name.len() > 0,
        !workspace.contains('/'),
        !name.contains('/'),
        !GIT_SUFFIX@.is_suffix_of(name),
        url_parts(url) == Some((host, seq!['/'] + workspace + seq!['/'] + name + GIT_SUFFIX@)),
    ensures
        remote_identity(url_parts(url), url) == Some(RepoId { workspace, name }),
{
    lemma_path_round_trip(workspace, name);
}

/// In the short secure-shell form, what follows the first colon is the path:
/// `authority:path` has the path `path` where the authority is not empty and
/// holds neither a colon nor a slash, and the path does not begin with `//`.
pub proof fn lemma_scp_path(authority: Seq<char>, path: Seq<char>)
    requires
        authority.len() > 0,
        !authority.contains(':'),
        !authority.contains('/'),
        !"//"@.is_prefix_of(path),
    ensures
        scp_path(authority.push(':') + path) == Some(path),
{
    let url = authority.push(':') + path;
    let k = authority.len() as int;
    assert forall|j: int| 0 <= j < k implies url[j] != ':' && url[j] != '/' by {
        assert(url[j] == authority[j]);
    }
    assert(url[k] == ':');
    lemma_first_index(url, ':', k);
    lemma_first_index_bound(url, '/', k + 1);
    assert(url.skip(k + 1) =~= path);
}

/// The short secure-shell address `authority:workspace/name.git`, which the
/// address parser rejects, resolves to the project `workspace`, `name`: the
/// same as an address in which the parser finds the path
/// `/workspace/name.git`.
pub proof fn lemma_scp_url_round_trip(
    authority: Seq<char>,
    workspace: Seq<char>,
    name: Seq<char>,
)
    requires
        authority.len() > 0,
        !authority.contains(':'),
        !authority.contains('/'),
        workspace.len() > 0,
        name.len() > 0,
        !workspace.contains('/'),
        !name.contains('/'),
        !GIT_SUFFIX@.is_suffix_of(name),
        url_parts(authority.push(':') + (workspace + seq!['/'] + name + GIT_SUFFIX@)) is None,
    ensures
        remote_identity(
            url_parts(authority.push(':') + (workspace + seq!['/'] + name + GIT_SUFFIX@)),
            authority.push(':') + (workspace + seq!['/'] + name + GIT_SUFFIX@),
        ) == Some(RepoId { workspace, name }),
{
    let path = workspace + seq!['/'] + name + GIT_SUFFIX@;
    reveal_strlit("//");
    assert(path[0] == workspace[0]);
    assert(workspace[0] != '/');
    assert(!"//"@.is_prefix_of(path)) by {
        if "//"@.is_prefix_of(path) {
            assert(path.subrange(0, 2)[0] == '/');
        }
    }
    lemma_scp_path(authority, path);
    lemma_path_round_trip(workspace, name);
}

/// A project from its two parts, taken as they are.
pub fn new(name: String, workspace: String) -> (repo: BitBucketRepo)
    ensures
        repo.name == name,
        repo.workspace == workspace,
{
    BitBucketRepo { name, workspace }
}

fn repo_of(workspace: &Vec<char>, segment: &Vec<char>) -> (r: Option<BitBucketRepo>)
    ensures
        match r {
            Some(repo) => repo@ == (RepoId {
                workspace: workspace@,
                name: trim_suffix(segment@, GIT_SUFFIX@),
            }) && repo@.name.len() > 0,
            None => trim_suffix(segment@, GIT_SUFFIX@).len() == 0,
        },
{
    let suffix = chars_of(GIT_SUFFIX);
    let name = trim_suffix_chars(segment.clone(), &suffix);
    if name.len() == 0 {
        None
    } else {
        Some(BitBucketRepo { name: text_of(&name), workspace: text_of(workspace) })
    }
}

fn identity_of_path(path: &Vec<char>) -> (r: Option<BitBucketRepo>)
    ensures
        match path_identity(path@) {
            Some(id) => r is Some && r->Some_0@ == id,
            None => r is None,
        },
{
    let segments = keep_filled(split_chars(path, '/'));
    if segments.len() < 2 {
        return None;
    }
    assert(rows(segments@)[0] == segments@[0]@);
    assert(rows(segments@)[1] == segments@[1]@);
    repo_of(&segments[0], &segments[1])
}

/// Resolves the path of a parsed address.
pub fn from_url_path(path: &str) -> (r: Result<BitBucketRepo, BrowseError>)
    ensures
        resolves_to(r, path_identity(path@), BrowseError::UrlFormat),
        r is Ok ==> r->Ok_0@.is_valid(),
{
    proof {
        lemma_path_identity_valid(path@);
    }
    match identity_of_path(&chars_of(path)) {
        Some(repo) => Ok(repo),
        None => Err(BrowseError::UrlFormat),
    }
}

/// Resolves an address in the short secure-shell form, `user@host:path`.
pub fn from_scp_url(url: &str) -> (r: Result<BitBucketRepo, BrowseError>)
    ensures
        resolves_to(
            r,
            match scp_path(url@) {
                Some(path) => path_identity(path),
                None => None,
            },
            BrowseError::UrlFormat,
        ),
        r is Ok ==> r->Ok_0@.is_valid(),
{
    let text = chars_of(url);
    let colon = find_first(&text, ':');
    if colon == 0 || colon >= text.len() || find_first(&text, '/') <= colon {
        return Err(BrowseError::UrlFormat);
    }
    let path = slice_of(&text, colon + 1, text.len());
    if has_prefix(&path, &chars_of("//")) {
        return Err(BrowseError::UrlFormat);
    }
    proof {
        lemma_path_identity_valid(path@);
    }
    match identity_of_path(&path) {
        Some(repo) => Ok(repo),
        None => Err(BrowseError::UrlFormat),
    }
}

/// Resolves the address of a remote, in the `https://host/workspace/repo.git`
/// form or any other that the address parser accepts, or else in the short
/// secure-shell form.
pub fn from_remote_url(url: &str) -> (r: Result<BitBucketRepo, BrowseError>)
    ensures
        resolves_to(r, remote_identity(url_parts(url@), url@), BrowseError::UrlFormat),
        r is Ok ==> r->Ok_0@.is_valid(),
{
    match parse_url(url) {
        Ok(parts) => from_url_path(parts.path.as_str()),
        Err(_) => from_scp_url(url),
    }
}

/// Resolves what a user typed as `workspace/repo`.
pub fn from_user_string(given: &str) -> (r: Result<BitBucketRepo, BrowseError>)
    ensures
        resolves_to(r, user_identity(given@), BrowseError::InvalidRepoSpec),
        r is Ok ==> r->Ok_0@.is_valid(),
{
    proof {
        lemma_user_identity_valid(given@);
    }
    let tokens = split_chars(&chars_of(given), '/');
    if tokens.len() < 2 || tokens[0].len() == 0 {
        return Err(BrowseError::InvalidRepoSpec);
    }
    assert(rows(tokens@)[0] == tokens@[0]@);
    assert(rows(tokens@)[1] == tokens@[1]@);
    match repo_of(&tokens[0], &tokens[1]) {
        Some(repo) => Ok(repo),
        None => Err(BrowseError::InvalidRepoSpec),
    }
}

} // verus!
