//! The boundary to the `url` crate: what this library takes on trust about
//! address parsing and path-segment encoding.

use crate::text::{chars_of, optional_text, same_chars};
use url::Url;
use vstd::prelude::*;

verus! {

/// The host under which BitBucket serves its projects.
pub const BITBUCKET_HOST: &'static str = "bitbucket.org";

/// The longest base address that [`extend_path`] is handed.
pub const MAX_BASE_LEN: usize = 1024;

/// The most segments that [`extend_path`] is handed at once.
pub const MAX_SEGMENTS: usize = 8;

/// The longest segment, in characters, that [`extend_path`] is handed.
pub const MAX_SEGMENT_LEN: usize = 0x0100_0000;

/// `url::ParseError`, the reason for which `url::Url::parse` rejects a text.
/// Nothing is read of it.
#[verifier::external_type_specification]
#[verifier::external_body]
pub struct ExParseError(url::ParseError);

/// What this library reads of a parsed address: its host, where it has one,
/// and its path, both as the parser serialises them.
#[derive(Debug, PartialEq, Eq)]
pub struct UrlParts {
    pub host: Option<String>,
    pub path: String,
}

impl View for UrlParts {
    type V = (Option<Seq<char>>, Seq<char>);

    open spec fn view(&self) -> (Option<Seq<char>>, Seq<char>) {
        (optional_text(self.host), self.path@)
    }
}

/// The host and path that `url::Url::parse` finds in `text`, or `None` where
/// it rejects `text`.
pub uninterp spec fn url_parts(text: Seq<char>) -> Option<(Option<Seq<char>>, Seq<char>)>;

/// The serialised address that results from parsing `base` with
/// `url::Url::parse` and appending `segments` to its path with
/// `PathSegmentsMut::extend`, or `None` where `base` is rejected or cannot
/// carry path segments.
pub uninterp spec fn url_with_segments(base: Seq<char>, segments: Seq<Seq<char>>) -> Option<
    Seq<char>,
>;

/// The character sequences of a vector of strings.
pub open spec fn texts(v: Seq<String>) -> Seq<Seq<char>> {
    Seq::new(v.len(), |i: int| v[i]@)
}

/// No segment is longer than [`extend_path`] takes.
pub open spec fn all_fit(segments: Seq<Seq<char>>) -> bool {
    forall|i: int| 0 <= i < segments.len() ==> (#[trigger] segments[i]).len() <= MAX_SEGMENT_LEN
}

/// Calls `url::Url::parse` and, on success, copies out `Url::host_str` and
/// `Url::path`. Trusted: the outcome depends on `text` alone, so it is given
/// the name [`url_parts`]; nothing is claimed about which texts parse or what
/// their host and path are.
#[verifier::external_body]
pub(crate) fn parse_url(text: &str) -> (r: Result<UrlParts, url::ParseError>)
    ensures
        match r {
            Ok(parts) => url_parts(text@) == Some(parts@),
            Err(_) => url_parts(text@) is None,
        },
{
    match Url::parse(text) {
        Ok(u) => Ok(
            UrlParts { host: u.host_str().map(String::from), path: String::from(u.path()) },
        ),
        Err(e) => Err(e),
    }
}

/// Calls `url::Url::parse` on `base`, then `Url::path_segments_mut` and
/// `PathSegmentsMut::extend` with `segments`, and returns the serialised
/// address. Trusted: the outcome depends on the arguments alone, so it is given
/// the name [`url_with_segments`]; nothing is claimed about how segments are
/// encoded. The `url` crate keeps positions as 32-bit numbers and stops the
/// program when a serialisation outgrows them. The bounds rule that out: a
/// character of a segment becomes at most twelve bytes, four of UTF-8 with
/// three for each when encoded, so that eight segments of the greatest length
/// stay below two to the power of thirty-one.
#[verifier::external_body]
pub(crate) fn extend_path(base: &str, segments: &Vec<String>) -> (r: Option<String>)
    requires
        base@.len() <= MAX_BASE_LEN,
        segments@.len() <= MAX_SEGMENTS,
        all_fit(texts(segments@)),
    ensures
        match r {
            Some(address) => url_with_segments(base@, texts(segments@)) == Some(address@),
            None => url_with_segments(base@, texts(segments@)) is None,
        },
{
    let mut url = Url::parse(base).ok()?;
    url.path_segments_mut().ok()?.extend(segments);
    Some(String::from(url))
}

/// The host in what the address parser made of a text: none where it rejected
/// the text, and none where the address has no host.
pub open spec fn host_of(parsed: Option<(Option<Seq<char>>, Seq<char>)>) -> Option<Seq<char>> {
    match parsed {
        Some(parts) => parts.0,
        None => None,
    }
}

/// Whether a host is BitBucket's, letter for letter.
pub fn is_bitbucket_host(host: &Option<String>) -> (r: bool)
    ensures
        r == (optional_text(*host) == Some(BITBUCKET_HOST@)),
{
    match host {
        Some(h) => {
            let given = chars_of(h.as_str());
            let wanted = chars_of(BITBUCKET_HOST);
            same_chars(&given, &wanted)
        },
        None => false,
    }
}

} // verus!
