//! The local configuration of a repository: reading its `remote` sections
//! and choosing the remote that lives on BitBucket.

use crate::error::BrowseError;
use crate::text::{
    chars_of, has_prefix, lemma_split_clean, lemma_split_concat, lemma_split_nonempty,
    optional_text, remove_chars, rows, split, split_chars, string_of, text_of, without,
};
use crate::web::{host_of, is_bitbucket_host, parse_url, url_parts, BITBUCKET_HOST};
use vstd::prelude::*;

verus! {

/// What separates a key from its value on a line of a section.
pub const KEY_VALUE_SEPARATOR: &'static str = " = ";

/// The word with which the header of a remote's section begins.
pub const REMOTE_KEYWORD: &'static str = "remote";

/// The key under which a remote's address stands.
pub const URL_KEY: &'static str = "url";

/// The key under which a remote's fetch rule stands.
pub const FETCH_KEY: &'static str = "fetch";

/// A remote as the configuration declares it.
#[derive(Debug, PartialEq, Eq)]
pub struct GitRemote {
    pub name: String,
    pub url: String,
    pub fetch: String,
}

/// What a [`GitRemote`] stands for.
pub struct RemoteEntry {
    pub name: Seq<char>,
    pub url: Seq<char>,
    pub fetch: Seq<char>,
}

impl View for GitRemote {
    type V = RemoteEntry;

    open spec fn view(&self) -> RemoteEntry {
        RemoteEntry { name: self.name@, url: self.url@, fetch: self.fetch@ }
    }
}

/// The remotes of a configuration, in the order in which the text declares
/// them, and the number of `remote` sections that were too damaged to read.
#[derive(Debug, PartialEq, Eq)]
pub struct GitConfig {
    pub remotes: Vec<GitRemote>,
    pub malformed: usize,
}

/// What a [`GitConfig`] stands for.
pub struct ConfigView {
    pub remotes: Seq<RemoteEntry>,
    pub malformed: nat,
}

impl View for GitConfig {
    type V = ConfigView;

    open spec fn view(&self) -> ConfigView {
        ConfigView {
            remotes: Seq::new(self.remotes@.len(), |i: int| self.remotes@[i]@),
            malformed: self.malformed as nat,
        }
    }
}

/// What one section of the text turns out to be.
pub enum Section {
    /// Not a remote: `[core]`, `[user]` and the like.
    Other,
    /// A remote without a name, an address or a fetch rule.
    Malformed,
    /// A remote.
    Remote(RemoteEntry),
}

/// The value on `line` where it reads `key = value`.
pub open spec fn value_of(line: Seq<char>, key: Seq<char>) -> Option<Seq<char>> {
    let opening = key + KEY_VALUE_SEPARATOR@;
    if opening.is_prefix_of(line) {
        Some(line.skip(opening.len() as int))
    } else {
        None
    }
}

/// The value that `lines` give to `key`: that of the last line which sets it.
pub open spec fn lookup(lines: Seq<Seq<char>>, key: Seq<char>) -> Option<Seq<char>>
    decreases lines.len(),
{
    if lines.len() == 0 {
        None
    } else {
        match value_of(lines.last(), key) {
            Some(value) => Some(value),
            None => lookup(lines.drop_last(), key),
        }
    }
}

/// The name in a section header such as `remote "origin"`: its second word,
/// without the quotation marks.
pub open spec fn header_name(header: Seq<char>) -> Option<Seq<char>> {
    let words = split(header, ' ');
    if words.len() >= 2 {
        Some(without(words[1], '"', '"'))
    } else {
        None
    }
}

/// Reads the text between one `[` and the next. Tabs and `]` count for
/// nothing; the first line is the header, the lines after it the body.
pub open spec fn section_of(fragment: Seq<char>) -> Section {
    let lines = split(without(fragment, '\t', ']'), '\n');
    let body = lines.skip(1);
    if !REMOTE_KEYWORD@.is_prefix_of(lines[0]) {
        Section::Other
    } else {
        match (header_name(lines[0]), lookup(body, URL_KEY@), lookup(body, FETCH_KEY@)) {
            (Some(name), Some(url), Some(fetch)) => Section::Remote(
                RemoteEntry { name, url, fetch },
            ),
            _ => Section::Malformed,
        }
    }
}

/// The configuration that a run of sections amounts to.
pub open spec fn sections(fragments: Seq<Seq<char>>) -> ConfigView
    decreases fragments.len(),
{
    if fragments.len() == 0 {
        ConfigView { remotes: Seq::empty(), malformed: 0 }
    } else {
        let before = sections(fragments.drop_last());
        match section_of(fragments.last()) {
            Section::Other => before,
            Section::Malformed => ConfigView { malformed: before.malformed + 1, ..before },
            Section::Remote(entry) => ConfigView { remotes: before.remotes.push(entry), ..before },
        }
    }
}

/// The configuration that a text amounts to: its sections are what follows
/// each `[`; what stands before the first one belongs to none.
pub open spec fn parse_text(raw_text: Seq<char>) -> ConfigView {
    sections(split(raw_text, '[').skip(1))
}

/// A damaged section between other sections adds one to the count and
/// changes nothing else: the remotes before and after it are read as if it
/// were not there.
pub proof fn lemma_damaged_section_passed_over(
    before: Seq<Seq<char>>,
    damaged: Seq<char>,
    after: Seq<Seq<char>>,
)
    requires
        section_of(damaged) is Malformed,
    ensures
        sections(before.push(damaged) + after).remotes == sections(before + after).remotes,
        sections(before.push(damaged) + after).malformed == sections(before + after).malformed
            + 1,
    decreases after.len(),
{
    if after.len() == 0 {
        assert(before.push(damaged) + after =~= before.push(damaged));
        assert(before + after =~= before);
        assert(before.push(damaged).drop_last() =~= before);
    } else {
        let front = after.drop_last();
        lemma_damaged_section_passed_over(before, damaged, front);
        assert((before.push(damaged) + after).drop_last() =~= before.push(damaged) + front);
        assert((before + after).drop_last() =~= before + front);
        assert((before.push(damaged) + after).last() == after.last());
        assert((before + after).last() == after.last());
    }
}

/// A damaged `remote` section in a text adds one to the count and changes
/// nothing else: the text yields the remotes that it yields without that
/// section.
pub proof fn lemma_damaged_text_passed_over(
    before: Seq<char>,
    damaged: Seq<char>,
    after: Seq<char>,
)
    requires
        !damaged.contains('['),
        section_of(damaged) is Malformed,
    ensures
        parse_text(before.push('[') + damaged + seq!['['] + after).remotes == parse_text(
            before.push('[') + after,
        ).remotes,
        parse_text(before.push('[') + damaged + seq!['['] + after).malformed == parse_text(
            before.push('[') + after,
        ).malformed + 1,
{
    let with = before.push('[') + damaged + seq!['['] + after;
    let without = before.push('[') + after;
    let head = split(before, '[');
    let tail = split(after, '[');
    assert(with =~= (before.push('[') + damaged).push('[') + after);
    lemma_split_concat(before.push('[') + damaged, after, '[');
    lemma_split_concat(before, damaged, '[');
    lemma_split_clean(damaged, '[');
    lemma_split_concat(before, after, '[');
    lemma_split_nonempty(before, '[');
    assert(split(with, '[').skip(1) =~= head.skip(1).push(damaged) + tail);
    assert(split(without, '[').skip(1) =~= head.skip(1) + tail);
    lemma_damaged_section_passed_over(head.skip(1), damaged, tail);
}

/// A configuration never reports more damaged sections than it was given
/// sections.
pub proof fn lemma_sections_bounded(fragments: Seq<Seq<char>>)
    ensures
        sections(fragments).malformed + sections(fragments).remotes.len() <= fragments.len(),
    decreases fragments.len(),
{
    if fragments.len() > 0 {
        lemma_sections_bounded(fragments.drop_last());
    }
}

/// The hosts that the address parser finds in the addresses of `remotes`, one
/// for each remote.
pub open spec fn parsed_hosts(remotes: Seq<RemoteEntry>) -> Seq<Option<Seq<char>>> {
    Seq::new(remotes.len(), |i: int| host_of(url_parts(remotes[i].url)))
}

/// The hosts that a vector of hosts stands for.
pub open spec fn host_texts(hosts: Seq<Option<String>>) -> Seq<Option<Seq<char>>> {
    Seq::new(hosts.len(), |i: int| optional_text(hosts[i]))
}

/// Which of `hosts` is chosen: the last one that is BitBucket's.
pub open spec fn last_bitbucket(hosts: Seq<Option<Seq<char>>>) -> Option<int>
    decreases hosts.len(),
{
    if hosts.len() == 0 {
        None
    } else if hosts.last() == Some(BITBUCKET_HOST@) {
        Some(hosts.len() - 1)
    } else {
        last_bitbucket(hosts.drop_last())
    }
}

/// The remote that is chosen is on BitBucket and no remote after it is; none
/// is chosen only where none is on BitBucket.
pub proof fn lemma_last_bitbucket(hosts: Seq<Option<Seq<char>>>)
    ensures
        match last_bitbucket(hosts) {
            Some(i) => {
                &&& 0 <= i < hosts.len()
                &&& hosts[i] == Some(BITBUCKET_HOST@)
                &&& forall|j: int| i < j < hosts.len() ==> hosts[j] != Some(BITBUCKET_HOST@)
            },
            None => forall|j: int| 0 <= j < hosts.len() ==> hosts[j] != Some(BITBUCKET_HOST@),
        },
    decreases hosts.len(),
{
    if hosts.len() > 0 {
        let front = hosts.drop_last();
        lemma_last_bitbucket(front);
        assert(forall|j: int| 0 <= j < front.len() ==> front[j] == hosts[j]);
    }
}

/// Of two remotes of which one is on BitBucket and the other is not, the one
/// on BitBucket is chosen, whichever is declared first.
pub proof fn lemma_host_filtering(here: Option<Seq<char>>, elsewhere: Option<Seq<char>>)
    requires
        here == Some(BITBUCKET_HOST@),
        elsewhere != Some(BITBUCKET_HOST@),
    ensures
        last_bitbucket(seq![here, elsewhere]) == Some(0int),
        last_bitbucket(seq![elsewhere, here]) == Some(1int),
{
    lemma_last_bitbucket(seq![here, elsewhere]);
    lemma_last_bitbucket(seq![elsewhere, here]);
}

/// Of several remotes on BitBucket, the one declared last is chosen.
pub proof fn lemma_last_match(hosts: Seq<Option<Seq<char>>>, i: int)
    requires
        0 <= i < hosts.len(),
        hosts[i] == Some(BITBUCKET_HOST@),
    ensures
        last_bitbucket(hosts) is Some,
        last_bitbucket(hosts)->Some_0 >= i,
        hosts.last() == Some(BITBUCKET_HOST@) ==> last_bitbucket(hosts) == Some(hosts.len() - 1),
{
    lemma_last_bitbucket(hosts);
}

/// Chooses among remotes by the hosts of their addresses: the position of the
/// last host that is BitBucket's.
pub fn select_bitbucket(hosts: &Vec<Option<String>>) -> (r: Option<usize>)
    ensures
        match r {
            Some(i) => last_bitbucket(host_texts(hosts@)) == Some(i as int),
            None => last_bitbucket(host_texts(hosts@)) is None,
        },
{
    let mut found: Option<usize> = None;
    let mut i: usize = 0;
    let ghost all = host_texts(hosts@);
    assert(all.take(0) =~= Seq::<Option<Seq<char>>>::empty());
    while i < hosts.len()
        invariant
            i <= hosts.len(),
            all == host_texts(hosts@),
            match found {
                Some(k) => last_bitbucket(all.take(i as int)) == Some(k as int),
                None => last_bitbucket(all.take(i as int)) is None,
            },
        decreases hosts.len() - i,
    {
        proof {
            assert(all.take(i + 1).drop_last() =~= all.take(i as int));
            assert(all.take(i + 1).last() == optional_text(hosts@[i as int]));
        }
        if is_bitbucket_host(&hosts[i]) {
            found = Some(i);
        }
        i += 1;
    }
    assert(all.take(i as int) =~= all);
    found
}

impl GitConfig {
    /// The host of each remote's address, as the address parser finds it. An
    /// address that the parser rejects has none.
    pub fn remote_hosts(&self) -> (hosts: Vec<Option<String>>)
        ensures
            host_texts(hosts@) == parsed_hosts(self@.remotes),
    {
        let mut hosts: Vec<Option<String>> = Vec::new();
        let mut i: usize = 0;
        while i < self.remotes.len()
            invariant
                i <= self.remotes.len(),
                hosts.len() == i,
                forall|k: int|
                    0 <= k < i ==> optional_text(#[trigger] hosts@[k]) == host_of(
                        url_parts(self.remotes@[k].url@),
                    ),
            decreases self.remotes.len() - i,
        {
            let host = match parse_url(self.remotes[i].url.as_str()) {
                Ok(parts) => parts.host,
                Err(_) => None,
            };
            hosts.push(host);
            i += 1;
        }
        assert(host_texts(hosts@) =~= parsed_hosts(self@.remotes));
        hosts
    }

    /// The remote that lives on BitBucket: the last one whose address the
    /// address parser accepts and finds to have BitBucket's host.
    pub fn find_bitbucket_remote(&self) -> (r: Option<&GitRemote>)
        ensures
            match last_bitbucket(parsed_hosts(self@.remotes)) {
                Some(i) => r == Some(&self.remotes@[i]),
                None => r is None,
            },
    {
        let hosts = self.remote_hosts();
        proof {
            lemma_last_bitbucket(host_texts(hosts@));
        }
        match select_bitbucket(&hosts) {
            Some(i) => Some(&self.remotes[i]),
            None => None,
        }
    }
}

/// What came of trying to read the configuration file.
#[derive(Debug, PartialEq, Eq)]
pub enum ConfigRead {
    /// The file's text.
    Text(String),
    /// There is no such file.
    NotFound,
    /// The file is there and could not be read; the cause is kept as text.
    Unreadable(String),
}

/// Turns the outcome of reading the configuration file into a configuration.
/// A text always gives one; a file that is missing or unreadable gives the
/// error that says so.
pub fn parse_local(read: ConfigRead) -> (r: Result<GitConfig, BrowseError>)
    ensures
        match read {
            ConfigRead::Text(text) => r is Ok && r->Ok_0@ == parse_text(text@),
            ConfigRead::NotFound => r == Err::<GitConfig, BrowseError>(BrowseError::ConfigNotFound),
            ConfigRead::Unreadable(cause) => r == Err::<GitConfig, BrowseError>(
                BrowseError::ConfigUnreadable(cause),
            ),
        },
{
    match read {
        ConfigRead::Text(text) => Ok(parse(text.as_str())),
        ConfigRead::NotFound => Err(BrowseError::ConfigNotFound),
        ConfigRead::Unreadable(cause) => Err(BrowseError::ConfigUnreadable(cause)),
    }
}

/// One section, as read.
#[derive(Debug, PartialEq, Eq)]
pub enum SectionRead {
    Other,
    Malformed,
    Remote(GitRemote),
}

impl View for SectionRead {
    type V = Section;

    open spec fn view(&self) -> Section {
        match self {
            SectionRead::Other => Section::Other,
            SectionRead::Malformed => Section::Malformed,
            SectionRead::Remote(remote) => Section::Remote(remote@),
        }
    }
}

fn find_value(lines: &Vec<Vec<char>>, key: &str) -> (r: Option<String>)
    requires
        lines.len() >= 1,
    ensures
        match r {
            Some(value) => lookup(rows(lines@).skip(1), key@) == Some(value@),
            None => lookup(rows(lines@).skip(1), key@) is None,
        },
{
    let mut opening = chars_of(key);
    let mut separator = chars_of(KEY_VALUE_SEPARATOR);
    opening.append(&mut separator);
    let mut found: Option<String> = None;
    let mut i: usize = 1;
    assert(rows(lines@).subrange(1, 1) =~= Seq::<Seq<char>>::empty());
    while i < lines.len()
        invariant
            1 <= i <= lines.len(),
            opening@ == key@ + KEY_VALUE_SEPARATOR@,
            match found {
                Some(value) => lookup(rows(lines@).subrange(1, i as int), key@) == Some(value@),
                None => lookup(rows(lines@).subrange(1, i as int), key@) is None,
            },
        decreases lines.len() - i,
    {
        let line = &lines[i];
        proof {
            let upto = rows(lines@).subrange(1, i + 1);
            assert(upto.drop_last() =~= rows(lines@).subrange(1, i as int));
            assert(upto.last() == line@);
        }
        if has_prefix(line, &opening) {
            found = Some(string_of(line, opening.len(), line.len()));
        }
        i += 1;
    }
    assert(rows(lines@).subrange(1, i as int) =~= rows(lines@).skip(1));
    found
}

fn read_name(header: &Vec<char>) -> (r: Option<String>)
    ensures
        match r {
            Some(name) => header_name(header@) == Some(name@),
            None => header_name(header@) is None,
        },
{
    let words = split_chars(header, ' ');
    if words.len() < 2 {
        return None;
    }
    assert(rows(words@)[1] == words@[1]@);
    Some(text_of(&remove_chars(&words[1], '"', '"')))
}

/// Reads the text between one `[` and the next.
pub fn read_section(fragment: &Vec<char>) -> (r: SectionRead)
    ensures
        r@ == section_of(fragment@),
{
    let lines = split_chars(&remove_chars(fragment, '\t', ']'), '\n');
    assert(rows(lines@)[0] == lines@[0]@);
    if !has_prefix(&lines[0], &chars_of(REMOTE_KEYWORD)) {
        return SectionRead::Other;
    }
    let name = read_name(&lines[0]);
    let url = find_value(&lines, URL_KEY);
    let fetch = find_value(&lines, FETCH_KEY);
    match (name, url, fetch) {
        (Some(name), Some(url), Some(fetch)) => SectionRead::Remote(GitRemote { name, url, fetch }),
        _ => SectionRead::Malformed,
    }
}

/// Reads a configuration text. Every text is accepted: a damaged `remote`
/// section is counted and otherwise passed over, and the sections around it
/// are read as if it were not there.
pub fn parse(raw_text: &str) -> (config: GitConfig)
    ensures
        config@ == parse_text(raw_text@),
{
    let fragments = split_chars(&chars_of(raw_text), '[');
    let mut remotes: Vec<GitRemote> = Vec::new();
    let mut malformed: usize = 0;
    let mut i: usize = 1;
    let ghost all = rows(fragments@);
    assert(all.subrange(1, 1) =~= Seq::<Seq<char>>::empty());
    assert((GitConfig { remotes, malformed })@.remotes =~= Seq::<RemoteEntry>::empty());
    while i < fragments.len()
        invariant
            1 <= i <= fragments.len(),
            all == rows(fragments@),
            (GitConfig { remotes, malformed })@ == sections(all.subrange(1, i as int)),
        decreases fragments.len() - i,
    {
        let ghost before = (GitConfig { remotes, malformed })@;
        proof {
            let upto = all.subrange(1, i + 1);
            assert(upto.drop_last() =~= all.subrange(1, i as int));
            assert(upto.last() == fragments@[i as int]@);
            lemma_sections_bounded(upto);
        }
        match read_section(&fragments[i]) {
            SectionRead::Other => {},
            SectionRead::Malformed => {
                malformed += 1;
            },
            SectionRead::Remote(remote) => {
                remotes.push(remote);
                assert((GitConfig { remotes, malformed })@.remotes =~= before.remotes.push(
                    remote@,
                ));
            },
        }
        i += 1;
    }
    assert(all.subrange(1, i as int) =~= all.skip(1));
    GitConfig { remotes, malformed }
}

} // verus!
