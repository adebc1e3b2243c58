use bitbucket_browse::error::BrowseError;
use bitbucket_browse::git_config::{
    parse, parse_local, read_section, select_bitbucket, ConfigRead, GitConfig, GitRemote,
    SectionRead,
};

const TYPICAL: &str = "[core]\n\trepositoryformatversion = 0\n\tbare = false\n[remote \"origin\"]\n\turl = https://bitbucket.org/acme/widgets.git\n\tfetch = +refs/heads/*:refs/remotes/origin/*\n[branch \"main\"]\n\tremote = origin\n\tmerge = refs/heads/main\n";

fn remote(name: &str, url: &str, fetch: &str) -> GitRemote {
    GitRemote { name: name.to_string(), url: url.to_string(), fetch: fetch.to_string() }
}

fn section(name: &str, url: &str) -> String {
    format!("[remote \"{}\"]\n\turl = {}\n\tfetch = +refs/heads/*:refs/remotes/{}/*\n", name, url, name)
}

#[test]
fn parse_reads_the_remote_of_a_typical_configuration() {
    let config = parse(TYPICAL);
    assert_eq!(
        config,
        GitConfig {
            remotes: vec![remote(
                "origin",
                "https://bitbucket.org/acme/widgets.git",
                "+refs/heads/*:refs/remotes/origin/*"
            )],
            malformed: 0,
        }
    );
}

#[test]
fn parse_of_empty_text_has_no_remotes() {
    assert_eq!(parse(""), GitConfig { remotes: vec![], malformed: 0 });
}

#[test]
fn parse_ignores_text_before_the_first_section() {
    let text = format!("remote \"stray\"\nurl = x\nfetch = y\n{}", section("origin", "https://bitbucket.org/a/b"));
    let config = parse(&text);
    assert_eq!(config.remotes.len(), 1);
    assert_eq!(config.remotes[0].name, "origin");
}

#[test]
fn parse_keeps_the_order_of_declaration() {
    let text = format!(
        "{}{}{}",
        section("one", "https://example.com/a/b"),
        section("two", "https://bitbucket.org/c/d"),
        section("three", "https://github.com/e/f")
    );
    let config = parse(&text);
    let names: Vec<&str> = config.remotes.iter().map(|r| r.name.as_str()).collect();
    assert_eq!(names, vec!["one", "two", "three"]);
    assert_eq!(config.malformed, 0);
}

#[test]
fn parse_finds_keys_in_any_order() {
    let text = "[remote \"origin\"]\n\tfetch = +refs/heads/*:refs/remotes/origin/*\n\tpushurl = elsewhere\n\turl = https://bitbucket.org/acme/widgets.git\n";
    let config = parse(text);
    assert_eq!(
        config.remotes,
        vec![remote(
            "origin",
            "https://bitbucket.org/acme/widgets.git",
            "+refs/heads/*:refs/remotes/origin/*"
        )]
    );
}

#[test]
fn parse_takes_the_last_value_of_a_repeated_key() {
    let text = "[remote \"origin\"]\n\turl = first\n\turl = second\n\tfetch = f\n";
    assert_eq!(parse(text).remotes, vec![remote("origin", "second", "f")]);
}

#[test]
fn parse_keeps_everything_after_the_first_separator() {
    let text = "[remote \"origin\"]\n\turl = a = b\n\tfetch = f\n";
    assert_eq!(parse(text).remotes, vec![remote("origin", "a = b", "f")]);
}

#[test]
fn parse_counts_a_section_without_fetch_as_malformed() {
    let text = "[remote \"broken\"]\n\turl = https://bitbucket.org/acme/widgets.git\n";
    assert_eq!(parse(text), GitConfig { remotes: vec![], malformed: 1 });
}

#[test]
fn parse_counts_a_section_without_url_as_malformed() {
    let text = "[remote \"broken\"]\n\tfetch = +refs/heads/*:refs/remotes/origin/*\n";
    assert_eq!(parse(text), GitConfig { remotes: vec![], malformed: 1 });
}

#[test]
fn parse_counts_a_section_without_name_as_malformed() {
    let text = "[remote]\n\turl = u\n\tfetch = f\n";
    assert_eq!(parse(text), GitConfig { remotes: vec![], malformed: 1 });
}

#[test]
fn parse_counts_a_bare_header_as_malformed() {
    assert_eq!(parse("[remote \"x\"]"), GitConfig { remotes: vec![], malformed: 1 });
}

#[test]
fn malformed_section_does_not_hide_its_neighbours() {
    let broken = "[remote \"broken\"]\n\turl = https://bitbucket.org/other/thing.git\n";
    let origin = section("origin", "https://bitbucket.org/acme/widgets.git");
    for text in [format!("{}{}", origin, broken), format!("{}{}", broken, origin)] {
        let config = parse(&text);
        assert_eq!(config.malformed, 1);
        assert_eq!(config.remotes.len(), 1);
        assert_eq!(config.remotes[0].name, "origin");
        let chosen = config.find_bitbucket_remote();
        assert_eq!(chosen.map(|r| r.url.as_str()), Some("https://bitbucket.org/acme/widgets.git"));
    }
}

#[test]
fn read_section_tells_the_three_kinds_apart() {
    let other: Vec<char> = "core]\n\tbare = false\n".chars().collect();
    assert_eq!(read_section(&other), SectionRead::Other);
    let broken: Vec<char> = "remote \"x\"]\n\turl = u\n".chars().collect();
    assert_eq!(read_section(&broken), SectionRead::Malformed);
    let good: Vec<char> = "remote \"x\"]\n\turl = u\n\tfetch = f\n".chars().collect();
    assert_eq!(read_section(&good), SectionRead::Remote(remote("x", "u", "f")));
}

#[test]
fn read_section_ignores_tabs_and_closing_brackets_everywhere() {
    let odd: Vec<char> = "re\tmote \"x]y\"]\nurl\t = u]v\n\t\tfetch = f\n".chars().collect();
    assert_eq!(read_section(&odd), SectionRead::Remote(remote("xy", "uv", "f")));
}

#[test]
fn read_section_takes_the_second_word_as_the_name() {
    let spaced: Vec<char> = "remote \"my origin\"]\nurl = u\nfetch = f\n".chars().collect();
    assert_eq!(read_section(&spaced), SectionRead::Remote(remote("my", "u", "f")));
}

#[test]
fn read_section_does_not_trim_spaces_before_a_key() {
    let indented: Vec<char> = "remote \"x\"]\n    url = u\n    fetch = f\n".chars().collect();
    assert_eq!(read_section(&indented), SectionRead::Malformed);
}

#[test]
fn selector_returns_the_bitbucket_remote_in_either_order() {
    let github = section("upstream", "https://github.com/acme/widgets.git");
    let bitbucket = section("origin", "https://bitbucket.org/acme/widgets.git");
    for text in [format!("{}{}", github, bitbucket), format!("{}{}", bitbucket, github)] {
        let config = parse(&text);
        let chosen = config.find_bitbucket_remote().expect("one remote is on BitBucket");
        assert_eq!(chosen.name, "origin");
        assert_eq!(chosen.url, "https://bitbucket.org/acme/widgets.git");
    }
}

#[test]
fn selector_returns_the_last_of_several_bitbucket_remotes() {
    let text = format!(
        "{}{}",
        section("first", "https://bitbucket.org/alpha/one.git"),
        section("second", "https://bitbucket.org/beta/two.git")
    );
    let config = parse(&text);
    let chosen = config.find_bitbucket_remote().expect("both remotes are on BitBucket");
    assert_eq!(chosen.name, "second");
    assert_eq!(chosen.url, "https://bitbucket.org/beta/two.git");
}

#[test]
fn selector_finds_nothing_without_a_bitbucket_remote() {
    let config = parse(&section("origin", "https://github.com/acme/widgets.git"));
    assert_eq!(config.find_bitbucket_remote(), None);
    assert_eq!(parse("").find_bitbucket_remote(), None);
}

#[test]
fn selector_passes_over_an_address_that_does_not_parse() {
    let config = GitConfig {
        remotes: vec![
            remote("good", "https://bitbucket.org/acme/widgets.git", "f"),
            remote("bad", "not an address", "f"),
            remote("short", "git@bitbucket.org:acme/widgets.git", "f"),
        ],
        malformed: 0,
    };
    assert_eq!(config.find_bitbucket_remote().map(|r| r.name.as_str()), Some("good"));
}

#[test]
fn selector_compares_the_host_as_the_parser_gives_it() {
    let config = GitConfig {
        remotes: vec![
            remote("sub", "https://api.bitbucket.org/acme/widgets.git", "f"),
            remote("path", "https://example.com/bitbucket.org/widgets.git", "f"),
        ],
        malformed: 0,
    };
    assert_eq!(config.find_bitbucket_remote(), None);
    let ssh = GitConfig {
        remotes: vec![remote("origin", "ssh://git@bitbucket.org/acme/widgets.git", "f")],
        malformed: 0,
    };
    assert_eq!(ssh.find_bitbucket_remote().map(|r| r.name.as_str()), Some("origin"));
}

#[test]
fn remote_hosts_gives_one_host_for_each_remote() {
    let config = GitConfig {
        remotes: vec![
            remote("a", "https://bitbucket.org/acme/widgets.git", "f"),
            remote("b", "nonsense", "f"),
            remote("c", "mailto:someone@example.com", "f"),
            remote("d", "https://user@GitHub.com:443/x/y", "f"),
        ],
        malformed: 0,
    };
    assert_eq!(
        config.remote_hosts(),
        vec![Some("bitbucket.org".to_string()), None, None, Some("github.com".to_string())]
    );
}

#[test]
fn select_bitbucket_picks_the_last_matching_host() {
    let bb = || Some("bitbucket.org".to_string());
    let gh = || Some("github.com".to_string());
    assert_eq!(select_bitbucket(&vec![]), None);
    assert_eq!(select_bitbucket(&vec![gh(), None]), None);
    assert_eq!(select_bitbucket(&vec![bb(), gh()]), Some(0));
    assert_eq!(select_bitbucket(&vec![gh(), bb()]), Some(1));
    assert_eq!(select_bitbucket(&vec![bb(), gh(), bb(), None]), Some(2));
    assert_eq!(select_bitbucket(&vec![Some("Bitbucket.org".to_string())]), None);
}

#[test]
fn parse_local_reports_a_missing_file() {
    assert_eq!(parse_local(ConfigRead::NotFound), Err(BrowseError::ConfigNotFound));
}

#[test]
fn parse_local_reports_an_unreadable_file_with_its_cause() {
    assert_eq!(
        parse_local(ConfigRead::Unreadable("permission denied".to_string())),
        Err(BrowseError::ConfigUnreadable("permission denied".to_string()))
    );
}

#[test]
fn parse_local_parses_the_text_it_is_given() {
    assert_eq!(parse_local(ConfigRead::Text(TYPICAL.to_string())), Ok(parse(TYPICAL)));
}
