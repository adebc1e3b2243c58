use bitbucket_browse::text::{
    chars_of, find_first, has_prefix, has_suffix, keep_filled, remove_chars, same_chars, slice_of,
    split_chars, string_of, trim_suffix_chars,
};

fn chars(s: &str) -> Vec<char> {
    s.chars().collect()
}

fn pieces(parts: &[&str]) -> Vec<Vec<char>> {
    parts.iter().map(|p| chars(p)).collect()
}

#[test]
fn chars_of_gives_every_character() {
    assert_eq!(chars_of(""), Vec::<char>::new());
    assert_eq!(chars_of("a\u{e9}\u{1f600}z"), vec!['a', '\u{e9}', '\u{1f600}', 'z']);
}

#[test]
fn string_of_and_slice_of_take_a_range() {
    let v = chars("hello world");
    assert_eq!(string_of(&v, 0, v.len()), "hello world");
    assert_eq!(string_of(&v, 6, 11), "world");
    assert_eq!(string_of(&v, 3, 3), "");
    assert_eq!(slice_of(&v, 1, 4), chars("ell"));
}

#[test]
fn split_chars_agrees_with_the_standard_split() {
    for s in ["", "a", "/", "a/b", "/a/b", "a/b/", "//", "a//b", "no separator here"] {
        let expected: Vec<Vec<char>> = s.split('/').map(chars).collect();
        assert_eq!(split_chars(&chars(s), '/'), expected, "{:?}", s);
    }
}

#[test]
fn split_chars_examples() {
    assert_eq!(split_chars(&chars(""), ','), pieces(&[""]));
    assert_eq!(split_chars(&chars("a,b,,c"), ','), pieces(&["a", "b", "", "c"]));
    assert_eq!(split_chars(&chars(",x,"), ','), pieces(&["", "x", ""]));
}

#[test]
fn joining_what_was_split_gives_the_text_back() {
    for s in ["", "a", ",", "a,b,,c", ",x,"] {
        let parts: Vec<String> = split_chars(&chars(s), ',').iter().map(|p| p.iter().collect()).collect();
        assert_eq!(parts.join(","), s);
    }
}

#[test]
fn keep_filled_drops_the_empty_pieces() {
    assert_eq!(keep_filled(pieces(&["", "a", "", "", "b", ""])), pieces(&["a", "b"]));
    assert_eq!(keep_filled(pieces(&["", ""])), pieces(&[]));
}

#[test]
fn remove_chars_drops_both_characters() {
    assert_eq!(remove_chars(&chars("\ta]b\t]c"), '\t', ']'), chars("abc"));
    assert_eq!(remove_chars(&chars("\"origin\""), '"', '"'), chars("origin"));
    assert_eq!(remove_chars(&chars(""), 'a', 'b'), chars(""));
}

#[test]
fn prefix_and_suffix() {
    assert!(has_prefix(&chars("remote \"x\""), &chars("remote")));
    assert!(has_prefix(&chars("remote"), &chars("remote")));
    assert!(has_prefix(&chars("abc"), &chars("")));
    assert!(!has_prefix(&chars("remot"), &chars("remote")));
    assert!(!has_prefix(&chars(" remote"), &chars("remote")));
    assert!(has_suffix(&chars("widgets.git"), &chars(".git")));
    assert!(has_suffix(&chars(".git"), &chars(".git")));
    assert!(!has_suffix(&chars("git"), &chars(".git")));
    assert!(!has_suffix(&chars("widgets.git "), &chars(".git")));
    assert!(same_chars(&chars("abc"), &chars("abc")));
    assert!(!same_chars(&chars("abc"), &chars("abcd")));
    assert!(!same_chars(&chars("abcd"), &chars("abc")));
    assert!(!same_chars(&chars("abc"), &chars("abd")));
}

#[test]
fn find_first_gives_the_position_or_the_length() {
    assert_eq!(find_first(&chars("a:b:c"), ':'), 1);
    assert_eq!(find_first(&chars(":"), ':'), 0);
    assert_eq!(find_first(&chars("abc"), ':'), 3);
    assert_eq!(find_first(&chars(""), ':'), 0);
}

#[test]
fn trim_suffix_chars_takes_every_trailing_copy() {
    let git = chars(".git");
    assert_eq!(trim_suffix_chars(chars("widgets.git"), &git), chars("widgets"));
    assert_eq!(trim_suffix_chars(chars("widgets.git.git"), &git), chars("widgets"));
    assert_eq!(trim_suffix_chars(chars("my.github"), &git), chars("my.github"));
    assert_eq!(trim_suffix_chars(chars(".git"), &git), chars(""));
    assert_eq!(trim_suffix_chars(chars("widgets"), &chars("")), chars("widgets"));
}
