use reactions::text::chars_of;
use reactions::text::decimal_string;
use reactions::text::has_prefix;
use reactions::text::replace_all;
use reactions::text::split_once;

#[test]
fn decimal_of_small_and_large_numbers() {
    assert_eq!(decimal_string(0), "0");
    assert_eq!(decimal_string(7), "7");
    assert_eq!(decimal_string(10), "10");
    assert_eq!(decimal_string(120), "120");
    assert_eq!(decimal_string(1_000_000_007), "1000000007");
    assert_eq!(decimal_string(u64::MAX), "18446744073709551615");
}

#[test]
fn decimal_agrees_with_the_standard_formatting() {
    let mut n: u64 = 1;
    while n < u64::MAX / 7 {
        assert_eq!(decimal_string(n), format!("{}", n));
        assert_eq!(decimal_string(n - 1), format!("{}", n - 1));
        n *= 7;
    }
}

#[test]
fn chars_are_listed_in_order() {
    assert_eq!(chars_of(""), Vec::<char>::new());
    assert_eq!(chars_of("a\u{2022}b"), vec!['a', '\u{2022}', 'b']);
}

#[test]
fn prefix_is_exact_and_case_sensitive() {
    assert!(has_prefix("reaction", "reaction"));
    assert!(has_prefix("reaction2", "reaction"));
    assert!(has_prefix("reactionary", "reaction"));
    assert!(has_prefix("anything", ""));
    assert!(has_prefix("", ""));
    assert!(!has_prefix("react", "reaction"));
    assert!(!has_prefix("Reaction", "reaction"));
    assert!(!has_prefix("a reaction", "reaction"));
    assert!(!has_prefix("", "reaction"));
}

#[test]
fn split_cuts_at_the_first_separator_only() {
    assert_eq!(split_once("giphy/hug", '/'), Some(("giphy", "hug")));
    assert_eq!(split_once("giphy/anime/hug", '/'), Some(("giphy", "anime/hug")));
    assert_eq!(split_once("/hug", '/'), Some(("", "hug")));
    assert_eq!(split_once("giphy/", '/'), Some(("giphy", "")));
    assert_eq!(split_once("/", '/'), Some(("", "")));
    assert_eq!(split_once("g\u{e9}phy/h\u{fc}g", '/'), Some(("g\u{e9}phy", "h\u{fc}g")));
}

#[test]
fn split_without_separator_gives_nothing() {
    assert_eq!(split_once("giphy", '/'), None);
    assert_eq!(split_once("", '/'), None);
}

#[test]
fn replace_all_occurrences_from_the_left() {
    assert_eq!(replace_all("{user} hugs {user}", "{user}", "<@1>"), "<@1> hugs <@1>");
    assert_eq!(replace_all("no placeholder", "{user}", "<@1>"), "no placeholder");
    assert_eq!(replace_all("{user}", "{user}", ""), "");
    assert_eq!(replace_all("aaa", "aa", "b"), "ba");
    assert_eq!(replace_all("aaaa", "aa", "b"), "bb");
    assert_eq!(replace_all("abab", "ab", "abab"), "abababab");
    assert_eq!(replace_all("x{user", "{user}", "<@1>"), "x{user");
    assert_eq!(replace_all("", "{user}", "<@1>"), "");
    assert_eq!(replace_all("ab", "abc", "x"), "ab");
    assert_eq!(replace_all("\u{2022}{user}\u{2022}", "{user}", "\u{e9}"), "\u{2022}\u{e9}\u{2022}");
}

#[test]
fn replace_with_empty_pattern_changes_nothing() {
    assert_eq!(replace_all("abc", "", "x"), "abc");
}

#[test]
fn replace_agrees_with_the_standard_replace() {
    let texts = ["{user} pats {target}", "{{user}}", "{user}{user}{target}", "{use{user}r}", "}{user"];
    for text in texts {
        assert_eq!(replace_all(text, "{user}", "<@42>"), text.replace("{user}", "<@42>"));
        assert_eq!(replace_all(text, "{target}", "<@7>"), text.replace("{target}", "<@7>"));
    }
}
