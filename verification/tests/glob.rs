use ff_router::router::glob;

#[test]
fn star_and_question() {
    assert!(glob::matches("*", "anything/at/all"));
    assert!(glob::matches(
        "*://*.atlassian.net/*",
        "https://team.atlassian.net/browse/X"
    ));
    assert!(glob::matches(
        "https://github.com/partly*",
        "https://github.com/partly/repo"
    ));
    assert!(glob::matches("a?c", "abc"));
    assert!(!glob::matches("a?c", "ac"));
    assert!(!glob::matches(
        "https://github.com/partly*",
        "https://github.com/other"
    ));
}

#[test]
fn anchoring() {
    assert!(glob::matches("abc", "abc"));
    assert!(!glob::matches("abc", "abcd"));
    assert!(!glob::matches("abc", "0abc"));
    assert!(glob::matches("a*c", "abbbbc"));
}

#[test]
fn classes() {
    assert!(glob::matches("[abc]", "b"));
    assert!(!glob::matches("[abc]", "d"));
    assert!(glob::matches("[a-z]*", "hello"));
    assert!(glob::matches("[!0-9]*", "hello"));
    assert!(!glob::matches("[!0-9]*", "1abc"));
    assert!(glob::matches("v[0-9].[0-9]", "v1.2"));
}

#[test]
fn braces() {
    assert!(glob::matches(
        "*.{slack,zoom,notion}.com/*",
        "https://x.slack.com/y"
    ));
    assert!(glob::matches(
        "*.{slack,zoom,notion}.com/*",
        "https://x.notion.com/y"
    ));
    assert!(!glob::matches("*.{slack,zoom}.com/*", "https://x.teams.com/y"));
    assert!(glob::matches("a{b,c}d", "abd"));
    assert!(glob::matches("a{b,{c,d}}e", "ade"));
}

#[test]
fn star_matches_the_empty_text_too() {
    assert!(glob::matches("*", ""));
    assert!(glob::matches("**", "x/y"));
}

#[test]
fn question_needs_exactly_one_character() {
    assert!(glob::matches("?", "x"));
    assert!(!glob::matches("?", ""));
    assert!(!glob::matches("?", "xy"));
}

#[test]
fn plain_pattern_matches_only_itself() {
    assert!(glob::matches("github.com", "github.com"));
    assert!(!glob::matches("github.com", "github.co"));
    assert!(!glob::matches("github.com", "Github.com"));
}

#[test]
fn caret_negates_a_class_and_leading_bracket_is_literal() {
    assert!(glob::matches("[^0-9]", "a"));
    assert!(!glob::matches("[^0-9]", "5"));
    assert!(glob::matches("[]]", "]"));
    assert!(glob::matches("[a-]", "-"));
}

#[test]
fn unclosed_class_is_a_literal_bracket() {
    assert!(glob::matches("a[b", "a[b"));
    assert!(!glob::matches("a[b", "ab"));
}

#[test]
fn brace_group_without_comma_is_literal() {
    assert!(glob::matches("a{b}c", "a{b}c"));
    assert!(!glob::matches("a{b}c", "abc"));
    assert!(glob::matches("a{b", "a{b"));
}

#[test]
fn empty_alternative_matches_nothing_there() {
    assert!(glob::matches("a{,b}c", "ac"));
    assert!(glob::matches("a{,b}c", "abc"));
}

#[test]
fn star_backtracks_over_repeated_suffix() {
    assert!(glob::matches("*ab", "aab"));
    assert!(glob::matches("*a*b*c", "xaybzc"));
    assert!(!glob::matches("*a*b*c", "xaybz"));
}

#[test]
fn two_way_group_matches_either_expansion() {
    for t in ["https://x.slack.com/y", "https://x.zoom.com/y", "https://x.teams.com/y", ""] {
        assert_eq!(
            glob::matches("*.{slack,zoom}.com/*", t),
            glob::matches("*.slack.com/*", t) || glob::matches("*.zoom.com/*", t)
        );
    }
}
