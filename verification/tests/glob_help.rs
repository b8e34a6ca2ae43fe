use ff_router::installer::glob_help::{describe, tokenize, Kind};

fn kinds(pattern: &str) -> Vec<Kind> {
    tokenize(pattern).into_iter().map(|t| t.kind).collect()
}

#[test]
fn tokenizes_star_and_question() {
    assert_eq!(
        kinds("*a?b"),
        vec![Kind::Star, Kind::Literal, Kind::Any, Kind::Literal]
    );
    let toks = tokenize("*a?b");
    assert_eq!(toks[1].text, "a");
    assert_eq!(toks[3].text, "b");
}

#[test]
fn tokenizes_class_with_negation_and_range() {
    let toks = tokenize("x[!a-z]y[abc]");
    assert_eq!(toks[0].text, "x");
    assert_eq!(
        toks[1].kind,
        Kind::Class {
            negated: true,
            body: "a-z".into()
        }
    );
    assert_eq!(toks[1].text, "[!a-z]");
    assert_eq!(
        toks[3].kind,
        Kind::Class {
            negated: false,
            body: "abc".into()
        }
    );
}

#[test]
fn tokenizes_alternation() {
    let toks = tokenize("{com,net,org}");
    assert_eq!(
        toks[0].kind,
        Kind::Alt {
            parts: vec!["com".into(), "net".into(), "org".into()]
        }
    );
    assert_eq!(toks[0].text, "{com,net,org}");
}

#[test]
fn escaped_metacharacter_is_literal() {
    let toks = tokenize(r"a\*b");
    assert_eq!(toks[1].kind, Kind::Escaped);
    assert_eq!(toks[1].text, r"\*");
}

#[test]
fn unterminated_class_and_alt_are_literal() {
    assert_eq!(kinds("a[b"), vec![Kind::Literal]);
    assert_eq!(tokenize("a[b")[0].text, "a[b");
    assert_eq!(kinds("a{b"), vec![Kind::Literal]);
}

#[test]
fn describes_exact_url_for_bare_pattern() {
    assert_eq!(
        describe("github.com"),
        "matches only the exact URL \u{201c}github.com\u{201d}"
    );
}

#[test]
fn describes_wildcards() {
    assert_eq!(
        describe("*partly.com/*"),
        "matches any URL made of: any text, then \u{201c}partly.com/\u{201d}, then any text"
    );
    assert!(describe("*://*.atlassian.net/*").contains("\u{201c}://\u{201d}"));
    assert!(describe("a?b").contains("any single character"));
}

#[test]
fn describes_class_and_alternation() {
    assert!(describe("[!a-z]").contains("one character not in the set [a-z]"));
    assert!(describe("{a,b}").contains("either \u{201c}a\u{201d} or \u{201c}b\u{201d}"));
    assert!(describe("{a,b,c}")
        .contains("\u{201c}a\u{201d}, \u{201c}b\u{201d}, or \u{201c}c\u{201d}"));
}

#[test]
fn escaped_star_is_described_as_literal() {
    assert!(describe(r"a\*").contains("a literal \u{201c}*\u{201d}"));
}

#[test]
fn tokens_rebuild_the_pattern() {
    for p in ["*://*.atlassian.net/*", "x[!a-z]y{a,b}\\*z", "a[b", "a{b", "{}", "[]]", "\\"] {
        let joined: String = tokenize(p).into_iter().map(|t| t.text).collect();
        assert_eq!(joined, p);
    }
}

#[test]
fn empty_pattern_has_no_tokens() {
    assert!(tokenize("").is_empty());
}

#[test]
fn literal_runs_are_never_split() {
    for p in ["abc*def", "a\\*b", "x[!a-z]y{a,b}z", "a[b", "a{b", "plain text"] {
        let toks = tokenize(p);
        for (k, t) in toks.iter().enumerate() {
            if t.kind == Kind::Literal {
                assert!(!t.text.is_empty());
                if k + 1 < toks.len() {
                    assert_ne!(toks[k + 1].kind, Kind::Literal);
                }
            }
        }
    }
}
