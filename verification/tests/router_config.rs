use ff_router::router::config::{explain, include_path, may_follow_extends, resolve, rule_verdict, Config, Opener, Rule};
use ff_router::strmap::StrMap;

fn s(x: &str) -> String {
    x.to_string()
}

fn strings(xs: &[&str]) -> Vec<String> {
    xs.iter().map(|x| x.to_string()).collect()
}

/// The sample configuration: a `personal` default, two profiles and two
/// rules routing work URLs to `work`.
fn cfg() -> Config {
    let mut profiles = StrMap::new();
    profiles.insert(s("work"), s("qtIifLeX.Profile 1"));
    profiles.insert(s("personal"), s("dhutbqgo.default-release"));
    let rules = vec![
        Rule::new(
            s("work"),
            strings(&["*://*.atlassian.net/*", "*.slack.com/*"]),
            Vec::new(),
        ),
        Rule::new(s("work"), strings(&["*://github.com/partly*"]), Vec::new()),
    ];
    Config::new(None, Some(s("personal")), profiles, rules)
}

/// A configuration with one URL rule to `work` and no default.
fn work_only() -> Config {
    Config::new(
        None,
        None,
        StrMap::new(),
        vec![Rule::new(s("work"), strings(&["*.work.com/*"]), Vec::new())],
    )
}

fn opener(bundle_id: &str, name: &str) -> Opener {
    Opener {
        bundle_id: Some(bundle_id.into()),
        name: Some(name.into()),
    }
}

#[test]
fn first_matching_rule_wins() {
    assert_eq!(
        cfg().label_for("https://team.atlassian.net/browse/X", None),
        Some("work")
    );
    assert_eq!(
        cfg().label_for("https://foo.slack.com/messages", None),
        Some("work")
    );
    assert_eq!(
        cfg().label_for("https://github.com/partly/repo", None),
        Some("work")
    );
}

#[test]
fn unmatched_falls_back_to_default() {
    assert_eq!(
        cfg().label_for("https://www.youtube.com/watch", None),
        Some("personal")
    );
    assert_eq!(
        cfg().label_for("https://github.com/someone-else", None),
        Some("personal")
    );
}

#[test]
fn no_default_and_no_match_is_none() {
    assert_eq!(work_only().label_for("https://example.com", None), None);
}

#[test]
fn source_glob_matches_bundle_id_or_name() {
    let c = Config::new(
        None,
        Some(s("personal")),
        StrMap::new(),
        vec![Rule::new(
            s("work"),
            Vec::new(),
            strings(&["com.tinyspeck.*", "Microsoft Outlook"]),
        )],
    );

    let slack = opener("com.tinyspeck.slackmacgap", "Slack");
    assert_eq!(
        c.label_for("https://example.com", Some(&slack)),
        Some("work")
    );

    let outlook = opener("com.microsoft.Outlook", "Microsoft Outlook");
    assert_eq!(
        c.label_for("https://example.com", Some(&outlook)),
        Some("work")
    );

    let mail = opener("com.apple.mail", "Mail");
    assert_eq!(
        c.label_for("https://example.com", Some(&mail)),
        Some("personal")
    );

    assert_eq!(c.label_for("https://example.com", None), Some("personal"));
}

#[test]
fn debug_flag_defaults_off_and_parses() {
    assert!(!Config::new(None, Some(s("p")), StrMap::new(), Vec::new()).is_debug());
    assert!(Config::new(Some(true), Some(s("p")), StrMap::new(), Vec::new()).is_debug());
}

#[test]
fn decide_explains_a_rule_match() {
    let d = cfg().decide("https://foo.slack.com/x", None, Some("/Users/test"));
    assert!(d.profile.is_some());
    assert!(
        d.explanation
            .starts_with("matched rule #0 -> profile \"work\""),
        "{}",
        d.explanation
    );
}

#[test]
fn decide_explains_default_and_missing_profile() {
    let d = cfg().decide("https://unmatched.example/x", None, Some("/Users/test"));
    assert!(
        d.explanation
            .starts_with("no rule matched -> default profile \"personal\""),
        "{}",
        d.explanation
    );

    let c = Config::new(
        None,
        None,
        StrMap::new(),
        vec![Rule::new(s("ghost"), strings(&["*"]), Vec::new())],
    );
    let d = c.decide("https://anything", None, Some("/Users/test"));
    assert!(d.profile.is_none());
    assert!(
        d.explanation.contains("not found in [profiles]"),
        "{}",
        d.explanation
    );
}

#[test]
fn decide_explains_no_match_no_default() {
    let d = work_only().decide("https://example.com", None, Some("/Users/test"));
    assert!(d.profile.is_none());
    assert_eq!(
        d.explanation,
        "no rule matched, no default -> Firefox default profile"
    );
}

#[test]
fn source_and_globs_are_anded() {
    let c = Config::new(
        None,
        Some(s("personal")),
        StrMap::new(),
        vec![Rule::new(
            s("work"),
            strings(&["*://*.github.com/*"]),
            strings(&["com.tinyspeck.*"]),
        )],
    );
    let slack = opener("com.tinyspeck.slackmacgap", "Slack");
    let mail = opener("com.apple.mail", "Mail");

    assert_eq!(
        c.label_for("https://api.github.com/x", Some(&slack)),
        Some("work")
    );
    assert_eq!(
        c.label_for("https://example.com", Some(&slack)),
        Some("personal")
    );
    assert_eq!(
        c.label_for("https://api.github.com/x", Some(&mail)),
        Some("personal")
    );
}

#[test]
fn resolves_bare_name_and_absolute_path() {
    let c = cfg();
    assert_eq!(
        c.profile_path("https://youtube.com", None, Some("/Users/test")).unwrap(),
        "/Users/test/Library/Application Support/Firefox/Profiles/dhutbqgo.default-release"
    );

    let mut profiles = StrMap::new();
    profiles.insert(s("p"), s("/tmp/custom.profile"));
    let abs = Config::new(None, Some(s("p")), profiles, Vec::new());
    assert_eq!(
        abs.profile_path("https://x", None, Some("/Users/test")).unwrap(),
        "/tmp/custom.profile"
    );
}

#[test]
fn ignores_unknown_tables_and_keys() {
    // `default` written inside an unknown table belongs to that table.
    let c = Config::new(None, None, StrMap::new(), Vec::new());
    assert_eq!(c.label_for("https://anything", None), None);
    // `default` at the root still applies.
    let c = Config::new(None, Some(s("p")), StrMap::new(), Vec::new());
    assert_eq!(c.label_for("https://anything", None), Some("p"));
}

#[test]
fn globset_is_case_insensitive_and_crosses_slashes() {
    let c = Config::new(
        None,
        None,
        StrMap::new(),
        vec![Rule::new(s("work"), strings(&["*GITHUB.com*"]), Vec::new())],
    );
    assert_eq!(c.label_for("https://github.com/a/b/c", None), Some("work"));
}

#[test]
fn malformed_glob_never_matches() {
    let c = Config::new(
        None,
        Some(s("home")),
        StrMap::new(),
        vec![Rule::new(s("work"), strings(&["[unclosed"]), Vec::new())],
    );
    assert_eq!(c.label_for("[unclosed", None), Some("home"));
}

#[test]
fn empty_rule_matches_nothing() {
    let c = Config::new(
        None,
        Some(s("home")),
        StrMap::new(),
        vec![Rule::new(s("work"), Vec::new(), Vec::new())],
    );
    assert_eq!(c.label_for("https://example.com", None), Some("home"));
    let d = c.decide("https://example.com", None, None);
    assert_eq!(
        d.explanation,
        "no rule matched -> default profile \"home\" (not found in [profiles]; using Firefox default)"
    );
}

#[test]
fn rule_matches_reports_each_dimension() {
    let r = Rule::new(s("w"), strings(&["*x*"]), strings(&["App"]));
    let app = opener("com.example", "App");
    assert!(r.matches("axb", Some(&app)));
    assert!(!r.matches("ab", Some(&app)));
    assert!(!r.matches("axb", None));
}

#[test]
fn rule_verdict_ands_the_dimensions_that_are_set() {
    assert!(!rule_verdict(false, false, true, true));
    assert!(rule_verdict(true, false, true, false));
    assert!(!rule_verdict(true, false, false, true));
    assert!(rule_verdict(false, true, false, true));
    assert!(rule_verdict(true, true, true, true));
    assert!(!rule_verdict(true, true, true, false));
}

#[test]
fn explain_formats_each_case() {
    assert_eq!(
        explain(Some(12), Some("work"), Some("/p/w")),
        "matched rule #12 -> profile \"work\" (/p/w)"
    );
    assert_eq!(
        explain(None, Some("home"), None),
        "no rule matched -> default profile \"home\" (not found in [profiles]; using Firefox default)"
    );
    assert_eq!(
        explain(None, None, None),
        "no rule matched, no default -> Firefox default profile"
    );
}

#[test]
fn resolve_without_home_is_relative_to_profiles_dir() {
    assert_eq!(
        resolve("abc.default", None),
        "Library/Application Support/Firefox/Profiles/abc.default"
    );
    assert_eq!(resolve("/abs", None), "/abs");
    assert_eq!(
        resolve("abc.default", Some("/home/u/")),
        "/home/u/Library/Application Support/Firefox/Profiles/abc.default"
    );
}

#[test]
fn extends_puts_local_rules_first_and_local_values_win() {
    let mut local_profiles = StrMap::new();
    local_profiles.insert(s("work"), s("local.work"));
    let mut local = Config::new(
        None,
        None,
        local_profiles,
        vec![Rule::new(s("work"), strings(&["*://*.internal.acme.corp/*"]), Vec::new())],
    );
    let mut base_profiles = StrMap::new();
    base_profiles.insert(s("work"), s("base.work"));
    base_profiles.insert(s("personal"), s("base.personal"));
    let base = Config::new(
        Some(true),
        Some(s("personal")),
        base_profiles,
        vec![Rule::new(s("personal"), strings(&["*"]), Vec::new())],
    );
    local.extend_with(base);
    assert!(local.is_debug());
    // A local rule beats the base's catch-all.
    assert_eq!(
        local.label_for("https://x.internal.acme.corp/y", None),
        Some("work")
    );
    // The base rule remains as the fallback.
    assert_eq!(local.label_for("https://example.com", None), Some("personal"));
    // Local `[profiles]` entries win key by key; base-only keys are kept.
    assert_eq!(
        local.profile_for_label(Some("work"), Some("/h")),
        Some(s("/h/Library/Application Support/Firefox/Profiles/local.work"))
    );
    assert_eq!(
        local.profile_for_label(Some("personal"), Some("/h")),
        Some(s("/h/Library/Application Support/Firefox/Profiles/base.personal"))
    );
}

#[test]
fn local_debug_and_default_win_over_base() {
    let mut local = Config::new(Some(false), Some(s("mine")), StrMap::new(), Vec::new());
    let base = Config::new(Some(true), Some(s("theirs")), StrMap::new(), Vec::new());
    local.extend_with(base);
    assert!(!local.is_debug());
    assert_eq!(local.label_for("https://x", None), Some("mine"));
}

#[test]
fn include_path_expands_home_and_resolves_relative() {
    assert_eq!(
        include_path("~/.dotfiles/.ff-router.toml", "/etc", Some("/Users/me")),
        "/Users/me/.dotfiles/.ff-router.toml"
    );
    assert_eq!(include_path("base.toml", "/Users/me", None), "/Users/me/base.toml");
    assert_eq!(include_path("/abs/base.toml", "/Users/me", None), "/abs/base.toml");
}

#[test]
fn bases_merge_in_turn_and_missing_ones_are_skipped() {
    let mut local = Config::new(
        None,
        None,
        StrMap::new(),
        vec![Rule::new(s("mine"), strings(&["*mine*"]), Vec::new())],
    );
    let first = Config::new(
        None,
        Some(s("first")),
        StrMap::new(),
        vec![Rule::new(s("first"), strings(&["*shared*"]), Vec::new())],
    );
    let second = Config::new(
        Some(true),
        Some(s("second")),
        StrMap::new(),
        vec![
            Rule::new(s("second"), strings(&["*shared*"]), Vec::new()),
            Rule::new(s("second"), strings(&["*other*"]), Vec::new()),
        ],
    );
    local.extend_all(vec![Some(first), None, Some(second)]);
    assert!(local.is_debug());
    assert_eq!(local.label_for("https://mine.example", None), Some("mine"));
    assert_eq!(local.label_for("https://shared.example", None), Some("first"));
    assert_eq!(local.label_for("https://other.example", None), Some("second"));
    assert_eq!(local.label_for("https://none.example", None), Some("first"));
    let d = local.decide("https://other.example", None, None);
    assert!(d.explanation.starts_with("matched rule #3 -> "), "{}", d.explanation);
}

#[test]
fn extends_depth_is_capped() {
    assert!(may_follow_extends(0));
    assert!(may_follow_extends(14));
    assert!(!may_follow_extends(15));
    assert!(!may_follow_extends(usize::MAX));
}

#[test]
fn over_nested_glob_never_matches_and_does_not_panic() {
    let deep = format!("{}x{}", "{a,".repeat(300), "}".repeat(300));
    let c = Config::new(
        None,
        Some(s("home")),
        StrMap::new(),
        vec![Rule::new(s("work"), vec![deep], Vec::new())],
    );
    assert_eq!(c.label_for("a", None), Some("home"));
    assert_eq!(c.label_for("x", None), Some("home"));
}
