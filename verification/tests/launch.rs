use ff_router::router::config::{Config, Opener, Rule};
use ff_router::router::launch::{
    describe, firefox_args, home_dir, home_file, invocation, log_entry, log_line, opener_from,
    plan_launch, Invocation,
};
use ff_router::strmap::StrMap;

fn s(x: &str) -> String {
    x.to_string()
}

fn config(debug: Option<bool>) -> Config {
    let mut profiles = StrMap::new();
    profiles.insert(s("work"), s("qtIifLeX.Profile 1"));
    Config::new(
        debug,
        None,
        profiles,
        vec![Rule::new(s("work"), vec![s("*.slack.com/*")], Vec::new())],
    )
}

#[test]
fn invocation_picks_set_default_url_or_app() {
    assert!(matches!(invocation(Some("--set-default")), Invocation::SetDefault));
    match invocation(Some("https://example.com")) {
        Invocation::Open(u) => assert_eq!(u, "https://example.com"),
        _ => panic!("expected a URL"),
    }
    assert!(matches!(invocation(Some("http://x")), Invocation::Open(_)));
    assert!(matches!(invocation(Some("ftp://x")), Invocation::App));
    assert!(matches!(invocation(Some("-psn_0_1")), Invocation::App));
    assert!(matches!(invocation(None), Invocation::App));
}

#[test]
fn opener_needs_an_identifier() {
    assert!(opener_from(None, None).is_none());
    let o = opener_from(Some(s("com.apple.mail")), None).unwrap();
    assert_eq!(o.bundle_id.as_deref(), Some("com.apple.mail"));
    assert_eq!(o.name, None);
    let o = opener_from(None, Some(s("Mail"))).unwrap();
    assert_eq!(o.name.as_deref(), Some("Mail"));
}

#[test]
fn describe_shows_name_and_bundle_or_unknown() {
    assert_eq!(describe(None), "unknown");
    let o = Opener {
        bundle_id: Some(s("com.tinyspeck.slackmacgap")),
        name: Some(s("Slack")),
    };
    assert_eq!(describe(Some(&o)), "Slack (com.tinyspeck.slackmacgap)");
    let partial = Opener {
        bundle_id: None,
        name: Some(s("Tool")),
    };
    assert_eq!(describe(Some(&partial)), "Tool (?)");
}

#[test]
fn log_line_matches_documented_format() {
    let o = Opener {
        bundle_id: Some(s("com.tinyspeck.slackmacgap")),
        name: Some(s("Slack")),
    };
    assert_eq!(
        log_line(
            "2026-07-08T01:14:08Z",
            "https://foo.slack.com/messages",
            Some(&o),
            "matched rule #0 -> profile \"work\" (p)"
        ),
        "2026-07-08T01:14:08Z url=https://foo.slack.com/messages opener=Slack (com.tinyspeck.slackmacgap) matched rule #0 -> profile \"work\" (p)\n"
    );
    assert_eq!(log_line("T", "u", None, "e"), "T url=u opener=unknown e\n");
}

#[test]
fn log_entry_is_stamped_with_utc_time() {
    let line = log_entry("https://x", None, "why");
    assert!(line.ends_with("Z url=https://x opener=unknown why\n"), "{line}");
    // YYYY-MM-DDTHH:MM:SSZ
    let stamp = line.split(' ').next().unwrap();
    assert_eq!(stamp.len(), 20);
    assert_eq!(&stamp[4..5], "-");
    assert_eq!(&stamp[10..11], "T");
    assert_eq!(&stamp[7..8], "-");
    assert_eq!(&stamp[13..14], ":");
    assert_eq!(&stamp[16..17], ":");
    assert!(stamp[..4].chars().all(|c| c.is_ascii_digit()));
}

#[test]
fn debug_config_logs_the_explanation() {
    let c = config(Some(true));
    let l = plan_launch(Some(&c), "https://a.slack.com/x", None, Some("/Users/t"));
    assert_eq!(
        l.profile.as_deref(),
        Some("/Users/t/Library/Application Support/Firefox/Profiles/qtIifLeX.Profile 1")
    );
    assert!(l.log.unwrap().starts_with("matched rule #0 -> profile \"work\""));

    let quiet = config(None);
    let l = plan_launch(Some(&quiet), "https://a.slack.com/x", None, Some("/Users/t"));
    assert!(l.profile.is_some());
    assert!(l.log.is_none());
}

#[test]
fn missing_config_uses_firefox_default() {
    let l = plan_launch(None, "https://a.slack.com/x", None, Some("/Users/t"));
    assert!(l.profile.is_none());
    assert!(l.log.is_none());
}

#[test]
fn firefox_args_pass_profile_then_url() {
    assert_eq!(
        firefox_args(Some("/p"), "https://x"),
        vec![s("--profile"), s("/p"), s("https://x")]
    );
    assert_eq!(firefox_args(None, "https://x"), vec![s("https://x")]);
}

#[test]
fn home_falls_back_to_user_name() {
    assert_eq!(
        home_dir(Some(s("/h")), Some(s("u")), None, "macos"),
        Some(s("/h"))
    );
    assert_eq!(home_dir(None, Some(s("u")), None, "macos"), Some(s("/Users/u")));
    assert_eq!(home_dir(None, None, Some(s("v")), "linux"), Some(s("/home/v")));
    assert_eq!(
        home_dir(None, None, Some(s("v")), "windows"),
        Some(s("C:\\Users\\v"))
    );
    assert_eq!(home_dir(None, None, None, "macos"), None);
}

#[test]
fn home_file_joins_name() {
    assert_eq!(
        home_file(Some("/Users/u"), ".ff-router.log"),
        Some(s("/Users/u/.ff-router.log"))
    );
    assert_eq!(home_file(None, ".ff-router.log"), None);
}
