use ff_router::installer::plan::{
    build, download_url, home_relative, home_relative_from, login_item_plist, xml_escape, Action, AppSource, Conflict,
};

fn s(x: &str) -> String {
    x.to_string()
}

#[test]
fn builds_expected_plan() {
    let source = AppSource::Download {
        version: "1.2.3".into(),
    };
    let actions = build(source, "/home/u", "cfg".into(), "/stage");
    let home = Some("/home/u");
    assert_eq!(actions.len(), 7);
    assert!(matches!(actions[0], Action::WriteFile { .. }));
    assert!(actions[0].summary(home).contains(".ff-router.toml"));
    assert!(matches!(actions[1], Action::FetchApp { .. }));
    assert!(actions[1]
        .summary(home)
        .contains("Download Firefox Router 1.2.3"));
    assert!(actions[1]
        .detail(home)
        .contains("releases/download/v1.2.3/ff-router"));
    assert!(matches!(actions[2], Action::MoveInto { .. }));
    assert!(actions[2].summary(home).contains("Firefox Router.app"));
    assert!(actions[2].detail(home).contains("/stage/Firefox Router.app"));
    assert!(matches!(actions[3], Action::MakeExecutable { .. }));
    assert!(actions[3].summary(home).contains("chmod 755"));
    assert!(matches!(actions[4], Action::Run { .. }));
    assert!(actions[4].detail(home).starts_with("$ "));
    assert!(matches!(actions[5], Action::InstallLoginItem { .. }));
    assert!(actions[5].summary(home).contains("login"));
    assert!(actions[5].detail(home).contains("launchctl bootstrap"));
    assert!(matches!(actions[6], Action::Run { .. }));
    assert!(actions[6].summary(home).contains("default browser"));
}

#[test]
fn local_source_summary_mentions_local_build() {
    let source = AppSource::Local {
        binary: "/tmp/ff-router".into(),
    };
    let actions = build(source, "/home/u", "cfg".into(), "/stage");
    assert!(actions[1].summary(Some("/home/u")).contains("local build"));
}

#[test]
fn login_item_plist_points_at_installed_binary() {
    let plist = login_item_plist("/home/u/Applications/Firefox Router.app/Contents/MacOS/ff-router");
    assert!(plist.contains("<string>com.josiahbull.ff-router</string>"));
    assert!(plist.contains("<key>RunAtLoad</key>"));
    assert!(plist.contains(
        "<string>/home/u/Applications/Firefox Router.app/Contents/MacOS/ff-router</string>"
    ));
}

#[test]
fn login_item_plist_escapes_xml_in_path() {
    let plist = login_item_plist("/home/a&b/MacOS/ff-router");
    assert!(plist.contains("/home/a&amp;b/MacOS/ff-router"));
    assert!(!plist.contains("a&b"));
}

#[test]
fn write_file_conflict_is_textual() {
    let action = Action::WriteFile {
        path: s("/tmp/ffr-plan/cfg.toml"),
        contents: "new\n".into(),
    };
    assert_eq!(action.target(), Some(s("/tmp/ffr-plan/cfg.toml")));
    match action.conflict(true, s("old\n")) {
        Conflict::Text {
            existing, proposed, ..
        } => {
            assert_eq!(existing, "old\n");
            assert_eq!(proposed, "new\n");
        }
        _ => panic!("expected a textual conflict"),
    }
    assert!(matches!(action.conflict(false, String::new()), Conflict::Clear));
}

#[test]
fn move_conflict_names_the_replaced_directory() {
    let action = Action::MoveInto {
        from: s("/stage/Firefox Router.app"),
        dir: s("/home/u/Applications"),
    };
    assert_eq!(
        action.target(),
        Some(s("/home/u/Applications/Firefox Router.app"))
    );
    match action.conflict(true, String::new()) {
        Conflict::Exists(p) => assert_eq!(p, "/home/u/Applications/Firefox Router.app"),
        _ => panic!("expected an existing directory"),
    }
    let run = Action::Run {
        label: s("x"),
        program: s("y"),
        args: Vec::new(),
    };
    assert_eq!(run.target(), None);
    assert!(matches!(run.conflict(true, String::new()), Conflict::Clear));
}

#[test]
fn plan_paths_and_commands_are_exact() {
    let actions = build(
        AppSource::Download { version: s("0.4.0") },
        "/Users/me",
        s("a\nb\n"),
        "/tmp/st",
    );
    let home = Some("/Users/me");
    assert_eq!(actions[0].summary(home), "Write the configuration to ~/.ff-router.toml");
    assert_eq!(actions[0].detail(home), "~/.ff-router.toml (2 lines)");
    assert_eq!(
        actions[1].detail(home),
        "https://github.com/josiahbull/ff-router/releases/download/v0.4.0/ff-router"
    );
    assert_eq!(
        actions[2].summary(home),
        "Move Firefox Router.app into ~/Applications"
    );
    assert_eq!(
        actions[2].detail(home),
        "/tmp/st/Firefox Router.app  \u{2192}  ~/Applications"
    );
    assert_eq!(
        actions[3].detail(home),
        "chmod 755 ~/Applications/Firefox Router.app/Contents/MacOS/ff-router"
    );
    assert_eq!(
        actions[4].detail(home),
        "$ /System/Library/Frameworks/CoreServices.framework/Frameworks/LaunchServices.framework/Support/lsregister -f /Users/me/Applications/Firefox Router.app"
    );
    assert_eq!(
        actions[5].detail(home),
        "launchctl bootstrap gui/$UID ~/Library/LaunchAgents/com.josiahbull.ff-router.plist"
    );
    assert_eq!(
        actions[6].detail(home),
        "$ /Users/me/Applications/Firefox Router.app/Contents/MacOS/ff-router --set-default"
    );
    // Without a home directory nothing is shortened.
    assert_eq!(
        actions[0].summary(None),
        "Write the configuration to /Users/me/.ff-router.toml"
    );
}

#[test]
fn local_source_detail_shows_both_paths() {
    let actions = build(
        AppSource::Local { binary: s("/Users/me/src/ff-router") },
        "/Users/me",
        s("x"),
        "/tmp/st",
    );
    assert_eq!(
        actions[1].detail(Some("/Users/me")),
        "~/src/ff-router  \u{2192}  /tmp/st"
    );
    assert_eq!(
        actions[1].summary(Some("/Users/me")),
        "Assemble Firefox Router.app from the local build"
    );
}

#[test]
fn xml_escape_handles_all_three() {
    assert_eq!(xml_escape("a<b>&c"), "a&lt;b&gt;&amp;c");
    assert_eq!(xml_escape("&lt;"), "&amp;lt;");
    assert!(!xml_escape("<<>>").contains('<'));
    assert!(!xml_escape("<<>>").contains('>'));
}

#[test]
fn download_url_is_exact() {
    assert_eq!(
        download_url("1.0.0"),
        "https://github.com/josiahbull/ff-router/releases/download/v1.0.0/ff-router"
    );
}

#[test]
fn home_relative_shortens_only_under_home() {
    assert_eq!(home_relative("/Users/me/x/y", Some("/Users/me")), "~/x/y");
    assert_eq!(home_relative("/Users/meow/x", Some("/Users/me")), "/Users/meow/x");
    assert_eq!(home_relative("/etc/x", None), "/etc/x");
}

#[test]
fn home_relative_from_uses_the_stripped_rest() {
    assert_eq!(home_relative_from("/Users/me/a", Some(s("a"))), "~/a");
    assert_eq!(home_relative_from("/etc/x", None), "/etc/x");
}

#[test]
fn only_the_last_step_mentions_the_default_browser() {
    for home in [Some("/Users/me"), None, Some("/elsewhere")] {
        let actions = build(
            AppSource::Download { version: s("2.0.0") },
            "/Users/me",
            s("cfg"),
            "/tmp/stage",
        );
        let hits: Vec<usize> = actions
            .iter()
            .enumerate()
            .filter(|(_, a)| a.summary(home).contains("default browser"))
            .map(|(k, _)| k)
            .collect();
        assert_eq!(hits, vec![6]);
    }
}
