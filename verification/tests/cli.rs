use ff_router::installer::cli::{
    app_source, flag_value, has_flag, mode, needs_backup, select_actions, Mode,
};
use ff_router::installer::plan::{build, Action, AppSource};

fn args(list: &[&str]) -> Vec<String> {
    list.iter().map(|s| (*s).to_string()).collect()
}

#[test]
fn flag_value_reads_separate_and_joined_forms() {
    assert_eq!(
        flag_value(&args(&["--config", "/a/b.toml"]), "--config"),
        Some("/a/b.toml".to_string())
    );
    assert_eq!(
        flag_value(&args(&["--config=/a/b.toml"]), "--config"),
        Some("/a/b.toml".to_string())
    );
}

#[test]
fn flag_value_is_none_when_absent_or_dangling() {
    assert_eq!(flag_value(&args(&["--non-interactive"]), "--config"), None);
    assert_eq!(flag_value(&args(&["--config"]), "--config"), None);
}

#[test]
fn flag_value_takes_the_first_occurrence() {
    assert_eq!(
        flag_value(&args(&["-y", "--config=a", "--config", "b"]), "--config"),
        Some("a".to_string())
    );
    assert_eq!(
        flag_value(&args(&["--configx=a", "--config="]), "--config"),
        Some(String::new())
    );
}

#[test]
fn mode_prefers_list_then_headless() {
    assert_eq!(mode(&args(&["--yes", "--list"])), Mode::List);
    assert_eq!(mode(&args(&["-y"])), Mode::NonInteractive);
    assert_eq!(mode(&args(&["--non-interactive"])), Mode::NonInteractive);
    assert_eq!(mode(&args(&["--config", "x"])), Mode::Interactive);
    assert!(has_flag(&args(&["a", "--no-set-default"]), "--no-set-default"));
    assert!(!has_flag(&args(&["--no-set-default=1"]), "--no-set-default"));
}

#[test]
fn app_source_prefers_local_binary() {
    match app_source(Some("/bin/ffr".into()), true, "1.0".into()) {
        Ok(AppSource::Local { binary }) => assert_eq!(binary, "/bin/ffr"),
        _ => panic!("expected a local source"),
    }
    match app_source(Some("/nope".into()), false, "1.0".into()) {
        Err(e) => assert_eq!(e, "FF_ROUTER_BIN is set but is not a file: /nope"),
        _ => panic!("expected an error"),
    }
    match app_source(None, false, "1.0".into()) {
        Ok(AppSource::Download { version }) => assert_eq!(version, "1.0"),
        _ => panic!("expected a download"),
    }
}

fn plan() -> Vec<Action> {
    build(
        AppSource::Download { version: "1".into() },
        "/Users/me",
        "cfg".into(),
        "/tmp/s",
    )
}

#[test]
fn headless_plan_drops_reused_config_and_default_prompt() {
    let home = Some("/Users/me");
    assert_eq!(select_actions(plan(), true, false, home).len(), 7);
    let kept = select_actions(plan(), false, false, home);
    assert_eq!(kept.len(), 6);
    assert!(!matches!(kept[0], Action::WriteFile { .. }));
    let kept = select_actions(plan(), false, true, home);
    assert_eq!(kept.len(), 5);
    assert!(kept.iter().all(|a| !a.summary(home).contains("default browser")));
    assert!(matches!(kept[4], Action::InstallLoginItem { .. }));
}

#[test]
fn backup_only_when_replacing_different_content() {
    assert!(needs_backup(true, Some("old"), "new"));
    assert!(!needs_backup(true, Some("same"), "same"));
    assert!(!needs_backup(true, None, "new"));
    assert!(!needs_backup(false, Some("old"), "new"));
}
