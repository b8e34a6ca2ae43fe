use ff_router::installer::config::{esc, gen_config, glob_warnings, slug};
use ff_router::installer::discover::Profile;

fn profile(name: &str, dir: &str, label: &str) -> Profile {
    Profile {
        name: name.into(),
        dir: dir.into(),
        label: label.into(),
    }
}

#[test]
fn warns_on_unwrapped_globs() {
    let globs = vec!["*ok*  needslead*  *needstrail  bare".to_string()];
    let w = glob_warnings(&globs);
    assert_eq!(w.len(), 3);
    assert!(w[0].contains("needslead*") && w[0].contains("a leading '*'"));
    assert!(w[1].contains("*needstrail") && w[1].contains("a trailing '*'"));
    assert!(w[2].contains("bare") && w[2].contains("a leading and trailing '*'"));
}

#[test]
fn slugs() {
    assert_eq!(slug("Home"), "home");
    assert_eq!(slug("Profile 1"), "profile-1");
    assert_eq!(slug("  Weird!! Name  "), "weird-name");
    assert_eq!(slug("!!!"), "");
}

#[test]
fn generates_expected_config() {
    let profiles = vec![
        profile("Home", "dhutbqgo.default-release", "home"),
        profile("Work", "qtIifLeX.Profile 1", "work"),
    ];
    let globs = vec![String::new(), "*://*.atlassian.net/*  *partly.com/*".into()];
    let out = gen_config(&profiles, 0, &globs);

    assert!(!out.contains("default = \"home\""));
    assert!(out.starts_with("# Links that match no rule"));
    assert!(out.contains("home = \"dhutbqgo.default-release\"\n"));
    assert!(out.contains("work = \"qtIifLeX.Profile 1\"\n"));
    assert!(out.contains("[[rule]]\nprofile = \"work\"\nglobs = [\n"));
    assert!(out.contains("    \"*://*.atlassian.net/*\",\n"));
    assert!(out.contains("    \"*partly.com/*\",\n"));
    assert_eq!(out.matches("[[rule]]").count(), 1);
}

#[test]
fn generated_config_is_exact() {
    let profiles = vec![
        profile("Home", "a.home", "home"),
        profile("Work", "b \"w\"", "work"),
        profile("Empty", "c.e", "empty"),
    ];
    let globs = vec!["ignored*".to_string(), " *x* ".into(), "   ".into()];
    assert_eq!(
        gen_config(&profiles, 0, &globs),
        "# Links that match no rule below open in Firefox's current/default profile.\n\
         # (Add  default = \"<label>\"  above [profiles] to force a specific fallback.)\n\n\
         [profiles]\n\
         home = \"a.home\"\n\
         work = \"b \\\"w\\\"\"\n\
         empty = \"c.e\"\n\
         \n[[rule]]\nprofile = \"work\"\nglobs = [\n    \"*x*\",\n]\n"
    );
}

#[test]
fn escapes_backslash_and_quote() {
    assert_eq!(esc(r#"a\b"c"#), r#"a\\b\"c"#);
    assert_eq!(esc("plain"), "plain");
}

#[test]
fn wrapped_globs_give_no_warning() {
    assert!(glob_warnings(&["*a*  *b*".to_string(), String::new()]).is_empty());
    let w = glob_warnings(&["x".to_string(), "*y".to_string()]);
    assert_eq!(
        w,
        vec![
            "glob \"x\" is missing a leading and trailing '*'; it is anchored and may not match as expected".to_string(),
            "glob \"*y\" is missing a trailing '*'; it is anchored and may not match as expected".to_string(),
        ]
    );
}

#[test]
fn slug_is_a_bare_key() {
    for name in ["Ünïcode Name", "a--b", "-x-", "Work (2)", "ÄÖÜ"] {
        let s = slug(name);
        assert!(s.chars().all(|c| c.is_ascii_lowercase() || c.is_ascii_digit() || c == '-'));
        assert!(!s.starts_with('-') && !s.ends_with('-'));
        assert!(!s.contains("--"));
    }
    assert_eq!(slug("Work (2)"), "work-2");
}

#[test]
fn slug_keeps_letters_and_is_idempotent() {
    for name in ["  Weird!! Name  ", "Profile 1", "Ünïcode-Name_2", "!!!", "a--b"] {
        let s = slug(name);
        let letters: String = name
            .chars()
            .filter(|c| c.is_ascii_alphanumeric())
            .map(|c| c.to_ascii_lowercase())
            .collect();
        assert_eq!(s.replace('-', ""), letters);
        assert_eq!(slug(&s), s);
    }
}
