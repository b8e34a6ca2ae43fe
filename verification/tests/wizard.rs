use ff_router::installer::discover::Profile;
use ff_router::installer::plan::{Action, AppSource};
use ff_router::installer::wizard::{profile_row, Key, Outcome, Reply, Step, Wizard};

fn profile(name: &str, dir: &str, label: &str) -> Profile {
    Profile {
        name: name.into(),
        dir: dir.into(),
        label: label.into(),
    }
}

fn wizard() -> Wizard {
    Wizard::new(
        vec![
            profile("Home", "a.home", "home"),
            profile("Work", "b.work", "work"),
            profile("Play", "c.play", "play"),
        ],
        AppSource::Download { version: "1.0.0".into() },
        "/tmp/stage".into(),
        "/Users/me".into(),
    )
}

fn press(w: &mut Wizard, key: Key) -> Reply {
    w.handle(key, false)
}

fn type_text(w: &mut Wizard, text: &str) {
    for c in text.chars() {
        assert!(matches!(press(w, Key::Char(c)), Reply::Stay));
    }
}

#[test]
fn selection_wraps_both_ways() {
    let mut w = wizard();
    assert_eq!(w.selected(), 0);
    press(&mut w, Key::Up);
    assert_eq!(w.selected(), 2);
    press(&mut w, Key::Char('j'));
    assert_eq!(w.selected(), 0);
    press(&mut w, Key::Down);
    assert_eq!(w.selected(), 1);
}

#[test]
fn ctrl_c_and_q_cancel() {
    let mut w = wizard();
    assert!(matches!(w.handle(Key::Char('c'), true), Reply::Finish(Outcome::Cancelled)));
    assert!(matches!(press(&mut w, Key::Char('q')), Reply::Finish(Outcome::Cancelled)));
    assert_eq!(w.step(), Step::Default);
}

#[test]
fn globs_are_entered_for_each_other_profile() {
    let mut w = wizard();
    press(&mut w, Key::Down); // Work is the default
    press(&mut w, Key::Enter);
    assert_eq!(w.step(), Step::Globs);
    assert_eq!(w.editing().name, "Home");
    assert_eq!(w.globs_title(), " globs (1/2) ");
    type_text(&mut w, "*home*");
    press(&mut w, Key::Enter);
    assert_eq!(w.editing().name, "Play");
    assert_eq!(w.globs_title(), " globs (2/2) ");
    type_text(&mut w, "*game*");
    press(&mut w, Key::Enter);
    assert_eq!(w.step(), Step::Review);
    let cfg = w.config();
    assert!(cfg.contains("[[rule]]\nprofile = \"home\"\nglobs = [\n    \"*home*\",\n]\n"));
    assert!(cfg.contains("[[rule]]\nprofile = \"play\"\nglobs = [\n    \"*game*\",\n]\n"));
    assert!(!cfg.contains("profile = \"work\""));
}

#[test]
fn line_editing_moves_the_cursor() {
    let mut w = wizard();
    press(&mut w, Key::Enter);
    type_text(&mut w, "ac");
    press(&mut w, Key::Left);
    type_text(&mut w, "b");
    assert_eq!(w.input_text(), "abc");
    assert_eq!(w.cursor(), 2);
    press(&mut w, Key::Home);
    press(&mut w, Key::Backspace);
    assert_eq!(w.input_text(), "abc");
    press(&mut w, Key::End);
    press(&mut w, Key::Backspace);
    assert_eq!(w.input_text(), "ab");
    press(&mut w, Key::Right);
    assert_eq!(w.cursor(), 2);
    press(&mut w, Key::Left);
    press(&mut w, Key::Left);
    press(&mut w, Key::Left);
    assert_eq!(w.cursor(), 0);
}

#[test]
fn escape_returns_to_default_without_saving() {
    let mut w = wizard();
    press(&mut w, Key::Enter);
    type_text(&mut w, "*x*");
    press(&mut w, Key::Esc);
    assert_eq!(w.step(), Step::Default);
    press(&mut w, Key::Enter);
    assert_eq!(w.input_text(), "");
}

#[test]
fn review_scrolls_within_limits() {
    let mut w = wizard();
    press(&mut w, Key::Enter);
    press(&mut w, Key::Enter);
    press(&mut w, Key::Enter);
    assert_eq!(w.step(), Step::Review);
    let total = w.config().lines().count() as u16;
    w.set_review_viewport(3);
    assert!(w.review_more().unwrap().contains("\u{2193}"));
    press(&mut w, Key::End);
    assert_eq!(w.review_scroll(), total - 3);
    press(&mut w, Key::Down);
    assert_eq!(w.review_scroll(), total - 3);
    press(&mut w, Key::PageUp);
    assert_eq!(w.review_scroll(), total - 6);
    press(&mut w, Key::Char('g'));
    assert_eq!(w.review_scroll(), 0);
    press(&mut w, Key::Up);
    assert_eq!(w.review_scroll(), 0);
    w.set_review_viewport(200);
    assert!(w.review_more().is_none());
    assert_eq!(
        w.help(),
        "Enter/y: install \u{b7} b: back \u{b7} q/Esc: cancel"
    );
}

fn to_plan() -> Wizard {
    let mut w = wizard();
    press(&mut w, Key::Enter);
    type_text(&mut w, "work.example");
    press(&mut w, Key::Enter);
    press(&mut w, Key::Enter);
    assert!(matches!(press(&mut w, Key::Char('y')), Reply::Inspect));
    assert_eq!(w.step(), Step::Plan);
    w
}

#[test]
fn plan_applies_skips_and_hands_over_every_decision() {
    let mut w = to_plan();
    let screen = w.plan_screen(Some("/Users/me"));
    assert_eq!(screen.heading, "Action 1 of 7");
    assert_eq!(screen.summary, "Write the configuration to ~/.ff-router.toml");
    assert!(screen.warning.is_none());
    w.inspect(false, String::new());
    assert!(matches!(press(&mut w, Key::Enter), Reply::Inspect));
    w.inspect(false, String::new());
    assert!(matches!(press(&mut w, Key::Char('s')), Reply::Inspect));
    for _ in 2..6 {
        w.inspect(false, String::new());
        assert!(matches!(press(&mut w, Key::Char('y')), Reply::Inspect));
    }
    w.inspect(false, String::new());
    match press(&mut w, Key::Char('s')) {
        Reply::Finish(Outcome::Install { plan, warnings }) => {
            assert_eq!(plan.len(), 7);
            let applied: Vec<bool> = plan.iter().map(|d| d.apply).collect();
            assert_eq!(applied, vec![true, false, true, true, true, true, false]);
            assert!(matches!(plan[0].action, Action::WriteFile { .. }));
            assert_eq!(warnings.len(), 1);
            assert!(warnings[0].contains("work.example"));
        }
        _ => panic!("expected the plan"),
    }
    assert_eq!(w.step(), Step::Done);
}

#[test]
fn conflict_needs_replace_and_can_be_compared() {
    let mut w = to_plan();
    w.inspect(true, "old\n".into());
    let screen = w.plan_screen(Some("/Users/me"));
    assert_eq!(
        screen.warning.as_deref(),
        Some("\u{26a0} ~/.ff-router.toml already exists \u{2014} choose what to do.")
    );
    assert_eq!(
        w.help(),
        "c: compare \u{b7} r: replace \u{b7} s: skip \u{b7} a/Esc: abort"
    );
    assert!(matches!(press(&mut w, Key::Enter), Reply::Stay));
    press(&mut w, Key::Char('c'));
    assert!(w.diff_open());
    assert!(w.diff_rows().iter().any(|r| r.text == "- old"));
    press(&mut w, Key::Esc);
    assert!(!w.diff_open());
    assert!(matches!(press(&mut w, Key::Char('r')), Reply::Inspect));
    assert_eq!(w.plan_screen(None).heading, "Action 2 of 7");
    assert!(matches!(press(&mut w, Key::Char('a')), Reply::Finish(Outcome::Cancelled)));
}

#[test]
fn profile_rows_pad_names() {
    assert_eq!(
        profile_row(&profile("Work", "b.work", "work")),
        format!("Work{} b.work", " ".repeat(20))
    );
    let long = "A very long profile name here";
    assert_eq!(profile_row(&profile(long, "d", "x")), format!("{long} d"));
}
