//! The ordered list of actions the installer performs, and how to describe
//! each one.

use vstd::prelude::*;
use crate::paths::{file_name, file_name_result, file_name_span, join, join_path, opt_text, piece, strip_prefix, strip_prefix_result, strip_prefix_span};
use crate::text::{contains_seq, is_prefix, chars_to_string, line_count, lines, push_all, push_decimal, push_str, replace_all, replace_spec, to_chars};

verus! {

/// The app bundle's directory name.
pub const APP: &'static str = "Firefox Router.app";

/// Launch Services' registration tool.
pub const LSREGISTER: &'static str = "/System/Library/Frameworks/CoreServices.framework/Frameworks/LaunchServices.framework/Support/lsregister";

/// The bundle identifier of the router app (and of its LaunchAgent).
pub const BUNDLE_ID: &'static str = "com.josiahbull.ff-router";

/// GitHub `owner/repo` the release binaries are published under.
pub const REPO: &'static str = "josiahbull/ff-router";

/// The executable inside the app bundle, relative to the bundle.
pub const BUNDLE_EXE: &'static str = "Contents/MacOS/ff-router";

/// The LaunchAgent plist that starts the resident router at login. The
/// `{program}` placeholder is replaced with the absolute path to the installed
/// executable. `RunAtLoad` starts it; `LimitLoadToSessionType = Aqua` keeps it
/// to the GUI login session (it needs Launch Services / the window server);
/// `ProcessType = Interactive` marks it as a foreground-quality process rather
/// than a batch daemon.
pub const LOGIN_ITEM_PLIST: &'static str = "<?xml version=\"1.0\" encoding=\"UTF-8\"?>
<!DOCTYPE plist PUBLIC \"-//Apple//DTD PLIST 1.0//EN\" \"http://www.apple.com/DTDs/PropertyList-1.0.dtd\">
<plist version=\"1.0\">
<dict>
    <key>Label</key>
    <string>com.josiahbull.ff-router</string>
    <key>ProgramArguments</key>
    <array>
        <string>{program}</string>
    </array>
    <key>RunAtLoad</key>
    <true/>
    <key>LimitLoadToSessionType</key>
    <string>Aqua</string>
    <key>ProcessType</key>
    <string>Interactive</string>
</dict>
</plist>
";

/// Where the `ff-router` executable comes from when assembling the app bundle.
#[derive(Clone)]
pub enum AppSource {
    /// Download the matching release asset from GitHub (the normal path).
    Download { version: String },
    /// Use a locally-built binary instead of downloading.
    Local { binary: String },
}

/// A single install step.
pub enum Action {
    /// Write text to a file.
    WriteFile { path: String, contents: String },
    /// Obtain `ff-router` (download or copy) and assemble a signed
    /// `Firefox Router.app` inside `staging`.
    FetchApp { source: AppSource, staging: String },
    /// Move a directory into `dir`.
    MoveInto { from: String, dir: String },
    /// Set the executable bit on a file.
    MakeExecutable { path: String },
    /// Run a command.
    Run { label: String, program: String, args: Vec<String> },
    /// Write a LaunchAgent plist and (re)load it, so the resident router starts
    /// at login (and immediately) and links are routed by a warm process.
    InstallLoginItem { plist: String, contents: String },
}

/// Whether an action's target already exists, and if it can be diffed.
pub enum Conflict {
    /// The target does not exist yet.
    Clear,
    /// Target exists but has no useful textual representation to diff.
    Exists(String),
    /// Target file exists; `existing` vs `proposed` can be shown as a diff.
    Text { path: String, existing: String, proposed: String },
}

/// An action paired with the user's decision to apply it or not.
pub struct Decided {
    pub action: Action,
    pub apply: bool,
}

/// The mathematical content of an [`AppSource`].
pub enum SourceView {
    Download(Seq<char>),
    Local(Seq<char>),
}

/// The mathematical content of an [`Action`].
pub enum ActionView {
    WriteFile(Seq<char>, Seq<char>),
    FetchApp(SourceView, Seq<char>),
    MoveInto(Seq<char>, Seq<char>),
    MakeExecutable(Seq<char>),
    Run(Seq<char>, Seq<char>, Seq<Seq<char>>),
    InstallLoginItem(Seq<char>, Seq<char>),
}

/// The mathematical content of a [`Conflict`].
pub enum ConflictView {
    Clear,
    Exists(Seq<char>),
    Text(Seq<char>, Seq<char>, Seq<char>),
}

impl View for Conflict {
    type V = ConflictView;

    open spec fn view(&self) -> ConflictView {
        match self {
            Conflict::Clear => ConflictView::Clear,
            Conflict::Exists(p) => ConflictView::Exists(p@),
            Conflict::Text { path, existing, proposed } => ConflictView::Text(
                path@,
                existing@,
                proposed@,
            ),
        }
    }
}

impl View for AppSource {
    type V = SourceView;

    open spec fn view(&self) -> SourceView {
        match self {
            AppSource::Download { version } => SourceView::Download(version@),
            AppSource::Local { binary } => SourceView::Local(binary@),
        }
    }
}

/// The character sequences held by a sequence of strings.
pub open spec fn texts(v: Seq<String>) -> Seq<Seq<char>> {
    v.map_values(|x: String| x@)
}

impl View for Action {
    type V = ActionView;

    open spec fn view(&self) -> ActionView {
        match self {
            Action::WriteFile { path, contents } => ActionView::WriteFile(path@, contents@),
            Action::FetchApp { source, staging } => ActionView::FetchApp(source@, staging@),
            Action::MoveInto { from, dir } => ActionView::MoveInto(from@, dir@),
            Action::MakeExecutable { path } => ActionView::MakeExecutable(path@),
            Action::Run { label, program, args } => ActionView::Run(label@, program@, texts(args@)),
            Action::InstallLoginItem { plist, contents } => ActionView::InstallLoginItem(
                plist@,
                contents@,
            ),
        }
    }
}

/// The views of a sequence of actions.
pub open spec fn actions_view(v: Seq<Action>) -> Seq<ActionView> {
    v.map_values(|a: Action| a@)
}

// ---------------------------------------------------------------------------
// Specification
// ---------------------------------------------------------------------------

/// The URL of the `ff-router` release asset for a given version.
pub open spec fn download_url_spec(version: Seq<char>) -> Seq<char> {
    "https://github.com/"@ + REPO@ + "/releases/download/v"@ + version + "/ff-router"@
}

/// `s` with `&`, `<` and `>` escaped for an XML text node (in that order, as
/// three successive replacements).
pub open spec fn xml_escape_spec(s: Seq<char>) -> Seq<char> {
    replace_spec(replace_spec(replace_spec(s, "&"@, "&amp;"@), "<"@, "&lt;"@), ">"@, "&gt;"@)
}

/// Whether the character `x` occurs nowhere in `s`.
pub open spec fn lacks(s: Seq<char>, x: char) -> bool {
    forall|i: int| 0 <= i < s.len() ==> s[i] != x
}

/// Replacing every `c` by a text without `x` leaves no `x` behind, when `x`
/// is `c` itself or did not occur to begin with.
proof fn lemma_replace_char_lacks(s: Seq<char>, c: char, r: Seq<char>, x: char)
    requires
        lacks(r, x),
        x == c || lacks(s, x),
    ensures
        lacks(replace_spec(s, seq![c], r), x),
    decreases s.len(),
{
    if s.len() > 0 {
        if is_prefix(seq![c], s) {
            let rest = s.subrange(1, s.len() as int);
            assert forall|i: int| 0 <= i < rest.len() implies x == c || rest[i] != x by {
                assert(rest[i] == s[i + 1]);
            }
            lemma_replace_char_lacks(rest, c, r, x);
            let out = r + replace_spec(rest, seq![c], r);
            assert forall|i: int| 0 <= i < out.len() implies out[i] != x by {
                if i >= r.len() {
                    assert(out[i] == replace_spec(rest, seq![c], r)[i - r.len()]);
                }
            }
        } else {
            let rest = s.drop_first();
            assert(s[0] != c) by {
                if s[0] == c {
                    assert(s.subrange(0, 1) =~= seq![c]);
                }
            }
            assert forall|i: int| 0 <= i < rest.len() implies x == c || rest[i] != x by {
                assert(rest[i] == s[i + 1]);
            }
            lemma_replace_char_lacks(rest, c, r, x);
            let out = seq![s[0]] + replace_spec(rest, seq![c], r);
            assert forall|i: int| 0 <= i < out.len() implies out[i] != x by {
                if i >= 1 {
                    assert(out[i] == replace_spec(rest, seq![c], r)[i - 1]);
                }
            }
        }
    }
}

/// Escaping leaves no `<` and no `>` in the text, so an escaped path cannot
/// open or close an XML element.
pub proof fn law_xml_escape_removes_angle_brackets(s: Seq<char>)
    ensures
        lacks(xml_escape_spec(s), '<'),
        lacks(xml_escape_spec(s), '>'),
{
    reveal_strlit("&");
    reveal_strlit("<");
    reveal_strlit(">");
    reveal_strlit("&amp;");
    reveal_strlit("&lt;");
    reveal_strlit("&gt;");
    let a = replace_spec(s, "&"@, "&amp;"@);
    let b = replace_spec(a, "<"@, "&lt;"@);
    assert("&"@ =~= seq!['&']);
    assert("<"@ =~= seq!['<']);
    assert(">"@ =~= seq!['>']);
    lemma_replace_char_lacks(a, '<', "&lt;"@, '<');
    lemma_replace_char_lacks(b, '>', "&gt;"@, '<');
    lemma_replace_char_lacks(b, '>', "&gt;"@, '>');
}

/// The LaunchAgent plist for the executable at `program`.
pub open spec fn login_item_plist_spec(program: Seq<char>) -> Seq<char> {
    replace_spec(LOGIN_ITEM_PLIST@, "{program}"@, xml_escape_spec(program))
}

/// The installed app bundle for the home directory `home`.
pub open spec fn installed_app(home: Seq<char>) -> Seq<char> {
    join_path(join_path(home, "Applications"@), APP@)
}

/// The installed router executable for the home directory `home`.
pub open spec fn installed_exe(home: Seq<char>) -> Seq<char> {
    join_path(installed_app(home), BUNDLE_EXE@)
}

/// The install plan: write the config, fetch and assemble the app in
/// `staging`, move it into `~/Applications`, make it executable, register it
/// with Launch Services, install the login item, and ask to become the
/// default browser.
pub open spec fn build_spec(source: SourceView, home: Seq<char>, config: Seq<char>, staging: Seq<char>) -> Seq<ActionView> {
    seq![
        ActionView::WriteFile(join_path(home, ".ff-router.toml"@), config),
        ActionView::FetchApp(source, staging),
        ActionView::MoveInto(join_path(staging, APP@), join_path(home, "Applications"@)),
        ActionView::MakeExecutable(installed_exe(home)),
        ActionView::Run(
            "Register the app with Launch Services"@,
            LSREGISTER@,
            seq!["-f"@, installed_app(home)],
        ),
        ActionView::InstallLoginItem(
            join_path(join_path(home, "Library/LaunchAgents"@), BUNDLE_ID@ + ".plist"@),
            login_item_plist_spec(installed_exe(home)),
        ),
        ActionView::Run(
            "Request to become your default browser (macOS will ask you to confirm)"@,
            installed_exe(home),
            seq!["--set-default"@],
        ),
    ]
}

/// `path` with the home directory shortened to `~` for display.
pub open spec fn home_relative_spec(path: Seq<char>, home: Option<Seq<char>>) -> Seq<char> {
    match home {
        Some(h) => shown_path(path, strip_prefix_result(path, h)),
        None => path,
    }
}

/// The one-line "I am going to ..." description of an action.
pub open spec fn summary_spec(a: ActionView, home: Option<Seq<char>>) -> Seq<char> {
    match a {
        ActionView::WriteFile(path, _) => "Write the configuration to "@ + home_relative_spec(path, home),
        ActionView::FetchApp(source, _) => match source {
            SourceView::Download(version) => "Download Firefox Router "@ + version
                + " from GitHub and assemble the app"@,
            SourceView::Local(_) => "Assemble Firefox Router.app from the local build"@,
        },
        ActionView::MoveInto(from, dir) => "Move "@ + match file_name_result(from) {
            Some(n) => n,
            None => Seq::empty(),
        } + " into "@ + home_relative_spec(dir, home),
        ActionView::MakeExecutable(path) => "Set executable permission (chmod 755) on "@
            + home_relative_spec(path, home),
        ActionView::Run(label, _, _) => label,
        ActionView::InstallLoginItem(_, _) =>
            "Start the router at login so links open instantly (install a LaunchAgent)"@,
    }
}

/// `items` joined with single spaces.
pub open spec fn join_spaces(items: Seq<Seq<char>>) -> Seq<char>
    decreases items.len(),
{
    if items.len() == 0 {
        Seq::empty()
    } else if items.len() == 1 {
        items[0]
    } else {
        join_spaces(items.drop_last()) + " "@ + items.last()
    }
}

/// The second, detail line of an action (path, command line, ...).
pub open spec fn detail_spec(a: ActionView, home: Option<Seq<char>>) -> Seq<char> {
    match a {
        ActionView::WriteFile(path, contents) => home_relative_spec(path, home) + " ("@
            + crate::text::decimal(line_count(contents)) + " lines)"@,
        ActionView::FetchApp(source, staging) => match source {
            SourceView::Download(version) => download_url_spec(version),
            SourceView::Local(binary) => home_relative_spec(binary, home) + "  \u{2192}  "@
                + home_relative_spec(staging, home),
        },
        ActionView::MoveInto(from, dir) => home_relative_spec(from, home) + "  \u{2192}  "@
            + home_relative_spec(dir, home),
        ActionView::MakeExecutable(path) => "chmod 755 "@ + home_relative_spec(path, home),
        ActionView::Run(_, program, args) => "$ "@ + program + " "@ + join_spaces(args),
        ActionView::InstallLoginItem(plist, _) => "launchctl bootstrap gui/$UID "@
            + home_relative_spec(plist, home),
    }
}

/// A final path component, or nothing when there is none.
pub open spec fn name_or_empty(n: Option<Seq<char>>) -> Seq<char> {
    match n {
        Some(n) => n,
        None => Seq::empty(),
    }
}

/// The path whose existence decides whether an action conflicts: the file
/// that a `WriteFile` or `InstallLoginItem` writes, or the directory that a
/// `MoveInto` creates. Other actions never conflict.
pub open spec fn conflict_target_spec(a: ActionView) -> Option<Seq<char>> {
    match a {
        ActionView::WriteFile(path, _) => Some(path),
        ActionView::InstallLoginItem(plist, _) => Some(plist),
        ActionView::MoveInto(from, dir) => Some(join_path(dir, name_or_empty(file_name_result(from)))),
        _ => None,
    }
}

/// The conflict of an action whose target exists (`exists`) and, for a file,
/// holds the text `existing`: a file that would be overwritten can be diffed
/// against what would be written; a directory that would be replaced only
/// exists.
pub open spec fn conflict_spec(a: ActionView, exists: bool, existing: Seq<char>) -> ConflictView {
    if !exists {
        ConflictView::Clear
    } else {
        match a {
            ActionView::WriteFile(path, contents) => ConflictView::Text(path, existing, contents),
            ActionView::InstallLoginItem(plist, contents) => ConflictView::Text(
                plist,
                existing,
                contents,
            ),
            ActionView::MoveInto(from, dir) => ConflictView::Exists(
                join_path(dir, name_or_empty(file_name_result(from))),
            ),
            _ => ConflictView::Clear,
        }
    }
}

/// An optional string reference viewed as an optional character sequence.
pub open spec fn opt_str(o: Option<&str>) -> Option<Seq<char>> {
    match o {
        Some(s) => Some(s@),
        None => None,
    }
}

// ---------------------------------------------------------------------------
// Implementation
// ---------------------------------------------------------------------------

/// The URL of the `ff-router` release asset for a given version.
pub fn download_url(version: &str) -> (r: String)
    ensures
        r@ == download_url_spec(version@),
{
    let mut out: Vec<char> = Vec::new();
    push_str(&mut out, "https://github.com/");
    push_str(&mut out, REPO);
    push_str(&mut out, "/releases/download/v");
    push_str(&mut out, version);
    push_str(&mut out, "/ff-router");
    chars_to_string(out.as_slice())
}

/// Escape the characters that would break out of an XML text node.
pub fn xml_escape(s: &str) -> (r: String)
    ensures
        r@ == xml_escape_spec(s@),
{
    proof {
        reveal_strlit("&");
        reveal_strlit("<");
        reveal_strlit(">");
    }
    let cs = to_chars(s);
    let amp = to_chars("&");
    let lt = to_chars("<");
    let gt = to_chars(">");
    let a = replace_all(cs.as_slice(), amp.as_slice(), to_chars("&amp;").as_slice());
    let b = replace_all(a.as_slice(), lt.as_slice(), to_chars("&lt;").as_slice());
    let c = replace_all(b.as_slice(), gt.as_slice(), to_chars("&gt;").as_slice());
    chars_to_string(c.as_slice())
}

/// The LaunchAgent plist that starts the resident router at login (and now,
/// once loaded). `program` is the absolute path to the installed executable.
pub fn login_item_plist(program: &str) -> (r: String)
    ensures
        r@ == login_item_plist_spec(program@),
{
    proof {
        reveal_strlit("{program}");
    }
    let template = to_chars(LOGIN_ITEM_PLIST);
    let key = to_chars("{program}");
    let escaped = xml_escape(program);
    let value = to_chars(escaped.as_str());
    let out = replace_all(template.as_slice(), key.as_slice(), value.as_slice());
    chars_to_string(out.as_slice())
}

/// `a` joined with the text `b`.
fn join_str(a: &[char], b: &str) -> (r: Vec<char>)
    ensures
        r@ == join_path(a@, b@),
{
    let bc = to_chars(b);
    join(a, bc.as_slice())
}

/// Build the plan. The app bundle is fetched and assembled into `staging` by
/// the [`Action::FetchApp`] step before it is moved into ~/Applications.
pub fn build(source: AppSource, home: &str, config: String, staging: &str) -> (r: Vec<Action>)
    ensures
        actions_view(r@) == build_spec(source@, home@, config@, staging@),
{
    let h = to_chars(home);
    let st = to_chars(staging);
    let apps = join_str(h.as_slice(), "Applications");
    let installed = join_str(apps.as_slice(), APP);
    let exe = join_str(installed.as_slice(), BUNDLE_EXE);
    let cfg_path = join_str(h.as_slice(), ".ff-router.toml");
    let from = join_str(st.as_slice(), APP);
    let agents = join_str(h.as_slice(), "Library/LaunchAgents");
    let mut plist_name: Vec<char> = Vec::new();
    push_str(&mut plist_name, BUNDLE_ID);
    push_str(&mut plist_name, ".plist");
    let plist_path = join(agents.as_slice(), plist_name.as_slice());
    let exe_text = chars_to_string(exe.as_slice());
    let plist_contents = login_item_plist(exe_text.as_str());
    let mut register_args: Vec<String> = Vec::new();
    register_args.push(String::from_str("-f"));
    register_args.push(chars_to_string(installed.as_slice()));
    let mut default_args: Vec<String> = Vec::new();
    default_args.push(String::from_str("--set-default"));
    let mut out: Vec<Action> = Vec::new();
    out.push(Action::WriteFile { path: chars_to_string(cfg_path.as_slice()), contents: config });
    out.push(Action::FetchApp { source, staging: String::from_str(staging) });
    out.push(
        Action::MoveInto {
            from: chars_to_string(from.as_slice()),
            dir: chars_to_string(apps.as_slice()),
        },
    );
    out.push(Action::MakeExecutable { path: chars_to_string(exe.as_slice()) });
    out.push(
        Action::Run {
            label: String::from_str("Register the app with Launch Services"),
            program: String::from_str(LSREGISTER),
            args: register_args,
        },
    );
    out.push(
        Action::InstallLoginItem {
            plist: chars_to_string(plist_path.as_slice()),
            contents: plist_contents,
        },
    );
    out.push(
        Action::Run {
            label: String::from_str(
                "Request to become your default browser (macOS will ask you to confirm)",
            ),
            program: chars_to_string(exe.as_slice()),
            args: default_args,
        },
    );
    assert(texts(register_args@) == seq!["-f"@, installed_app(home@)]);
    assert(texts(default_args@) == seq!["--set-default"@]);
    assert(actions_view(out@) == build_spec(source@, home@, config@, staging@));
    out
}

/// `path` as shown once the home directory is stripped from it: `~/` and
/// the rest (`stripped`) when `path` lies under home, else `path` itself.
pub open spec fn shown_path(path: Seq<char>, stripped: Option<Seq<char>>) -> Seq<char> {
    match stripped {
        Some(rest) => "~/"@ + rest,
        None => path,
    }
}

/// Show `path` given what stripping the home directory from it left
/// (`stripped`, none when it does not lie under home).
pub fn home_relative_from(path: &str, stripped: Option<String>) -> (r: String)
    ensures
        r@ == shown_path(path@, opt_text(stripped)),
{
    match stripped {
        Some(rest) => {
            let mut out: Vec<char> = Vec::new();
            push_str(&mut out, "~/");
            push_str(&mut out, rest.as_str());
            chars_to_string(out.as_slice())
        },
        None => String::from_str(path),
    }
}

/// Render a path with the home directory `home` shortened to `~` for display.
pub fn home_relative(path: &str, home: Option<&str>) -> (r: String)
    ensures
        r@ == home_relative_spec(path@, opt_str(home)),
{
    match home {
        Some(h) => home_relative_from(path, strip_prefix(path, h)),
        None => String::from_str(path),
    }
}

/// Appends `items` joined with single spaces to `out`.
fn push_spaced(out: &mut Vec<char>, items: &Vec<String>)
    ensures
        final(out)@ == old(out)@ + join_spaces(texts(items@)),
{
    let ghost all = texts(items@);
    let mut k: usize = 0;
    assert(all.take(0) == Seq::<Seq<char>>::empty());
    assert(old(out)@ + Seq::<char>::empty() == old(out)@);
    while k < items.len()
        invariant
            all == texts(items@),
            k <= items@.len(),
            out@ == old(out)@ + join_spaces(all.take(k as int)),
        decreases items@.len() - k,
    {
        let ghost before = out@;
        if k > 0 {
            push_str(out, " ");
        }
        push_str(out, items[k].as_str());
        proof {
            let t = all.take(k + 1);
            assert(t.drop_last() == all.take(k as int));
            assert(t.last() == items@[k as int]@);
            if k == 0 {
                assert(join_spaces(t) == items@[k as int]@);
                assert(before == old(out)@ + Seq::<char>::empty());
            }
        }
        k += 1;
    }
    assert(all.take(items@.len() as int) == all);
}

impl Action {
    /// A one-line "I am going to ..." description; `home` is the user's home
    /// directory, shortened to `~`.
    pub fn summary(&self, home: Option<&str>) -> (r: String)
        ensures
            r@ == summary_spec(self@, opt_str(home)),
    {
        let mut out: Vec<char> = Vec::new();
        match self {
            Action::WriteFile { path, .. } => {
                push_str(&mut out, "Write the configuration to ");
                push_str(&mut out, home_relative(path.as_str(), home).as_str());
            },
            Action::FetchApp { source, .. } => match source {
                AppSource::Download { version } => {
                    push_str(&mut out, "Download Firefox Router ");
                    push_str(&mut out, version.as_str());
                    push_str(&mut out, " from GitHub and assemble the app");
                },
                AppSource::Local { .. } => {
                    push_str(&mut out, "Assemble Firefox Router.app from the local build");
                },
            },
            Action::MoveInto { from, dir } => {
                push_str(&mut out, "Move ");
                match file_name(from.as_str()) {
                    Some(n) => push_str(&mut out, n.as_str()),
                    None => {},
                }
                push_str(&mut out, " into ");
                push_str(&mut out, home_relative(dir.as_str(), home).as_str());
            },
            Action::MakeExecutable { path } => {
                push_str(&mut out, "Set executable permission (chmod 755) on ");
                push_str(&mut out, home_relative(path.as_str(), home).as_str());
            },
            Action::Run { label, .. } => {
                push_str(&mut out, label.as_str());
            },
            Action::InstallLoginItem { .. } => {
                push_str(
                    &mut out,
                    "Start the router at login so links open instantly (install a LaunchAgent)",
                );
            },
        }
        chars_to_string(out.as_slice())
    }

    /// A second detail line (path, command line, ...); `home` is the user's
    /// home directory, shortened to `~`.
    pub fn detail(&self, home: Option<&str>) -> (r: String)
        ensures
            r@ == detail_spec(self@, opt_str(home)),
    {
        let mut out: Vec<char> = Vec::new();
        match self {
            Action::WriteFile { path, contents } => {
                push_str(&mut out, home_relative(path.as_str(), home).as_str());
                push_str(&mut out, " (");
                let cs = to_chars(contents.as_str());
                let ls = lines(cs.as_slice());
                push_decimal(&mut out, ls.len());
                push_str(&mut out, " lines)");
            },
            Action::FetchApp { source, staging } => match source {
                AppSource::Download { version } => {
                    push_str(&mut out, download_url(version.as_str()).as_str());
                },
                AppSource::Local { binary } => {
                    push_str(&mut out, home_relative(binary.as_str(), home).as_str());
                    push_str(&mut out, "  \u{2192}  ");
                    push_str(&mut out, home_relative(staging.as_str(), home).as_str());
                },
            },
            Action::MoveInto { from, dir } => {
                push_str(&mut out, home_relative(from.as_str(), home).as_str());
                push_str(&mut out, "  \u{2192}  ");
                push_str(&mut out, home_relative(dir.as_str(), home).as_str());
            },
            Action::MakeExecutable { path } => {
                push_str(&mut out, "chmod 755 ");
                push_str(&mut out, home_relative(path.as_str(), home).as_str());
            },
            Action::Run { program, args, .. } => {
                push_str(&mut out, "$ ");
                push_str(&mut out, program.as_str());
                push_str(&mut out, " ");
                push_spaced(&mut out, args);
            },
            Action::InstallLoginItem { plist, .. } => {
                push_str(&mut out, "launchctl bootstrap gui/$UID ");
                push_str(&mut out, home_relative(plist.as_str(), home).as_str());
            },
        }
        chars_to_string(out.as_slice())
    }

    /// The path whose existence decides whether this action conflicts, if
    /// any (see [`Action::conflict`]).
    pub fn target(&self) -> (r: Option<String>)
        ensures
            opt_text(r) == conflict_target_spec(self@),
    {
        match self {
            Action::WriteFile { path, .. } => Some(path.clone()),
            Action::InstallLoginItem { plist, .. } => Some(plist.clone()),
            Action::MoveInto { from, dir } => {
                let name = match file_name(from.as_str()) {
                    Some(n) => to_chars(n.as_str()),
                    None => Vec::new(),
                };
                let d = to_chars(dir.as_str());
                let t = join(d.as_slice(), name.as_slice());
                Some(chars_to_string(t.as_slice()))
            },
            _ => None,
        }
    }

    /// Whether the action's target already exists (and can be diffed), given
    /// whether [`Action::target`] exists and the text it holds (empty when it
    /// cannot be read).
    pub fn conflict(&self, exists: bool, existing: String) -> (r: Conflict)
        ensures
            r@ == conflict_spec(self@, exists, existing@),
    {
        if !exists {
            return Conflict::Clear;
        }
        match self {
            Action::WriteFile { path, contents } => Conflict::Text {
                path: path.clone(),
                existing,
                proposed: contents.clone(),
            },
            Action::InstallLoginItem { plist, contents } => Conflict::Text {
                path: plist.clone(),
                existing,
                proposed: contents.clone(),
            },
            Action::MoveInto { .. } => match self.target() {
                Some(t) => Conflict::Exists(t),
                None => Conflict::Clear,
            },
            _ => Conflict::Clear,
        }
    }
}

// ---------------------------------------------------------------------------
// The default-browser step
// ---------------------------------------------------------------------------

/// The words that mark the step asking to become the default browser.
pub open spec fn default_browser() -> Seq<char> {
    "default browser"@
}

/// Whether `default browser` could be read across the joint of `x` and `y`:
/// a non-empty proper beginning of it ends `x` and the rest begins `y`.
pub open spec fn straddles(x: Seq<char>, y: Seq<char>) -> bool {
    let n = default_browser();
    exists|k: int|
        0 < k < n.len() && k <= x.len() && n.len() - k <= y.len() && #[trigger] x.subrange(
            x.len() - k,
            x.len() as int,
        ) == n.subrange(0, k) && y.subrange(0, n.len() - k) == n.subrange(k, n.len() as int)
}

proof fn lemma_n()
    ensures
        default_browser().len() == 15,
        default_browser() == seq!['d', 'e', 'f', 'a', 'u', 'l', 't', ' ', 'b', 'r', 'o', 'w', 's', 'e', 'r'],
{
    reveal_strlit("default browser");
    assert(default_browser() =~= seq!['d', 'e', 'f', 'a', 'u', 'l', 't', ' ', 'b', 'r', 'o', 'w', 's', 'e', 'r']);
}

proof fn lemma_concat_lacks(x: Seq<char>, y: Seq<char>)
    requires
        !contains_seq(x, default_browser()),
        !contains_seq(y, default_browser()),
        !straddles(x, y),
    ensures
        !contains_seq(x + y, default_browser()),
{
    let n = default_browser();
    let s = x + y;
    if contains_seq(s, n) {
        let p = choose|p: int| 0 <= p <= s.len() - n.len() && #[trigger] s.subrange(p, p + n.len()) == n;
        if p + n.len() <= x.len() {
            assert(x.subrange(p, p + n.len()) =~= s.subrange(p, p + n.len()));
        } else if p >= x.len() {
            assert(y.subrange(p - x.len(), p - x.len() + n.len()) =~= s.subrange(p, p + n.len()));
        } else {
            let k = x.len() - p;
            assert(x.subrange(x.len() - k, x.len() as int) =~= n.subrange(0, k)) by {
                assert forall|m: int| 0 <= m < k implies x.subrange(x.len() - k, x.len() as int)[m]
                    == n.subrange(0, k)[m] by {
                    assert(s.subrange(p, p + n.len())[m] == s[p + m]);
                }
            }
            assert(y.subrange(0, n.len() - k) =~= n.subrange(k, n.len() as int)) by {
                assert forall|m: int| 0 <= m < n.len() - k implies y.subrange(0, n.len() - k)[m]
                    == n.subrange(k, n.len() as int)[m] by {
                    assert(s.subrange(p, p + n.len())[k + m] == s[p + k + m]);
                }
            }
            assert(straddles(x, y));
        }
    }
}

/// A text without some character of `default browser` cannot hold it.
proof fn lemma_lacks_char(l: Seq<char>, c: char)
    requires
        default_browser().contains(c),
        forall|i: int| 0 <= i < l.len() ==> l[i] != c,
    ensures
        !contains_seq(l, default_browser()),
{
    let n = default_browser();
    if contains_seq(l, n) {
        let p = choose|p: int| 0 <= p <= l.len() - n.len() && #[trigger] l.subrange(p, p + n.len()) == n;
        let j = choose|j: int| 0 <= j < n.len() && n[j] == c;
        assert(l.subrange(p, p + n.len())[j] == l[p + j]);
    }
}

/// `x` ending in a character that `default browser` lacks.
proof fn lemma_left_stop(x: Seq<char>, y: Seq<char>)
    requires
        x.len() > 0,
        !default_browser().contains(x.last()),
    ensures
        !straddles(x, y),
{
    let n = default_browser();
    if straddles(x, y) {
        let k = choose|k: int|
            0 < k < n.len() && k <= x.len() && n.len() - k <= y.len() && #[trigger] x.subrange(
                x.len() - k,
                x.len() as int,
            ) == n.subrange(0, k) && y.subrange(0, n.len() - k) == n.subrange(k, n.len() as int);
        assert(x.subrange(x.len() - k, x.len() as int)[k - 1] == x.last());
        assert(n.subrange(0, k)[k - 1] == n[k - 1]);
    }
}

/// `y` starting with a character that `default browser` lacks.
proof fn lemma_right_stop(x: Seq<char>, y: Seq<char>)
    requires
        y.len() > 0,
        !default_browser().contains(y[0]),
    ensures
        !straddles(x, y),
{
    let n = default_browser();
    if straddles(x, y) {
        let k = choose|k: int|
            0 < k < n.len() && k <= x.len() && n.len() - k <= y.len() && #[trigger] x.subrange(
                x.len() - k,
                x.len() as int,
            ) == n.subrange(0, k) && y.subrange(0, n.len() - k) == n.subrange(k, n.len() as int);
        assert(y.subrange(0, n.len() - k)[0] == y[0]);
        assert(n.subrange(k, n.len() as int)[0] == n[k]);
    }
}

/// `x` ending in a space that is not the one after `default`.
proof fn lemma_left_space(x: Seq<char>, y: Seq<char>)
    requires
        x.len() > 0,
        x.last() == ' ',
        x.len() < 8 || x[x.len() - 8] != 'd',
    ensures
        !straddles(x, y),
{
    let n = default_browser();
    lemma_n();
    if straddles(x, y) {
        let k = choose|k: int|
            0 < k < n.len() && k <= x.len() && n.len() - k <= y.len() && #[trigger] x.subrange(
                x.len() - k,
                x.len() as int,
            ) == n.subrange(0, k) && y.subrange(0, n.len() - k) == n.subrange(k, n.len() as int);
        assert(x.subrange(x.len() - k, x.len() as int)[k - 1] == x.last());
        assert(n.subrange(0, k)[k - 1] == n[k - 1]);
        assert(k == 8);
        assert(x.subrange(x.len() - k, x.len() as int)[0] == x[x.len() - 8]);
        assert(n.subrange(0, k)[0] == n[0]);
    }
}

/// `y` starting with a space not followed by `b`.
proof fn lemma_right_space(x: Seq<char>, y: Seq<char>)
    requires
        y.len() > 1,
        y[0] == ' ',
        y[1] != 'b',
    ensures
        !straddles(x, y),
{
    let n = default_browser();
    lemma_n();
    if straddles(x, y) {
        let k = choose|k: int|
            0 < k < n.len() && k <= x.len() && n.len() - k <= y.len() && #[trigger] x.subrange(
                x.len() - k,
                x.len() as int,
            ) == n.subrange(0, k) && y.subrange(0, n.len() - k) == n.subrange(k, n.len() as int);
        assert(y.subrange(0, n.len() - k)[0] == y[0]);
        assert(n.subrange(k, n.len() as int)[0] == n[k]);
        assert(k == 7);
        assert(y.subrange(0, n.len() - k)[1] == y[1]);
        assert(n.subrange(k, n.len() as int)[1] == n[8]);
    }
}

/// A piece of a text without `default browser` holds none either.
proof fn lemma_piece_lacks(s: Seq<char>, a: int, b: int)
    requires
        !contains_seq(s, default_browser()),
    ensures
        !contains_seq(piece(s, a, b), default_browser()),
{
    let n = default_browser();
    let t = piece(s, a, b);
    if contains_seq(t, n) {
        let p = choose|p: int| 0 <= p <= t.len() - n.len() && #[trigger] t.subrange(p, p + n.len()) == n;
        lemma_n();
        assert(0 <= a <= b <= s.len());
        assert(s.subrange(a + p, a + p + n.len()) =~= t.subrange(p, p + n.len()));
    }
}

/// The character `c` occurs in `default browser`, at `j`.
proof fn lemma_in_n(c: char, j: int)
    requires
        0 <= j < 15,
        seq!['d', 'e', 'f', 'a', 'u', 'l', 't', ' ', 'b', 'r', 'o', 'w', 's', 'e', 'r'][j] == c,
    ensures
        default_browser().contains(c),
{
    lemma_n();
    assert(default_browser()[j] == c);
}

/// The character `c` does not occur in `default browser`.
proof fn lemma_not_in_n(c: char)
    requires
        c != 'd' && c != 'e' && c != 'f' && c != 'a' && c != 'u' && c != 'l' && c != 't' && c != ' '
            && c != 'b' && c != 'r' && c != 'o' && c != 'w' && c != 's',
    ensures
        !default_browser().contains(c),
{
    lemma_n();
}

/// Joining a path without `default browser` with a relative name that
/// starts with a character outside it and holds none gives a path without it.
proof fn lemma_join_lacks(h: Seq<char>, l: Seq<char>)
    requires
        !contains_seq(h, default_browser()),
        !contains_seq(l, default_browser()),
        l.len() > 0,
        l[0] != '/',
        !default_browser().contains(l[0]),
    ensures
        !contains_seq(join_path(h, l), default_browser()),
{
    if h.len() == 0 {
        assert(join_path(h, l) == h + l);
        lemma_right_stop(h, l);
        lemma_concat_lacks(h, l);
    } else if h.last() == '/' {
        lemma_right_stop(h, l);
        lemma_concat_lacks(h, l);
    } else {
        let slash = seq!['/'];
        lemma_not_in_n('/');
        lemma_in_n('d', 0);
        lemma_lacks_char(slash, 'd');
        lemma_right_stop(h, slash);
        lemma_concat_lacks(h, slash);
        assert((h + slash).last() == '/');
        lemma_left_stop(h + slash, l);
        lemma_concat_lacks(h + slash, l);
    }
}

/// Showing a path without `default browser` relative to a home directory
/// keeps it out.
proof fn lemma_shown_lacks(path: Seq<char>, home: Option<Seq<char>>)
    requires
        !contains_seq(path, default_browser()),
    ensures
        !contains_seq(home_relative_spec(path, home), default_browser()),
{
    match home {
        Some(h) => match strip_prefix_span(path, h) {
            Some((a, b)) => {
                reveal_strlit("~/");
                let tilde = "~/"@;
                lemma_in_n('d', 0);
                lemma_lacks_char(tilde, 'd');
                lemma_piece_lacks(path, a, b);
                lemma_not_in_n('/');
                lemma_left_stop(tilde, piece(path, a, b));
                lemma_concat_lacks(tilde, piece(path, a, b));
            },
            None => {},
        },
        None => {},
    }
}

proof fn lemma_paths_lack(home_dir: Seq<char>, staging: Seq<char>)
    requires
        !contains_seq(home_dir, default_browser()),
        !contains_seq(staging, default_browser()),
    ensures
        !contains_seq(join_path(home_dir, ".ff-router.toml"@), default_browser()),
        !contains_seq(join_path(home_dir, "Applications"@), default_browser()),
        !contains_seq(join_path(staging, APP@), default_browser()),
        !contains_seq(installed_exe(home_dir), default_browser()),
{
    lemma_n();
    lemma_in_n('w', 11);
    lemma_not_in_n('.');
    lemma_not_in_n('A');
    lemma_not_in_n('F');
    lemma_not_in_n('C');
    reveal_strlit(".ff-router.toml");
    reveal_strlit("Applications");
    reveal_strlit("Firefox Router.app");
    reveal_strlit("Contents/MacOS/ff-router");
    assert(APP@ == "Firefox Router.app"@);
    assert(BUNDLE_EXE@ == "Contents/MacOS/ff-router"@);
    lemma_lacks_char(".ff-router.toml"@, 'w');
    lemma_lacks_char("Applications"@, 'w');
    lemma_lacks_char("Firefox Router.app"@, 'w');
    lemma_lacks_char("Contents/MacOS/ff-router"@, 'w');
    lemma_join_lacks(home_dir, ".ff-router.toml"@);
    lemma_join_lacks(home_dir, "Applications"@);
    lemma_join_lacks(staging, APP@);
    lemma_join_lacks(join_path(home_dir, "Applications"@), APP@);
    lemma_join_lacks(installed_app(home_dir), BUNDLE_EXE@);
}

proof fn lemma_write_summary_lacks(p0: Seq<char>, shown: Option<Seq<char>>)
    requires
        !contains_seq(p0, default_browser()),
    ensures
        !contains_seq("Write the configuration to "@ + home_relative_spec(p0, shown), default_browser()),
{
    lemma_n();
    lemma_in_n('w', 11);
    reveal_strlit("Write the configuration to ");
    let l0 = "Write the configuration to "@;
    lemma_lacks_char(l0, 'w');
    lemma_shown_lacks(p0, shown);
    lemma_left_space(l0, home_relative_spec(p0, shown));
    lemma_concat_lacks(l0, home_relative_spec(p0, shown));
}

proof fn lemma_fetch_summary_lacks(source: SourceView, shown: Option<Seq<char>>, staging: Seq<char>)
    requires
        source matches SourceView::Download(v) ==> !contains_seq(v, default_browser()),
    ensures
        !contains_seq(summary_spec(ActionView::FetchApp(source, staging), shown), default_browser()),
{
    lemma_n();
    lemma_in_n('w', 11);
    lemma_in_n('b', 8);
    match source {
        SourceView::Download(v) => {
            reveal_strlit("Download Firefox Router ");
            reveal_strlit(" from GitHub and assemble the app");
            let l1 = "Download Firefox Router "@;
            let r1 = " from GitHub and assemble the app"@;
            lemma_lacks_char(l1, 'b');
            lemma_lacks_char(r1, 'w');
            lemma_left_space(l1, v);
            lemma_concat_lacks(l1, v);
            lemma_right_space(l1 + v, r1);
            lemma_concat_lacks(l1 + v, r1);
        },
        SourceView::Local(_) => {
            reveal_strlit("Assemble Firefox Router.app from the local build");
            lemma_lacks_char("Assemble Firefox Router.app from the local build"@, 'w');
        },
    }
}

proof fn lemma_move_summary_lacks(from: Seq<char>, dir: Seq<char>, shown: Option<Seq<char>>)
    requires
        !contains_seq(from, default_browser()),
        !contains_seq(dir, default_browser()),
    ensures
        !contains_seq(summary_spec(ActionView::MoveInto(from, dir), shown), default_browser()),
{
    lemma_n();
    lemma_in_n('d', 0);
    reveal_strlit("Move ");
    reveal_strlit(" into ");
    let mv = "Move "@;
    let into = " into "@;
    let nm = match file_name_result(from) {
        Some(x) => x,
        None => Seq::<char>::empty(),
    };
    match file_name_span(from) {
        Some((x0, x1)) => lemma_piece_lacks(from, x0, x1),
        None => lemma_lacks_char(nm, 'd'),
    }
    lemma_lacks_char(mv, 'd');
    lemma_lacks_char(into, 'd');
    lemma_left_space(mv, nm);
    lemma_concat_lacks(mv, nm);
    lemma_shown_lacks(dir, shown);
    let hr2 = home_relative_spec(dir, shown);
    lemma_left_space(into, hr2);
    lemma_concat_lacks(into, hr2);
    lemma_right_space(mv + nm, into + hr2);
    lemma_concat_lacks(mv + nm, into + hr2);
    assert(summary_spec(ActionView::MoveInto(from, dir), shown) =~= (mv + nm) + (into + hr2));
}

proof fn lemma_chmod_summary_lacks(exe: Seq<char>, shown: Option<Seq<char>>)
    requires
        !contains_seq(exe, default_browser()),
    ensures
        !contains_seq(
            "Set executable permission (chmod 755) on "@ + home_relative_spec(exe, shown),
            default_browser(),
        ),
{
    lemma_n();
    lemma_in_n('w', 11);
    reveal_strlit("Set executable permission (chmod 755) on ");
    let l3 = "Set executable permission (chmod 755) on "@;
    lemma_lacks_char(l3, 'w');
    lemma_shown_lacks(exe, shown);
    lemma_left_space(l3, home_relative_spec(exe, shown));
    lemma_concat_lacks(l3, home_relative_spec(exe, shown));
}

proof fn lemma_fixed_summaries()
    ensures
        !contains_seq("Register the app with Launch Services"@, default_browser()),
        !contains_seq(
            "Start the router at login so links open instantly (install a LaunchAgent)"@,
            default_browser(),
        ),
        contains_seq(
            "Request to become your default browser (macOS will ask you to confirm)"@,
            default_browser(),
        ),
{
    lemma_n();
    lemma_in_n('w', 11);
    lemma_in_n('b', 8);
    reveal_strlit("Register the app with Launch Services");
    lemma_lacks_char("Register the app with Launch Services"@, 'b');
    reveal_strlit("Start the router at login so links open instantly (install a LaunchAgent)");
    lemma_lacks_char("Start the router at login so links open instantly (install a LaunchAgent)"@, 'w');
    reveal_strlit("Request to become your default browser (macOS will ask you to confirm)");
    let l6 = "Request to become your default browser (macOS will ask you to confirm)"@;
    assert(l6.subrange(23int, 23int + default_browser().len()) =~= default_browser());
}

/// Exactly one step of a built plan speaks of the default browser, and it is
/// the last: so declining that prompt (`--no-set-default`) drops that step
/// alone. This holds when the home directory, the staging directory and a
/// downloaded version do not themselves spell `default browser`, for any
/// home directory the paths are shown relative to.
pub proof fn law_one_default_browser_step(source: SourceView, home_dir: Seq<char>, config: Seq<char>, staging: Seq<char>, shown: Option<Seq<char>>)
    requires
        !contains_seq(home_dir, default_browser()),
        !contains_seq(staging, default_browser()),
        source matches SourceView::Download(v) ==> !contains_seq(v, default_browser()),
    ensures
        build_spec(source, home_dir, config, staging).len() == 7,
        contains_seq(summary_spec(build_spec(source, home_dir, config, staging)[6], shown), default_browser()),
        forall|k: int|
            0 <= k < 6 ==> !contains_seq(
                #[trigger] summary_spec(build_spec(source, home_dir, config, staging)[k], shown),
                default_browser(),
            ),
{
    let a = build_spec(source, home_dir, config, staging);
    lemma_paths_lack(home_dir, staging);
    lemma_write_summary_lacks(join_path(home_dir, ".ff-router.toml"@), shown);
    lemma_fetch_summary_lacks(source, shown, staging);
    lemma_move_summary_lacks(join_path(staging, APP@), join_path(home_dir, "Applications"@), shown);
    lemma_chmod_summary_lacks(installed_exe(home_dir), shown);
    lemma_fixed_summaries();
    assert forall|k: int| 0 <= k < 6 implies !contains_seq(#[trigger] summary_spec(a[k], shown), default_browser()) by {
        if k == 0 {
            assert(summary_spec(a[0], shown) == "Write the configuration to "@ + home_relative_spec(
                join_path(home_dir, ".ff-router.toml"@),
                shown,
            ));
        } else if k == 3 {
            assert(summary_spec(a[3], shown) == "Set executable permission (chmod 755) on "@
                + home_relative_spec(installed_exe(home_dir), shown));
        }
    }
}

/// The login item starts the very executable the plan makes executable and
/// asks to become the default browser: the LaunchAgent's contents are the
/// plist for the path of the `MakeExecutable` step, which is also the
/// program of the final `Run` step.
pub proof fn law_login_item_runs_the_installed_executable(source: SourceView, home: Seq<char>, config: Seq<char>, staging: Seq<char>)
    ensures
        ({
            let a = build_spec(source, home, config, staging);
            &&& a[3] matches ActionView::MakeExecutable(exe)
            &&& a[5] matches ActionView::InstallLoginItem(_, contents)
            &&& a[6] matches ActionView::Run(_, program, _)
            &&& contents == login_item_plist_spec(exe)
            &&& program == exe
            &&& exe == join_path(
                join_path(join_path(home, "Applications"@), APP@),
                "Contents/MacOS/ff-router"@,
            )
        }),
{
    reveal_strlit("Contents/MacOS/ff-router");
    assert(BUNDLE_EXE@ == "Contents/MacOS/ff-router"@);
}

} // verus!
