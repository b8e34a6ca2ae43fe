//! What the router does with one invocation: which mode its argument selects,
//! which Firefox command line a link becomes, and the debug-log line that
//! records the decision.

use vstd::prelude::*;
use crate::paths::{join, join_path, opt_text};
use crate::router::config::{Config, Opener, OpenerView, explain_spec, first_rule, opener_view, opt_view, opt_string_view, profile_dir, routed_label};
use crate::text::{chars_to_string, is_prefix, push_str, starts_with, to_chars};

verus! {

/// The Firefox executable the router launches.
pub const FIREFOX: &'static str = "/Applications/Firefox.app/Contents/MacOS/firefox";

/// What one invocation of the router does.
pub enum Invocation {
    /// Ask macOS to make the router the default browser (`--set-default`).
    SetDefault,
    /// Route the link given on the command line (terminal use, testing); there
    /// is no opening application to attribute it to.
    Open(String),
    /// Run as an app and route the links macOS hands over.
    App,
}

/// The mathematical content of an [`Invocation`].
pub enum InvocationView {
    SetDefault,
    Open(Seq<char>),
    App,
}

impl View for Invocation {
    type V = InvocationView;

    open spec fn view(&self) -> InvocationView {
        match self {
            Invocation::SetDefault => InvocationView::SetDefault,
            Invocation::Open(u) => InvocationView::Open(u@),
            Invocation::App => InvocationView::App,
        }
    }
}

/// The invocation selected by the first command-line argument.
pub open spec fn invocation_spec(arg: Option<Seq<char>>) -> InvocationView {
    match arg {
        Some(a) => if a == "--set-default"@ {
            InvocationView::SetDefault
        } else if is_prefix("http://"@, a) || is_prefix("https://"@, a) {
            InvocationView::Open(a)
        } else {
            InvocationView::App
        },
        None => InvocationView::App,
    }
}

/// The invocation selected by the first command-line argument `arg`.
pub fn invocation(arg: Option<&str>) -> (r: Invocation)
    ensures
        r@ == invocation_spec(opt_view(arg)),
{
    match arg {
        Some(a) => {
            let cs = to_chars(a);
            let set_default = to_chars("--set-default");
            let http = to_chars("http://");
            let https = to_chars("https://");
            if crate::text::eq_chars(cs.as_slice(), set_default.as_slice()) {
                Invocation::SetDefault
            } else if starts_with(cs.as_slice(), http.as_slice()) || starts_with(
                cs.as_slice(),
                https.as_slice(),
            ) {
                Invocation::Open(String::from_str(a))
            } else {
                Invocation::App
            }
        },
        None => Invocation::App,
    }
}

/// The opener reported by the sending process: `None` when it exposed
/// neither a bundle id nor a name, since there is nothing to match on.
pub fn opener_from(bundle_id: Option<String>, name: Option<String>) -> (r: Option<Opener>)
    ensures
        match r {
            Some(o) => o@ == (opt_text(bundle_id), opt_text(name)) && (bundle_id is Some
                || name is Some),
            None => bundle_id is None && name is None,
        },
{
    if bundle_id.is_none() && name.is_none() {
        return None;
    }
    Some(Opener { bundle_id, name })
}

/// What launching a link needs: the profile directory to pass to Firefox
/// (none for Firefox's own default profile) and, when the configuration asks
/// for it, the explanation to append to the debug log.
pub struct Launch {
    pub profile: Option<String>,
    pub log: Option<String>,
}

/// The decision for `url` opened by `opener` under the configuration `c`,
/// if there is one, with the user's home `home`: the routed profile, and the
/// decision's explanation when `debug` is on.
pub open spec fn launch_profile(c: Option<crate::router::config::ConfigView>, url: Seq<char>, opener: Option<OpenerView>, home: Option<Seq<char>>) -> Option<Seq<char>> {
    match c {
        Some(c) => profile_dir(c, routed_label(c, url, opener), home),
        None => None,
    }
}

/// The explanation logged for `url` (see [`launch_profile`]).
pub open spec fn launch_log(c: Option<crate::router::config::ConfigView>, url: Seq<char>, opener: Option<OpenerView>, home: Option<Seq<char>>) -> Option<Seq<char>> {
    match c {
        Some(c) => if c.debug == Some(true) {
            Some(
                explain_spec(
                    match first_rule(c.rules, url, opener) {
                        Some(i) => Some(i as nat),
                        None => None,
                    },
                    routed_label(c, url, opener),
                    profile_dir(c, routed_label(c, url, opener), home),
                ),
            )
        } else {
            None
        },
        None => None,
    }
}

/// The view of an optional configuration.
pub open spec fn config_view(c: Option<&Config>) -> Option<crate::router::config::ConfigView> {
    match c {
        Some(c) => Some(c@),
        None => None,
    }
}

/// Route `url` (opened by `opener`, if known) with the configuration `config`
/// (none when it is missing or malformed, which falls back to Firefox's own
/// default profile). With `debug = true` the decision is also explained.
pub fn plan_launch(config: Option<&Config>, url: &str, opener: Option<&Opener>, home: Option<&str>) -> (r: Launch)
    ensures
        opt_text(r.profile) == launch_profile(config_view(config), url@, opener_view(opener), opt_view(home)),
        opt_text(r.log) == launch_log(config_view(config), url@, opener_view(opener), opt_view(home)),
{
    match config {
        Some(c) => if c.is_debug() {
            let d = c.decide(url, opener, home);
            Launch { profile: d.profile, log: Some(d.explanation) }
        } else {
            Launch { profile: c.profile_path(url, opener, home), log: None }
        },
        None => Launch { profile: None, log: None },
    }
}

/// The Firefox arguments for `url` in `profile`.
pub open spec fn firefox_args_spec(profile: Option<Seq<char>>, url: Seq<char>) -> Seq<Seq<char>> {
    match profile {
        Some(p) => seq!["--profile"@, p, url],
        None => seq![url],
    }
}

/// The Firefox arguments that open `url` in `profile` (Firefox's own default
/// profile when there is none).
pub fn firefox_args(profile: Option<&str>, url: &str) -> (r: Vec<String>)
    ensures
        r@.map_values(|s: String| s@) == firefox_args_spec(opt_view(profile), url@),
{
    let mut out: Vec<String> = Vec::new();
    match profile {
        Some(p) => {
            out.push(String::from_str("--profile"));
            out.push(String::from_str(p));
        },
        None => {},
    }
    out.push(String::from_str(url));
    assert(out@.map_values(|s: String| s@) =~= firefox_args_spec(opt_view(profile), url@));
    out
}

// ---------------------------------------------------------------------------
// Debug log
// ---------------------------------------------------------------------------

/// An optional field, `?` when missing.
pub open spec fn or_question(o: Option<Seq<char>>) -> Seq<char> {
    match o {
        Some(s) => s,
        None => "?"@,
    }
}

/// `Name (bundle.id)` for a known opener (with `?` for a missing field), else
/// `unknown` when the OS attached no sender.
pub open spec fn describe_spec(opener: Option<OpenerView>) -> Seq<char> {
    match opener {
        None => "unknown"@,
        Some(o) => or_question(o.1) + " ("@ + or_question(o.0) + ")"@,
    }
}

/// One debug-log line: the time, the URL, the opener and the explanation.
pub open spec fn log_line_spec(timestamp: Seq<char>, url: Seq<char>, opener: Option<OpenerView>, explanation: Seq<char>) -> Seq<char> {
    timestamp + " url="@ + url + " opener="@ + describe_spec(opener) + " "@ + explanation + "\n"@
}

/// Appends an optional field to `out`, `?` when missing.
fn push_or_question(out: &mut Vec<char>, o: &Option<String>)
    ensures
        final(out)@ == old(out)@ + or_question(opt_text(*o)),
{
    match o {
        Some(s) => push_str(out, s.as_str()),
        None => push_str(out, "?"),
    }
}

/// `Name (bundle.id)` for a known opener (with `?` for a missing field), else
/// `unknown` when the OS attached no sender.
pub fn describe(opener: Option<&Opener>) -> (r: String)
    ensures
        r@ == describe_spec(opener_view(opener)),
{
    let mut out: Vec<char> = Vec::new();
    match opener {
        None => push_str(&mut out, "unknown"),
        Some(o) => {
            push_or_question(&mut out, &o.name);
            push_str(&mut out, " (");
            push_or_question(&mut out, &o.bundle_id);
            push_str(&mut out, ")");
        },
    }
    chars_to_string(out.as_slice())
}

/// The debug-log line for `url` opened by `opener`, stamped `timestamp`.
pub fn log_line(timestamp: &str, url: &str, opener: Option<&Opener>, explanation: &str) -> (r: String)
    ensures
        r@ == log_line_spec(timestamp@, url@, opener_view(opener), explanation@),
{
    let mut out: Vec<char> = Vec::new();
    push_str(&mut out, timestamp);
    push_str(&mut out, " url=");
    push_str(&mut out, url);
    push_str(&mut out, " opener=");
    push_str(&mut out, describe(opener).as_str());
    push_str(&mut out, " ");
    push_str(&mut out, explanation);
    push_str(&mut out, "\n");
    chars_to_string(out.as_slice())
}

/// Whether `c` is an ASCII digit.
pub open spec fn is_digit(c: char) -> bool {
    '0' <= c <= '9'
}

/// Whether `t` reads `YYYY-MM-DDTHH:MM:SSZ`: a year of at least four digits
/// (one past 9999 carries a leading `+`), then `-MM-DDTHH:MM:SSZ` with
/// two-digit fields.
pub open spec fn timestamp_shape(t: Seq<char>) -> bool {
    let n = t.len() as int;
    let y = n - 16;
    &&& n >= 20
    &&& forall|i: int| 0 <= i < y ==> (#[trigger] is_digit(t[i]) || (i == 0 && t[i] == '+'))
    &&& t[y] == '-'
    &&& t[y + 3] == '-'
    &&& t[y + 6] == 'T'
    &&& t[y + 9] == ':'
    &&& t[y + 12] == ':'
    &&& t[n - 1] == 'Z'
    &&& forall|k: int|
        0 <= k < 5 ==> is_digit(#[trigger] t[y + 1 + 3 * k]) && is_digit(t[y + 2 + 3 * k])
}

/// The current UTC time as `YYYY-MM-DDTHH:MM:SSZ`.
///
/// Trusted: formats `chrono::Utc::now()` with `%Y-%m-%dT%H:%M:%SZ`. The time
/// itself is not stated (it depends on the clock). The contract states the
/// shape chrono's formatter writes: `%Y` is the year zero-padded to four
/// digits, with a `+` before a year past 9999 (the clock is never before
/// 1970: `Utc::now` panics on a clock before the epoch, a fault of the
/// machine, not of any input), and `%m`, `%d`, `%H`, `%M`, `%S` are two
/// zero-padded digits each.
#[verifier::external_body]
fn utc_timestamp() -> (r: String)
    ensures
        timestamp_shape(r@),
{
    chrono::Utc::now().format("%Y-%m-%dT%H:%M:%SZ").to_string()
}

/// The debug-log line for `url` opened by `opener`, stamped with the current
/// UTC time.
pub fn log_entry(url: &str, opener: Option<&Opener>, explanation: &str) -> (r: String)
    ensures
        exists|ts: Seq<char>|
            timestamp_shape(ts) && r@ == log_line_spec(
                ts,
                url@,
                opener_view(opener),
                explanation@,
            ),
{
    let ts = utc_timestamp();
    let r = log_line(ts.as_str(), url, opener, explanation);
    assert(r@ == log_line_spec(ts@, url@, opener_view(opener), explanation@));
    r
}

/// `name` in the home directory `home`, if it is known.
pub open spec fn in_home(home: Option<Seq<char>>, name: Seq<char>) -> Option<Seq<char>> {
    match home {
        Some(h) => Some(join_path(h, name)),
        None => None,
    }
}

/// The file `name` in the home directory `home`, if it is known.
pub fn home_file(home: Option<&str>, name: &str) -> (r: Option<String>)
    ensures
        opt_text(r) == in_home(opt_view(home), name@),
{
    match home {
        Some(h) => {
            let hc = to_chars(h);
            let nc = to_chars(name);
            let p = join(hc.as_slice(), nc.as_slice());
            Some(chars_to_string(p.as_slice()))
        },
        None => None,
    }
}

/// The user's home directory: `$HOME`, else the account name (`$USER`, then
/// `$USERNAME`) under the platform's users directory (`os` as
/// `std::env::consts::OS` names it); none without either.
pub open spec fn home_dir_spec(home: Option<Seq<char>>, user: Option<Seq<char>>, username: Option<Seq<char>>, os: Seq<char>) -> Option<Seq<char>> {
    match home {
        Some(h) => Some(h),
        None => {
            let account = match user {
                Some(u) => Some(u),
                None => username,
            };
            match account {
                Some(u) => if os == "macos"@ {
                    Some(join_path("/Users"@, u))
                } else if os == "windows"@ {
                    Some("C:\\Users\\"@ + u)
                } else {
                    Some(join_path("/home"@, u))
                },
                None => None,
            }
        },
    }
}

/// The user's home directory (see [`home_dir_spec`]).
pub fn home_dir(home: Option<String>, user: Option<String>, username: Option<String>, os: &str) -> (r: Option<String>)
    ensures
        opt_text(r) == home_dir_spec(opt_text(home), opt_text(user), opt_text(username), os@),
{
    if let Some(h) = home {
        return Some(h);
    }
    let account = match user {
        Some(u) => u,
        None => match username {
            Some(u) => u,
            None => return None,
        },
    };
    let o = to_chars(os);
    let macos = to_chars("macos");
    let windows = to_chars("windows");
    let a = to_chars(account.as_str());
    if crate::text::eq_chars(o.as_slice(), macos.as_slice()) {
        let base = to_chars("/Users");
        let p = join(base.as_slice(), a.as_slice());
        Some(chars_to_string(p.as_slice()))
    } else if crate::text::eq_chars(o.as_slice(), windows.as_slice()) {
        let mut p: Vec<char> = Vec::new();
        push_str(&mut p, "C:\\Users\\");
        push_str(&mut p, account.as_str());
        Some(chars_to_string(p.as_slice()))
    } else {
        let base = to_chars("/home");
        let p = join(base.as_slice(), a.as_slice());
        Some(chars_to_string(p.as_slice()))
    }
}

} // verus!
