//! Evaluation of the router configuration (`~/.ff-router.toml`): which rule a
//! link matches, which profile it routes to, and why.

use vstd::prelude::*;
use crate::paths::{is_absolute, join, join_path};
use crate::strmap::StrMap;
use crate::text::{chars_to_string, decimal, push_all, push_decimal, push_str, to_chars};

verus! {

/// Directory holding Firefox profiles, relative to `$HOME`.
pub const PROFILES_DIR: &'static str = "Library/Application Support/Firefox/Profiles";

/// The application that asked macOS to open a URL, as reported by the Apple
/// Event that delivered it. Either field may be absent (e.g. a process without
/// an `Info.plist`), and callers pass `None` when there is no discernible
/// sender at all (terminal `open`, Spotlight, direct invocation).
#[derive(Debug, Default)]
pub struct Opener {
    /// The opener's `CFBundleIdentifier`, e.g. `com.tinyspeck.slackmacgap`.
    pub bundle_id: Option<String>,
    /// The opener's localized display name, e.g. `Slack`.
    pub name: Option<String>,
}

/// The mathematical content of an [`Opener`]: bundle id and name.
pub type OpenerView = (Option<Seq<char>>, Option<Seq<char>>);

impl View for Opener {
    type V = OpenerView;

    open spec fn view(&self) -> OpenerView {
        (
            match &self.bundle_id {
                Some(b) => Some(b@),
                None => None,
            },
            match &self.name {
                Some(n) => Some(n@),
                None => None,
            },
        )
    }
}

/// The view of an optional opener.
pub open spec fn opener_view(o: Option<&Opener>) -> Option<OpenerView> {
    match o {
        Some(op) => Some(op@),
        None => None,
    }
}

/// One `[[rule]]`: a target profile label plus URL and source globs.
#[derive(Debug, Default)]
pub struct Rule {
    profile: String,
    /// Globs matched against the URL. Empty means "any URL".
    globs: Vec<String>,
    /// Globs matched against the opening application's bundle id *and* its
    /// localized name; the rule applies when at least one glob matches either.
    /// Empty means "any source". A source that is set only matches when the
    /// opener is known, so URLs opened without a sender skip such rules.
    source: Vec<String>,
}

/// The mathematical content of a [`Rule`]: profile label, URL globs, source globs.
pub type RuleView = (Seq<char>, Seq<Seq<char>>, Seq<Seq<char>>);

/// The character sequences held by a vector of strings.
pub open spec fn strings_of(v: Seq<String>) -> Seq<Seq<char>> {
    v.map_values(|x: String| x@)
}

impl View for Rule {
    type V = RuleView;

    closed spec fn view(&self) -> RuleView {
        (self.profile@, strings_of(self.globs@), strings_of(self.source@))
    }
}

/// The router configuration.
pub struct Config {
    /// When true, append each routing decision (URL, opener, matched rule) to
    /// `~/.ff-router.log`. Off when unset.
    debug: Option<bool>,
    /// Profile label used when no rule matches (falls back to Firefox's own
    /// default profile if unset).
    default: Option<String>,
    /// Label -> Firefox profile directory name (or an absolute path).
    profiles: StrMap,
    /// Ordered override rules; the first matching rule wins.
    rules: Vec<Rule>,
}

/// The mathematical content of a [`Config`].
#[verifier::ext_equal]
pub struct ConfigView {
    pub debug: Option<bool>,
    pub default: Option<Seq<char>>,
    pub profiles: Map<Seq<char>, Seq<char>>,
    pub rules: Seq<RuleView>,
}

impl View for Config {
    type V = ConfigView;

    closed spec fn view(&self) -> ConfigView {
        ConfigView {
            debug: self.debug,
            default: match &self.default {
                Some(d) => Some(d@),
                None => None,
            },
            profiles: self.profiles@,
            rules: self.rules@.map_values(|r: Rule| r@),
        }
    }
}

/// The outcome of routing one URL: the profile to launch with, plus a
/// human-readable explanation of how the decision was reached (for the debug
/// log).
pub struct Decision {
    /// Firefox profile directory to launch with, or `None` for Firefox's own
    /// default profile.
    pub profile: Option<String>,
    /// One-line description of which rule matched and where it routed.
    pub explanation: String,
}

// ---------------------------------------------------------------------------
// Glob matching through `globset`
// ---------------------------------------------------------------------------

/// Whether `globset` accepts `value` for `pattern` in the router's dialect
/// (`*`/`?` cross `/`, `\` escapes, case-insensitive; a pattern that does not
/// parse, or whose regex does not compile within globset's limits, accepts
/// nothing).
pub uninterp spec fn glob_accepts(pattern: Seq<char>, value: Seq<char>) -> bool;

/// Match `value` against one glob using the router's dialect: `*`/`?` cross `/`
/// (URLs and bundle ids are not paths), `\` escapes metacharacters, and
/// matching is case-insensitive. A malformed pattern never matches, and
/// neither does one too large or too deeply nested to compile.
///
/// Trusted: builds the glob with `globset::GlobBuilder` (`literal_separator(false)`,
/// `backslash_escape(true)`, `case_insensitive(true)`), puts it in a
/// `globset::GlobSetBuilder`, and asks the built set `is_match`. Both `build`
/// calls return a `Result`; an error gives `false`. (Compiling through the set
/// rather than `Glob::compile_matcher`, whose regex compilation ends in an
/// `expect`, keeps an over-limit pattern from panicking; with
/// `case_insensitive` the set only uses regex strategies, whose compilation
/// errors come back as `Err`.) The contract only names the result
/// ([`glob_accepts`]): it is a function of the two strings alone. What
/// globset's dialect accepts is not restated here.
#[verifier::external_body]
fn glob_match(pattern: &str, value: &str) -> (r: bool)
    ensures
        r == glob_accepts(pattern@, value@),
{
    match globset::GlobBuilder::new(pattern)
        .literal_separator(false)
        .backslash_escape(true)
        .case_insensitive(true)
        .build()
    {
        Ok(glob) => match globset::GlobSetBuilder::new().add(glob).build() {
            Ok(set) => set.is_match(value),
            Err(_) => false,
        },
        Err(_) => false,
    }
}

// ---------------------------------------------------------------------------
// Routing specification
// ---------------------------------------------------------------------------

/// Some glob of `globs` accepts `value`.
pub open spec fn any_glob(globs: Seq<Seq<char>>, value: Seq<char>) -> bool {
    exists|k: int| 0 <= k < globs.len() && glob_accepts(#[trigger] globs[k], value)
}

/// Some `source` glob accepts the opener's bundle id or its name; never true
/// for an unknown opener.
pub open spec fn source_ok(source: Seq<Seq<char>>, opener: Option<OpenerView>) -> bool {
    match opener {
        None => false,
        Some(op) => exists|k: int|
            0 <= k < source.len() && ((op.0 matches Some(b) && glob_accepts(#[trigger] source[k], b))
                || (op.1 matches Some(n) && glob_accepts(source[k], n))),
    }
}

/// Whether a rule applies to `url` opened by `opener`: each dimension that is
/// set must match, and a rule with neither set matches nothing.
pub open spec fn rule_applies(r: RuleView, url: Seq<char>, opener: Option<OpenerView>) -> bool {
    &&& !(r.1.len() == 0 && r.2.len() == 0)
    &&& (r.1.len() == 0 || any_glob(r.1, url))
    &&& (r.2.len() == 0 || source_ok(r.2, opener))
}

/// Index of the first rule at or after `i` that applies.
pub open spec fn first_rule_from(rules: Seq<RuleView>, url: Seq<char>, opener: Option<OpenerView>, i: int) -> Option<int>
    decreases rules.len() - i,
{
    if i < 0 || i >= rules.len() {
        None
    } else if rule_applies(rules[i], url, opener) {
        Some(i)
    } else {
        first_rule_from(rules, url, opener, i + 1)
    }
}

/// Index of the first rule that applies, if any.
pub open spec fn first_rule(rules: Seq<RuleView>, url: Seq<char>, opener: Option<OpenerView>) -> Option<int> {
    first_rule_from(rules, url, opener, 0)
}

/// The profile label `url` routes to: the first matching rule's, else the
/// default label.
pub open spec fn routed_label(c: ConfigView, url: Seq<char>, opener: Option<OpenerView>) -> Option<Seq<char>> {
    match first_rule(c.rules, url, opener) {
        Some(i) => Some(c.rules[i].0),
        None => c.default,
    }
}

/// A profile value resolved to a directory: absolute paths as-is, bare names
/// under the Firefox profiles directory of `home` (empty when unknown).
pub open spec fn resolve_spec(value: Seq<char>, home: Option<Seq<char>>) -> Seq<char> {
    if is_absolute(value) {
        value
    } else {
        join_path(
            join_path(
                match home {
                    Some(h) => h,
                    None => Seq::empty(),
                },
                PROFILES_DIR@,
            ),
            value,
        )
    }
}

/// The directory a label resolves to through `[profiles]`.
pub open spec fn profile_dir(c: ConfigView, label: Option<Seq<char>>, home: Option<Seq<char>>) -> Option<Seq<char>> {
    match label {
        Some(l) => if c.profiles.contains_key(l) {
            Some(resolve_spec(c.profiles[l], home))
        } else {
            None
        },
        None => None,
    }
}

/// The debug-log description of where a decision routed.
pub open spec fn target_text(label: Option<Seq<char>>, profile: Option<Seq<char>>) -> Seq<char> {
    match (label, profile) {
        (Some(l), Some(p)) => "profile \""@ + l + "\" ("@ + p + ")"@,
        (Some(l), None) => "profile \""@ + l + "\" (not found in [profiles]; using Firefox default)"@,
        (None, _) => "Firefox default profile"@,
    }
}

/// The debug-log explanation of a routing decision.
pub open spec fn explain_spec(rule: Option<nat>, label: Option<Seq<char>>, profile: Option<Seq<char>>) -> Seq<char> {
    match rule {
        Some(i) => "matched rule #"@ + decimal(i) + " -> "@ + target_text(label, profile),
        None => if label is Some {
            "no rule matched -> default "@ + target_text(label, profile)
        } else {
            "no rule matched, no default -> "@ + target_text(label, profile)
        },
    }
}

/// An optional string reference viewed as an optional character sequence.
pub open spec fn opt_view(o: Option<&str>) -> Option<Seq<char>> {
    match o {
        Some(s) => Some(s@),
        None => None,
    }
}

/// An optional string viewed as an optional character sequence.
pub open spec fn opt_string_view(o: Option<String>) -> Option<Seq<char>> {
    match o {
        Some(s) => Some(s@),
        None => None,
    }
}

/// `c` with the base `base` merged under it (`extends`): `c` wins for
/// `debug` and `default`, `[profiles]` merge key by key with `c`'s entries
/// winning, and the rules are `c`'s followed by the base's.
pub open spec fn extend_spec(c: ConfigView, base: ConfigView) -> ConfigView {
    ConfigView {
        debug: if c.debug is Some { c.debug } else { base.debug },
        default: if c.default is Some { c.default } else { base.default },
        profiles: base.profiles.union_prefer_right(c.profiles),
        rules: c.rules + base.rules,
    }
}

/// `c` with each base of `bases` merged under it in turn; a base that could
/// not be loaded (`None`) is skipped.
pub open spec fn extend_fold(c: ConfigView, bases: Seq<Option<ConfigView>>) -> ConfigView
    decreases bases.len(),
{
    if bases.len() == 0 {
        c
    } else {
        let before = extend_fold(c, bases.drop_last());
        match bases.last() {
            Some(b) => extend_spec(before, b),
            None => before,
        }
    }
}

/// The rules of the loaded bases of `bases`, in order.
pub open spec fn base_rules(bases: Seq<Option<ConfigView>>) -> Seq<RuleView>
    decreases bases.len(),
{
    if bases.len() == 0 {
        Seq::empty()
    } else {
        base_rules(bases.drop_last()) + match bases.last() {
            Some(b) => b.rules,
            None => Seq::empty(),
        }
    }
}

/// The views of optional configurations.
pub open spec fn bases_view(v: Seq<Option<Config>>) -> Seq<Option<ConfigView>> {
    v.map_values(|o: Option<Config>| match o {
        Some(c) => Some(c@),
        None => None,
    })
}

/// How deep `extends` chains are followed: a base at this depth or deeper is
/// taken for a cycle and skipped.
pub const MAX_EXTENDS_DEPTH: usize = 16;

/// Whether the bases of a file at `depth` (the top file at 0) are followed.
pub fn may_follow_extends(depth: usize) -> (r: bool)
    ensures
        r == (depth + 1 < MAX_EXTENDS_DEPTH),
{
    depth < MAX_EXTENDS_DEPTH - 1
}

// ---------------------------------------------------------------------------
// Implementation
// ---------------------------------------------------------------------------

/// Whether some glob of `globs` matches `value`.
fn any_glob_matches(globs: &Vec<String>, value: &str) -> (r: bool)
    ensures
        r == any_glob(strings_of(globs@), value@),
{
    let mut k: usize = 0;
    while k < globs.len()
        invariant
            k <= globs@.len(),
            forall|m: int| 0 <= m < k ==> !glob_accepts(#[trigger] strings_of(globs@)[m], value@),
        decreases globs@.len() - k,
    {
        if glob_match(globs[k].as_str(), value) {
            assert(glob_accepts(strings_of(globs@)[k as int], value@));
            return true;
        }
        k += 1;
    }
    false
}

/// Whether any `source` glob matches the opener's bundle id or localized name.
/// A `source` constraint never matches when the opener is unknown.
fn source_matches(source: &Vec<String>, opener: Option<&Opener>) -> (r: bool)
    ensures
        r == source_ok(strings_of(source@), opener_view(opener)),
{
    let op = match opener {
        Some(op) => op,
        None => return false,
    };
    let ghost sv = strings_of(source@);
    let mut k: usize = 0;
    while k < source.len()
        invariant
            k <= source@.len(),
            sv == strings_of(source@),
            opener_view(opener) == Some(op@),
            forall|m: int|
                0 <= m < k ==> !((op@.0 matches Some(b) && glob_accepts(#[trigger] sv[m], b)) || (
                op@.1 matches Some(n) && glob_accepts(sv[m], n))),
        decreases source@.len() - k,
    {
        let g = source[k].as_str();
        let by_bundle = match &op.bundle_id {
            Some(b) => glob_match(g, b.as_str()),
            None => false,
        };
        let by_name = match &op.name {
            Some(n) => glob_match(g, n.as_str()),
            None => false,
        };
        if by_bundle || by_name {
            assert(sv[k as int] == source@[k as int]@);
            assert((op@.0 matches Some(b) && glob_accepts(sv[k as int], b)) || (op@.1 matches Some(n)
                && glob_accepts(sv[k as int], n)));
            assert(opener_view(opener) == Some(op@));
            assert(source_ok(sv, Some(op@)));
            return true;
        }
        k += 1;
    }
    false
}

impl Rule {
    /// A rule routing to `profile` when `globs` (URL) and `source` (opener)
    /// constraints hold.
    pub fn new(profile: String, globs: Vec<String>, source: Vec<String>) -> (r: Rule)
        ensures
            r@ == (profile@, strings_of(globs@), strings_of(source@)),
    {
        Rule { profile, globs, source }
    }

    /// Whether this rule applies to `url` opened by `opener`. Each dimension
    /// that is set (`globs`, `source`) must match; an empty list is "no
    /// constraint". A rule with neither set matches nothing.
    pub fn matches(&self, url: &str, opener: Option<&Opener>) -> (r: bool)
        ensures
            r == rule_applies(self@, url@, opener_view(opener)),
    {
        let has_globs = self.globs.len() > 0;
        let has_source = self.source.len() > 0;
        if !has_globs && !has_source {
            return false;
        }
        let url_hit = has_globs && any_glob_matches(&self.globs, url);
        let source_hit = has_source && source_matches(&self.source, opener);
        rule_verdict(has_globs, has_source, url_hit, source_hit)
    }
}

/// Whether a rule applies, from what its globs gave: `url_hit` (some URL glob
/// matched) and `source_hit` (some source glob matched the opener). Each
/// dimension that is set must match; a rule with neither set matches nothing.
pub fn rule_verdict(has_globs: bool, has_source: bool, url_hit: bool, source_hit: bool) -> (r: bool)
    ensures
        r == ((has_globs || has_source) && (!has_globs || url_hit) && (!has_source || source_hit)),
{
    if !has_globs && !has_source {
        return false;
    }
    (!has_globs || url_hit) && (!has_source || source_hit)
}

impl Config {
    /// A configuration from its parts.
    pub fn new(debug: Option<bool>, default: Option<String>, profiles: StrMap, rules: Vec<Rule>) -> (r: Config)
        ensures
            r@.debug == debug,
            r@.default == opt_string_view(default),
            r@.profiles == profiles@,
            r@.rules == rules@.map_values(|x: Rule| x@),
    {
        Config { debug, default, profiles, rules }
    }

    /// Whether routing decisions should be appended to the debug log.
    pub fn is_debug(&self) -> (r: bool)
        ensures
            r == (self@.debug == Some(true)),
    {
        match self.debug {
            Some(d) => d,
            None => false,
        }
    }

    /// Merge the base configuration `base` under this one (`extends`): this
    /// file wins over its base for `debug` and `default`, `[profiles]` merge key
    /// by key with this file's entries winning, and the rule list is this
    /// file's rules followed by the base's.
    pub fn extend_with(&mut self, base: Config)
        ensures
            final(self)@.debug == (if old(self)@.debug is Some { old(self)@.debug } else { base@.debug }),
            final(self)@.default == (if old(self)@.default is Some {
                old(self)@.default
            } else {
                base@.default
            }),
            final(self)@.profiles == base@.profiles.union_prefer_right(old(self)@.profiles),
            final(self)@.rules == old(self)@.rules + base@.rules,
    {
        let Config { debug, default, profiles, mut rules } = base;
        if self.debug.is_none() {
            self.debug = debug;
        }
        if self.default.is_none() {
            self.default = default;
        }
        let mut local = StrMap::new();
        std::mem::swap(&mut local, &mut self.profiles);
        self.profiles = StrMap::overlay(profiles, local);
        let ghost mine = self.rules@;
        let ghost theirs = rules@;
        self.rules.append(&mut rules);
        assert((mine + theirs).map_values(|x: Rule| x@) == mine.map_values(|x: Rule| x@)
            + theirs.map_values(|x: Rule| x@));
    }

    /// Merge each base of `bases` under this configuration in turn, skipping
    /// those that could not be loaded (`None`): the first base ranks above
    /// the second, and so on, and this file above them all.
    pub fn extend_all(&mut self, bases: Vec<Option<Config>>)
        ensures
            final(self)@ == extend_fold(old(self)@, bases_view(bases@)),
    {
        let ghost all = bases_view(bases@);
        let n = bases.len();
        let mut rest = bases;
        let mut taken: usize = 0;
        assert(all.take(0) =~= Seq::<Option<ConfigView>>::empty());
        while rest.len() > 0
            invariant
                all.len() == n,
                taken <= all.len(),
                rest@.len() == all.len() - taken,
                bases_view(rest@) == all.subrange(taken as int, all.len() as int),
                self@ == extend_fold(old(self)@, all.take(taken as int)),
            decreases rest@.len(),
        {
            let ghost old_rest = rest@;
            let b = rest.remove(0);
            proof {
                assert(bases_view(old_rest)[0] == all[taken as int]);
                assert forall|k: int| 0 <= k < rest@.len() implies #[trigger] bases_view(rest@)[k]
                    == all.subrange(taken + 1, all.len() as int)[k] by {
                    assert(rest@[k] == old_rest[k + 1]);
                    assert(bases_view(old_rest)[k + 1] == all[taken + 1 + k]);
                }
                assert(bases_view(rest@) =~= all.subrange(taken + 1, all.len() as int));
                assert(all.take(taken + 1).drop_last() =~= all.take(taken as int));
                assert(all.take(taken + 1).last() == all[taken as int]);
            }
            match b {
                Some(base) => {
                    let ghost bv = base@;
                    self.extend_with(base);
                    assert(self@ =~= extend_spec(extend_fold(old(self)@, all.take(taken as int)), bv));
                },
                None => {},
            }
            taken += 1;
        }
        assert(all.take(taken as int) =~= all);
    }

    /// The first matching rule's index and profile label; falls back to the
    /// `default` label (with no rule index) when nothing matches. `(None, None)`
    /// when there is no match and no default.
    pub fn resolve_label(&self, url: &str, opener: Option<&Opener>) -> (r: (Option<usize>, Option<&str>))
        ensures
            match first_rule(self@.rules, url@, opener_view(opener)) {
                Some(i) => r.0 matches Some(j) && j as int == i,
                None => r.0 is None,
            },
            opt_view(r.1) == routed_label(self@, url@, opener_view(opener)),
    {
        let ghost rv = self@.rules;
        let ghost op = opener_view(opener);
        let mut i: usize = 0;
        while i < self.rules.len()
            invariant
                i <= self.rules@.len(),
                rv == self@.rules,
                op == opener_view(opener),
                first_rule_from(rv, url@, op, i as int) == first_rule(rv, url@, op),
            decreases self.rules@.len() - i,
        {
            assert(rv[i as int] == self.rules@[i as int]@);
            if self.rules[i].matches(url, opener) {
                return (Some(i), Some(self.rules[i].profile.as_str()));
            }
            i += 1;
        }
        match &self.default {
            Some(d) => (None, Some(d.as_str())),
            None => (None, None),
        }
    }

    /// The profile label the url routes to (first matching rule, else default).
    pub fn label_for(&self, url: &str, opener: Option<&Opener>) -> (r: Option<&str>)
        ensures
            opt_view(r) == routed_label(self@, url@, opener_view(opener)),
    {
        self.resolve_label(url, opener).1
    }

    /// Resolve a profile label to its directory, `None` if the label is unset
    /// or absent from `[profiles]`. `home` is the user's home directory.
    pub fn profile_for_label(&self, label: Option<&str>, home: Option<&str>) -> (r: Option<String>)
        ensures
            opt_string_view(r) == profile_dir(self@, opt_view(label), opt_view(home)),
    {
        match label {
            None => None,
            Some(l) => match self.profiles.get(l) {
                Some(value) => Some(resolve(value.as_str(), home)),
                None => None,
            },
        }
    }

    /// Resolve `url` (opened by `opener`, if known) to a Firefox profile
    /// directory, or `None` to fall back to Firefox's own default profile.
    pub fn profile_path(&self, url: &str, opener: Option<&Opener>, home: Option<&str>) -> (r: Option<String>)
        ensures
            opt_string_view(r) == profile_dir(
                self@,
                routed_label(self@, url@, opener_view(opener)),
                opt_view(home),
            ),
    {
        self.profile_for_label(self.resolve_label(url, opener).1, home)
    }

    /// Like [`Config::profile_path`], but also explains how the decision was
    /// reached.
    pub fn decide(&self, url: &str, opener: Option<&Opener>, home: Option<&str>) -> (r: Decision)
        ensures
            opt_string_view(r.profile) == profile_dir(
                self@,
                routed_label(self@, url@, opener_view(opener)),
                opt_view(home),
            ),
            r.explanation@ == explain_spec(
                match first_rule(self@.rules, url@, opener_view(opener)) {
                    Some(i) => Some(i as nat),
                    None => None,
                },
                routed_label(self@, url@, opener_view(opener)),
                opt_string_view(r.profile),
            ),
    {
        let (rule, label) = self.resolve_label(url, opener);
        let profile = self.profile_for_label(label, home);
        let explanation = match &profile {
            Some(p) => explain(rule, label, Some(p.as_str())),
            None => explain(rule, label, None),
        };

        Decision { profile, explanation }
    }
}

/// Build the debug-log explanation of a routing decision.
pub fn explain(rule: Option<usize>, label: Option<&str>, profile: Option<&str>) -> (r: String)
    ensures
        r@ == explain_spec(
            match rule {
                Some(i) => Some(i as nat),
                None => None,
            },
            opt_view(label),
            opt_view(profile),
        ),
{
    let mut target: Vec<char> = Vec::new();
    match (label, profile) {
        (Some(l), Some(p)) => {
            push_str(&mut target, "profile \"");
            push_str(&mut target, l);
            push_str(&mut target, "\" (");
            push_str(&mut target, p);
            push_str(&mut target, ")");
        },
        (Some(l), None) => {
            push_str(&mut target, "profile \"");
            push_str(&mut target, l);
            push_str(&mut target, "\" (not found in [profiles]; using Firefox default)");
        },
        (None, _) => {
            push_str(&mut target, "Firefox default profile");
        },
    }
    assert(target@ == target_text(opt_view(label), opt_view(profile)));
    let mut out: Vec<char> = Vec::new();
    match rule {
        Some(i) => {
            push_str(&mut out, "matched rule #");
            push_decimal(&mut out, i);
            push_str(&mut out, " -> ");
        },
        None => {
            if label.is_some() {
                push_str(&mut out, "no rule matched -> default ");
            } else {
                push_str(&mut out, "no rule matched, no default -> ");
            }
        },
    }
    push_all(&mut out, target.as_slice());
    chars_to_string(out.as_slice())
}

/// A bare directory name is resolved under the Firefox profiles directory of
/// `home`; an absolute path is used as-is.
pub fn resolve(value: &str, home: Option<&str>) -> (r: String)
    ensures
        r@ == resolve_spec(value@, opt_view(home)),
{
    let v = to_chars(value);
    if v.len() > 0 && v[0] == '/' {
        return chars_to_string(v.as_slice());
    }
    let h = match home {
        Some(h) => to_chars(h),
        None => Vec::new(),
    };
    let dir = to_chars(PROFILES_DIR);
    let base = join(h.as_slice(), dir.as_slice());
    let full = join(base.as_slice(), v.as_slice());
    chars_to_string(full.as_slice())
}


/// Where an `extends` entry points: a leading `~/` is expanded with `home`
/// (empty when unknown), an absolute path is used as-is, and a relative path
/// resolves against `dir`, the including file's directory.
pub open spec fn include_path_spec(entry: Seq<char>, dir: Seq<char>, home: Option<Seq<char>>) -> Seq<char> {
    if entry.len() >= 2 && entry[0] == '~' && entry[1] == '/' {
        join_path(
            match home {
                Some(h) => h,
                None => Seq::empty(),
            },
            entry.subrange(2, entry.len() as int),
        )
    } else {
        join_path(dir, entry)
    }
}

/// Resolve an `extends` entry of the file in directory `dir` (see
/// [`include_path_spec`]).
pub fn include_path(entry: &str, dir: &str, home: Option<&str>) -> (r: String)
    ensures
        r@ == include_path_spec(entry@, dir@, opt_view(home)),
{
    let e = to_chars(entry);
    if e.len() >= 2 && e[0] == '~' && e[1] == '/' {
        let h = match home {
            Some(h) => to_chars(h),
            None => Vec::new(),
        };
        let rest = crate::text::sub_chars(e.as_slice(), 2, e.len());
        let full = join(h.as_slice(), rest.as_slice());
        chars_to_string(full.as_slice())
    } else {
        let d = to_chars(dir);
        let full = join(d.as_slice(), e.as_slice());
        chars_to_string(full.as_slice())
    }
}

// ---------------------------------------------------------------------------
// Laws
// ---------------------------------------------------------------------------

proof fn lemma_first_rule_from(rules: Seq<RuleView>, url: Seq<char>, op: Option<OpenerView>, i: int, k: int)
    requires
        0 <= k <= i,
        forall|j: int| k <= j < i ==> !rule_applies(rules[j], url, op),
    ensures
        first_rule_from(rules, url, op, k) == first_rule_from(rules, url, op, i),
    decreases i - k,
{
    if k < i {
        lemma_first_rule_from(rules, url, op, i, k + 1);
    }
}

/// The first matching rule wins: when rule `i` applies and no earlier rule
/// does, the link routes to rule `i`'s profile label.
pub proof fn law_first_matching_rule_wins(c: ConfigView, url: Seq<char>, op: Option<OpenerView>, i: int)
    requires
        0 <= i < c.rules.len(),
        rule_applies(c.rules[i], url, op),
        forall|j: int| 0 <= j < i ==> !rule_applies(c.rules[j], url, op),
    ensures
        first_rule(c.rules, url, op) == Some(i),
        routed_label(c, url, op) == Some(c.rules[i].0),
{
    lemma_first_rule_from(c.rules, url, op, i, 0);
}

/// A link that no rule matches routes to the `default` label (none when
/// there is no default).
pub proof fn law_unmatched_falls_back_to_default(c: ConfigView, url: Seq<char>, op: Option<OpenerView>)
    requires
        forall|j: int| 0 <= j < c.rules.len() ==> !rule_applies(c.rules[j], url, op),
    ensures
        first_rule(c.rules, url, op) is None,
        routed_label(c, url, op) == c.default,
{
    lemma_first_rule_from(c.rules, url, op, c.rules.len() as int, 0);
}

/// A rule with neither `globs` nor `source` matches nothing.
pub proof fn law_empty_rule_matches_nothing(r: RuleView, url: Seq<char>, op: Option<OpenerView>)
    requires
        r.1.len() == 0,
        r.2.len() == 0,
    ensures
        !rule_applies(r, url, op),
{
}

/// With both `globs` and `source` set, a rule applies exactly when both match.
pub proof fn law_globs_and_source_are_anded(r: RuleView, url: Seq<char>, op: Option<OpenerView>)
    requires
        r.1.len() > 0,
        r.2.len() > 0,
    ensures
        rule_applies(r, url, op) == (any_glob(r.1, url) && source_ok(r.2, op)),
{
}

/// A `source` rule never matches a link opened without a known sender.
pub proof fn law_source_rule_skips_unknown_opener(r: RuleView, url: Seq<char>)
    requires
        r.2.len() > 0,
    ensures
        !rule_applies(r, url, None),
{
}

/// A profile given as an absolute path is used as-is; a bare name resolves
/// under `$HOME/Library/Application Support/Firefox/Profiles`.
pub proof fn law_profile_resolution(value: Seq<char>, home: Seq<char>)
    ensures
        is_absolute(value) ==> resolve_spec(value, Some(home)) == value,
        !is_absolute(value) ==> resolve_spec(value, Some(home)) == join_path(
            join_path(home, PROFILES_DIR@),
            value,
        ),
{
}

/// A label missing from `[profiles]` routes to Firefox's own default profile.
pub proof fn law_unknown_label_has_no_profile(c: ConfigView, label: Seq<char>, home: Option<Seq<char>>)
    requires
        !c.profiles.contains_key(label),
    ensures
        profile_dir(c, Some(label), home) is None,
{
}

proof fn lemma_first_rule_prefix(a: Seq<RuleView>, b: Seq<RuleView>, url: Seq<char>, op: Option<OpenerView>, i: int)
    requires
        0 <= i <= a.len(),
    ensures
        first_rule_from(a + b, url, op, i) == match first_rule_from(a, url, op, i) {
            Some(j) => Some(j),
            None => match first_rule_from(b, url, op, 0) {
                Some(j) => Some(j + a.len()),
                None => None,
            },
        },
    decreases a.len() - i,
{
    if i < a.len() {
        assert((a + b)[i] == a[i]);
        lemma_first_rule_prefix(a, b, url, op, i + 1);
    } else {
        lemma_first_rule_shift(a, b, url, op, 0);
    }
}

proof fn lemma_first_rule_shift(a: Seq<RuleView>, b: Seq<RuleView>, url: Seq<char>, op: Option<OpenerView>, k: int)
    requires
        0 <= k <= b.len(),
    ensures
        first_rule_from(a + b, url, op, a.len() + k) == match first_rule_from(b, url, op, k) {
            Some(j) => Some(j + a.len()),
            None => None,
        },
    decreases b.len() - k,
{
    if k < b.len() {
        assert((a + b)[a.len() + k] == b[k]);
        lemma_first_rule_shift(a, b, url, op, k + 1);
    }
}

/// After `extends`, this file's rules come first: a link that one of this
/// file's rules matches is routed by this file, whatever the base holds; a
/// link that none of them matches is routed by the base's rules, then by the
/// merged default.
pub proof fn law_local_rules_beat_base_rules(local: Seq<RuleView>, base: Seq<RuleView>, url: Seq<char>, op: Option<OpenerView>)
    ensures
        first_rule(local + base, url, op) == match first_rule(local, url, op) {
            Some(j) => Some(j),
            None => match first_rule(base, url, op) {
                Some(j) => Some(j + local.len()),
                None => None,
            },
        },
{
    lemma_first_rule_prefix(local, base, url, op, 0);
}

/// Merging several bases keeps this file on top: its `debug` and `default`,
/// when set, and its `[profiles]` entries survive every merge, and the rule
/// list is this file's rules followed by each loaded base's, in turn.
pub proof fn law_bases_merge_in_turn(c: ConfigView, bases: Seq<Option<ConfigView>>)
    ensures
        extend_fold(c, bases).rules == c.rules + base_rules(bases),
        c.debug is Some ==> extend_fold(c, bases).debug == c.debug,
        c.default is Some ==> extend_fold(c, bases).default == c.default,
        forall|k: Seq<char>|
            c.profiles.contains_key(k) ==> #[trigger] extend_fold(c, bases).profiles.contains_key(k)
                && extend_fold(c, bases).profiles[k] == c.profiles[k],
    decreases bases.len(),
{
    if bases.len() > 0 {
        law_bases_merge_in_turn(c, bases.drop_last());
        let before = extend_fold(c, bases.drop_last());
        match bases.last() {
            Some(b) => {
                assert(c.rules + base_rules(bases) =~= before.rules + b.rules);
            },
            None => {
                assert(c.rules + base_rules(bases) =~= before.rules);
            },
        }
    } else {
        assert(c.rules + base_rules(bases) =~= c.rules);
    }
}

} // verus!
