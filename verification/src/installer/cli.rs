//! The installer's command line: which mode to run in, flag values, where the
//! router binary comes from, and which plan steps a headless install keeps.

use vstd::prelude::*;
use crate::installer::plan::{Action, ActionView, AppSource, SourceView, actions_view, build_spec, default_browser, law_one_default_browser_step, opt_str, summary_spec};
use crate::paths::opt_text;
use crate::text::{chars_to_string, contains, contains_seq, eq_chars, is_prefix, push_str, starts_with, sub_chars, to_chars};

verus! {

/// How the installer was asked to run.
#[derive(PartialEq, Eq, Structural, Debug, Clone, Copy)]
pub enum Mode {
    /// Print the discovered Firefox profiles and exit (`--list`).
    List,
    /// Run the install plan without the TUI (`--non-interactive`, `--yes`, `-y`).
    NonInteractive,
    /// The full-screen wizard.
    Interactive,
}

/// The character sequences held by a sequence of strings.
pub open spec fn arg_texts(v: Seq<String>) -> Seq<Seq<char>> {
    v.map_values(|x: String| x@)
}

/// Whether `name` is one of `args`.
pub open spec fn has_arg(args: Seq<Seq<char>>, name: Seq<char>) -> bool {
    exists|i: int| 0 <= i < args.len() && args[i] == name
}

/// The mode `args` select: `--list` wins over the headless flags.
pub open spec fn mode_spec(args: Seq<Seq<char>>) -> Mode {
    if has_arg(args, "--list"@) {
        Mode::List
    } else if has_arg(args, "--non-interactive"@) || has_arg(args, "--yes"@) || has_arg(args, "-y"@) {
        Mode::NonInteractive
    } else {
        Mode::Interactive
    }
}

/// The value of the flag `name` from position `i` on: the argument after the
/// first one equal to `name` (nothing when it is the last), or the rest of the
/// first one that starts with `name=`, whichever comes first.
pub open spec fn flag_from(args: Seq<Seq<char>>, name: Seq<char>, i: int) -> Option<Seq<char>>
    decreases args.len() - i,
{
    if i < 0 || i >= args.len() {
        None
    } else if args[i] == name {
        if i + 1 < args.len() {
            Some(args[i + 1])
        } else {
            None
        }
    } else if is_prefix(name + "="@, args[i]) {
        Some(args[i].subrange(name.len() + 1int, args[i].len() as int))
    } else {
        flag_from(args, name, i + 1)
    }
}

/// The value of the flag `name` in `args` (see [`flag_from`]).
pub open spec fn flag_value_spec(args: Seq<Seq<char>>, name: Seq<char>) -> Option<Seq<char>> {
    flag_from(args, name, 0)
}

/// Whether the argument `a` is exactly `name`.
fn arg_is(a: &String, name: &str) -> (r: bool)
    ensures
        r == (a@ == name@),
{
    let x = to_chars(a.as_str());
    let y = to_chars(name);
    eq_chars(x.as_slice(), y.as_slice())
}

/// Whether `name` is one of `args`.
pub fn has_flag(args: &[String], name: &str) -> (r: bool)
    ensures
        r == has_arg(arg_texts(args@), name@),
{
    let ghost all = arg_texts(args@);
    let mut i: usize = 0;
    while i < args.len()
        invariant
            all == arg_texts(args@),
            i <= args@.len(),
            forall|k: int| 0 <= k < i ==> all[k] != name@,
        decreases args@.len() - i,
    {
        if arg_is(&args[i], name) {
            assert(all[i as int] == name@);
            return true;
        }
        i += 1;
    }
    false
}

/// The mode the installer's arguments select.
pub fn mode(args: &[String]) -> (r: Mode)
    ensures
        r == mode_spec(arg_texts(args@)),
{
    if has_flag(args, "--list") {
        Mode::List
    } else if has_flag(args, "--non-interactive") || has_flag(args, "--yes") || has_flag(args, "-y") {
        Mode::NonInteractive
    } else {
        Mode::Interactive
    }
}

/// The value following `name` in `args`, supporting both `--flag value` and
/// `--flag=value`.
pub fn flag_value(args: &[String], name: &str) -> (r: Option<String>)
    ensures
        opt_text(r) == flag_value_spec(arg_texts(args@), name@),
{
    let ghost all = arg_texts(args@);
    let mut eq_prefix = to_chars(name);
    eq_prefix.push('=');
    proof {
        reveal_strlit("=");
        assert(eq_prefix@ == name@ + "="@);
    }
    let n = name.len();
    let mut i: usize = 0;
    while i < args.len()
        invariant
            all == arg_texts(args@),
            i <= args@.len(),
            eq_prefix@ == name@ + "="@,
            eq_prefix@.len() == name@.len() + 1,
            flag_value_spec(all, name@) == flag_from(all, name@, i as int),
        decreases args@.len() - i,
    {
        let a = to_chars(args[i].as_str());
        assert(a@ == all[i as int]);
        if arg_is(&args[i], name) {
            if i + 1 < args.len() {
                return Some(args[i + 1].clone());
            }
            return None;
        }
        if starts_with(a.as_slice(), eq_prefix.as_slice()) {
            let rest = sub_chars(a.as_slice(), eq_prefix.len(), a.len());
            return Some(chars_to_string(rest.as_slice()));
        }
        i += 1;
    }
    None
}

/// Where the router binary comes from, given the `FF_ROUTER_BIN` setting
/// (`bin`), whether it names a file, and the installer's own version.
pub open spec fn app_source_spec(bin: Option<Seq<char>>, bin_is_file: bool, version: Seq<char>) -> Result<SourceView, Seq<char>> {
    match bin {
        Some(path) => if bin_is_file {
            Ok(SourceView::Local(path))
        } else {
            Err("FF_ROUTER_BIN is set but is not a file: "@ + path)
        },
        None => Ok(SourceView::Download(version)),
    }
}

/// The view of a source decision.
pub open spec fn source_result_view(r: Result<AppSource, String>) -> Result<SourceView, Seq<char>> {
    match r {
        Ok(s) => Ok(s@),
        Err(e) => Err(e@),
    }
}

/// Decide where `ff-router` comes from: a local build named by
/// `FF_ROUTER_BIN` (which must be a file), else the release download of
/// `version`.
pub fn app_source(bin: Option<String>, bin_is_file: bool, version: String) -> (r: Result<AppSource, String>)
    ensures
        source_result_view(r) == app_source_spec(opt_text(bin), bin_is_file, version@),
{
    match bin {
        Some(path) => if bin_is_file {
            Ok(AppSource::Local { binary: path })
        } else {
            let mut out: Vec<char> = Vec::new();
            push_str(&mut out, "FF_ROUTER_BIN is set but is not a file: ");
            push_str(&mut out, path.as_str());
            Err(chars_to_string(out.as_slice()))
        },
        None => Ok(AppSource::Download { version }),
    }
}

/// Whether a headless install keeps the step `a`: the config write only when
/// a config is being written, and the default-browser prompt only unless it
/// was declined (`--no-set-default`).
pub open spec fn keep_spec(a: ActionView, write_config: bool, no_set_default: bool, home: Option<Seq<char>>) -> bool {
    &&& (write_config || !(a is WriteFile))
    &&& (!no_set_default || !contains_seq(summary_spec(a, home), "default browser"@))
}

/// The steps of `actions` that a headless install keeps, in order.
pub open spec fn kept_spec(actions: Seq<ActionView>, write_config: bool, no_set_default: bool, home: Option<Seq<char>>) -> Seq<ActionView>
    decreases actions.len(),
{
    if actions.len() == 0 {
        Seq::empty()
    } else {
        let before = kept_spec(actions.drop_last(), write_config, no_set_default, home);
        if keep_spec(actions.last(), write_config, no_set_default, home) {
            before.push(actions.last())
        } else {
            before
        }
    }
}

/// Whether a headless install keeps the step `a`.
fn keep(a: &Action, write_config: bool, no_set_default: bool, home: Option<&str>) -> (r: bool)
    ensures
        r == keep_spec(a@, write_config, no_set_default, opt_str(home)),
{
    let is_write = match a {
        Action::WriteFile { .. } => true,
        _ => false,
    };
    if !write_config && is_write {
        return false;
    }
    if no_set_default {
        let s = a.summary(home);
        let sc = to_chars(s.as_str());
        let needle = to_chars("default browser");
        if contains(sc.as_slice(), needle.as_slice()) {
            return false;
        }
    }
    true
}

/// The plan steps of a headless install: without the config write when the
/// existing config is reused (`write_config` false), and without the
/// default-browser prompt when it was declined (`no_set_default`).
pub fn select_actions(actions: Vec<Action>, write_config: bool, no_set_default: bool, home: Option<&str>) -> (r: Vec<Action>)
    ensures
        actions_view(r@) == kept_spec(actions_view(actions@), write_config, no_set_default, opt_str(home)),
{
    let ghost all = actions_view(actions@);
    let mut rest = actions;
    let mut out: Vec<Action> = Vec::new();
    let ghost mut taken: int = 0;
    while rest.len() > 0
        invariant
            0 <= taken <= all.len(),
            rest@.len() == all.len() - taken,
            actions_view(rest@) == all.subrange(taken, all.len() as int),
            actions_view(out@) == kept_spec(all.take(taken), write_config, no_set_default, opt_str(home)),
        decreases rest@.len(),
    {
        let ghost old_rest = rest@;
        let a = rest.remove(0);
        proof {
            assert(actions_view(old_rest)[0] == all[taken]);
            assert forall|k: int| 0 <= k < rest@.len() implies #[trigger] actions_view(rest@)[k]
                == all.subrange(taken + 1, all.len() as int)[k] by {
                assert(rest@[k] == old_rest[k + 1]);
                assert(actions_view(old_rest)[k + 1] == all[taken + 1 + k]);
            }
            assert(actions_view(rest@) =~= all.subrange(taken + 1, all.len() as int));
            assert(all.take(taken + 1).drop_last() =~= all.take(taken));
            assert(all.take(taken + 1).last() == all[taken]);
            assert(a@ == all[taken]);
        }
        let k = keep(&a, write_config, no_set_default, home);
        if k {
            let ghost before = out@;
            out.push(a);
            assert(actions_view(out@) =~= actions_view(before).push(all[taken]));
        }
        proof {
            taken = taken + 1;
        }
    }
    assert(all.take(taken) =~= all);
    out
}

/// Whether a headless install must back up the existing config before
/// replacing it: only when it writes a config (`write_config`) and a readable
/// file is there already (`existing`) with other content.
pub fn needs_backup(write_config: bool, existing: Option<&str>, config: &str) -> (r: bool)
    ensures
        r == (write_config && match existing {
            Some(e) => e@ != config@,
            None => false,
        }),
{
    if !write_config {
        return false;
    }
    match existing {
        Some(e) => {
            let a = to_chars(e);
            let b = to_chars(config);
            !eq_chars(a.as_slice(), b.as_slice())
        },
        None => false,
    }
}

/// A headless install that reuses the existing config never writes one, and
/// one that declined the default-browser prompt keeps no step that asks for
/// it: every kept step passes both filters, and the kept steps come from the
/// plan.
pub proof fn law_headless_plan_respects_flags(actions: Seq<ActionView>, write_config: bool, no_set_default: bool, home: Option<Seq<char>>)
    ensures
        forall|i: int|
            0 <= i < kept_spec(actions, write_config, no_set_default, home).len() ==> {
                let a = #[trigger] kept_spec(actions, write_config, no_set_default, home)[i];
                &&& (!write_config ==> !(a is WriteFile))
                &&& (no_set_default ==> !contains_seq(summary_spec(a, home), "default browser"@))
                &&& actions.contains(a)
            },
    decreases actions.len(),
{
    if actions.len() > 0 {
        let rest = actions.drop_last();
        law_headless_plan_respects_flags(rest, write_config, no_set_default, home);
        let before = kept_spec(rest, write_config, no_set_default, home);
        let kept = kept_spec(actions, write_config, no_set_default, home);
        assert forall|i: int| 0 <= i < kept.len() implies {
            let a = #[trigger] kept[i];
            &&& (!write_config ==> !(a is WriteFile))
            &&& (no_set_default ==> !contains_seq(summary_spec(a, home), "default browser"@))
            &&& actions.contains(a)
        } by {
            if i < before.len() {
                assert(kept[i] == before[i]);
                let j = choose|j: int| 0 <= j < rest.len() && rest[j] == before[i];
                assert(actions[j] == rest[j]);
            } else {
                assert(kept[i] == actions.last());
                assert(actions[actions.len() - 1] == actions.last());
            }
        }
    }
}

/// Whether a headless install keeps `a` by its flags: the config write only
/// when `write_config`, and a step asking to become the default browser only
/// when the prompt was not declined.
pub open spec fn flags_allow(write_config: bool, no_set_default: bool, home: Option<Seq<char>>) -> spec_fn(ActionView) -> bool {
    |a: ActionView|
        (write_config || !(a is WriteFile)) && (!no_set_default || !contains_seq(
            summary_spec(a, home),
            "default browser"@,
        ))
}

/// A headless install drops exactly what its flags ask for: the steps kept
/// are the plan's steps, in order, that the flags allow, and no others.
pub proof fn law_headless_keeps_exactly_the_allowed_steps(actions: Seq<ActionView>, write_config: bool, no_set_default: bool, home: Option<Seq<char>>)
    ensures
        kept_spec(actions, write_config, no_set_default, home) == actions.filter(
            flags_allow(write_config, no_set_default, home),
        ),
    decreases actions.len(),
{
    reveal(Seq::filter);
    if actions.len() > 0 {
        law_headless_keeps_exactly_the_allowed_steps(actions.drop_last(), write_config, no_set_default, home);
    }
}

proof fn lemma_kept_prefix(a: Seq<ActionView>, k: int, write_config: bool, no_set_default: bool, home: Option<Seq<char>>)
    requires
        0 <= k <= a.len(),
        forall|m: int| 0 <= m < k ==> #[trigger] keep_spec(a[m], write_config, no_set_default, home),
    ensures
        kept_spec(a.take(k), write_config, no_set_default, home) == a.take(k),
    decreases k,
{
    if k > 0 {
        lemma_kept_prefix(a, k - 1, write_config, no_set_default, home);
        assert(a.take(k).drop_last() =~= a.take(k - 1));
        assert(a.take(k).last() == a[k - 1]);
        assert(a.take(k - 1).push(a[k - 1]) =~= a.take(k));
    } else {
        assert(a.take(0) =~= Seq::<ActionView>::empty());
    }
}

/// The README's `--non-interactive --config <file> --no-set-default`: of the
/// built plan every step but the last (the default-browser prompt) runs, the
/// config write first among them.
pub proof fn law_config_with_no_set_default_keeps_all_but_the_prompt(source: SourceView, home_dir: Seq<char>, config: Seq<char>, staging: Seq<char>, shown: Option<Seq<char>>)
    requires
        !contains_seq(home_dir, default_browser()),
        !contains_seq(staging, default_browser()),
        source matches SourceView::Download(v) ==> !contains_seq(v, default_browser()),
    ensures
        kept_spec(build_spec(source, home_dir, config, staging), true, true, shown) == build_spec(
            source,
            home_dir,
            config,
            staging,
        ).take(6),
        kept_spec(build_spec(source, home_dir, config, staging), true, true, shown)[0] is WriteFile,
{
    let a = build_spec(source, home_dir, config, staging);
    law_one_default_browser_step(source, home_dir, config, staging, shown);
    reveal_strlit("default browser");
    assert(default_browser() == "default browser"@);
    assert forall|m: int| 0 <= m < 6 implies #[trigger] keep_spec(a[m], true, true, shown) by {
        assert(!contains_seq(summary_spec(a[m], shown), default_browser()));
    }
    lemma_kept_prefix(a, 6, true, true, shown);
    assert(a.drop_last() =~= a.take(6));
    assert(a.last() == a[6]);
}

} // verus!
