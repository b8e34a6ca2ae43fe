//! The installer wizard's state machine: pick the default profile, enter globs
//! per other profile, review the config, then decide on each step of the
//! install plan. Key presses come in, the next state and a reply go out; the
//! terminal, the file system and the drawing stay with the caller.

use vstd::prelude::*;
use crate::installer::config::{all_warnings, gen_config, gen_config_spec, glob_warnings, lines_view, profiles_view};
use crate::installer::diff::{DiffRow, LineChange, line_changes_of, rows_spec, rows_view};
use crate::installer::discover::{Profile, ProfileView};
use crate::installer::plan::{Action, ActionView, AppSource, Conflict, ConflictView, Decided, SourceView, actions_view, build, build_spec, conflict_spec};
use crate::text::{chars_to_string, decimal, line_count, lines, push_decimal, push_str, to_chars};
use crate::installer::plan::{home_relative, home_relative_spec, opt_str, summary_spec, detail_spec};

verus! {

/// A key press, as far as the wizard tells keys apart.
#[derive(PartialEq, Eq, Structural, Debug, Clone, Copy)]
pub enum Key {
    Up,
    Down,
    Left,
    Right,
    Home,
    End,
    PageUp,
    PageDown,
    Enter,
    Esc,
    Backspace,
    Char(char),
    Other,
}

/// The wizard's screens. `Done` follows the last plan decision.
#[derive(PartialEq, Eq, Structural, Debug, Clone, Copy)]
pub enum Step {
    Default,
    Globs,
    Review,
    Plan,
    Done,
}

/// How the wizard ended.
pub enum Outcome {
    /// Run the plan: every action with the decision taken on it, and the glob
    /// warnings to show first.
    Install { plan: Vec<Decided>, warnings: Vec<String> },
    /// The user quit; nothing is to change.
    Cancelled,
}

/// The mathematical content of an [`Outcome`].
pub enum OutcomeView {
    Install(Seq<(ActionView, bool)>, Seq<Seq<char>>),
    Cancelled,
}

/// The views of decided actions.
pub open spec fn decided_view(v: Seq<Decided>) -> Seq<(ActionView, bool)> {
    v.map_values(|d: Decided| (d.action@, d.apply))
}

impl View for Outcome {
    type V = OutcomeView;

    open spec fn view(&self) -> OutcomeView {
        match self {
            Outcome::Install { plan, warnings } => OutcomeView::Install(
                decided_view(plan@),
                lines_view(warnings@),
            ),
            Outcome::Cancelled => OutcomeView::Cancelled,
        }
    }
}

/// What the caller does after a key press.
pub enum Reply {
    /// Redraw and wait for the next key.
    Stay,
    /// A new plan action is current: report whether its target exists and
    /// what it holds ([`Wizard::inspect`]), then redraw.
    Inspect,
    /// The wizard is over.
    Finish(Outcome),
}

/// The mathematical content of a [`Reply`].
pub enum ReplyView {
    Stay,
    Inspect,
    Finish(OutcomeView),
}

impl View for Reply {
    type V = ReplyView;

    open spec fn view(&self) -> ReplyView {
        match self {
            Reply::Stay => ReplyView::Stay,
            Reply::Inspect => ReplyView::Inspect,
            Reply::Finish(o) => ReplyView::Finish(o@),
        }
    }
}

/// The wizard's state.
pub struct Wizard {
    profiles: Vec<Profile>,
    /// Raw glob lines, parallel to `profiles`.
    globs: Vec<String>,
    default_idx: usize,
    step: Step,
    /// The highlighted profile on the first screen.
    selected: usize,
    /// Non-default profile indices, in edit order.
    edit_order: Vec<usize>,
    edit_pos: usize,
    input: Vec<char>,
    cursor: usize,
    review_scroll: u16,
    review_max_scroll: u16,
    review_page: u16,
    source: AppSource,
    staging: String,
    home: String,
    actions: Vec<Action>,
    plan_pos: usize,
    decisions: Vec<bool>,
    warnings: Vec<String>,
    conflict: Conflict,
    diff: Vec<DiffRow>,
    diff_open: bool,
    diff_scroll: u16,
    diff_max_scroll: u16,
    diff_page: u16,
}

/// The mathematical content of a [`Wizard`].
#[verifier::ext_equal]
pub struct WizardView {
    pub profiles: Seq<ProfileView>,
    pub globs: Seq<Seq<char>>,
    pub default_idx: int,
    pub step: Step,
    pub selected: int,
    pub edit_order: Seq<usize>,
    pub edit_pos: int,
    pub input: Seq<char>,
    pub cursor: int,
    pub review_scroll: int,
    pub review_max_scroll: int,
    pub review_page: int,
    pub source: SourceView,
    pub staging: Seq<char>,
    pub home: Seq<char>,
    pub actions: Seq<ActionView>,
    pub plan_pos: int,
    pub decisions: Seq<bool>,
    pub warnings: Seq<Seq<char>>,
    pub conflict: ConflictView,
    pub diff: Seq<(LineChange, Seq<char>)>,
    pub diff_open: bool,
    pub diff_scroll: int,
    pub diff_max_scroll: int,
    pub diff_page: int,
}

impl View for Wizard {
    type V = WizardView;

    closed spec fn view(&self) -> WizardView {
        WizardView {
            profiles: profiles_view(self.profiles@),
            globs: lines_view(self.globs@),
            default_idx: self.default_idx as int,
            step: self.step,
            selected: self.selected as int,
            edit_order: self.edit_order@,
            edit_pos: self.edit_pos as int,
            input: self.input@,
            cursor: self.cursor as int,
            review_scroll: self.review_scroll as int,
            review_max_scroll: self.review_max_scroll as int,
            review_page: self.review_page as int,
            source: self.source@,
            staging: self.staging@,
            home: self.home@,
            actions: actions_view(self.actions@),
            plan_pos: self.plan_pos as int,
            decisions: self.decisions@,
            warnings: lines_view(self.warnings@),
            conflict: self.conflict@,
            diff: rows_view(self.diff@),
            diff_open: self.diff_open,
            diff_scroll: self.diff_scroll as int,
            diff_max_scroll: self.diff_max_scroll as int,
            diff_page: self.diff_page as int,
        }
    }
}

// ---------------------------------------------------------------------------
// Specification
// ---------------------------------------------------------------------------

/// The wizard's invariant: a profile list that is not empty with one glob line
/// each, a highlighted and a default profile among them, edit positions and
/// the cursor in range, scroll offsets within their limits, and in the plan
/// one decision per action before the current one.
pub open spec fn wf_view(v: WizardView) -> bool {
    &&& v.profiles.len() > 0
    &&& v.globs.len() == v.profiles.len()
    &&& 0 <= v.selected < v.profiles.len()
    &&& 0 <= v.default_idx < v.profiles.len()
    &&& forall|k: int| 0 <= k < v.edit_order.len() ==> #[trigger] v.edit_order[k] < v.profiles.len()
    &&& (v.step == Step::Globs ==> 0 <= v.edit_pos < v.edit_order.len())
    &&& 0 <= v.cursor <= v.input.len()
    &&& 0 <= v.review_scroll <= v.review_max_scroll
    &&& 0 <= v.diff_scroll <= v.diff_max_scroll
    &&& (v.step == Step::Plan ==> 0 <= v.plan_pos < v.actions.len() && v.decisions.len() == v.plan_pos)
}

/// The profile indices below `n` other than `d`, in order.
pub open spec fn others(n: int, d: int) -> Seq<usize> {
    Seq::new((n - 1) as nat, |k: int| (if k < d { k } else { k + 1 }) as usize)
}

/// The highlight moved up one row, wrapping to the bottom.
pub open spec fn select_prev(v: WizardView) -> WizardView {
    WizardView {
        selected: if v.selected == 0 { v.profiles.len() - 1 } else { v.selected - 1 },
        ..v
    }
}

/// The highlight moved down one row, wrapping to the top.
pub open spec fn select_next(v: WizardView) -> WizardView {
    WizardView {
        selected: if v.selected + 1 == v.profiles.len() { 0 } else { v.selected + 1 },
        ..v
    }
}

/// The input line loaded with the glob line of the profile being edited,
/// the cursor at its end.
pub open spec fn load_input_spec(v: WizardView) -> WizardView {
    let text = v.globs[v.edit_order[v.edit_pos] as int];
    WizardView { input: text, cursor: text.len() as int, ..v }
}

/// The review screen, scrolled to the top.
pub open spec fn enter_review_spec(v: WizardView) -> WizardView {
    WizardView { review_scroll: 0, step: Step::Review, ..v }
}

/// The highlighted profile becomes the default; the others are edited in
/// order, or the review follows when there are none.
pub open spec fn confirm_default_spec(v: WizardView) -> WizardView {
    let w = WizardView {
        default_idx: v.selected,
        edit_order: others(v.profiles.len() as int, v.selected),
        edit_pos: 0,
        ..v
    };
    if w.edit_order.len() == 0 {
        enter_review_spec(w)
    } else {
        WizardView { step: Step::Globs, ..load_input_spec(w) }
    }
}

/// The input line is stored as the edited profile's globs; the next profile
/// is edited, or the review follows after the last.
pub open spec fn confirm_globs_spec(v: WizardView) -> WizardView {
    let w = WizardView { globs: v.globs.update(v.edit_order[v.edit_pos] as int, v.input), ..v };
    if v.edit_pos + 1 < v.edit_order.len() {
        load_input_spec(WizardView { edit_pos: v.edit_pos + 1, ..w })
    } else {
        enter_review_spec(w)
    }
}

/// `a - b`, or 0 when that is negative.
pub open spec fn minus(a: int, b: int) -> int {
    if a > b { a - b } else { 0 }
}

/// The smaller of `a` and `b`.
pub open spec fn least(a: int, b: int) -> int {
    if a < b { a } else { b }
}

/// The first screen: move the highlight, confirm it, or quit.
pub open spec fn default_key_spec(v: WizardView, key: Key) -> (WizardView, ReplyView) {
    match key {
        Key::Up | Key::Char('k') => (select_prev(v), ReplyView::Stay),
        Key::Down | Key::Char('j') => (select_next(v), ReplyView::Stay),
        Key::Enter => (confirm_default_spec(v), ReplyView::Stay),
        Key::Esc | Key::Char('q') => (v, ReplyView::Finish(OutcomeView::Cancelled)),
        _ => (v, ReplyView::Stay),
    }
}

/// The glob screen: edit the input line, confirm it, or go back.
pub open spec fn globs_key_spec(v: WizardView, key: Key) -> (WizardView, ReplyView) {
    let w = match key {
        Key::Enter => confirm_globs_spec(v),
        Key::Esc => WizardView { step: Step::Default, ..v },
        Key::Backspace => if v.cursor > 0 {
            WizardView { cursor: v.cursor - 1, input: v.input.remove(v.cursor - 1), ..v }
        } else {
            v
        },
        Key::Left => WizardView { cursor: minus(v.cursor, 1), ..v },
        Key::Right => WizardView { cursor: least(v.cursor + 1, v.input.len() as int), ..v },
        Key::Home => WizardView { cursor: 0, ..v },
        Key::End => WizardView { cursor: v.input.len() as int, ..v },
        Key::Char(c) => WizardView { input: v.input.insert(v.cursor, c), cursor: v.cursor + 1, ..v },
        _ => v,
    };
    (w, ReplyView::Stay)
}

/// The plan built from the reviewed config, with its first action current.
pub open spec fn start_plan_spec(v: WizardView) -> WizardView {
    WizardView {
        warnings: all_warnings(v.globs),
        actions: build_spec(
            v.source,
            v.home,
            gen_config_spec(v.profiles, v.default_idx, v.globs),
            v.staging,
        ),
        plan_pos: 0,
        decisions: Seq::empty(),
        diff_open: false,
        diff_scroll: 0,
        conflict: ConflictView::Clear,
        diff: Seq::empty(),
        step: Step::Plan,
        ..v
    }
}

/// The review screen: install, go back, quit, or scroll.
pub open spec fn review_key_spec(v: WizardView, key: Key) -> (WizardView, ReplyView) {
    match key {
        Key::Enter | Key::Char('y') => (start_plan_spec(v), ReplyView::Inspect),
        Key::Char('b') => (WizardView { step: Step::Default, ..v }, ReplyView::Stay),
        Key::Esc | Key::Char('q') => (v, ReplyView::Finish(OutcomeView::Cancelled)),
        Key::Up | Key::Char('k') => (
            WizardView { review_scroll: minus(v.review_scroll, 1), ..v },
            ReplyView::Stay,
        ),
        Key::Down | Key::Char('j') => (
            WizardView { review_scroll: least(v.review_scroll + 1, v.review_max_scroll), ..v },
            ReplyView::Stay,
        ),
        Key::PageUp => (
            WizardView { review_scroll: minus(v.review_scroll, v.review_page), ..v },
            ReplyView::Stay,
        ),
        Key::PageDown => (
            WizardView {
                review_scroll: least(v.review_scroll + v.review_page, v.review_max_scroll),
                ..v
            },
            ReplyView::Stay,
        ),
        Key::Home | Key::Char('g') => (WizardView { review_scroll: 0, ..v }, ReplyView::Stay),
        Key::End | Key::Char('G') => (
            WizardView { review_scroll: v.review_max_scroll, ..v },
            ReplyView::Stay,
        ),
        _ => (v, ReplyView::Stay),
    }
}

/// Actions paired with their decisions.
pub open spec fn zip_spec(actions: Seq<ActionView>, decisions: Seq<bool>) -> Seq<(ActionView, bool)> {
    Seq::new(actions.len(), |i: int| (actions[i], decisions[i]))
}

/// The decision `apply` is taken on the current action; the next one becomes
/// current, or after the last the whole plan is handed over.
pub open spec fn decide_spec(v: WizardView, apply: bool) -> (WizardView, ReplyView) {
    let ds = v.decisions.push(apply);
    if v.plan_pos + 1 < v.actions.len() {
        (
            WizardView {
                decisions: ds,
                plan_pos: v.plan_pos + 1,
                diff_open: false,
                diff_scroll: 0,
                conflict: ConflictView::Clear,
                diff: Seq::empty(),
                ..v
            },
            ReplyView::Inspect,
        )
    } else {
        (
            WizardView {
                step: Step::Done,
                actions: Seq::empty(),
                decisions: Seq::empty(),
                warnings: Seq::empty(),
                plan_pos: 0,
                ..v
            },
            ReplyView::Finish(OutcomeView::Install(zip_spec(v.actions, ds), v.warnings)),
        )
    }
}

/// The diff view: scroll it, or close it.
pub open spec fn diff_key_spec(v: WizardView, key: Key) -> WizardView {
    match key {
        Key::Esc | Key::Enter | Key::Char('q') => WizardView { diff_open: false, ..v },
        Key::Up | Key::Char('k') => WizardView { diff_scroll: minus(v.diff_scroll, 1), ..v },
        Key::Down | Key::Char('j') => WizardView {
            diff_scroll: least(v.diff_scroll + 1, v.diff_max_scroll),
            ..v
        },
        Key::PageUp => WizardView { diff_scroll: minus(v.diff_scroll, v.diff_page), ..v },
        Key::PageDown => WizardView {
            diff_scroll: least(v.diff_scroll + v.diff_page, v.diff_max_scroll),
            ..v
        },
        Key::Home | Key::Char('g') => WizardView { diff_scroll: 0, ..v },
        Key::End | Key::Char('G') => WizardView { diff_scroll: v.diff_max_scroll, ..v },
        _ => v,
    }
}

/// The plan screen: apply, skip, compare, replace, or abort. A conflicting
/// action is applied only by `r` (replace); `c` compares a textual conflict.
pub open spec fn plan_key_spec(v: WizardView, key: Key) -> (WizardView, ReplyView) {
    if v.diff_open {
        (diff_key_spec(v, key), ReplyView::Stay)
    } else {
        match key {
            Key::Char('a') | Key::Esc => (v, ReplyView::Finish(OutcomeView::Cancelled)),
            Key::Char('s') => decide_spec(v, false),
            Key::Char('c') => if v.conflict is Text {
                (WizardView { diff_open: true, diff_scroll: 0, ..v }, ReplyView::Stay)
            } else {
                (v, ReplyView::Stay)
            },
            Key::Char('r') => if !(v.conflict is Clear) {
                decide_spec(v, true)
            } else {
                (v, ReplyView::Stay)
            },
            Key::Enter | Key::Char('y') => if v.conflict is Clear {
                decide_spec(v, true)
            } else {
                (v, ReplyView::Stay)
            },
            _ => (v, ReplyView::Stay),
        }
    }
}

/// The next state and reply after `key` (with Ctrl held when `ctrl`): Ctrl-C
/// cancels anywhere; otherwise the current screen decides.
pub open spec fn next_spec(v: WizardView, key: Key, ctrl: bool) -> (WizardView, ReplyView) {
    if ctrl && key == Key::Char('c') {
        (v, ReplyView::Finish(OutcomeView::Cancelled))
    } else {
        match v.step {
            Step::Default => default_key_spec(v, key),
            Step::Globs => globs_key_spec(v, key),
            Step::Review => review_key_spec(v, key),
            Step::Plan => plan_key_spec(v, key),
            Step::Done => (v, ReplyView::Stay),
        }
    }
}

/// The diff rows for a conflict: a textual conflict's line diff, else none.
pub open spec fn conflict_rows(c: ConflictView) -> Seq<(LineChange, Seq<char>)> {
    match c {
        ConflictView::Text(_, existing, proposed) => rows_spec(line_changes_of(existing, proposed)),
        _ => Seq::empty(),
    }
}

/// The key help shown under each screen.
pub open spec fn help_spec(v: WizardView) -> Seq<char> {
    match v.step {
        Step::Default => "\u{2191}/\u{2193} move \u{b7} Enter: set as default \u{b7} q/Esc quit"@,
        Step::Globs => "type globs \u{b7} Enter: next \u{b7} Esc: back"@,
        Step::Review => if v.review_max_scroll > 0 {
            "Enter/y: install \u{b7} b: back \u{b7} q/Esc: cancel \u{b7} \u{2191}/\u{2193} j/k g/G: scroll"@
        } else {
            "Enter/y: install \u{b7} b: back \u{b7} q/Esc: cancel"@
        },
        Step::Plan => if v.diff_open {
            "\u{2191}/\u{2193} j/k g/G: scroll \u{b7} Esc/Enter/q: close"@
        } else {
            match v.conflict {
                ConflictView::Clear => "Enter: apply \u{b7} s: skip \u{b7} a/Esc: abort"@,
                ConflictView::Text(..) => "c: compare \u{b7} r: replace \u{b7} s: skip \u{b7} a/Esc: abort"@,
                ConflictView::Exists(_) => "r: replace \u{b7} s: skip \u{b7} a/Esc: abort"@,
            }
        },
        Step::Done => Seq::empty(),
    }
}

/// `n` spaces.
pub open spec fn spaces(n: int) -> Seq<char> {
    Seq::new(if n > 0 { n as nat } else { 0 }, |i: int| ' ')
}

/// A profile's row on the first screen: its name left-aligned in 24
/// columns, a space, and its directory.
pub open spec fn profile_row_spec(p: ProfileView) -> Seq<char> {
    p.0 + spaces(24 - p.0.len()) + " "@ + p.1
}

/// The title of the glob entry: which of the profiles to edit this is.
pub open spec fn globs_title_spec(v: WizardView) -> Seq<char> {
    " globs ("@ + decimal((v.edit_pos + 1) as nat) + "/"@ + decimal(v.edit_order.len()) + ") "@
}

/// The scroll hint of a scrollable view: arrows for the directions it can
/// still move in, and `tail`; nothing when everything fits.
pub open spec fn more_spec(scroll: int, max_scroll: int, tail: Seq<char>) -> Option<Seq<char>> {
    if max_scroll > 0 {
        Some(
            " more "@ + seq![if scroll > 0 { '\u{2191}' } else { ' ' }] + seq![
                if scroll < max_scroll { '\u{2193}' } else { ' ' },
            ] + tail,
        )
    } else {
        None
    }
}

/// The text of the plan screen for the current action.
pub struct PlanScreen {
    /// `Action i of n`.
    pub heading: String,
    /// What the action will do.
    pub summary: String,
    /// Its detail line (path, command line, ...).
    pub detail: String,
    /// The warning that its target already exists, if it does.
    pub warning: Option<String>,
}

/// The warning for a conflict, with the home directory `home` shown as `~`.
pub open spec fn warning_spec(c: ConflictView, home: Option<Seq<char>>) -> Option<Seq<char>> {
    match c {
        ConflictView::Clear => None,
        ConflictView::Exists(p) => Some(
            "\u{26a0} "@ + home_relative_spec(p, home) + " already exists \u{2014} choose what to do."@,
        ),
        ConflictView::Text(p, _, _) => Some(
            "\u{26a0} "@ + home_relative_spec(p, home) + " already exists \u{2014} choose what to do."@,
        ),
    }
}

/// A view's scroll limits for `total` lines in a viewport of `viewport`
/// lines: a page is the viewport (at least one line), the furthest scroll
/// leaves the last page in view, and the offset is kept within it.
pub open spec fn fit_scroll(scroll: int, total: int, viewport: int) -> (int, int, int) {
    let max = minus(total, viewport);
    (least(scroll, max), max, if viewport > 1 { viewport } else { 1 })
}

// ---------------------------------------------------------------------------
// Implementation
// ---------------------------------------------------------------------------

/// A copy of `s`.
fn copy_source(s: &AppSource) -> (r: AppSource)
    ensures
        r@ == s@,
{
    match s {
        AppSource::Download { version } => AppSource::Download { version: version.clone() },
        AppSource::Local { binary } => AppSource::Local { binary: binary.clone() },
    }
}

/// The profile indices below `n` other than `d`, in order.
fn others_of(n: usize, d: usize) -> (r: Vec<usize>)
    requires
        d < n,
    ensures
        r@ == others(n as int, d as int),
{
    let mut out: Vec<usize> = Vec::new();
    let mut i: usize = 0;
    while i < n
        invariant
            d < n,
            i <= n,
            out@.len() == (if i <= d { i as int } else { i - 1 }),
            forall|k: int| 0 <= k < out@.len() ==> out@[k] == (if k < d { k } else { k + 1 }) as usize,
        decreases n - i,
    {
        if i != d {
            out.push(i);
        }
        i += 1;
    }
    assert(out@ =~= others(n as int, d as int));
    out
}

/// The actions paired with their decisions.
fn zip_decided(actions: Vec<Action>, decisions: &Vec<bool>) -> (r: Vec<Decided>)
    requires
        actions@.len() == decisions@.len(),
    ensures
        decided_view(r@) == zip_spec(actions_view(actions@), decisions@),
{
    let ghost all = actions_view(actions@);
    let mut rest = actions;
    let mut out: Vec<Decided> = Vec::new();
    let mut taken: usize = 0;
    let dn = decisions.len();
    while rest.len() > 0
        invariant
            dn == decisions@.len(),
            all.len() == decisions@.len(),
            taken <= all.len(),
            rest@.len() == all.len() - taken,
            actions_view(rest@) == all.subrange(taken as int, all.len() as int),
            decided_view(out@) == zip_spec(all.take(taken as int), decisions@.take(taken as int)),
        decreases rest@.len(),
    {
        let ghost old_rest = rest@;
        let a = rest.remove(0);
        proof {
            assert(actions_view(old_rest)[0] == all[taken as int]);
            assert forall|k: int| 0 <= k < rest@.len() implies #[trigger] actions_view(rest@)[k]
                == all.subrange(taken + 1, all.len() as int)[k] by {
                assert(rest@[k] == old_rest[k + 1]);
                assert(actions_view(old_rest)[k + 1] == all[taken + 1 + k]);
            }
            assert(actions_view(rest@) =~= all.subrange(taken + 1, all.len() as int));
        }
        let apply = decisions[taken];
        let ghost before = out@;
        out.push(Decided { action: a, apply });
        proof {
            assert(decided_view(out@) =~= decided_view(before).push((all[taken as int], apply)));
            assert(zip_spec(all.take(taken + 1), decisions@.take(taken + 1)) =~= zip_spec(
                all.take(taken as int),
                decisions@.take(taken as int),
            ).push((all[taken as int], decisions@[taken as int])));
        }
        taken += 1;
    }
    assert(all.take(taken as int) =~= all);
    assert(decisions@.take(taken as int) =~= decisions@);
    out
}

impl Wizard {
    /// A wizard over the discovered `profiles` (at least one), installing the
    /// router from `source` through the staging directory `staging` into the
    /// home directory `home`. It starts on the default-profile screen with the
    /// first profile highlighted and every glob line empty.
    pub fn new(profiles: Vec<Profile>, source: AppSource, staging: String, home: String) -> (r: Wizard)
        requires
            profiles@.len() > 0,
        ensures
            wf_view(r@),
            r@ == (WizardView {
                profiles: profiles_view(profiles@),
                globs: Seq::new(profiles@.len(), |i: int| Seq::<char>::empty()),
                default_idx: 0,
                step: Step::Default,
                selected: 0,
                edit_order: Seq::empty(),
                edit_pos: 0,
                input: Seq::empty(),
                cursor: 0,
                review_scroll: 0,
                review_max_scroll: 0,
                review_page: 1,
                source: source@,
                staging: staging@,
                home: home@,
                actions: Seq::empty(),
                plan_pos: 0,
                decisions: Seq::empty(),
                warnings: Seq::empty(),
                conflict: ConflictView::Clear,
                diff: Seq::empty(),
                diff_open: false,
                diff_scroll: 0,
                diff_max_scroll: 0,
                diff_page: 1,
            }),
    {
        let mut globs: Vec<String> = Vec::new();
        let mut i: usize = 0;
        while i < profiles.len()
            invariant
                i <= profiles@.len(),
                lines_view(globs@) == Seq::new(i as nat, |k: int| Seq::<char>::empty()),
            decreases profiles@.len() - i,
        {
            let ghost before = globs@;
            globs.push(String::new());
            assert(lines_view(globs@) =~= lines_view(before).push(Seq::<char>::empty()));
            i += 1;
        }
        let r = Wizard {
            profiles,
            globs,
            default_idx: 0,
            step: Step::Default,
            selected: 0,
            edit_order: Vec::new(),
            edit_pos: 0,
            input: Vec::new(),
            cursor: 0,
            review_scroll: 0,
            review_max_scroll: 0,
            review_page: 1,
            source,
            staging,
            home,
            actions: Vec::new(),
            plan_pos: 0,
            decisions: Vec::new(),
            warnings: Vec::new(),
            conflict: Conflict::Clear,
            diff: Vec::new(),
            diff_open: false,
            diff_scroll: 0,
            diff_max_scroll: 0,
            diff_page: 1,
        };
        assert(r@.globs =~= Seq::new(r@.profiles.len(), |i: int| Seq::<char>::empty()));
        r
    }

    /// Loads the edited profile's glob line into the input line.
    fn load_input(&mut self)
        requires
            wf_view(old(self)@),
            0 <= old(self)@.edit_pos < old(self)@.edit_order.len(),
        ensures
            final(self)@ == load_input_spec(old(self)@),
    {
        let idx = self.edit_order[self.edit_pos];
        let text: Vec<char> = crate::text::to_chars(self.globs[idx].as_str());
        self.cursor = text.len();
        self.input = text;
    }

    /// Handles a key on the first screen.
    fn handle_default(&mut self, key: Key) -> (r: Reply)
        requires
            wf_view(old(self)@),
            old(self)@.step == Step::Default,
        ensures
            (final(self)@, r@) == default_key_spec(old(self)@, key),
    {
        match key {
            Key::Up | Key::Char('k') => {
                if self.selected == 0 {
                    self.selected = self.profiles.len() - 1;
                } else {
                    self.selected = self.selected - 1;
                }
                Reply::Stay
            },
            Key::Down | Key::Char('j') => {
                if self.selected == self.profiles.len() - 1 {
                    self.selected = 0;
                } else {
                    self.selected = self.selected + 1;
                }
                Reply::Stay
            },
            Key::Enter => {
                let d = self.selected;
                self.default_idx = d;
                self.edit_order = others_of(self.profiles.len(), d);
                self.edit_pos = 0;
                if self.edit_order.len() == 0 {
                    self.review_scroll = 0;
                    self.step = Step::Review;
                } else {
                    self.load_input();
                    self.step = Step::Globs;
                }
                Reply::Stay
            },
            Key::Esc | Key::Char('q') => Reply::Finish(Outcome::Cancelled),
            _ => Reply::Stay,
        }
    }

    /// Handles a key on the glob screen.
    fn handle_globs(&mut self, key: Key) -> (r: Reply)
        requires
            wf_view(old(self)@),
            old(self)@.step == Step::Globs,
        ensures
            (final(self)@, r@) == globs_key_spec(old(self)@, key),
    {
        match key {
            Key::Enter => {
                let idx = self.edit_order[self.edit_pos];
                let line = chars_to_string(self.input.as_slice());
                let ghost before = self.globs@;
                self.globs.set(idx, line);
                assert(lines_view(self.globs@) =~= lines_view(before).update(idx as int, self.input@));
                if self.edit_pos < self.edit_order.len() - 1 {
                    self.edit_pos = self.edit_pos + 1;
                    self.load_input();
                } else {
                    self.review_scroll = 0;
                    self.step = Step::Review;
                }
            },
            Key::Esc => {
                self.step = Step::Default;
            },
            Key::Backspace => {
                if self.cursor > 0 {
                    self.cursor = self.cursor - 1;
                    self.input.remove(self.cursor);
                }
            },
            Key::Left => {
                if self.cursor > 0 {
                    self.cursor = self.cursor - 1;
                }
            },
            Key::Right => {
                if self.cursor < self.input.len() {
                    self.cursor = self.cursor + 1;
                }
            },
            Key::Home => {
                self.cursor = 0;
            },
            Key::End => {
                self.cursor = self.input.len();
            },
            Key::Char(c) => {
                self.input.insert(self.cursor, c);
                let n = self.input.len();
                assert(self.cursor < n);
                self.cursor = self.cursor + 1;
            },
            _ => {},
        }
        Reply::Stay
    }

    /// Builds the plan from the reviewed config and makes its first action
    /// current.
    fn start_plan(&mut self)
        requires
            wf_view(old(self)@),
        ensures
            final(self)@ == start_plan_spec(old(self)@),
    {
        let warnings = glob_warnings(self.globs.as_slice());
        let config = gen_config(self.profiles.as_slice(), self.default_idx, self.globs.as_slice());
        let actions = build(
            copy_source(&self.source),
            self.home.as_str(),
            config,
            self.staging.as_str(),
        );
        self.warnings = warnings;
        self.actions = actions;
        self.plan_pos = 0;
        self.decisions = Vec::new();
        self.diff_open = false;
        self.diff_scroll = 0;
        self.conflict = Conflict::Clear;
        self.diff = Vec::new();
        self.step = Step::Plan;
    }

    /// Handles a key on the review screen.
    fn handle_review(&mut self, key: Key) -> (r: Reply)
        requires
            wf_view(old(self)@),
            old(self)@.step == Step::Review,
        ensures
            (final(self)@, r@) == review_key_spec(old(self)@, key),
    {
        match key {
            Key::Enter | Key::Char('y') => {
                self.start_plan();
                Reply::Inspect
            },
            Key::Char('b') => {
                self.step = Step::Default;
                Reply::Stay
            },
            Key::Esc | Key::Char('q') => Reply::Finish(Outcome::Cancelled),
            Key::Up | Key::Char('k') => {
                if self.review_scroll > 0 {
                    self.review_scroll = self.review_scroll - 1;
                }
                Reply::Stay
            },
            Key::Down | Key::Char('j') => {
                if self.review_scroll < self.review_max_scroll {
                    self.review_scroll = self.review_scroll + 1;
                }
                Reply::Stay
            },
            Key::PageUp => {
                if self.review_scroll > self.review_page {
                    self.review_scroll = self.review_scroll - self.review_page;
                } else {
                    self.review_scroll = 0;
                }
                Reply::Stay
            },
            Key::PageDown => {
                let s: u32 = self.review_scroll as u32 + self.review_page as u32;
                if s < self.review_max_scroll as u32 {
                    self.review_scroll = s as u16;
                } else {
                    self.review_scroll = self.review_max_scroll;
                }
                Reply::Stay
            },
            Key::Home | Key::Char('g') => {
                self.review_scroll = 0;
                Reply::Stay
            },
            Key::End | Key::Char('G') => {
                self.review_scroll = self.review_max_scroll;
                Reply::Stay
            },
            _ => Reply::Stay,
        }
    }

    /// Takes the decision `apply` on the current action.
    fn decide(&mut self, apply: bool) -> (r: Reply)
        requires
            wf_view(old(self)@),
            old(self)@.step == Step::Plan,
        ensures
            (final(self)@, r@) == decide_spec(old(self)@, apply),
    {
        self.decisions.push(apply);
        if self.plan_pos < self.actions.len() - 1 {
            self.plan_pos = self.plan_pos + 1;
            self.diff_open = false;
            self.diff_scroll = 0;
            self.conflict = Conflict::Clear;
            self.diff = Vec::new();
            Reply::Inspect
        } else {
            let mut actions: Vec<Action> = Vec::new();
            std::mem::swap(&mut actions, &mut self.actions);
            let mut decisions: Vec<bool> = Vec::new();
            std::mem::swap(&mut decisions, &mut self.decisions);
            let mut warnings: Vec<String> = Vec::new();
            std::mem::swap(&mut warnings, &mut self.warnings);
            self.plan_pos = 0;
            self.step = Step::Done;
            let plan = zip_decided(actions, &decisions);
            Reply::Finish(Outcome::Install { plan, warnings })
        }
    }

    /// Handles a key in the open diff view.
    fn handle_diff(&mut self, key: Key)
        requires
            wf_view(old(self)@),
        ensures
            final(self)@ == diff_key_spec(old(self)@, key),
    {
        match key {
            Key::Esc | Key::Enter | Key::Char('q') => {
                self.diff_open = false;
            },
            Key::Up | Key::Char('k') => {
                if self.diff_scroll > 0 {
                    self.diff_scroll = self.diff_scroll - 1;
                }
            },
            Key::Down | Key::Char('j') => {
                if self.diff_scroll < self.diff_max_scroll {
                    self.diff_scroll = self.diff_scroll + 1;
                }
            },
            Key::PageUp => {
                if self.diff_scroll > self.diff_page {
                    self.diff_scroll = self.diff_scroll - self.diff_page;
                } else {
                    self.diff_scroll = 0;
                }
            },
            Key::PageDown => {
                let s: u32 = self.diff_scroll as u32 + self.diff_page as u32;
                if s < self.diff_max_scroll as u32 {
                    self.diff_scroll = s as u16;
                } else {
                    self.diff_scroll = self.diff_max_scroll;
                }
            },
            Key::Home | Key::Char('g') => {
                self.diff_scroll = 0;
            },
            Key::End | Key::Char('G') => {
                self.diff_scroll = self.diff_max_scroll;
            },
            _ => {},
        }
    }

    /// Handles a key on the plan screen.
    fn handle_plan(&mut self, key: Key) -> (r: Reply)
        requires
            wf_view(old(self)@),
            old(self)@.step == Step::Plan,
        ensures
            (final(self)@, r@) == plan_key_spec(old(self)@, key),
    {
        if self.diff_open {
            self.handle_diff(key);
            return Reply::Stay;
        }
        let has_conflict = match self.conflict {
            Conflict::Clear => false,
            _ => true,
        };
        let can_compare = match self.conflict {
            Conflict::Text { .. } => true,
            _ => false,
        };
        match key {
            Key::Char('a') | Key::Esc => Reply::Finish(Outcome::Cancelled),
            Key::Char('s') => self.decide(false),
            Key::Char('c') => {
                if can_compare {
                    self.diff_open = true;
                    self.diff_scroll = 0;
                }
                Reply::Stay
            },
            Key::Char('r') => if has_conflict {
                self.decide(true)
            } else {
                Reply::Stay
            },
            Key::Enter | Key::Char('y') => if !has_conflict {
                self.decide(true)
            } else {
                Reply::Stay
            },
            _ => Reply::Stay,
        }
    }

    /// Handles one key press (`ctrl` when Control is held): Ctrl-C cancels
    /// anywhere, otherwise the current screen decides.
    pub fn handle(&mut self, key: Key, ctrl: bool) -> (r: Reply)
        requires
            wf_view(old(self)@),
        ensures
            wf_view(final(self)@),
            (final(self)@, r@) == next_spec(old(self)@, key, ctrl),
    {
        if ctrl && key == Key::Char('c') {
            return Reply::Finish(Outcome::Cancelled);
        }
        match self.step {
            Step::Default => self.handle_default(key),
            Step::Globs => self.handle_globs(key),
            Step::Review => self.handle_review(key),
            Step::Plan => self.handle_plan(key),
            Step::Done => Reply::Stay,
        }
    }

    /// Records whether the current action's target exists and what it holds
    /// (empty when unreadable): sets its conflict and, for a textual one, the
    /// diff of the existing text against the proposed one.
    pub fn inspect(&mut self, exists: bool, existing: String)
        requires
            wf_view(old(self)@),
            old(self)@.step == Step::Plan,
        ensures
            wf_view(final(self)@),
            final(self)@ == (WizardView {
                conflict: conflict_spec(old(self)@.actions[old(self)@.plan_pos], exists, existing@),
                diff: conflict_rows(
                    conflict_spec(old(self)@.actions[old(self)@.plan_pos], exists, existing@),
                ),
                diff_open: false,
                diff_scroll: 0,
                ..old(self)@
            }),
    {
        let c = self.actions[self.plan_pos].conflict(exists, existing);
        let rows = match &c {
            Conflict::Text { existing, proposed, .. } => crate::installer::diff::lines(
                existing.as_str(),
                proposed.as_str(),
            ),
            _ => Vec::new(),
        };
        self.conflict = c;
        self.diff = rows;
        self.diff_open = false;
        self.diff_scroll = 0;
    }
}

/// A profile's row on the first screen (see [`profile_row_spec`]).
pub fn profile_row(p: &Profile) -> (r: String)
    ensures
        r@ == profile_row_spec(p@),
{
    let name = to_chars(p.name.as_str());
    let mut out: Vec<char> = Vec::new();
    push_str(&mut out, p.name.as_str());
    let mut n: usize = name.len();
    while n < 24
        invariant
            name@ == p.name@,
            name@.len() <= n <= 24 || (n == name@.len() && n > 24),
            out@ == p.name@ + spaces(n - name@.len()),
        decreases 24 - n,
    {
        out.push(' ');
        assert(spaces(n + 1 - name@.len()) =~= spaces(n - name@.len()).push(' '));
        n += 1;
    }
    assert(out@ =~= p.name@ + spaces(24 - p.name@.len()));
    push_str(&mut out, " ");
    push_str(&mut out, p.dir.as_str());
    chars_to_string(out.as_slice())
}

/// The scroll hint (see [`more_spec`]).
fn more(scroll: u16, max_scroll: u16, tail: &str) -> (r: Option<String>)
    ensures
        opt_text_of(r) == more_spec(scroll as int, max_scroll as int, tail@),
{
    if max_scroll == 0 {
        return None;
    }
    let mut out: Vec<char> = Vec::new();
    push_str(&mut out, " more ");
    out.push(if scroll > 0 { '\u{2191}' } else { ' ' });
    out.push(if scroll < max_scroll { '\u{2193}' } else { ' ' });
    push_str(&mut out, tail);
    Some(chars_to_string(out.as_slice()))
}

/// An optional string viewed as an optional character sequence.
pub open spec fn opt_text_of(o: Option<String>) -> Option<Seq<char>> {
    match o {
        Some(s) => Some(s@),
        None => None,
    }
}

impl Wizard {
    /// The current screen.
    pub fn step(&self) -> (r: Step)
        ensures
            r == self@.step,
    {
        self.step
    }

    /// The discovered profiles.
    pub fn profiles(&self) -> (r: &Vec<Profile>)
        ensures
            profiles_view(r@) == self@.profiles,
    {
        &self.profiles
    }

    /// The highlighted profile on the first screen.
    pub fn selected(&self) -> (r: usize)
        ensures
            r == self@.selected,
    {
        self.selected
    }

    /// The profile whose globs are being entered.
    pub fn editing(&self) -> (r: &Profile)
        requires
            wf_view(self@),
            self@.step == Step::Globs,
        ensures
            r@ == self@.profiles[self@.edit_order[self@.edit_pos] as int],
    {
        &self.profiles[self.edit_order[self.edit_pos]]
    }

    /// The title of the glob entry (see [`globs_title_spec`]).
    pub fn globs_title(&self) -> (r: String)
        requires
            wf_view(self@),
            self@.step == Step::Globs,
        ensures
            r@ == globs_title_spec(self@),
    {
        let mut out: Vec<char> = Vec::new();
        push_str(&mut out, " globs (");
        let n = self.edit_order.len();
        assert(self.edit_pos < n);
        push_decimal(&mut out, self.edit_pos + 1);
        push_str(&mut out, "/");
        push_decimal(&mut out, self.edit_order.len());
        push_str(&mut out, ") ");
        chars_to_string(out.as_slice())
    }

    /// The glob line being typed.
    pub fn input_text(&self) -> (r: String)
        ensures
            r@ == self@.input,
    {
        chars_to_string(self.input.as_slice())
    }

    /// The cursor's position in the glob line.
    pub fn cursor(&self) -> (r: usize)
        ensures
            r == self@.cursor,
    {
        self.cursor
    }

    /// The config the current choices generate.
    pub fn config(&self) -> (r: String)
        requires
            wf_view(self@),
        ensures
            r@ == gen_config_spec(self@.profiles, self@.default_idx, self@.globs),
    {
        gen_config(self.profiles.as_slice(), self.default_idx, self.globs.as_slice())
    }

    /// How far the review is scrolled.
    pub fn review_scroll(&self) -> (r: u16)
        ensures
            r == self@.review_scroll,
    {
        self.review_scroll
    }

    /// Fits the review's scrolling to a viewport of `viewport` lines.
    pub fn set_review_viewport(&mut self, viewport: u16)
        requires
            wf_view(old(self)@),
        ensures
            wf_view(final(self)@),
            ({
                let f = fit_scroll(
                    old(self)@.review_scroll,
                    (line_count(gen_config_spec(old(self)@.profiles, old(self)@.default_idx, old(self)@.globs)) as u16) as int,
                    viewport as int,
                );
                final(self)@ == (WizardView {
                    review_scroll: f.0,
                    review_max_scroll: f.1,
                    review_page: f.2,
                    ..old(self)@
                })
            }),
    {
        let text = self.config();
        let cs = to_chars(text.as_str());
        let ls = lines(cs.as_slice());
        let total: u16 = ls.len() as u16;
        self.review_page = if viewport > 1 { viewport } else { 1 };
        self.review_max_scroll = if total > viewport { total - viewport } else { 0 };
        if self.review_scroll > self.review_max_scroll {
            self.review_scroll = self.review_max_scroll;
        }
    }

    /// The review's scroll hint, when it does not fit.
    pub fn review_more(&self) -> (r: Option<String>)
        ensures
            opt_text_of(r) == more_spec(
                self@.review_scroll,
                self@.review_max_scroll,
                " \u{b7} scroll: \u{2191}/\u{2193} j/k g/G "@,
            ),
    {
        more(self.review_scroll, self.review_max_scroll, " \u{b7} scroll: \u{2191}/\u{2193} j/k g/G ")
    }

    /// The key help for the current screen.
    pub fn help(&self) -> (r: String)
        ensures
            r@ == help_spec(self@),
    {
        match self.step {
            Step::Default => String::from_str("\u{2191}/\u{2193} move \u{b7} Enter: set as default \u{b7} q/Esc quit"),
            Step::Globs => String::from_str("type globs \u{b7} Enter: next \u{b7} Esc: back"),
            Step::Review => if self.review_max_scroll > 0 {
                String::from_str(
                    "Enter/y: install \u{b7} b: back \u{b7} q/Esc: cancel \u{b7} \u{2191}/\u{2193} j/k g/G: scroll",
                )
            } else {
                String::from_str("Enter/y: install \u{b7} b: back \u{b7} q/Esc: cancel")
            },
            Step::Plan => if self.diff_open {
                String::from_str("\u{2191}/\u{2193} j/k g/G: scroll \u{b7} Esc/Enter/q: close")
            } else {
                match self.conflict {
                    Conflict::Clear => String::from_str("Enter: apply \u{b7} s: skip \u{b7} a/Esc: abort"),
                    Conflict::Text { .. } => String::from_str(
                        "c: compare \u{b7} r: replace \u{b7} s: skip \u{b7} a/Esc: abort",
                    ),
                    Conflict::Exists(_) => String::from_str("r: replace \u{b7} s: skip \u{b7} a/Esc: abort"),
                }
            },
            Step::Done => String::new(),
        }
    }

    /// The current plan action.
    pub fn current_action(&self) -> (r: &Action)
        requires
            wf_view(self@),
            self@.step == Step::Plan,
        ensures
            r@ == self@.actions[self@.plan_pos],
    {
        &self.actions[self.plan_pos]
    }

    /// The text of the plan screen, with the home directory `home` shown as
    /// `~`.
    pub fn plan_screen(&self, home: Option<&str>) -> (r: PlanScreen)
        requires
            wf_view(self@),
            self@.step == Step::Plan,
        ensures
            r.heading@ == "Action "@ + decimal((self@.plan_pos + 1) as nat) + " of "@ + decimal(
                self@.actions.len(),
            ),
            r.summary@ == summary_spec(self@.actions[self@.plan_pos], opt_str(home)),
            r.detail@ == detail_spec(self@.actions[self@.plan_pos], opt_str(home)),
            opt_text_of(r.warning) == warning_spec(self@.conflict, opt_str(home)),
    {
        let action = &self.actions[self.plan_pos];
        let mut heading: Vec<char> = Vec::new();
        push_str(&mut heading, "Action ");
        let n = self.actions.len();
        assert(self.plan_pos < n);
        push_decimal(&mut heading, self.plan_pos + 1);
        push_str(&mut heading, " of ");
        push_decimal(&mut heading, self.actions.len());
        let path = match &self.conflict {
            Conflict::Clear => None,
            Conflict::Exists(p) => Some(p),
            Conflict::Text { path, .. } => Some(path),
        };
        let warning = match path {
            Some(p) => {
                let mut w: Vec<char> = Vec::new();
                push_str(&mut w, "\u{26a0} ");
                push_str(&mut w, home_relative(p.as_str(), home).as_str());
                push_str(&mut w, " already exists \u{2014} choose what to do.");
                Some(chars_to_string(w.as_slice()))
            },
            None => None,
        };
        PlanScreen {
            heading: chars_to_string(heading.as_slice()),
            summary: action.summary(home),
            detail: action.detail(home),
            warning,
        }
    }

    /// Whether the diff view is open.
    pub fn diff_open(&self) -> (r: bool)
        ensures
            r == self@.diff_open,
    {
        self.diff_open
    }

    /// The rows of the current action's diff.
    pub fn diff_rows(&self) -> (r: &Vec<DiffRow>)
        ensures
            rows_view(r@) == self@.diff,
    {
        &self.diff
    }

    /// How far the diff is scrolled.
    pub fn diff_scroll(&self) -> (r: u16)
        ensures
            r == self@.diff_scroll,
    {
        self.diff_scroll
    }

    /// Fits the diff's scrolling to a viewport of `viewport` lines.
    pub fn set_diff_viewport(&mut self, viewport: u16)
        requires
            wf_view(old(self)@),
        ensures
            wf_view(final(self)@),
            ({
                let f = fit_scroll(
                    old(self)@.diff_scroll,
                    (old(self)@.diff.len() as u16) as int,
                    viewport as int,
                );
                final(self)@ == (WizardView {
                    diff_scroll: f.0,
                    diff_max_scroll: f.1,
                    diff_page: f.2,
                    ..old(self)@
                })
            }),
    {
        let total: u16 = self.diff.len() as u16;
        self.diff_page = if viewport > 1 { viewport } else { 1 };
        self.diff_max_scroll = if total > viewport { total - viewport } else { 0 };
        if self.diff_scroll > self.diff_max_scroll {
            self.diff_scroll = self.diff_max_scroll;
        }
    }

    /// The diff's scroll hint, when it does not fit.
    pub fn diff_more(&self) -> (r: Option<String>)
        ensures
            opt_text_of(r) == more_spec(self@.diff_scroll, self@.diff_max_scroll, " "@),
    {
        more(self.diff_scroll, self.diff_max_scroll, " ")
    }
}

// ---------------------------------------------------------------------------
// Laws
// ---------------------------------------------------------------------------

/// Ctrl-C cancels on every screen and changes nothing.
pub proof fn law_ctrl_c_cancels_anywhere(v: WizardView)
    ensures
        next_spec(v, Key::Char('c'), true) == (v, ReplyView::Finish(OutcomeView::Cancelled)),
{
}

/// An action whose target already exists is never applied by Enter or `y`:
/// only `r` (replace) applies it.
pub proof fn law_conflict_needs_replace(v: WizardView, key: Key)
    requires
        v.step == Step::Plan,
        !v.diff_open,
        !(v.conflict is Clear),
        key == Key::Enter || key == Key::Char('y'),
    ensures
        next_spec(v, key, false) == (v, ReplyView::Stay),
{
}

/// Every decision is recorded against its action: once the last action is
/// decided, the outcome holds every action of the plan, in order, each with
/// the decision taken on it.
pub proof fn law_outcome_pairs_each_action_with_its_decision(v: WizardView, apply: bool)
    requires
        wf_view(v),
        v.step == Step::Plan,
        v.plan_pos + 1 == v.actions.len(),
    ensures
        ({
            let ds = v.decisions.push(apply);
            &&& decide_spec(v, apply).1 == ReplyView::Finish(
                OutcomeView::Install(zip_spec(v.actions, ds), v.warnings),
            )
            &&& zip_spec(v.actions, ds).len() == v.actions.len()
            &&& forall|i: int|
                0 <= i < v.plan_pos ==> #[trigger] zip_spec(v.actions, ds)[i] == (
                    v.actions[i],
                    v.decisions[i],
                )
            &&& zip_spec(v.actions, ds)[v.plan_pos] == (v.actions[v.plan_pos], apply)
        }),
{
}

/// Going back from the glob screen keeps the glob lines as they were: the
/// line being typed is discarded.
pub proof fn law_escape_discards_typed_globs(v: WizardView)
    requires
        v.step == Step::Globs,
    ensures
        next_spec(v, Key::Esc, false).0.globs == v.globs,
        next_spec(v, Key::Esc, false).0.step == Step::Default,
{
}

/// Confirming a glob line stores exactly the typed text for the edited
/// profile and leaves every other profile's line alone.
pub proof fn law_confirm_stores_typed_globs(v: WizardView)
    requires
        wf_view(v),
        v.step == Step::Globs,
    ensures
        ({
            let w = next_spec(v, Key::Enter, false).0;
            &&& w.globs[v.edit_order[v.edit_pos] as int] == v.input
            &&& forall|i: int|
                0 <= i < v.globs.len() && i != v.edit_order[v.edit_pos] ==> #[trigger] w.globs[i]
                    == v.globs[i]
        }),
{
}

/// On the review screen `b` goes back to choosing the everyday profile
/// without finishing, and changes nothing else.
pub proof fn law_review_b_goes_back(v: WizardView)
    requires
        v.step == Step::Review,
    ensures
        next_spec(v, Key::Char('b'), false) == (WizardView { step: Step::Default, ..v }, ReplyView::Stay),
{
}

} // verus!
