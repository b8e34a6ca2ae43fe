//! A line-level diff of an existing file against what would be written, as
//! rows marked removed (`-`), added (`+`) or unchanged.

use vstd::prelude::*;
use crate::text::{chars_to_string, to_chars};

verus! {

/// What became of one line between the existing and the proposed text.
#[derive(PartialEq, Eq, Structural, Debug, Clone, Copy)]
pub enum LineChange {
    /// Only in the existing text.
    Delete,
    /// Only in the proposed text.
    Insert,
    /// In both.
    Equal,
}

/// One row of a diff: what became of the line, and its rendered text.
pub struct DiffRow {
    pub change: LineChange,
    pub text: String,
}

/// The changes `similar` computes for a line diff of `existing` against
/// `proposed`, in order: each line's change and its text (with its line
/// ending).
pub uninterp spec fn line_changes_of(existing: Seq<char>, proposed: Seq<char>) -> Seq<(LineChange, Seq<char>)>;

/// The views of a sequence of changes.
pub open spec fn changes_view(v: Seq<(LineChange, String)>) -> Seq<(LineChange, Seq<char>)> {
    v.map_values(|c: (LineChange, String)| (c.0, c.1@))
}

/// The line changes of `existing` against `proposed`.
///
/// Trusted: runs `similar::TextDiff::from_lines` (the default Myers algorithm,
/// no deadline) and collects `iter_all_changes`, each change as its tag and
/// `value()`. The result is only named ([`line_changes_of`]): it is a function
/// of the two texts alone; which diff Myers picks is not restated.
#[verifier::external_body]
fn line_changes(existing: &str, proposed: &str) -> (r: Vec<(LineChange, String)>)
    ensures
        changes_view(r@) == line_changes_of(existing@, proposed@),
{
    let diff = similar::TextDiff::from_lines(existing, proposed);
    let mut out = Vec::new();
    for change in diff.iter_all_changes() {
        let tag = match change.tag() {
            similar::ChangeTag::Delete => LineChange::Delete,
            similar::ChangeTag::Insert => LineChange::Insert,
            similar::ChangeTag::Equal => LineChange::Equal,
        };
        out.push((tag, change.value().to_string()));
    }
    out
}

/// The sign a row starts with.
pub open spec fn sign(c: LineChange) -> char {
    match c {
        LineChange::Delete => '-',
        LineChange::Insert => '+',
        LineChange::Equal => ' ',
    }
}

/// `s` without its trailing newlines.
pub open spec fn trim_newlines(s: Seq<char>) -> Seq<char>
    decreases s.len(),
{
    if s.len() > 0 && s.last() == '\n' {
        trim_newlines(s.drop_last())
    } else {
        s
    }
}

/// The rendered text of a change: its sign, a space, and the line without its
/// ending.
pub open spec fn row_text(c: (LineChange, Seq<char>)) -> Seq<char> {
    seq![sign(c.0), ' '] + trim_newlines(c.1)
}

/// The views of a sequence of rows.
pub open spec fn rows_view(v: Seq<DiffRow>) -> Seq<(LineChange, Seq<char>)> {
    v.map_values(|r: DiffRow| (r.change, r.text@))
}

/// The rows for a sequence of changes.
pub open spec fn rows_spec(cs: Seq<(LineChange, Seq<char>)>) -> Seq<(LineChange, Seq<char>)> {
    cs.map_values(|c: (LineChange, Seq<char>)| (c.0, row_text(c)))
}

/// The length of `s` without its trailing newlines.
fn trimmed_len(s: &[char]) -> (n: usize)
    ensures
        n <= s@.len(),
        s@.subrange(0, n as int) == trim_newlines(s@),
{
    let mut n = s.len();
    assert(s@.subrange(0, n as int) == s@);
    while n > 0 && s[n - 1] == '\n'
        invariant
            n <= s@.len(),
            trim_newlines(s@.subrange(0, n as int)) == trim_newlines(s@),
        decreases n,
    {
        assert(s@.subrange(0, n as int).drop_last() == s@.subrange(0, n - 1));
        n -= 1;
    }
    n
}

/// The rows rendering `changes`: `-` for a removed line, `+` for an added one,
/// a space for an unchanged one, then a space and the line without its
/// ending.
pub fn rows_from(changes: &[(LineChange, String)]) -> (r: Vec<DiffRow>)
    ensures
        rows_view(r@) == rows_spec(changes_view(changes@)),
{
    let ghost all = changes_view(changes@);
    let mut out: Vec<DiffRow> = Vec::new();
    let mut k: usize = 0;
    while k < changes.len()
        invariant
            all == changes_view(changes@),
            k <= changes@.len(),
            rows_view(out@) == rows_spec(all.take(k as int)),
        decreases changes@.len() - k,
    {
        let (change, value) = &changes[k];
        let cs = to_chars(value.as_str());
        let n = trimmed_len(cs.as_slice());
        let mut text: Vec<char> = Vec::new();
        let s = match change {
            LineChange::Delete => '-',
            LineChange::Insert => '+',
            LineChange::Equal => ' ',
        };
        text.push(s);
        text.push(' ');
        let mut i: usize = 0;
        while i < n
            invariant
                n <= cs@.len(),
                i <= n,
                text@ == seq![s, ' '] + cs@.subrange(0, i as int),
            decreases n - i,
        {
            text.push(cs[i]);
            assert(cs@.subrange(0, i + 1) == cs@.subrange(0, i as int).push(cs@[i as int]));
            i += 1;
        }
        let ghost before = out@;
        out.push(DiffRow { change: *change, text: chars_to_string(text.as_slice()) });
        proof {
            assert(all[k as int] == (*change, value@));
            assert(rows_view(out@) =~= rows_view(before).push((*change, row_text(all[k as int]))));
            assert(all.take(k + 1) =~= all.take(k as int).push(all[k as int]));
            assert(rows_spec(all.take(k + 1)) =~= rows_spec(all.take(k as int)).push(
                (all[k as int].0, row_text(all[k as int])),
            ));
        }
        k += 1;
    }
    assert(all.take(changes@.len() as int) =~= all);
    out
}

/// The diff of `existing` against `proposed`, one row per line.
pub fn lines(existing: &str, proposed: &str) -> (r: Vec<DiffRow>)
    ensures
        rows_view(r@) == rows_spec(line_changes_of(existing@, proposed@)),
{
    let changes = line_changes(existing, proposed);
    rows_from(changes.as_slice())
}

} // verus!
