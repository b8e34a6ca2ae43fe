//! A tiny glob matcher. Supported syntax:
//!
//! * `*` — any run of characters, including `/`
//! * `?` — exactly one character
//! * `[abc]`, `[a-z]`, `[!abc]`/`[^abc]` — character classes with ranges and
//!   negation
//! * `{a,b,c}` — brace alternation (may nest)
//!
//! Matching is anchored to the whole text. Brace groups are expanded first
//! into brace-free patterns; a brace-free pattern is matched with a classic
//! `*`-backtracking loop that is proved equal to the recursive definition
//! [`flat_match`].

use vstd::prelude::*;
use crate::text::{copy_chars, push_all, sub_chars, to_chars};

verus! {

// ---------------------------------------------------------------------------
// Character classes
// ---------------------------------------------------------------------------

/// Scan the members of a `[...]` class from position `i` of `p`; `first` is
/// the position of the first member (a `]` there is a literal member).
/// Returns the inclusive ranges and the position just past the closing `]`,
/// or `None` when the class is never closed.
pub open spec fn class_scan(p: Seq<char>, i: int, first: int, ranges: Seq<(char, char)>) -> Option<(Seq<(char, char)>, int)>
    decreases p.len() - i,
{
    if i < 0 || i >= p.len() {
        None
    } else if p[i] == ']' && i > first {
        Some((ranges, i + 1))
    } else if i + 2 < p.len() && p[i + 1] == '-' && p[i + 2] != ']' {
        class_scan(p, i + 3, first, ranges.push((p[i], p[i + 2])))
    } else {
        class_scan(p, i + 1, first, ranges.push((p[i], p[i])))
    }
}

/// Whether the class starting at `p[a] == '['` is negated (`[!` or `[^`).
pub open spec fn class_negated(p: Seq<char>, a: int) -> bool {
    a + 1 < p.len() && (p[a + 1] == '!' || p[a + 1] == '^')
}

/// The class starting at `p[a] == '['`: negation flag, ranges and the
/// position just past its closing `]`; `None` when it is not closed.
pub open spec fn class_at(p: Seq<char>, a: int) -> Option<(bool, Seq<(char, char)>, int)> {
    let neg = class_negated(p, a);
    let first = if neg { a + 2 } else { a + 1 };
    match class_scan(p, first, first, Seq::empty()) {
        Some((r, e)) => Some((neg, r, e)),
        None => None,
    }
}

/// Whether `c` lies in one of the inclusive `ranges`.
pub open spec fn in_ranges_spec(ranges: Seq<(char, char)>, c: char) -> bool {
    exists|k: int| 0 <= k < ranges.len() && ranges[k].0 <= c && c <= ranges[k].1
}

// ---------------------------------------------------------------------------
// Units and brace-free matching
// ---------------------------------------------------------------------------

/// Position just past the pattern unit that starts at `p[i]` (a closed class
/// spans several characters; everything else spans one).
pub open spec fn unit_end(p: Seq<char>, i: int) -> int {
    if p[i] == '[' {
        match class_at(p, i) {
            Some((_, _, e)) => e,
            None => i + 1,
        }
    } else {
        i + 1
    }
}

/// Whether the (non-`*`) unit starting at `p[i]` accepts the character `c`.
pub open spec fn unit_accepts(p: Seq<char>, i: int, c: char) -> bool {
    if p[i] == '?' {
        true
    } else if p[i] == '[' {
        match class_at(p, i) {
            Some((neg, r, _)) => in_ranges_spec(r, c) != neg,
            None => c == '[',
        }
    } else {
        c == p[i]
    }
}

/// Whether the brace-free pattern `p[i..]` matches the whole text `t[j..]`.
pub open spec fn flat_match(p: Seq<char>, i: int, t: Seq<char>, j: int) -> bool
    decreases p.len() - i, t.len() - j,
{
    if i < 0 || j < 0 || j > t.len() {
        false
    } else if i >= p.len() {
        j == t.len()
    } else if p[i] == '*' {
        flat_match(p, i + 1, t, j) || (j < t.len() && flat_match(p, i, t, j + 1))
    } else {
        let e = unit_end(p, i);
        &&& j < t.len()
        &&& i < e <= p.len()
        &&& unit_accepts(p, i, t[j])
        &&& flat_match(p, e, t, j + 1)
    }
}

// ---------------------------------------------------------------------------
// Brace expansion
// ---------------------------------------------------------------------------

/// Net brace depth of `s[a..b)`: `{` counts +1, `}` counts -1.
pub open spec fn balance(s: Seq<char>, a: int, b: int) -> int
    decreases b - a,
{
    if b <= a {
        0
    } else {
        balance(s, a, b - 1) + if s[b - 1] == '{' {
            1int
        } else if s[b - 1] == '}' {
            -1int
        } else {
            0int
        }
    }
}

/// The first `}` at or after `j` that closes the group opened at `s[i]`.
pub open spec fn close_from(s: Seq<char>, i: int, j: int) -> Option<int>
    decreases s.len() - j,
{
    if j < 0 || j >= s.len() {
        None
    } else if s[j] == '}' && balance(s, i, j + 1) == 0 {
        Some(j)
    } else {
        close_from(s, i, j + 1)
    }
}

/// Positions of the top-level commas of the group opened at `s[i]`, among
/// the positions before `j`, in order.
pub open spec fn commas(s: Seq<char>, i: int, j: int) -> Seq<int>
    decreases j - i,
{
    if j <= i {
        Seq::empty()
    } else if s[j - 1] == ',' && balance(s, i, j - 1) == 1 {
        commas(s, i, j - 1).push(j - 1)
    } else {
        commas(s, i, j - 1)
    }
}

/// The first top-level brace group at or after `i` that is closed and holds a
/// top-level comma, as `(open, close)` positions. Groups without a comma are
/// skipped whole; an unclosed `{` ends the search.
pub open spec fn group_at(s: Seq<char>, i: int) -> Option<(int, int)>
    decreases s.len() - i,
{
    if i < 0 || i >= s.len() {
        None
    } else if s[i] != '{' {
        group_at(s, i + 1)
    } else {
        match close_from(s, i, i) {
            None => None,
            Some(c) => if commas(s, i, c).len() > 0 {
                Some((i, c))
            } else if i <= c < s.len() {
                group_at(s, c + 1)
            } else {
                None
            },
        }
    }
}

/// Boundaries of the alternatives of the group `s[i..=c]`: the top-level
/// commas followed by the closing brace.
pub open spec fn option_bounds(s: Seq<char>, i: int, c: int) -> Seq<int> {
    commas(s, i, c).push(c)
}

/// The `k`-th alternative of the group `s[i..=c]`.
pub open spec fn option_at(s: Seq<char>, i: int, c: int, k: int) -> Seq<char> {
    let b = option_bounds(s, i, c);
    let start = if k == 0 { i + 1 } else { b[k - 1] + 1 };
    s.subrange(start, b[k])
}

/// All alternatives of the group `s[i..=c]`, in order.
pub open spec fn group_options(s: Seq<char>, i: int, c: int) -> Seq<Seq<char>> {
    Seq::new(option_bounds(s, i, c).len(), |k: int| option_at(s, i, c, k))
}

/// `prefix + m + t` for every `m` in `mids` and `t` in `tails`, mids outermost.
pub open spec fn cross(prefix: Seq<char>, mids: Seq<Seq<char>>, tails: Seq<Seq<char>>) -> Seq<Seq<char>>
    decreases mids.len(),
{
    if mids.len() == 0 {
        Seq::empty()
    } else {
        cross(prefix, mids.drop_last(), tails) + tails.map_values(|t: Seq<char>| prefix + mids.last() + t)
    }
}

/// Expansion of the first `k` alternatives of the group `s[i..=c]`, each
/// combined with the prefix before the group and every expansion `tails` of
/// the text after it.
pub open spec fn expand_options(s: Seq<char>, i: int, c: int, k: int, tails: Seq<Seq<char>>) -> Seq<Seq<char>>
    decreases s.len(), 0int, k,
{
    if k <= 0 {
        Seq::empty()
    } else {
        let o = option_at(s, i, c, k - 1);
        if o.len() < s.len() {
            expand_options(s, i, c, k - 1, tails) + cross(s.subrange(0, i), spec_expand(o), tails)
        } else {
            expand_options(s, i, c, k - 1, tails)
        }
    }
}

/// The brace-free patterns that `s` stands for.
pub open spec fn spec_expand(s: Seq<char>) -> Seq<Seq<char>>
    decreases s.len(), 1int, 0int,
{
    match group_at(s, 0) {
        None => seq![s],
        Some((i, c)) => if 0 <= i < c < s.len() {
            let tails = spec_expand(s.subrange(c + 1, s.len() as int));
            expand_options(s, i, c, option_bounds(s, i, c).len() as int, tails)
        } else {
            seq![s]
        },
    }
}

/// Whether `text` matches the glob `pattern`: some brace expansion of the
/// pattern matches the whole text.
pub open spec fn glob_matches(pattern: Seq<char>, text: Seq<char>) -> bool {
    let e = spec_expand(pattern);
    exists|k: int| 0 <= k < e.len() && flat_match(#[trigger] e[k], 0, text, 0)
}


// ---------------------------------------------------------------------------
// Lemmas about brace-free matching
// ---------------------------------------------------------------------------

proof fn lemma_class_scan_end(p: Seq<char>, i: int, first: int, r: Seq<(char, char)>)
    ensures
        class_scan(p, i, first, r) matches Some((_, e)) ==> i < e <= p.len(),
    decreases p.len() - i,
{
    if i < 0 || i >= p.len() {
    } else if p[i] == ']' && i > first {
    } else if i + 2 < p.len() && p[i + 1] == '-' && p[i + 2] != ']' {
        lemma_class_scan_end(p, i + 3, first, r.push((p[i], p[i + 2])));
    } else {
        lemma_class_scan_end(p, i + 1, first, r.push((p[i], p[i])));
    }
}

/// Every unit spans at least one pattern character and stays inside `p`.
proof fn lemma_unit_end(p: Seq<char>, i: int)
    requires
        0 <= i < p.len(),
    ensures
        i < unit_end(p, i) <= p.len(),
{
    let neg = class_negated(p, i);
    let first = if neg { i + 2 } else { i + 1 };
    lemma_class_scan_end(p, first, first, Seq::empty());
}

/// `p[a..b)` is a run of `n` consecutive non-`*` units.
spec fn walk(p: Seq<char>, a: int, b: int, n: nat) -> bool
    decreases n,
{
    if n == 0 {
        a == b
    } else {
        0 <= a < p.len() && p[a] != '*' && walk(p, unit_end(p, a), b, (n - 1) as nat)
    }
}

proof fn lemma_walk_extend(p: Seq<char>, a: int, b: int, n: nat)
    requires
        walk(p, a, b, n),
        0 <= b < p.len(),
        p[b] != '*',
    ensures
        walk(p, a, unit_end(p, b), n + 1),
    decreases n,
{
    if n > 0 {
        lemma_walk_extend(p, unit_end(p, a), b, (n - 1) as nat);
    } else {
        assert(walk(p, unit_end(p, b), unit_end(p, b), 0));
    }
}

/// A run of `n` non-`*` units consumes exactly `n` text characters.
proof fn lemma_walk_match(p: Seq<char>, a: int, b: int, n: nat, t: Seq<char>, k: int)
    requires
        walk(p, a, b, n),
        flat_match(p, a, t, k),
    ensures
        k + n <= t.len(),
        flat_match(p, b, t, k + n),
    decreases n,
{
    if n > 0 {
        lemma_walk_match(p, unit_end(p, a), b, (n - 1) as nat, t, k + 1);
    }
}

/// A `*` that matches from text position `j` also matches from any earlier
/// position `i`.
proof fn lemma_star_earlier(p: Seq<char>, b: int, t: Seq<char>, i: int, j: int)
    requires
        0 <= b < p.len(),
        p[b] == '*',
        0 <= i <= j,
        flat_match(p, b, t, j),
    ensures
        flat_match(p, b, t, i),
    decreases j - i,
{
    if i < j {
        lemma_star_earlier(p, b, t, i + 1, j);
    }
}

/// A `*` at `p[s]` matching from `j` means the rest of the pattern matches
/// from some later text position.
proof fn lemma_star_witness(p: Seq<char>, s: int, t: Seq<char>, j: int) -> (k: int)
    requires
        0 <= s < p.len(),
        p[s] == '*',
        flat_match(p, s, t, j),
    ensures
        j <= k <= t.len(),
        flat_match(p, s + 1, t, k),
    decreases t.len() - j,
{
    if flat_match(p, s + 1, t, j) {
        j
    } else {
        lemma_star_witness(p, s, t, j + 1)
    }
}


// ---------------------------------------------------------------------------
// Brace-free matching
// ---------------------------------------------------------------------------

/// Parse the `[...]` class that starts at `pat[start] == '['`: negation flag,
/// inclusive ranges, and total length including the brackets; `None` if there
/// is no closing `]`.
fn parse_class(pat: &[char], start: usize) -> (r: Option<(bool, Vec<(char, char)>, usize)>)
    requires
        start < pat@.len(),
        pat@[start as int] == '[',
    ensures
        match class_at(pat@, start as int) {
            None => r is None,
            Some((neg, ranges, e)) => r matches Some((n2, v, len)) && n2 == neg && v@ == ranges
                && len == e - start,
        },
{
    let ghost p = pat@;
    let n = pat.len();
    let mut i = start + 1;
    let negated = i < pat.len() && (pat[i] == '!' || pat[i] == '^');
    if negated {
        i += 1;
    }
    let first = i;
    let mut ranges: Vec<(char, char)> = Vec::new();
    proof {
        lemma_class_scan_end(p, first as int, first as int, Seq::empty());
    }
    while i < pat.len()
        invariant
            first <= i <= pat@.len(),
            p == pat@,
            start < first,
            class_scan(p, i as int, first as int, ranges@) == class_scan(
                p,
                first as int,
                first as int,
                Seq::empty(),
            ),
            first == (if class_negated(p, start as int) { start + 2 } else { start + 1 }),
            negated == class_negated(p, start as int),
        decreases pat@.len() - i,
    {
        let c = pat[i];
        if c == ']' && i > first {
            return Some((negated, ranges, i + 1 - start));
        }
        if pat.len() - i > 2 && pat[i + 1] == '-' && pat[i + 2] != ']' {
            ranges.push((c, pat[i + 2]));
            i += 3;
        } else {
            ranges.push((c, c));
            i += 1;
        }
    }
    None
}

/// Whether `c` lies in one of the inclusive `ranges`.
fn in_ranges(ranges: &[(char, char)], c: char) -> (r: bool)
    ensures
        r == in_ranges_spec(ranges@, c),
{
    let mut k: usize = 0;
    while k < ranges.len()
        invariant
            k <= ranges@.len(),
            forall|m: int| 0 <= m < k ==> !(ranges@[m].0 <= c && c <= ranges@[m].1),
        decreases ranges@.len() - k,
    {
        let (lo, hi) = ranges[k];
        if lo <= c && c <= hi {
            return true;
        }
        k += 1;
    }
    false
}

/// Match the single pattern unit at `pat[start]` against `c`, returning
/// whether it matched and how many pattern characters the unit spans.
fn unit_matches(pat: &[char], start: usize, c: char) -> (r: (bool, usize))
    requires
        start < pat@.len(),
    ensures
        r.0 == unit_accepts(pat@, start as int, c),
        r.1 == unit_end(pat@, start as int) - start,
{
    let u = pat[start];
    if u == '?' {
        (true, 1)
    } else if u == '[' {
        match parse_class(pat, start) {
            Some((negated, ranges, len)) => (in_ranges(ranges.as_slice(), c) != negated, len),
            None => (c == '[', 1),
        }
    } else {
        (c == u, 1)
    }
}

/// Match a brace-free glob against `text` using classic `*`-backtracking
/// (linear in practice, no catastrophic blow-up).
fn matches_flat(pat: &[char], text: &[char]) -> (r: bool)
    ensures
        r == flat_match(pat@, 0, text@, 0),
{
    let ghost p = pat@;
    let ghost t = text@;
    let ghost ans = flat_match(p, 0, t, 0);
    let mut pi: usize = 0;
    let mut ti: usize = 0;
    // Position to resume from on mismatch: (pattern index after `*`, text index).
    let mut star: Option<(usize, usize)> = None;

    while ti < text.len()
        invariant
            p == pat@,
            t == text@,
            ans == flat_match(p, 0, t, 0),
            pi <= p.len(),
            ti <= t.len(),
            star is None ==> ans == flat_match(p, pi as int, t, ti as int),
            star matches Some((sp, st)) ==> {
                &&& 1 <= sp <= pi
                &&& p[sp - 1] == '*'
                &&& st <= ti
                &&& walk(p, sp as int, pi as int, (ti - st) as nat)
                &&& ans == (flat_match(p, pi as int, t, ti as int) || (st < t.len() && flat_match(
                    p,
                    sp - 1,
                    t,
                    st + 1,
                )))
            },
        decreases
            (match star {
                None => t.len() + 1int,
                Some((_, st)) => t.len() - st,
            }),
            t.len() - ti,
            p.len() - pi,
    {
        let advanced = if pi < pat.len() && pat[pi] == '*' {
            proof {
                if let Some((sp, st)) = star {
                    if st < t.len() && flat_match(p, sp - 1, t, st + 1) {
                        let k = lemma_star_witness(p, sp - 1, t, st + 1);
                        lemma_walk_match(p, sp as int, pi as int, (ti - st) as nat, t, k);
                        lemma_star_earlier(p, pi as int, t, ti as int, k + (ti - st));
                    }
                }
                assert(walk(p, pi + 1, pi + 1, 0));
            }
            star = Some((pi + 1, ti));
            pi += 1;
            true
        } else if pi < pat.len() {
            proof {
                lemma_unit_end(p, pi as int);
            }
            let (matched, len) = unit_matches(pat, pi, text[ti]);
            if matched {
                proof {
                    if let Some((sp, st)) = star {
                        lemma_walk_extend(p, sp as int, pi as int, (ti - st) as nat);
                    }
                }
                pi += len;
                ti += 1;
            }
            matched
        } else {
            false
        };
        if !advanced {
            match star {
                Some((resume_pi, star_ti)) => {
                    proof {
                        assert(walk(p, resume_pi as int, resume_pi as int, 0));
                    }
                    pi = resume_pi;
                    ti = star_ti + 1;
                    star = Some((resume_pi, star_ti + 1));
                },
                None => return false,
            }
        }
    }

    proof {
        if let Some((sp, st)) = star {
            if st < t.len() && flat_match(p, sp - 1, t, st + 1) {
                let k = lemma_star_witness(p, sp - 1, t, st + 1);
                lemma_walk_match(p, sp as int, pi as int, (ti - st) as nat, t, k);
            }
        }
    }
    while pi < pat.len() && pat[pi] == '*'
        invariant
            p == pat@,
            t == text@,
            pi <= p.len(),
            ti == t.len(),
            ans == flat_match(p, pi as int, t, ti as int),
        decreases p.len() - pi,
    {
        pi += 1;
    }
    pi == pat.len()
}


// ---------------------------------------------------------------------------
// Brace expansion
// ---------------------------------------------------------------------------

/// The character sequences held by a vector of character vectors.
pub open spec fn seqs_of(v: Seq<Vec<char>>) -> Seq<Seq<char>> {
    v.map_values(|x: Vec<char>| x@)
}

proof fn lemma_close_from_range(s: Seq<char>, i: int, j: int)
    ensures
        close_from(s, i, j) matches Some(c) ==> j <= c < s.len() && s[c] == '}',
    decreases s.len() - j,
{
    if 0 <= j < s.len() && !(s[j] == '}' && balance(s, i, j + 1) == 0) {
        lemma_close_from_range(s, i, j + 1);
    }
}

proof fn lemma_commas_shape(s: Seq<char>, i: int, j: int)
    requires
        0 <= i,
        j <= s.len(),
    ensures
        forall|a: int| 0 <= a < commas(s, i, j).len() ==> i <= #[trigger] commas(s, i, j)[a] < j
            && s[commas(s, i, j)[a]] == ',',
        forall|a: int, b: int|
            0 <= a < b < commas(s, i, j).len() ==> commas(s, i, j)[a] < commas(s, i, j)[b],
    decreases j - i,
{
    if j > i {
        lemma_commas_shape(s, i, j - 1);
        let prev = commas(s, i, j - 1);
        let cur = commas(s, i, j);
        if s[j - 1] == ',' && balance(s, i, j - 1) == 1 {
            assert(cur == prev.push(j - 1));
            assert forall|a: int| 0 <= a < cur.len() implies i <= #[trigger] cur[a] < j && s[cur[a]]
                == ',' by {
                if a < prev.len() {
                    assert(cur[a] == prev[a]);
                }
            }
            assert forall|a: int, b: int| 0 <= a < b < cur.len() implies cur[a] < cur[b] by {
                assert(cur[a] == prev[a]);
                if b < prev.len() {
                    assert(cur[b] == prev[b]);
                }
            }
        } else {
            assert(cur == prev);
        }
    }
}

/// Alternative `k` of the group `s[i..=c]` lies strictly inside the braces.
proof fn lemma_option_bounds(s: Seq<char>, i: int, c: int, k: int)
    requires
        0 <= i < c < s.len(),
        s[i] == '{',
        0 <= k < option_bounds(s, i, c).len(),
    ensures
        ({
            let b = option_bounds(s, i, c);
            let start = if k == 0 { i + 1 } else { b[k - 1] + 1 };
            i + 1 <= start <= b[k] <= c
        }),
        option_at(s, i, c, k).len() < s.len(),
{
    lemma_commas_shape(s, i, c);
    let cs = commas(s, i, c);
    let b = option_bounds(s, i, c);
    assert(b[k] == (if k < cs.len() { cs[k] } else { c }));
    if k < cs.len() {
        assert(i <= cs[k] < c);
        assert(s[cs[k]] == ',');
    }
    if k > 0 {
        assert(b[k - 1] == cs[k - 1]);
        assert(i <= cs[k - 1] < c);
        if k < cs.len() {
            assert(cs[k - 1] < cs[k]);
        }
    }
}

/// Find the first top-level `{...}` group that contains a comma, returning
/// `(prefix, options, suffix)`. Brace groups without a comma are left literal.
fn split_group(s: &[char]) -> (r: Option<(Vec<char>, Vec<Vec<char>>, Vec<char>)>)
    ensures
        match group_at(s@, 0) {
            None => r is None,
            Some((i, c)) => r matches Some((pre, opts, suf)) && 0 <= i < c < s@.len() && s@[i] == '{'
                && pre@
                == s@.subrange(0, i) && suf@ == s@.subrange(c + 1, s@.len() as int) && seqs_of(
                opts@,
            ) == group_options(s@, i, c),
        },
{
    let ghost sv = s@;
    let n = s.len();
    let mut i: usize = 0;
    while i < n
        invariant
            sv == s@,
            n == sv.len(),
            i <= n,
            group_at(sv, i as int) == group_at(sv, 0),
        decreases n - i,
    {
        if s[i] != '{' {
            i += 1;
        } else {
            let mut depth: usize = 0;
            let mut commas_v: Vec<usize> = Vec::new();
            let mut close: Option<usize> = None;
            let mut j = i;
            while j < n && close.is_none()
                invariant
                    sv == s@,
                    n == sv.len(),
                    i < n,
                    sv[i as int] == '{',
                    i <= j <= n,
                    depth <= j - i,
                    close is None ==> depth == balance(sv, i as int, j as int),
                    close is None && j > i ==> depth >= 1,
                    close is None ==> close_from(sv, i as int, j as int) == close_from(
                        sv,
                        i as int,
                        i as int,
                    ),
                    close matches Some(c) ==> c == j && close_from(sv, i as int, i as int) == Some(
                        c as int,
                    ),
                    commas_v@.map_values(|x: usize| x as int) == commas(sv, i as int, j as int),
                decreases n - j, (if close is None { 1int } else { 0int }),
            {
                let ch = s[j];
                let ghost before = commas_v@;
                if ch == '{' {
                    depth += 1;
                    j += 1;
                } else if ch == '}' {
                    depth -= 1;
                    if depth == 0 {
                        close = Some(j);
                    } else {
                        j += 1;
                    }
                } else {
                    if ch == ',' && depth == 1 {
                        commas_v.push(j);
                        assert(commas_v@.map_values(|x: usize| x as int) == before.map_values(
                            |x: usize| x as int,
                        ).push(j as int));
                    }
                    j += 1;
                }
            }
            proof {
                lemma_close_from_range(sv, i as int, i as int);
            }
            match close {
                None => {
                    i = n;
                },
                Some(c) => {
                    if commas_v.len() == 0 {
                        i = c + 1;
                    } else {
                        let ghost gi = i as int;
                        let ghost gc = c as int;
                        let prefix = sub_chars(s, 0, i);
                        let suffix = sub_chars(s, c + 1, n);
                        let mut options: Vec<Vec<char>> = Vec::new();
                        let mut start = i + 1;
                        let mut k: usize = 0;
                        proof {
                            lemma_commas_shape(sv, gi, gc);
                        }
                        while k < commas_v.len()
                            invariant
                                sv == s@,
                                n == sv.len(),
                                0 <= gi < gc < n,
                                sv[gi] == '{',
                                k <= commas_v@.len(),
                                commas_v@.map_values(|x: usize| x as int) == commas(sv, gi, gc),
                                start == (if k == 0 { gi + 1 } else { commas_v@[k - 1] + 1 }),
                                seqs_of(options@) == group_options(sv, gi, gc).take(k as int),
                            decreases commas_v@.len() - k,
                        {
                            proof {
                                lemma_option_bounds(sv, gi, gc, k as int);
                                assert(option_bounds(sv, gi, gc)[k as int] == commas_v@[k as int]);
                            }
                            let comma = commas_v[k];
                            let piece = sub_chars(s, start, comma);
                            let ghost old_opts = options@;
                            options.push(piece);
                            assert(seqs_of(options@) == seqs_of(old_opts).push(piece@));
                            assert(group_options(sv, gi, gc).take(k + 1) == group_options(
                                sv,
                                gi,
                                gc,
                            ).take(k as int).push(option_at(sv, gi, gc, k as int)));
                            start = comma + 1;
                            k += 1;
                        }
                        proof {
                            lemma_option_bounds(sv, gi, gc, k as int);
                        }
                        let piece = sub_chars(s, start, c);
                        let ghost old_opts = options@;
                        options.push(piece);
                        assert(seqs_of(options@) == seqs_of(old_opts).push(piece@));
                        assert(group_options(sv, gi, gc) == group_options(sv, gi, gc).take(
                            k as int,
                        ).push(option_at(sv, gi, gc, k as int)));
                        return Some((prefix, options, suffix));
                    }
                },
            }
        }
    }
    None
}

/// Expand brace alternations into a list of brace-free patterns.
fn expand(s: &[char]) -> (r: Vec<Vec<char>>)
    ensures
        seqs_of(r@) == spec_expand(s@),
    decreases s@.len(),
{
    match split_group(s) {
        None => {
            let mut out: Vec<Vec<char>> = Vec::new();
            out.push(copy_chars(s));
            assert(seqs_of(out@) == seq![s@]);
            out
        },
        Some((prefix, options, suffix)) => {
            let ghost sv = s@;
            assert(group_at(sv, 0) is Some);
            let ghost gi = group_at(sv, 0)->Some_0.0;
            let ghost gc = group_at(sv, 0)->Some_0.1;
            let tails = expand(suffix.as_slice());
            let ghost tv = seqs_of(tails@);
            assert(tv == spec_expand(sv.subrange(gc + 1, sv.len() as int)));
            let mut out: Vec<Vec<char>> = Vec::new();
            let mut k: usize = 0;
            while k < options.len()
                invariant
                    sv == s@,
                    0 <= gi < gc < sv.len(),
                    sv[gi] == '{',
                    prefix@ == sv.subrange(0, gi),
                    seqs_of(options@) == group_options(sv, gi, gc),
                    tv == seqs_of(tails@),
                    k <= options@.len(),
                    seqs_of(out@) == expand_options(sv, gi, gc, k as int, tv),
                decreases options@.len() - k,
            {
                assert(seqs_of(options@).len() == options@.len());
                assert(group_options(sv, gi, gc).len() == option_bounds(sv, gi, gc).len());
                proof {
                    lemma_option_bounds(sv, gi, gc, k as int);
                    assert(options@[k as int]@ == seqs_of(options@)[k as int]);
                    assert(seqs_of(options@)[k as int] == option_at(sv, gi, gc, k as int));
                }
                let mids = expand(options[k].as_slice());
                let ghost mv = seqs_of(mids@);
                let ghost base = seqs_of(out@);
                let mut m: usize = 0;
                while m < mids.len()
                    invariant
                        mv == seqs_of(mids@),
                        tv == seqs_of(tails@),
                        m <= mids@.len(),
                        seqs_of(out@) == base + cross(prefix@, mv.take(m as int), tv),
                    decreases mids@.len() - m,
                {
                    let ghost before_m = seqs_of(out@);
                    let mut t: usize = 0;
                    while t < tails.len()
                        invariant
                            mv == seqs_of(mids@),
                            tv == seqs_of(tails@),
                            m < mids@.len(),
                            t <= tails@.len(),
                            seqs_of(out@) == before_m + tv.take(t as int).map_values(
                                |x: Seq<char>| prefix@ + mv[m as int] + x,
                            ),
                        decreases tails@.len() - t,
                    {
                        let mut v = copy_chars(prefix.as_slice());
                        push_all(&mut v, mids[m].as_slice());
                        push_all(&mut v, tails[t].as_slice());
                        let ghost old_out = out@;
                        out.push(v);
                        assert(mids@[m as int]@ == mv[m as int]);
                        assert(tails@[t as int]@ == tv[t as int]);
                        assert(seqs_of(out@) == seqs_of(old_out).push(v@));
                        assert(tv.take(t + 1).map_values(|x: Seq<char>| prefix@ + mv[m as int] + x)
                            == tv.take(t as int).map_values(
                            |x: Seq<char>| prefix@ + mv[m as int] + x,
                        ).push(prefix@ + mv[m as int] + tv[t as int]));
                        t += 1;
                    }
                    assert(tv.take(tails@.len() as int) == tv);
                    assert(mv.take(m + 1).drop_last() == mv.take(m as int));
                    assert(mv.take(m + 1).last() == mv[m as int]);
                    assert(base + cross(prefix@, mv.take(m + 1), tv) == base + cross(
                        prefix@,
                        mv.take(m as int),
                        tv,
                    ) + tv.map_values(|x: Seq<char>| prefix@ + mv[m as int] + x));
                    m += 1;
                }
                assert(mv.take(mids@.len() as int) == mv);
                assert(seqs_of(out@) == expand_options(sv, gi, gc, k + 1, tv));
                k += 1;
            }
            assert(seqs_of(options@).len() == options@.len());
            assert(group_options(sv, gi, gc).len() == option_bounds(sv, gi, gc).len());
            out
        },
    }
}

/// Returns whether `text` matches the glob `pattern`.
pub fn matches(pattern: &str, text: &str) -> (r: bool)
    ensures
        r == glob_matches(pattern@, text@),
{
    let tchars = to_chars(text);
    let pat = to_chars(pattern);
    let expanded = expand(pat.as_slice());
    let ghost e = seqs_of(expanded@);
    let mut k: usize = 0;
    while k < expanded.len()
        invariant
            e == seqs_of(expanded@),
            e == spec_expand(pattern@),
            tchars@ == text@,
            k <= expanded@.len(),
            forall|m: int| 0 <= m < k ==> !flat_match(#[trigger] e[m], 0, text@, 0),
        decreases expanded@.len() - k,
    {
        assert(expanded@[k as int]@ == e[k as int]);
        if matches_flat(expanded[k].as_slice(), tchars.as_slice()) {
            assert(e.len() == expanded@.len());
            assert(flat_match(spec_expand(pattern@)[k as int], 0, text@, 0));
            assert(glob_matches(pattern@, text@));
            return true;
        }
        k += 1;
    }
    false
}


// ---------------------------------------------------------------------------
// Laws
// ---------------------------------------------------------------------------

proof fn lemma_no_group(s: Seq<char>, i: int)
    requires
        forall|k: int| 0 <= k < s.len() ==> s[k] != '{',
    ensures
        group_at(s, i) is None,
    decreases s.len() - i,
{
    if 0 <= i < s.len() {
        lemma_no_group(s, i + 1);
    }
}

/// A pattern without `{` stands for itself alone.
proof fn lemma_expand_brace_free(s: Seq<char>)
    requires
        forall|k: int| 0 <= k < s.len() ==> s[k] != '{',
    ensures
        spec_expand(s) == seq![s],
{
    lemma_no_group(s, 0);
}

/// A pattern without `{` is matched as the brace-free pattern it is.
pub proof fn law_brace_free_matches_flat(p: Seq<char>, t: Seq<char>)
    requires
        forall|k: int| 0 <= k < p.len() ==> p[k] != '{',
    ensures
        glob_matches(p, t) == flat_match(p, 0, t, 0),
{
    lemma_expand_brace_free(p);
    if flat_match(p, 0, t, 0) {
        assert(flat_match(spec_expand(p)[0], 0, t, 0));
    }
}

proof fn lemma_lone_star(p: Seq<char>, t: Seq<char>, j: int)
    requires
        p == seq!['*'],
        0 <= j <= t.len(),
    ensures
        flat_match(p, 0, t, j),
    decreases t.len() - j,
{
    if j < t.len() {
        lemma_lone_star(p, t, j + 1);
    } else {
        assert(flat_match(p, 1, t, j));
    }
}

/// `*` alone matches every text, including ones with `/`.
pub proof fn law_star_matches_everything(t: Seq<char>)
    ensures
        glob_matches(seq!['*'], t),
{
    let p = seq!['*'];
    lemma_lone_star(p, t, 0);
    law_brace_free_matches_flat(p, t);
}

/// No glob metacharacter occurs in `p`.
pub open spec fn is_plain(p: Seq<char>) -> bool {
    forall|k: int|
        0 <= k < p.len() ==> p[k] != '*' && p[k] != '?' && p[k] != '[' && p[k] != '{'
}

proof fn lemma_plain_flat(p: Seq<char>, i: int, t: Seq<char>, j: int)
    requires
        is_plain(p),
        0 <= i <= p.len(),
        0 <= j <= t.len(),
    ensures
        flat_match(p, i, t, j) == (t.subrange(j, t.len() as int) == p.subrange(i, p.len() as int)),
    decreases p.len() - i,
{
    if i < p.len() {
        if j < t.len() {
            lemma_plain_flat(p, i + 1, t, j + 1);
            assert(unit_end(p, i) == i + 1);
            assert(unit_accepts(p, i, t[j]) == (t[j] == p[i]));
            let ts = t.subrange(j, t.len() as int);
            let ps = p.subrange(i, p.len() as int);
            if ts =~= ps {
                assert(t.subrange(j + 1, t.len() as int) == ts.subrange(1, ts.len() as int));
                assert(p.subrange(i + 1, p.len() as int) == ps.subrange(1, ps.len() as int));
                assert(t[j] == ts[0]);
            }
            if t[j] == p[i] && t.subrange(j + 1, t.len() as int) == p.subrange(i + 1, p.len() as int) {
                assert(ts =~= ps) by {
                    assert forall|m: int| 0 <= m < ts.len() implies ts[m] == ps[m] by {
                        if m > 0 {
                            assert(ts[m] == t.subrange(j + 1, t.len() as int)[m - 1]);
                            assert(ps[m] == p.subrange(i + 1, p.len() as int)[m - 1]);
                        }
                    }
                }
            }
        } else {
            assert(p.subrange(i, p.len() as int).len() > 0);
        }
    } else {
        if j < t.len() {
            assert(t.subrange(j, t.len() as int).len() > 0);
        } else {
            assert(t.subrange(j, t.len() as int) =~= p.subrange(i, p.len() as int));
        }
    }
}

/// Matching is anchored: a pattern without metacharacters matches exactly
/// the text equal to it.
pub proof fn law_plain_pattern_matches_only_itself(p: Seq<char>, t: Seq<char>)
    requires
        is_plain(p),
    ensures
        glob_matches(p, t) == (t == p),
{
    law_brace_free_matches_flat(p, t);
    lemma_plain_flat(p, 0, t, 0);
    assert(t.subrange(0, t.len() as int) == t);
    assert(p.subrange(0, p.len() as int) == p);
}

/// `?` alone matches exactly the texts of one character.
pub proof fn law_question_matches_one_char(t: Seq<char>)
    ensures
        glob_matches(seq!['?'], t) == (t.len() == 1),
{
    let p = seq!['?'];
    law_brace_free_matches_flat(p, t);
    if t.len() >= 1 {
        assert(flat_match(p, 1, t, 1) == (t.len() == 1));
    }
}

// ---------------------------------------------------------------------------
// Brace groups
// ---------------------------------------------------------------------------

proof fn lemma_group_at_found(s: Seq<char>, j: int)
    ensures
        group_at(s, j) matches Some((i, c)) ==> {
            &&& 0 <= i < c < s.len()
            &&& s[i] == '{'
            &&& close_from(s, i, i) == Some(c)
            &&& commas(s, i, c).len() > 0
        },
    decreases s.len() - j,
{
    if 0 <= j < s.len() {
        if s[j] != '{' {
            lemma_group_at_found(s, j + 1);
        } else {
            lemma_close_from_range(s, j, j);
            match close_from(s, j, j) {
                Some(c) => {
                    if commas(s, j, c).len() == 0 && j <= c < s.len() {
                        lemma_group_at_found(s, c + 1);
                    }
                },
                None => {},
            }
        }
    }
}

/// The alternatives `opts` written back with `,` between them.
pub open spec fn join_commas(opts: Seq<Seq<char>>) -> Seq<char>
    decreases opts.len(),
{
    if opts.len() == 0 {
        Seq::empty()
    } else if opts.len() == 1 {
        opts[0]
    } else {
        join_commas(opts.drop_last()) + seq![','] + opts.last()
    }
}

proof fn lemma_options_rebuild(s: Seq<char>, i: int, c: int, m: int)
    requires
        0 <= i < c < s.len(),
        s[i] == '{',
        0 <= m < option_bounds(s, i, c).len(),
    ensures
        s.subrange(i + 1, option_bounds(s, i, c)[m]) == join_commas(group_options(s, i, c).take(m + 1)),
    decreases m,
{
    let b = option_bounds(s, i, c);
    let g = group_options(s, i, c);
    lemma_option_bounds(s, i, c, m);
    if m == 0 {
        assert(g.take(1) =~= seq![option_at(s, i, c, 0)]);
    } else {
        lemma_options_rebuild(s, i, c, m - 1);
        lemma_option_bounds(s, i, c, m - 1);
        lemma_commas_shape(s, i, c);
        let cs = commas(s, i, c);
        assert(b[m - 1] == cs[m - 1]);
        assert(s[b[m - 1]] == ',');
        assert(g.take(m + 1).drop_last() =~= g.take(m));
        assert(g.take(m + 1).last() == option_at(s, i, c, m));
        assert(s.subrange(i + 1, b[m]) =~= s.subrange(i + 1, b[m - 1]) + seq![','] + s.subrange(
            b[m - 1] + 1,
            b[m],
        ));
    }
}

/// The first brace group that gets expanded splits its pattern without loss:
/// the text before it, `{`, its alternatives (at least two) joined with `,`,
/// `}`, and the text after it rebuild the pattern.
pub proof fn law_split_group_rebuilds(s: Seq<char>)
    ensures
        match group_at(s, 0) {
            Some((i, c)) => {
                &&& group_options(s, i, c).len() >= 2
                &&& s == s.subrange(0, i) + seq!['{'] + join_commas(group_options(s, i, c)) + seq!['}']
                    + s.subrange(c + 1, s.len() as int)
            },
            None => true,
        },
{
    lemma_group_at_found(s, 0);
    match group_at(s, 0) {
        Some((i, c)) => {
            lemma_close_from_range(s, i, i);
            let b = option_bounds(s, i, c);
            let g = group_options(s, i, c);
            lemma_options_rebuild(s, i, c, b.len() - 1);
            assert(g.take(b.len() as int) =~= g);
            assert(b[b.len() - 1] == c);
            assert(s =~= s.subrange(0, i) + seq!['{'] + s.subrange(i + 1, c) + seq!['}'] + s.subrange(
                c + 1,
                s.len() as int,
            ));
        },
        None => {},
    }
}

/// Whether `x` holds none of `{`, `}` and `,`.
pub open spec fn brace_free(x: Seq<char>) -> bool {
    forall|k: int| 0 <= k < x.len() ==> x[k] != '{' && x[k] != '}' && x[k] != ','
}

proof fn lemma_group_at_skip(s: Seq<char>, j: int, i: int)
    requires
        0 <= j <= i,
        forall|k: int| j <= k < i ==> s[k] != '{',
    ensures
        group_at(s, j) == group_at(s, i),
    decreases i - j,
{
    if j < i {
        lemma_group_at_skip(s, j + 1, i);
    }
}

proof fn lemma_balance_inside(s: Seq<char>, i: int, c: int, k: int)
    requires
        0 <= i < k <= c < s.len(),
        s[i] == '{',
        forall|m: int| i < m < c ==> s[m] != '{' && s[m] != '}',
    ensures
        balance(s, i, k) == 1,
    decreases k - i,
{
    if k > i + 1 {
        lemma_balance_inside(s, i, c, k - 1);
    } else {
        assert(balance(s, i, i) == 0);
    }
}

proof fn lemma_close_inside(s: Seq<char>, i: int, c: int, j: int)
    requires
        0 <= i <= j <= c < s.len(),
        s[i] == '{',
        s[c] == '}',
        forall|m: int| i < m < c ==> s[m] != '{' && s[m] != '}',
    ensures
        close_from(s, i, j) == Some(c),
    decreases c - j,
{
    if j < c {
        lemma_close_inside(s, i, c, j + 1);
    } else {
        if c > i {
            lemma_balance_inside(s, i, c, c);
        }
    }
}

proof fn lemma_commas_inside(s: Seq<char>, i: int, c: int, x: int, j: int)
    requires
        0 <= i < x < c < s.len(),
        i <= j <= c,
        s[i] == '{',
        s[x] == ',',
        forall|m: int| i < m < c ==> s[m] != '{' && s[m] != '}',
        forall|m: int| i < m < c && m != x ==> s[m] != ',',
    ensures
        commas(s, i, j) == (if j <= x { Seq::<int>::empty() } else { seq![x] }),
    decreases j - i,
{
    if j > i {
        lemma_commas_inside(s, i, c, x, j - 1);
        if j - 1 == x {
            lemma_balance_inside(s, i, c, x);
        }
    }
}

/// A two-way brace group matches exactly when one of its two expansions
/// does: `p{a,b}q` matches a text if and only if `paq` or `pbq` matches it
/// (for parts without braces or commas).
pub proof fn law_two_way_group(p: Seq<char>, a: Seq<char>, b: Seq<char>, q: Seq<char>, t: Seq<char>)
    requires
        brace_free(p),
        brace_free(a),
        brace_free(b),
        brace_free(q),
    ensures
        glob_matches(p + seq!['{'] + a + seq![','] + b + seq!['}'] + q, t) == (glob_matches(p + a + q, t)
            || glob_matches(p + b + q, t)),
{
    let s = p + seq!['{'] + a + seq![','] + b + seq!['}'] + q;
    let i = p.len() as int;
    let x = i + 1 + a.len();
    let c = x + 1 + b.len();
    assert(s.len() == c + 1 + q.len());
    assert(s[i] == '{');
    assert(s[x] == ',');
    assert(s[c] == '}');
    assert forall|m: int| 0 <= m < i implies s[m] != '{' by {
        assert(s[m] == p[m]);
    }
    assert forall|m: int| i < m < c implies s[m] != '{' && s[m] != '}' by {
        if m < x {
            assert(s[m] == a[m - i - 1]);
        } else if m > x {
            assert(s[m] == b[m - x - 1]);
        }
    }
    assert forall|m: int| i < m < c && m != x implies s[m] != ',' by {
        if m < x {
            assert(s[m] == a[m - i - 1]);
        } else {
            assert(s[m] == b[m - x - 1]);
        }
    }
    lemma_group_at_skip(s, 0, i);
    lemma_close_inside(s, i, c, i);
    lemma_commas_inside(s, i, c, x, c);
    assert(group_at(s, 0) == Some((i, c)));
    let bnd = option_bounds(s, i, c);
    assert(bnd =~= seq![x, c]);
    assert(option_at(s, i, c, 0) =~= a);
    assert(option_at(s, i, c, 1) =~= b);
    assert(s.subrange(c + 1, s.len() as int) =~= q);
    assert(s.subrange(0, i) =~= p);
    assert forall|m: int| 0 <= m < q.len() implies q[m] != '{' by {}
    assert forall|m: int| 0 <= m < a.len() implies a[m] != '{' by {}
    assert forall|m: int| 0 <= m < b.len() implies b[m] != '{' by {}
    lemma_expand_brace_free(q);
    lemma_expand_brace_free(a);
    lemma_expand_brace_free(b);
    let tails = seq![q];
    assert(cross(p, seq![a], tails) =~= seq![p + a + q]) by {
        let ms = seq![a];
        assert(ms.drop_last() =~= Seq::<Seq<char>>::empty());
        assert(cross(p, ms.drop_last(), tails) =~= Seq::<Seq<char>>::empty());
        assert(ms.last() == a);
        let mapped = tails.map_values(|t: Seq<char>| p + ms.last() + t);
        assert(mapped.len() == 1);
        assert(mapped[0] == p + a + q);
        assert(cross(p, ms, tails) == cross(p, ms.drop_last(), tails) + mapped);
    }
    assert(cross(p, seq![b], tails) =~= seq![p + b + q]) by {
        let ms = seq![b];
        assert(ms.drop_last() =~= Seq::<Seq<char>>::empty());
        assert(cross(p, ms.drop_last(), tails) =~= Seq::<Seq<char>>::empty());
        assert(ms.last() == b);
        let mapped = tails.map_values(|t: Seq<char>| p + ms.last() + t);
        assert(mapped.len() == 1);
        assert(mapped[0] == p + b + q);
        assert(cross(p, ms, tails) == cross(p, ms.drop_last(), tails) + mapped);
    }
    assert(expand_options(s, i, c, 0, tails) =~= Seq::<Seq<char>>::empty());
    assert(expand_options(s, i, c, 1, tails) =~= seq![p + a + q]);
    assert(expand_options(s, i, c, 2, tails) =~= seq![p + a + q, p + b + q]);
    let e = spec_expand(s);
    assert(e =~= seq![p + a + q, p + b + q]);
    let pa = p + a + q;
    let pb = p + b + q;
    assert forall|m: int| 0 <= m < pa.len() implies pa[m] != '{' by {
        if m < p.len() {
            assert(pa[m] == p[m]);
        } else if m < p.len() + a.len() {
            assert(pa[m] == a[m - p.len()]);
        } else {
            assert(pa[m] == q[m - p.len() - a.len()]);
        }
    }
    assert forall|m: int| 0 <= m < pb.len() implies pb[m] != '{' by {
        if m < p.len() {
            assert(pb[m] == p[m]);
        } else if m < p.len() + b.len() {
            assert(pb[m] == b[m - p.len()]);
        } else {
            assert(pb[m] == q[m - p.len() - b.len()]);
        }
    }
    law_brace_free_matches_flat(pa, t);
    law_brace_free_matches_flat(pb, t);
    if flat_match(pa, 0, t, 0) {
        assert(flat_match(e[0], 0, t, 0));
    }
    if flat_match(pb, 0, t, 0) {
        assert(flat_match(e[1], 0, t, 0));
    }
}

/// A class range includes both its ends: `[lo-hi]` matches every single
/// character `c` with `lo <= c <= hi` (for instance `[0-9]` matches `9` and
/// `[a-z]` matches `z`), and matches no character outside that range.
pub proof fn law_class_range_is_inclusive(lo: char, hi: char, c: char)
    requires
        lo != '!' && lo != '^' && lo != '{',
        hi != ']' && hi != '{',
    ensures
        glob_matches(seq!['[', lo, '-', hi, ']'], seq![c]) == (lo <= c && c <= hi),
{
    let p = seq!['[', lo, '-', hi, ']'];
    let t = seq![c];
    assert forall|k: int| 0 <= k < p.len() implies p[k] != '{' by {}
    law_brace_free_matches_flat(p, t);
    assert(!class_negated(p, 0));
    assert(class_scan(p, 4, 1, seq![(lo, hi)]) == Some((seq![(lo, hi)], 5int)));
    assert(class_scan(p, 1, 1, Seq::empty()) == class_scan(p, 4, 1, Seq::<(char, char)>::empty().push((lo, hi))));
    assert(Seq::<(char, char)>::empty().push((lo, hi)) =~= seq![(lo, hi)]);
    assert(class_at(p, 0) == Some((false, seq![(lo, hi)], 5int)));
    assert(unit_end(p, 0) == 5);
    if lo <= c && c <= hi {
        assert(seq![(lo, hi)][0] == (lo, hi));
        assert(in_ranges_spec(seq![(lo, hi)], c));
    } else {
        assert(!in_ranges_spec(seq![(lo, hi)], c));
    }
    assert(flat_match(p, 5, t, 1));
}

} // verus!
