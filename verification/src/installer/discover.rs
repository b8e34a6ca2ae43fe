//! Firefox profile discovery: parsing what the machine reports about its
//! profiles, and choosing a label for each.

use vstd::prelude::*;
use vstd::multiset::Multiset;
use crate::strmap::StrMap;
use crate::installer::config::{slug, slug_spec};
use crate::text::{chars_to_string, decimal, digit, eq_chars, find_from, is_prefix, lemma_find_from, lines, lines_spec, push_all, push_decimal, push_str, starts_with, sub_chars, to_chars, trim, trim_spec};

verus! {

/// A Firefox profile found on this machine.
#[derive(Debug, Clone)]
pub struct Profile {
    /// Human-friendly name shown in the UI (e.g. "Work").
    pub name: String,
    /// Profile directory under `.../Firefox/Profiles/` (e.g. "qtIifLeX.Profile 1").
    pub dir: String,
    /// TOML-safe label used in the generated config (e.g. "work").
    pub label: String,
}

/// The mathematical content of a [`Profile`]: name, directory, label.
pub type ProfileView = (Seq<char>, Seq<char>, Seq<char>);

impl View for Profile {
    type V = ProfileView;

    open spec fn view(&self) -> ProfileView {
        (self.name@, self.dir@, self.label@)
    }
}


// ---------------------------------------------------------------------------
// Names from directories
// ---------------------------------------------------------------------------

/// The directory name without its random prefix: everything after the first
/// `.`, or the whole name when there is none.
pub open spec fn default_name_spec(dir: Seq<char>) -> Seq<char> {
    let k = find_from(dir, 0, '.');
    if k < dir.len() {
        dir.subrange(k + 1, dir.len() as int)
    } else {
        dir
    }
}

/// Position of the first `c` in `s`, or `s.len()`.
fn find_char(s: &[char], c: char) -> (r: usize)
    ensures
        r == find_from(s@, 0, c),
{
    let mut i: usize = 0;
    while i < s.len() && s[i] != c
        invariant
            i <= s@.len(),
            forall|k: int| 0 <= k < i ==> s@[k] != c,
        decreases s@.len() - i,
    {
        i += 1;
    }
    proof {
        lemma_find_from(s@, 0, c, i as int);
    }
    i
}

/// The directory name without its random prefix, e.g. `abc123.default` -> `default`.
pub fn default_name(dir: &str) -> (r: String)
    ensures
        r@ == default_name_spec(dir@),
{
    let d = to_chars(dir);
    let k = find_char(d.as_slice(), '.');
    if k < d.len() {
        chars_to_string(sub_chars(d.as_slice(), k + 1, d.len()).as_slice())
    } else {
        chars_to_string(d.as_slice())
    }
}

/// The part of `s` after its last `c` (all of `s` when there is none), as
/// `s.rsplit(c).next()`.
pub open spec fn after_last(s: Seq<char>, c: char) -> Seq<char>
    decreases s.len(),
{
    if s.len() == 0 {
        s
    } else if s.last() == c {
        Seq::empty()
    } else {
        after_last(s.drop_last(), c).push(s.last())
    }
}

/// The part of `s` after its last `c`.
fn last_piece(s: &[char], c: char) -> (r: Vec<char>)
    ensures
        r@ == after_last(s@, c),
{
    let mut k = s.len();
    assert(s@.take(s@.len() as int) == s@);
    assert(s@ + s@.subrange(s@.len() as int, s@.len() as int) == s@);
    while k > 0 && s[k - 1] != c
        invariant
            k <= s@.len(),
            after_last(s@, c) == after_last(s@.take(k as int), c) + s@.subrange(k as int, s@.len() as int),
        decreases k,
    {
        let ghost t = s@.take(k as int);
        assert(t.drop_last() == s@.take(k - 1));
        assert(after_last(s@.take(k - 1), c) + s@.subrange(k - 1, s@.len() as int) == after_last(
            s@.take(k - 1),
            c,
        ).push(t.last()) + s@.subrange(k as int, s@.len() as int));
        k -= 1;
    }
    if k > 0 {
        assert(after_last(s@.take(k as int), c) == Seq::<char>::empty());
    } else {
        assert(after_last(s@.take(0), c) == Seq::<char>::empty());
    }
    sub_chars(s, k, s.len())
}

// ---------------------------------------------------------------------------
// profiles.ini
// ---------------------------------------------------------------------------

/// Parser state for `profiles.ini`: pending `Name=`, pending `Path=`, and the
/// directory -> name map so far.
pub type IniState = (Option<Seq<char>>, Option<Seq<char>>, Map<Seq<char>, Seq<char>>);

/// One (trimmed) line of `profiles.ini`: a section header flushes a pending
/// `Name=`/`Path=` pair into the map; `Name=` and `Path=` lines set the pending
/// values.
pub open spec fn ini_step(st: IniState, line: Seq<char>) -> IniState {
    if line.len() > 0 && line[0] == '[' {
        (
            None,
            None,
            match (st.0, st.1) {
                (Some(n), Some(p)) => st.2.insert(after_last(p, '/'), n),
                _ => st.2,
            },
        )
    } else if is_prefix("Name="@, line) {
        (Some(line.subrange("Name="@.len() as int, line.len() as int)), st.1, st.2)
    } else if is_prefix("Path="@, line) {
        (st.0, Some(line.subrange("Path="@.len() as int, line.len() as int)), st.2)
    } else {
        st
    }
}

/// The parser state after the lines `ls`.
pub open spec fn ini_fold(ls: Seq<Seq<char>>) -> IniState
    decreases ls.len(),
{
    if ls.len() == 0 {
        (None, None, Map::empty())
    } else {
        ini_step(ini_fold(ls.drop_last()), ls.last())
    }
}

/// The directory -> `Name` map of a `profiles.ini` body.
pub open spec fn profiles_ini_spec(text: Seq<char>) -> Map<Seq<char>, Seq<char>> {
    let ls = lines_spec(text).map_values(|l: Seq<char>| trim_spec(l));
    ini_step(ini_fold(ls), seq!['[']).2
}

/// The optional character sequence held by an optional vector.
pub open spec fn opt_chars(o: Option<Vec<char>>) -> Option<Seq<char>> {
    match o {
        Some(v) => Some(v@),
        None => None,
    }
}

/// Apply one trimmed `profiles.ini` line to the parser state.
fn ini_line(line: &[char], name: &mut Option<Vec<char>>, path: &mut Option<Vec<char>>, map: &mut StrMap)
    ensures
        (opt_chars(*final(name)), opt_chars(*final(path)), final(map)@) == ini_step(
            (opt_chars(*old(name)), opt_chars(*old(path)), old(map)@),
            line@,
        ),
{
    let name_key = to_chars("Name=");
    let path_key = to_chars("Path=");
    if line.len() > 0 && line[0] == '[' {
        let mut n: Option<Vec<char>> = None;
        let mut p: Option<Vec<char>> = None;
        std::mem::swap(&mut n, name);
        std::mem::swap(&mut p, path);
        match (n, p) {
            (Some(n), Some(p)) => {
                let dir = last_piece(p.as_slice(), '/');
                map.insert(chars_to_string(dir.as_slice()), chars_to_string(n.as_slice()));
            },
            _ => {},
        }
    } else if starts_with(line, name_key.as_slice()) {
        *name = Some(sub_chars(line, name_key.len(), line.len()));
    } else if starts_with(line, path_key.as_slice()) {
        *path = Some(sub_chars(line, path_key.len(), line.len()));
    }
}

/// Map profile-directory -> `Name` from a `profiles.ini` body.
pub fn parse_profiles_ini(text: &str) -> (r: StrMap)
    ensures
        r@ == profiles_ini_spec(text@),
{
    let cs = to_chars(text);
    let raw = lines(cs.as_slice());
    let ghost ls = lines_spec(text@).map_values(|l: Seq<char>| trim_spec(l));
    let mut map = StrMap::new();
    let mut name: Option<Vec<char>> = None;
    let mut path: Option<Vec<char>> = None;
    let mut i: usize = 0;
    assert(ls.take(0) == Seq::<Seq<char>>::empty());
    while i < raw.len()
        invariant
            raw@.map_values(|x: Vec<char>| x@) == lines_spec(text@),
            ls == lines_spec(text@).map_values(|l: Seq<char>| trim_spec(l)),
            i <= raw@.len(),
            ini_fold(ls.take(i as int)) == (opt_chars(name), opt_chars(path), map@),
        decreases raw@.len() - i,
    {
        let line = trim(raw[i].as_slice());
        assert(ls.take(i + 1).drop_last() == ls.take(i as int));
        assert(ls.take(i + 1).last() == trim_spec(raw@[i as int]@));
        ini_line(line.as_slice(), &mut name, &mut path, &mut map);
        i += 1;
    }
    assert(ls.take(raw@.len() as int) == ls);
    // A trailing sentinel header flushes the final section.
    let sentinel = vec!['['];
    assert(sentinel@ == seq!['[']);
    ini_line(sentinel.as_slice(), &mut name, &mut path, &mut map);
    map
}


// ---------------------------------------------------------------------------
// Profile Groups store output
// ---------------------------------------------------------------------------

/// One `name|path` line of the Profile Groups store: maps the last component
/// of `path` to `name`; a line without `|` changes nothing.
pub open spec fn store_step(m: Map<Seq<char>, Seq<char>>, line: Seq<char>) -> Map<Seq<char>, Seq<char>> {
    let k = find_from(line, 0, '|');
    if k < line.len() {
        m.insert(after_last(line.subrange(k + 1, line.len() as int), '/'), line.subrange(0, k))
    } else {
        m
    }
}

/// The map after the store lines `ls`.
pub open spec fn store_fold(m: Map<Seq<char>, Seq<char>>, ls: Seq<Seq<char>>) -> Map<Seq<char>, Seq<char>>
    decreases ls.len(),
{
    if ls.len() == 0 {
        m
    } else {
        store_step(store_fold(m, ls.drop_last()), ls.last())
    }
}

/// Add the directory -> name pairs of one `SELECT name, path FROM Profiles;`
/// output (one `name|path` row per line) to `map`.
pub fn merge_store_output(map: &mut StrMap, output: &str)
    ensures
        final(map)@ == store_fold(old(map)@, lines_spec(output@)),
{
    let cs = to_chars(output);
    let ls = lines(cs.as_slice());
    let ghost lv = ls@.map_values(|x: Vec<char>| x@);
    let mut i: usize = 0;
    assert(lv.take(0) == Seq::<Seq<char>>::empty());
    while i < ls.len()
        invariant
            lv == ls@.map_values(|x: Vec<char>| x@),
            lv == lines_spec(output@),
            i <= ls@.len(),
            map@ == store_fold(old(map)@, lv.take(i as int)),
        decreases ls@.len() - i,
    {
        let line = &ls[i];
        let k = find_char(line.as_slice(), '|');
        if k < line.len() {
            let name = sub_chars(line.as_slice(), 0, k);
            let path = sub_chars(line.as_slice(), k + 1, line.len());
            let dir = last_piece(path.as_slice(), '/');
            map.insert(chars_to_string(dir.as_slice()), chars_to_string(name.as_slice()));
        }
        assert(lv.take(i + 1).drop_last() == lv.take(i as int));
        assert(lv.take(i + 1).last() == line@);
        i += 1;
    }
    assert(lv.take(ls@.len() as int) == lv);
}

// ---------------------------------------------------------------------------
// Sorting directory names
// ---------------------------------------------------------------------------

/// Lexicographic "less than" on character sequences, by code point.
pub open spec fn lex_lt(a: Seq<char>, b: Seq<char>) -> bool
    decreases a.len(),
{
    if a.len() == 0 {
        b.len() > 0
    } else if b.len() == 0 {
        false
    } else if a[0] != b[0] {
        a[0] < b[0]
    } else {
        lex_lt(a.drop_first(), b.drop_first())
    }
}

/// Whether each name of `s` is no greater than the next.
pub open spec fn sorted_names(s: Seq<String>) -> bool {
    forall|i: int| 0 <= i < s.len() - 1 ==> !lex_lt(#[trigger] s[i + 1]@, s[i]@)
}

proof fn lemma_lex_asym(a: Seq<char>, b: Seq<char>)
    ensures
        lex_lt(a, b) ==> !lex_lt(b, a),
    decreases a.len(),
{
    if a.len() > 0 && b.len() > 0 && a[0] == b[0] {
        lemma_lex_asym(a.drop_first(), b.drop_first());
    }
}

/// Whether `a` sorts strictly before `b`.
fn less(a: &[char], b: &[char]) -> (r: bool)
    ensures
        r == lex_lt(a@, b@),
{
    let mut i: usize = 0;
    assert(a@.subrange(0, a@.len() as int) == a@);
    assert(b@.subrange(0, b@.len() as int) == b@);
    while i < a.len() && i < b.len() && a[i] == b[i]
        invariant
            i <= a@.len(),
            i <= b@.len(),
            lex_lt(a@, b@) == lex_lt(a@.subrange(i as int, a@.len() as int), b@.subrange(i as int, b@.len() as int)),
        decreases a@.len() - i,
    {
        assert(a@.subrange(i as int, a@.len() as int).drop_first() == a@.subrange(i + 1, a@.len() as int));
        assert(b@.subrange(i as int, b@.len() as int).drop_first() == b@.subrange(i + 1, b@.len() as int));
        i += 1;
    }
    if i == a.len() {
        i < b.len()
    } else if i == b.len() {
        false
    } else {
        a[i] < b[i]
    }
}

/// The names sorted into ascending code-point order.
pub fn sort_names(names: Vec<String>) -> (r: Vec<String>)
    ensures
        sorted_names(r@),
        r@.to_multiset() == names@.to_multiset(),
{
    broadcast use vstd::seq_lib::group_to_multiset_ensures;
    let mut out: Vec<String> = Vec::new();
    let mut rest = names;
    let ghost all = rest@;
    let ghost n = all.len();
    // Move the names across one at a time, from the back.
    while rest.len() > 0
        invariant
            sorted_names(out@),
            out@.to_multiset().add(rest@.to_multiset()) == all.to_multiset(),
        decreases rest@.len(),
    {
        let ghost before_rest = rest@;
        let x = rest.pop().unwrap();
        assert(before_rest == rest@.push(x));
        let xc = to_chars(x.as_str());
        let mut p: usize = 0;
        while p < out.len() && !less(xc.as_slice(), to_chars(out[p].as_str()).as_slice())
            invariant
                p <= out@.len(),
                xc@ == x@,
                p > 0 ==> !lex_lt(x@, out@[p - 1]@),
            decreases out@.len() - p,
        {
            p += 1;
        }
        let ghost before = out@;
        let at_end = p == out.len();
        proof {
            if !at_end {
                lemma_lex_asym(x@, before[p as int]@);
            }
        }
        out.insert(p, x);
        proof {
            assert(out@.remove(p as int) == before);
            assert(out@[p as int] == x);
            out@.to_multiset_ensures();
            rest@.to_multiset_ensures();
            assert(out@.remove(p as int).to_multiset() =~= out@.to_multiset().remove(out@[p as int]));
            assert(out@.to_multiset().remove(x) == before.to_multiset());
            assert(out@.contains(x));
            assert(out@.to_multiset().count(x) > 0);
            assert(out@.to_multiset() =~= before.to_multiset().insert(x));
            assert(before_rest.to_multiset() =~= rest@.to_multiset().insert(x));
            assert forall|i: int| 0 <= i < out@.len() - 1 implies !lex_lt(#[trigger] out@[i + 1]@, out@[i]@) by {
                if i + 1 < p {
                    assert(out@[i] == before[i] && out@[i + 1] == before[i + 1]);
                    assert(!lex_lt(before[i + 1]@, before[i]@));
                } else if i + 1 == p {
                    assert(out@[i] == before[i]);
                    if before[i]@ != x@ {
                    }
                } else if i == p {
                    assert(out@[i + 1] == before[i]);
                    assert(lex_lt(x@, before[i]@));
                } else {
                    assert(out@[i] == before[i - 1] && out@[i + 1] == before[i]);
                    assert(!lex_lt(before[(i - 1) + 1]@, before[i - 1]@));
                }
            }
        }
    }
    proof {
        assert(rest@ == Seq::<String>::empty());
        assert(rest@.to_multiset() =~= Multiset::empty());
        assert(out@.to_multiset().add(Multiset::empty()) =~= out@.to_multiset());
    }
    out
}


// ---------------------------------------------------------------------------
// Labels
// ---------------------------------------------------------------------------

/// `base` with the numeric suffix `-n`.
pub open spec fn suffixed(base: Seq<char>, n: nat) -> Seq<char> {
    base + seq!['-'] + decimal(n)
}

/// The first of `base-n`, `base-(n+1)`, ... that `used` does not hold.
pub open spec fn fresh_from(base: Seq<char>, used: Seq<Seq<char>>, n: nat) -> Seq<char>
    decreases used.len() + 2 - n,
{
    if n >= used.len() + 2 || !used.contains(suffixed(base, n)) {
        suffixed(base, n)
    } else {
        fresh_from(base, used, n + 1)
    }
}

/// `base` itself when `used` does not hold it, else the first free `base-n`
/// with `n >= 2`.
pub open spec fn fresh_label(base: Seq<char>, used: Seq<Seq<char>>) -> Seq<char> {
    if !used.contains(base) {
        base
    } else {
        fresh_from(base, used, 2)
    }
}

/// The friendly name of a profile directory: from the Profile Groups store,
/// else from `profiles.ini`, else derived from the directory name.
pub open spec fn name_for(dir: Seq<char>, store: Map<Seq<char>, Seq<char>>, ini: Map<Seq<char>, Seq<char>>) -> Seq<char> {
    if store.contains_key(dir) {
        store[dir]
    } else if ini.contains_key(dir) {
        ini[dir]
    } else {
        default_name_spec(dir)
    }
}

/// The label a name asks for: its slug, or `profile<k+1>` for the `k`-th
/// profile when the slug is empty.
pub open spec fn base_label(name: Seq<char>, k: nat) -> Seq<char> {
    if slug_spec(name).len() == 0 {
        "profile"@ + decimal(k + 1)
    } else {
        slug_spec(name)
    }
}

/// The labels of a sequence of profiles.
pub open spec fn labels_of(ps: Seq<ProfileView>) -> Seq<Seq<char>> {
    ps.map_values(|p: ProfileView| p.2)
}

/// The profiles for the (sorted) directories `dirs`, each with a label
/// unique among the profiles before it.
pub open spec fn assign_spec(dirs: Seq<Seq<char>>, store: Map<Seq<char>, Seq<char>>, ini: Map<Seq<char>, Seq<char>>) -> Seq<ProfileView>
    decreases dirs.len(),
{
    if dirs.len() == 0 {
        Seq::empty()
    } else {
        let ps = assign_spec(dirs.drop_last(), store, ini);
        let dir = dirs.last();
        let name = name_for(dir, store, ini);
        let label = fresh_label(base_label(name, ps.len()), labels_of(ps));
        ps.push((name, dir, label))
    }
}

proof fn lemma_decimal_len(n: nat)
    ensures
        decimal(n).len() >= 1,
        n >= 10 ==> decimal(n).len() >= 2,
    decreases n,
{
    if n >= 10 {
        lemma_decimal_len(n / 10);
    }
}

proof fn lemma_decimal_injective(a: nat, b: nat)
    requires
        decimal(a) == decimal(b),
    ensures
        a == b,
    decreases a,
{
    lemma_decimal_len(a);
    lemma_decimal_len(b);
    if a >= 10 && b >= 10 {
        assert(decimal(a).drop_last() == decimal(a / 10));
        assert(decimal(b).drop_last() == decimal(b / 10));
        lemma_decimal_injective(a / 10, b / 10);
        assert(decimal(a).last() == digit(a % 10));
        assert(decimal(b).last() == digit(b % 10));
        assert(a % 10 == b % 10);
        assert(a == 10 * (a / 10) + a % 10);
        assert(b == 10 * (b / 10) + b % 10);
    } else if a < 10 && b < 10 {
        assert(decimal(a) == seq![digit(a)]);
        assert(decimal(b) == seq![digit(b)]);
        assert(seq![digit(a)][0] == digit(a));
        assert(seq![digit(b)][0] == digit(b));
        assert(decimal(a)[0] == decimal(b)[0]);
        assert(digit(a) == digit(b));
    } else {
        assert(decimal(a).len() != decimal(b).len());
    }
}

proof fn lemma_suffixed_injective(base: Seq<char>, a: nat, b: nat)
    requires
        suffixed(base, a) == suffixed(base, b),
    ensures
        a == b,
{
    let sa = suffixed(base, a);
    let sb = suffixed(base, b);
    assert(sa.subrange(base.len() + 1int, sa.len() as int) == decimal(a));
    assert(sb.subrange(base.len() + 1int, sb.len() as int) == decimal(b));
    lemma_decimal_injective(a, b);
}

/// Among `base-2 ..= base-(m+2)` (`m = used.len()`) at least one is free.
proof fn lemma_some_suffix_free(base: Seq<char>, used: Seq<Seq<char>>)
    ensures
        exists|k: nat| 2 <= k <= used.len() + 2 && !used.contains(#[trigger] suffixed(base, k)),
{
    let m = used.len();
    let cands = Seq::new((m + 1) as nat, |i: int| suffixed(base, (i + 2) as nat));
    if forall|k: nat| 2 <= k <= m + 2 ==> used.contains(#[trigger] suffixed(base, k)) {
        assert(cands.no_duplicates()) by {
            assert forall|i: int, j: int| 0 <= i < cands.len() && 0 <= j < cands.len() && i != j implies cands[i] != cands[j] by {
                if cands[i] == cands[j] {
                    lemma_suffixed_injective(base, (i + 2) as nat, (j + 2) as nat);
                }
            }
        }
        cands.unique_seq_to_set();
        used.lemma_cardinality_of_set();
        assert(cands.to_set().subset_of(used.to_set())) by {
            assert forall|x: Seq<char>| cands.to_set().contains(x) implies used.to_set().contains(x) by {
                let i = choose|i: int| 0 <= i < cands.len() && cands[i] == x;
                assert(used.contains(suffixed(base, (i + 2) as nat)));
            }
        }
        vstd::seq_lib::seq_to_set_is_finite(used);
        vstd::set_lib::lemma_len_subset(cands.to_set(), used.to_set());
        assert(false);
    }
}

proof fn lemma_fresh_from_is_free(base: Seq<char>, used: Seq<Seq<char>>, n: nat)
    requires
        2 <= n,
        forall|k: nat| 2 <= k < n ==> used.contains(#[trigger] suffixed(base, k)),
    ensures
        !used.contains(fresh_from(base, used, n)),
    decreases used.len() + 2 - n,
{
    if n >= used.len() + 2 {
        if used.contains(suffixed(base, n)) {
            lemma_some_suffix_free(base, used);
            let k = choose|k: nat| 2 <= k <= used.len() + 2 && !used.contains(#[trigger] suffixed(base, k));
            assert(k < n || k == n);
        }
    } else if used.contains(suffixed(base, n)) {
        lemma_fresh_from_is_free(base, used, n + 1);
    }
}

/// Whether `used` holds a string equal to `label`.
fn holds(used: &Vec<String>, label: &[char]) -> (r: bool)
    ensures
        r == used@.map_values(|s: String| s@).contains(label@),
{
    let ghost uv = used@.map_values(|s: String| s@);
    let mut i: usize = 0;
    while i < used.len()
        invariant
            uv == used@.map_values(|s: String| s@),
            i <= used@.len(),
            forall|k: int| 0 <= k < i ==> uv[k] != label@,
        decreases used@.len() - i,
    {
        let u = to_chars(used[i].as_str());
        if eq_chars(u.as_slice(), label) {
            assert(uv[i as int] == label@);
            return true;
        }
        i += 1;
    }
    false
}

/// `base-n`.
fn make_suffixed(base: &[char], n: usize) -> (r: Vec<char>)
    ensures
        r@ == suffixed(base@, n as nat),
{
    let mut out: Vec<char> = Vec::new();
    push_all(&mut out, base);
    out.push('-');
    push_decimal(&mut out, n);
    assert(Seq::<char>::empty() + base@ == base@);
    out
}

/// A label for `base` that `used` does not hold yet.
fn pick_label(base: &[char], used: &Vec<String>) -> (r: Vec<char>)
    requires
        used@.len() + 2 < usize::MAX,
    ensures
        r@ == fresh_label(base@, used@.map_values(|s: String| s@)),
        !used@.map_values(|s: String| s@).contains(r@),
{
    let ghost uv = used@.map_values(|s: String| s@);
    if !holds(used, base) {
        return copy_label(base);
    }
    let mut n: usize = 2;
    let mut label = make_suffixed(base, n);
    while holds(used, label.as_slice())
        invariant
            uv == used@.map_values(|s: String| s@),
            used@.len() + 2 < usize::MAX,
            2 <= n <= uv.len() + 2,
            label@ == suffixed(base@, n as nat),
            forall|k: nat| 2 <= k < n ==> uv.contains(#[trigger] suffixed(base@, k)),
            fresh_from(base@, uv, n as nat) == fresh_from(base@, uv, 2),
        decreases uv.len() + 2 - n,
    {
        proof {
            if n == uv.len() + 2 {
                lemma_some_suffix_free(base@, uv);
                let k = choose|k: nat| 2 <= k <= uv.len() + 2 && !uv.contains(#[trigger] suffixed(base@, k));
                assert(k < n || k == n);
            }
        }
        n += 1;
        label = make_suffixed(base, n);
    }
    proof {
        lemma_fresh_from_is_free(base@, uv, 2);
    }
    label
}

fn copy_label(base: &[char]) -> (r: Vec<char>)
    ensures
        r@ == base@,
{
    crate::text::copy_chars(base)
}

/// Build the profile list for the directory names `dirs`: sorted by name,
/// each named from the Profile Groups `store`, else `profiles.ini` (`ini`),
/// else its directory name, and labelled with the slug of its name (or
/// `profile<k>`), made unique with a `-2`, `-3`, ... suffix.
pub fn assign_profiles(dirs: Vec<String>, store: &StrMap, ini: &StrMap) -> (r: Vec<Profile>)
    requires
        dirs@.len() + 3 < usize::MAX,
    ensures
        exists|sorted: Seq<String>|
            sorted_names(sorted) && sorted.to_multiset() == dirs@.to_multiset() && r@.map_values(
                |p: Profile| p@,
            ) == assign_spec(sorted.map_values(|s: String| s@), store@, ini@),
{
    let ghost orig = dirs@;
    let dirs = sort_names(dirs);
    proof {
        orig.to_multiset_ensures();
        dirs@.to_multiset_ensures();
    }
    let ghost dv = dirs@.map_values(|s: String| s@);
    let mut profiles: Vec<Profile> = Vec::new();
    let mut used: Vec<String> = Vec::new();
    let mut i: usize = 0;
    assert(dv.take(0) == Seq::<Seq<char>>::empty());
    while i < dirs.len()
        invariant
            dv == dirs@.map_values(|s: String| s@),
            dirs@.len() + 3 < usize::MAX,
            i <= dirs@.len(),
            profiles@.len() == i,
            used@.len() == i,
            profiles@.map_values(|p: Profile| p@) == assign_spec(dv.take(i as int), store@, ini@),
            used@.map_values(|s: String| s@) == labels_of(profiles@.map_values(|p: Profile| p@)),
        decreases dirs@.len() - i,
    {
        let dir = &dirs[i];
        let name: String = match store.get(dir.as_str()) {
            Some(n) => String::from_str(n.as_str()),
            None => match ini.get(dir.as_str()) {
                Some(n) => String::from_str(n.as_str()),
                None => default_name(dir.as_str()),
            },
        };
        let slugged = slug(name.as_str());
        let base = if slugged.as_str().unicode_len() == 0 {
            let mut b: Vec<char> = Vec::new();
            push_str(&mut b, "profile");
            push_decimal(&mut b, profiles.len() + 1);
            b
        } else {
            to_chars(slugged.as_str())
        };
        let ghost pv = profiles@.map_values(|p: Profile| p@);
        assert(base@ == base_label(name@, pv.len()));
        let label_chars = pick_label(base.as_slice(), &used);
        let label = chars_to_string(label_chars.as_slice());
        let ghost before_used = used@;
        used.push(chars_to_string(label_chars.as_slice()));
        let ghost before = profiles@;
        profiles.push(Profile { name, dir: String::from_str(dir.as_str()), label });
        proof {
            assert(dv.take(i + 1).drop_last() == dv.take(i as int));
            assert(dv.take(i + 1).last() == dir@);
            assert(profiles@.map_values(|p: Profile| p@) == pv.push(profiles@[i as int]@));
            assert(used@.map_values(|s: String| s@) == before_used.map_values(|s: String| s@).push(label_chars@));
            assert(labels_of(pv.push(profiles@[i as int]@)) == labels_of(pv).push(label_chars@));
        }
        i += 1;
    }
    assert(dv.take(dirs@.len() as int) == dv);
    profiles
}

/// Every profile gets a label that no profile before it has, so the labels
/// are pairwise distinct (they are keys of one TOML table).
pub proof fn law_labels_are_unique(dirs: Seq<Seq<char>>, store: Map<Seq<char>, Seq<char>>, ini: Map<Seq<char>, Seq<char>>)
    ensures
        labels_of(assign_spec(dirs, store, ini)).no_duplicates(),
    decreases dirs.len(),
{
    if dirs.len() > 0 {
        law_labels_are_unique(dirs.drop_last(), store, ini);
        let ps = assign_spec(dirs.drop_last(), store, ini);
        let used = labels_of(ps);
        let name = name_for(dirs.last(), store, ini);
        let base = base_label(name, ps.len());
        let label = fresh_label(base, used);
        if used.contains(base) {
            lemma_fresh_from_is_free(base, used, 2);
        }
        let all = labels_of(assign_spec(dirs, store, ini));
        assert(all == used.push(label));
        assert forall|i: int, j: int| 0 <= i < all.len() && 0 <= j < all.len() && i != j implies all[i] != all[j] by {
            if i < used.len() && j < used.len() {
                assert(all[i] == used[i] && all[j] == used[j]);
            } else if i == used.len() {
                assert(all[j] == used[j]);
            } else {
                assert(all[i] == used[i]);
            }
        }
    }
}

proof fn lemma_fresh_from_nonempty(base: Seq<char>, used: Seq<Seq<char>>, n: nat)
    ensures
        fresh_from(base, used, n).len() > 0,
    decreases used.len() + 2 - n,
{
    if !(n >= used.len() + 2 || !used.contains(suffixed(base, n))) {
        lemma_fresh_from_nonempty(base, used, n + 1);
    }
}

/// Whether profile `k` of `ps` is the one for directory `dirs[k]`: named
/// from the store, else from `profiles.ini`, else after the directory, with
/// a non-empty label that is the name's slug whenever that slug is non-empty
/// and no earlier profile holds it.
pub open spec fn profile_for_dir(ps: Seq<ProfileView>, dirs: Seq<Seq<char>>, store: Map<Seq<char>, Seq<char>>, ini: Map<Seq<char>, Seq<char>>, k: int) -> bool {
    &&& ps[k].1 == dirs[k]
    &&& ps[k].0 == name_for(dirs[k], store, ini)
    &&& ps[k].2.len() > 0
    &&& (slug_spec(ps[k].0).len() > 0 && !labels_of(ps.take(k)).contains(slug_spec(ps[k].0))
        ==> ps[k].2 == slug_spec(ps[k].0))
}

/// Discovery gives one profile per directory, in the order given (sorted by
/// [`assign_profiles`]), each as [`profile_for_dir`] describes.
pub proof fn law_one_profile_per_directory(dirs: Seq<Seq<char>>, store: Map<Seq<char>, Seq<char>>, ini: Map<Seq<char>, Seq<char>>)
    ensures
        assign_spec(dirs, store, ini).len() == dirs.len(),
        forall|k: int|
            0 <= k < dirs.len() ==> #[trigger] profile_for_dir(assign_spec(dirs, store, ini), dirs, store, ini, k),
    decreases dirs.len(),
{
    if dirs.len() > 0 {
        let rest = dirs.drop_last();
        law_one_profile_per_directory(rest, store, ini);
        let prev = assign_spec(rest, store, ini);
        let ps = assign_spec(dirs, store, ini);
        let name = name_for(dirs.last(), store, ini);
        let base = base_label(name, prev.len());
        let used = labels_of(prev);
        assert(ps == prev.push((name, dirs.last(), fresh_label(base, used))));
        if used.contains(base) {
            lemma_fresh_from_nonempty(base, used, 2);
        } else {
            if slug_spec(name).len() == 0 {
                lemma_decimal_len((prev.len() + 1) as nat);
            }
        }
        assert forall|k: int| 0 <= k < dirs.len() implies #[trigger] profile_for_dir(ps, dirs, store, ini, k) by {
            if k < rest.len() {
                assert(profile_for_dir(prev, rest, store, ini, k));
                assert(ps[k] == prev[k]);
                assert(dirs[k] == rest[k]);
                assert(ps.take(k) =~= prev.take(k));
            } else {
                assert(ps.take(k) =~= prev);
            }
        }
    }
}

} // verus!
