//! Character-level string helpers shared by the router and the installer.

use vstd::prelude::*;

verus! {

/// The characters of `s`, in order.
pub fn to_chars(s: &str) -> (r: Vec<char>)
    ensures
        r@ == s@,
{
    let mut out: Vec<char> = Vec::new();
    for c in it: s.chars()
        invariant
            out@ == it.seq().take(it.index() as int),
            it.seq() == s@,
    {
        out.push(c);
    }
    out
}

/// A `String` holding exactly the characters of `v`.
///
/// Trusted: calls std's `FromIterator<char>` for `String`, which collects the
/// characters in order.
#[verifier::external_body]
pub(crate) fn chars_to_string(v: &[char]) -> (r: String)
    ensures
        r@ == v@,
{
    v.iter().collect()
}

/// Appends all characters of `s` to `out`.
pub fn push_all(out: &mut Vec<char>, s: &[char])
    ensures
        final(out)@ == old(out)@ + s@,
{
    let mut i: usize = 0;
    while i < s.len()
        invariant
            i <= s@.len(),
            out@ == old(out)@ + s@.take(i as int),
        decreases s@.len() - i,
    {
        out.push(s[i]);
        i += 1;
        assert(s@.take(i as int) == s@.take(i - 1 as int).push(s@[i - 1]));
    }
    assert(s@.take(s@.len() as int) == s@);
}

/// Appends all characters of the string `s` to `out`.
pub fn push_str(out: &mut Vec<char>, s: &str)
    ensures
        final(out)@ == old(out)@ + s@,
{
    let cs = to_chars(s);
    push_all(out, cs.as_slice());
}

/// A fresh copy of `s`.
pub fn copy_chars(s: &[char]) -> (r: Vec<char>)
    ensures
        r@ == s@,
{
    let mut out: Vec<char> = Vec::new();
    push_all(&mut out, s);
    assert(out@ == Seq::<char>::empty() + s@);
    out
}

/// The characters `s[start..end]`.
pub fn sub_chars(s: &[char], start: usize, end: usize) -> (r: Vec<char>)
    requires
        start <= end <= s@.len(),
    ensures
        r@ == s@.subrange(start as int, end as int),
{
    let mut out: Vec<char> = Vec::new();
    let mut i = start;
    while i < end
        invariant
            start <= i <= end <= s@.len(),
            out@ == s@.subrange(start as int, i as int),
        decreases end - i,
    {
        out.push(s[i]);
        i += 1;
    }
    out
}


/// Whether `a` and `b` hold the same characters.
pub fn eq_chars(a: &[char], b: &[char]) -> (r: bool)
    ensures
        r == (a@ == b@),
{
    if a.len() != b.len() {
        return false;
    }
    let mut i: usize = 0;
    while i < a.len()
        invariant
            a@.len() == b@.len(),
            i <= a@.len(),
            forall|k: int| 0 <= k < i ==> a@[k] == b@[k],
        decreases a@.len() - i,
    {
        if a[i] != b[i] {
            return false;
        }
        i += 1;
    }
    assert(a@ =~= b@);
    true
}

/// Whether `p` is a prefix of `s`.
pub open spec fn is_prefix(p: Seq<char>, s: Seq<char>) -> bool {
    p.len() <= s.len() && s.subrange(0, p.len() as int) == p
}

/// Whether `p` is a prefix of `s`.
pub fn starts_with(s: &[char], p: &[char]) -> (r: bool)
    ensures
        r == is_prefix(p@, s@),
{
    if p.len() > s.len() {
        return false;
    }
    let mut i: usize = 0;
    while i < p.len()
        invariant
            p@.len() <= s@.len(),
            i <= p@.len(),
            forall|k: int| 0 <= k < i ==> s@[k] == p@[k],
        decreases p@.len() - i,
    {
        if s[i] != p[i] {
            assert(s@.subrange(0, p@.len() as int)[i as int] != p@[i as int]);
            return false;
        }
        i += 1;
    }
    assert(s@.subrange(0, p@.len() as int) =~= p@);
    true
}

/// Whether `needle` occurs somewhere in `hay`.
pub open spec fn contains_seq(hay: Seq<char>, needle: Seq<char>) -> bool {
    exists|k: int| 0 <= k <= hay.len() - needle.len() && #[trigger] hay.subrange(k, k + needle.len()) == needle
}

/// Whether `needle` occurs somewhere in `hay`.
pub fn contains(hay: &[char], needle: &[char]) -> (r: bool)
    ensures
        r == contains_seq(hay@, needle@),
{
    if needle.len() > hay.len() {
        return false;
    }
    let n = hay.len();
    let last = hay.len() - needle.len();
    let mut k: usize = 0;
    let mut more = true;
    while more
        invariant
            last == hay@.len() - needle@.len(),
            n == hay@.len(),
            k <= last,
            forall|m: int| 0 <= m < k ==> #[trigger] hay@.subrange(m, m + needle@.len()) != needle@,
            !more ==> hay@.subrange(k as int, k + needle@.len()) != needle@ && k == last,
        decreases last - k, (if more { 1int } else { 0int }),
    {
        let mut i: usize = 0;
        let mut same = true;
        while i < needle.len()
            invariant
                k <= last,
                n == hay@.len(),
                last == hay@.len() - needle@.len(),
                i <= needle@.len(),
                same == (forall|j: int| 0 <= j < i ==> hay@[k + j] == needle@[j]),
            decreases needle@.len() - i,
        {
            assert(k + i < n);
            if hay[k + i] != needle[i] {
                same = false;
            }
            i += 1;
        }
        if same {
            assert(hay@.subrange(k as int, k + needle@.len()) =~= needle@);
            return true;
        } else {
            assert(exists|j: int| 0 <= j < needle@.len() && hay@[k + j] != needle@[j]);
            let ghost j = choose|j: int| 0 <= j < needle@.len() && hay@[k + j] != needle@[j];
            assert(hay@.subrange(k as int, k + needle@.len())[j] != needle@[j]);
        }
        if k == last {
            more = false;
        } else {
            k += 1;
        }
    }
    proof {
        assert forall|m: int| 0 <= m <= hay@.len() - needle@.len() implies #[trigger] hay@.subrange(
            m,
            m + needle@.len(),
        ) != needle@ by {
            if m == k {
            }
        }
    }
    false
}

/// The decimal digit for `d < 10`.
pub open spec fn digit(d: nat) -> char {
    if d == 0 { '0' } else if d == 1 { '1' } else if d == 2 { '2' } else if d == 3 { '3' }
    else if d == 4 { '4' } else if d == 5 { '5' } else if d == 6 { '6' } else if d == 7 { '7' }
    else if d == 8 { '8' } else { '9' }
}

/// The decimal representation of `n`, without leading zeros.
pub open spec fn decimal(n: nat) -> Seq<char>
    decreases n,
{
    if n < 10 {
        seq![digit(n)]
    } else {
        decimal(n / 10).push(digit(n % 10))
    }
}

fn digit_char(d: usize) -> (c: char)
    requires
        d < 10,
    ensures
        c == digit(d as nat),
{
    if d == 0 { '0' } else if d == 1 { '1' } else if d == 2 { '2' } else if d == 3 { '3' }
    else if d == 4 { '4' } else if d == 5 { '5' } else if d == 6 { '6' } else if d == 7 { '7' }
    else if d == 8 { '8' } else { '9' }
}

/// The decimal representation of `n`.
pub fn push_decimal(out: &mut Vec<char>, n: usize)
    ensures
        final(out)@ == old(out)@ + decimal(n as nat),
    decreases n,
{
    if n < 10 {
        out.push(digit_char(n));
        assert(old(out)@.push(digit(n as nat)) == old(out)@ + seq![digit(n as nat)]);
    } else {
        push_decimal(out, n / 10);
        out.push(digit_char(n % 10));
        assert(old(out)@ + decimal((n / 10) as nat) + seq![digit((n % 10) as nat)] == old(out)@
            + decimal(n as nat));
    }
}


/// First position at or after `j` holding `c`, or `s.len()` when there is none.
pub open spec fn find_from(s: Seq<char>, j: int, c: char) -> int
    decreases s.len() - j,
{
    if j < 0 || j >= s.len() {
        s.len() as int
    } else if s[j] == c {
        j
    } else {
        find_from(s, j + 1, c)
    }
}

/// `s` split at every `c` (empty pieces kept; no `c` gives `s` itself).
pub open spec fn split_on(s: Seq<char>, c: char) -> Seq<Seq<char>>
    decreases s.len(),
{
    let k = find_from(s, 0, c);
    if k >= s.len() || k < 0 {
        seq![s]
    } else {
        seq![s.subrange(0, k)] + split_on(s.subrange(k + 1, s.len() as int), c)
    }
}

/// `find_from` returns the first `c` at or after `j`.
pub proof fn lemma_find_from(s: Seq<char>, j: int, c: char, m: int)
    requires
        0 <= j <= m <= s.len(),
        forall|k: int| j <= k < m ==> s[k] != c,
        m == s.len() || s[m] == c,
    ensures
        find_from(s, j, c) == m,
    decreases m - j,
{
    if j < m {
        lemma_find_from(s, j + 1, c, m);
    }
}

pub proof fn lemma_split_step(cur: Seq<char>, rest: Seq<char>, c: char)
    requires
        forall|k: int| 0 <= k < cur.len() ==> cur[k] != c,
        rest.len() > 0,
        rest[0] == c,
    ensures
        split_on(cur + rest, c) == seq![cur] + split_on(rest.subrange(1, rest.len() as int), c),
{
    let s = cur + rest;
    lemma_find_from(s, 0, c, cur.len() as int);
    assert(s.subrange(0, cur.len() as int) == cur);
    assert(s.subrange(cur.len() + 1int, s.len() as int) == rest.subrange(1, rest.len() as int));
}

pub proof fn lemma_split_last(cur: Seq<char>, c: char)
    requires
        forall|k: int| 0 <= k < cur.len() ==> cur[k] != c,
    ensures
        split_on(cur, c) == seq![cur],
{
    lemma_find_from(cur, 0, c, cur.len() as int);
}


/// Split `body` at every `c`, keeping empty pieces.
pub fn split_char(body: &[char], c: char) -> (r: Vec<Vec<char>>)
    ensures
        r@.map_values(|x: Vec<char>| x@) == split_on(body@, c),
{
    let mut parts: Vec<Vec<char>> = Vec::new();
    let mut cur: Vec<char> = Vec::new();
    let mut i: usize = 0;
    assert(cur@ + body@.subrange(0, body@.len() as int) == body@);
    while i < body.len()
        invariant
            i <= body@.len(),
            forall|k: int| 0 <= k < cur@.len() ==> cur@[k] != c,
            split_on(body@, c) == parts@.map_values(|x: Vec<char>| x@) + split_on(
                cur@ + body@.subrange(i as int, body@.len() as int),
                c,
            ),
        decreases body@.len() - i,
    {
        let ghost rest = body@.subrange(i as int, body@.len() as int);
        if body[i] == c {
            proof {
                lemma_split_step(cur@, rest, c);
                assert(rest.subrange(1, rest.len() as int) == body@.subrange(i + 1, body@.len() as int));
                assert(Seq::<char>::empty() + body@.subrange(i + 1, body@.len() as int)
                    == body@.subrange(i + 1, body@.len() as int));
            }
            let ghost before = parts@;
            let ghost piece = cur@;
            parts.push(cur);
            assert(parts@.map_values(|x: Vec<char>| x@) == before.map_values(|x: Vec<char>| x@).push(
                piece,
            ));
            cur = Vec::new();
        } else {
            let ghost old_cur = cur@;
            cur.push(body[i]);
            assert(cur@ + body@.subrange(i + 1, body@.len() as int) == old_cur + rest);
        }
        i += 1;
    }
    proof {
        assert(cur@ + body@.subrange(i as int, body@.len() as int) == cur@);
        lemma_split_last(cur@, c);
    }
    let ghost before = parts@;
    let ghost last = cur@;
    parts.push(cur);
    assert(parts@.map_values(|x: Vec<char>| x@) == before.map_values(|x: Vec<char>| x@).push(last));
    parts
}


// ---------------------------------------------------------------------------
// Whitespace, words and lines
// ---------------------------------------------------------------------------

/// Whether `c` has the Unicode `White_Space` property (as `char::is_whitespace`).
pub open spec fn is_ws(c: char) -> bool {
    ('\u{9}' <= c && c <= '\u{d}') || c == ' ' || c == '\u{85}' || c == '\u{a0}' || c == '\u{1680}'
        || ('\u{2000}' <= c && c <= '\u{200a}') || c == '\u{2028}' || c == '\u{2029}' || c
        == '\u{202f}' || c == '\u{205f}' || c == '\u{3000}'
}

/// Whether `c` has the Unicode `White_Space` property.
pub fn is_whitespace(c: char) -> (r: bool)
    ensures
        r == is_ws(c),
{
    ('\u{9}' <= c && c <= '\u{d}') || c == ' ' || c == '\u{85}' || c == '\u{a0}' || c == '\u{1680}'
        || ('\u{2000}' <= c && c <= '\u{200a}') || c == '\u{2028}' || c == '\u{2029}' || c
        == '\u{202f}' || c == '\u{205f}' || c == '\u{3000}'
}

/// End of the run of non-whitespace characters that starts at `i`.
pub open spec fn word_end(s: Seq<char>, i: int) -> int
    decreases s.len() - i,
{
    if i < 0 || i >= s.len() || is_ws(s[i]) {
        i
    } else {
        word_end(s, i + 1)
    }
}

/// The whitespace-separated words of `s[i..]`, in order.
pub open spec fn words_from(s: Seq<char>, i: int) -> Seq<Seq<char>>
    decreases s.len() - i,
{
    if i < 0 || i >= s.len() {
        Seq::empty()
    } else if is_ws(s[i]) {
        words_from(s, i + 1)
    } else {
        let e = word_end(s, i);
        if i < e <= s.len() {
            seq![s.subrange(i, e)] + words_from(s, e)
        } else {
            Seq::empty()
        }
    }
}

/// The whitespace-separated words of `s` (as `str::split_whitespace`).
pub open spec fn words(s: Seq<char>) -> Seq<Seq<char>> {
    words_from(s, 0)
}

proof fn lemma_word_end(s: Seq<char>, i: int)
    requires
        0 <= i <= s.len(),
    ensures
        i <= word_end(s, i) <= s.len(),
        forall|k: int| i <= k < word_end(s, i) ==> !is_ws(s[k]),
        word_end(s, i) < s.len() ==> is_ws(s[word_end(s, i)]),
    decreases s.len() - i,
{
    if i < s.len() && !is_ws(s[i]) {
        lemma_word_end(s, i + 1);
    }
}

/// The whitespace-separated words of `s`.
pub fn split_words(s: &[char]) -> (r: Vec<Vec<char>>)
    ensures
        r@.map_values(|x: Vec<char>| x@) == words(s@),
{
    let n = s.len();
    let mut out: Vec<Vec<char>> = Vec::new();
    let mut i: usize = 0;
    while i < n
        invariant
            n == s@.len(),
            i <= n,
            words(s@) == out@.map_values(|x: Vec<char>| x@) + words_from(s@, i as int),
        decreases n - i,
    {
        if is_whitespace(s[i]) {
            i += 1;
        } else {
            let mut e = i;
            proof {
                lemma_word_end(s@, i as int);
            }
            while e < n && !is_whitespace(s[e])
                invariant
                    n == s@.len(),
                    i <= e <= n,
                    word_end(s@, e as int) == word_end(s@, i as int),
                decreases n - e,
            {
                e += 1;
            }
            let w = sub_chars(s, i, e);
            let ghost before = out@;
            out.push(w);
            assert(out@.map_values(|x: Vec<char>| x@) == before.map_values(|x: Vec<char>| x@).push(
                s@.subrange(i as int, e as int),
            ));
            assert(before.map_values(|x: Vec<char>| x@) + words_from(s@, i as int) == out@.map_values(
                |x: Vec<char>| x@,
            ) + words_from(s@, e as int));
            i = e;
        }
    }
    assert(out@.map_values(|x: Vec<char>| x@) + Seq::<Seq<char>>::empty() == out@.map_values(
        |x: Vec<char>| x@,
    ));
    out
}

/// `s` without leading and trailing whitespace (as `str::trim`).
pub open spec fn trim_spec(s: Seq<char>) -> Seq<char>
    decreases s.len(),
{
    if s.len() > 0 && is_ws(s[0]) {
        trim_spec(s.drop_first())
    } else if s.len() > 0 && is_ws(s.last()) {
        trim_spec(s.drop_last())
    } else {
        s
    }
}

/// `s` without leading and trailing whitespace.
pub fn trim(s: &[char]) -> (r: Vec<char>)
    ensures
        r@ == trim_spec(s@),
{
    let mut a: usize = 0;
    let mut b: usize = s.len();
    assert(s@.subrange(0, s@.len() as int) == s@);
    while a < b && (is_whitespace(s[a]) || is_whitespace(s[b - 1]))
        invariant
            a <= b <= s@.len(),
            trim_spec(s@) == trim_spec(s@.subrange(a as int, b as int)),
        decreases b - a,
    {
        let ghost cur = s@.subrange(a as int, b as int);
        if is_whitespace(s[a]) {
            assert(cur.drop_first() == s@.subrange(a + 1, b as int));
            a += 1;
        } else {
            assert(cur.drop_last() == s@.subrange(a as int, b - 1));
            b -= 1;
        }
    }
    sub_chars(s, a, b)
}

/// The lines of `s` (as `str::lines`): split at `\n`, a `\r` just before a
/// `\n` dropped, and no final empty line after a trailing `\n`.
pub open spec fn lines_spec(s: Seq<char>) -> Seq<Seq<char>> {
    let pieces = split_on(s, '\n');
    let full = Seq::new(pieces.len(), |k: int|
        if k + 1 < pieces.len() && pieces[k].len() > 0 && pieces[k].last() == '\r' {
            pieces[k].drop_last()
        } else {
            pieces[k]
        });
    if full.len() > 0 && full.last().len() == 0 {
        full.drop_last()
    } else {
        full
    }
}

/// The lines of `s` (see [`lines_spec`]).
pub fn lines(s: &[char]) -> (r: Vec<Vec<char>>)
    ensures
        r@.map_values(|x: Vec<char>| x@) == lines_spec(s@),
{
    let pieces = split_char(s, '\n');
    let ghost pv = pieces@.map_values(|x: Vec<char>| x@);
    let np = pieces.len();
    let ghost full = Seq::new(pv.len(), |k: int|
        if k + 1 < pv.len() && pv[k].len() > 0 && pv[k].last() == '\r' {
            pv[k].drop_last()
        } else {
            pv[k]
        });
    let mut out: Vec<Vec<char>> = Vec::new();
    let mut k: usize = 0;
    while k < np
        invariant
            np == pieces@.len(),
            pv == pieces@.map_values(|x: Vec<char>| x@),
            full.len() == pv.len(),
            forall|m: int| 0 <= m < full.len() ==> #[trigger] full[m] == (if m + 1 < pv.len()
                && pv[m].len() > 0 && pv[m].last() == '\r' {
                pv[m].drop_last()
            } else {
                pv[m]
            }),
            k <= np,
            out@.map_values(|x: Vec<char>| x@) == full.take(k as int),
        decreases np - k,
    {
        let p = &pieces[k];
        let keep = if k + 1 < np && p.len() > 0 && p[p.len() - 1] == '\r' {
            p.len() - 1
        } else {
            p.len()
        };
        let line = sub_chars(p.as_slice(), 0, keep);
        let ghost before = out@;
        assert(pv[k as int] == p@);
        assert(line@ == full[k as int]);
        out.push(line);
        assert(out@.map_values(|x: Vec<char>| x@) == before.map_values(|x: Vec<char>| x@).push(
            full[k as int],
        ));
        assert(full.take(k + 1) == full.take(k as int).push(full[k as int]));
        k += 1;
    }
    assert(full.take(np as int) == full);
    assert(full == {
        let pieces = split_on(s@, '\n');
        Seq::new(pieces.len(), |k: int|
            if k + 1 < pieces.len() && pieces[k].len() > 0 && pieces[k].last() == '\r' {
                pieces[k].drop_last()
            } else {
                pieces[k]
            })
    });
    if out.len() > 0 && out[out.len() - 1].len() == 0 {
        let ghost before = out@;
        out.pop();
        assert(out@.map_values(|x: Vec<char>| x@) == before.map_values(|x: Vec<char>| x@).drop_last());
    }
    out
}


// ---------------------------------------------------------------------------
// Substring replacement
// ---------------------------------------------------------------------------

/// `s` with every non-overlapping occurrence of the non-empty `p`, scanning
/// left to right, replaced by `r` (as `str::replace`).
pub open spec fn replace_spec(s: Seq<char>, p: Seq<char>, r: Seq<char>) -> Seq<char>
    decreases s.len(),
{
    if s.len() == 0 {
        Seq::empty()
    } else if p.len() > 0 && is_prefix(p, s) {
        r + replace_spec(s.subrange(p.len() as int, s.len() as int), p, r)
    } else {
        seq![s[0]] + replace_spec(s.drop_first(), p, r)
    }
}

/// Whether `p` occurs in `s` at position `i`.
fn occurs_at(s: &[char], i: usize, p: &[char]) -> (r: bool)
    requires
        i <= s@.len(),
    ensures
        r == is_prefix(p@, s@.subrange(i as int, s@.len() as int)),
{
    let ghost rest = s@.subrange(i as int, s@.len() as int);
    let n = s.len();
    if p.len() > n - i {
        return false;
    }
    let mut k: usize = 0;
    while k < p.len()
        invariant
            n == s@.len(),
            i <= s@.len(),
            p@.len() <= s@.len() - i,
            rest == s@.subrange(i as int, s@.len() as int),
            k <= p@.len(),
            forall|m: int| 0 <= m < k ==> s@[i + m] == p@[m],
        decreases p@.len() - k,
    {
        if s[i + k] != p[k] {
            assert(rest.subrange(0, p@.len() as int)[k as int] != p@[k as int]);
            return false;
        }
        k += 1;
    }
    assert(rest.subrange(0, p@.len() as int) =~= p@);
    true
}

/// `s` with every occurrence of the non-empty `p` replaced by `r`.
pub fn replace_all(s: &[char], p: &[char], r: &[char]) -> (out: Vec<char>)
    requires
        p@.len() > 0,
    ensures
        out@ == replace_spec(s@, p@, r@),
{
    let mut out: Vec<char> = Vec::new();
    let mut i: usize = 0;
    assert(s@.subrange(0, s@.len() as int) == s@);
    while i < s.len()
        invariant
            p@.len() > 0,
            i <= s@.len(),
            replace_spec(s@, p@, r@) == out@ + replace_spec(s@.subrange(i as int, s@.len() as int), p@, r@),
        decreases s@.len() - i,
    {
        let ghost rest = s@.subrange(i as int, s@.len() as int);
        if occurs_at(s, i, p) {
            push_all(&mut out, r);
            assert(rest.subrange(p@.len() as int, rest.len() as int) == s@.subrange(i + p@.len(), s@.len() as int));
            i += p.len();
        } else {
            out.push(s[i]);
            assert(rest.drop_first() == s@.subrange(i + 1, s@.len() as int));
            assert(rest[0] == s@[i as int]);
            i += 1;
        }
    }
    assert(s@.subrange(i as int, s@.len() as int) == Seq::<char>::empty());
    assert(out@ + Seq::<char>::empty() == out@);
    out
}

/// Number of lines of `s`, as `s.lines().count()`.
pub open spec fn line_count(s: Seq<char>) -> nat {
    lines_spec(s).len()
}

} // verus!
