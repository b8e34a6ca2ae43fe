//! Explain and highlight glob patterns as the user types them, so it is clear
//! which characters are wildcards (`*`, `?`, `[...]`, `{a,b}`) and what the
//! whole pattern will actually match.
//!
//! The semantics mirror how the router matches URLs: matches are anchored to
//! the *entire* URL, `*`/`?` cross `/`, and `\` escapes the following
//! metacharacter into a literal.

use vstd::prelude::*;
use crate::text::{chars_to_string, find_from, lemma_find_from, lemma_split_last, lemma_split_step, push_all, push_str, split_on, sub_chars, to_chars};

verus! {

/// What a slice of a pattern does when matching.
#[derive(Debug, PartialEq, Eq)]
pub enum Kind {
    /// Ordinary text that matches itself.
    Literal,
    /// `*` — any run of characters (including `/`).
    Star,
    /// `?` — exactly one character.
    Any,
    /// `\x` — the following metacharacter matched as a literal.
    Escaped,
    /// `[...]` — one character from (or, when negated, not from) a set.
    Class { negated: bool, body: String },
    /// `{a,b,c}` — any one of the comma-separated alternatives.
    Alt { parts: Vec<String> },
}

/// A classified slice of a pattern: its raw source `text` and what it `kind` does.
#[derive(Debug, PartialEq, Eq)]
pub struct Token {
    pub text: String,
    pub kind: Kind,
}

/// The mathematical content of a [`Kind`].
pub enum KindView {
    Literal,
    Star,
    Any,
    Escaped,
    Class(bool, Seq<char>),
    Alt(Seq<Seq<char>>),
}

/// The character sequences held by a vector of strings.
pub open spec fn strs_of(v: Seq<String>) -> Seq<Seq<char>> {
    v.map_values(|x: String| x@)
}

impl View for Kind {
    type V = KindView;

    open spec fn view(&self) -> KindView {
        match self {
            Kind::Literal => KindView::Literal,
            Kind::Star => KindView::Star,
            Kind::Any => KindView::Any,
            Kind::Escaped => KindView::Escaped,
            Kind::Class { negated, body } => KindView::Class(*negated, body@),
            Kind::Alt { parts } => KindView::Alt(strs_of(parts@)),
        }
    }
}

impl View for Token {
    type V = (Seq<char>, KindView);

    open spec fn view(&self) -> (Seq<char>, KindView) {
        (self.text@, self.kind@)
    }
}

/// The views of a sequence of tokens.
pub open spec fn tokens_of(v: Seq<Token>) -> Seq<(Seq<char>, KindView)> {
    v.map_values(|t: Token| t@)
}

// ---------------------------------------------------------------------------
// Specification of the lexer
// ---------------------------------------------------------------------------

/// Whether the class starting at `s[a] == '['` is negated.
pub open spec fn class_is_negated(s: Seq<char>, a: int) -> bool {
    a + 1 < s.len() && (s[a + 1] == '!' || s[a + 1] == '^')
}

/// Start of the body of the class at `s[a]` (after `[` and any negation mark).
pub open spec fn class_body_start(s: Seq<char>, a: int) -> int {
    if class_is_negated(s, a) { a + 2 } else { a + 1 }
}

/// Position of the `]` closing the class at `s[a]`; a `]` right at the start
/// of the body is a literal member. `s.len()` when the class is unclosed.
pub open spec fn class_close(s: Seq<char>, a: int) -> int {
    let b = class_body_start(s, a);
    let j = if b < s.len() && s[b] == ']' { b + 1 } else { b };
    find_from(s, j, ']')
}

/// Position of the first `}` after the `{` at `s[a]`, or `s.len()`.
pub open spec fn alt_close(s: Seq<char>, a: int) -> int {
    find_from(s, a + 1, '}')
}

/// Prepend the literal character `c` to a token list, joining it with a
/// leading literal token.
pub open spec fn prepend_literal(c: char, ts: Seq<(Seq<char>, KindView)>) -> Seq<(Seq<char>, KindView)> {
    if ts.len() > 0 && ts[0].1 is Literal {
        seq![(seq![c] + ts[0].0, KindView::Literal)] + ts.drop_first()
    } else {
        seq![(seq![c], KindView::Literal)] + ts
    }
}

/// The tokens of `s[i..]`.
pub open spec fn lex(s: Seq<char>, i: int) -> Seq<(Seq<char>, KindView)>
    decreases s.len() - i,
{
    if i < 0 || i >= s.len() {
        Seq::empty()
    } else if s[i] == '\\' && i + 1 < s.len() {
        seq![(s.subrange(i, i + 2), KindView::Escaped)] + lex(s, i + 2)
    } else if s[i] == '*' {
        seq![(s.subrange(i, i + 1), KindView::Star)] + lex(s, i + 1)
    } else if s[i] == '?' {
        seq![(s.subrange(i, i + 1), KindView::Any)] + lex(s, i + 1)
    } else if s[i] == '[' && i < class_close(s, i) < s.len() {
        let e = class_close(s, i);
        seq![
            (
                s.subrange(i, e + 1),
                KindView::Class(class_is_negated(s, i), s.subrange(class_body_start(s, i), e)),
            ),
        ] + lex(s, e + 1)
    } else if s[i] == '{' && i < alt_close(s, i) < s.len() {
        let e = alt_close(s, i);
        seq![(s.subrange(i, e + 1), KindView::Alt(split_on(s.subrange(i + 1, e), ',')))] + lex(
            s,
            e + 1,
        )
    } else {
        prepend_literal(s[i], lex(s, i + 1))
    }
}

/// Tokens of `ts` preceded by the pending literal run `lit`.
pub open spec fn with_pending(lit: Seq<char>, ts: Seq<(Seq<char>, KindView)>) -> Seq<(Seq<char>, KindView)> {
    if lit.len() == 0 {
        ts
    } else if ts.len() > 0 && ts[0].1 is Literal {
        seq![(lit + ts[0].0, KindView::Literal)] + ts.drop_first()
    } else {
        seq![(lit, KindView::Literal)] + ts
    }
}


// ---------------------------------------------------------------------------
// Lemmas
// ---------------------------------------------------------------------------

proof fn lemma_pending_special(lit: Seq<char>, t: (Seq<char>, KindView), rest: Seq<(Seq<char>, KindView)>)
    requires
        !(t.1 is Literal),
    ensures
        with_pending(lit, seq![t] + rest) == (if lit.len() == 0 {
            Seq::<(Seq<char>, KindView)>::empty()
        } else {
            seq![(lit, KindView::Literal)]
        }) + seq![t] + rest,
{
    let ts = seq![t] + rest;
    assert(ts[0] == t);
    if lit.len() == 0 {
        assert(Seq::<(Seq<char>, KindView)>::empty() + seq![t] + rest == ts);
    }
}

proof fn lemma_pending_literal(lit: Seq<char>, c: char, ts: Seq<(Seq<char>, KindView)>)
    ensures
        with_pending(lit, prepend_literal(c, ts)) == with_pending(lit.push(c), ts),
{
    let p = prepend_literal(c, ts);
    assert(p[0].1 is Literal);
    if ts.len() > 0 && ts[0].1 is Literal {
        assert(p.drop_first() == ts.drop_first());
        assert(lit + (seq![c] + ts[0].0) == lit.push(c) + ts[0].0);
        if lit.len() == 0 {
            assert(seq![c] + ts[0].0 == lit.push(c) + ts[0].0);
        }
    } else {
        assert(p.drop_first() == ts);
        assert(lit + seq![c] == lit.push(c));
        if lit.len() == 0 {
            assert(seq![c] == lit.push(c));
        }
    }
}

// ---------------------------------------------------------------------------
// The lexer
// ---------------------------------------------------------------------------

/// Push the pending literal run `lit` (if any) as a token and clear it.
fn flush(lit: &mut Vec<char>, out: &mut Vec<Token>)
    ensures
        final(lit)@ == Seq::<char>::empty(),
        tokens_of(final(out)@) == tokens_of(old(out)@) + (if old(lit)@.len() == 0 {
            Seq::<(Seq<char>, KindView)>::empty()
        } else {
            seq![(old(lit)@, KindView::Literal)]
        }),
{
    if lit.len() > 0 {
        let text = chars_to_string(lit.as_slice());
        let ghost before = out@;
        out.push(Token { text, kind: Kind::Literal });
        assert(tokens_of(out@) == tokens_of(before).push((old(lit)@, KindView::Literal)));
        *lit = Vec::new();
    } else {
        assert(tokens_of(out@) == tokens_of(out@) + Seq::<(Seq<char>, KindView)>::empty());
    }
}

/// Scan a `[...]` class starting at `start` (which is `[`). Returns the index of
/// the closing `]`, whether it is negated, and the inner body (sans brackets and
/// the negation marker). A `]` immediately after `[` / `[!` / `[^` is a literal
/// member, not the close.
fn scan_class(chars: &[char], start: usize) -> (r: Option<(usize, bool, String)>)
    requires
        start < chars@.len(),
    ensures
        class_close(chars@, start as int) < chars@.len() <==> r is Some,
        r matches Some((e, neg, body)) ==> start < e < chars@.len() && e == class_close(chars@, start as int) && neg
            == class_is_negated(chars@, start as int) && body@ == chars@.subrange(
            class_body_start(chars@, start as int),
            e as int,
        ),
{
    let n = chars.len();
    let mut j = start + 1;
    let negated = j < n && (chars[j] == '!' || chars[j] == '^');
    if negated {
        j += 1;
    }
    let body_start = j;
    if j < n && chars[j] == ']' {
        j += 1;
    }
    let ghost j0 = j as int;
    while j < n && chars[j] != ']'
        invariant
            n == chars@.len(),
            j0 <= j <= n,
            find_from(chars@, j as int, ']') == find_from(chars@, j0, ']'),
        decreases n - j,
    {
        j += 1;
    }
    proof {
        lemma_find_from(chars@, j as int, ']', j as int);
    }
    if j < n && chars[j] == ']' {
        let body = sub_chars(chars, body_start, j);
        Some((j, negated, chars_to_string(body.as_slice())))
    } else {
        None
    }
}

/// Split `body` at every `,`, keeping empty pieces.
fn split_commas(body: &[char]) -> (r: Vec<String>)
    ensures
        strs_of(r@) == split_on(body@, ','),
{
    let mut parts: Vec<String> = Vec::new();
    let mut cur: Vec<char> = Vec::new();
    let mut i: usize = 0;
    assert(cur@ + body@.subrange(0, body@.len() as int) == body@);
    while i < body.len()
        invariant
            i <= body@.len(),
            forall|k: int| 0 <= k < cur@.len() ==> cur@[k] != ',',
            split_on(body@, ',') == strs_of(parts@) + split_on(
                cur@ + body@.subrange(i as int, body@.len() as int),
                ',',
            ),
        decreases body@.len() - i,
    {
        let ghost rest = body@.subrange(i as int, body@.len() as int);
        if body[i] == ',' {
            proof {
                lemma_split_step(cur@, rest, ',');
                assert(rest.subrange(1, rest.len() as int) == body@.subrange(i + 1, body@.len() as int));
                assert(Seq::<char>::empty() + body@.subrange(i + 1, body@.len() as int)
                    == body@.subrange(i + 1, body@.len() as int));
            }
            let piece = chars_to_string(cur.as_slice());
            let ghost before = parts@;
            parts.push(piece);
            assert(strs_of(parts@) == strs_of(before).push(cur@));
            cur = Vec::new();
        } else {
            let ghost old_cur = cur@;
            cur.push(body[i]);
            assert(cur@ + body@.subrange(i + 1, body@.len() as int) == old_cur + rest);
        }
        i += 1;
    }
    proof {
        assert(cur@ + body@.subrange(i as int, body@.len() as int) == cur@);
        lemma_split_last(cur@, ',');
    }
    let piece = chars_to_string(cur.as_slice());
    let ghost before = parts@;
    parts.push(piece);
    assert(strs_of(parts@) == strs_of(before).push(cur@));
    parts
}

/// Scan a `{a,b}` alternation starting at `start` (which is `{`). Returns the
/// index of the closing `}` and the comma-separated alternatives.
fn scan_alt(chars: &[char], start: usize) -> (r: Option<(usize, Vec<String>)>)
    requires
        start < chars@.len(),
    ensures
        alt_close(chars@, start as int) < chars@.len() <==> r is Some,
        r matches Some((e, parts)) ==> start < e < chars@.len() && e == alt_close(chars@, start as int) && strs_of(parts@)
            == split_on(chars@.subrange(start + 1, e as int), ','),
{
    let n = chars.len();
    let mut j = start + 1;
    while j < n && chars[j] != '}'
        invariant
            n == chars@.len(),
            start + 1 <= j <= n,
            find_from(chars@, j as int, '}') == find_from(chars@, start + 1, '}'),
        decreases n - j,
    {
        j += 1;
    }
    proof {
        lemma_find_from(chars@, j as int, '}', j as int);
    }
    if j < n && chars[j] == '}' {
        let body = sub_chars(chars, start + 1, j);
        Some((j, split_commas(body.as_slice())))
    } else {
        None
    }
}

/// Split `pattern` into classified tokens. Unterminated `[`/`{` are treated as
/// literal characters.
pub fn tokenize(pattern: &str) -> (r: Vec<Token>)
    ensures
        tokens_of(r@) == lex(pattern@, 0),
{
    let chars = to_chars(pattern);
    let ghost s = chars@;
    let n = chars.len();
    let mut out: Vec<Token> = Vec::new();
    let mut lit: Vec<char> = Vec::new();
    let mut i: usize = 0;
    while i < n
        invariant
            s == chars@,
            n == s.len(),
            i <= n,
            lex(s, 0) == tokens_of(out@) + with_pending(lit@, lex(s, i as int)),
        decreases n - i,
    {
        let c = chars[i];
        if c == '\\' && n - i > 1 {
            let ghost t = (s.subrange(i as int, i + 2), KindView::Escaped);
            proof {
                lemma_pending_special(lit@, t, lex(s, i + 2));
            }
            flush(&mut lit, &mut out);
            let text = chars_to_string(sub_chars(chars.as_slice(), i, i + 2).as_slice());
            let ghost before = out@;
            out.push(Token { text, kind: Kind::Escaped });
            assert(tokens_of(out@) == tokens_of(before).push(t));
            i += 2;
        } else if c == '*' || c == '?' {
            let ghost t = (s.subrange(i as int, i + 1), if c == '*' {
                KindView::Star
            } else {
                KindView::Any
            });
            proof {
                lemma_pending_special(lit@, t, lex(s, i + 1));
            }
            flush(&mut lit, &mut out);
            let text = chars_to_string(sub_chars(chars.as_slice(), i, i + 1).as_slice());
            let kind = if c == '*' { Kind::Star } else { Kind::Any };
            let ghost before = out@;
            out.push(Token { text, kind });
            assert(tokens_of(out@) == tokens_of(before).push(t));
            i += 1;
        } else if c == '[' {
            match scan_class(chars.as_slice(), i) {
                Some((end, negated, body)) => {
                    let ghost t = (
                        s.subrange(i as int, end + 1),
                        KindView::Class(negated, body@),
                    );
                    proof {
                        lemma_pending_special(lit@, t, lex(s, end + 1));
                    }
                    flush(&mut lit, &mut out);
                    let text = chars_to_string(sub_chars(chars.as_slice(), i, end + 1).as_slice());
                    let ghost before = out@;
                    out.push(Token { text, kind: Kind::Class { negated, body } });
                    assert(tokens_of(out@) == tokens_of(before).push(t));
                    i = end + 1;
                },
                None => {
                    proof {
                        lemma_pending_literal(lit@, c, lex(s, i + 1));
                    }
                    lit.push('[');
                    i += 1;
                },
            }
        } else if c == '{' {
            match scan_alt(chars.as_slice(), i) {
                Some((end, parts)) => {
                    let ghost t = (s.subrange(i as int, end + 1), KindView::Alt(strs_of(parts@)));
                    proof {
                        lemma_pending_special(lit@, t, lex(s, end + 1));
                    }
                    flush(&mut lit, &mut out);
                    let text = chars_to_string(sub_chars(chars.as_slice(), i, end + 1).as_slice());
                    let ghost before = out@;
                    out.push(Token { text, kind: Kind::Alt { parts } });
                    assert(tokens_of(out@) == tokens_of(before).push(t));
                    i = end + 1;
                },
                None => {
                    proof {
                        lemma_pending_literal(lit@, c, lex(s, i + 1));
                    }
                    lit.push('{');
                    i += 1;
                },
            }
        } else {
            proof {
                lemma_pending_literal(lit@, c, lex(s, i + 1));
            }
            lit.push(c);
            i += 1;
        }
    }
    flush(&mut lit, &mut out);
    proof {
        let e = Seq::<(Seq<char>, KindView)>::empty();
        assert(tokens_of(out@) == tokens_of(out@) + e);
    }
    out
}


// ---------------------------------------------------------------------------
// Tokens partition the pattern
// ---------------------------------------------------------------------------

/// The texts of `ts` laid end to end.
pub open spec fn concat_texts(ts: Seq<(Seq<char>, KindView)>) -> Seq<char>
    decreases ts.len(),
{
    if ts.len() == 0 {
        Seq::empty()
    } else {
        ts[0].0 + concat_texts(ts.drop_first())
    }
}

proof fn lemma_concat_cons(t: (Seq<char>, KindView), ts: Seq<(Seq<char>, KindView)>)
    ensures
        concat_texts(seq![t] + ts) == t.0 + concat_texts(ts),
{
    assert((seq![t] + ts).drop_first() == ts);
}

proof fn lemma_lex_concat(s: Seq<char>, i: int)
    requires
        0 <= i <= s.len(),
    ensures
        concat_texts(lex(s, i)) == s.subrange(i, s.len() as int),
    decreases s.len() - i,
{
    if i < s.len() {
        if s[i] == '\\' && i + 1 < s.len() {
            lemma_lex_concat(s, i + 2);
            lemma_concat_cons((s.subrange(i, i + 2), KindView::Escaped), lex(s, i + 2));
            assert(s.subrange(i, i + 2) + s.subrange(i + 2, s.len() as int) == s.subrange(i, s.len() as int));
        } else if s[i] == '*' || s[i] == '?' {
            lemma_lex_concat(s, i + 1);
            let t = lex(s, i)[0];
            lemma_concat_cons(t, lex(s, i + 1));
            assert(lex(s, i) == seq![t] + lex(s, i + 1));
            assert(s.subrange(i, i + 1) + s.subrange(i + 1, s.len() as int) == s.subrange(i, s.len() as int));
        } else if s[i] == '[' && i < class_close(s, i) < s.len() {
            let e = class_close(s, i);
            lemma_lex_concat(s, e + 1);
            let t = lex(s, i)[0];
            lemma_concat_cons(t, lex(s, e + 1));
            assert(lex(s, i) == seq![t] + lex(s, e + 1));
            assert(s.subrange(i, e + 1) + s.subrange(e + 1, s.len() as int) == s.subrange(i, s.len() as int));
        } else if s[i] == '{' && i < alt_close(s, i) < s.len() {
            let e = alt_close(s, i);
            lemma_lex_concat(s, e + 1);
            let t = lex(s, i)[0];
            lemma_concat_cons(t, lex(s, e + 1));
            assert(lex(s, i) == seq![t] + lex(s, e + 1));
            assert(s.subrange(i, e + 1) + s.subrange(e + 1, s.len() as int) == s.subrange(i, s.len() as int));
        } else {
            lemma_lex_concat(s, i + 1);
            assert(seq![s[i]] + s.subrange(i + 1, s.len() as int) == s.subrange(i, s.len() as int));
            let ts = lex(s, i + 1);
            if ts.len() > 0 && ts[0].1 is Literal {
                lemma_concat_cons(ts[0], ts.drop_first());
                assert(ts == seq![ts[0]] + ts.drop_first());
                lemma_concat_cons((seq![s[i]] + ts[0].0, KindView::Literal), ts.drop_first());
            } else {
                lemma_concat_cons((seq![s[i]], KindView::Literal), ts);
            }
        }
    } else {
        assert(s.subrange(i, s.len() as int) == Seq::<char>::empty());
    }
}

/// The tokens of a pattern, laid end to end, give back the pattern: every
/// character belongs to exactly one token, in order.
pub proof fn law_tokens_partition_pattern(pattern: Seq<char>)
    ensures
        concat_texts(lex(pattern, 0)) == pattern,
{
    lemma_lex_concat(pattern, 0);
    assert(pattern.subrange(0, pattern.len() as int) == pattern);
}


// ---------------------------------------------------------------------------
// Prose descriptions
// ---------------------------------------------------------------------------

/// `items` joined with `sep` between consecutive items.
pub open spec fn join_with(items: Seq<Seq<char>>, sep: Seq<char>) -> Seq<char>
    decreases items.len(),
{
    if items.len() == 0 {
        Seq::empty()
    } else if items.len() == 1 {
        items[0]
    } else {
        join_with(items.drop_last(), sep) + sep + items.last()
    }
}

/// `x` between curly double quotes.
pub open spec fn quoted(x: Seq<char>) -> Seq<char> {
    "\u{201c}"@ + x + "\u{201d}"@
}

/// Items joined with commas and a trailing "or": `a`, `a or b`, `a, b, or c`.
pub open spec fn join_or_spec(items: Seq<Seq<char>>) -> Seq<char> {
    if items.len() == 0 {
        Seq::empty()
    } else if items.len() == 1 {
        items[0]
    } else if items.len() == 2 {
        items[0] + " or "@ + items[1]
    } else {
        join_with(items.drop_last(), ", "@) + ", or "@ + items.last()
    }
}

/// The prose for one token.
pub open spec fn phrase_spec(t: (Seq<char>, KindView)) -> Seq<char> {
    match t.1 {
        KindView::Literal => quoted(t.0),
        KindView::Star => "any text"@,
        KindView::Any => "any single character"@,
        KindView::Escaped => "a literal "@ + quoted(seq![if t.0.len() > 1 { t.0[1] } else { '?' }]),
        KindView::Class(negated, body) => "one character "@ + (if negated {
            "not "@
        } else {
            Seq::empty()
        }) + "in the set ["@ + body + "]"@,
        KindView::Alt(parts) => "either "@ + join_or_spec(parts.map_values(|p: Seq<char>| quoted(p))),
    }
}

/// The plain-English description of a pattern whose tokens are `ts`.
pub open spec fn describe_spec(ts: Seq<(Seq<char>, KindView)>) -> Seq<char> {
    if ts.len() == 0 {
        "matches an empty URL"@
    } else if ts.len() == 1 && ts[0].1 is Literal {
        "matches only the exact URL "@ + quoted(ts[0].0)
    } else {
        "matches any URL made of: "@ + join_with(ts.map_values(|t: (Seq<char>, KindView)| phrase_spec(t)), ", then "@)
    }
}

/// Appends `“x”` to `out`.
fn push_quoted(out: &mut Vec<char>, x: &[char])
    ensures
        final(out)@ == old(out)@ + quoted(x@),
{
    push_str(out, "\u{201c}");
    push_all(out, x);
    push_str(out, "\u{201d}");
    assert(old(out)@ + "\u{201c}"@ + x@ + "\u{201d}"@ == old(out)@ + quoted(x@));
}

/// Appends `items` joined by `sep` to `out`.
fn push_joined(out: &mut Vec<char>, items: &Vec<Vec<char>>, count: usize, sep: &str)
    requires
        count <= items@.len(),
    ensures
        final(out)@ == old(out)@ + join_with(
            items@.take(count as int).map_values(|x: Vec<char>| x@),
            sep@,
        ),
{
    let ghost all = items@.map_values(|x: Vec<char>| x@);
    let mut k: usize = 0;
    assert(items@.take(0).map_values(|x: Vec<char>| x@) == Seq::<Seq<char>>::empty());
    assert(old(out)@ + Seq::<char>::empty() == old(out)@);
    while k < count
        invariant
            count <= items@.len(),
            k <= count,
            all == items@.map_values(|x: Vec<char>| x@),
            out@ == old(out)@ + join_with(all.take(k as int), sep@),
        decreases count - k,
    {
        let ghost before = out@;
        if k > 0 {
            push_str(out, sep);
        }
        push_all(out, items[k].as_slice());
        proof {
            let t = all.take(k + 1);
            assert(t.drop_last() == all.take(k as int));
            assert(t.last() == items@[k as int]@);
            if k == 0 {
                assert(join_with(t, sep@) == items@[k as int]@);
                assert(before == old(out)@ + Seq::<char>::empty());
            }
        }
        k += 1;
    }
    assert(items@.take(count as int).map_values(|x: Vec<char>| x@) == all.take(count as int));
}

/// Join items with commas and a trailing "or": `a`, `a or b`, `a, b, or c`.
fn join_or(items: &Vec<Vec<char>>) -> (r: Vec<char>)
    ensures
        r@ == join_or_spec(items@.map_values(|x: Vec<char>| x@)),
{
    let ghost v = items@.map_values(|x: Vec<char>| x@);
    let n = items.len();
    let mut out: Vec<char> = Vec::new();
    if n == 0 {
    } else if n == 1 {
        push_all(&mut out, items[0].as_slice());
        assert(out@ == v[0]);
    } else if n == 2 {
        push_all(&mut out, items[0].as_slice());
        push_str(&mut out, " or ");
        push_all(&mut out, items[1].as_slice());
        assert(out@ == v[0] + " or "@ + v[1]);
    } else {
        push_joined(&mut out, items, n - 1, ", ");
        push_str(&mut out, ", or ");
        push_all(&mut out, items[n - 1].as_slice());
        assert(items@.take(n - 1).map_values(|x: Vec<char>| x@) == v.drop_last());
        assert(out@ == Seq::<char>::empty() + join_with(v.drop_last(), ", "@) + ", or "@ + v.last());
    }
    out
}

/// Describe a single token in prose.
fn phrase(tok: &Token) -> (r: Vec<char>)
    ensures
        r@ == phrase_spec(tok@),
{
    let mut out: Vec<char> = Vec::new();
    match &tok.kind {
        Kind::Literal => {
            let text = to_chars(tok.text.as_str());
            push_quoted(&mut out, text.as_slice());
        },
        Kind::Star => {
            push_str(&mut out, "any text");
        },
        Kind::Any => {
            push_str(&mut out, "any single character");
        },
        Kind::Escaped => {
            let text = to_chars(tok.text.as_str());
            let ch = if text.len() > 1 { text[1] } else { '?' };
            let one = vec![ch];
            push_str(&mut out, "a literal ");
            push_quoted(&mut out, one.as_slice());
            assert(one@ == seq![ch]);
        },
        Kind::Class { negated, body } => {
            push_str(&mut out, "one character ");
            let ghost a = out@;
            if *negated {
                push_str(&mut out, "not ");
            }
            assert(out@ == a + (if *negated { "not "@ } else { Seq::<char>::empty() }));
            push_str(&mut out, "in the set [");
            push_str(&mut out, body.as_str());
            push_str(&mut out, "]");
        },
        Kind::Alt { parts } => {
            let mut quoted_parts: Vec<Vec<char>> = Vec::new();
            let mut k: usize = 0;
            while k < parts.len()
                invariant
                    k <= parts@.len(),
                    quoted_parts@.map_values(|x: Vec<char>| x@) == strs_of(parts@).take(
                        k as int,
                    ).map_values(|p: Seq<char>| quoted(p)),
                decreases parts@.len() - k,
            {
                let mut q: Vec<char> = Vec::new();
                let text = to_chars(parts[k].as_str());
                push_quoted(&mut q, text.as_slice());
                let ghost before = quoted_parts@;
                quoted_parts.push(q);
                assert(quoted_parts@.map_values(|x: Vec<char>| x@) == before.map_values(
                    |x: Vec<char>| x@,
                ).push(q@));
                assert(strs_of(parts@).take(k + 1).map_values(|p: Seq<char>| quoted(p))
                    == strs_of(parts@).take(k as int).map_values(|p: Seq<char>| quoted(p)).push(
                    quoted(parts@[k as int]@),
                ));
                k += 1;
            }
            assert(strs_of(parts@).take(parts@.len() as int) == strs_of(parts@));
            let joined = join_or(&quoted_parts);
            push_str(&mut out, "either ");
            push_all(&mut out, joined.as_slice());
        },
    }
    out
}

/// A plain-English description of what `pattern` matches. Framed around the
/// whole-URL anchoring so the effect of a missing leading/trailing `*` is clear.
pub fn describe(pattern: &str) -> (r: String)
    ensures
        r@ == describe_spec(lex(pattern@, 0)),
{
    let tokens = tokenize(pattern);
    let ghost tv = tokens_of(tokens@);
    let mut out: Vec<char> = Vec::new();
    if tokens.len() == 0 {
        push_str(&mut out, "matches an empty URL");
    } else if tokens.len() == 1 && matches!(tokens[0].kind, Kind::Literal) {
        assert(tv[0] == tokens@[0]@);
        push_str(&mut out, "matches only the exact URL ");
        let text = to_chars(tokens[0].text.as_str());
        push_quoted(&mut out, text.as_slice());
    } else {
        assert(tokens.len() == 1 ==> tv[0] == tokens@[0]@);
        let mut parts: Vec<Vec<char>> = Vec::new();
        let mut k: usize = 0;
        while k < tokens.len()
            invariant
                k <= tokens@.len(),
                tv == tokens_of(tokens@),
                parts@.map_values(|x: Vec<char>| x@) == tv.take(k as int).map_values(
                    |t: (Seq<char>, KindView)| phrase_spec(t),
                ),
            decreases tokens@.len() - k,
        {
            let p = phrase(&tokens[k]);
            let ghost before = parts@;
            parts.push(p);
            assert(parts@.map_values(|x: Vec<char>| x@) == before.map_values(|x: Vec<char>| x@).push(p@));
            assert(tv.take(k + 1).map_values(|t: (Seq<char>, KindView)| phrase_spec(t))
                == tv.take(k as int).map_values(|t: (Seq<char>, KindView)| phrase_spec(t)).push(
                phrase_spec(tv[k as int]),
            ));
            k += 1;
        }
        assert(tv.take(tokens@.len() as int) == tv);
        push_str(&mut out, "matches any URL made of: ");
        push_joined(&mut out, &parts, parts.len(), ", then ");
        assert(parts@.take(parts@.len() as int) == parts@);
    }
    chars_to_string(out.as_slice())
}

/// Whether every literal token of `ts` is non-empty and followed by a token
/// of another kind (or by nothing): literal runs are never split.
pub open spec fn literals_are_maximal(ts: Seq<(Seq<char>, KindView)>) -> bool {
    forall|k: int|
        0 <= k < ts.len() && (#[trigger] ts[k]).1 is Literal ==> ts[k].0.len() > 0 && !(k + 1
            < ts.len() && ts[k + 1].1 is Literal)
}

proof fn lemma_cons_other(t: (Seq<char>, KindView), ts: Seq<(Seq<char>, KindView)>)
    requires
        !(t.1 is Literal),
        literals_are_maximal(ts),
    ensures
        literals_are_maximal(seq![t] + ts),
{
    let all = seq![t] + ts;
    assert forall|k: int| 0 <= k < all.len() && (#[trigger] all[k]).1 is Literal implies all[k].0.len()
        > 0 && !(k + 1 < all.len() && all[k + 1].1 is Literal) by {
        assert(k > 0);
        assert(all[k] == ts[k - 1]);
        if k + 1 < all.len() {
            assert(all[k + 1] == ts[k]);
        }
    }
}

proof fn lemma_prepend_literal(c: char, ts: Seq<(Seq<char>, KindView)>)
    requires
        literals_are_maximal(ts),
    ensures
        literals_are_maximal(prepend_literal(c, ts)),
{
    let all = prepend_literal(c, ts);
    if ts.len() > 0 && ts[0].1 is Literal {
        assert forall|k: int| 0 <= k < all.len() && (#[trigger] all[k]).1 is Literal implies all[k].0.len()
            > 0 && !(k + 1 < all.len() && all[k + 1].1 is Literal) by {
            if k == 0 {
                if 1 < all.len() {
                    assert(all[1] == ts[1]);
                    assert(ts[0].1 is Literal);
                }
            } else {
                assert(all[k] == ts[k]);
                if k + 1 < all.len() {
                    assert(all[k + 1] == ts[k + 1]);
                }
            }
        }
    } else {
        assert forall|k: int| 0 <= k < all.len() && (#[trigger] all[k]).1 is Literal implies all[k].0.len()
            > 0 && !(k + 1 < all.len() && all[k + 1].1 is Literal) by {
            if k == 0 {
                if 1 < all.len() {
                    assert(all[1] == ts[0]);
                }
            } else {
                assert(all[k] == ts[k - 1]);
                if k + 1 < all.len() {
                    assert(all[k + 1] == ts[k]);
                }
            }
        }
    }
}

proof fn lemma_lex_literals(s: Seq<char>, i: int)
    ensures
        literals_are_maximal(lex(s, i)),
    decreases s.len() - i,
{
    if 0 <= i < s.len() {
        if s[i] == '\\' && i + 1 < s.len() {
            lemma_lex_literals(s, i + 2);
            lemma_cons_other((s.subrange(i, i + 2), KindView::Escaped), lex(s, i + 2));
        } else if s[i] == '*' {
            lemma_lex_literals(s, i + 1);
            lemma_cons_other((s.subrange(i, i + 1), KindView::Star), lex(s, i + 1));
        } else if s[i] == '?' {
            lemma_lex_literals(s, i + 1);
            lemma_cons_other((s.subrange(i, i + 1), KindView::Any), lex(s, i + 1));
        } else if s[i] == '[' && i < class_close(s, i) < s.len() {
            let e = class_close(s, i);
            lemma_lex_literals(s, e + 1);
            lemma_cons_other(lex(s, i)[0], lex(s, e + 1));
            assert(lex(s, i) == seq![lex(s, i)[0]] + lex(s, e + 1));
        } else if s[i] == '{' && i < alt_close(s, i) < s.len() {
            let e = alt_close(s, i);
            lemma_lex_literals(s, e + 1);
            lemma_cons_other(lex(s, i)[0], lex(s, e + 1));
            assert(lex(s, i) == seq![lex(s, i)[0]] + lex(s, e + 1));
        } else {
            lemma_lex_literals(s, i + 1);
            lemma_prepend_literal(s[i], lex(s, i + 1));
        }
    }
}

/// Literal text is never split: every literal token is non-empty, and no
/// literal token is directly followed by another.
pub proof fn law_literal_runs_are_whole(pattern: Seq<char>)
    ensures
        literals_are_maximal(lex(pattern, 0)),
{
    lemma_lex_literals(pattern, 0);
}

proof fn lemma_lex_class(mark: char, b: Seq<char>)
    requires
        mark == '!' || mark == '^',
        b.len() > 0,
        forall|k: int| 0 <= k < b.len() ==> b[k] != ']',
    ensures
        lex(seq!['[', mark] + b + seq![']'], 0) == seq![
            (seq!['[', mark] + b + seq![']'], KindView::Class(true, b)),
        ],
{
    let s = seq!['[', mark] + b + seq![']'];
    let e: int = 2int + b.len();
    assert(s[0] == '[');
    assert(class_is_negated(s, 0));
    assert(class_body_start(s, 0) == 2);
    assert(s[2] == b[0]);
    assert forall|k: int| 2 <= k < e implies s[k] != ']' by {
        assert(s[k] == b[k - 2]);
    }
    assert(s[e] == ']');
    crate::text::lemma_find_from(s, 2, ']', e);
    assert(class_close(s, 0) == e);
    assert(s.subrange(0, e + 1) =~= s);
    assert(s.subrange(2, e) =~= b);
    assert(lex(s, e + 1) == Seq::<(Seq<char>, KindView)>::empty());
    assert(lex(s, 0) =~= seq![(s, KindView::Class(true, b))]);
}

/// `^` negates a class just as `!` does: `[^b]` and `[!b]` are each one
/// negated class over the body `b`, so they are explained alike.
pub proof fn law_caret_negates_like_bang(b: Seq<char>)
    requires
        b.len() > 0,
        forall|k: int| 0 <= k < b.len() ==> b[k] != ']',
    ensures
        lex(seq!['[', '^'] + b + seq![']'], 0) == seq![
            (seq!['[', '^'] + b + seq![']'], KindView::Class(true, b)),
        ],
        lex(seq!['[', '!'] + b + seq![']'], 0) == seq![
            (seq!['[', '!'] + b + seq![']'], KindView::Class(true, b)),
        ],
        describe_spec(lex(seq!['[', '^'] + b + seq![']'], 0)) == describe_spec(
            lex(seq!['[', '!'] + b + seq![']'], 0),
        ),
{
    lemma_lex_class('^', b);
    lemma_lex_class('!', b);
    let t1 = seq![(seq!['[', '^'] + b + seq![']'], KindView::Class(true, b))];
    let t2 = seq![(seq!['[', '!'] + b + seq![']'], KindView::Class(true, b))];
    assert(t1.map_values(|t: (Seq<char>, KindView)| phrase_spec(t)) =~= t2.map_values(
        |t: (Seq<char>, KindView)| phrase_spec(t),
    ));
}

} // verus!
