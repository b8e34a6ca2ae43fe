//! Generate the `~/.ff-router.toml` body from the wizard's selections.

use vstd::prelude::*;
use crate::installer::discover::{Profile, ProfileView};
use crate::text::{chars_to_string, is_ws, push_all, push_str, split_words, to_chars, words};

verus! {

/// The fixed comment block and table header that open a generated config.
pub const CONFIG_HEADER: &'static str = "# Links that match no rule below open in Firefox's current/default profile.\n# (Add  default = \"<label>\"  above [profiles] to force a specific fallback.)\n\n[profiles]\n";

// ---------------------------------------------------------------------------
// Escaping
// ---------------------------------------------------------------------------

/// `s` escaped for a TOML basic string: `\` becomes `\\` and `"` becomes `\"`.
pub open spec fn esc_spec(s: Seq<char>) -> Seq<char>
    decreases s.len(),
{
    if s.len() == 0 {
        Seq::empty()
    } else {
        let c = s.last();
        esc_spec(s.drop_last()) + if c == '\\' {
            seq!['\\', '\\']
        } else if c == '"' {
            seq!['\\', '"']
        } else {
            seq![c]
        }
    }
}

/// Appends `s` escaped for a TOML basic string to `out`.
fn push_escaped(out: &mut Vec<char>, s: &[char])
    ensures
        final(out)@ == old(out)@ + esc_spec(s@),
{
    let mut i: usize = 0;
    assert(s@.take(0) == Seq::<char>::empty());
    while i < s.len()
        invariant
            i <= s@.len(),
            out@ == old(out)@ + esc_spec(s@.take(i as int)),
        decreases s@.len() - i,
    {
        let c = s[i];
        if c == '\\' {
            out.push('\\');
            out.push('\\');
        } else if c == '"' {
            out.push('\\');
            out.push('"');
        } else {
            out.push(c);
        }
        assert(s@.take(i + 1).drop_last() == s@.take(i as int));
        i += 1;
    }
    assert(s@.take(s@.len() as int) == s@);
}

/// Escape a value for a TOML basic string.
pub fn esc(s: &str) -> (r: String)
    ensures
        r@ == esc_spec(s@),
{
    let cs = to_chars(s);
    let mut out: Vec<char> = Vec::new();
    push_escaped(&mut out, cs.as_slice());
    chars_to_string(out.as_slice())
}

// ---------------------------------------------------------------------------
// Config text
// ---------------------------------------------------------------------------

/// The `[profiles]` line for one profile.
pub open spec fn profile_line(p: ProfileView) -> Seq<char> {
    p.2 + " = \""@ + esc_spec(p.1) + "\"\n"@
}

/// The `[profiles]` lines of all of `ps`, in order.
pub open spec fn profile_lines(ps: Seq<ProfileView>) -> Seq<char>
    decreases ps.len(),
{
    if ps.len() == 0 {
        Seq::empty()
    } else {
        profile_lines(ps.drop_last()) + profile_line(ps.last())
    }
}

/// The quoted, escaped lines of a `globs = [...]` array.
pub open spec fn glob_lines(ws: Seq<Seq<char>>) -> Seq<char>
    decreases ws.len(),
{
    if ws.len() == 0 {
        Seq::empty()
    } else {
        glob_lines(ws.drop_last()) + "    \""@ + esc_spec(ws.last()) + "\",\n"@
    }
}

/// The `[[rule]]` block routing the globs `ws` to `label`.
pub open spec fn rule_block(label: Seq<char>, ws: Seq<Seq<char>>) -> Seq<char> {
    "\n[[rule]]\nprofile = \""@ + label + "\"\nglobs = [\n"@ + glob_lines(ws) + "]\n"@
}

/// The rule blocks for the first `k` profiles: none for `main` and none for a
/// profile whose glob line holds no glob.
pub open spec fn rule_blocks(ps: Seq<ProfileView>, main: int, globs: Seq<Seq<char>>, k: int) -> Seq<char>
    decreases k,
{
    if k <= 0 {
        Seq::empty()
    } else {
        let i = k - 1;
        rule_blocks(ps, main, globs, i) + if i == main || words(globs[i]).len() == 0 {
            Seq::empty()
        } else {
            rule_block(ps[i].2, words(globs[i]))
        }
    }
}

/// The whole generated config text.
pub open spec fn gen_config_spec(ps: Seq<ProfileView>, main: int, globs: Seq<Seq<char>>) -> Seq<char> {
    CONFIG_HEADER@ + profile_lines(ps) + rule_blocks(ps, main, globs, ps.len() as int)
}

/// The views of a sequence of profiles.
pub open spec fn profiles_view(ps: Seq<Profile>) -> Seq<ProfileView> {
    ps.map_values(|p: Profile| p@)
}

/// The character sequences held by a sequence of strings.
pub open spec fn lines_view(v: Seq<String>) -> Seq<Seq<char>> {
    v.map_values(|x: String| x@)
}

/// Build the config text. `globs[i]` is the raw whitespace-separated glob line
/// entered for `profiles[i]`; `main_idx`'s profile is the everyday one and
/// gets no rule of its own. No fallback `default` key is written — links that
/// match no rule fall through to whatever profile Firefox opens on its own.
pub fn gen_config(profiles: &[Profile], main_idx: usize, globs: &[String]) -> (r: String)
    requires
        globs@.len() >= profiles@.len() || (main_idx + 1 == profiles@.len() && globs@.len()
            >= main_idx),
    ensures
        r@ == gen_config_spec(profiles_view(profiles@), main_idx as int, lines_view(globs@)),
{
    let ghost ps = profiles_view(profiles@);
    let ghost gs = lines_view(globs@);
    let mut out: Vec<char> = Vec::new();
    push_str(&mut out, CONFIG_HEADER);
    let mut i: usize = 0;
    assert(ps.take(0) == Seq::<ProfileView>::empty());
    while i < profiles.len()
        invariant
            ps == profiles_view(profiles@),
            i <= profiles@.len(),
            out@ == CONFIG_HEADER@ + profile_lines(ps.take(i as int)),
        decreases profiles@.len() - i,
    {
        let p = &profiles[i];
        let label = to_chars(p.label.as_str());
        let dir = to_chars(p.dir.as_str());
        push_all(&mut out, label.as_slice());
        push_str(&mut out, " = \"");
        push_escaped(&mut out, dir.as_slice());
        push_str(&mut out, "\"\n");
        assert(ps.take(i + 1).drop_last() == ps.take(i as int));
        assert(ps.take(i + 1).last() == p@);
        i += 1;
    }
    assert(ps.take(profiles@.len() as int) == ps);
    let ghost head = out@;
    let mut k: usize = 0;
    while k < profiles.len()
        invariant
            ps == profiles_view(profiles@),
            gs == lines_view(globs@),
            globs@.len() >= profiles@.len() || (main_idx + 1 == profiles@.len() && globs@.len()
                >= main_idx),
            k <= profiles@.len(),
            out@ == head + rule_blocks(ps, main_idx as int, gs, k as int),
        decreases profiles@.len() - k,
    {
        if k != main_idx {
            let line = to_chars(globs[k].as_str());
            let patterns = split_words(line.as_slice());
            assert(gs[k as int] == globs@[k as int]@);
            if patterns.len() > 0 {
                let label = to_chars(profiles[k].label.as_str());
                push_str(&mut out, "\n[[rule]]\nprofile = \"");
                push_all(&mut out, label.as_slice());
                push_str(&mut out, "\"\nglobs = [\n");
                let ghost ws = patterns@.map_values(|x: Vec<char>| x@);
                let ghost before_globs = out@;
                let mut j: usize = 0;
                assert(ws.take(0) == Seq::<Seq<char>>::empty());
                while j < patterns.len()
                    invariant
                        ws == patterns@.map_values(|x: Vec<char>| x@),
                        j <= patterns@.len(),
                        out@ == before_globs + glob_lines(ws.take(j as int)),
                    decreases patterns@.len() - j,
                {
                    push_str(&mut out, "    \"");
                    push_escaped(&mut out, patterns[j].as_slice());
                    push_str(&mut out, "\",\n");
                    assert(ws.take(j + 1).drop_last() == ws.take(j as int));
                    assert(ws.take(j + 1).last() == patterns@[j as int]@);
                    j += 1;
                }
                assert(ws.take(patterns@.len() as int) == ws);
                push_str(&mut out, "]\n");
                assert(ps[k as int].2 == label@);
            }
        }
        k += 1;
    }
    chars_to_string(out.as_slice())
}

// ---------------------------------------------------------------------------
// Warnings
// ---------------------------------------------------------------------------

/// Whether the glob `g` starts with `*`.
pub open spec fn leads_with_star(g: Seq<char>) -> bool {
    g.len() > 0 && g[0] == '*'
}

/// Whether the glob `g` ends with `*`.
pub open spec fn trails_with_star(g: Seq<char>) -> bool {
    g.len() > 0 && g.last() == '*'
}

/// The warning for a glob not wrapped in `*` on both sides.
pub open spec fn warning_for(g: Seq<char>) -> Seq<char> {
    let missing = if !leads_with_star(g) && !trails_with_star(g) {
        "a leading and trailing"@
    } else if !leads_with_star(g) {
        "a leading"@
    } else {
        "a trailing"@
    };
    "glob \""@ + g + "\" is missing "@ + missing + " '*'; it is anchored and may not match as expected"@
}

/// The warnings for the globs `ws`, in order.
pub open spec fn word_warnings(ws: Seq<Seq<char>>) -> Seq<Seq<char>>
    decreases ws.len(),
{
    if ws.len() == 0 {
        Seq::empty()
    } else {
        let g = ws.last();
        word_warnings(ws.drop_last()) + if leads_with_star(g) && trails_with_star(g) {
            Seq::empty()
        } else {
            seq![warning_for(g)]
        }
    }
}

/// The warnings for every glob of every line of `lines`, in order.
pub open spec fn all_warnings(lines: Seq<Seq<char>>) -> Seq<Seq<char>>
    decreases lines.len(),
{
    if lines.len() == 0 {
        Seq::empty()
    } else {
        all_warnings(lines.drop_last()) + word_warnings(words(lines.last()))
    }
}

/// Warn about globs that are not wrapped in `*` on both sides. Since matching
/// is anchored, such a glob only matches URLs that start/end exactly there,
/// which is usually not intended (e.g. `github.com/x` never matches
/// `https://github.com/x`). Returns one message per suspect glob.
pub fn glob_warnings(globs: &[String]) -> (r: Vec<String>)
    ensures
        lines_view(r@) == all_warnings(lines_view(globs@)),
{
    let ghost ls = lines_view(globs@);
    let mut warnings: Vec<String> = Vec::new();
    let mut li: usize = 0;
    assert(ls.take(0) == Seq::<Seq<char>>::empty());
    while li < globs.len()
        invariant
            ls == lines_view(globs@),
            li <= globs@.len(),
            lines_view(warnings@) == all_warnings(ls.take(li as int)),
        decreases globs@.len() - li,
    {
        let line = to_chars(globs[li].as_str());
        let ws = split_words(line.as_slice());
        let ghost wv = ws@.map_values(|x: Vec<char>| x@);
        let ghost base = lines_view(warnings@);
        let mut j: usize = 0;
        assert(wv.take(0) == Seq::<Seq<char>>::empty());
        assert(base + Seq::<Seq<char>>::empty() == base);
        while j < ws.len()
            invariant
                wv == ws@.map_values(|x: Vec<char>| x@),
                j <= ws@.len(),
                lines_view(warnings@) == base + word_warnings(wv.take(j as int)),
            decreases ws@.len() - j,
        {
            let g = &ws[j];
            let lead = g.len() > 0 && g[0] == '*';
            let trail = g.len() > 0 && g[g.len() - 1] == '*';
            assert(wv.take(j + 1).drop_last() == wv.take(j as int));
            assert(wv.take(j + 1).last() == g@);
            if !(lead && trail) {
                let mut msg: Vec<char> = Vec::new();
                push_str(&mut msg, "glob \"");
                push_all(&mut msg, g.as_slice());
                push_str(&mut msg, "\" is missing ");
                if !lead && !trail {
                    push_str(&mut msg, "a leading and trailing");
                } else if !lead {
                    push_str(&mut msg, "a leading");
                } else {
                    push_str(&mut msg, "a trailing");
                }
                push_str(&mut msg, " '*'; it is anchored and may not match as expected");
                let text = chars_to_string(msg.as_slice());
                let ghost before = warnings@;
                warnings.push(text);
                assert(lines_view(warnings@) == lines_view(before).push(warning_for(g@)));
            }
            j += 1;
        }
        assert(wv.take(ws@.len() as int) == wv);
        assert(ls.take(li + 1).drop_last() == ls.take(li as int));
        assert(ls.take(li + 1).last() == line@);
        li += 1;
    }
    assert(ls.take(globs@.len() as int) == ls);
    warnings
}

// ---------------------------------------------------------------------------
// Labels
// ---------------------------------------------------------------------------

/// Whether `c` is an ASCII letter or digit.
pub open spec fn is_alnum(c: char) -> bool {
    ('a' <= c && c <= 'z') || ('A' <= c && c <= 'Z') || ('0' <= c && c <= '9')
}

/// `c` with an ASCII upper-case letter turned lower-case.
pub open spec fn lower(c: char) -> char {
    if 'A' <= c && c <= 'Z' {
        ((c as int) + 32) as char
    } else {
        c
    }
}

/// The slug of `s` before trailing dashes are trimmed: alphanumerics
/// lower-cased, each run of other characters after some output collapsed to
/// one `-`.
pub open spec fn slug_raw(s: Seq<char>) -> Seq<char>
    decreases s.len(),
{
    if s.len() == 0 {
        Seq::empty()
    } else {
        let acc = slug_raw(s.drop_last());
        let c = s.last();
        if is_alnum(c) {
            acc.push(lower(c))
        } else if acc.len() > 0 && acc.last() != '-' {
            acc.push('-')
        } else {
            acc
        }
    }
}

/// `s` without its trailing dashes.
pub open spec fn trim_dashes(s: Seq<char>) -> Seq<char>
    decreases s.len(),
{
    if s.len() > 0 && s.last() == '-' {
        trim_dashes(s.drop_last())
    } else {
        s
    }
}

/// The slug of a profile name.
pub open spec fn slug_spec(s: Seq<char>) -> Seq<char> {
    trim_dashes(slug_raw(s))
}

fn to_lower(c: char) -> (r: char)
    ensures
        r == lower(c),
{
    if 'A' <= c && c <= 'Z' {
        ((c as u8) + 32) as char
    } else {
        c
    }
}

/// Turn a profile name into a TOML-safe bare-key label: lowercase, with runs of
/// non-alphanumerics collapsed to single `-`, trimmed.
pub fn slug(name: &str) -> (r: String)
    ensures
        r@ == slug_spec(name@),
{
    let cs = to_chars(name);
    let mut out: Vec<char> = Vec::new();
    let mut i: usize = 0;
    assert(cs@.take(0) == Seq::<char>::empty());
    while i < cs.len()
        invariant
            i <= cs@.len(),
            out@ == slug_raw(cs@.take(i as int)),
        decreases cs@.len() - i,
    {
        let c = cs[i];
        assert(cs@.take(i + 1).drop_last() == cs@.take(i as int));
        assert(cs@.take(i + 1).last() == c);
        if ('a' <= c && c <= 'z') || ('A' <= c && c <= 'Z') || ('0' <= c && c <= '9') {
            out.push(to_lower(c));
        } else if out.len() > 0 && out[out.len() - 1] != '-' {
            out.push('-');
        }
        i += 1;
    }
    assert(cs@.take(cs@.len() as int) == name@);
    while out.len() > 0 && out[out.len() - 1] == '-'
        invariant
            trim_dashes(out@) == slug_spec(name@),
        decreases out@.len(),
    {
        let ghost before = out@;
        out.pop();
        assert(out@ == before.drop_last());
    }
    chars_to_string(out.as_slice())
}

// ---------------------------------------------------------------------------
// Laws
// ---------------------------------------------------------------------------

/// Whether `s` is a well-formed slug: only lower-case ASCII letters, digits
/// and single dashes, with no dash at either end.
pub open spec fn is_slug(s: Seq<char>) -> bool {
    &&& forall|k: int| 0 <= k < s.len() ==> ('a' <= #[trigger] s[k] && s[k] <= 'z') || ('0' <= s[k]
        && s[k] <= '9') || s[k] == '-'
    &&& (s.len() > 0 ==> s[0] != '-' && s.last() != '-')
    &&& forall|k: int| 0 <= k < s.len() - 1 ==> !(#[trigger] s[k] == '-' && s[k + 1] == '-')
}

proof fn lemma_slug_raw_shape(s: Seq<char>)
    ensures
        forall|k: int| 0 <= k < slug_raw(s).len() ==> ('a' <= #[trigger] slug_raw(s)[k] && slug_raw(
            s,
        )[k] <= 'z') || ('0' <= slug_raw(s)[k] && slug_raw(s)[k] <= '9') || slug_raw(s)[k] == '-',
        slug_raw(s).len() > 0 ==> slug_raw(s)[0] != '-',
        forall|k: int|
            0 <= k < slug_raw(s).len() - 1 ==> !(#[trigger] slug_raw(s)[k] == '-' && slug_raw(s)[k
                + 1] == '-'),
    decreases s.len(),
{
    if s.len() > 0 {
        lemma_slug_raw_shape(s.drop_last());
        let acc = slug_raw(s.drop_last());
        let c = s.last();
        let r = slug_raw(s);
        if is_alnum(c) {
            assert(r == acc.push(lower(c)));
            assert forall|k: int| 0 <= k < r.len() implies ('a' <= #[trigger] r[k] && r[k] <= 'z')
                || ('0' <= r[k] && r[k] <= '9') || r[k] == '-' by {
                if k < acc.len() {
                    assert(r[k] == acc[k]);
                } else {
                    assert(r[k] == lower(c));
                }
            }
            assert forall|k: int| 0 <= k < r.len() - 1 implies !(#[trigger] r[k] == '-' && r[k + 1]
                == '-') by {
                assert(r[k] == acc[k]);
                if k + 1 < acc.len() {
                    assert(r[k + 1] == acc[k + 1]);
                }
            }
        } else if acc.len() > 0 && acc.last() != '-' {
            assert(r == acc.push('-'));
            assert forall|k: int| 0 <= k < r.len() implies ('a' <= #[trigger] r[k] && r[k] <= 'z')
                || ('0' <= r[k] && r[k] <= '9') || r[k] == '-' by {
                if k < acc.len() {
                    assert(r[k] == acc[k]);
                }
            }
            assert forall|k: int| 0 <= k < r.len() - 1 implies !(#[trigger] r[k] == '-' && r[k + 1]
                == '-') by {
                assert(r[k] == acc[k]);
                if k + 1 < acc.len() {
                    assert(r[k + 1] == acc[k + 1]);
                }
            }
        }
    }
}

proof fn lemma_trim_dashes_shape(s: Seq<char>)
    requires
        forall|k: int| 0 <= k < s.len() ==> ('a' <= #[trigger] s[k] && s[k] <= 'z') || ('0' <= s[k]
            && s[k] <= '9') || s[k] == '-',
        s.len() > 0 ==> s[0] != '-',
        forall|k: int| 0 <= k < s.len() - 1 ==> !(#[trigger] s[k] == '-' && s[k + 1] == '-'),
    ensures
        is_slug(trim_dashes(s)),
        trim_dashes(s) == s.take(trim_dashes(s).len() as int),
    decreases s.len(),
{
    if s.len() > 0 && s.last() == '-' {
        let d = s.drop_last();
        assert forall|k: int| 0 <= k < d.len() implies ('a' <= #[trigger] d[k] && d[k] <= 'z') || (
        '0' <= d[k] && d[k] <= '9') || d[k] == '-' by {
            assert(d[k] == s[k]);
        }
        assert forall|k: int| 0 <= k < d.len() - 1 implies !(#[trigger] d[k] == '-' && d[k + 1]
            == '-') by {
            assert(d[k] == s[k]);
            assert(d[k + 1] == s[k + 1]);
        }
        lemma_trim_dashes_shape(d);
        let t = trim_dashes(d);
        assert(t == d.take(t.len() as int));
        assert(d.take(t.len() as int) == s.take(t.len() as int));
    } else {
        assert(s.take(s.len() as int) == s);
    }
}

/// A slug holds only lower-case ASCII letters, digits and single dashes, and
/// never starts or ends with a dash: it is always a valid TOML bare key.
pub proof fn law_slug_is_bare_key(name: Seq<char>)
    ensures
        is_slug(slug_spec(name)),
{
    lemma_slug_raw_shape(name);
    lemma_trim_dashes_shape(slug_raw(name));
}

proof fn lemma_rule_blocks_ignore_main(ps: Seq<ProfileView>, main: int, globs: Seq<Seq<char>>, g: Seq<char>, k: int)
    requires
        0 <= main < globs.len(),
        k <= globs.len(),
    ensures
        rule_blocks(ps, main, globs, k) == rule_blocks(ps, main, globs.update(main, g), k),
    decreases k,
{
    if k > 0 {
        lemma_rule_blocks_ignore_main(ps, main, globs, g, k - 1);
        if k - 1 != main {
            assert(globs.update(main, g)[k - 1] == globs[k - 1]);
        }
    }
}

/// The everyday (default) profile gets no rule of its own: whatever was typed
/// as its globs does not change the generated config.
pub proof fn law_default_profile_globs_are_ignored(ps: Seq<ProfileView>, main: int, globs: Seq<Seq<char>>, g: Seq<char>)
    requires
        0 <= main < globs.len(),
        ps.len() <= globs.len(),
    ensures
        gen_config_spec(ps, main, globs) == gen_config_spec(ps, main, globs.update(main, g)),
{
    lemma_rule_blocks_ignore_main(ps, main, globs, g, ps.len() as int);
}

/// `s` without its dashes.
pub open spec fn without_dashes(s: Seq<char>) -> Seq<char>
    decreases s.len(),
{
    if s.len() == 0 {
        s
    } else if s.last() == '-' {
        without_dashes(s.drop_last())
    } else {
        without_dashes(s.drop_last()).push(s.last())
    }
}

/// The ASCII letters and digits of `s`, lower-cased, in order.
pub open spec fn alnums_lower(s: Seq<char>) -> Seq<char>
    decreases s.len(),
{
    if s.len() == 0 {
        s
    } else if is_alnum(s.last()) {
        alnums_lower(s.drop_last()).push(lower(s.last()))
    } else {
        alnums_lower(s.drop_last())
    }
}

proof fn lemma_slug_raw_letters(s: Seq<char>)
    ensures
        without_dashes(slug_raw(s)) == alnums_lower(s),
    decreases s.len(),
{
    if s.len() > 0 {
        lemma_slug_raw_letters(s.drop_last());
        let acc = slug_raw(s.drop_last());
        let c = s.last();
        if is_alnum(c) {
            assert(acc.push(lower(c)).drop_last() == acc);
        } else if acc.len() > 0 && acc.last() != '-' {
            assert(acc.push('-').drop_last() == acc);
        }
    }
}

proof fn lemma_trim_dashes_letters(s: Seq<char>)
    ensures
        without_dashes(trim_dashes(s)) == without_dashes(s),
    decreases s.len(),
{
    if s.len() > 0 && s.last() == '-' {
        lemma_trim_dashes_letters(s.drop_last());
    }
}

/// Taking the dashes out of a slug leaves exactly the name's ASCII letters
/// and digits, lower-cased, in order: slugging drops and collapses nothing
/// else.
pub proof fn law_slug_keeps_the_letters(name: Seq<char>)
    ensures
        without_dashes(slug_spec(name)) == alnums_lower(name),
{
    lemma_trim_dashes_letters(slug_raw(name));
    lemma_slug_raw_letters(name);
}

proof fn lemma_slug_raw_of_slug(t: Seq<char>)
    requires
        forall|k: int| 0 <= k < t.len() ==> ('a' <= #[trigger] t[k] && t[k] <= 'z') || ('0' <= t[k]
            && t[k] <= '9') || t[k] == '-',
        t.len() > 0 ==> t[0] != '-',
        forall|k: int| 0 <= k < t.len() - 1 ==> !(#[trigger] t[k] == '-' && t[k + 1] == '-'),
    ensures
        slug_raw(t) == t,
    decreases t.len(),
{
    if t.len() > 0 {
        let d = t.drop_last();
        assert forall|k: int| 0 <= k < d.len() implies ('a' <= #[trigger] d[k] && d[k] <= 'z') || (
        '0' <= d[k] && d[k] <= '9') || d[k] == '-' by {
            assert(d[k] == t[k]);
        }
        assert forall|k: int| 0 <= k < d.len() - 1 implies !(#[trigger] d[k] == '-' && d[k + 1]
            == '-') by {
            assert(d[k] == t[k]);
            assert(d[k + 1] == t[k + 1]);
        }
        lemma_slug_raw_of_slug(d);
        let c = t.last();
        if c == '-' {
            assert(t.len() >= 2);
            assert(d.last() == t[t.len() - 2]);
            assert(!(t[t.len() - 2] == '-' && t[t.len() - 1] == '-'));
        }
        assert(d.push(c) == t);
    }
}

/// Slugging a slug changes nothing.
pub proof fn law_slug_is_idempotent(name: Seq<char>)
    ensures
        slug_spec(slug_spec(name)) == slug_spec(name),
{
    law_slug_is_bare_key(name);
    let t = slug_spec(name);
    lemma_slug_raw_of_slug(t);
}

} // verus!
