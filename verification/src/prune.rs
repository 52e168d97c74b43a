//! The preamble filter: raw git plumbing headers (`author …`, `tree …`,
//! standalone trailers) may prefix a commit message and are dropped before
//! parsing. A line counts as plumbing only when a known keyword starts it
//! *and* the line carries a hex token or an angle-bracketed address, so a
//! subject that merely begins with the same word is preserved — as are
//! merge-commit subjects, whose `Merge …` prefix is not in the keyword set.

use vstd::prelude::*;

use crate::text::chars_to_string;
use crate::text::has_prefix;
use crate::text::has_prefix_at;
use crate::text::idx_of;
use crate::text::is_blank;
use crate::text::is_blank_chars;
use crate::text::is_space;
use crate::text::join_char;
use crate::text::join_chars;
use crate::text::lemma_idx_of_is;
use crate::text::lower;
use crate::text::lower_chars;
use crate::text::split_char;
use crate::text::split_chars;
use crate::text::str_to_chars;
use crate::text::trim;
use crate::text::trim_chars;

verus! {

// ---------------------------------------------------------------------------
// Character classes and scanning
// ---------------------------------------------------------------------------

pub open spec fn is_hex_digit(c: char) -> bool {
    ('0' <= c && c <= '9') || ('a' <= c && c <= 'f') || ('A' <= c && c <= 'F')
}

pub open spec fn is_hex_token(t: Seq<char>) -> bool {
    t.len() > 0 && forall|i: int| 0 <= i < t.len() ==> is_hex_digit(t[i])
}

/// Separators between a plumbing keyword and its first token.
pub open spec fn is_kw_sep(c: char) -> bool {
    c == ' ' || c == '\t' || c == ':'
}

/// First index whose character is not a keyword separator, or the length.
pub open spec fn idx_non_sep(s: Seq<char>) -> int
    decreases s.len(),
{
    if s.len() == 0 {
        0
    } else if !is_kw_sep(s[0]) {
        0
    } else {
        1 + idx_non_sep(s.subrange(1, s.len() as int))
    }
}

pub proof fn lemma_idx_non_sep_is(s: Seq<char>, k: int)
    requires
        0 <= k <= s.len(),
        k < s.len() ==> !is_kw_sep(s[k]),
        forall|j: int| 0 <= j < k ==> is_kw_sep(s[j]),
        k == s.len() ==> forall|j: int| 0 <= j < s.len() ==> is_kw_sep(s[j]),
    ensures
        idx_non_sep(s) == k,
    decreases s.len(),
{
    if s.len() > 0 && is_kw_sep(s[0]) {
        let t = s.subrange(1, s.len() as int);
        assert(forall|j: int| 0 <= j < t.len() ==> t[j] == s[j + 1]);
        lemma_idx_non_sep_is(t, k - 1);
    }
}

/// First index whose character ends a token (space or tab), or the length.
pub open spec fn idx_token_end(s: Seq<char>) -> int
    decreases s.len(),
{
    if s.len() == 0 {
        0
    } else if s[0] == ' ' || s[0] == '\t' {
        0
    } else {
        1 + idx_token_end(s.subrange(1, s.len() as int))
    }
}

pub proof fn lemma_idx_token_end_is(s: Seq<char>, k: int)
    requires
        0 <= k <= s.len(),
        k < s.len() ==> (s[k] == ' ' || s[k] == '\t'),
        forall|j: int| 0 <= j < k ==> !(s[j] == ' ' || s[j] == '\t'),
        k == s.len() ==> forall|j: int| 0 <= j < s.len() ==> !(s[j] == ' ' || s[j] == '\t'),
    ensures
        idx_token_end(s) == k,
    decreases s.len(),
{
    if s.len() > 0 && !(s[0] == ' ' || s[0] == '\t') {
        let t = s.subrange(1, s.len() as int);
        assert(forall|j: int| 0 <= j < t.len() ==> t[j] == s[j + 1]);
        lemma_idx_token_end_is(t, k - 1);
    }
}

/// An angle-bracketed address: a `<`, an `@` after it, a `>` after that.
pub open spec fn has_address(l: Seq<char>) -> bool {
    let i = idx_of(l, '<');
    i < l.len() && {
        let r1 = l.subrange(i + 1, l.len() as int);
        let j = idx_of(r1, '@');
        j < r1.len() && {
            let r2 = r1.subrange(j + 1, r1.len() as int);
            idx_of(r2, '>') < r2.len()
        }
    }
}

/// The keyword starts the line and is followed by a separator or the end.
pub open spec fn keyword_match(l: Seq<char>, kw: Seq<char>) -> bool {
    has_prefix(l, kw) && (l.len() == kw.len() || is_kw_sep(l[kw.len() as int]))
}

/// The first token after the keyword and its separators.
pub open spec fn token_after(l: Seq<char>, kwlen: int) -> Seq<char> {
    let after = l.subrange(kwlen, l.len() as int);
    let rest = after.subrange(idx_non_sep(after), after.len() as int);
    rest.subrange(0, idx_token_end(rest))
}

/// One keyword's plumbing test on an already lower-cased line.
pub open spec fn plumbing_kw(l: Seq<char>, kw: Seq<char>) -> bool {
    keyword_match(l, kw) && (has_address(l) || is_hex_token(token_after(l, kw.len() as int)))
}

/// Is this (trimmed) line a git plumbing line? The keyword set covers raw
/// commit headers and standalone trailers.
pub open spec fn is_plumbing_line(line: Seq<char>) -> bool {
    let l = lower(line);
    ||| plumbing_kw(l, "author"@)
    ||| plumbing_kw(l, "committer"@)
    ||| plumbing_kw(l, "tree"@)
    ||| plumbing_kw(l, "parent"@)
    ||| plumbing_kw(l, "date"@)
    ||| plumbing_kw(l, "commit"@)
    ||| plumbing_kw(l, "co-authored-by"@)
    ||| plumbing_kw(l, "change-id"@)
    ||| plumbing_kw(l, "reviewed-by"@)
}

// ---------------------------------------------------------------------------
// The filter
// ---------------------------------------------------------------------------

/// A line that the leading filter drops: blank, or plumbing.
pub open spec fn is_noise(line: Seq<char>) -> bool {
    is_blank(line) || is_plumbing_line(line)
}

pub open spec fn drop_leading_noise(ls: Seq<Seq<char>>) -> Seq<Seq<char>>
    decreases ls.len(),
{
    if ls.len() > 0 && is_noise(ls[0]) {
        drop_leading_noise(ls.subrange(1, ls.len() as int))
    } else {
        ls
    }
}

pub open spec fn drop_trailing_blank(ls: Seq<Seq<char>>) -> Seq<Seq<char>>
    decreases ls.len(),
{
    if ls.len() > 0 && is_blank(ls.last()) {
        drop_trailing_blank(ls.drop_last())
    } else {
        ls
    }
}

/// The lines of the message after the preamble filter: each line trimmed,
/// leading noise and trailing blank lines dropped.
pub open spec fn pruned_lines(m: Seq<char>) -> Seq<Seq<char>> {
    drop_trailing_blank(
        drop_leading_noise(split_char(m, '\n').map_values(|l: Seq<char>| trim(l))),
    )
}

/// The filtered message itself.
pub open spec fn prune_spec(m: Seq<char>) -> Seq<char> {
    join_char(pruned_lines(m), '\n')
}

pub proof fn lemma_drop_leading_noise_skip(ls: Seq<Seq<char>>, a: int)
    requires
        0 <= a <= ls.len(),
        forall|j: int| 0 <= j < a ==> is_noise(ls[j]),
        a < ls.len() ==> !is_noise(ls[a]),
    ensures
        drop_leading_noise(ls) == ls.subrange(a, ls.len() as int),
    decreases ls.len(),
{
    if ls.len() > 0 && is_noise(ls[0]) {
        let t = ls.subrange(1, ls.len() as int);
        assert(forall|j: int| 0 <= j < t.len() ==> t[j] == ls[j + 1]);
        assert(a != 0);
        lemma_drop_leading_noise_skip(t, a - 1);
        assert(t.subrange(a - 1, t.len() as int) =~= ls.subrange(a, ls.len() as int));
    } else {
        assert(a == 0);
        assert(ls.subrange(0, ls.len() as int) =~= ls);
    }
}

pub proof fn lemma_drop_trailing_blank_take(ls: Seq<Seq<char>>, b: int)
    requires
        0 <= b <= ls.len(),
        forall|j: int| b <= j < ls.len() ==> is_blank(ls[j]),
        b > 0 ==> !is_blank(ls[b - 1]),
    ensures
        drop_trailing_blank(ls) == ls.subrange(0, b),
    decreases ls.len(),
{
    if ls.len() > 0 && is_blank(ls.last()) {
        let t = ls.drop_last();
        assert(t =~= ls.subrange(0, ls.len() - 1));
        assert(b < ls.len());
        lemma_drop_trailing_blank_take(t, b);
        assert(t.subrange(0, b) =~= ls.subrange(0, b));
    } else {
        assert(b == ls.len());
        assert(ls.subrange(0, ls.len() as int) =~= ls);
    }
}

// ---------------------------------------------------------------------------
// Executable filter
// ---------------------------------------------------------------------------

fn has_address_chars(v: &Vec<char>) -> (r: bool)
    ensures
        r == has_address(v@),
{
    let i = crate::text::find_from(v, 0, '<');
    proof {
        lemma_idx_of_is(v@, '<', i as int);
    }
    if i == v.len() {
        return false;
    }
    let j = crate::text::find_from(v, i + 1, '@');
    let ghost r1 = v@.subrange(i + 1, v@.len() as int);
    proof {
        assert(forall|k: int| 0 <= k < r1.len() ==> r1[k] == v@[i + 1 + k]);
        lemma_idx_of_is(r1, '@', j - i - 1);
    }
    if j == v.len() {
        return false;
    }
    let k = crate::text::find_from(v, j + 1, '>');
    let ghost r2 = r1.subrange(j - i, r1.len() as int);
    proof {
        assert(forall|t: int| 0 <= t < r2.len() ==> r2[t] == v@[j + 1 + t]);
        lemma_idx_of_is(r2, '>', k - j - 1);
    }
    k < v.len()
}

/// One keyword's plumbing test; `address` is whether the line carries an
/// angle-bracketed address.
fn kw_plumb(low: &Vec<char>, kw: &str, address: bool) -> (r: bool)
    requires
        address == has_address(low@),
    ensures
        r == plumbing_kw(low@, kw@),
{
    let kwlen = kw.unicode_len();
    proof {
        assert(low@.subrange(0, low@.len() as int) =~= low@);
    }
    if !has_prefix_at(low, 0, kw) {
        return false;
    }
    if low.len() > kwlen {
        let c = low[kwlen];
        if !(c == ' ' || c == '\t' || c == ':') {
            return false;
        }
    }
    if address {
        return true;
    }
    // scan past separators
    let ghost after = low@.subrange(kwlen as int, low@.len() as int);
    let mut s = kwlen;
    while s < low.len() && is_kw_sep_exec(low[s])
        invariant
            kwlen <= s <= low@.len(),
            kwlen == kw@.len(),
            after == low@.subrange(kwlen as int, low@.len() as int),
            forall|j: int| kwlen <= j < s ==> is_kw_sep(low@[j]),
        decreases low@.len() - s,
    {
        s = s + 1;
    }
    proof {
        assert(forall|k: int| 0 <= k < after.len() ==> after[k] == low@[kwlen + k]);
        lemma_idx_non_sep_is(after, s - kwlen as int);
    }
    // scan the token
    let ghost rest = after.subrange(idx_non_sep(after), after.len() as int);
    proof {
        assert(forall|k: int| 0 <= k < rest.len() ==> rest[k] == low@[s + k]);
    }
    let mut e = s;
    let mut all_hex = true;
    while e < low.len() && !(low[e] == ' ' || low[e] == '\t')
        invariant
            s <= e <= low@.len(),
            forall|j: int| s <= j < e ==> !(low@[j] == ' ' || low@[j] == '\t'),
            all_hex == (forall|j: int| s <= j < e ==> is_hex_digit(low@[j])),
        decreases low@.len() - e,
    {
        let c = low[e];
        if !(('0' <= c && c <= '9') || ('a' <= c && c <= 'f') || ('A' <= c && c <= 'F')) {
            all_hex = false;
        }
        e = e + 1;
    }
    proof {
        lemma_idx_token_end_is(rest, e - s as int);
        assert(token_after(low@, kw@.len() as int) =~= low@.subrange(s as int, e as int));
        assert(forall|j: int| s <= j < e ==> low@.subrange(s as int, e as int)[j - s] == low@[j]);
    }
    e > s && all_hex
}

#[inline]
fn is_kw_sep_exec(c: char) -> (r: bool)
    ensures
        r == is_kw_sep(c),
{
    c == ' ' || c == '\t' || c == ':'
}

/// Is this (trimmed) line a git plumbing line?
pub fn is_plumbing_chars(line: &Vec<char>) -> (r: bool)
    ensures
        r == is_plumbing_line(line@),
{
    let low = lower_chars(line);
    let address = has_address_chars(&low);
    kw_plumb(&low, "author", address) || kw_plumb(&low, "committer", address) || kw_plumb(
        &low,
        "tree",
        address,
    ) || kw_plumb(&low, "parent", address) || kw_plumb(&low, "date", address) || kw_plumb(
        &low,
        "commit",
        address,
    ) || kw_plumb(&low, "co-authored-by", address) || kw_plumb(&low, "change-id", address)
        || kw_plumb(&low, "reviewed-by", address)
}

/// The trimmed lines of the message after the preamble filter.
pub fn pruned_lines_exec(v: &Vec<char>) -> (r: Vec<Vec<char>>)
    ensures
        r.deep_view() == pruned_lines(v@),
{
    let raw = split_chars(v, '\n');
    let mut lines: Vec<Vec<char>> = Vec::new();
    let mut i: usize = 0;
    while i < raw.len()
        invariant
            i <= raw@.len(),
            raw.deep_view().len() == raw@.len(),
            lines.deep_view().len() == i,
            forall|j: int|
                0 <= j < i ==> lines.deep_view()[j] == trim(#[trigger] raw.deep_view()[j]),
        decreases raw@.len() - i,
    {
        let t = trim_chars(&raw[i]);
        let ghost before = lines.deep_view();
        proof {
            assert(raw@[i as int]@ == raw.deep_view()[i as int]);
        }
        lines.push(t);
        proof {
            assert(lines.deep_view() =~~= before.push(trim(raw.deep_view()[i as int])));
        }
        i = i + 1;
    }
    let ghost trimmed = split_char(v@, '\n').map_values(|l: Seq<char>| trim(l));
    proof {
        assert(lines.deep_view() =~~= trimmed);
    }
    // drop leading noise
    let mut a: usize = 0;
    loop
        invariant_except_break
            a <= lines@.len(),
            lines.deep_view() == trimmed,
            lines.deep_view().len() == lines@.len(),
            forall|j: int| 0 <= j < a ==> is_noise(#[trigger] trimmed[j]),
        ensures
            a <= lines@.len(),
            lines.deep_view() == trimmed,
            lines.deep_view().len() == lines@.len(),
            forall|j: int| 0 <= j < a ==> is_noise(#[trigger] trimmed[j]),
            a < lines@.len() ==> !is_noise(trimmed[a as int]),
        decreases lines@.len() - a,
    {
        if a >= lines.len() {
            break;
        }
        proof {
            assert(lines@[a as int]@ == trimmed[a as int]);
        }
        let blank = is_blank_chars(&lines[a]);
        if blank {
            a = a + 1;
            continue;
        }
        if is_plumbing_chars(&lines[a]) {
            a = a + 1;
            continue;
        }
        break;
    }
    proof {
        lemma_drop_leading_noise_skip(trimmed, a as int);
    }
    // drop trailing blank lines
    let ghost kept = trimmed.subrange(a as int, trimmed.len() as int);
    let mut b = lines.len();
    loop
        invariant_except_break
            a <= b <= lines@.len(),
            lines.deep_view() == trimmed,
            lines.deep_view().len() == lines@.len(),
            forall|j: int| b <= j < lines@.len() ==> is_blank(#[trigger] trimmed[j]),
        ensures
            a <= b <= lines@.len(),
            lines.deep_view() == trimmed,
            lines.deep_view().len() == lines@.len(),
            forall|j: int| b <= j < lines@.len() ==> is_blank(#[trigger] trimmed[j]),
            b > a ==> !is_blank(trimmed[b - 1]),
        decreases b,
    {
        if b <= a {
            break;
        }
        proof {
            assert(lines@[b - 1]@ == trimmed[b - 1]);
        }
        if !is_blank_chars(&lines[b - 1]) {
            break;
        }
        b = b - 1;
    }
    proof {
        assert(forall|k: int| 0 <= k < kept.len() ==> kept[k] == trimmed[a + k]);
        lemma_drop_trailing_blank_take(kept, b - a as int);
        assert(kept.subrange(0, b - a as int) =~= trimmed.subrange(a as int, b as int));
    }
    // copy out lines[a..b]
    let mut out: Vec<Vec<char>> = Vec::new();
    let mut k = a;
    while k < b
        invariant
            a <= k <= b <= lines@.len(),
            lines.deep_view() == trimmed,
            lines.deep_view().len() == lines@.len(),
            out.deep_view() == trimmed.subrange(a as int, k as int),
        decreases b - k,
    {
        let ghost before = out.deep_view();
        let piece = crate::text::subrange_vec(&lines[k], 0, lines[k].len());
        proof {
            assert(piece@ =~= trimmed[k as int]);
        }
        out.push(piece);
        proof {
            assert(out.deep_view() =~~= before.push(trimmed[k as int]));
            assert(before.push(trimmed[k as int]) =~~= trimmed.subrange(a as int, k + 1 as int));
        }
        k = k + 1;
    }
    out
}

/// Filters a commit message: drops leading plumbing headers and blank
/// lines, trims every line, and drops trailing blank lines.
pub fn prune_message(message: &str) -> (r: String)
    ensures
        r@ == prune_spec(message@),
{
    let chars = str_to_chars(message);
    let lines = pruned_lines_exec(&chars);
    let joined = join_chars(&lines, '\n');
    chars_to_string(&joined)
}

/// The shape every filtered line has: one line (no line break), trimmed.
pub open spec fn line_shaped(x: Seq<char>) -> bool {
    &&& forall|j: int| 0 <= j < x.len() ==> x[j] != '\n'
    &&& (x.len() > 0 ==> !is_space(x[0]) && !is_space(x.last()))
}

proof fn lemma_drop_leading_noise_suffix(ls: Seq<Seq<char>>)
    ensures
        drop_leading_noise(ls).len() <= ls.len(),
        forall|i: int|
            0 <= i < drop_leading_noise(ls).len() ==> #[trigger] drop_leading_noise(ls)[i]
                == ls[i + ls.len() - drop_leading_noise(ls).len()],
    decreases ls.len(),
{
    if ls.len() > 0 && is_noise(ls[0]) {
        let t = ls.subrange(1, ls.len() as int);
        lemma_drop_leading_noise_suffix(t);
        assert forall|i: int|
            0 <= i < drop_leading_noise(ls).len() implies #[trigger] drop_leading_noise(ls)[i]
            == ls[i + ls.len() - drop_leading_noise(ls).len()] by {
            assert(drop_leading_noise(ls)[i] == drop_leading_noise(t)[i]);
            assert(t[i + t.len() - drop_leading_noise(t).len()] == ls[i + ls.len()
                - drop_leading_noise(ls).len()]);
        }
    }
}

proof fn lemma_drop_trailing_blank_prefix(ls: Seq<Seq<char>>)
    ensures
        drop_trailing_blank(ls).len() <= ls.len(),
        forall|i: int|
            0 <= i < drop_trailing_blank(ls).len() ==> #[trigger] drop_trailing_blank(ls)[i]
                == ls[i],
    decreases ls.len(),
{
    if ls.len() > 0 && is_blank(ls.last()) {
        let t = ls.drop_last();
        lemma_drop_trailing_blank_prefix(t);
        assert forall|i: int|
            0 <= i < drop_trailing_blank(ls).len() implies #[trigger] drop_trailing_blank(ls)[i]
            == ls[i] by {
            assert(drop_trailing_blank(ls)[i] == drop_trailing_blank(t)[i]);
            assert(t[i] == ls[i]);
        }
    }
}

proof fn lemma_drop_leading_noise_first(ls: Seq<Seq<char>>)
    ensures
        drop_leading_noise(ls).len() > 0 ==> !is_noise(drop_leading_noise(ls)[0]),
    decreases ls.len(),
{
    if ls.len() > 0 && is_noise(ls[0]) {
        lemma_drop_leading_noise_first(ls.subrange(1, ls.len() as int));
    }
}

/// What the filter guarantees of its output: every line is one trimmed
/// line, and the first (when any is left) is neither blank nor plumbing.
pub proof fn lemma_pruned_lines_props(m: Seq<char>)
    ensures
        pruned_lines(m).len() > 0 ==> !is_noise(pruned_lines(m)[0]),
        forall|i: int| 0 <= i < pruned_lines(m).len() ==> line_shaped(#[trigger] pruned_lines(m)[i]),
{
    let raw = split_char(m, '\n');
    let trimmed = raw.map_values(|l: Seq<char>| trim(l));
    let dl = drop_leading_noise(trimmed);
    let pl = pruned_lines(m);
    crate::text::lemma_split_no_sep(m, '\n');
    assert forall|i: int| 0 <= i < trimmed.len() implies line_shaped(#[trigger] trimmed[i]) by {
        assert(trimmed[i] == trim(raw[i]));
        assert(forall|j: int| 0 <= j < raw[i].len() ==> raw[i][j] != '\n');
        crate::text::lemma_trim_no_char(raw[i], '\n');
        crate::text::lemma_trim_props(raw[i]);
    }
    lemma_drop_leading_noise_suffix(trimmed);
    lemma_drop_trailing_blank_prefix(dl);
    lemma_drop_leading_noise_first(trimmed);
    assert forall|i: int| 0 <= i < pl.len() implies line_shaped(#[trigger] pl[i]) by {
        assert(pl[i] == dl[i]);
        assert(dl[i] == trimmed[i + trimmed.len() - dl.len()]);
    }
    if pl.len() > 0 {
        assert(pl[0] == dl[0]);
    }
}

} // verus!
