//! Character-sequence utilities shared by the message parser, the rule
//! parser and the release-note renderer. Executable code works on
//! `Vec<char>`; every function is specified against `Seq<char>`.

use vstd::prelude::*;

verus! {

// ---------------------------------------------------------------------------
// Spec-level character and sequence predicates
// ---------------------------------------------------------------------------

pub open spec fn is_space(c: char) -> bool {
    c == ' ' || c == '\t' || c == '\r'
}

pub open spec fn lower_char(c: char) -> char {
    if 'A' <= c && c <= 'Z' {
        ((c as u8) + 32) as char
    } else {
        c
    }
}

pub open spec fn lower(s: Seq<char>) -> Seq<char> {
    s.map_values(|c: char| lower_char(c))
}

pub open spec fn is_blank(s: Seq<char>) -> bool {
    forall|i: int| 0 <= i < s.len() ==> is_space(s[i])
}

pub open spec fn has_prefix(s: Seq<char>, p: Seq<char>) -> bool {
    p.len() <= s.len() && s.subrange(0, p.len() as int) == p
}

pub open spec fn contains_seq(s: Seq<char>, t: Seq<char>) -> bool {
    exists|i: int|
        0 <= i && i + t.len() <= s.len() && #[trigger] s.subrange(i, i + t.len() as int) == t
}

/// Index of the first occurrence of `c` in `s`, or `s.len()` when absent.
pub open spec fn idx_of(s: Seq<char>, c: char) -> int
    decreases s.len(),
{
    if s.len() == 0 {
        0
    } else if s[0] == c {
        0
    } else {
        1 + idx_of(s.subrange(1, s.len() as int), c)
    }
}

pub proof fn lemma_idx_of(s: Seq<char>, c: char)
    ensures
        0 <= idx_of(s, c) <= s.len(),
        idx_of(s, c) < s.len() ==> s[idx_of(s, c)] == c,
        forall|j: int| 0 <= j < idx_of(s, c) ==> s[j] != c,
    decreases s.len(),
{
    if s.len() > 0 && s[0] != c {
        let t = s.subrange(1, s.len() as int);
        lemma_idx_of(t, c);
        if idx_of(t, c) < t.len() {
            assert(s[1 + idx_of(t, c)] == t[idx_of(t, c)]);
        }
        assert forall|j: int| 0 <= j < idx_of(s, c) implies s[j] != c by {
            if j > 0 {
                assert(t[j - 1] == s[j]);
            }
        }
    }
}

/// A first occurrence fully determines `idx_of`.
pub proof fn lemma_idx_of_is(s: Seq<char>, c: char, k: int)
    requires
        0 <= k <= s.len(),
        k < s.len() ==> s[k] == c,
        forall|j: int| 0 <= j < k ==> s[j] != c,
        k == s.len() ==> forall|j: int| 0 <= j < s.len() ==> s[j] != c,
    ensures
        idx_of(s, c) == k,
    decreases s.len(),
{
    if s.len() > 0 && s[0] != c {
        let t = s.subrange(1, s.len() as int);
        assert(forall|j: int| 0 <= j < t.len() ==> t[j] == s[j + 1]);
        lemma_idx_of_is(t, c, k - 1);
    }
}

/// Split on a separator character; a separator at the end yields a trailing
/// empty part, and a string without the separator is a single part.
pub open spec fn split_char(s: Seq<char>, sep: char) -> Seq<Seq<char>>
    decreases s.len(),
{
    let i = idx_of(s, sep);
    if !(0 <= i && i < s.len()) {
        seq![s]
    } else {
        seq![s.subrange(0, i)] + split_char(s.subrange(i + 1, s.len() as int), sep)
    }
}

pub proof fn lemma_split_char_len(s: Seq<char>, sep: char)
    ensures
        split_char(s, sep).len() >= 1,
    decreases s.len(),
{
    let i = idx_of(s, sep);
    if 0 <= i && i < s.len() {
        lemma_split_char_len(s.subrange(i + 1, s.len() as int), sep);
    }
}

/// Join with a separator character: the inverse of `split_char`.
pub open spec fn join_char(parts: Seq<Seq<char>>, sep: char) -> Seq<char>
    decreases parts.len(),
{
    if parts.len() == 0 {
        Seq::empty()
    } else if parts.len() == 1 {
        parts[0]
    } else {
        parts[0] + seq![sep] + join_char(parts.subrange(1, parts.len() as int), sep)
    }
}

pub proof fn lemma_join_snoc(ps: Seq<Seq<char>>, x: Seq<char>, sep: char)
    ensures
        join_char(ps.push(x), sep) == if ps.len() == 0 {
            x
        } else {
            join_char(ps, sep) + seq![sep] + x
        },
    decreases ps.len(),
{
    let q = ps.push(x);
    if ps.len() == 0 {
        assert(q.len() == 1);
        assert(q[0] == x);
    } else {
        assert(q.len() >= 2);
        assert(q[0] == ps[0]);
        let qt = q.subrange(1, q.len() as int);
        let pt = ps.subrange(1, ps.len() as int);
        assert(qt =~= pt.push(x));
        lemma_join_snoc(pt, x, sep);
        if ps.len() == 1 {
            assert(join_char(ps, sep) == ps[0]);
            assert(join_char(q, sep) == q[0] + seq![sep] + join_char(qt, sep));
            assert(join_char(qt, sep) == x);
        } else {
            assert(join_char(q, sep) == q[0] + seq![sep] + join_char(qt, sep));
            assert(join_char(ps, sep) == ps[0] + seq![sep] + join_char(pt, sep));
            assert(ps[0] + seq![sep] + (join_char(pt, sep) + seq![sep] + x) =~= (ps[0] + seq![sep]
                + join_char(pt, sep)) + seq![sep] + x);
        }
    }
}

pub open spec fn trim_start(s: Seq<char>) -> Seq<char>
    decreases s.len(),
{
    if s.len() > 0 && is_space(s[0]) {
        trim_start(s.subrange(1, s.len() as int))
    } else {
        s
    }
}

pub open spec fn trim_end(s: Seq<char>) -> Seq<char>
    decreases s.len(),
{
    if s.len() > 0 && is_space(s.last()) {
        trim_end(s.drop_last())
    } else {
        s
    }
}

pub open spec fn trim(s: Seq<char>) -> Seq<char> {
    trim_start(trim_end(s))
}

pub proof fn lemma_trim_start_skip(s: Seq<char>, a: int)
    requires
        0 <= a <= s.len(),
        forall|j: int| 0 <= j < a ==> is_space(s[j]),
        a < s.len() ==> !is_space(s[a]),
    ensures
        trim_start(s) == s.subrange(a, s.len() as int),
    decreases s.len(),
{
    if s.len() > 0 && is_space(s[0]) {
        let t = s.subrange(1, s.len() as int);
        assert(forall|j: int| 0 <= j < t.len() ==> t[j] == s[j + 1]);
        assert(a != 0);
        lemma_trim_start_skip(t, a - 1);
        assert(t.subrange(a - 1, t.len() as int) =~= s.subrange(a, s.len() as int));
    } else {
        assert(a == 0);
        assert(s.subrange(0, s.len() as int) =~= s);
    }
}

pub proof fn lemma_trim_end_take(s: Seq<char>, b: int)
    requires
        0 <= b <= s.len(),
        forall|j: int| b <= j < s.len() ==> is_space(s[j]),
        b > 0 ==> !is_space(s[b - 1]),
    ensures
        trim_end(s) == s.subrange(0, b),
    decreases s.len(),
{
    if s.len() > 0 && is_space(s.last()) {
        let t = s.drop_last();
        assert(t =~= s.subrange(0, s.len() - 1));
        assert(b < s.len());
        lemma_trim_end_take(t, b);
        assert(t.subrange(0, b) =~= s.subrange(0, b));
    } else {
        assert(b == s.len());
        assert(s.subrange(0, s.len() as int) =~= s);
    }
}

// ---------------------------------------------------------------------------
// Executable helpers
// ---------------------------------------------------------------------------

/// Decodes a string into its characters.
pub fn str_to_chars(s: &str) -> (v: Vec<char>)
    ensures
        v@ == s@,
{
    let n = s.unicode_len();
    let mut v: Vec<char> = Vec::new();
    let mut i: usize = 0;
    while i < n
        invariant
            n == s@.len(),
            i <= n,
            v@ == s@.subrange(0, i as int),
        decreases n - i,
    {
        v.push(s.get_char(i));
        assert(v@ =~= s@.subrange(0, i + 1 as int));
        i = i + 1;
    }
    assert(v@ =~= s@);
    v
}

/// Relies on `String::from_iter` over `char`: collecting characters yields
/// the string of exactly those characters, in order.
#[verifier::external_body]
pub fn chars_to_string(v: &Vec<char>) -> (s: String)
    ensures
        s@ == v@,
{
    v.iter().collect()
}

/// First index of `c` in `v` at or after `from`, or `v.len()` when absent.
pub fn find_from(v: &Vec<char>, from: usize, c: char) -> (r: usize)
    requires
        from <= v@.len(),
    ensures
        from <= r <= v@.len(),
        r < v@.len() ==> v@[r as int] == c,
        forall|j: int| from <= j < r ==> v@[j] != c,
{
    let mut i = from;
    while i < v.len()
        invariant
            from <= i <= v@.len(),
            forall|j: int| from <= j < i ==> v@[j] != c,
        decreases v@.len() - i,
    {
        if v[i] == c {
            return i;
        }
        i = i + 1;
    }
    i
}

/// Copy of `v[a..b]`.
pub fn subrange_vec(v: &Vec<char>, a: usize, b: usize) -> (r: Vec<char>)
    requires
        a <= b <= v@.len(),
    ensures
        r@ == v@.subrange(a as int, b as int),
{
    let mut r: Vec<char> = Vec::new();
    let mut i = a;
    while i < b
        invariant
            a <= i <= b <= v@.len(),
            r@ == v@.subrange(a as int, i as int),
        decreases b - i,
    {
        r.push(v[i]);
        assert(r@ =~= v@.subrange(a as int, i + 1 as int));
        i = i + 1;
    }
    r
}

pub fn split_chars(v: &Vec<char>, sep: char) -> (parts: Vec<Vec<char>>)
    ensures
        parts.deep_view() == split_char(v@, sep),
        parts@.len() >= 1,
{
    let mut parts: Vec<Vec<char>> = Vec::new();
    let mut start: usize = 0;
    let vlen = v.len();
    proof {
        assert(v@.len() == vlen);
        assert(v@.subrange(0, v@.len() as int) =~= v@);
        assert(parts.deep_view() =~~= Seq::<Seq<char>>::empty());
        assert(parts.deep_view() + split_char(v@, sep) =~~= split_char(v@, sep));
    }
    loop
        invariant_except_break
            start <= v@.len(),
            v@.len() <= usize::MAX,
            split_char(v@, sep) == parts.deep_view() + split_char(
                v@.subrange(start as int, v@.len() as int),
                sep,
            ),
        ensures
            parts.deep_view() == split_char(v@, sep),
            parts@.len() >= 1,
        decreases v@.len() - start,
    {
        let j = find_from(v, start, sep);
        let piece = subrange_vec(v, start, j);
        let ghost suffix = v@.subrange(start as int, v@.len() as int);
        let ghost old_pd = parts.deep_view();
        proof {
            if j < v@.len() {
                lemma_idx_of_is(suffix, sep, j - start);
            } else {
                lemma_idx_of_is(suffix, sep, suffix.len() as int);
            }
        }
        let ghost piece_view = piece@;
        parts.push(piece);
        proof {
            assert(parts.deep_view() =~~= old_pd.push(piece_view));
        }
        if j == v.len() {
            proof {
                assert(idx_of(suffix, sep) == suffix.len());
                assert(split_char(suffix, sep) == seq![suffix]);
                assert(piece_view =~= suffix);
                assert(old_pd.push(piece_view) =~= old_pd + seq![suffix]);
                lemma_split_char_len(v@, sep);
            }
            break;
        }
        proof {
            let i = idx_of(suffix, sep);
            assert(split_char(suffix, sep) == seq![suffix.subrange(0, i)] + split_char(
                suffix.subrange(i + 1, suffix.len() as int),
                sep,
            ));
            assert(piece_view =~= suffix.subrange(0, i));
            assert(suffix.subrange(i + 1, suffix.len() as int) =~= v@.subrange(
                j + 1 as int,
                v@.len() as int,
            ));
            assert(old_pd.push(piece_view) + split_char(
                v@.subrange(j + 1 as int, v@.len() as int),
                sep,
            ) =~= old_pd + split_char(suffix, sep));
        }
        start = j + 1;
    }
    parts
}

pub fn join_chars(parts: &Vec<Vec<char>>, sep: char) -> (r: Vec<char>)
    ensures
        r@ == join_char(parts.deep_view(), sep),
{
    let mut r: Vec<char> = Vec::new();
    let mut i: usize = 0;
    while i < parts.len()
        invariant
            i <= parts@.len(),
            r@ == join_char(parts.deep_view().subrange(0, i as int), sep),
        decreases parts@.len() - i,
    {
        if i > 0 {
            r.push(sep);
        }
        let p = &parts[i];
        push_chars(&mut r, p);
        proof {
            let pd = parts.deep_view();
            let pre = pd.subrange(0, i as int);
            assert(p@ =~= pd[i as int]);
            assert(pre.push(pd[i as int]) =~= pd.subrange(0, i + 1 as int));
            lemma_join_snoc(pre, pd[i as int], sep);
            if i == 0 {
                assert(pre.len() == 0);
                assert(r@ =~= join_char(pd.subrange(0, i + 1 as int), sep));
            } else {
                assert(r@ =~= join_char(pre, sep) + seq![sep] + pd[i as int]);
            }
        }
        i = i + 1;
    }
    proof {
        assert(parts.deep_view().subrange(0, parts.deep_view().len() as int) =~= parts.deep_view());
    }
    r
}

pub fn trim_chars(v: &Vec<char>) -> (r: Vec<char>)
    ensures
        r@ == trim(v@),
{
    let mut b = v.len();
    while b > 0 && is_space_exec(v[b - 1])
        invariant
            b <= v@.len(),
            forall|j: int| b <= j < v@.len() ==> is_space(v@[j]),
        decreases b,
    {
        b = b - 1;
    }
    proof {
        lemma_trim_end_take(v@, b as int);
    }
    let mut a: usize = 0;
    while a < b && is_space_exec(v[a])
        invariant
            a <= b <= v@.len(),
            forall|j: int| 0 <= j < a ==> is_space(v@[j]),
        decreases b - a,
    {
        a = a + 1;
    }
    proof {
        let te = v@.subrange(0, b as int);
        assert(forall|j: int| 0 <= j < te.len() ==> te[j] == v@[j]);
        lemma_trim_start_skip(te, a as int);
        assert(te.subrange(a as int, te.len() as int) =~= v@.subrange(a as int, b as int));
    }
    subrange_vec(v, a, b)
}

#[inline]
pub fn is_space_exec(c: char) -> (r: bool)
    ensures
        r == is_space(c),
{
    c == ' ' || c == '\t' || c == '\r'
}

pub fn is_blank_chars(v: &Vec<char>) -> (r: bool)
    ensures
        r == is_blank(v@),
{
    let mut i: usize = 0;
    while i < v.len()
        invariant
            i <= v@.len(),
            forall|j: int| 0 <= j < i ==> is_space(v@[j]),
        decreases v@.len() - i,
    {
        if !is_space_exec(v[i]) {
            return false;
        }
        i = i + 1;
    }
    true
}

pub fn lower_chars(v: &Vec<char>) -> (r: Vec<char>)
    ensures
        r@ == lower(v@),
{
    let mut r: Vec<char> = Vec::new();
    let mut i: usize = 0;
    while i < v.len()
        invariant
            i <= v@.len(),
            r@.len() == i,
            forall|j: int| 0 <= j < i ==> r@[j] == lower_char(v@[j]),
        decreases v@.len() - i,
    {
        let c = v[i];
        if 'A' <= c && c <= 'Z' {
            r.push(((c as u8) + 32) as char);
        } else {
            r.push(c);
        }
        i = i + 1;
    }
    proof {
        assert(r@ =~= lower(v@));
    }
    r
}

pub fn eq_chars(a: &Vec<char>, b: &Vec<char>) -> (r: bool)
    ensures
        r == (a@ == b@),
{
    if a.len() != b.len() {
        proof {
            assert(a@ != b@);
        }
        return false;
    }
    let mut i: usize = 0;
    while i < a.len()
        invariant
            a@.len() == b@.len(),
            i <= a@.len(),
            forall|j: int| 0 <= j < i ==> a@[j] == b@[j],
        decreases a@.len() - i,
    {
        if a[i] != b[i] {
            return false;
        }
        i = i + 1;
    }
    proof {
        assert(a@ =~= b@);
    }
    true
}

/// Compares the characters of `v` with a string (typically a literal).
pub fn chars_eq_str(v: &Vec<char>, s: &str) -> (r: bool)
    ensures
        r == (v@ == s@),
{
    let n = s.unicode_len();
    if v.len() != n {
        proof {
            assert(v@ != s@);
        }
        return false;
    }
    let mut i: usize = 0;
    while i < n
        invariant
            n == s@.len(),
            v@.len() == n,
            i <= n,
            forall|j: int| 0 <= j < i ==> v@[j] == s@[j],
        decreases n - i,
    {
        if v[i] != s.get_char(i) {
            return false;
        }
        i = i + 1;
    }
    proof {
        assert(v@ =~= s@);
    }
    true
}

/// Does `v` start, at position `from`, with the characters of `s`?
pub fn has_prefix_at(v: &Vec<char>, from: usize, s: &str) -> (r: bool)
    requires
        from <= v@.len(),
    ensures
        r == has_prefix(v@.subrange(from as int, v@.len() as int), s@),
{
    let n = s.unicode_len();
    let ghost suffix = v@.subrange(from as int, v@.len() as int);
    let vlen = v.len();
    if vlen - from < n {
        return false;
    }
    let mut i: usize = 0;
    while i < n
        invariant
            n == s@.len(),
            from + n <= v@.len(),
            v@.len() <= usize::MAX,
            i <= n,
            suffix == v@.subrange(from as int, v@.len() as int),
            forall|j: int| 0 <= j < i ==> v@[from + j] == s@[j],
        decreases n - i,
    {
        if v[from + i] != s.get_char(i) {
            proof {
                assert(suffix[i as int] == v@[from + i]);
                assert(suffix.subrange(0, n as int)[i as int] != s@[i as int]);
            }
            return false;
        }
        i = i + 1;
    }
    proof {
        assert(suffix.subrange(0, n as int) =~= s@);
    }
    true
}

/// Is `t` a contiguous sub-sequence of `v`?
pub fn contains_str(v: &Vec<char>, t: &str) -> (r: bool)
    ensures
        r == contains_seq(v@, t@),
{
    let n = t.unicode_len();
    if n == 0 {
        proof {
            assert(v@.subrange(0, 0 + t@.len() as int) =~= t@);
            assert(0 <= 0 && 0 + t@.len() <= v@.len());
            assert(contains_seq(v@, t@));
        }
        return true;
    }
    if n > v.len() {
        return false;
    }
    let limit = v.len() - n;
    let mut i: usize = 0;
    while i <= limit
        invariant
            n == t@.len(),
            1 <= n <= v@.len(),
            v@.len() <= usize::MAX,
            limit == v@.len() - n,
            i <= limit + 1,
            forall|k: int| 0 <= k < i ==> #[trigger] v@.subrange(k, k + t@.len() as int) != t@,
        decreases limit - i + 1,
    {
        let ghost suffix = v@.subrange(i as int, v@.len() as int);
        if has_prefix_at(v, i, t) {
            proof {
                assert(suffix.subrange(0, n as int) =~= v@.subrange(i as int, i + n as int));
                assert(v@.subrange(i as int, i + t@.len() as int) == t@);
            }
            return true;
        }
        proof {
            assert(suffix.subrange(0, n as int) =~= v@.subrange(i as int, i + n as int));
        }
        i = i + 1;
    }
    proof {
        assert(forall|k: int|
            0 <= k && k + t@.len() <= v@.len() ==> #[trigger] v@.subrange(k, k + t@.len() as int)
                != t@);
    }
    false
}

pub fn push_chars(dst: &mut Vec<char>, src: &Vec<char>)
    ensures
        final(dst)@ == old(dst)@ + src@,
{
    let mut i: usize = 0;
    while i < src.len()
        invariant
            i <= src@.len(),
            dst@ == old(dst)@ + src@.subrange(0, i as int),
        decreases src@.len() - i,
    {
        dst.push(src[i]);
        assert(dst@ =~= old(dst)@ + src@.subrange(0, i + 1 as int));
        i = i + 1;
    }
    assert(dst@ =~= old(dst)@ + src@);
}

/// Appends the characters of a string (typically a literal).
pub fn push_str_chars(dst: &mut Vec<char>, s: &str)
    ensures
        final(dst)@ == old(dst)@ + s@,
{
    let n = s.unicode_len();
    let mut i: usize = 0;
    while i < n
        invariant
            n == s@.len(),
            i <= n,
            dst@ == old(dst)@ + s@.subrange(0, i as int),
        decreases n - i,
    {
        dst.push(s.get_char(i));
        assert(dst@ =~= old(dst)@ + s@.subrange(0, i + 1 as int));
        i = i + 1;
    }
    assert(dst@ =~= old(dst)@ + s@);
}

// ---------------------------------------------------------------------------
// Decimal rendering of numbers
// ---------------------------------------------------------------------------

pub open spec fn digit_char(d: int) -> char {
    (48 + d) as char
}

pub open spec fn dec_chars(n: nat) -> Seq<char>
    decreases n,
{
    if n < 10 {
        seq![digit_char(n as int)]
    } else {
        dec_chars(n / 10).push(digit_char((n % 10) as int))
    }
}

pub fn u64_to_chars(n: u64) -> (r: Vec<char>)
    ensures
        r@ == dec_chars(n as nat),
    decreases n,
{
    if n < 10 {
        let d = ((n as u8) + 48) as char;
        let mut r: Vec<char> = Vec::new();
        r.push(d);
        proof {
            assert(r@ =~= seq![digit_char(n as int)]);
        }
        r
    } else {
        let mut r = u64_to_chars(n / 10);
        let d = (((n % 10) as u8) + 48) as char;
        r.push(d);
        r
    }
}

/// Join with a separator sequence.
pub open spec fn join_seq(parts: Seq<Seq<char>>, sep: Seq<char>) -> Seq<char>
    decreases parts.len(),
{
    if parts.len() == 0 {
        Seq::empty()
    } else if parts.len() == 1 {
        parts[0]
    } else {
        parts[0] + sep + join_seq(parts.subrange(1, parts.len() as int), sep)
    }
}

pub proof fn lemma_join_seq_snoc(ps: Seq<Seq<char>>, x: Seq<char>, sep: Seq<char>)
    ensures
        join_seq(ps.push(x), sep) == if ps.len() == 0 {
            x
        } else {
            join_seq(ps, sep) + sep + x
        },
    decreases ps.len(),
{
    let q = ps.push(x);
    if ps.len() == 0 {
        assert(q.len() == 1);
        assert(q[0] == x);
    } else {
        assert(q.len() >= 2);
        assert(q[0] == ps[0]);
        let qt = q.subrange(1, q.len() as int);
        let pt = ps.subrange(1, ps.len() as int);
        assert(qt =~= pt.push(x));
        lemma_join_seq_snoc(pt, x, sep);
        if ps.len() == 1 {
            assert(join_seq(ps, sep) == ps[0]);
            assert(join_seq(q, sep) == q[0] + sep + join_seq(qt, sep));
            assert(join_seq(qt, sep) == x);
        } else {
            assert(join_seq(q, sep) == q[0] + sep + join_seq(qt, sep));
            assert(join_seq(ps, sep) == ps[0] + sep + join_seq(pt, sep));
            assert(ps[0] + sep + (join_seq(pt, sep) + sep + x) =~= (ps[0] + sep + join_seq(
                pt,
                sep,
            )) + sep + x);
        }
    }
}

/// Joins parts with a separator string.
pub fn join_with_str(parts: &Vec<Vec<char>>, sep: &str) -> (r: Vec<char>)
    ensures
        r@ == join_seq(parts.deep_view(), sep@),
{
    let mut r: Vec<char> = Vec::new();
    let mut i: usize = 0;
    while i < parts.len()
        invariant
            i <= parts@.len(),
            r@ == join_seq(parts.deep_view().subrange(0, i as int), sep@),
        decreases parts@.len() - i,
    {
        if i > 0 {
            push_str_chars(&mut r, sep);
        }
        let p = &parts[i];
        push_chars(&mut r, p);
        proof {
            let pd = parts.deep_view();
            let pre = pd.subrange(0, i as int);
            assert(p@ =~= pd[i as int]);
            assert(pre.push(pd[i as int]) =~= pd.subrange(0, i + 1 as int));
            lemma_join_seq_snoc(pre, pd[i as int], sep@);
            if i == 0 {
                assert(pre.len() == 0);
                assert(r@ =~= join_seq(pd.subrange(0, i + 1 as int), sep@));
            } else {
                assert(r@ =~= join_seq(pre, sep@) + sep@ + pd[i as int]);
            }
        }
        i = i + 1;
    }
    proof {
        assert(parts.deep_view().subrange(0, parts.deep_view().len() as int) =~= parts.deep_view());
    }
    r
}

/// A non-empty trim result neither starts nor ends with a space.
pub proof fn lemma_trim_end_props(x: Seq<char>)
    ensures
        trim_end(x).len() > 0 ==> !is_space(trim_end(x).last()),
    decreases x.len(),
{
    if x.len() > 0 && is_space(x.last()) {
        lemma_trim_end_props(x.drop_last());
    }
}

pub proof fn lemma_trim_start_props(y: Seq<char>)
    ensures
        trim_start(y).len() > 0 ==> !is_space(trim_start(y)[0]),
        trim_start(y).len() > 0 ==> trim_start(y).last() == y.last(),
    decreases y.len(),
{
    if y.len() > 0 && is_space(y[0]) {
        let t = y.subrange(1, y.len() as int);
        lemma_trim_start_props(t);
        if trim_start(y).len() > 0 {
            assert(t.last() == y.last());
        }
    }
}

pub proof fn lemma_trim_props(x: Seq<char>)
    ensures
        trim(x).len() > 0 ==> !is_space(trim(x)[0]),
        trim(x).len() > 0 ==> !is_space(trim(x).last()),
{
    lemma_trim_end_props(x);
    lemma_trim_start_props(trim_end(x));
}

/// Trimming is the identity on text that neither starts nor ends with a
/// space.
pub proof fn lemma_trim_noop(x: Seq<char>)
    requires
        x.len() > 0,
        !is_space(x[0]),
        !is_space(x.last()),
    ensures
        trim(x) == x,
{
    assert(trim_end(x) == x);
    assert(trim_start(x) == x);
}

/// Trimming never introduces a character.
pub proof fn lemma_trim_end_no_char(x: Seq<char>, c: char)
    requires
        forall|j: int| 0 <= j < x.len() ==> x[j] != c,
    ensures
        forall|j: int| 0 <= j < trim_end(x).len() ==> trim_end(x)[j] != c,
    decreases x.len(),
{
    if x.len() > 0 && is_space(x.last()) {
        let t = x.drop_last();
        assert(forall|j: int| 0 <= j < t.len() ==> t[j] == x[j]);
        lemma_trim_end_no_char(t, c);
        assert forall|j: int| 0 <= j < trim_end(x).len() implies trim_end(x)[j] != c by {
            assert(trim_end(x)[j] == trim_end(t)[j]);
        }
    }
}

pub proof fn lemma_trim_no_char(x: Seq<char>, c: char)
    requires
        forall|j: int| 0 <= j < x.len() ==> x[j] != c,
    ensures
        forall|j: int| 0 <= j < trim(x).len() ==> trim(x)[j] != c,
    decreases x.len(),
{
    lemma_trim_end_no_char(x, c);
    let te = trim_end(x);
    lemma_trim_start_no_char(te, c);
}

pub proof fn lemma_trim_start_no_char(y: Seq<char>, c: char)
    requires
        forall|j: int| 0 <= j < y.len() ==> y[j] != c,
    ensures
        forall|j: int| 0 <= j < trim_start(y).len() ==> trim_start(y)[j] != c,
    decreases y.len(),
{
    if y.len() > 0 && is_space(y[0]) {
        let t = y.subrange(1, y.len() as int);
        assert(forall|j: int| 0 <= j < t.len() ==> t[j] == y[j + 1]);
        lemma_trim_start_no_char(t, c);
        assert forall|j: int| 0 <= j < trim_start(y).len() implies trim_start(y)[j] != c by {
            assert(trim_start(y)[j] == trim_start(t)[j]);
        }
    }
}

/// No part of a split contains the separator.
pub proof fn lemma_split_no_sep(s: Seq<char>, sep: char)
    ensures
        forall|k: int, j: int|
            0 <= k < split_char(s, sep).len() && 0 <= j < split_char(s, sep)[k].len()
                ==> #[trigger] split_char(s, sep)[k][j] != sep,
    decreases s.len(),
{
    lemma_idx_of(s, sep);
    let i = idx_of(s, sep);
    let r = split_char(s, sep);
    if !(0 <= i && i < s.len()) {
        assert(r == seq![s]);
        assert(forall|j: int| 0 <= j < s.len() ==> s[j] != sep);
    } else {
        let rest = s.subrange(i + 1, s.len() as int);
        lemma_split_no_sep(rest, sep);
        let rr = split_char(rest, sep);
        assert(r == seq![s.subrange(0, i)] + rr);
        assert forall|k: int, j: int|
            0 <= k < r.len() && 0 <= j < r[k].len() implies #[trigger] r[k][j] != sep by {
            if k == 0 {
                assert(r[0] == s.subrange(0, i));
                assert(s.subrange(0, i)[j] == s[j]);
            } else {
                assert(r[k] == rr[k - 1]);
                assert(rr[k - 1][j] != sep);
            }
        }
    }
}


} // verus!
