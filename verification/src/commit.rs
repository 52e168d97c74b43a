//! The parsed commit record and the conventional-commit parser.
//!
//! A message is first run through the preamble filter (see `prune`), then
//! its header is matched against the commit grammar, and the remaining
//! paragraphs are split into body and footer. The lenient entry point
//! (`new`) falls back to a non-compliant record wherever the header does
//! not fit; the strict one (`parse_strict`) reports the reason instead.

use vstd::prelude::*;

use crate::category::cat_of_token;
use crate::category::cat_token;
use crate::category::token_is_standard;
use crate::category::CommitType;
use crate::category::CommitTypeV;
use crate::errors::ConventionalCommitError;
use crate::prune::pruned_lines;
use crate::prune::pruned_lines_exec;
use crate::text::chars_to_string;
use crate::text::has_prefix;
use crate::text::has_prefix_at;
use crate::text::is_blank;
use crate::text::is_blank_chars;
use crate::text::join_char;
use crate::text::join_chars;
use crate::text::join_seq;
use crate::text::lower;
use crate::text::split_char;
use crate::text::join_with_str;
use crate::text::push_str_chars;
use crate::text::str_to_chars;
use crate::text::subrange_vec;
use crate::text::trim;
use crate::text::trim_chars;

verus! {

#[derive(Debug, PartialEq, Eq, Hash)]
pub struct ConventionalCommit {
    pub commit_type: CommitType,
    pub scope: Option<String>,
    pub subject: String,
    pub footer: Option<String>,
    pub body: Option<String>,
    pub prefix: Option<String>,
    pub breaking_change: bool,
}

/// Ghost image of a parsed commit.
pub struct ConventionalCommitV {
    pub commit_type: CommitTypeV,
    pub scope: Option<Seq<char>>,
    pub subject: Seq<char>,
    pub footer: Option<Seq<char>>,
    pub body: Option<Seq<char>>,
    pub prefix: Option<Seq<char>>,
    pub breaking_change: bool,
}

pub open spec fn opt_string_view(o: &Option<String>) -> Option<Seq<char>> {
    match o {
        Some(s) => Some(s@),
        None => None,
    }
}

impl View for ConventionalCommit {
    type V = ConventionalCommitV;

    open spec fn view(&self) -> ConventionalCommitV {
        ConventionalCommitV {
            commit_type: self.commit_type@,
            scope: opt_string_view(&self.scope),
            subject: self.subject@,
            footer: opt_string_view(&self.footer),
            body: opt_string_view(&self.body),
            prefix: opt_string_view(&self.prefix),
            breaking_change: self.breaking_change,
        }
    }
}

impl DeepView for ConventionalCommit {
    type V = ConventionalCommitV;

    open spec fn deep_view(&self) -> ConventionalCommitV {
        self.view()
    }
}

impl ConventionalCommit {
    /// Does the commit warrant a major bump?
    pub fn is_breaking(&self) -> (r: bool)
        ensures
            r == self@.breaking_change,
    {
        self.breaking_change
    }
}

fn clone_opt_string(o: &Option<String>) -> (r: Option<String>)
    ensures
        opt_string_view(&r) == opt_string_view(o),
{
    match o {
        Some(s) => Some(s.clone()),
        None => None,
    }
}

impl Clone for ConventionalCommit {
    fn clone(&self) -> (r: Self)
        ensures
            r@ == self@,
    {
        ConventionalCommit {
            commit_type: self.commit_type.clone(),
            scope: clone_opt_string(&self.scope),
            subject: self.subject.clone(),
            footer: clone_opt_string(&self.footer),
            body: clone_opt_string(&self.body),
            prefix: clone_opt_string(&self.prefix),
            breaking_change: self.breaking_change,
        }
    }
}

impl Default for ConventionalCommit {
    fn default() -> (r: Self)
        ensures
            r@.commit_type == CommitTypeV::Unknown,
            r@.scope is None,
            r@.subject.len() == 0,
            r@.footer is None,
            r@.body is None,
            r@.prefix is None,
            r@.breaking_change == false,
    {
        ConventionalCommit {
            commit_type: CommitType::Unknown,
            scope: None,
            subject: String::new(),
            footer: None,
            body: None,
            prefix: None,
            breaking_change: false,
        }
    }
}

// ---------------------------------------------------------------------------
// The grammar
// ---------------------------------------------------------------------------

/// Characters allowed in a category or scope token.
pub open spec fn is_cat_char(c: char) -> bool {
    ('a' <= c && c <= 'z') || ('A' <= c && c <= 'Z') || ('0' <= c && c <= '9') || c == '-'
}

/// First index whose character is not `!`, or the length.
pub open spec fn idx_not_bang(s: Seq<char>) -> int
    decreases s.len(),
{
    if s.len() == 0 {
        0
    } else if s[0] != '!' {
        0
    } else {
        1 + idx_not_bang(s.subrange(1, s.len() as int))
    }
}

pub proof fn lemma_idx_not_bang_is(s: Seq<char>, k: int)
    requires
        0 <= k <= s.len(),
        k < s.len() ==> s[k] != '!',
        forall|j: int| 0 <= j < k ==> s[j] == '!',
        k == s.len() ==> forall|j: int| 0 <= j < s.len() ==> s[j] == '!',
    ensures
        idx_not_bang(s) == k,
    decreases s.len(),
{
    if s.len() > 0 && s[0] == '!' {
        let t = s.subrange(1, s.len() as int);
        assert(forall|j: int| 0 <= j < t.len() ==> t[j] == s[j + 1]);
        lemma_idx_not_bang_is(t, k - 1);
    }
}

/// First index whose character is not a token character, or the length.
pub open spec fn idx_non_cat(s: Seq<char>) -> int
    decreases s.len(),
{
    if s.len() == 0 {
        0
    } else if !is_cat_char(s[0]) {
        0
    } else {
        1 + idx_non_cat(s.subrange(1, s.len() as int))
    }
}

pub proof fn lemma_idx_non_cat_is(s: Seq<char>, k: int)
    requires
        0 <= k <= s.len(),
        k < s.len() ==> !is_cat_char(s[k]),
        forall|j: int| 0 <= j < k ==> is_cat_char(s[j]),
        k == s.len() ==> forall|j: int| 0 <= j < s.len() ==> is_cat_char(s[j]),
    ensures
        idx_non_cat(s) == k,
    decreases s.len(),
{
    if s.len() > 0 && is_cat_char(s[0]) {
        let t = s.subrange(1, s.len() as int);
        assert(forall|j: int| 0 <= j < t.len() ==> t[j] == s[j + 1]);
        lemma_idx_non_cat_is(t, k - 1);
    }
}

/// The end of a header once category, scope and breaking markers are read:
/// a colon, a space, and a non-empty subject to the end of the line.
pub open spec fn header_tail(
    l: Seq<char>,
    b1: int,
    tok_end: int,
    scope: Option<Seq<char>>,
    after: int,
) -> Option<(bool, Seq<char>, Option<Seq<char>>, Seq<char>)> {
    let b2 = after + idx_not_bang(l.subrange(after, l.len() as int));
    if b2 + 1 < l.len() && l[b2] == ':' && l[b2 + 1] == ' ' && b2 + 2 < l.len() {
        Some(
            (b1 > 0 || b2 > after, l.subrange(b1, tok_end), scope, l.subrange(b2 + 2, l.len() as int)),
        )
    } else {
        None
    }
}

/// The commit header: optional breaking markers, a category token, an
/// optional parenthesized scope, more optional markers, then `: ` and the
/// subject. Yields (breaking, category token, scope, subject).
pub open spec fn header_spec(l: Seq<char>) -> Option<
    (bool, Seq<char>, Option<Seq<char>>, Seq<char>),
> {
    let b1 = idx_not_bang(l);
    let tok_end = b1 + idx_non_cat(l.subrange(b1, l.len() as int));
    if tok_end <= b1 {
        None
    } else if tok_end < l.len() && l[tok_end] == '(' {
        let sc_start = tok_end + 1;
        let sc_end = sc_start + idx_non_cat(l.subrange(sc_start, l.len() as int));
        if sc_end < l.len() && l[sc_end] == ')' && sc_end > sc_start {
            header_tail(l, b1, tok_end, Some(l.subrange(sc_start, sc_end)), sc_end + 1)
        } else {
            None
        }
    } else {
        header_tail(l, b1, tok_end, None, tok_end)
    }
}

/// First blank line, or the length.
pub open spec fn idx_blank_line(ls: Seq<Seq<char>>) -> int
    decreases ls.len(),
{
    if ls.len() == 0 {
        0
    } else if is_blank(ls[0]) {
        0
    } else {
        1 + idx_blank_line(ls.subrange(1, ls.len() as int))
    }
}

pub proof fn lemma_idx_blank_line_is(ls: Seq<Seq<char>>, k: int)
    requires
        0 <= k <= ls.len(),
        k < ls.len() ==> is_blank(ls[k]),
        forall|j: int| 0 <= j < k ==> !is_blank(ls[j]),
        k == ls.len() ==> forall|j: int| 0 <= j < ls.len() ==> !is_blank(ls[j]),
    ensures
        idx_blank_line(ls) == k,
    decreases ls.len(),
{
    if ls.len() > 0 && !is_blank(ls[0]) {
        let t = ls.subrange(1, ls.len() as int);
        assert(forall|j: int| 0 <= j < t.len() ==> t[j] == ls[j + 1]);
        lemma_idx_blank_line_is(t, k - 1);
    }
}

/// The paragraphs below the header: maximal runs of non-blank lines, each
/// paragraph its lines joined by a line break.
pub open spec fn paras_of(ls: Seq<Seq<char>>) -> Seq<Seq<char>>
    decreases ls.len(),
{
    if ls.len() == 0 {
        Seq::empty()
    } else if is_blank(ls[0]) {
        paras_of(ls.subrange(1, ls.len() as int))
    } else {
        let k = idx_blank_line(ls);
        if 1 <= k <= ls.len() {
            seq![join_char(ls.subrange(0, k), '\n')] + paras_of(ls.subrange(k, ls.len() as int))
        } else {
            Seq::empty()
        }
    }
}

/// The marker a breaking footer or paragraph starts with.
pub open spec fn starts_with_bc(p: Seq<char>) -> bool {
    has_prefix(p, "BREAKING CHANGE"@)
}

/// A footer of the form `BREAKING CHANGE: text` is replaced by `text`;
/// anything else is kept whole.
pub open spec fn footer_value(fp: Seq<char>) -> Seq<char> {
    if starts_with_bc(fp) && fp.len() > 15 && fp[15] == ':' && trim(
        fp.subrange(16, fp.len() as int),
    ).len() > 0 {
        trim(fp.subrange(16, fp.len() as int))
    } else {
        fp
    }
}

/// Assembles the record from the header fields and the paragraphs: with
/// two or more paragraphs the last is the footer and the rest the body; a
/// single paragraph is the footer when it announces a breaking change and
/// the body otherwise. A breaking change is a header marker, a footer that
/// starts with the marker, or any body paragraph that does.
pub open spec fn build_record(
    cat: CommitTypeV,
    scope: Option<Seq<char>>,
    subject: Seq<char>,
    bang: bool,
    ps: Seq<Seq<char>>,
) -> ConventionalCommitV {
    if ps.len() == 0 {
        ConventionalCommitV {
            commit_type: cat,
            scope,
            subject,
            footer: None,
            body: None,
            prefix: None,
            breaking_change: bang,
        }
    } else if ps.len() == 1 {
        if starts_with_bc(ps[0]) {
            ConventionalCommitV {
                commit_type: cat,
                scope,
                subject,
                footer: Some(footer_value(ps[0])),
                body: None,
                prefix: None,
                breaking_change: true,
            }
        } else {
            ConventionalCommitV {
                commit_type: cat,
                scope,
                subject,
                footer: None,
                body: Some(ps[0]),
                prefix: None,
                breaking_change: bang,
            }
        }
    } else {
        let body = join_seq(ps.subrange(0, ps.len() - 1), "\n\n"@);
        let fp = ps.last();
        let fbc = starts_with_bc(fp);
        let bodybc = exists|i: int| 0 <= i < ps.len() - 1 && starts_with_bc(#[trigger] ps[i]);
        ConventionalCommitV {
            commit_type: cat,
            scope,
            subject,
            footer: Some(footer_value(fp)),
            body: Some(body),
            prefix: None,
            breaking_change: bang || fbc || bodybc,
        }
    }
}

/// The lenient parse: the only failure is an empty message; a header that
/// does not fit the grammar, or a scope that names a standard category,
/// falls back to a non-compliant record whose subject is the first line.
pub open spec fn parse_spec(m: Seq<char>) -> Option<ConventionalCommitV> {
    let ls = pruned_lines(m);
    if ls.len() == 0 {
        None
    } else {
        let head = ls[0];
        let ps = paras_of(ls.subrange(1, ls.len() as int));
        match header_spec(head) {
            Some((bang, tok, scope, subject)) => {
                if scope is Some && token_is_standard(scope->0) {
                    Some(build_record(CommitTypeV::NonCompliant, None, head, false, ps))
                } else {
                    Some(build_record(cat_of_token(tok), scope, subject, bang, ps))
                }
            },
            None => Some(build_record(CommitTypeV::NonCompliant, None, head, false, ps)),
        }
    }
}

/// What a strict parse yields.
pub enum StrictParse {
    Parsed(ConventionalCommitV),
    Empty,
    BadHeader(Seq<char>),
    ScopeStd(Seq<char>),
    UnknownCat(Seq<char>),
}

/// The strict parse: an empty message, a header outside the grammar, a
/// scope naming a standard category, and a category outside the standard
/// set are each reported instead of repaired.
pub open spec fn parse_strict_spec(m: Seq<char>) -> StrictParse {
    let ls = pruned_lines(m);
    if ls.len() == 0 {
        StrictParse::Empty
    } else {
        let head = ls[0];
        let ps = paras_of(ls.subrange(1, ls.len() as int));
        match header_spec(head) {
            Some((bang, tok, scope, subject)) => {
                if scope is Some && token_is_standard(scope->0) {
                    StrictParse::ScopeStd(scope->0)
                } else if cat_of_token(tok) is Custom {
                    StrictParse::UnknownCat(tok)
                } else {
                    StrictParse::Parsed(build_record(cat_of_token(tok), scope, subject, bang, ps))
                }
            },
            None => StrictParse::BadHeader(head),
        }
    }
}

/// The canonical text of a record: the header line (with a `!` marker when
/// the change is breaking), the body, and the footer, which is announced
/// with the breaking-change marker when the change is breaking.
pub open spec fn format_commit(c: ConventionalCommitV) -> Seq<char> {
    let title = match c.commit_type {
        CommitTypeV::NonCompliant => Seq::<char>::empty(),
        CommitTypeV::Unknown => Seq::<char>::empty(),
        other => cat_token(other),
    };
    let header = if title.len() == 0 {
        c.subject
    } else {
        title + (match c.scope {
            Some(sc) => seq!['('] + sc + seq![')'],
            None => Seq::<char>::empty(),
        }) + (if c.breaking_change {
            seq!['!']
        } else {
            Seq::<char>::empty()
        }) + seq![':', ' '] + c.subject
    };
    let with_body = match c.body {
        Some(b) => header + "\n\n"@ + b,
        None => header,
    };
    match c.footer {
        Some(f) => if c.breaking_change {
            with_body + "\n\nBREAKING CHANGE: "@ + f
        } else {
            with_body + "\n\n"@ + f
        },
        None => if c.breaking_change && title.len() == 0 {
            with_body + "\n\nBREAKING CHANGE"@
        } else {
            with_body
        },
    }
}

// ---------------------------------------------------------------------------
// Executable parser
// ---------------------------------------------------------------------------

/// Parses one header line into (breaking, category token, scope, subject).
fn header_parse(l: &Vec<char>) -> (r: Option<(bool, Vec<char>, Option<Vec<char>>, Vec<char>)>)
    ensures
        (match r {
            Some(h) => header_spec(l@) == Some(
                (
                    h.0,
                    h.1@,
                    match h.2 {
                        Some(sc) => Some(sc@),
                        None => None,
                    },
                    h.3@,
                ),
            ),
            None => header_spec(l@) is None,
        }),
{
    let n = l.len();
    // leading breaking markers
    let mut b1: usize = 0;
    while b1 < n && l[b1] == '!'
        invariant
            b1 <= n,
            n == l@.len(),
            forall|j: int| 0 <= j < b1 ==> l@[j] == '!',
        decreases n - b1,
    {
        b1 = b1 + 1;
    }
    proof {
        lemma_idx_not_bang_is(l@, b1 as int);
    }
    // category token
    let mut tok_end: usize = b1;
    while tok_end < n && is_cat_char_exec(l[tok_end])
        invariant
            b1 <= tok_end <= n,
            n == l@.len(),
            forall|j: int| b1 <= j < tok_end ==> is_cat_char(l@[j]),
        decreases n - tok_end,
    {
        tok_end = tok_end + 1;
    }
    proof {
        let after_b1 = l@.subrange(b1 as int, l@.len() as int);
        assert(forall|k: int| 0 <= k < after_b1.len() ==> after_b1[k] == l@[b1 + k]);
        lemma_idx_non_cat_is(after_b1, tok_end - b1 as int);
    }
    if tok_end == b1 {
        return None;
    }
    // optional scope
    let mut scope: Option<Vec<char>> = None;
    let mut after: usize = tok_end;
    if tok_end < n {
        if l[tok_end] == '(' {
            let sc_start = tok_end + 1;
            let mut sc_end: usize = sc_start;
            while sc_end < n && is_cat_char_exec(l[sc_end])
                invariant
                    sc_start <= sc_end <= n,
                    n == l@.len(),
                    forall|j: int| sc_start <= j < sc_end ==> is_cat_char(l@[j]),
                decreases n - sc_end,
            {
                sc_end = sc_end + 1;
            }
            proof {
                let after_sc = l@.subrange(sc_start as int, l@.len() as int);
                assert(forall|k: int| 0 <= k < after_sc.len() ==> after_sc[k] == l@[sc_start + k]);
                lemma_idx_non_cat_is(after_sc, sc_end - sc_start as int);
            }
            if !(sc_end < n && sc_end > sc_start) {
                return None;
            }
            if l[sc_end] != ')' {
                return None;
            }
            scope = Some(subrange_vec(l, sc_start, sc_end));
            after = sc_end + 1;
        }
    }
    // trailing breaking markers
    let mut b2: usize = after;
    while b2 < n && l[b2] == '!'
        invariant
            after <= b2 <= n,
            n == l@.len(),
            forall|j: int| after <= j < b2 ==> l@[j] == '!',
        decreases n - b2,
    {
        b2 = b2 + 1;
    }
    proof {
        let after_a = l@.subrange(after as int, l@.len() as int);
        assert(forall|k: int| 0 <= k < after_a.len() ==> after_a[k] == l@[after + k]);
        lemma_idx_not_bang_is(after_a, b2 - after as int);
    }
    // `: ` and a non-empty subject
    if !(b2 < n) {
        return None;
    }
    if !(b2 + 1 < n) {
        return None;
    }
    if l[b2] != ':' || l[b2 + 1] != ' ' {
        return None;
    }
    if !(b2 + 2 < n) {
        return None;
    }
    let tok = subrange_vec(l, b1, tok_end);
    let subject = subrange_vec(l, b2 + 2, n);
    Some((b1 > 0 || b2 > after, tok, scope, subject))
}

#[inline]
fn is_cat_char_exec(c: char) -> (r: bool)
    ensures
        r == is_cat_char(c),
{
    ('a' <= c && c <= 'z') || ('A' <= c && c <= 'Z') || ('0' <= c && c <= '9') || c == '-'
}

/// The paragraphs among the lines below the header.
fn paras_exec(lines: &Vec<Vec<char>>, from: usize) -> (r: Vec<Vec<char>>)
    requires
        from <= lines@.len(),
    ensures
        r.deep_view() == paras_of(lines.deep_view().subrange(from as int, lines.deep_view().len() as int)),
{
    let ghost ld = lines.deep_view();
    let ghost whole = ld.subrange(from as int, ld.len() as int);
    let mut out: Vec<Vec<char>> = Vec::new();
    let mut cur = from;
    proof {
        assert(ld.subrange(cur as int, ld.len() as int) =~~= whole);
        assert(out.deep_view() + paras_of(whole) =~~= paras_of(whole));
    }
    while cur < lines.len()
        invariant
            from <= cur <= lines@.len(),
            ld == lines.deep_view(),
            ld.len() == lines@.len(),
            paras_of(whole) == out.deep_view() + paras_of(ld.subrange(cur as int, ld.len() as int)),
        decreases lines@.len() - cur,
    {
        let ghost rest = ld.subrange(cur as int, ld.len() as int);
        proof {
            assert(lines@[cur as int]@ == ld[cur as int]);
            assert(rest[0] == ld[cur as int]);
            assert(rest.subrange(1, rest.len() as int) =~~= ld.subrange(
                cur + 1 as int,
                ld.len() as int,
            ));
        }
        if is_blank_chars(&lines[cur]) {
            cur = cur + 1;
            continue;
        }
        // the run of non-blank lines
        let mut k = cur;
        loop
            invariant_except_break
                cur <= k <= lines@.len(),
                ld == lines.deep_view(),
                ld.len() == lines@.len(),
                forall|j: int| cur <= j < k ==> !is_blank(#[trigger] ld[j]),
            ensures
                cur <= k <= lines@.len(),
                ld == lines.deep_view(),
                forall|j: int| cur <= j < k ==> !is_blank(#[trigger] ld[j]),
                k < ld.len() ==> is_blank(ld[k as int]),
            decreases lines@.len() - k,
        {
            if k >= lines.len() {
                break;
            }
            proof {
                assert(lines@[k as int]@ == ld[k as int]);
            }
            if is_blank_chars(&lines[k]) {
                break;
            }
            k = k + 1;
        }
        proof {
            assert(forall|t: int| 0 <= t < rest.len() ==> rest[t] == ld[cur + t]);
            lemma_idx_blank_line_is(rest, k - cur as int);
        }
        // join the run into one paragraph
        let mut run: Vec<Vec<char>> = Vec::new();
        let mut t = cur;
        while t < k
            invariant
                cur <= t <= k <= lines@.len(),
                ld == lines.deep_view(),
                ld.len() == lines@.len(),
                run.deep_view() == ld.subrange(cur as int, t as int),
            decreases k - t,
        {
            let ghost before = run.deep_view();
            let piece = subrange_vec(&lines[t], 0, lines[t].len());
            proof {
                assert(piece@ =~= ld[t as int]);
            }
            run.push(piece);
            proof {
                assert(run.deep_view() =~~= before.push(ld[t as int]));
                assert(before.push(ld[t as int]) =~~= ld.subrange(cur as int, t + 1 as int));
            }
            t = t + 1;
        }
        let para = join_chars(&run, '\n');
        let ghost before_out = out.deep_view();
        out.push(para);
        proof {
            assert(rest.subrange(0, k - cur as int) =~~= ld.subrange(cur as int, k as int));
            assert(rest.subrange(k - cur as int, rest.len() as int) =~~= ld.subrange(
                k as int,
                ld.len() as int,
            ));
            assert(paras_of(rest) == seq![join_char(ld.subrange(cur as int, k as int), '\n')]
                + paras_of(ld.subrange(k as int, ld.len() as int)));
            assert(para@ == join_char(ld.subrange(cur as int, k as int), '\n'));
            assert(out.deep_view() =~~= before_out.push(para@));
            assert(before_out + (seq![para@] + paras_of(ld.subrange(k as int, ld.len() as int)))
                =~~= before_out.push(para@) + paras_of(ld.subrange(k as int, ld.len() as int)));
        }
        cur = k;
    }
    proof {
        assert(paras_of(ld.subrange(cur as int, ld.len() as int)).len() == 0);
        assert(out.deep_view() + paras_of(ld.subrange(cur as int, ld.len() as int))
            =~~= out.deep_view());
    }
    out
}

/// Replaces a `BREAKING CHANGE: text` footer by `text`.
fn footer_value_exec(fp: &Vec<char>) -> (r: Vec<char>)
    ensures
        r@ == footer_value(fp@),
{
    proof {
        assert(fp@.subrange(0, fp@.len() as int) =~= fp@);
    }
    if has_prefix_at(fp, 0, "BREAKING CHANGE") {
        proof {
            reveal_strlit("BREAKING CHANGE");
        }
        if fp.len() > 15 {
            if fp[15] == ':' {
                let tail = subrange_vec(fp, 16, fp.len());
                let cand = trim_chars(&tail);
                if cand.len() > 0 {
                    return cand;
                }
            }
        }
    }
    subrange_vec(fp, 0, fp.len())
}

fn starts_with_bc_exec(p: &Vec<char>) -> (r: bool)
    ensures
        r == starts_with_bc(p@),
{
    proof {
        assert(p@.subrange(0, p@.len() as int) =~= p@);
    }
    has_prefix_at(p, 0, "BREAKING CHANGE")
}

/// Assembles the executable record from header fields and paragraphs.
fn build_exec(
    cat: CommitType,
    scope: Option<Vec<char>>,
    subject: Vec<char>,
    bang: bool,
    ps: &Vec<Vec<char>>,
) -> (r: ConventionalCommit)
    ensures
        r@ == build_record(
            cat@,
            (match scope {
                Some(sc) => Some(sc@),
                None => None,
            }),
            subject@,
            bang,
            ps.deep_view(),
        ),
{
    let scope_str = match &scope {
        Some(sc) => Some(chars_to_string(sc)),
        None => None,
    };
    let subject_str = chars_to_string(&subject);
    let ghost pd = ps.deep_view();
    if ps.len() == 0 {
        ConventionalCommit {
            commit_type: cat,
            scope: scope_str,
            subject: subject_str,
            footer: None,
            body: None,
            prefix: None,
            breaking_change: bang,
        }
    } else if ps.len() == 1 {
        proof {
            assert(ps@[0]@ == pd[0]);
        }
        if starts_with_bc_exec(&ps[0]) {
            let fv = footer_value_exec(&ps[0]);
            ConventionalCommit {
                commit_type: cat,
                scope: scope_str,
                subject: subject_str,
                footer: Some(chars_to_string(&fv)),
                body: None,
                prefix: None,
                breaking_change: true,
            }
        } else {
            let b = chars_to_string(&ps[0]);
            ConventionalCommit {
                commit_type: cat,
                scope: scope_str,
                subject: subject_str,
                footer: None,
                body: Some(b),
                prefix: None,
                breaking_change: bang,
            }
        }
    } else {
        let n = ps.len();
        let mut body_paras: Vec<Vec<char>> = Vec::new();
        let mut bodybc = false;
        let mut i: usize = 0;
        while i < n - 1
            invariant
                i <= n - 1,
                n == ps@.len(),
                pd == ps.deep_view(),
                pd.len() == n,
                body_paras.deep_view() == pd.subrange(0, i as int),
                bodybc == (exists|j: int| 0 <= j < i && starts_with_bc(#[trigger] pd[j])),
            decreases n - 1 - i,
        {
            proof {
                assert(ps@[i as int]@ == pd[i as int]);
            }
            let piece = subrange_vec(&ps[i], 0, ps[i].len());
            proof {
                assert(piece@ =~= pd[i as int]);
            }
            if starts_with_bc_exec(&piece) {
                bodybc = true;
            }
            let ghost before = body_paras.deep_view();
            body_paras.push(piece);
            proof {
                assert(body_paras.deep_view() =~~= before.push(pd[i as int]));
                assert(before.push(pd[i as int]) =~~= pd.subrange(0, i + 1 as int));
            }
            i = i + 1;
        }
        let body = join_with_str(&body_paras, "\n\n");
        proof {
            assert(ps@[n - 1]@ == pd[n - 1]);
            assert(pd.last() == pd[n - 1]);
        }
        let fp = &ps[n - 1];
        let fbc = starts_with_bc_exec(fp);
        let fv = footer_value_exec(fp);
        proof {
            assert(body@ == join_seq(pd.subrange(0, pd.len() - 1), "\n\n"@));
        }
        ConventionalCommit {
            commit_type: cat,
            scope: scope_str,
            subject: subject_str,
            footer: Some(chars_to_string(&fv)),
            body: Some(chars_to_string(&body)),
            prefix: None,
            breaking_change: bang || fbc || bodybc,
        }
    }
}

impl ConventionalCommit {
    /// Parses a commit message leniently: only an empty (or fully filtered)
    /// message fails; anything that does not fit the grammar becomes a
    /// non-compliant record whose subject is the first line.
    pub fn new(commit_message: &str) -> (r: Result<ConventionalCommit, ConventionalCommitError>)
        ensures
            (match r {
                Ok(c) => parse_spec(commit_message@) == Some(c@),
                Err(e) => parse_spec(commit_message@) is None && e
                    == ConventionalCommitError::EmptyCommitMessage,
            }),
    {
        let chars = str_to_chars(commit_message);
        let lines = pruned_lines_exec(&chars);
        let ghost ld = lines.deep_view();
        if lines.len() == 0 {
            return Err(ConventionalCommitError::EmptyCommitMessage);
        }
        let ps = paras_exec(&lines, 1);
        proof {
            assert(lines@[0]@ == ld[0]);
        }
        match header_parse(&lines[0]) {
            Some((bang, tok, scope, subject)) => {
                let scope_is_std = match &scope {
                    Some(sc) => {
                        let c = CommitType::parse_token(sc);
                        let reserved = match &c {
                            CommitType::Custom(_) => false,
                            _ => true,
                        };
                        proof {
                            assert(reserved == token_is_standard(sc@));
                        }
                        reserved
                    },
                    None => false,
                };
                if scope_is_std {
                    let head = subrange_vec(&lines[0], 0, lines[0].len());
                    proof {
                        assert(head@ =~= ld[0]);
                    }
                    Ok(build_exec(CommitType::NonCompliant, None, head, false, &ps))
                } else {
                    let cat = CommitType::parse_token(&tok);
                    Ok(build_exec(cat, scope, subject, bang, &ps))
                }
            },
            None => {
                let head = subrange_vec(&lines[0], 0, lines[0].len());
                proof {
                    assert(head@ =~= ld[0]);
                }
                Ok(build_exec(CommitType::NonCompliant, None, head, false, &ps))
            },
        }
    }

    /// Parses a commit message strictly: reports an empty message, a header
    /// outside the grammar, a scope naming a standard category, and a
    /// category outside the standard set.
    pub fn parse_strict(commit_message: &str) -> (r: Result<
        ConventionalCommit,
        ConventionalCommitError,
    >)
        ensures
            (match r {
                Ok(c) => parse_strict_spec(commit_message@) == StrictParse::Parsed(c@),
                Err(e) => match parse_strict_spec(commit_message@) {
                    StrictParse::Parsed(_) => false,
                    StrictParse::Empty => e == ConventionalCommitError::EmptyCommitMessage,
                    StrictParse::BadHeader(h) => e is InvalidCommitMessage
                        && e->InvalidCommitMessage_0@ == h,
                    StrictParse::ScopeStd(sc) => e is ScopeIsCommitType
                        && e->ScopeIsCommitType_0@ == sc,
                    StrictParse::UnknownCat(t) => e is InvalidCommitType
                        && e->InvalidCommitType_0@ == t,
                },
            }),
    {
        let chars = str_to_chars(commit_message);
        let lines = pruned_lines_exec(&chars);
        let ghost ld = lines.deep_view();
        if lines.len() == 0 {
            return Err(ConventionalCommitError::EmptyCommitMessage);
        }
        let ps = paras_exec(&lines, 1);
        proof {
            assert(lines@[0]@ == ld[0]);
        }
        match header_parse(&lines[0]) {
            Some((bang, tok, scope, subject)) => {
                let scope_is_std = match &scope {
                    Some(sc) => {
                        let c = CommitType::parse_token(sc);
                        let reserved = match &c {
                            CommitType::Custom(_) => false,
                            _ => true,
                        };
                        proof {
                            assert(reserved == token_is_standard(sc@));
                        }
                        reserved
                    },
                    None => false,
                };
                if scope_is_std {
                    let sc = match scope {
                        Some(sc) => sc,
                        None => Vec::new(),
                    };
                    return Err(ConventionalCommitError::ScopeIsCommitType(chars_to_string(&sc)));
                }
                let cat = CommitType::parse_token(&tok);
                let is_custom = match &cat {
                    CommitType::Custom(_) => true,
                    _ => false,
                };
                if is_custom {
                    return Err(ConventionalCommitError::InvalidCommitType(chars_to_string(&tok)));
                }
                Ok(build_exec(cat, scope, subject, bang, &ps))
            },
            None => {
                let head = subrange_vec(&lines[0], 0, lines[0].len());
                proof {
                    assert(head@ =~= ld[0]);
                }
                Err(ConventionalCommitError::InvalidCommitMessage(chars_to_string(&head)))
            },
        }
    }

    /// The canonical text of the record.
    pub fn message(&self) -> (r: String)
        ensures
            r@ == format_commit(self@),
    {
        let mut out: Vec<char> = Vec::new();
        let title: &str = match &self.commit_type {
            CommitType::NonCompliant => "",
            CommitType::Unknown => "",
            other => other.as_str(),
        };
        let ghost title_v = (match self@.commit_type {
            CommitTypeV::NonCompliant => Seq::<char>::empty(),
            CommitTypeV::Unknown => Seq::<char>::empty(),
            other => cat_token(other),
        });
        proof {
            reveal_strlit("");
            assert(title@ =~= title_v);
        }
        let ghost header_v = (if title_v.len() == 0 {
            self@.subject
        } else {
            title_v + (match self@.scope {
                Some(sc) => seq!['('] + sc + seq![')'],
                None => Seq::<char>::empty(),
            }) + (if self@.breaking_change {
                seq!['!']
            } else {
                Seq::<char>::empty()
            }) + seq![':', ' '] + self@.subject
        });
        let title_len = title.unicode_len();
        if title_len == 0 {
            push_str_chars(&mut out, self.subject.as_str());
        } else {
            push_str_chars(&mut out, title);
            match &self.scope {
                Some(sc) => {
                    out.push('(');
                    push_str_chars(&mut out, sc.as_str());
                    out.push(')');
                },
                None => {},
            }
            if self.breaking_change {
                out.push('!');
            }
            out.push(':');
            out.push(' ');
            push_str_chars(&mut out, self.subject.as_str());
        }
        proof {
            assert(out@ =~= header_v);
        }
        let ghost with_body_v = (match self@.body {
            Some(b) => header_v + "\n\n"@ + b,
            None => header_v,
        });
        match &self.body {
            Some(b) => {
                push_str_chars(&mut out, "\n\n");
                push_str_chars(&mut out, b.as_str());
            },
            None => {},
        }
        proof {
            assert(out@ =~= with_body_v);
        }
        match &self.footer {
            Some(f) => {
                if self.breaking_change {
                    push_str_chars(&mut out, "\n\nBREAKING CHANGE: ");
                } else {
                    push_str_chars(&mut out, "\n\n");
                }
                push_str_chars(&mut out, f.as_str());
            },
            None => {
                if self.breaking_change && title_len == 0 {
                    push_str_chars(&mut out, "\n\nBREAKING CHANGE");
                }
            },
        }
        proof {
            assert(out@ =~= format_commit(self@));
        }
        chars_to_string(&out)
    }
}

/// The message parser as a named entry point.
#[derive(Debug, Clone, Copy, PartialEq, Eq)]
pub struct CommitMessageParser;

impl CommitMessageParser {
    /// The lenient parse, under the parser's own name.
    pub fn parse(commit_message: &str) -> (r: Result<ConventionalCommit, ConventionalCommitError>)
        ensures
            (match r {
                Ok(c) => parse_spec(commit_message@) == Some(c@),
                Err(e) => parse_spec(commit_message@) is None && e
                    == ConventionalCommitError::EmptyCommitMessage,
            }),
    {
        ConventionalCommit::new(commit_message)
    }
}

// ---------------------------------------------------------------------------
// The round trip of the canonical text
// ---------------------------------------------------------------------------

/// One of the twelve standard categories.
pub open spec fn cat_is_standard(c: CommitTypeV) -> bool {
    match c {
        CommitTypeV::Custom(_) => false,
        CommitTypeV::NonCompliant => false,
        CommitTypeV::Unknown => false,
        _ => true,
    }
}

/// A standard category's token: non-empty, made of token characters,
/// already lower-case, and classified back to the same category.
proof fn lemma_std_token(ct: CommitTypeV)
    requires
        cat_is_standard(ct),
    ensures
        1 <= cat_token(ct).len(),
        forall|i: int| 0 <= i < cat_token(ct).len() ==> is_cat_char(#[trigger] cat_token(ct)[i]),
        lower(cat_token(ct)) == cat_token(ct),
        cat_of_token(cat_token(ct)) == ct,
{
    reveal_strlit("author");
    reveal_strlit("build");
    reveal_strlit("cd");
    reveal_strlit("change-id");
    reveal_strlit("chore");
    reveal_strlit("ci");
    reveal_strlit("co-authored-by");
    reveal_strlit("commit");
    reveal_strlit("committer");
    reveal_strlit("continuous integration");
    reveal_strlit("date");
    reveal_strlit("deploy");
    reveal_strlit("doc");
    reveal_strlit("docs");
    reveal_strlit("documentation");
    reveal_strlit("feat");
    reveal_strlit("feature");
    reveal_strlit("features");
    reveal_strlit("fix");
    reveal_strlit("fixes");
    reveal_strlit("parent");
    reveal_strlit("perf");
    reveal_strlit("performance");
    reveal_strlit("refactor");
    reveal_strlit("revert");
    reveal_strlit("reviewed-by");
    reveal_strlit("style");
    reveal_strlit("test");
    reveal_strlit("tests");
    reveal_strlit("tree");
    assert("build"@[0] == 'b');
    assert("chore"@[0] == 'c');
    assert("ci"@[0] == 'c');
    assert("continuous integration"@[0] == 'c');
    assert("cd"@[0] == 'c');
    assert("deploy"@[0] == 'd');
    assert("doc"@[0] == 'd');
    assert("docs"@[0] == 'd');
    assert("documentation"@[0] == 'd');
    assert("feat"@[0] == 'f');
    assert("feature"@[0] == 'f');
    assert("features"@[0] == 'f');
    assert("fix"@[0] == 'f');
    assert("fixes"@[0] == 'f');
    assert("perf"@[0] == 'p');
    assert("performance"@[0] == 'p');
    assert("refactor"@[0] == 'r');
    assert("revert"@[0] == 'r');
    assert("style"@[0] == 's');
    assert("test"@[0] == 't');
    assert("tests"@[0] == 't');
    assert("cd"@[1] == 'd');
    assert("ci"@[1] == 'i');
    match ct {
        CommitTypeV::Feat => {
            assert forall|i: int| 0 <= i < "feat"@.len() implies is_cat_char("feat"@[i]) by {
                if i == 0 {
            } else if i == 1 {
            } else if i == 2 {
            } else {
            }
            }
            assert forall|i: int| 0 <= i < "feat"@.len() implies lower("feat"@)[i] == "feat"@[i] by {
                if i == 0 {
            } else if i == 1 {
            } else if i == 2 {
            } else {
            }
            }
            assert(lower("feat"@) =~= "feat"@);
            assert(lower("feat"@) == "feat"@);
        },
        CommitTypeV::Fix => {
            assert forall|i: int| 0 <= i < "fix"@.len() implies is_cat_char("fix"@[i]) by {
                if i == 0 {
            } else if i == 1 {
            } else {
            }
            }
            assert forall|i: int| 0 <= i < "fix"@.len() implies lower("fix"@)[i] == "fix"@[i] by {
                if i == 0 {
            } else if i == 1 {
            } else {
            }
            }
            assert(lower("fix"@) =~= "fix"@);
        },
        CommitTypeV::Perf => {
            assert forall|i: int| 0 <= i < "perf"@.len() implies is_cat_char("perf"@[i]) by {
                if i == 0 {
            } else if i == 1 {
            } else if i == 2 {
            } else {
            }
            }
            assert forall|i: int| 0 <= i < "perf"@.len() implies lower("perf"@)[i] == "perf"@[i] by {
                if i == 0 {
            } else if i == 1 {
            } else if i == 2 {
            } else {
            }
            }
            assert(lower("perf"@) =~= "perf"@);
        },
        CommitTypeV::Refactor => {
            assert forall|i: int| 0 <= i < "refactor"@.len() implies is_cat_char("refactor"@[i]) by {
                if i == 0 {
            } else if i == 1 {
            } else if i == 2 {
            } else if i == 3 {
            } else if i == 4 {
            } else if i == 5 {
            } else if i == 6 {
            } else {
            }
            }
            assert forall|i: int| 0 <= i < "refactor"@.len() implies lower("refactor"@)[i] == "refactor"@[i] by {
                if i == 0 {
            } else if i == 1 {
            } else if i == 2 {
            } else if i == 3 {
            } else if i == 4 {
            } else if i == 5 {
            } else if i == 6 {
            } else {
            }
            }
            assert(lower("refactor"@) =~= "refactor"@);
        },
        CommitTypeV::Revert => {
            assert forall|i: int| 0 <= i < "revert"@.len() implies is_cat_char("revert"@[i]) by {
                if i == 0 {
            } else if i == 1 {
            } else if i == 2 {
            } else if i == 3 {
            } else if i == 4 {
            } else {
            }
            }
            assert forall|i: int| 0 <= i < "revert"@.len() implies lower("revert"@)[i] == "revert"@[i] by {
                if i == 0 {
            } else if i == 1 {
            } else if i == 2 {
            } else if i == 3 {
            } else if i == 4 {
            } else {
            }
            }
            assert(lower("revert"@) =~= "revert"@);
        },
        CommitTypeV::Style => {
            assert forall|i: int| 0 <= i < "style"@.len() implies is_cat_char("style"@[i]) by {
                if i == 0 {
            } else if i == 1 {
            } else if i == 2 {
            } else if i == 3 {
            } else {
            }
            }
            assert forall|i: int| 0 <= i < "style"@.len() implies lower("style"@)[i] == "style"@[i] by {
                if i == 0 {
            } else if i == 1 {
            } else if i == 2 {
            } else if i == 3 {
            } else {
            }
            }
            assert(lower("style"@) =~= "style"@);
        },
        CommitTypeV::Test => {
            assert forall|i: int| 0 <= i < "test"@.len() implies is_cat_char("test"@[i]) by {
                if i == 0 {
            } else if i == 1 {
            } else if i == 2 {
            } else {
            }
            }
            assert forall|i: int| 0 <= i < "test"@.len() implies lower("test"@)[i] == "test"@[i] by {
                if i == 0 {
            } else if i == 1 {
            } else if i == 2 {
            } else {
            }
            }
            assert(lower("test"@) =~= "test"@);
        },
        CommitTypeV::Build => {
            assert forall|i: int| 0 <= i < "build"@.len() implies is_cat_char("build"@[i]) by {
                if i == 0 {
            } else if i == 1 {
            } else if i == 2 {
            } else if i == 3 {
            } else {
            }
            }
            assert forall|i: int| 0 <= i < "build"@.len() implies lower("build"@)[i] == "build"@[i] by {
                if i == 0 {
            } else if i == 1 {
            } else if i == 2 {
            } else if i == 3 {
            } else {
            }
            }
            assert(lower("build"@) =~= "build"@);
        },
        CommitTypeV::Chore => {
            assert forall|i: int| 0 <= i < "chore"@.len() implies is_cat_char("chore"@[i]) by {
                if i == 0 {
            } else if i == 1 {
            } else if i == 2 {
            } else if i == 3 {
            } else {
            }
            }
            assert forall|i: int| 0 <= i < "chore"@.len() implies lower("chore"@)[i] == "chore"@[i] by {
                if i == 0 {
            } else if i == 1 {
            } else if i == 2 {
            } else if i == 3 {
            } else {
            }
            }
            assert(lower("chore"@) =~= "chore"@);
        },
        CommitTypeV::Ci => {
            assert forall|i: int| 0 <= i < "ci"@.len() implies is_cat_char("ci"@[i]) by {
                if i == 0 {
            } else {
            }
            }
            assert forall|i: int| 0 <= i < "ci"@.len() implies lower("ci"@)[i] == "ci"@[i] by {
                if i == 0 {
            } else {
            }
            }
            assert(lower("ci"@) =~= "ci"@);
        },
        CommitTypeV::Cd => {
            assert forall|i: int| 0 <= i < "cd"@.len() implies is_cat_char("cd"@[i]) by {
                if i == 0 {
            } else {
            }
            }
            assert forall|i: int| 0 <= i < "cd"@.len() implies lower("cd"@)[i] == "cd"@[i] by {
                if i == 0 {
            } else {
            }
            }
            assert(lower("cd"@) =~= "cd"@);
        },
        CommitTypeV::Docs => {
            assert forall|i: int| 0 <= i < "docs"@.len() implies is_cat_char("docs"@[i]) by {
                if i == 0 {
            } else if i == 1 {
            } else if i == 2 {
            } else {
            }
            }
            assert forall|i: int| 0 <= i < "docs"@.len() implies lower("docs"@)[i] == "docs"@[i] by {
                if i == 0 {
            } else if i == 1 {
            } else if i == 2 {
            } else {
            }
            }
            assert(lower("docs"@) =~= "docs"@);
        },
        _ => {},
    }
}

/// Every plumbing keyword is made of token characters.
proof fn lemma_plumbing_kw_chars()
    ensures
        forall|i: int| 0 <= i < "author"@.len() ==> is_cat_char(#[trigger] "author"@[i]),
        forall|i: int| 0 <= i < "committer"@.len() ==> is_cat_char(#[trigger] "committer"@[i]),
        forall|i: int| 0 <= i < "tree"@.len() ==> is_cat_char(#[trigger] "tree"@[i]),
        forall|i: int| 0 <= i < "parent"@.len() ==> is_cat_char(#[trigger] "parent"@[i]),
        forall|i: int| 0 <= i < "date"@.len() ==> is_cat_char(#[trigger] "date"@[i]),
        forall|i: int| 0 <= i < "commit"@.len() ==> is_cat_char(#[trigger] "commit"@[i]),
        forall|i: int| 0 <= i < "co-authored-by"@.len() ==> is_cat_char(#[trigger] "co-authored-by"@[i]),
        forall|i: int| 0 <= i < "change-id"@.len() ==> is_cat_char(#[trigger] "change-id"@[i]),
        forall|i: int| 0 <= i < "reviewed-by"@.len() ==> is_cat_char(#[trigger] "reviewed-by"@[i]),
{
    reveal_strlit("author");
    reveal_strlit("build");
    reveal_strlit("cd");
    reveal_strlit("change-id");
    reveal_strlit("chore");
    reveal_strlit("ci");
    reveal_strlit("co-authored-by");
    reveal_strlit("commit");
    reveal_strlit("committer");
    reveal_strlit("continuous integration");
    reveal_strlit("date");
    reveal_strlit("deploy");
    reveal_strlit("doc");
    reveal_strlit("docs");
    reveal_strlit("documentation");
    reveal_strlit("feat");
    reveal_strlit("feature");
    reveal_strlit("features");
    reveal_strlit("fix");
    reveal_strlit("fixes");
    reveal_strlit("parent");
    reveal_strlit("perf");
    reveal_strlit("performance");
    reveal_strlit("refactor");
    reveal_strlit("revert");
    reveal_strlit("reviewed-by");
    reveal_strlit("style");
    reveal_strlit("test");
    reveal_strlit("tests");
    reveal_strlit("tree");
    assert forall|i: int| 0 <= i < "author"@.len() implies is_cat_char("author"@[i]) by {
        if i == 0 {
            } else if i == 1 {
            } else if i == 2 {
            } else if i == 3 {
            } else if i == 4 {
            } else {
            }
    }
    assert forall|i: int| 0 <= i < "committer"@.len() implies is_cat_char("committer"@[i]) by {
        if i == 0 {
            } else if i == 1 {
            } else if i == 2 {
            } else if i == 3 {
            } else if i == 4 {
            } else if i == 5 {
            } else if i == 6 {
            } else if i == 7 {
            } else {
            }
    }
    assert forall|i: int| 0 <= i < "tree"@.len() implies is_cat_char("tree"@[i]) by {
        if i == 0 {
            } else if i == 1 {
            } else if i == 2 {
            } else {
            }
    }
    assert forall|i: int| 0 <= i < "parent"@.len() implies is_cat_char("parent"@[i]) by {
        if i == 0 {
            } else if i == 1 {
            } else if i == 2 {
            } else if i == 3 {
            } else if i == 4 {
            } else {
            }
    }
    assert forall|i: int| 0 <= i < "date"@.len() implies is_cat_char("date"@[i]) by {
        if i == 0 {
            } else if i == 1 {
            } else if i == 2 {
            } else {
            }
    }
    assert forall|i: int| 0 <= i < "commit"@.len() implies is_cat_char("commit"@[i]) by {
        if i == 0 {
            } else if i == 1 {
            } else if i == 2 {
            } else if i == 3 {
            } else if i == 4 {
            } else {
            }
    }
    assert forall|i: int| 0 <= i < "co-authored-by"@.len() implies is_cat_char("co-authored-by"@[i]) by {
        if i == 0 {
            } else if i == 1 {
            } else if i == 2 {
            } else if i == 3 {
            } else if i == 4 {
            } else if i == 5 {
            } else if i == 6 {
            } else if i == 7 {
            } else if i == 8 {
            } else if i == 9 {
            } else if i == 10 {
            } else if i == 11 {
            } else if i == 12 {
            } else {
            }
    }
    assert forall|i: int| 0 <= i < "change-id"@.len() implies is_cat_char("change-id"@[i]) by {
        if i == 0 {
            } else if i == 1 {
            } else if i == 2 {
            } else if i == 3 {
            } else if i == 4 {
            } else if i == 5 {
            } else if i == 6 {
            } else if i == 7 {
            } else {
            }
    }
    assert forall|i: int| 0 <= i < "reviewed-by"@.len() implies is_cat_char("reviewed-by"@[i]) by {
        if i == 0 {
            } else if i == 1 {
            } else if i == 2 {
            } else if i == 3 {
            } else if i == 4 {
            } else if i == 5 {
            } else if i == 6 {
            } else if i == 7 {
            } else if i == 8 {
            } else if i == 9 {
            } else {
            }
    }
}

/// A line that starts with a run of token characters followed by some
/// non-token character can only match a keyword that is exactly that run.
proof fn lemma_kw_no_match(ll: Seq<char>, tlen: int, kw: Seq<char>)
    requires
        0 <= tlen < ll.len(),
        forall|i: int| 0 <= i < tlen ==> is_cat_char(ll[i]),
        !is_cat_char(ll[tlen]),
        !crate::prune::is_kw_sep(ll[tlen]) || ll.subrange(0, tlen) != kw,
        forall|i: int| 0 <= i < kw.len() ==> is_cat_char(#[trigger] kw[i]),
        kw.len() >= 1,
    ensures
        !crate::prune::keyword_match(ll, kw),
{
    if crate::text::has_prefix(ll, kw) {
        if kw.len() < tlen {
            assert(is_cat_char(ll[kw.len() as int]));
        } else if kw.len() == tlen {
            if crate::prune::is_kw_sep(ll[tlen]) {
                assert(ll.subrange(0, kw.len() as int) == kw);
                assert(false);
            }
        } else {
            assert(kw[tlen] == ll.subrange(0, kw.len() as int)[tlen]);
            assert(kw[tlen] == ll[tlen]);
            assert(is_cat_char(kw[tlen]));
            assert(false);
        }
    }
}


pub proof fn lemma_idx_not_bang_bounds(s: Seq<char>)
    ensures
        0 <= idx_not_bang(s) <= s.len(),
        forall|j: int| 0 <= j < idx_not_bang(s) ==> s[j] == '!',
        idx_not_bang(s) < s.len() ==> s[idx_not_bang(s)] != '!',
    decreases s.len(),
{
    if s.len() > 0 && s[0] == '!' {
        let t = s.subrange(1, s.len() as int);
        lemma_idx_not_bang_bounds(t);
        assert forall|j: int| 0 <= j < idx_not_bang(s) implies s[j] == '!' by {
            if j > 0 {
                assert(t[j - 1] == s[j]);
            }
        }
        if idx_not_bang(s) < s.len() {
            assert(t[idx_not_bang(t)] == s[idx_not_bang(s)]);
        }
    }
}

pub proof fn lemma_idx_non_cat_bounds(s: Seq<char>)
    ensures
        0 <= idx_non_cat(s) <= s.len(),
        forall|j: int| 0 <= j < idx_non_cat(s) ==> is_cat_char(s[j]),
        idx_non_cat(s) < s.len() ==> !is_cat_char(s[idx_non_cat(s)]),
    decreases s.len(),
{
    if s.len() > 0 && is_cat_char(s[0]) {
        let t = s.subrange(1, s.len() as int);
        lemma_idx_non_cat_bounds(t);
        assert forall|j: int| 0 <= j < idx_non_cat(s) implies is_cat_char(s[j]) by {
            if j > 0 {
                assert(t[j - 1] == s[j]);
            }
        }
        if idx_non_cat(s) < s.len() {
            assert(t[idx_non_cat(t)] == s[idx_non_cat(s)]);
        }
    }
}

/// A header line of a standard category is never taken for a plumbing
/// line or a blank one: the twelve standard tokens are disjoint from the
/// plumbing keywords, and the colon sits where no keyword allows one.
proof fn lemma_std_header_line_not_noise(ct: CommitTypeV, rest: Seq<char>)
    requires
        cat_is_standard(ct),
        rest.len() > 0,
        rest[0] == ':' || rest[0] == '(' || rest[0] == '!',
    ensures
        !crate::prune::is_noise(cat_token(ct) + rest),
{
    reveal_strlit("author");
    reveal_strlit("build");
    reveal_strlit("cd");
    reveal_strlit("change-id");
    reveal_strlit("chore");
    reveal_strlit("ci");
    reveal_strlit("co-authored-by");
    reveal_strlit("commit");
    reveal_strlit("committer");
    reveal_strlit("date");
    reveal_strlit("docs");
    reveal_strlit("feat");
    reveal_strlit("fix");
    reveal_strlit("parent");
    reveal_strlit("perf");
    reveal_strlit("refactor");
    reveal_strlit("revert");
    reveal_strlit("reviewed-by");
    reveal_strlit("style");
    reveal_strlit("test");
    reveal_strlit("tree");
    assert("author"@[0] == 'a');
    assert("author"@[1] == 'u');
    assert("build"@[0] == 'b');
    assert("build"@[1] == 'u');
    assert("cd"@[0] == 'c');
    assert("cd"@[1] == 'd');
    assert("change-id"@[0] == 'c');
    assert("change-id"@[1] == 'h');
    assert("chore"@[0] == 'c');
    assert("chore"@[1] == 'h');
    assert("ci"@[0] == 'c');
    assert("ci"@[1] == 'i');
    assert("co-authored-by"@[0] == 'c');
    assert("co-authored-by"@[1] == 'o');
    assert("commit"@[0] == 'c');
    assert("commit"@[1] == 'o');
    assert("committer"@[0] == 'c');
    assert("committer"@[1] == 'o');
    assert("date"@[0] == 'd');
    assert("date"@[1] == 'a');
    assert("docs"@[0] == 'd');
    assert("docs"@[1] == 'o');
    assert("feat"@[0] == 'f');
    assert("feat"@[1] == 'e');
    assert("fix"@[0] == 'f');
    assert("fix"@[1] == 'i');
    assert("parent"@[0] == 'p');
    assert("parent"@[1] == 'a');
    assert("perf"@[0] == 'p');
    assert("perf"@[1] == 'e');
    assert("refactor"@[0] == 'r');
    assert("refactor"@[1] == 'e');
    assert("revert"@[0] == 'r');
    assert("revert"@[1] == 'e');
    assert("reviewed-by"@[0] == 'r');
    assert("reviewed-by"@[1] == 'e');
    assert("style"@[0] == 's');
    assert("style"@[1] == 't');
    assert("test"@[0] == 't');
    assert("test"@[1] == 'e');
    assert("tree"@[0] == 't');
    assert("tree"@[1] == 'r');
    lemma_std_token(ct);
    lemma_plumbing_kw_chars();
    let title = cat_token(ct);
    let l = title + rest;
    let ll = lower(l);
    assert(l[0] == title[0]);
    assert(is_cat_char(l[0]));
    assert(!is_blank(l)) by {
        assert(!crate::text::is_space(l[0]));
    }
    assert(ll.len() == l.len());
    assert forall|i: int| 0 <= i < title.len() implies ll[i] == title[i] by {
        assert(ll[i] == crate::text::lower_char(l[i]));
        assert(l[i] == title[i]);
        assert(lower(title)[i] == crate::text::lower_char(title[i]));
    }
    assert(ll[title.len() as int] == crate::text::lower_char(l[title.len() as int]));
    assert(l[title.len() as int] == rest[0]);
    assert(ll[title.len() as int] == rest[0]);
    assert(!is_cat_char(ll[title.len() as int]));
    assert(ll.subrange(0, title.len() as int) =~= title);
    lemma_kw_no_match(ll, title.len() as int, "author"@);
    lemma_kw_no_match(ll, title.len() as int, "committer"@);
    lemma_kw_no_match(ll, title.len() as int, "tree"@);
    lemma_kw_no_match(ll, title.len() as int, "parent"@);
    lemma_kw_no_match(ll, title.len() as int, "date"@);
    lemma_kw_no_match(ll, title.len() as int, "commit"@);
    lemma_kw_no_match(ll, title.len() as int, "co-authored-by"@);
    lemma_kw_no_match(ll, title.len() as int, "change-id"@);
    lemma_kw_no_match(ll, title.len() as int, "reviewed-by"@);
    assert(!crate::prune::is_plumbing_line(l));
}


/// Case folding keeps token characters token characters.
proof fn lemma_lower_char_cat(c: char)
    requires
        is_cat_char(c),
    ensures
        is_cat_char(crate::text::lower_char(c)),
{
}

/// A header line whose token run is followed by a scope opener or a
/// breaking marker is never a plumbing line: the boundary character suits
/// no keyword.
proof fn lemma_marked_header_line_not_noise(tok: Seq<char>, rest: Seq<char>)
    requires
        tok.len() > 0,
        forall|i: int| 0 <= i < tok.len() ==> is_cat_char(#[trigger] tok[i]),
        rest.len() > 0,
        rest[0] == '(' || rest[0] == '!',
    ensures
        !crate::prune::is_noise(tok + rest),
{
    reveal_strlit("author");
    reveal_strlit("committer");
    reveal_strlit("tree");
    reveal_strlit("parent");
    reveal_strlit("date");
    reveal_strlit("commit");
    reveal_strlit("co-authored-by");
    reveal_strlit("change-id");
    reveal_strlit("reviewed-by");
    lemma_plumbing_kw_chars();
    let l = tok + rest;
    let ll = lower(l);
    assert(l[0] == tok[0]);
    assert(!is_blank(l)) by {
        assert(!crate::text::is_space(l[0]));
    }
    assert(ll.len() == l.len());
    assert forall|i: int| 0 <= i < tok.len() implies is_cat_char(ll[i]) by {
        assert(ll[i] == crate::text::lower_char(l[i]));
        assert(l[i] == tok[i]);
        lemma_lower_char_cat(tok[i]);
    }
    assert(ll[tok.len() as int] == crate::text::lower_char(l[tok.len() as int]));
    assert(l[tok.len() as int] == rest[0]);
    assert(ll[tok.len() as int] == rest[0]);
    assert(!is_cat_char(ll[tok.len() as int]));
    assert(!crate::prune::is_kw_sep(ll[tok.len() as int]));
    lemma_kw_no_match(ll, tok.len() as int, "author"@);
    lemma_kw_no_match(ll, tok.len() as int, "committer"@);
    lemma_kw_no_match(ll, tok.len() as int, "tree"@);
    lemma_kw_no_match(ll, tok.len() as int, "parent"@);
    lemma_kw_no_match(ll, tok.len() as int, "date"@);
    lemma_kw_no_match(ll, tok.len() as int, "commit"@);
    lemma_kw_no_match(ll, tok.len() as int, "co-authored-by"@);
    lemma_kw_no_match(ll, tok.len() as int, "change-id"@);
    lemma_kw_no_match(ll, tok.len() as int, "reviewed-by"@);
    assert(!crate::prune::is_plumbing_line(l));
}

/// A single non-noise line passes the preamble filter unchanged.
proof fn lemma_single_line_prune(line: Seq<char>)
    requires
        line.len() > 0,
        forall|j: int| 0 <= j < line.len() ==> line[j] != '\n',
        !crate::text::is_space(line[0]),
        !crate::text::is_space(line.last()),
        !crate::prune::is_noise(line),
    ensures
        pruned_lines(line) == seq![line],
{
    crate::text::lemma_idx_of_is(line, '\n', line.len() as int);
    assert(split_char(line, '\n') == seq![line]);
    let trimmed = split_char(line, '\n').map_values(|x: Seq<char>| crate::text::trim(x));
    assert(trimmed[0] == crate::text::trim(line));
    crate::text::lemma_trim_noop(line);
    assert(trimmed =~~= seq![line]);
    assert(crate::prune::drop_leading_noise(seq![line]) == seq![line]);
    assert(!is_blank(line)) by {
        assert(!crate::text::is_space(line[0]));
    }
    assert(crate::prune::drop_trailing_blank(seq![line]) == seq![line]);
}

/// The round trip of a single-line non-compliant record: its canonical
/// text is its subject, which is the surviving first line of the original
/// message and so parses back the same way.
proof fn lemma_noncompliant_roundtrip(m: Seq<char>)
    requires
        parse_spec(m) is Some,
        parse_spec(m)->Some_0.commit_type is NonCompliant,
        parse_spec(m)->Some_0.body is None,
        parse_spec(m)->Some_0.footer is None,
    ensures
        parse_spec(format_commit(parse_spec(m)->Some_0)) == parse_spec(m),
{
    let c = parse_spec(m)->Some_0;
    crate::prune::lemma_pruned_lines_props(m);
    let ls = pruned_lines(m);
    let head = ls[0];
    let ps = paras_of(ls.subrange(1, ls.len() as int));
    // a non-compliant record's subject is the first line itself
    assert(c.subject == head);
    assert(ps.len() == 0) by {
        if ps.len() == 1 {
            assert(c.body is Some || c.footer is Some);
        }
        if ps.len() >= 2 {
            assert(c.footer is Some);
        }
    }
    assert(format_commit(c) == head);
    // the line is not noise, so it survives the filter unchanged
    assert(crate::prune::line_shaped(head));
    assert(!is_blank(head) && head.len() > 0) by {
        assert(!crate::prune::is_noise(head));
    }
    lemma_single_line_prune(head);
    assert(pruned_lines(head) == seq![head]);
    assert(paras_of(seq![head].subrange(1, 1)) =~~= Seq::<Seq<char>>::empty());
    // the header decision repeats itself, and the rebuilt record is the same
    assert(c.prefix is None);
    assert(parse_spec(head) == Some(c)) by {
        match header_spec(head) {
            Some(h) => {
                assert(h.2 is Some && crate::category::token_is_standard(h.2->0));
                assert(build_record(CommitTypeV::NonCompliant, None, head, false, Seq::empty())
                    == c);
            },
            None => {
                assert(build_record(CommitTypeV::NonCompliant, None, head, false, Seq::empty())
                    == c);
            },
        }
    }
}

/// Parsing is a left inverse of the canonical text on single-line records:
/// for any message whose parse has no scope, no body, no footer and no
/// breaking marker, parsing the record's canonical text gives the record
/// back.
#[verifier::rlimit(100)]
pub proof fn lemma_parse_format_roundtrip(m: Seq<char>)
    requires
        parse_spec(m) is Some,
        parse_spec(m)->Some_0.body is None,
        parse_spec(m)->Some_0.footer is None,
    ensures
        parse_spec(format_commit(parse_spec(m)->Some_0)) == parse_spec(m),
{
    if parse_spec(m)->Some_0.commit_type is NonCompliant {
        lemma_noncompliant_roundtrip(m);
    } else {
        lemma_compliant_roundtrip(m);
    }
}


/// The header parser recovers exactly the fields that the canonical
/// header line was built from.
#[verifier::rlimit(100)]
proof fn lemma_canonical_header_reparse(
    title: Seq<char>,
    scope: Option<Seq<char>>,
    bang: bool,
    subject: Seq<char>,
)
    requires
        title.len() > 0,
        forall|i: int| 0 <= i < title.len() ==> is_cat_char(#[trigger] title[i]),
        (match scope {
            Some(sc) => sc.len() > 0 && forall|i: int|
                0 <= i < sc.len() ==> is_cat_char(#[trigger] sc[i]),
            None => true,
        }),
        subject.len() > 0,
    ensures
        header_spec(
            title + (match scope {
                Some(sc) => seq!['('] + sc + seq![')'],
                None => Seq::<char>::empty(),
            }) + (if bang {
                seq!['!']
            } else {
                Seq::<char>::empty()
            }) + seq![':', ' '] + subject,
        ) == Some((bang, title, scope, subject)),
{
    let scope_part = (match scope {
        Some(sc) => seq!['('] + sc + seq![')'],
        None => Seq::<char>::empty(),
    });
    let bang_part = (if bang {
        seq!['!']
    } else {
        Seq::<char>::empty()
    });
    let rest = scope_part + bang_part + seq![':', ' '] + subject;
    let line = title + rest;
    let tlen = title.len() as int;
    assert(line[0] == title[0] && is_cat_char(title[0]));
    lemma_idx_not_bang_is(line, 0);
    let whole = line.subrange(0, line.len() as int);
    assert(whole =~= line);
    assert(forall|i: int| 0 <= i < tlen ==> whole[i] == title[i]);
    assert(line[tlen] == rest[0]);
    assert(!is_cat_char(line[tlen]));
    lemma_idx_non_cat_is(line, tlen);
    assert(idx_non_cat(whole) == tlen);
    let ghost after2: int;
    let ghost scope2: Option<Seq<char>>;
    if scope is Some {
        let sc = scope->0;
        let sclen = sc.len() as int;
        assert(line[tlen] == '(');
        let from_sc = line.subrange(tlen + 1, line.len() as int);
        assert(forall|i: int| 0 <= i < sclen ==> from_sc[i] == sc[i]);
        assert(from_sc[sclen] == ')') by {
            assert(from_sc[sclen] == line[tlen + 1 + sclen]);
            assert(line[tlen + 1 + sclen] == scope_part[1 + sclen]);
        }
        lemma_idx_non_cat_is(from_sc, sclen);
        let sc_end2 = tlen + 1 + sclen;
        assert(line[sc_end2] == ')');
        after2 = sc_end2 + 1;
        scope2 = Some(line.subrange(tlen + 1, sc_end2));
        assert(line.subrange(tlen + 1, sc_end2) =~= sc);
    } else {
        assert(line[tlen] != '(');
        after2 = tlen;
        scope2 = None;
    }
    let tail2 = line.subrange(after2, line.len() as int);
    let ghost b22: int;
    if bang {
        assert(tail2[0] == '!');
        assert(tail2[1] == ':');
        lemma_idx_not_bang_is(tail2, 1);
        b22 = after2 + 1;
    } else {
        assert(tail2[0] == ':');
        lemma_idx_not_bang_is(tail2, 0);
        b22 = after2;
    }
    assert(line[b22] == ':' && line[b22 + 1] == ' ');
    assert(line.len() == b22 + 2 + subject.len());
    assert(header_spec(line) == Some(
        (bang, line.subrange(0, tlen), scope2, line.subrange(b22 + 2, line.len() as int)),
    ));
    assert(line.subrange(0, tlen) =~= title);
    assert(line.subrange(b22 + 2, line.len() as int) =~= subject);
    assert(line =~= title + scope_part + bang_part + seq![':', ' '] + subject);
}

/// The round trip of a single-line compliant record: the canonical text
/// re-emits the (canonical) category token, the scope, the breaking
/// marker and the subject on one line, and the header parser recovers
/// exactly those fields.
#[verifier::rlimit(100)]
proof fn lemma_compliant_roundtrip(m: Seq<char>)
    requires
        parse_spec(m) is Some,
        !(parse_spec(m)->Some_0.commit_type is NonCompliant),
        parse_spec(m)->Some_0.body is None,
        parse_spec(m)->Some_0.footer is None,
    ensures
        parse_spec(format_commit(parse_spec(m)->Some_0)) == parse_spec(m),
{
    let c = parse_spec(m)->Some_0;
    let ct = c.commit_type;
    let subject = c.subject;
    crate::prune::lemma_pruned_lines_props(m);
    let ls = pruned_lines(m);
    let head = ls[0];
    let ps = paras_of(ls.subrange(1, ls.len() as int));
    // the record came from the compliant branch, with no paragraphs
    assert(header_spec(head) is Some);
    let h = header_spec(head)->Some_0;
    assert(!(h.2 is Some && crate::category::token_is_standard(h.2->0)));
    assert(c == build_record(cat_of_token(h.1), h.2, h.3, h.0, ps));
    assert(ps.len() == 0) by {
        if ps.len() == 1 {
            assert(c.body is Some || c.footer is Some);
        }
        if ps.len() >= 2 {
            assert(c.footer is Some);
        }
    }
    assert(subject == h.3);
    let bang = h.0;
    assert(c.breaking_change == bang);
    assert(ct == cat_of_token(h.1));
    // reconstruct the scan of the original header line
    assert(crate::prune::line_shaped(head));
    let b1h = idx_not_bang(head);
    lemma_idx_not_bang_bounds(head);
    let sub1 = head.subrange(b1h, head.len() as int);
    lemma_idx_non_cat_bounds(sub1);
    let tokend = b1h + idx_non_cat(sub1);
    assert(tokend > b1h);
    let tok = head.subrange(b1h, tokend);
    assert(h.1 == tok);
    assert(forall|i: int| 0 <= i < tok.len() ==> is_cat_char(#[trigger] tok[i])) by {
        assert(forall|i: int| 0 <= i < tok.len() ==> tok[i] == sub1[i]);
    }
    let ghost after: int;
    if h.2 is Some {
        assert(tokend < head.len() && head[tokend] == '(');
        let sc_start = tokend + 1;
        lemma_idx_non_cat_bounds(head.subrange(sc_start, head.len() as int));
        let sc_end = sc_start + idx_non_cat(head.subrange(sc_start, head.len() as int));
        assert(sc_end < head.len() && head[sc_end] == ')' && sc_end > sc_start);
        assert(h.2->0 == head.subrange(sc_start, sc_end));
        after = sc_end + 1;
    } else {
        assert(!(tokend < head.len() && head[tokend] == '('));
        after = tokend;
    }
    lemma_idx_not_bang_bounds(head.subrange(after, head.len() as int));
    let b2h = after + idx_not_bang(head.subrange(after, head.len() as int));
    assert(h.3 == head.subrange(b2h + 2, head.len() as int));
    assert(b2h + 2 < head.len());
    assert(head[b2h] == ':' && head[b2h + 1] == ' ');
    assert(subject.len() > 0);
    assert(subject.last() == head.last());
    assert(!crate::text::is_space(subject.last()));
    assert forall|j: int| 0 <= j < subject.len() implies subject[j] != '\n' by {
        assert(subject[j] == head[b2h + 2 + j]);
    }
    // the scope, when present, is a non-empty run of token characters
    let scope_part = (match h.2 {
        Some(sc) => seq!['('] + sc + seq![')'],
        None => Seq::<char>::empty(),
    });
    if h.2 is Some {
        let sc = h.2->0;
        assert(sc.len() > 0);
        assert(forall|i: int| 0 <= i < sc.len() ==> is_cat_char(#[trigger] sc[i])) by {
            let from_sc = head.subrange(tokend + 1, head.len() as int);
            assert(forall|i: int| 0 <= i < sc.len() ==> sc[i] == from_sc[i]);
        }
        assert forall|j: int| 0 <= j < scope_part.len() implies scope_part[j] != '\n'
            && !crate::prune::is_kw_sep(scope_part[j]) by {
            if 0 < j < scope_part.len() - 1 {
                assert(scope_part[j] == sc[j - 1]);
            }
        }
    }
    let bang_part = (if bang {
        seq!['!']
    } else {
        Seq::<char>::empty()
    });
    // the canonical title: the original token for a custom category, the
    // canonical (lower-case) token for a standard one
    let title = cat_token(ct);
    if ct is Custom {
        assert(title == tok);
    } else {
        assert(cat_is_standard(ct));
        lemma_std_token(ct);
    }
    assert(title.len() > 0);
    assert(forall|i: int| 0 <= i < title.len() ==> is_cat_char(#[trigger] title[i]));
    let rest = scope_part + bang_part + seq![':', ' '] + subject;
    let line = title + rest;
    assert(format_commit(c) == line) by {
        match h.2 {
            Some(sc) => {
                if bang {
                    assert(line =~= title + (seq!['('] + sc + seq![')']) + seq!['!'] + seq![
                        ':',
                        ' ',
                    ] + subject);
                } else {
                    assert(line =~= title + (seq!['('] + sc + seq![')']) + seq![':', ' ']
                        + subject);
                }
            },
            None => {
                if bang {
                    assert(line =~= title + seq!['!'] + seq![':', ' '] + subject);
                } else {
                    assert(line =~= title + seq![':', ' '] + subject);
                }
            },
        }
    }
    // the canonical line survives the filter untouched
    assert(rest[0] == ':' || rest[0] == '(' || rest[0] == '!');
    if ct is Custom {
        if !bang && h.2 is None {
            assert(b1h == 0 && b2h == after);
            assert(line =~= head);
            assert(!crate::prune::is_noise(line));
        } else {
            lemma_marked_header_line_not_noise(title, rest);
        }
    } else {
        lemma_std_header_line_not_noise(ct, rest);
    }
    assert(forall|j: int| 0 <= j < line.len() ==> line[j] != '\n');
    assert(line.len() > 0 && !crate::text::is_space(line[0]) && !crate::text::is_space(
        line.last(),
    )) by {
        assert(line[0] == title[0]);
        assert(line.last() == subject.last());
    }
    lemma_single_line_prune(line);
    assert(pruned_lines(line) == seq![line]);
    lemma_canonical_header_reparse(title, h.2, bang, subject);
    if h.2 is Some {
        assert(!crate::category::token_is_standard(h.2->0));
    }
    // and the rebuilt record is the same
    assert(paras_of(seq![line].subrange(1, 1)) =~~= Seq::<Seq<char>>::empty());
    assert(cat_of_token(title) == ct) by {
        if ct is Custom {
            assert(cat_of_token(tok) == ct);
        }
    }
    assert(c.prefix is None);
    assert(parse_spec(line) == Some(build_record(ct, h.2, subject, bang, Seq::empty())));
    assert(build_record(ct, h.2, subject, bang, Seq::empty()) == c);
}


} // verus!
