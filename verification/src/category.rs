//! Commit categories: the closed set of standard conventional-commit types,
//! plus a custom arm for anything else, a non-compliant marker for messages
//! that do not parse, and an unknown default.

use vstd::prelude::*;

use crate::text::chars_eq_str;
use crate::text::lower;
use crate::text::lower_chars;
use crate::text::str_to_chars;

verus! {

#[derive(Debug, PartialEq, Eq, Hash)]
pub enum CommitType {
    /// A new feature, e.g. `feat: add support for dark mode`.
    Feat,
    /// A bug fix, e.g. `fix: resolve issue with login form`.
    Fix,
    /// A performance improvement.
    Perf,
    /// A refactoring with no user-facing change.
    Refactor,
    /// A revert of an earlier commit.
    Revert,
    /// A code-style change.
    Style,
    /// Added or updated tests.
    Test,
    /// A build change, e.g. updated dependencies.
    Build,
    /// A task that is not user-facing.
    Chore,
    /// Continuous-integration work.
    Ci,
    /// Deployment work.
    Cd,
    /// Documentation work.
    Docs,
    /// A category outside the standard list, kept verbatim.
    Custom(String),
    /// A message that does not follow the conventional form.
    NonCompliant,
    /// The default category; only meaningful before classification.
    Unknown,
}

/// Ghost image of a category: `Custom` carries its text as a sequence.
pub enum CommitTypeV {
    Feat,
    Fix,
    Perf,
    Refactor,
    Revert,
    Style,
    Test,
    Build,
    Chore,
    Ci,
    Cd,
    Docs,
    Custom(Seq<char>),
    NonCompliant,
    Unknown,
}

impl View for CommitType {
    type V = CommitTypeV;

    open spec fn view(&self) -> CommitTypeV {
        match self {
            CommitType::Feat => CommitTypeV::Feat,
            CommitType::Fix => CommitTypeV::Fix,
            CommitType::Perf => CommitTypeV::Perf,
            CommitType::Refactor => CommitTypeV::Refactor,
            CommitType::Revert => CommitTypeV::Revert,
            CommitType::Style => CommitTypeV::Style,
            CommitType::Test => CommitTypeV::Test,
            CommitType::Build => CommitTypeV::Build,
            CommitType::Chore => CommitTypeV::Chore,
            CommitType::Ci => CommitTypeV::Ci,
            CommitType::Cd => CommitTypeV::Cd,
            CommitType::Docs => CommitTypeV::Docs,
            CommitType::Custom(s) => CommitTypeV::Custom(s@),
            CommitType::NonCompliant => CommitTypeV::NonCompliant,
            CommitType::Unknown => CommitTypeV::Unknown,
        }
    }
}

// ---------------------------------------------------------------------------
// Textual forms
// ---------------------------------------------------------------------------

/// The stable textual form of a category.
pub open spec fn cat_token(c: CommitTypeV) -> Seq<char> {
    match c {
        CommitTypeV::Feat => "feat"@,
        CommitTypeV::Fix => "fix"@,
        CommitTypeV::Perf => "perf"@,
        CommitTypeV::Refactor => "refactor"@,
        CommitTypeV::Revert => "revert"@,
        CommitTypeV::Style => "style"@,
        CommitTypeV::Test => "test"@,
        CommitTypeV::Build => "build"@,
        CommitTypeV::Chore => "chore"@,
        CommitTypeV::Ci => "ci"@,
        CommitTypeV::Cd => "cd"@,
        CommitTypeV::Docs => "docs"@,
        CommitTypeV::Custom(s) => s,
        CommitTypeV::NonCompliant => "NonCompliant"@,
        CommitTypeV::Unknown => "Unknown"@,
    }
}

/// The heading a category receives in release notes.
pub open spec fn cat_label(c: CommitTypeV) -> Seq<char> {
    match c {
        CommitTypeV::Feat => "Features"@,
        CommitTypeV::Fix => "Fixes"@,
        CommitTypeV::Perf => "Performance"@,
        CommitTypeV::Refactor => "Refactor"@,
        CommitTypeV::Revert => "Revert"@,
        CommitTypeV::Style => "Style"@,
        CommitTypeV::Test => "Test"@,
        CommitTypeV::Build => "Build"@,
        CommitTypeV::Chore => "Chore"@,
        CommitTypeV::Ci => "Continuous Integration"@,
        CommitTypeV::Cd => "Deployment"@,
        CommitTypeV::Docs => "Documentation"@,
        CommitTypeV::Custom(s) => s,
        CommitTypeV::NonCompliant => "Non Compliant"@,
        CommitTypeV::Unknown => "Unknown"@,
    }
}

/// Category names and their aliases, matched on the lower-cased text;
/// anything else is custom, kept verbatim.
pub open spec fn cat_of_token(s: Seq<char>) -> CommitTypeV {
    let l = lower(s);
    if l == "build"@ {
        CommitTypeV::Build
    } else if l == "chore"@ {
        CommitTypeV::Chore
    } else if l == "ci"@ || l == "continuous integration"@ {
        CommitTypeV::Ci
    } else if l == "cd"@ || l == "deploy"@ {
        CommitTypeV::Cd
    } else if l == "doc"@ || l == "docs"@ || l == "documentation"@ {
        CommitTypeV::Docs
    } else if l == "feat"@ || l == "feature"@ || l == "features"@ {
        CommitTypeV::Feat
    } else if l == "fix"@ || l == "fixes"@ {
        CommitTypeV::Fix
    } else if l == "perf"@ || l == "performance"@ {
        CommitTypeV::Perf
    } else if l == "refactor"@ {
        CommitTypeV::Refactor
    } else if l == "revert"@ {
        CommitTypeV::Revert
    } else if l == "style"@ {
        CommitTypeV::Style
    } else if l == "test"@ || l == "tests"@ {
        CommitTypeV::Test
    } else {
        CommitTypeV::Custom(s)
    }
}

/// Does the token name a standard category (by any of its aliases)?
pub open spec fn token_is_standard(s: Seq<char>) -> bool {
    !(cat_of_token(s) is Custom)
}

// ---------------------------------------------------------------------------
// Order among categories: declaration order, custom names lexicographic.
// ---------------------------------------------------------------------------

pub open spec fn cat_rank(c: CommitTypeV) -> int {
    match c {
        CommitTypeV::Feat => 0,
        CommitTypeV::Fix => 1,
        CommitTypeV::Perf => 2,
        CommitTypeV::Refactor => 3,
        CommitTypeV::Revert => 4,
        CommitTypeV::Style => 5,
        CommitTypeV::Test => 6,
        CommitTypeV::Build => 7,
        CommitTypeV::Chore => 8,
        CommitTypeV::Ci => 9,
        CommitTypeV::Cd => 10,
        CommitTypeV::Docs => 11,
        CommitTypeV::Custom(_) => 12,
        CommitTypeV::NonCompliant => 13,
        CommitTypeV::Unknown => 14,
    }
}

/// Strict lexicographic order on character sequences.
pub open spec fn seq_lt(a: Seq<char>, b: Seq<char>) -> bool
    decreases a.len(),
{
    if b.len() == 0 {
        false
    } else if a.len() == 0 {
        true
    } else if a[0] != b[0] {
        a[0] < b[0]
    } else {
        seq_lt(a.subrange(1, a.len() as int), b.subrange(1, b.len() as int))
    }
}

/// Strict order among categories: declared order first, then the custom
/// name lexicographically.
pub open spec fn cat_lt(a: CommitTypeV, b: CommitTypeV) -> bool {
    if cat_rank(a) != cat_rank(b) {
        cat_rank(a) < cat_rank(b)
    } else {
        match (a, b) {
            (CommitTypeV::Custom(x), CommitTypeV::Custom(y)) => seq_lt(x, y),
            _ => false,
        }
    }
}

/// Lexicographic comparison of two character vectors.
pub fn lex_lt_chars(a: &Vec<char>, b: &Vec<char>) -> (r: bool)
    ensures
        r == seq_lt(a@, b@),
{
    let alen = a.len();
    let blen = b.len();
    let mut i: usize = 0;
    proof {
        assert(a@.subrange(0, a@.len() as int) =~= a@);
        assert(b@.subrange(0, b@.len() as int) =~= b@);
    }
    loop
        invariant
            alen == a@.len(),
            blen == b@.len(),
            i <= alen,
            i <= blen,
            seq_lt(a@, b@) == seq_lt(
                a@.subrange(i as int, a@.len() as int),
                b@.subrange(i as int, b@.len() as int),
            ),
        decreases alen - i,
    {
        let ghost at = a@.subrange(i as int, a@.len() as int);
        let ghost bt = b@.subrange(i as int, b@.len() as int);
        if i == blen {
            proof {
                assert(bt.len() == 0);
                assert(!seq_lt(at, bt));
            }
            return false;
        }
        if i == alen {
            proof {
                assert(at.len() == 0 && bt.len() > 0);
                assert(seq_lt(at, bt));
            }
            return true;
        }
        if a[i] != b[i] {
            proof {
                assert(at[0] == a@[i as int] && bt[0] == b@[i as int]);
                assert(seq_lt(at, bt) == (a@[i as int] < b@[i as int]));
            }
            return a[i] < b[i];
        }
        proof {
            assert(at[0] == bt[0]);
            assert(at.subrange(1, at.len() as int) =~= a@.subrange(i + 1 as int, a@.len() as int));
            assert(bt.subrange(1, bt.len() as int) =~= b@.subrange(i + 1 as int, b@.len() as int));
        }
        i = i + 1;
    }
}

impl CommitType {
    /// The stable textual form of the category.
    pub fn as_str(&self) -> (r: &str)
        ensures
            r@ == cat_token(self@),
    {
        match self {
            CommitType::Feat => "feat",
            CommitType::Fix => "fix",
            CommitType::Perf => "perf",
            CommitType::Refactor => "refactor",
            CommitType::Revert => "revert",
            CommitType::Style => "style",
            CommitType::Test => "test",
            CommitType::Build => "build",
            CommitType::Chore => "chore",
            CommitType::Ci => "ci",
            CommitType::Cd => "cd",
            CommitType::Docs => "docs",
            CommitType::Custom(value) => value.as_str(),
            CommitType::NonCompliant => "NonCompliant",
            CommitType::Unknown => "Unknown",
        }
    }

    /// The heading the category receives in release notes.
    pub fn as_release_note(&self) -> (r: &str)
        ensures
            r@ == cat_label(self@),
    {
        match self {
            CommitType::Feat => "Features",
            CommitType::Fix => "Fixes",
            CommitType::Perf => "Performance",
            CommitType::Refactor => "Refactor",
            CommitType::Revert => "Revert",
            CommitType::Style => "Style",
            CommitType::Test => "Test",
            CommitType::Build => "Build",
            CommitType::Chore => "Chore",
            CommitType::Ci => "Continuous Integration",
            CommitType::Cd => "Deployment",
            CommitType::Docs => "Documentation",
            CommitType::Custom(value) => value.as_str(),
            CommitType::NonCompliant => "Non Compliant",
            CommitType::Unknown => "Unknown",
        }
    }

    /// Classifies a token (already decoded into characters).
    pub fn parse_token(v: &Vec<char>) -> (r: CommitType)
        ensures
            r@ == cat_of_token(v@),
    {
        let l = lower_chars(v);
        if chars_eq_str(&l, "build") {
            CommitType::Build
        } else if chars_eq_str(&l, "chore") {
            CommitType::Chore
        } else if chars_eq_str(&l, "ci") || chars_eq_str(&l, "continuous integration") {
            CommitType::Ci
        } else if chars_eq_str(&l, "cd") || chars_eq_str(&l, "deploy") {
            CommitType::Cd
        } else if chars_eq_str(&l, "doc") || chars_eq_str(&l, "docs") || chars_eq_str(
            &l,
            "documentation",
        ) {
            CommitType::Docs
        } else if chars_eq_str(&l, "feat") || chars_eq_str(&l, "feature") || chars_eq_str(
            &l,
            "features",
        ) {
            CommitType::Feat
        } else if chars_eq_str(&l, "fix") || chars_eq_str(&l, "fixes") {
            CommitType::Fix
        } else if chars_eq_str(&l, "perf") || chars_eq_str(&l, "performance") {
            CommitType::Perf
        } else if chars_eq_str(&l, "refactor") {
            CommitType::Refactor
        } else if chars_eq_str(&l, "revert") {
            CommitType::Revert
        } else if chars_eq_str(&l, "style") {
            CommitType::Style
        } else if chars_eq_str(&l, "test") || chars_eq_str(&l, "tests") {
            CommitType::Test
        } else {
            CommitType::Custom(crate::text::chars_to_string(v))
        }
    }

    /// Classifies a name; never fails (an unrecognized name is custom).
    pub fn from_name(s: &str) -> (r: CommitType)
        ensures
            r@ == cat_of_token(s@),
    {
        let chars = str_to_chars(s);
        Self::parse_token(&chars)
    }

    /// Equality of categories, custom names compared by their text.
    pub fn same(&self, other: &CommitType) -> (r: bool)
        ensures
            r == (self@ == other@),
    {
        match (self, other) {
            (CommitType::Feat, CommitType::Feat) => true,
            (CommitType::Fix, CommitType::Fix) => true,
            (CommitType::Perf, CommitType::Perf) => true,
            (CommitType::Refactor, CommitType::Refactor) => true,
            (CommitType::Revert, CommitType::Revert) => true,
            (CommitType::Style, CommitType::Style) => true,
            (CommitType::Test, CommitType::Test) => true,
            (CommitType::Build, CommitType::Build) => true,
            (CommitType::Chore, CommitType::Chore) => true,
            (CommitType::Ci, CommitType::Ci) => true,
            (CommitType::Cd, CommitType::Cd) => true,
            (CommitType::Docs, CommitType::Docs) => true,
            (CommitType::Custom(a), CommitType::Custom(b)) => a.eq(b),
            (CommitType::NonCompliant, CommitType::NonCompliant) => true,
            (CommitType::Unknown, CommitType::Unknown) => true,
            _ => false,
        }
    }

    /// Strict order among categories: declared order, then custom names.
    pub fn lt(&self, other: &CommitType) -> (r: bool)
        ensures
            r == cat_lt(self@, other@),
    {
        let ra = self.rank();
        let rb = other.rank();
        if ra != rb {
            ra < rb
        } else {
            match (self, other) {
                (CommitType::Custom(a), CommitType::Custom(b)) => {
                    let av = str_to_chars(a.as_str());
                    let bv = str_to_chars(b.as_str());
                    lex_lt_chars(&av, &bv)
                },
                _ => false,
            }
        }
    }

    /// Declared position of the category.
    pub fn rank(&self) -> (r: u8)
        ensures
            r as int == cat_rank(self@),
    {
        match self {
            CommitType::Feat => 0,
            CommitType::Fix => 1,
            CommitType::Perf => 2,
            CommitType::Refactor => 3,
            CommitType::Revert => 4,
            CommitType::Style => 5,
            CommitType::Test => 6,
            CommitType::Build => 7,
            CommitType::Chore => 8,
            CommitType::Ci => 9,
            CommitType::Cd => 10,
            CommitType::Docs => 11,
            CommitType::Custom(_) => 12,
            CommitType::NonCompliant => 13,
            CommitType::Unknown => 14,
        }
    }
}

impl Clone for CommitType {
    fn clone(&self) -> (r: Self)
        ensures
            r == *self,
    {
        match self {
            CommitType::Feat => CommitType::Feat,
            CommitType::Fix => CommitType::Fix,
            CommitType::Perf => CommitType::Perf,
            CommitType::Refactor => CommitType::Refactor,
            CommitType::Revert => CommitType::Revert,
            CommitType::Style => CommitType::Style,
            CommitType::Test => CommitType::Test,
            CommitType::Build => CommitType::Build,
            CommitType::Chore => CommitType::Chore,
            CommitType::Ci => CommitType::Ci,
            CommitType::Cd => CommitType::Cd,
            CommitType::Docs => CommitType::Docs,
            CommitType::Custom(s) => CommitType::Custom(s.clone()),
            CommitType::NonCompliant => CommitType::NonCompliant,
            CommitType::Unknown => CommitType::Unknown,
        }
    }
}

impl Default for CommitType {
    fn default() -> (r: Self)
        ensures
            r@ == CommitTypeV::Unknown,
    {
        CommitType::Unknown
    }
}

/// `seq_lt` is a strict total order: exactly one of equality and the two
/// orders holds for any pair.
pub proof fn lemma_seq_lt_trichotomy(a: Seq<char>, b: Seq<char>)
    ensures
        a == b || seq_lt(a, b) || seq_lt(b, a),
    decreases a.len(),
{
    if a.len() == 0 && b.len() == 0 {
        assert(a =~= b);
    } else if a.len() > 0 && b.len() > 0 {
        if a[0] == b[0] {
            let at = a.subrange(1, a.len() as int);
            let bt = b.subrange(1, b.len() as int);
            lemma_seq_lt_trichotomy(at, bt);
            if at == bt {
                assert(a.len() == b.len());
                assert forall|i: int| 0 <= i < a.len() implies a[i] == b[i] by {
                    if i >= 1 {
                        assert(a[i] == at[i - 1]);
                        assert(b[i] == bt[i - 1]);
                    }
                }
                assert(a =~= b);
            }
        }
    }
}

pub proof fn lemma_seq_lt_asymmetric(a: Seq<char>, b: Seq<char>)
    requires
        seq_lt(a, b),
    ensures
        !seq_lt(b, a),
        a != b,
    decreases a.len(),
{
    if a.len() > 0 && b.len() > 0 && a[0] == b[0] {
        let at = a.subrange(1, a.len() as int);
        let bt = b.subrange(1, b.len() as int);
        lemma_seq_lt_asymmetric(at, bt);
        if a == b {
            assert(at =~= bt);
        }
    }
}

pub proof fn lemma_seq_lt_transitive(a: Seq<char>, b: Seq<char>, c: Seq<char>)
    requires
        seq_lt(a, b),
        seq_lt(b, c),
    ensures
        seq_lt(a, c),
    decreases a.len(),
{
    if a.len() > 0 && b.len() > 0 && c.len() > 0 {
        if a[0] == b[0] && b[0] == c[0] {
            lemma_seq_lt_transitive(
                a.subrange(1, a.len() as int),
                b.subrange(1, b.len() as int),
                c.subrange(1, c.len() as int),
            );
        }
    }
}

/// The category order is a strict total order as well.
pub proof fn lemma_cat_lt_trichotomy(a: CommitTypeV, b: CommitTypeV)
    ensures
        a == b || cat_lt(a, b) || cat_lt(b, a),
{
    if cat_rank(a) == cat_rank(b) {
        match (a, b) {
            (CommitTypeV::Custom(x), CommitTypeV::Custom(y)) => {
                lemma_seq_lt_trichotomy(x, y);
            },
            _ => {},
        }
    }
}

pub proof fn lemma_cat_lt_asymmetric(a: CommitTypeV, b: CommitTypeV)
    requires
        cat_lt(a, b),
    ensures
        !cat_lt(b, a),
        a != b,
{
    if cat_rank(a) == cat_rank(b) {
        match (a, b) {
            (CommitTypeV::Custom(x), CommitTypeV::Custom(y)) => {
                lemma_seq_lt_asymmetric(x, y);
            },
            _ => {},
        }
    }
}

pub proof fn lemma_cat_lt_transitive(a: CommitTypeV, b: CommitTypeV, c: CommitTypeV)
    requires
        cat_lt(a, b),
        cat_lt(b, c),
    ensures
        cat_lt(a, c),
{
    if cat_rank(a) == cat_rank(b) && cat_rank(b) == cat_rank(c) {
        match (a, b, c) {
            (CommitTypeV::Custom(x), CommitTypeV::Custom(y), CommitTypeV::Custom(z)) => {
                lemma_seq_lt_transitive(x, y, z);
            },
            _ => {},
        }
    }
}

} // verus!
