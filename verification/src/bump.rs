//! Bump strength: the ordered category that decides how a version moves.
//! The order `Notset < NoBump < Patch < Minor < Major` is load-bearing:
//! commits are combined by taking the maximum.

use vstd::prelude::*;

use crate::text::chars_eq_str;
use crate::text::lower;
use crate::text::lower_chars;
use crate::text::str_to_chars;
use crate::version::bump_fits;
use crate::version::bump_spec;
use crate::version::SimpleVersion;

verus! {

#[derive(Debug, PartialEq, Eq, Structural, PartialOrd, Ord, Clone, Copy, Hash)]
pub enum BumpRule {
    /// No opinion yet; folds into no change.
    Notset,
    /// Explicitly do not bump the version.
    NoBump,
    /// Bump the patch component.
    Patch,
    /// Bump the minor component.
    Minor,
    /// Bump the major component.
    Major,
}

/// Position of a bump kind in the strength order.
pub open spec fn bump_rank(b: BumpRule) -> int {
    match b {
        BumpRule::Notset => 0,
        BumpRule::NoBump => 1,
        BumpRule::Patch => 2,
        BumpRule::Minor => 3,
        BumpRule::Major => 4,
    }
}

/// The stronger of two bump kinds.
pub open spec fn bump_max(a: BumpRule, b: BumpRule) -> BumpRule {
    if bump_rank(a) >= bump_rank(b) {
        a
    } else {
        b
    }
}

/// Table of lower-case bump names and aliases.
pub open spec fn bump_of_lower_name(l: Seq<char>) -> Option<BumpRule> {
    if l == "major"@ || l == "3"@ || l == "+++"@ {
        Some(BumpRule::Major)
    } else if l == "minor"@ || l == "2"@ || l == "++"@ {
        Some(BumpRule::Minor)
    } else if l == "bump"@ || l == "patch"@ || l == "p"@ || l == "y"@ || l == "+"@ || l == "yes"@
        || l == "true"@ || l == "t"@ || l == "e"@ || l == "enable"@ || l == "on"@ || l == "1"@ {
        Some(BumpRule::Patch)
    } else if l == "nobump"@ || l == "none"@ || l == "n"@ || l == "no"@ || l == "-"@
        || l == "false"@ || l == "f"@ || l == "d"@ || l == "disable"@ || l == "off"@ || l == "0"@ {
        Some(BumpRule::NoBump)
    } else {
        None
    }
}

/// Name-to-kind resolution. `M` and `m` conflict once case is folded, so
/// they are resolved case-sensitively first; every other name and alias is
/// matched on its lower-case form.
pub open spec fn bump_of_name(s: Seq<char>) -> Option<BumpRule> {
    if s == "M"@ {
        Some(BumpRule::Major)
    } else if s == "m"@ {
        Some(BumpRule::Minor)
    } else {
        bump_of_lower_name(lower(s))
    }
}

pub open spec fn bump_name(b: BumpRule) -> Seq<char> {
    match b {
        BumpRule::Major => "major"@,
        BumpRule::Minor => "minor"@,
        BumpRule::Patch => "patch"@,
        BumpRule::NoBump => "none"@,
        BumpRule::Notset => "notset"@,
    }
}

#[derive(Debug, Clone, PartialEq, Eq)]
pub enum BumpRuleParse {
    /// The text that failed, and why.
    ParseError(String, String),
}

impl View for BumpRuleParse {
    type V = (Seq<char>, Seq<char>);

    open spec fn view(&self) -> (Seq<char>, Seq<char>) {
        match self {
            BumpRuleParse::ParseError(s, why) => (s@, why@),
        }
    }
}

impl BumpRuleParse {
    /// The human-readable diagnostic for this error.
    pub fn message(&self) -> (r: String)
        ensures
            r@ == "Error parsing bump rule: "@ + self@.0 + ".  "@ + self@.1,
    {
        match self {
            BumpRuleParse::ParseError(what, why) => {
                let mut s = String::from_str("Error parsing bump rule: ");
                s.append(what.as_str());
                s.append(".  ");
                s.append(why.as_str());
                s
            },
        }
    }
}

impl BumpRule {
    /// The version after applying this bump kind.
    pub fn bump_version(&self, version: &SimpleVersion) -> (r: SimpleVersion)
        requires
            bump_fits(*version, *self),
        ensures
            r == bump_spec(*version, *self),
    {
        version.bump(*self)
    }

    /// The stronger of `self` and `other`.
    pub fn max_with(self, other: BumpRule) -> (r: BumpRule)
        ensures
            r == bump_max(self, other),
    {
        if self.rank() >= other.rank() {
            self
        } else {
            other
        }
    }

    /// Strength order as a number.
    pub fn rank(self) -> (r: u8)
        ensures
            r as int == bump_rank(self),
    {
        match self {
            BumpRule::Notset => 0,
            BumpRule::NoBump => 1,
            BumpRule::Patch => 2,
            BumpRule::Minor => 3,
            BumpRule::Major => 4,
        }
    }

    /// Canonical name of the bump kind.
    pub fn as_str(&self) -> (r: &'static str)
        ensures
            r@ == bump_name(*self),
    {
        match self {
            BumpRule::Major => "major",
            BumpRule::Minor => "minor",
            BumpRule::Patch => "patch",
            BumpRule::NoBump => "none",
            BumpRule::Notset => "notset",
        }
    }

    /// Strict name resolution: an unknown name is an error.
    pub fn parse(s: &str) -> (r: Result<BumpRule, BumpRuleParse>)
        ensures
            (match bump_of_name(s@) {
                Some(b) => r == Ok::<BumpRule, BumpRuleParse>(b),
                None => r is Err && r->Err_0@ == (s@, "Did not match"@),
            }),
    {
        let chars = str_to_chars(s);
        match Self::parse_chars(&chars) {
            Some(b) => Ok(b),
            None => Err(BumpRuleParse::ParseError(s.to_owned(), String::from_str("Did not match"))),
        }
    }

    /// Lenient name resolution: an unknown name means no opinion.
    pub fn from_name(s: &str) -> (r: BumpRule)
        ensures
            r == (match bump_of_name(s@) {
                Some(b) => b,
                None => BumpRule::Notset,
            }),
    {
        let chars = str_to_chars(s);
        match Self::parse_chars(&chars) {
            Some(b) => b,
            None => BumpRule::Notset,
        }
    }

    /// Name resolution over decoded characters.
    pub fn parse_chars(v: &Vec<char>) -> (r: Option<BumpRule>)
        ensures
            r == bump_of_name(v@),
    {
        if chars_eq_str(v, "M") {
            return Some(BumpRule::Major);
        }
        if chars_eq_str(v, "m") {
            return Some(BumpRule::Minor);
        }
        let l = lower_chars(v);
        if chars_eq_str(&l, "major") || chars_eq_str(&l, "3") || chars_eq_str(&l, "+++") {
            Some(BumpRule::Major)
        } else if chars_eq_str(&l, "minor") || chars_eq_str(&l, "2") || chars_eq_str(&l, "++") {
            Some(BumpRule::Minor)
        } else if chars_eq_str(&l, "bump") || chars_eq_str(&l, "patch") || chars_eq_str(&l, "p")
            || chars_eq_str(&l, "y") || chars_eq_str(&l, "+") || chars_eq_str(&l, "yes")
            || chars_eq_str(&l, "true") || chars_eq_str(&l, "t") || chars_eq_str(&l, "e")
            || chars_eq_str(&l, "enable") || chars_eq_str(&l, "on") || chars_eq_str(&l, "1") {
            Some(BumpRule::Patch)
        } else if chars_eq_str(&l, "nobump") || chars_eq_str(&l, "none") || chars_eq_str(&l, "n")
            || chars_eq_str(&l, "no") || chars_eq_str(&l, "-") || chars_eq_str(&l, "false")
            || chars_eq_str(&l, "f") || chars_eq_str(&l, "d") || chars_eq_str(&l, "disable")
            || chars_eq_str(&l, "off") || chars_eq_str(&l, "0") {
            Some(BumpRule::NoBump)
        } else {
            None
        }
    }
}

impl Default for BumpRule {
    fn default() -> (r: Self)
        ensures
            r == BumpRule::Notset,
    {
        BumpRule::Notset
    }
}

/// The maximum of bump kinds is associative and commutative, which is what
/// makes the collector's running maximum independent of grouping.
pub proof fn lemma_bump_max_algebra(a: BumpRule, b: BumpRule, c: BumpRule)
    ensures
        bump_max(a, b) == bump_max(b, a),
        bump_max(bump_max(a, b), c) == bump_max(a, bump_max(b, c)),
        bump_max(a, BumpRule::Notset) == a,
{
}

} // verus!
