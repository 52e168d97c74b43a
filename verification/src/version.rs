//! The semver-like version triple: total order, bump operation, and the
//! textual forms used by project manifests.

use vstd::prelude::*;

use crate::bump::BumpRule;
use crate::text::chars_to_string;
use crate::text::dec_chars;
use crate::text::split_char;
use crate::text::split_chars;
use crate::text::str_to_chars;
use crate::text::u64_to_chars;

verus! {

pub type Ver = u64;

#[derive(Debug, PartialEq, Eq, Structural, PartialOrd, Ord, Clone, Copy, Hash)]
pub struct SimpleVersion {
    pub major: Ver,
    pub minor: Ver,
    pub patch: Ver,
}

#[derive(Debug, Clone, PartialEq, Eq)]
pub enum VersionError {
    /// The whole string has the wrong shape (e.g. too many components).
    InvalidVersionString(String),
    /// A single component is not an unsigned number.
    InvalidVersionPart(String),
}

pub enum VersionErrorV {
    InvalidVersionString(Seq<char>),
    InvalidVersionPart(Seq<char>),
}

impl View for VersionError {
    type V = VersionErrorV;

    open spec fn view(&self) -> VersionErrorV {
        match self {
            VersionError::InvalidVersionString(s) => VersionErrorV::InvalidVersionString(s@),
            VersionError::InvalidVersionPart(s) => VersionErrorV::InvalidVersionPart(s@),
        }
    }
}

// ---------------------------------------------------------------------------
// Order and bump
// ---------------------------------------------------------------------------

/// Lexicographic order on (major, minor, patch).
pub open spec fn version_lt(a: SimpleVersion, b: SimpleVersion) -> bool {
    a.major < b.major || (a.major == b.major && (a.minor < b.minor || (a.minor == b.minor
        && a.patch < b.patch)))
}

pub open spec fn version_le(a: SimpleVersion, b: SimpleVersion) -> bool {
    version_lt(a, b) || a == b
}

/// How a version moves under a bump kind: a major bump zeroes minor and
/// patch, a minor bump zeroes patch, a patch bump increments patch, and
/// the two bottom kinds leave the version unchanged.
pub open spec fn bump_spec(v: SimpleVersion, rule: BumpRule) -> SimpleVersion {
    match rule {
        BumpRule::Major => SimpleVersion { major: (v.major + 1) as u64, minor: 0, patch: 0 },
        BumpRule::Minor => SimpleVersion { major: v.major, minor: (v.minor + 1) as u64, patch: 0 },
        BumpRule::Patch => SimpleVersion {
            major: v.major,
            minor: v.minor,
            patch: (v.patch + 1) as u64,
        },
        BumpRule::NoBump => v,
        BumpRule::Notset => v,
    }
}

/// The machine limit under which a bump cannot overflow its component.
pub open spec fn bump_fits(v: SimpleVersion, rule: BumpRule) -> bool {
    match rule {
        BumpRule::Major => v.major < u64::MAX,
        BumpRule::Minor => v.minor < u64::MAX,
        BumpRule::Patch => v.patch < u64::MAX,
        BumpRule::NoBump => true,
        BumpRule::Notset => true,
    }
}

// ---------------------------------------------------------------------------
// Parsing and rendering
// ---------------------------------------------------------------------------

pub open spec fn is_digit(c: char) -> bool {
    '0' <= c && c <= '9'
}

pub open spec fn all_digits(s: Seq<char>) -> bool {
    s.len() > 0 && forall|i: int| 0 <= i < s.len() ==> is_digit(s[i])
}

pub open spec fn digits_val(s: Seq<char>) -> int
    decreases s.len(),
{
    if s.len() == 0 {
        0
    } else {
        digits_val(s.drop_last()) * 10 + (s.last() as int - 48)
    }
}

/// A numeric component: all digits and within the machine range.
pub open spec fn parse_u64_spec(s: Seq<char>) -> Option<u64> {
    if all_digits(s) && digits_val(s) <= u64::MAX as int {
        Some(digits_val(s) as u64)
    } else {
        None
    }
}

/// One, two or three dot-separated numeric components; missing components
/// are zero. Any other shape is rejected, a malformed component first.
pub open spec fn parse_version_spec(s: Seq<char>) -> Result<SimpleVersion, VersionErrorV> {
    let parts = split_char(s, '.');
    if parts.len() == 1 {
        match parse_u64_spec(parts[0]) {
            Some(major) => Ok(SimpleVersion { major, minor: 0, patch: 0 }),
            None => Err(VersionErrorV::InvalidVersionPart(parts[0])),
        }
    } else if parts.len() == 2 {
        match parse_u64_spec(parts[0]) {
            Some(major) => match parse_u64_spec(parts[1]) {
                Some(minor) => Ok(SimpleVersion { major, minor, patch: 0 }),
                None => Err(VersionErrorV::InvalidVersionPart(parts[1])),
            },
            None => Err(VersionErrorV::InvalidVersionPart(parts[0])),
        }
    } else if parts.len() == 3 {
        match parse_u64_spec(parts[0]) {
            Some(major) => match parse_u64_spec(parts[1]) {
                Some(minor) => match parse_u64_spec(parts[2]) {
                    Some(patch) => Ok(SimpleVersion { major, minor, patch }),
                    None => Err(VersionErrorV::InvalidVersionPart(parts[2])),
                },
                None => Err(VersionErrorV::InvalidVersionPart(parts[1])),
            },
            None => Err(VersionErrorV::InvalidVersionPart(parts[0])),
        }
    } else {
        Err(VersionErrorV::InvalidVersionString(s))
    }
}

/// `major.minor.patch` in decimal.
pub open spec fn version_chars(v: SimpleVersion) -> Seq<char> {
    dec_chars(v.major as nat) + seq!['.'] + dec_chars(v.minor as nat) + seq!['.'] + dec_chars(
        v.patch as nat,
    )
}

pub open spec fn version_result_view(r: Result<SimpleVersion, VersionError>) -> Result<
    SimpleVersion,
    VersionErrorV,
> {
    match r {
        Ok(v) => Ok(v),
        Err(e) => Err(e@),
    }
}

proof fn lemma_digits_val_nonneg(s: Seq<char>)
    requires
        forall|i: int| 0 <= i < s.len() ==> is_digit(s[i]),
    ensures
        digits_val(s) >= 0,
    decreases s.len(),
{
    if s.len() > 0 {
        let t = s.drop_last();
        assert(forall|i: int| 0 <= i < t.len() ==> t[i] == s[i]);
        lemma_digits_val_nonneg(t);
        assert(digits_val(t) <= digits_val(t) * 10) by (nonlinear_arith)
            requires
                digits_val(t) >= 0,
        ;
    }
}

proof fn lemma_digits_val_grows(s: Seq<char>, k: int)
    requires
        0 <= k <= s.len(),
        forall|i: int| 0 <= i < s.len() ==> is_digit(s[i]),
    ensures
        digits_val(s.subrange(0, k)) <= digits_val(s),
    decreases s.len() - k,
{
    if k < s.len() {
        let p = s.subrange(0, k);
        let t = s.subrange(0, k + 1);
        assert(t.drop_last() =~= p);
        assert(digits_val(t) == digits_val(p) * 10 + (t.last() as int - 48));
        assert(forall|i: int| 0 <= i < p.len() ==> p[i] == s[i]);
        lemma_digits_val_nonneg(p);
        assert(digits_val(p) <= digits_val(p) * 10) by (nonlinear_arith)
            requires
                digits_val(p) >= 0,
        ;
        assert(is_digit(t.last()));
        lemma_digits_val_grows(s, k + 1);
    } else {
        assert(s.subrange(0, k) =~= s);
    }
}

fn all_digits_chars(v: &Vec<char>, from: usize) -> (r: bool)
    requires
        from <= v@.len(),
    ensures
        r == (forall|j: int| from <= j < v@.len() ==> is_digit(v@[j])),
{
    let mut i = from;
    while i < v.len()
        invariant
            from <= i <= v@.len(),
            forall|j: int| from <= j < i ==> is_digit(v@[j]),
        decreases v@.len() - i,
    {
        let c = v[i];
        if !('0' <= c && c <= '9') {
            return false;
        }
        i = i + 1;
    }
    true
}

/// Parses a numeric component with an overflow check.
pub fn parse_u64_chars(v: &Vec<char>) -> (r: Option<u64>)
    ensures
        r == parse_u64_spec(v@),
{
    if v.len() == 0 {
        return None;
    }
    let mut acc: u64 = 0;
    let mut i: usize = 0;
    while i < v.len()
        invariant
            i <= v@.len(),
            v@.len() > 0,
            forall|j: int| 0 <= j < i ==> is_digit(v@[j]),
            acc as int == digits_val(v@.subrange(0, i as int)),
        decreases v@.len() - i,
    {
        let c = v[i];
        if !('0' <= c && c <= '9') {
            return None;
        }
        let d: u64 = ((c as u8) - 48) as u64;
        let wide: u128 = (acc as u128) * 10 + (d as u128);
        proof {
            let t = v@.subrange(0, i + 1 as int);
            assert(t.drop_last() =~= v@.subrange(0, i as int));
            assert(t.last() == v@[i as int]);
            assert(digits_val(t) == digits_val(v@.subrange(0, i as int)) * 10 + (c as int - 48));
        }
        if wide > u64::MAX as u128 {
            if all_digits_chars(v, i + 1) {
                proof {
                    lemma_digits_val_grows(v@, i + 1);
                    assert(digits_val(v@) > u64::MAX as int);
                }
            }
            return None;
        }
        acc = wide as u64;
        i = i + 1;
    }
    proof {
        assert(v@.subrange(0, v@.len() as int) =~= v@);
    }
    Some(acc)
}

impl SimpleVersion {
    pub fn new(major: Ver, minor: Ver, patch: Ver) -> (r: Self)
        ensures
            r == (SimpleVersion { major, minor, patch }),
    {
        SimpleVersion { major, minor, patch }
    }

    pub fn major(&self) -> (r: Ver)
        ensures
            r == self.major,
    {
        self.major
    }

    pub fn minor(&self) -> (r: Ver)
        ensures
            r == self.minor,
    {
        self.minor
    }

    pub fn patch(&self) -> (r: Ver)
        ensures
            r == self.patch,
    {
        self.patch
    }

    pub fn increment_major(&mut self)
        requires
            old(self).major < u64::MAX,
        ensures
            *final(self) == bump_spec(*old(self), BumpRule::Major),
    {
        self.major = self.major + 1;
        self.minor = 0;
        self.patch = 0;
    }

    pub fn increment_minor(&mut self)
        requires
            old(self).minor < u64::MAX,
        ensures
            *final(self) == bump_spec(*old(self), BumpRule::Minor),
    {
        self.minor = self.minor + 1;
        self.patch = 0;
    }

    pub fn increment_patch(&mut self)
        requires
            old(self).patch < u64::MAX,
        ensures
            *final(self) == bump_spec(*old(self), BumpRule::Patch),
    {
        self.patch = self.patch + 1;
    }

    /// The version after applying one bump kind.
    pub fn bump(&self, rule: BumpRule) -> (r: SimpleVersion)
        requires
            bump_fits(*self, rule),
        ensures
            r == bump_spec(*self, rule),
    {
        match rule {
            BumpRule::Major => {
                let mut v = *self;
                v.increment_major();
                v
            },
            BumpRule::Minor => {
                let mut v = *self;
                v.increment_minor();
                v
            },
            BumpRule::Patch => {
                let mut v = *self;
                v.increment_patch();
                v
            },
            BumpRule::NoBump => *self,
            BumpRule::Notset => *self,
        }
    }

    pub fn lt(&self, other: &SimpleVersion) -> (r: bool)
        ensures
            r == version_lt(*self, *other),
    {
        if self.major != other.major {
            self.major < other.major
        } else if self.minor != other.minor {
            self.minor < other.minor
        } else {
            self.patch < other.patch
        }
    }

    pub fn le(&self, other: &SimpleVersion) -> (r: bool)
        ensures
            r == version_le(*self, *other),
    {
        if self.major != other.major {
            self.major < other.major
        } else if self.minor != other.minor {
            self.minor < other.minor
        } else {
            self.patch <= other.patch
        }
    }

    pub fn ge(&self, other: &SimpleVersion) -> (r: bool)
        ensures
            r == version_le(*other, *self),
    {
        !self.lt(other)
    }

    /// Parses `major[.minor[.patch]]`.
    pub fn parse(s: &str) -> (r: Result<SimpleVersion, VersionError>)
        ensures
            version_result_view(r) == parse_version_spec(s@),
    {
        let chars = str_to_chars(s);
        let parts = split_chars(&chars, '.');
        proof {
            assert(parts.deep_view().len() == parts@.len());
        }
        if parts.len() == 1 {
            proof {
                assert(parts.deep_view()[0] =~= parts@[0]@);
            }
            match parse_u64_chars(&parts[0]) {
                Some(major) => Ok(SimpleVersion { major, minor: 0, patch: 0 }),
                None => Err(VersionError::InvalidVersionPart(chars_to_string(&parts[0]))),
            }
        } else if parts.len() == 2 {
            proof {
                assert(parts.deep_view()[0] =~= parts@[0]@);
                assert(parts.deep_view()[1] =~= parts@[1]@);
            }
            match parse_u64_chars(&parts[0]) {
                Some(major) => match parse_u64_chars(&parts[1]) {
                    Some(minor) => Ok(SimpleVersion { major, minor, patch: 0 }),
                    None => Err(VersionError::InvalidVersionPart(chars_to_string(&parts[1]))),
                },
                None => Err(VersionError::InvalidVersionPart(chars_to_string(&parts[0]))),
            }
        } else if parts.len() == 3 {
            proof {
                assert(parts.deep_view()[0] =~= parts@[0]@);
                assert(parts.deep_view()[1] =~= parts@[1]@);
                assert(parts.deep_view()[2] =~= parts@[2]@);
            }
            match parse_u64_chars(&parts[0]) {
                Some(major) => match parse_u64_chars(&parts[1]) {
                    Some(minor) => match parse_u64_chars(&parts[2]) {
                        Some(patch) => Ok(SimpleVersion { major, minor, patch }),
                        None => Err(VersionError::InvalidVersionPart(chars_to_string(&parts[2]))),
                    },
                    None => Err(VersionError::InvalidVersionPart(chars_to_string(&parts[1]))),
                },
                None => Err(VersionError::InvalidVersionPart(chars_to_string(&parts[0]))),
            }
        } else {
            Err(VersionError::InvalidVersionString(s.to_owned()))
        }
    }

    /// `major.minor.patch` as text.
    pub fn to_text(&self) -> (r: String)
        ensures
            r@ == version_chars(*self),
    {
        let mut out = u64_to_chars(self.major);
        out.push('.');
        let minor_chars = u64_to_chars(self.minor);
        crate::text::push_chars(&mut out, &minor_chars);
        out.push('.');
        let patch_chars = u64_to_chars(self.patch);
        crate::text::push_chars(&mut out, &patch_chars);
        proof {
            assert(out@ =~= version_chars(*self));
        }
        chars_to_string(&out)
    }

    /// Does the text parse to exactly this version?
    pub fn matches_str(&self, s: &str) -> (r: bool)
        ensures
            r == (match parse_version_spec(s@) {
                Ok(v) => v == *self,
                Err(_) => false,
            }),
    {
        match Self::parse(s) {
            Ok(v) => v.major == self.major && v.minor == self.minor && v.patch == self.patch,
            Err(_) => false,
        }
    }
}

impl Default for SimpleVersion {
    fn default() -> (r: Self)
        ensures
            r == (SimpleVersion { major: 0u64, minor: 0u64, patch: 0u64 }),
    {
        SimpleVersion { major: 0, minor: 0, patch: 0 }
    }
}

impl core::str::FromStr for SimpleVersion {
    type Err = VersionError;

    fn from_str(s: &str) -> Result<Self, VersionError> {
        SimpleVersion::parse(s)
    }
}

/// The bottom two bump kinds leave a version unchanged; a major bump zeroes
/// minor and patch; a minor bump zeroes patch.
pub proof fn lemma_bump_laws(v: SimpleVersion)
    ensures
        bump_spec(v, BumpRule::NoBump) == v,
        bump_spec(v, BumpRule::Notset) == v,
        bump_spec(v, BumpRule::Major).minor == 0 && bump_spec(v, BumpRule::Major).patch == 0,
        bump_spec(v, BumpRule::Minor).patch == 0,
{
}

} // verus!
