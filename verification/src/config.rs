//! The rules table of a configuration file: an insertion-ordered map from
//! category to bump kind with unique keys, and the conversion of raw
//! configuration pairs into rules.

use vstd::prelude::*;

use crate::bump::bump_of_name;
use crate::bump::BumpRule;
use crate::category::cat_of_token;
use crate::category::CommitType;
use crate::category::CommitTypeV;
use crate::errors::ConfigError;
use crate::text::str_to_chars;

verus! {

/// No category appears twice.
pub open spec fn unique_keys(rs: Seq<(CommitType, BumpRule)>) -> bool {
    forall|i: int, j: int| 0 <= i < j < rs.len() ==> rs[i].0@ != rs[j].0@
}

/// Insert-or-replace: an existing entry for the category is replaced in
/// place, a new category is appended.
pub open spec fn upsert(
    rs: Seq<(CommitType, BumpRule)>,
    c: CommitType,
    b: BumpRule,
) -> Seq<(CommitType, BumpRule)>
    decreases rs.len(),
{
    if rs.len() == 0 {
        seq![(c, b)]
    } else if rs[0].0@ == c@ {
        seq![(c, b)] + rs.drop_first()
    } else {
        seq![rs[0]] + upsert(rs.drop_first(), c, b)
    }
}

/// Removal of the (single) entry for a category.
pub open spec fn remove_key(rs: Seq<(CommitType, BumpRule)>, c: CommitTypeV) -> Seq<
    (CommitType, BumpRule),
>
    decreases rs.len(),
{
    if rs.len() == 0 {
        rs
    } else if rs[0].0@ == c {
        rs.drop_first()
    } else {
        seq![rs[0]] + remove_key(rs.drop_first(), c)
    }
}

/// Upserting every pair of `src` into `acc`, in order.
pub open spec fn upsert_all(
    acc: Seq<(CommitType, BumpRule)>,
    src: Seq<(CommitType, BumpRule)>,
) -> Seq<(CommitType, BumpRule)>
    decreases src.len(),
{
    if src.len() == 0 {
        acc
    } else {
        upsert_all(upsert(acc, src[0].0, src[0].1), src.drop_first())
    }
}

proof fn lemma_upsert_at(rs: Seq<(CommitType, BumpRule)>, c: CommitType, b: BumpRule, i: int)
    requires
        0 <= i <= rs.len(),
        forall|j: int| 0 <= j < i ==> rs[j].0@ != c@,
        i < rs.len() ==> rs[i].0@ == c@,
    ensures
        i < rs.len() ==> upsert(rs, c, b) == rs.update(i, (c, b)),
        i == rs.len() ==> upsert(rs, c, b) == rs.push((c, b)),
    decreases rs.len(),
{
    if rs.len() == 0 {
        assert(upsert(rs, c, b) =~= rs.push((c, b)));
    } else if rs[0].0@ == c@ {
        assert(i == 0);
        assert(upsert(rs, c, b) =~= rs.update(0, (c, b)));
    } else {
        let t = rs.drop_first();
        assert(forall|j: int| 0 <= j < i - 1 ==> t[j].0@ != c@);
        lemma_upsert_at(t, c, b, i - 1);
        if i < rs.len() {
            assert(upsert(rs, c, b) =~= rs.update(i, (c, b)));
        } else {
            assert(upsert(rs, c, b) =~= rs.push((c, b)));
        }
    }
}

proof fn lemma_remove_key_at(rs: Seq<(CommitType, BumpRule)>, c: CommitTypeV, i: int)
    requires
        0 <= i <= rs.len(),
        forall|j: int| 0 <= j < i ==> rs[j].0@ != c,
        i < rs.len() ==> rs[i].0@ == c,
    ensures
        i < rs.len() ==> remove_key(rs, c) == rs.remove(i),
        i == rs.len() ==> remove_key(rs, c) == rs,
    decreases rs.len(),
{
    if rs.len() == 0 {
    } else if rs[0].0@ == c {
        assert(i == 0);
        assert(remove_key(rs, c) =~= rs.remove(0));
    } else {
        let t = rs.drop_first();
        assert(forall|j: int| 0 <= j < i - 1 ==> t[j].0@ != c);
        lemma_remove_key_at(t, c, i - 1);
        if i < rs.len() {
            assert(remove_key(rs, c) =~= rs.remove(i));
        } else {
            assert(remove_key(rs, c) =~= rs);
        }
    }
}

/// The rules table of a configuration file, insertion-ordered.
#[derive(Debug, Clone)]
pub struct BumpRuleConfig {
    pub rules: Vec<(CommitType, BumpRule)>,
}

impl BumpRuleConfig {
    /// The table keeps at most one entry per category.
    pub open spec fn wf(&self) -> bool {
        unique_keys(self.rules@)
    }

    /// Builds a table from pairs; a repeated category keeps the last bump.
    pub fn new(rules: &Vec<(CommitType, BumpRule)>) -> (r: Self)
        ensures
            r.rules@ == upsert_all(Seq::empty(), rules@),
            r.wf(),
    {
        let mut cfg = BumpRuleConfig { rules: Vec::new() };
        proof {
            assert(cfg.rules@ =~= Seq::<(CommitType, BumpRule)>::empty());
            assert(rules@.skip(0) =~= rules@);
        }
        cfg.extend(rules);
        proof {
            assert(upsert_all(Seq::empty(), rules@) == cfg.rules@);
        }
        cfg
    }

    pub fn is_empty(&self) -> (r: bool)
        ensures
            r == (self.rules@.len() == 0),
    {
        self.rules.len() == 0
    }

    /// Inserts or replaces the entry for a category.
    pub fn add(&mut self, commit_type: CommitType, bump_rule: BumpRule)
        requires
            old(self).wf(),
        ensures
            final(self).rules@ == upsert(old(self).rules@, commit_type, bump_rule),
            final(self).wf(),
    {
        let mut i: usize = 0;
        while i < self.rules.len()
            invariant
                old(self).wf(),
                i <= self.rules@.len(),
                self.rules@ == old(self).rules@,
                forall|j: int| 0 <= j < i ==> self.rules@[j].0@ != commit_type@,
            decreases self.rules@.len() - i,
        {
            if self.rules[i].0.same(&commit_type) {
                let ghost old_rs = self.rules@;
                proof {
                    lemma_upsert_at(old_rs, commit_type, bump_rule, i as int);
                }
                self.rules.set(i, (commit_type, bump_rule));
                proof {
                    assert(self.rules@ == old_rs.update(i as int, (commit_type, bump_rule)));
                    assert forall|x: int, y: int|
                        0 <= x < y < self.rules@.len() implies self.rules@[x].0@
                        != self.rules@[y].0@ by {
                        assert(old_rs[i as int].0@ == commit_type@);
                        if x != i && y != i {
                            assert(self.rules@[x] == old_rs[x] && self.rules@[y] == old_rs[y]);
                        } else if x == i {
                            assert(self.rules@[y] == old_rs[y]);
                            assert(old_rs[y].0@ != old_rs[i as int].0@);
                        } else {
                            assert(self.rules@[x] == old_rs[x]);
                            assert(old_rs[x].0@ != old_rs[i as int].0@);
                        }
                    }
                }
                return ;
            }
            i = i + 1;
        }
        let ghost old_rs = self.rules@;
        proof {
            lemma_upsert_at(old_rs, commit_type, bump_rule, old_rs.len() as int);
        }
        self.rules.push((commit_type, bump_rule));
        proof {
            assert forall|x: int, y: int|
                0 <= x < y < self.rules@.len() implies self.rules@[x].0@ != self.rules@[y].0@ by {
                if y < old_rs.len() {
                    assert(self.rules@[x] == old_rs[x] && self.rules@[y] == old_rs[y]);
                } else {
                    assert(self.rules@[x] == old_rs[x]);
                    assert(old_rs[x].0@ != commit_type@);
                }
            }
        }
    }

    /// Removes the entry for a category, if present.
    pub fn remove(&mut self, commit_type: CommitType)
        requires
            old(self).wf(),
        ensures
            final(self).rules@ == remove_key(old(self).rules@, commit_type@),
            final(self).wf(),
    {
        let mut i: usize = 0;
        while i < self.rules.len()
            invariant
                old(self).wf(),
                i <= self.rules@.len(),
                self.rules@ == old(self).rules@,
                forall|j: int| 0 <= j < i ==> self.rules@[j].0@ != commit_type@,
            decreases self.rules@.len() - i,
        {
            if self.rules[i].0.same(&commit_type) {
                let ghost old_rs = self.rules@;
                proof {
                    lemma_remove_key_at(old_rs, commit_type@, i as int);
                }
                self.rules.remove(i);
                proof {
                    assert(self.rules@ == old_rs.remove(i as int));
                    assert forall|x: int, y: int|
                        0 <= x < y < self.rules@.len() implies self.rules@[x].0@
                        != self.rules@[y].0@ by {
                        let ox: int = if x < i { x } else { x + 1 };
                        let oy: int = if y < i { y } else { y + 1 };
                        assert(self.rules@[x] == old_rs[ox] && self.rules@[y] == old_rs[oy]);
                        assert(old_rs[ox].0@ != old_rs[oy].0@);
                    }
                }
                return ;
            }
            i = i + 1;
        }
        proof {
            lemma_remove_key_at(self.rules@, commit_type@, self.rules@.len() as int);
        }
    }

    /// Upserts every given pair, in order.
    pub fn extend(&mut self, rules: &Vec<(CommitType, BumpRule)>)
        requires
            old(self).wf(),
        ensures
            final(self).rules@ == upsert_all(old(self).rules@, rules@),
            final(self).wf(),
    {
        let mut i: usize = 0;
        proof {
            assert(rules@.skip(0) =~= rules@);
        }
        while i < rules.len()
            invariant
                i <= rules@.len(),
                self.wf(),
                upsert_all(self.rules@, rules@.skip(i as int)) == upsert_all(
                    old(self).rules@,
                    rules@,
                ),
            decreases rules@.len() - i,
        {
            let ghost rest = rules@.skip(i as int);
            proof {
                assert(rest[0] == rules@[i as int]);
                assert(rest.drop_first() =~= rules@.skip(i + 1 as int));
            }
            let pair = (rules[i].0.clone(), rules[i].1);
            proof {
                assert(pair == rules@[i as int]);
            }
            self.add(pair.0, pair.1);
            i = i + 1;
        }
        proof {
            assert(rules@.skip(rules@.len() as int).len() == 0);
        }
    }

    /// The entries, in insertion order.
    pub fn iter(&self) -> (r: &Vec<(CommitType, BumpRule)>)
        ensures
            r@ == self.rules@,
    {
        &self.rules
    }
}

impl Default for BumpRuleConfig {
    fn default() -> (r: Self)
        ensures
            r.rules@.len() == 0,
            r.wf(),
    {
        BumpRuleConfig { rules: Vec::new() }
    }
}

/// The `semrel` table of a configuration file.
#[derive(Debug, Clone)]
pub struct SemRel {
    pub rules: BumpRuleConfig,
}

impl SemRel {
    pub fn has_rules(&self) -> (r: bool)
        ensures
            r == (self.rules.rules@.len() > 0),
    {
        !self.rules.is_empty()
    }

    pub fn extend_rules(&mut self, rules: &Vec<(CommitType, BumpRule)>)
        requires
            old(self).rules.wf(),
        ensures
            final(self).rules.rules@ == upsert_all(old(self).rules.rules@, rules@),
            final(self).rules.wf(),
    {
        self.rules.extend(rules);
    }
}

impl Default for SemRel {
    fn default() -> (r: Self)
        ensures
            r.rules.rules@.len() == 0,
            r.rules.wf(),
    {
        SemRel { rules: BumpRuleConfig { rules: Vec::new() } }
    }
}

/// A parsed configuration file.
#[derive(Debug, Clone)]
pub struct SemRelConfig {
    pub semrel: SemRel,
}

impl SemRelConfig {
    pub fn has_rules(&self) -> (r: bool)
        ensures
            r == (self.semrel.rules.rules@.len() > 0),
    {
        self.semrel.has_rules()
    }

    /// A copy of the configured rules, in insertion order.
    pub fn rules(&self) -> (r: Vec<(CommitType, BumpRule)>)
        ensures
            r@ == self.semrel.rules.rules@,
    {
        let src = self.semrel.rules.iter();
        let mut out: Vec<(CommitType, BumpRule)> = Vec::new();
        let mut i: usize = 0;
        while i < src.len()
            invariant
                i <= src@.len(),
                src@ == self.semrel.rules.rules@,
                out@ == src@.take(i as int),
            decreases src@.len() - i,
        {
            out.push((src[i].0.clone(), src[i].1));
            proof {
                assert(out@ =~= src@.take(i + 1 as int));
            }
            i = i + 1;
        }
        proof {
            assert(src@.take(src@.len() as int) =~= src@);
        }
        out
    }

    pub fn extend_rules(&mut self, rules: &Vec<(CommitType, BumpRule)>)
        requires
            old(self).semrel.rules.wf(),
        ensures
            final(self).semrel.rules.rules@ == upsert_all(
                old(self).semrel.rules.rules@,
                rules@,
            ),
            final(self).semrel.rules.wf(),
    {
        self.semrel.extend_rules(rules);
    }
}

impl Default for SemRelConfig {
    fn default() -> (r: Self)
        ensures
            r.semrel.rules.rules@.len() == 0,
            r.semrel.rules.wf(),
    {
        SemRelConfig { semrel: SemRel { rules: BumpRuleConfig { rules: Vec::new() } } }
    }
}

// ---------------------------------------------------------------------------
// Raw configuration pairs
// ---------------------------------------------------------------------------

/// One `(category name, bump name)` pair of a configuration file.
pub open spec fn rule_pair_spec(name: Seq<char>, bump: Seq<char>) -> Option<
    (CommitTypeV, BumpRule),
> {
    match bump_of_name(bump) {
        Some(b) => Some((cat_of_token(name), b)),
        None => None,
    }
}

/// Converts the raw pairs of a configuration file into rules, in order;
/// an unknown bump name makes the whole configuration malformed.
pub open spec fn rules_from_pairs_spec(pairs: Seq<(Seq<char>, Seq<char>)>) -> Result<
    Seq<(CommitTypeV, BumpRule)>,
    Seq<char>,
>
    decreases pairs.len(),
{
    if pairs.len() == 0 {
        Ok(Seq::empty())
    } else {
        match rule_pair_spec(pairs[0].0, pairs[0].1) {
            None => Err("unknown bump kind: "@ + pairs[0].1),
            Some(p) => match rules_from_pairs_spec(pairs.drop_first()) {
                Err(e) => Err(e),
                Ok(rest) => Ok(seq![p] + rest),
            },
        }
    }
}

/// Ghost image of raw string pairs.
pub open spec fn pairs_view(pairs: Seq<(String, String)>) -> Seq<(Seq<char>, Seq<char>)> {
    pairs.map_values(|p: (String, String)| (p.0@, p.1@))
}

/// Converts raw `(category name, bump name)` pairs, as a configuration
/// loader hands them over, into rules.
pub fn rules_from_pairs(pairs: &Vec<(String, String)>) -> (r: Result<
    Vec<(CommitType, BumpRule)>,
    ConfigError,
>)
    ensures
        (match r {
            Ok(rs) => rules_from_pairs_spec(pairs_view(pairs@)) == Ok::<_, Seq<char>>(
                crate::rules::rules_view(rs@),
            ),
            Err(e) => e is InvalidConfig && rules_from_pairs_spec(pairs_view(pairs@))
                == Err::<Seq<(CommitTypeV, BumpRule)>, _>(
                e->InvalidConfig_0@,
            ),
        }),
{
    let ghost pv = pairs_view(pairs@);
    let mut out: Vec<(CommitType, BumpRule)> = Vec::new();
    let mut i: usize = 0;
    proof {
        assert(pv.skip(0) =~~= pv);
        assert(crate::rules::rules_view(out@) + Seq::<
            (CommitTypeV, BumpRule),
        >::empty() =~= crate::rules::rules_view(out@));
    }
    while i < pairs.len()
        invariant
            i <= pairs@.len(),
            pv == pairs_view(pairs@),
            pv.len() == pairs@.len(),
            rules_from_pairs_spec(pv) == (match rules_from_pairs_spec(pv.skip(i as int)) {
                Err(e) => Err::<Seq<(CommitTypeV, BumpRule)>, _>(e),
                Ok(rest) => Ok::<_, Seq<char>>(crate::rules::rules_view(out@) + rest),
            }),
        decreases pairs@.len() - i,
    {
        let ghost rest = pv.skip(i as int);
        proof {
            assert(rest[0] == pv[i as int]);
            assert(rest.drop_first() =~= pv.skip(i + 1 as int));
            assert(pv[i as int] == (pairs@[i as int].0@, pairs@[i as int].1@));
        }
        let name_chars = str_to_chars(pairs[i].0.as_str());
        let bump_chars = str_to_chars(pairs[i].1.as_str());
        let ct = CommitType::parse_token(&name_chars);
        match BumpRule::parse_chars(&bump_chars) {
            Some(b) => {
                let ghost before = crate::rules::rules_view(out@);
                let ghost p = (ct@, b);
                out.push((ct, b));
                proof {
                    assert(crate::rules::rules_view(out@) =~= before.push(p));
                    let tail = rules_from_pairs_spec(pv.skip(i + 1 as int));
                    if tail is Ok {
                        let rr = tail->Ok_0;
                        assert(before + (seq![p] + rr) =~= before.push(p) + rr);
                    }
                }
            },
            None => {
                let mut why = String::from_str("unknown bump kind: ");
                why.append(pairs[i].1.as_str());
                return Err(ConfigError::InvalidConfig(why));
            },
        }
        i = i + 1;
    }
    proof {
        assert(pv.skip(pv.len() as int).len() == 0);
        assert(crate::rules::rules_view(out@) + Seq::<
            (CommitTypeV, BumpRule),
        >::empty() =~= crate::rules::rules_view(out@));
    }
    Ok(out)
}

} // verus!
