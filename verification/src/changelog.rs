//! The changelog: the collected commits of the pending release, the next
//! version they imply, and the Markdown release notes grouped by category
//! and scope.

use vstd::prelude::*;

use crate::bump::bump_max;
use crate::bump::BumpRule;
use crate::category::cat_label;
use crate::category::cat_lt;
use crate::category::cat_token;
use crate::category::lemma_cat_lt_transitive;
use crate::category::lemma_cat_lt_trichotomy;
use crate::category::lemma_seq_lt_transitive;
use crate::category::lemma_seq_lt_trichotomy;
use crate::category::seq_lt;
use crate::category::CommitType;
use crate::category::CommitTypeV;
use crate::commit_info::commit_bump;
use crate::commit_info::CommitInfo;
use crate::commit_info::CommitInfoV;
use crate::text::chars_to_string;
use crate::text::dec_chars;
use crate::text::has_prefix;
use crate::text::has_prefix_at;
use crate::text::push_chars;
use crate::text::push_str_chars;
use crate::text::str_to_chars;
use crate::text::u64_to_chars;
use crate::version::bump_fits;
use crate::version::bump_spec;
use crate::version::version_chars;
use crate::version::SimpleVersion;

verus! {

// ---------------------------------------------------------------------------
// The changelog and its next version
// ---------------------------------------------------------------------------

#[derive(Debug, Clone)]
pub struct ChangeLog {
    /// The version the walk was anchored at.
    pub current_version: SimpleVersion,
    /// The collected commits, newest first.
    pub changes: Vec<CommitInfo>,
}

impl ChangeLog {
    pub fn new(current_version: SimpleVersion, changes: Vec<CommitInfo>) -> (r: Self)
        ensures
            r.current_version == current_version,
            r.changes.deep_view() == changes.deep_view(),
    {
        ChangeLog { current_version, changes }
    }
}

/// The strongest bump any of the commits asks for; no commits ask for none.
pub open spec fn fold_bumps(cs: Seq<CommitInfoV>, rules: Seq<(CommitType, BumpRule)>) -> BumpRule
    decreases cs.len(),
{
    if cs.len() == 0 {
        BumpRule::Notset
    } else {
        bump_max(fold_bumps(cs.drop_last(), rules), commit_bump(cs.last().commit, rules))
    }
}

/// Removing one commit from the fold and folding it back in changes
/// nothing: the fold is insensitive to position.
proof fn lemma_fold_bumps_remove(cs: Seq<CommitInfoV>, rules: Seq<(CommitType, BumpRule)>, k: int)
    requires
        0 <= k < cs.len(),
    ensures
        fold_bumps(cs, rules) == bump_max(
            fold_bumps(cs.remove(k), rules),
            commit_bump(cs[k].commit, rules),
        ),
    decreases cs.len(),
{
    if k == cs.len() - 1 {
        assert(cs.remove(k) =~= cs.drop_last());
    } else {
        let dl = cs.drop_last();
        lemma_fold_bumps_remove(dl, rules, k);
        assert(cs.remove(k).drop_last() =~= dl.remove(k));
        assert(cs.remove(k).last() == cs.last());
        crate::bump::lemma_bump_max_algebra(
            fold_bumps(dl.remove(k), rules),
            commit_bump(cs[k].commit, rules),
            commit_bump(cs.last().commit, rules),
        );
        crate::bump::lemma_bump_max_algebra(
            fold_bumps(dl.remove(k), rules),
            commit_bump(cs.last().commit, rules),
            commit_bump(cs[k].commit, rules),
        );
        crate::bump::lemma_bump_max_algebra(
            commit_bump(cs.last().commit, rules),
            commit_bump(cs[k].commit, rules),
            fold_bumps(dl.remove(k), rules),
        );
    }
}

/// Reordering the commits never changes the folded maximum, and with it
/// the next version: the maximum of bump kinds is commutative and
/// associative, so only the multiset of commits matters.
pub proof fn lemma_fold_bumps_permutation(
    a: Seq<CommitInfoV>,
    b: Seq<CommitInfoV>,
    rules: Seq<(CommitType, BumpRule)>,
)
    requires
        a.to_multiset() == b.to_multiset(),
    ensures
        fold_bumps(a, rules) == fold_bumps(b, rules),
    decreases a.len(),
{
    broadcast use vstd::seq_lib::group_to_multiset_ensures;

    if a.len() == 0 {
        assert(b.to_multiset().len() == 0);
        assert(b.len() == 0);
    } else {
        let x = a.last();
        assert(a.to_multiset().count(x) > 0) by {
            assert(a.contains(x));
        }
        assert(b.contains(x)) by {
            assert(b.to_multiset().count(x) > 0);
        }
        let k = choose|k: int| 0 <= k < b.len() && b[k] == x;
        lemma_fold_bumps_remove(b, rules, k);
        assert(a.drop_last() =~= a.remove(a.len() - 1));
        assert(a.drop_last().to_multiset() =~= a.to_multiset().remove(x));
        assert(b.remove(k).to_multiset() =~= b.to_multiset().remove(x));
        lemma_fold_bumps_permutation(a.drop_last(), b.remove(k), rules);
    }
}

/// The next version under a rule map: the anchor version bumped by the
/// strongest bump any collected commit asks for.
pub proof fn lemma_next_version_permutation_invariant(
    a: Seq<CommitInfoV>,
    b: Seq<CommitInfoV>,
    v: SimpleVersion,
    rules: Seq<(CommitType, BumpRule)>,
)
    requires
        a.to_multiset() == b.to_multiset(),
    ensures
        bump_spec(v, fold_bumps(a, rules)) == bump_spec(v, fold_bumps(b, rules)),
{
    lemma_fold_bumps_permutation(a, b, rules);
}

impl ChangeLog {
    /// The strongest bump among the collected commits.
    pub fn max_bump(&self, rules: &Vec<(CommitType, BumpRule)>) -> (r: BumpRule)
        ensures
            r == fold_bumps(self.changes.deep_view(), rules@),
    {
        let ghost cd = self.changes.deep_view();
        let mut maxb = BumpRule::Notset;
        let mut i: usize = 0;
        while i < self.changes.len()
            invariant
                i <= self.changes@.len(),
                cd == self.changes.deep_view(),
                cd.len() == self.changes@.len(),
                maxb == fold_bumps(cd.take(i as int), rules@),
            decreases self.changes@.len() - i,
        {
            let cb = self.changes[i].rule(rules);
            proof {
                assert(self.changes@[i as int]@ == cd[i as int]);
                assert(cd.take(i + 1 as int).drop_last() =~= cd.take(i as int));
                assert(cd.take(i + 1 as int).last() == cd[i as int]);
            }
            maxb = maxb.max_with(cb);
            i = i + 1;
        }
        proof {
            assert(cd.take(cd.len() as int) =~= cd);
        }
        maxb
    }

    /// The version the collected commits call for next.
    pub fn next_version(&self, rules: &Vec<(CommitType, BumpRule)>) -> (r: SimpleVersion)
        requires
            bump_fits(self.current_version, fold_bumps(self.changes.deep_view(), rules@)),
        ensures
            r == bump_spec(self.current_version, fold_bumps(self.changes.deep_view(), rules@)),
    {
        let maxb = self.max_bump(rules);
        self.current_version.bump(maxb)
    }
}

// ---------------------------------------------------------------------------
// Grouping by category and scope
// ---------------------------------------------------------------------------

/// Commits of one category, split by scope.
#[derive(Debug, Clone)]
pub struct CommitGroup {
    pub commit_type: CommitType,
    pub scopes: Vec<(String, Vec<CommitInfo>)>,
}

/// Ghost image of a group.
pub struct CommitGroupV {
    pub commit_type: CommitTypeV,
    pub scopes: Seq<(Seq<char>, Seq<CommitInfoV>)>,
}

impl View for CommitGroup {
    type V = CommitGroupV;

    open spec fn view(&self) -> CommitGroupV {
        CommitGroupV { commit_type: self.commit_type@, scopes: self.scopes.deep_view() }
    }
}

impl DeepView for CommitGroup {
    type V = CommitGroupV;

    open spec fn deep_view(&self) -> CommitGroupV {
        self.view()
    }
}

impl CommitGroup {
    pub fn new(commit_type: CommitType, scopes: Vec<(String, Vec<CommitInfo>)>) -> (r: Self)
        ensures
            r@.commit_type == commit_type@,
            r@.scopes == scopes.deep_view(),
    {
        CommitGroup { commit_type, scopes }
    }
}

/// The scope a commit is grouped under: its scope, or the empty name.
pub open spec fn scope_name(c: CommitInfoV) -> Seq<char> {
    match c.commit.scope {
        Some(s) => s,
        None => Seq::empty(),
    }
}

/// Categories whose textual form begins with the reserved prefix are the
/// tool's own release commits and stay out of release notes.
pub open spec fn is_reserved_cat(c: CommitTypeV) -> bool {
    has_prefix(cat_token(c), "semrel"@)
}

/// Does the scope name appear on a commit of this category?
pub open spec fn appears_in(cs: Seq<CommitInfoV>, cat: CommitTypeV, x: Seq<char>) -> bool {
    exists|i: int|
        0 <= i < cs.len() && (#[trigger] cs[i]).commit.commit_type == cat && scope_name(cs[i]) == x
}

/// Does any commit carry this category?
pub open spec fn cat_appears(cs: Seq<CommitInfoV>, cat: CommitTypeV) -> bool {
    exists|i: int| 0 <= i < cs.len() && (#[trigger] cs[i]).commit.commit_type == cat
}

/// Does the group hold a scope of this name?
pub open spec fn group_has_scope(g: CommitGroupV, x: Seq<char>) -> bool {
    exists|s: int| 0 <= s < g.scopes.len() && (#[trigger] g.scopes[s]).0 == x
}

/// Does some group carry this category?
pub open spec fn groups_have_cat(groups: Seq<CommitGroupV>, c: CommitTypeV) -> bool {
    exists|g: int| 0 <= g < groups.len() && (#[trigger] groups[g]).commit_type == c
}

/// One well-formed group: scopes strictly ordered by name; each bucket
/// exactly the matching commits in walk order; no scope without a commit;
/// no commit of the category without its scope.
pub open spec fn group_wf(cs: Seq<CommitInfoV>, g: CommitGroupV) -> bool {
    &&& (forall|s1: int, s2: int|
        0 <= s1 < s2 < g.scopes.len() ==> seq_lt(
            (#[trigger] g.scopes[s1]).0,
            (#[trigger] g.scopes[s2]).0,
        ))
    &&& (forall|s: int|
        0 <= s < g.scopes.len() ==> (#[trigger] g.scopes[s]).1 == bucket_spec(
            cs,
            g.commit_type,
            g.scopes[s].0,
        ))
    &&& (forall|s: int|
        0 <= s < g.scopes.len() ==> appears_in(cs, g.commit_type, (#[trigger] g.scopes[s]).0))
    &&& (forall|i: int|
        0 <= i < cs.len() && (#[trigger] cs[i]).commit.commit_type == g.commit_type
            ==> group_has_scope(g, scope_name(cs[i])))
}

/// What the grouping guarantees: groups strictly ordered by category, free
/// of reserved categories, each well-formed over the commits, none without
/// a commit, and every non-reserved commit accounted for.
pub open spec fn aggregated_wf(changes: Seq<CommitInfoV>, groups: Seq<CommitGroupV>) -> bool {
    &&& (forall|g1: int, g2: int|
        0 <= g1 < g2 < groups.len() ==> cat_lt(
            (#[trigger] groups[g1]).commit_type,
            (#[trigger] groups[g2]).commit_type,
        ))
    &&& (forall|g: int|
        0 <= g < groups.len() ==> !is_reserved_cat((#[trigger] groups[g]).commit_type))
    &&& (forall|g: int| 0 <= g < groups.len() ==> group_wf(changes, #[trigger] groups[g]))
    &&& (forall|g: int|
        0 <= g < groups.len() ==> cat_appears(changes, (#[trigger] groups[g]).commit_type))
    &&& (forall|i: int|
        0 <= i < changes.len() && !is_reserved_cat((#[trigger] changes[i]).commit.commit_type)
            ==> groups_have_cat(groups, changes[i].commit.commit_type))
}

/// The commits of one (category, scope) bucket, in their walk order.
pub open spec fn bucket_spec(changes: Seq<CommitInfoV>, cat: CommitTypeV, scope: Seq<char>) -> Seq<
    CommitInfoV,
> {
    changes.filter(|c: CommitInfoV| c.commit.commit_type == cat && scope_name(c) == scope)
}

fn scope_matches(c: &CommitInfo, scope: &String) -> (r: bool)
    ensures
        r == (scope_name(c@) == scope@),
{
    match &c.commit.scope {
        Some(s) => {
            let sv = str_to_chars(s.as_str());
            crate::text::chars_eq_str(&sv, scope.as_str())
        },
        None => {
            proof {
                if scope@.len() == 0 {
                    assert(scope_name(c@) =~= scope@);
                }
            }
            scope.as_str().is_empty()
        },
    }
}

fn cat_is_reserved(c: &CommitType) -> (r: bool)
    ensures
        r == is_reserved_cat(c@),
{
    let token = str_to_chars(c.as_str());
    proof {
        assert(token@.subrange(0, token@.len() as int) =~= token@);
    }
    has_prefix_at(&token, 0, "semrel")
}

/// The commits with this category and scope, in walk order.
fn bucket(changes: &Vec<CommitInfo>, cat: &CommitType, scope: &String) -> (r: Vec<CommitInfo>)
    ensures
        r.deep_view() == bucket_spec(changes.deep_view(), cat@, scope@),
{
    let ghost cd = changes.deep_view();
    let ghost pred = |c: CommitInfoV| c.commit.commit_type == cat@ && scope_name(c) == scope@;
    let mut out: Vec<CommitInfo> = Vec::new();
    let mut i: usize = 0;
    proof {
        reveal(Seq::filter);
        assert(cd.take(0) =~= Seq::<CommitInfoV>::empty());
        assert(out.deep_view() =~~= cd.take(0).filter(pred));
    }
    while i < changes.len()
        invariant
            i <= changes@.len(),
            cd == changes.deep_view(),
            cd.len() == changes@.len(),
            pred == (|c: CommitInfoV| c.commit.commit_type == cat@ && scope_name(c) == scope@),
            out.deep_view() == cd.take(i as int).filter(pred),
        decreases changes@.len() - i,
    {
        proof {
            assert(changes@[i as int]@ == cd[i as int]);
        }
        let c = &changes[i];
        let matches = c.commit.commit_type.same(cat) && scope_matches(c, scope);
        proof {
            reveal(Seq::filter);
            assert(matches == pred(cd[i as int]));
            assert(cd.take(i + 1 as int).drop_last() =~= cd.take(i as int));
            assert(cd.take(i + 1 as int).last() == cd[i as int]);
        }
        if matches {
            let ghost before = out.deep_view();
            out.push(c.clone());
            proof {
                assert(out.deep_view() =~~= before.push(cd[i as int]));
            }
        }
        i = i + 1;
    }
    proof {
        assert(cd.take(cd.len() as int) =~= cd);
    }
    out
}

/// Does the category appear in the list (by its ghost image)?
pub open spec fn cat_in(cats: Seq<CommitType>, x: CommitTypeV) -> bool {
    exists|k: int| 0 <= k < cats.len() && (#[trigger] cats[k])@ == x
}

/// The distinct non-reserved categories among the commits, in order.
fn sorted_cats(changes: &Vec<CommitInfo>) -> (r: Vec<CommitType>)
    ensures
        forall|x: int, y: int| 0 <= x < y < r@.len() ==> cat_lt(r@[x]@, r@[y]@),
        forall|i: int|
            0 <= i < changes.deep_view().len() && !is_reserved_cat(
                (#[trigger] changes.deep_view()[i]).commit.commit_type,
            ) ==> cat_in(r@, changes.deep_view()[i].commit.commit_type),
        forall|k: int|
            0 <= k < r@.len() ==> !is_reserved_cat((#[trigger] r@[k])@) && cat_appears(
                changes.deep_view(),
                r@[k]@,
            ),
{
    let ghost cd = changes.deep_view();
    let mut cats: Vec<CommitType> = Vec::new();
    let mut i: usize = 0;
    while i < changes.len()
        invariant
            i <= changes@.len(),
            cd == changes.deep_view(),
            cd.len() == changes@.len(),
            forall|x: int, y: int| 0 <= x < y < cats@.len() ==> cat_lt(cats@[x]@, cats@[y]@),
            forall|j: int|
                0 <= j < i && !is_reserved_cat((#[trigger] cd[j]).commit.commit_type) ==> cat_in(
                    cats@,
                    cd[j].commit.commit_type,
                ),
            forall|k: int|
                0 <= k < cats@.len() ==> !is_reserved_cat((#[trigger] cats@[k])@) && cat_appears(
                    cd,
                    cats@[k]@,
                ),
        decreases changes@.len() - i,
    {
        proof {
            assert(changes@[i as int]@ == cd[i as int]);
        }
        let c = &changes[i].commit.commit_type;
        if !cat_is_reserved(c) {
            proof {
                assert(cat_appears(cd, c@)) by {
                    assert((cd[i as int]).commit.commit_type == c@);
                }
            }
            insert_sorted_cat(&mut cats, c, Ghost(cd));
        }
        i = i + 1;
    }
    cats
}

/// Inserts a category into a strictly sorted list, keeping it sorted; a
/// category already present is left alone.
fn insert_sorted_cat(cats: &mut Vec<CommitType>, c: &CommitType, Ghost(cd): Ghost<Seq<CommitInfoV>>)
    requires
        forall|x: int, y: int|
            0 <= x < y < old(cats)@.len() ==> cat_lt(old(cats)@[x]@, old(cats)@[y]@),
        cat_appears(cd, c@),
        !is_reserved_cat(c@),
        forall|k: int|
            0 <= k < old(cats)@.len() ==> !is_reserved_cat((#[trigger] old(cats)@[k])@)
                && cat_appears(cd, old(cats)@[k]@),
    ensures
        forall|x: int, y: int|
            0 <= x < y < final(cats)@.len() ==> cat_lt(final(cats)@[x]@, final(cats)@[y]@),
        cat_in(final(cats)@, c@),
        forall|k: int|
            0 <= k < old(cats)@.len() ==> cat_in(final(cats)@, (#[trigger] old(cats)@[k])@),
        forall|k: int|
            0 <= k < final(cats)@.len() ==> !is_reserved_cat((#[trigger] final(cats)@[k])@)
                && cat_appears(cd, final(cats)@[k]@),
{
    let mut i: usize = 0;
    while i < cats.len() && cats[i].lt(c)
        invariant
            i <= cats@.len(),
            cats@ == old(cats)@,
            forall|j: int| 0 <= j < i ==> cat_lt(cats@[j]@, c@),
        decreases cats@.len() - i,
    {
        i = i + 1;
    }
    if i < cats.len() {
        if cats[i].same(c) {
            proof {
                assert((cats@[i as int])@ == c@);
                assert(forall|k: int|
                    0 <= k < cats@.len() ==> cat_in(cats@, (#[trigger] cats@[k])@));
            }
            return ;
        }
    }
    proof {
        if i < cats@.len() {
            lemma_cat_lt_trichotomy(cats@[i as int]@, c@);
            assert(cat_lt(c@, cats@[i as int]@));
        }
    }
    let ghost old_cs = cats@;
    cats.insert(i, c.clone());
    proof {
        assert(cats@ == old_cs.insert(i as int, *c));
        assert(forall|j: int| 0 <= j < i ==> cats@[j] == old_cs[j]);
        assert(cats@[i as int] == *c);
        assert(forall|j: int| i < j < cats@.len() ==> cats@[j] == old_cs[j - 1]);
        assert forall|x: int, y: int|
            0 <= x < y < cats@.len() implies cat_lt(cats@[x]@, cats@[y]@) by {
            if x == i && y > i + 1 {
                lemma_cat_lt_transitive(c@, old_cs[i as int]@, old_cs[y - 1]@);
            }
        }
        assert(cat_in(cats@, c@)) by {
            assert((cats@[i as int])@ == c@);
        }
        assert forall|k: int| #![trigger old_cs[k]] 0 <= k < old_cs.len() implies cat_in(
            cats@,
            old_cs[k]@,
        ) by {
            if k < i {
                assert((cats@[k])@ == old_cs[k]@);
            } else {
                assert((cats@[k + 1])@ == old_cs[k]@);
            }
        }
        assert forall|k: int| #![trigger cats@[k]] 0 <= k < cats@.len() implies !is_reserved_cat(
            (cats@[k])@,
        ) && cat_appears(cd, cats@[k]@) by {
            if k < i {
                assert(cats@[k] == old_cs[k]);
            } else if k > i {
                assert(cats@[k] == old_cs[k - 1]);
            }
        }
    }
}

/// Does the name appear in the list?
pub open spec fn name_in(names: Seq<String>, x: Seq<char>) -> bool {
    exists|k: int| 0 <= k < names.len() && (#[trigger] names[k])@ == x
}

/// The distinct scope names of the commits with this category, in order.
fn sorted_scopes(changes: &Vec<CommitInfo>, cat: &CommitType) -> (r: Vec<String>)
    ensures
        forall|x: int, y: int| 0 <= x < y < r@.len() ==> seq_lt(r@[x]@, r@[y]@),
        forall|i: int|
            0 <= i < changes.deep_view().len() && (#[trigger] changes.deep_view()[i]).commit.commit_type
                == cat@ ==> name_in(r@, scope_name(changes.deep_view()[i])),
        forall|k: int|
            0 <= k < r@.len() ==> appears_in(changes.deep_view(), cat@, (#[trigger] r@[k])@),
{
    let ghost cd = changes.deep_view();
    let mut names: Vec<String> = Vec::new();
    let mut i: usize = 0;
    while i < changes.len()
        invariant
            i <= changes@.len(),
            cd == changes.deep_view(),
            cd.len() == changes@.len(),
            forall|x: int, y: int| 0 <= x < y < names@.len() ==> seq_lt(names@[x]@, names@[y]@),
            forall|j: int|
                0 <= j < i && (#[trigger] cd[j]).commit.commit_type == cat@ ==> name_in(
                    names@,
                    scope_name(cd[j]),
                ),
            forall|k: int|
                0 <= k < names@.len() ==> appears_in(cd, cat@, (#[trigger] names@[k])@),
        decreases changes@.len() - i,
    {
        proof {
            assert(changes@[i as int]@ == cd[i as int]);
        }
        let c = &changes[i];
        if c.commit.commit_type.same(cat) {
            let name = match &c.commit.scope {
                Some(s) => s.clone(),
                None => String::new(),
            };
            proof {
                assert(name@ =~= scope_name(cd[i as int]));
                assert(appears_in(cd, cat@, name@)) by {
                    assert((cd[i as int]).commit.commit_type == cat@ && scope_name(cd[i as int])
                        == name@);
                }
            }
            insert_sorted_scope(&mut names, &name, Ghost(cd), Ghost(cat@));
        }
        i = i + 1;
    }
    names
}

fn insert_sorted_scope(
    names: &mut Vec<String>,
    name: &String,
    Ghost(cd): Ghost<Seq<CommitInfoV>>,
    Ghost(cat): Ghost<CommitTypeV>,
)
    requires
        forall|x: int, y: int|
            0 <= x < y < old(names)@.len() ==> seq_lt(old(names)@[x]@, old(names)@[y]@),
        appears_in(cd, cat, name@),
        forall|k: int|
            0 <= k < old(names)@.len() ==> appears_in(cd, cat, (#[trigger] old(names)@[k])@),
    ensures
        forall|x: int, y: int|
            0 <= x < y < final(names)@.len() ==> seq_lt(final(names)@[x]@, final(names)@[y]@),
        name_in(final(names)@, name@),
        forall|k: int|
            0 <= k < old(names)@.len() ==> name_in(final(names)@, (#[trigger] old(names)@[k])@),
        forall|k: int|
            0 <= k < final(names)@.len() ==> appears_in(cd, cat, (#[trigger] final(names)@[k])@),
{
    let name_chars = str_to_chars(name.as_str());
    let mut i: usize = 0;
    loop
        invariant_except_break
            i <= names@.len(),
            names@ == old(names)@,
            name_chars@ == name@,
            forall|j: int| 0 <= j < i ==> seq_lt(names@[j]@, name@),
        ensures
            i <= names@.len(),
            names@ == old(names)@,
            name_chars@ == name@,
            forall|j: int| 0 <= j < i ==> seq_lt(names@[j]@, name@),
            i < names@.len() ==> !seq_lt(names@[i as int]@, name@),
        decreases names@.len() - i,
    {
        if i >= names.len() {
            break;
        }
        let cand = str_to_chars(names[i].as_str());
        if !crate::category::lex_lt_chars(&cand, &name_chars) {
            break;
        }
        i = i + 1;
    }
    if i < names.len() {
        let cand = str_to_chars(names[i].as_str());
        if crate::text::eq_chars(&cand, &name_chars) {
            proof {
                assert((names@[i as int])@ == name@);
                assert(forall|k: int|
                    0 <= k < names@.len() ==> name_in(names@, (#[trigger] names@[k])@));
            }
            return ;
        }
        proof {
            lemma_seq_lt_trichotomy(names@[i as int]@, name@);
            assert(seq_lt(name@, names@[i as int]@));
        }
    }
    let ghost old_ns = names@;
    names.insert(i, name.clone());
    proof {
        assert(names@ == old_ns.insert(i as int, *name));
        assert(forall|j: int| 0 <= j < i ==> names@[j] == old_ns[j]);
        assert((names@[i as int])@ == name@);
        assert(forall|j: int| i < j < names@.len() ==> names@[j] == old_ns[j - 1]);
        assert forall|x: int, y: int|
            0 <= x < y < names@.len() implies seq_lt(names@[x]@, names@[y]@) by {
            if x == i && y > i + 1 {
                lemma_seq_lt_transitive(name@, old_ns[i as int]@, old_ns[y - 1]@);
            }
        }
        assert(name_in(names@, name@)) by {
            assert((names@[i as int])@ == name@);
        }
        assert forall|k: int| #![trigger old_ns[k]] 0 <= k < old_ns.len() implies name_in(
            names@,
            old_ns[k]@,
        ) by {
            if k < i {
                assert((names@[k])@ == old_ns[k]@);
            } else {
                assert((names@[k + 1])@ == old_ns[k]@);
            }
        }
        assert forall|k: int| #![trigger names@[k]] 0 <= k < names@.len() implies appears_in(
            cd,
            cat,
            (names@[k])@,
        ) by {
            if k < i {
                assert(names@[k] == old_ns[k]);
            } else if k > i {
                assert(names@[k] == old_ns[k - 1]);
            }
        }
    }
}

/// The commits of one category, split by its sorted scopes.
fn build_group(changes: &Vec<CommitInfo>, cat: &CommitType) -> (r: CommitGroup)
    ensures
        r@.commit_type == cat@,
        group_wf(changes.deep_view(), r@),
{
    let ghost cd = changes.deep_view();
    let names = sorted_scopes(changes, cat);
    let mut scopes: Vec<(String, Vec<CommitInfo>)> = Vec::new();
    let mut s: usize = 0;
    while s < names.len()
        invariant
            s <= names@.len(),
            cd == changes.deep_view(),
            scopes@.len() == s,
            scopes.deep_view().len() == s,
            forall|x: int, y: int| 0 <= x < y < names@.len() ==> seq_lt(names@[x]@, names@[y]@),
            forall|k: int|
                0 <= k < names@.len() ==> appears_in(cd, cat@, (#[trigger] names@[k])@),
            forall|i: int|
                0 <= i < cd.len() && (#[trigger] cd[i]).commit.commit_type == cat@ ==> name_in(
                    names@,
                    scope_name(cd[i]),
                ),
            forall|k: int| 0 <= k < s ==> (#[trigger] scopes.deep_view()[k]).0 == names@[k]@,
            forall|k: int|
                0 <= k < s ==> (#[trigger] scopes.deep_view()[k]).1 == bucket_spec(
                    cd,
                    cat@,
                    names@[k]@,
                ),
        decreases names@.len() - s,
    {
        let items = bucket(changes, cat, &names[s]);
        let ghost before = scopes.deep_view();
        scopes.push((names[s].clone(), items));
        proof {
            assert(scopes.deep_view() =~~= before.push(
                (names@[s as int]@, bucket_spec(cd, cat@, names@[s as int]@)),
            ));
        }
        s = s + 1;
    }
    let r = CommitGroup { commit_type: cat.clone(), scopes };
    proof {
        assert(r@.commit_type == cat@);
        assert forall|i: int|
            0 <= i < cd.len() && (#[trigger] cd[i]).commit.commit_type == r@.commit_type
                implies group_has_scope(r@, scope_name(cd[i])) by {
            assert(name_in(names@, scope_name(cd[i])));
            let k = choose|k: int|
                0 <= k < names@.len() && (#[trigger] names@[k])@ == scope_name(cd[i]);
            assert((r@.scopes[k]).0 == scope_name(cd[i]));
        }
    }
    r
}

impl ChangeLog {
    /// Groups the collected commits by category and scope, in the fixed
    /// category order, scopes sorted by name, commits kept newest first;
    /// reserved (tool-generated) categories are left out.
    pub fn aggregated_commits(&self) -> (r: Vec<CommitGroup>)
        ensures
            aggregated_wf(self.changes.deep_view(), r.deep_view()),
    {
        let ghost cd = self.changes.deep_view();
        let cats = sorted_cats(&self.changes);
        let mut groups: Vec<CommitGroup> = Vec::new();
        let mut g: usize = 0;
        while g < cats.len()
            invariant
                g <= cats@.len(),
                cd == self.changes.deep_view(),
                groups@.len() == g,
                groups.deep_view().len() == g,
                forall|x: int, y: int| 0 <= x < y < cats@.len() ==> cat_lt(cats@[x]@, cats@[y]@),
                forall|k: int|
                    0 <= k < cats@.len() ==> !is_reserved_cat((#[trigger] cats@[k])@)
                        && cat_appears(cd, cats@[k]@),
                forall|i: int|
                    0 <= i < cd.len() && !is_reserved_cat(
                        (#[trigger] cd[i]).commit.commit_type,
                    ) ==> cat_in(cats@, cd[i].commit.commit_type),
                forall|x: int|
                    0 <= x < g ==> (#[trigger] groups.deep_view()[x]).commit_type == cats@[x]@,
                forall|x: int| 0 <= x < g ==> group_wf(cd, #[trigger] groups.deep_view()[x]),
            decreases cats@.len() - g,
        {
            let group = build_group(&self.changes, &cats[g]);
            let ghost gv = group@;
            let ghost gbefore = groups.deep_view();
            groups.push(group);
            proof {
                assert(groups.deep_view() =~~= gbefore.push(gv));
            }
            g = g + 1;
        }
        proof {
            let gd = groups.deep_view();
            assert forall|i: int|
                0 <= i < cd.len() && !is_reserved_cat((#[trigger] cd[i]).commit.commit_type)
                    implies groups_have_cat(gd, cd[i].commit.commit_type) by {
                let k = choose|k: int|
                    0 <= k < cats@.len() && (#[trigger] cats@[k])@ == cd[i].commit.commit_type;
                assert((gd[k]).commit_type == cd[i].commit.commit_type);
            }
        }
        groups
    }
}

// ---------------------------------------------------------------------------
// Release notes
// ---------------------------------------------------------------------------

pub open spec fn zeros(k: int) -> Seq<char> {
    if k <= 0 {
        Seq::empty()
    } else {
        Seq::new(k as nat, |i: int| '0')
    }
}

/// A number in decimal, zero-padded to a width.
pub open spec fn pad_num(n: int, width: int) -> Seq<char> {
    zeros(width - dec_chars(n as nat).len()) + dec_chars(n as nat)
}

/// A year, padded to four digits, negative years with a sign.
pub open spec fn year_chars(y: int) -> Seq<char> {
    if y < 0 {
        seq!['-'] + pad_num(-y, 4)
    } else {
        pad_num(y, 4)
    }
}

/// `YYYY-MM-DD`.
pub open spec fn date_chars(y: int, m: int, d: int) -> Seq<char> {
    year_chars(y) + seq!['-'] + pad_num(m, 2) + seq!['-'] + pad_num(d, 2)
}

/// One line per commit, newest first.
pub open spec fn notes_commits(cs: Seq<CommitInfoV>) -> Seq<char>
    decreases cs.len(),
{
    if cs.len() == 0 {
        Seq::empty()
    } else {
        "- "@ + cs[0].commit.subject + "\n"@ + notes_commits(cs.subrange(1, cs.len() as int))
    }
}

/// Each scope under its heading; the empty scope has none.
pub open spec fn notes_scopes(ss: Seq<(Seq<char>, Seq<CommitInfoV>)>) -> Seq<char>
    decreases ss.len(),
{
    if ss.len() == 0 {
        Seq::empty()
    } else {
        (if ss[0].0.len() == 0 {
            Seq::<char>::empty()
        } else {
            "\n### "@ + ss[0].0 + "\n"@
        }) + notes_commits(ss[0].1) + notes_scopes(ss.subrange(1, ss.len() as int))
    }
}

/// Each category under its release label.
pub open spec fn notes_groups(gs: Seq<CommitGroupV>) -> Seq<char>
    decreases gs.len(),
{
    if gs.len() == 0 {
        Seq::empty()
    } else {
        "\n\n## "@ + cat_label(gs[0].commit_type) + "\n"@ + notes_scopes(gs[0].scopes)
            + notes_groups(gs.subrange(1, gs.len() as int))
    }
}

/// The whole document: a header naming the next version and the date, then
/// the groups.
pub open spec fn notes_spec(
    gs: Seq<CommitGroupV>,
    next: SimpleVersion,
    y: int,
    m: int,
    d: int,
) -> Seq<char> {
    "# Release notes: "@ + version_chars(next) + " ("@ + date_chars(y, m, d) + ")\n"@
        + notes_groups(gs)
}

/// The text is the release notes of these changes for the next version, as
/// rendered on some calendar day.
pub open spec fn is_release_notes_for(
    changes: Seq<CommitInfoV>,
    next: SimpleVersion,
    out: Seq<char>,
) -> bool {
    exists|gs: Seq<CommitGroupV>, y: int, m: int, d: int|
        aggregated_wf(changes, gs) && 1 <= m <= 12 && 1 <= d <= 31 && out == #[trigger] notes_spec(
            gs,
            next,
            y,
            m,
            d,
        )
}

fn pad_num_exec(n: u64, width: usize) -> (r: Vec<char>)
    ensures
        r@ == pad_num(n as int, width as int),
{
    let ds = u64_to_chars(n);
    let mut out: Vec<char> = Vec::new();
    let mut k: usize = 0;
    while k + ds.len() < width
        invariant
            out@.len() == k,
            k + ds@.len() <= width || k == 0,
            forall|j: int| 0 <= j < k ==> out@[j] == '0',
            ds@.len() >= 1,
            width <= usize::MAX,
        decreases width - k,
    {
        out.push('0');
        k = k + 1;
    }
    proof {
        assert(out@ =~= zeros(width - dec_chars(n as nat).len()));
    }
    crate::text::push_chars(&mut out, &ds);
    proof {
        assert(out@ =~= pad_num(n as int, width as int));
    }
    out
}

fn date_chars_exec(y: i32, m: u32, d: u32) -> (r: Vec<char>)
    ensures
        r@ == date_chars(y as int, m as int, d as int),
{
    let mut out: Vec<char> = Vec::new();
    if y < 0 {
        out.push('-');
        let mag: u64 = (-(y as i64)) as u64;
        proof {
            assert(mag == -(y as int));
        }
        let ys = pad_num_exec(mag, 4);
        push_chars(&mut out, &ys);
    } else {
        let ys = pad_num_exec(y as u64, 4);
        push_chars(&mut out, &ys);
    }
    proof {
        assert(out@ =~= year_chars(y as int));
    }
    out.push('-');
    let ms = pad_num_exec(m as u64, 2);
    push_chars(&mut out, &ms);
    out.push('-');
    let ds = pad_num_exec(d as u64, 2);
    push_chars(&mut out, &ds);
    proof {
        assert(out@ =~= date_chars(y as int, m as int, d as int));
    }
    out
}

/// Relies on `chrono::Local::now` and `chrono::Datelike`: the month is in
/// 1..=12 and the day in 1..=31, as their documentation states. The values
/// depend on the clock and the machine's time zone, so nothing more is
/// assumed of them.
#[verifier::external_body]
fn local_date_today() -> (r: (i32, u32, u32))
    ensures
        1 <= r.1 <= 12,
        1 <= r.2 <= 31,
{
    let now = chrono::Local::now();
    (chrono::Datelike::year(&now), chrono::Datelike::month(&now), chrono::Datelike::day(&now))
}

/// Renders the notes for already-aggregated groups.
pub fn render_release_notes(
    groups: &Vec<CommitGroup>,
    next: &SimpleVersion,
    y: i32,
    m: u32,
    d: u32,
) -> (r: String)
    ensures
        r@ == notes_spec(groups.deep_view(), *next, y as int, m as int, d as int),
{
    let ghost gd = groups.deep_view();
    let mut out: Vec<char> = Vec::new();
    push_str_chars(&mut out, "# Release notes: ");
    let vs = next.to_text();
    push_str_chars(&mut out, vs.as_str());
    push_str_chars(&mut out, " (");
    let dc = date_chars_exec(y, m, d);
    push_chars(&mut out, &dc);
    push_str_chars(&mut out, ")\n");
    let ghost header = out@;
    let mut g: usize = 0;
    proof {
        assert(gd.subrange(0, gd.len() as int) =~~= gd);
        assert(out@ + notes_groups(gd) =~= header + notes_groups(gd.subrange(0, gd.len() as int)));
    }
    while g < groups.len()
        invariant
            g <= groups@.len(),
            gd == groups.deep_view(),
            gd.len() == groups@.len(),
            header == "# Release notes: "@ + version_chars(*next) + " ("@ + date_chars(
                y as int,
                m as int,
                d as int,
            ) + ")\n"@,
            out@ + notes_groups(gd.subrange(g as int, gd.len() as int)) == header + notes_groups(
                gd,
            ),
        decreases groups@.len() - g,
    {
        let ghost grest = gd.subrange(g as int, gd.len() as int);
        proof {
            assert(grest[0] == gd[g as int]);
            assert(grest.subrange(1, grest.len() as int) =~~= gd.subrange(
                g + 1 as int,
                gd.len() as int,
            ));
            assert(groups@[g as int]@ == gd[g as int]);
        }
        let ghost gtail = notes_groups(gd.subrange(g + 1 as int, gd.len() as int));
        push_str_chars(&mut out, "\n\n## ");
        let label = groups[g].commit_type.as_release_note();
        push_str_chars(&mut out, label);
        push_str_chars(&mut out, "\n");
        let ghost at_scopes = out@;
        proof {
            assert(notes_groups(grest) == "\n\n## "@ + cat_label(gd[g as int].commit_type)
                + "\n"@ + notes_scopes(gd[g as int].scopes) + gtail);
        }
        let scopes = &groups[g].scopes;
        let ghost sd = gd[g as int].scopes;
        proof {
            assert(scopes.deep_view() =~~= sd);
            assert(sd.subrange(0, sd.len() as int) =~~= sd);
        }
        let mut sidx: usize = 0;
        while sidx < scopes.len()
            invariant
                sidx <= scopes@.len(),
                sd == scopes.deep_view(),
                sd.len() == scopes@.len(),
                out@ + notes_scopes(sd.subrange(sidx as int, sd.len() as int)) == at_scopes
                    + notes_scopes(sd),
            decreases scopes@.len() - sidx,
        {
            let ghost srest = sd.subrange(sidx as int, sd.len() as int);
            proof {
                assert(srest[0] == sd[sidx as int]);
                assert(srest.subrange(1, srest.len() as int) =~~= sd.subrange(
                    sidx + 1 as int,
                    sd.len() as int,
                ));
                assert((scopes@[sidx as int].0@, scopes@[sidx as int].1.deep_view())
                    == sd[sidx as int]);
            }
            let ghost stail = notes_scopes(sd.subrange(sidx + 1 as int, sd.len() as int));
            let name = &scopes[sidx].0;
            if name.as_str().unicode_len() > 0 {
                push_str_chars(&mut out, "\n### ");
                push_str_chars(&mut out, name.as_str());
                push_str_chars(&mut out, "\n");
            }
            let items = &scopes[sidx].1;
            let ghost cd2 = sd[sidx as int].1;
            proof {
                assert(items.deep_view() =~~= cd2);
                assert(cd2.subrange(0, cd2.len() as int) =~~= cd2);
            }
            let ghost at_commits = out@;
            let mut c: usize = 0;
            while c < items.len()
                invariant
                    c <= items@.len(),
                    cd2 == items.deep_view(),
                    cd2.len() == items@.len(),
                    out@ + notes_commits(cd2.subrange(c as int, cd2.len() as int)) == at_commits
                        + notes_commits(cd2),
                decreases items@.len() - c,
            {
                let ghost crest = cd2.subrange(c as int, cd2.len() as int);
                proof {
                    assert(crest[0] == cd2[c as int]);
                    assert(crest.subrange(1, crest.len() as int) =~~= cd2.subrange(
                        c + 1 as int,
                        cd2.len() as int,
                    ));
                    assert(items@[c as int]@ == cd2[c as int]);
                }
                push_str_chars(&mut out, "- ");
                push_str_chars(&mut out, items[c].commit.subject.as_str());
                push_str_chars(&mut out, "\n");
                proof {
                    assert(notes_commits(crest) == "- "@ + cd2[c as int].commit.subject + "\n"@
                        + notes_commits(cd2.subrange(c + 1 as int, cd2.len() as int)));
                    assert(out@ + notes_commits(cd2.subrange(c + 1 as int, cd2.len() as int))
                        =~= at_commits + notes_commits(cd2));
                }
                c = c + 1;
            }
            proof {
                assert(notes_commits(cd2.subrange(cd2.len() as int, cd2.len() as int)).len() == 0);
                assert(out@ =~= at_commits + notes_commits(cd2));
                assert(notes_scopes(srest) == (if sd[sidx as int].0.len() == 0 {
                    Seq::<char>::empty()
                } else {
                    "\n### "@ + sd[sidx as int].0 + "\n"@
                }) + notes_commits(sd[sidx as int].1) + stail);
                assert(out@ + stail =~= at_scopes + notes_scopes(sd));
            }
            sidx = sidx + 1;
        }
        proof {
            assert(notes_scopes(sd.subrange(sd.len() as int, sd.len() as int)).len() == 0);
            assert(out@ =~= at_scopes + notes_scopes(sd));
            assert(out@ + gtail =~= header + notes_groups(gd));
        }
        g = g + 1;
    }
    proof {
        assert(notes_groups(gd.subrange(gd.len() as int, gd.len() as int)).len() == 0);
        assert(out@ =~= header + notes_groups(gd));
        assert(out@ =~= notes_spec(gd, *next, y as int, m as int, d as int));
    }
    chars_to_string(&out)
}

impl ChangeLog {
    /// The release notes for a given calendar day: the commits grouped by
    /// category and scope, rendered under the next version.
    pub fn release_notes_on(
        &self,
        rules: &Vec<(CommitType, BumpRule)>,
        y: i32,
        m: u32,
        d: u32,
    ) -> (r: String)
        requires
            bump_fits(self.current_version, fold_bumps(self.changes.deep_view(), rules@)),
        ensures
            exists|gs: Seq<CommitGroupV>|
                aggregated_wf(self.changes.deep_view(), gs) && r@ == #[trigger] notes_spec(
                    gs,
                    bump_spec(
                        self.current_version,
                        fold_bumps(self.changes.deep_view(), rules@),
                    ),
                    y as int,
                    m as int,
                    d as int,
                ),
    {
        let groups = self.aggregated_commits();
        let next = self.next_version(rules);
        let out = render_release_notes(&groups, &next, y, m, d);
        proof {
            assert(aggregated_wf(self.changes.deep_view(), groups.deep_view()));
        }
        out
    }

    /// The release notes dated today (by the local clock).
    pub fn release_notes(&self, rules: &Vec<(CommitType, BumpRule)>) -> (r: String)
        requires
            bump_fits(self.current_version, fold_bumps(self.changes.deep_view(), rules@)),
        ensures
            is_release_notes_for(
                self.changes.deep_view(),
                bump_spec(self.current_version, fold_bumps(self.changes.deep_view(), rules@)),
                r@,
            ),
    {
        let today = local_date_today();
        let out = self.release_notes_on(rules, today.0, today.1, today.2);
        out
    }
}

} // verus!
