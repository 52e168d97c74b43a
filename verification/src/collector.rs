//! The changelog collector: walks a newest-first stream of commits, keeps a
//! running maximum bump, and stops at the first historical version boundary
//! whose granularity matches that maximum.

use vstd::prelude::*;

use crate::bump::bump_max;
use crate::bump::BumpRule;
use crate::category::CommitType;
use crate::commit_info::commit_bump;
use crate::commit_info::CommitInfo;
use crate::commit_info::CommitInfoV;
use crate::version::version_le;
use crate::version::SimpleVersion;

verus! {

/// A walked commit together with the version its boundary records, when
/// the commit touches the project manifest.
#[derive(Debug, Clone)]
pub struct CommitWithVersion {
    pub commit_info: CommitInfo,
    pub version_at_commit: Option<SimpleVersion>,
}

/// Ghost image of a commit with its boundary.
pub struct CommitWithVersionV {
    pub commit_info: CommitInfoV,
    pub version_at_commit: Option<SimpleVersion>,
}

impl View for CommitWithVersion {
    type V = CommitWithVersionV;

    open spec fn view(&self) -> CommitWithVersionV {
        CommitWithVersionV {
            commit_info: self.commit_info@,
            version_at_commit: self.version_at_commit,
        }
    }
}

impl DeepView for CommitWithVersion {
    type V = CommitWithVersionV;

    open spec fn deep_view(&self) -> CommitWithVersionV {
        self.view()
    }
}

/// The collector's running state.
#[derive(Debug, Clone)]
pub struct StoppingContext {
    pub current_version: SimpleVersion,
    pub max_bump_so_far: BumpRule,
    pub commits_collected: Vec<CommitInfo>,
}

// ---------------------------------------------------------------------------
// The stopping rule
// ---------------------------------------------------------------------------

/// Is a historical version `w` a boundary of the right granularity for the
/// pending maximum bump? A major bump needs a prior major anchor (x.0.0), a
/// minor bump a prior minor anchor (x.y.0); for a patch bump or weaker any
/// boundary suffices.
pub open spec fn appropriate_stop(maxb: BumpRule, w: SimpleVersion) -> bool {
    if maxb == BumpRule::Major {
        w.minor == 0 && w.patch == 0
    } else if maxb == BumpRule::Minor {
        w.patch == 0
    } else {
        true
    }
}

/// Does the walk stop here: the commit records a version at or below the
/// current one — it belongs to a release already made — and that version
/// is an appropriate anchor. A boundary above the current version is part
/// of the release under assembly and is collected instead.
pub open spec fn stop_at(
    maxb: BumpRule,
    current: SimpleVersion,
    boundary: Option<SimpleVersion>,
) -> bool {
    match boundary {
        None => false,
        Some(w) => version_le(w, current) && appropriate_stop(maxb, w),
    }
}

/// Decides whether collection should stop at this commit, given the
/// maximum bump seen so far.
pub fn should_stop_collecting(
    context: &StoppingContext,
    commit_with_version: &CommitWithVersion,
    _rules: &Vec<(CommitType, BumpRule)>,
) -> (r: bool)
    ensures
        r == stop_at(
            context.max_bump_so_far,
            context.current_version,
            commit_with_version.version_at_commit,
        ),
{
    // the decision does not depend on the rules
    match &commit_with_version.version_at_commit {
        None => false,
        Some(w) => {
            if !w.le(&context.current_version) {
                return false;
            }
            let maxb = context.max_bump_so_far;
            if maxb.rank() == 4 {
                w.minor() == 0 && w.patch() == 0
            } else if maxb.rank() == 3 {
                w.patch() == 0
            } else {
                true
            }
        },
    }
}

// ---------------------------------------------------------------------------
// The collection algorithm
// ---------------------------------------------------------------------------

/// One step of the collector: fold the commit's own bump into the running
/// maximum first, then decide. A stop collects nothing; anything else —
/// no boundary, a boundary at or above the current version, or one too
/// fine-grained for the pending bump — is collected and the walk goes on.
pub open spec fn collect_from(
    cs: Seq<CommitWithVersionV>,
    current: SimpleVersion,
    rules: Seq<(CommitType, BumpRule)>,
    maxb: BumpRule,
) -> Seq<CommitInfoV>
    decreases cs.len(),
{
    if cs.len() == 0 {
        Seq::empty()
    } else {
        let c = cs[0];
        let m2 = bump_max(maxb, commit_bump(c.commit_info.commit, rules));
        if stop_at(m2, current, c.version_at_commit) {
            Seq::empty()
        } else {
            seq![c.commit_info] + collect_from(cs.drop_first(), current, rules, m2)
        }
    }
}

/// The commits of the pending release: the walk starts with no opinion.
pub open spec fn collect_spec(
    cs: Seq<CommitWithVersionV>,
    current: SimpleVersion,
    rules: Seq<(CommitType, BumpRule)>,
) -> Seq<CommitInfoV> {
    collect_from(cs, current, rules, BumpRule::Notset)
}

/// The maximum bump over the first `i` commits, folded onto `maxb`.
pub open spec fn max_from(
    cs: Seq<CommitWithVersionV>,
    rules: Seq<(CommitType, BumpRule)>,
    maxb: BumpRule,
    i: int,
) -> BumpRule
    decreases i,
{
    if i <= 0 {
        maxb
    } else {
        bump_max(max_from(cs, rules, maxb, i - 1), commit_bump(cs[i - 1].commit_info.commit, rules))
    }
}

/// One step of the collector over its full state, for callers that drive
/// the walk themselves: returns whether the walk stops here.
pub fn collect_step(
    context: &mut StoppingContext,
    commit: &CommitWithVersion,
    rules: &Vec<(CommitType, BumpRule)>,
) -> (stop: bool)
    ensures
        final(context).current_version == old(context).current_version,
        final(context).max_bump_so_far == bump_max(
            old(context).max_bump_so_far,
            commit_bump(commit@.commit_info.commit, rules@),
        ),
        stop == stop_at(
            final(context).max_bump_so_far,
            old(context).current_version,
            commit@.version_at_commit,
        ),
        stop ==> final(context).commits_collected == old(context).commits_collected,
        !stop ==> final(context).commits_collected.deep_view() == old(
            context,
        ).commits_collected.deep_view().push(commit@.commit_info),
{
    let cb = commit.commit_info.rule(rules);
    context.max_bump_so_far = context.max_bump_so_far.max_with(cb);
    let stop = should_stop_collecting(context, commit, rules);

    if !stop {
        let ghost before = context.commits_collected.deep_view();
        context.commits_collected.push(commit.commit_info.clone());
        proof {
            assert(context.commits_collected.deep_view() =~~= before.push(commit@.commit_info));
        }
    }
    stop
}

/// Collects the commits of the pending release from an already-walked,
/// newest-first list.
pub fn collect_changelog_commits(
    commits_with_versions: &Vec<CommitWithVersion>,
    current_version: &SimpleVersion,
    rules: &Vec<(CommitType, BumpRule)>,
) -> (r: Vec<CommitInfo>)
    ensures
        r.deep_view() == collect_spec(commits_with_versions.deep_view(), *current_version, rules@),
{
    let ghost cd = commits_with_versions.deep_view();
    let mut out: Vec<CommitInfo> = Vec::new();
    let mut maxb = BumpRule::Notset;
    let mut i: usize = 0;
    proof {
        assert(cd.skip(0) =~~= cd);
        assert(out.deep_view() + collect_from(cd, *current_version, rules@, BumpRule::Notset)
            =~~= collect_from(cd, *current_version, rules@, BumpRule::Notset));
    }
    while i < commits_with_versions.len()
        invariant
            i <= commits_with_versions@.len(),
            cd == commits_with_versions.deep_view(),
            cd.len() == commits_with_versions@.len(),
            collect_spec(cd, *current_version, rules@) == out.deep_view() + collect_from(
                cd.skip(i as int),
                *current_version,
                rules@,
                maxb,
            ),
        decreases commits_with_versions@.len() - i,
    {
        let ghost rest = cd.skip(i as int);
        proof {
            assert(rest[0] == cd[i as int]);
            assert(rest.drop_first() =~= cd.skip(i + 1 as int));
            assert(commits_with_versions@[i as int]@ == cd[i as int]);
        }
        let c = &commits_with_versions[i];
        let cb = c.commit_info.rule(rules);
        let m2 = maxb.max_with(cb);
        let stop = {
            match &c.version_at_commit {
                None => false,
                Some(w) => {
                    if !w.le(current_version) {
                        false
                    } else if m2.rank() == 4 {
                        w.minor() == 0 && w.patch() == 0
                    } else if m2.rank() == 3 {
                        w.patch() == 0
                    } else {
                        true
                    }
                },
            }
        };
        proof {
            assert(stop == stop_at(m2, *current_version, cd[i as int].version_at_commit));
        }
        if stop {
            proof {
                assert(collect_from(rest, *current_version, rules@, maxb) =~~= Seq::<
                    CommitInfoV,
                >::empty());
                assert(out.deep_view() + Seq::<CommitInfoV>::empty() =~~= out.deep_view());
            }
            return out;
        }
        let ghost before = out.deep_view();
        out.push(c.commit_info.clone());
        proof {
            assert(out.deep_view() =~~= before.push(cd[i as int].commit_info));
            let tail = collect_from(cd.skip(i + 1 as int), *current_version, rules@, m2);
            assert(collect_from(rest, *current_version, rules@, maxb) == seq![
                cd[i as int].commit_info,
            ] + tail);
            assert(before + (seq![cd[i as int].commit_info] + tail) =~~= before.push(
                cd[i as int].commit_info,
            ) + tail);
        }
        maxb = m2;
        i = i + 1;
    }
    proof {
        assert(cd.skip(cd.len() as int).len() == 0);
        assert(out.deep_view() + Seq::<CommitInfoV>::empty() =~~= out.deep_view());
    }
    out
}

// ---------------------------------------------------------------------------
// What the collector guarantees
// ---------------------------------------------------------------------------

proof fn lemma_collect_from_characterization(
    cs: Seq<CommitWithVersionV>,
    current: SimpleVersion,
    rules: Seq<(CommitType, BumpRule)>,
    maxb: BumpRule,
)
    ensures
        collect_from(cs, current, rules, maxb).len() <= cs.len(),
        forall|j: int|
            0 <= j < collect_from(cs, current, rules, maxb).len() ==> collect_from(
                cs,
                current,
                rules,
                maxb,
            )[j] == cs[j].commit_info,
        forall|j: int|
            0 <= j < collect_from(cs, current, rules, maxb).len() ==> !stop_at(
                max_from(cs, rules, maxb, j + 1),
                current,
                cs[j].version_at_commit,
            ),
        collect_from(cs, current, rules, maxb).len() < cs.len() ==> stop_at(
            max_from(cs, rules, maxb, collect_from(cs, current, rules, maxb).len() as int + 1),
            current,
            cs[collect_from(cs, current, rules, maxb).len() as int].version_at_commit,
        ),
    decreases cs.len(),
{
    let r = collect_from(cs, current, rules, maxb);
    if cs.len() > 0 {
        let c = cs[0];
        let m2 = bump_max(maxb, commit_bump(c.commit_info.commit, rules));
        assert(max_from(cs, rules, maxb, 0) == maxb);
        assert(max_from(cs, rules, maxb, 1) == m2);
        if !stop_at(m2, current, c.version_at_commit) {
            let t = cs.drop_first();
            lemma_collect_from_characterization(t, current, rules, m2);
            let rt = collect_from(t, current, rules, m2);
            assert(r == seq![c.commit_info] + rt);
            assert(forall|j: int| 0 <= j < t.len() ==> t[j] == cs[j + 1]);
            assert(forall|j: int| 1 <= j < r.len() ==> r[j] == rt[j - 1]);
            assert forall|j: int| 0 <= j < r.len() implies !stop_at(
                max_from(cs, rules, maxb, j + 1),
                current,
                cs[j].version_at_commit,
            ) by {
                if j == 0 {
                    assert(max_from(cs, rules, maxb, 1) == m2);
                } else {
                    lemma_max_from_shift(cs, rules, maxb, j);
                    assert(!stop_at(
                        max_from(t, rules, m2, j),
                        current,
                        t[j - 1].version_at_commit,
                    ));
                    assert(t[j - 1] == cs[j]);
                }
            }
            if r.len() < cs.len() {
                lemma_max_from_shift(cs, rules, maxb, r.len() as int);
                assert(stop_at(
                    max_from(t, rules, m2, rt.len() as int + 1),
                    current,
                    t[rt.len() as int].version_at_commit,
                ));
                assert(t[rt.len() as int] == cs[r.len() as int]);
            }
        }
    }
}

proof fn lemma_max_from_shift(
    cs: Seq<CommitWithVersionV>,
    rules: Seq<(CommitType, BumpRule)>,
    maxb: BumpRule,
    j: int,
)
    requires
        cs.len() > 0,
        0 <= j <= cs.len() - 1,
    ensures
        max_from(cs, rules, maxb, j + 1) == max_from(
            cs.drop_first(),
            rules,
            bump_max(maxb, commit_bump(cs[0].commit_info.commit, rules)),
            j,
        ),
    decreases j,
{
    let m2 = bump_max(maxb, commit_bump(cs[0].commit_info.commit, rules));
    if j > 0 {
        lemma_max_from_shift(cs, rules, maxb, j - 1);
        assert(cs.drop_first()[j - 1] == cs[j]);
    } else {
        assert(max_from(cs, rules, maxb, 0) == maxb);
        assert(max_from(cs.drop_first(), rules, m2, 0) == m2);
        assert(max_from(cs, rules, maxb, 1) == m2);
    }
}

/// The collector stops exactly at the first appropriate boundary: it
/// collects a prefix of the walked commits; no collected commit was an
/// appropriate stop under the maximum bump pending at its turn; and when
/// anything of the history is left out, the first commit left out is an
/// appropriate stop. (The walk itself is a total function, so it ends on
/// every finite history.)
pub proof fn lemma_collector_stops_at_first_boundary(
    cs: Seq<CommitWithVersionV>,
    current: SimpleVersion,
    rules: Seq<(CommitType, BumpRule)>,
)
    ensures
        collect_spec(cs, current, rules).len() <= cs.len(),
        forall|j: int|
            0 <= j < collect_spec(cs, current, rules).len() ==> collect_spec(cs, current, rules)[j]
                == cs[j].commit_info,
        forall|j: int|
            0 <= j < collect_spec(cs, current, rules).len() ==> !stop_at(
                max_from(cs, rules, BumpRule::Notset, j + 1),
                current,
                cs[j].version_at_commit,
            ),
        collect_spec(cs, current, rules).len() < cs.len() ==> stop_at(
            max_from(cs, rules, BumpRule::Notset, collect_spec(cs, current, rules).len() as int + 1),
            current,
            cs[collect_spec(cs, current, rules).len() as int].version_at_commit,
        ),
{
    lemma_collect_from_characterization(cs, current, rules, BumpRule::Notset);
}

} // verus!
