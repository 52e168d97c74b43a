//! One commit as the history walker yields it: its id, the paths it
//! touched, its parsed message and its timestamp; and the bump it asks for.

use vstd::prelude::*;

use crate::bump::BumpRule;
use crate::category::CommitType;
use crate::commit::ConventionalCommit;
use crate::commit::ConventionalCommitV;
use crate::rules::lookup_rule;

verus! {

#[derive(Debug, PartialEq, Eq)]
pub struct CommitInfo {
    /// The commit id, an opaque string.
    pub id: String,
    /// The paths the commit touched.
    pub files: Vec<String>,
    /// The parsed commit message.
    pub commit: ConventionalCommit,
    /// Commit time, in seconds since the UNIX epoch.
    pub timestamp: u64,
}

/// Ghost image of a walked commit.
pub struct CommitInfoV {
    pub id: Seq<char>,
    pub files: Seq<Seq<char>>,
    pub commit: ConventionalCommitV,
    pub timestamp: u64,
}

impl View for CommitInfo {
    type V = CommitInfoV;

    open spec fn view(&self) -> CommitInfoV {
        CommitInfoV {
            id: self.id@,
            files: self.files.deep_view(),
            commit: self.commit@,
            timestamp: self.timestamp,
        }
    }
}

impl DeepView for CommitInfo {
    type V = CommitInfoV;

    open spec fn deep_view(&self) -> CommitInfoV {
        self.view()
    }
}

/// The bump a single commit asks for: a breaking change is always major;
/// otherwise the composed rules decide, with no second fallback.
pub open spec fn commit_bump(p: ConventionalCommitV, rules: Seq<(CommitType, BumpRule)>) -> BumpRule {
    if p.breaking_change {
        BumpRule::Major
    } else {
        lookup_rule(rules, p.commit_type)
    }
}

/// A breaking commit asks for a major bump under every rule map.
pub proof fn lemma_breaking_commit_is_major(
    p: ConventionalCommitV,
    rules: Seq<(CommitType, BumpRule)>,
)
    requires
        p.breaking_change,
    ensures
        commit_bump(p, rules) == BumpRule::Major,
{
}

pub fn clone_string_vec(v: &Vec<String>) -> (r: Vec<String>)
    ensures
        r.deep_view() == v.deep_view(),
        r@.len() == v@.len(),
{
    let mut r: Vec<String> = Vec::new();
    let mut i: usize = 0;
    while i < v.len()
        invariant
            i <= v@.len(),
            r@.len() == i,
            forall|j: int| 0 <= j < i ==> r@[j]@ == v@[j]@,
        decreases v@.len() - i,
    {
        r.push(v[i].clone());
        i = i + 1;
    }
    proof {
        assert(r.deep_view() =~~= v.deep_view());
    }
    r
}

impl Clone for CommitInfo {
    fn clone(&self) -> (r: Self)
        ensures
            r@ == self@,
    {
        let r = CommitInfo {
            id: self.id.clone(),
            files: clone_string_vec(&self.files),
            commit: self.commit.clone(),
            timestamp: self.timestamp,
        };
        proof {
            assert(r@.files =~~= self@.files);
        }
        r
    }
}

impl CommitInfo {
    pub fn new(id: String, files: Vec<String>, commit: ConventionalCommit, timestamp: u64) -> (r:
        Self)
        ensures
            r@.id == id@,
            r@.files == files.deep_view(),
            r@.commit == commit@,
            r@.timestamp == timestamp,
    {
        CommitInfo { id, files, commit, timestamp }
    }

    /// The canonical text of the parsed message.
    pub fn message(&self) -> (r: String)
        ensures
            r@ == crate::commit::format_commit(self@.commit),
    {
        self.commit.message()
    }

    pub fn commit_type(&self) -> (r: &CommitType)
        ensures
            r@ == self@.commit.commit_type,
    {
        &self.commit.commit_type
    }

    /// The bump this commit asks for under the given rules.
    pub fn rule(&self, rules: &Vec<(CommitType, BumpRule)>) -> (r: BumpRule)
        ensures
            r == commit_bump(self@.commit, rules@),
    {
        if self.commit.is_breaking() {
            return BumpRule::Major;
        }
        crate::rules::match_rule(rules, &self.commit.commit_type)
    }

    /// Did the commit touch this path?
    pub fn contains(&self, file: &str) -> (r: bool)
        ensures
            r == self@.files.contains(file@),
    {
        let mut i: usize = 0;
        while i < self.files.len()
            invariant
                i <= self.files@.len(),
                forall|j: int| 0 <= j < i ==> self.files@[j]@ != file@,
            decreases self.files@.len() - i,
        {
            if crate::text::chars_eq_str(&crate::text::str_to_chars(self.files[i].as_str()), file) {
                proof {
                    assert(self@.files[i as int] == file@);
                }
                return true;
            }
            i = i + 1;
        }
        proof {
            assert(forall|j: int| 0 <= j < self@.files.len() ==> self@.files[j] == self.files@[j]@);
        }
        false
    }

    /// The same commit under another id.
    pub fn with_id(self, id: String) -> (r: Self)
        ensures
            r@.id == id@,
            r@.files == self@.files,
            r@.commit == self@.commit,
            r@.timestamp == self@.timestamp,
    {
        CommitInfo { id, ..self }
    }

    /// The same commit with another parsed message.
    pub fn with_commit(self, commit: ConventionalCommit) -> (r: Self)
        ensures
            r@.id == self@.id,
            r@.files == self@.files,
            r@.commit == commit@,
            r@.timestamp == self@.timestamp,
    {
        CommitInfo { commit, ..self }
    }

    /// The same commit with one more touched path.
    pub fn add_file(self, file: String) -> (r: Self)
        ensures
            r@.id == self@.id,
            r@.files == self@.files.push(file@),
            r@.commit == self@.commit,
            r@.timestamp == self@.timestamp,
    {
        let ghost orig: Seq<Seq<char>> = self@.files;
        let mut files = self.files;
        files.push(file);
        proof {
            assert(files.deep_view() =~~= orig.push(files@.last()@));
        }
        CommitInfo { files, ..self }
    }

    /// The same commit with more touched paths.
    pub fn extend_files(self, files: &Vec<String>) -> (r: Self)
        ensures
            r@.id == self@.id,
            r@.files == self@.files + files.deep_view(),
            r@.commit == self@.commit,
            r@.timestamp == self@.timestamp,
    {
        let ghost orig: Seq<Seq<char>> = self@.files;
        let mut all = self.files;
        let mut i: usize = 0;
        proof {
            assert(all.deep_view() =~~= orig + files.deep_view().take(0));
        }
        while i < files.len()
            invariant
                i <= files@.len(),
                files.deep_view().len() == files@.len(),
                all.deep_view() == orig + files.deep_view().take(i as int),
            decreases files@.len() - i,
        {
            all.push(files[i].clone());
            proof {
                let dv = files.deep_view();
                assert(all@.last() == files@[i as int]);
                assert(all.deep_view() =~~= (orig + dv.take(i as int)).push(dv[i as int]));
                assert((orig + dv.take(i as int)).push(dv[i as int]) =~~= orig + dv.take(
                    i + 1 as int,
                ));
            }
            i = i + 1;
        }
        proof {
            assert(orig + files.deep_view().take(files.deep_view().len() as int) =~~= orig
                + files.deep_view());
        }
        CommitInfo { files: all, ..self }
    }
}

} // verus!
