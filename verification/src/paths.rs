//! Path arithmetic over plain components: the relative path from the
//! repository root to a project directory, and the subtree test the walker
//! filters on. Callers hand paths over as their components or as strings.

use vstd::prelude::*;

use crate::text::eq_chars;
use crate::text::has_prefix;
use crate::text::has_prefix_at;
use crate::text::str_to_chars;

verus! {

/// The length of the longest common prefix of two component lists.
pub open spec fn common_prefix_len(a: Seq<Seq<char>>, b: Seq<Seq<char>>) -> int
    decreases a.len(),
{
    if a.len() > 0 && b.len() > 0 && a[0] == b[0] {
        1 + common_prefix_len(a.subrange(1, a.len() as int), b.subrange(1, b.len() as int))
    } else {
        0
    }
}

pub proof fn lemma_common_prefix_len_is(a: Seq<Seq<char>>, b: Seq<Seq<char>>, k: int)
    requires
        0 <= k <= a.len(),
        k <= b.len(),
        forall|j: int| 0 <= j < k ==> a[j] == b[j],
        k < a.len() && k < b.len() ==> a[k] != b[k],
    ensures
        common_prefix_len(a, b) == k,
    decreases a.len(),
{
    if a.len() > 0 && b.len() > 0 && a[0] == b[0] {
        let at = a.subrange(1, a.len() as int);
        let bt = b.subrange(1, b.len() as int);
        assert(forall|j: int| 0 <= j < at.len() ==> at[j] == a[j + 1]);
        assert(forall|j: int| 0 <= j < bt.len() ==> bt[j] == b[j + 1]);
        assert(k != 0);
        lemma_common_prefix_len_is(at, bt, k - 1);
    } else {
        assert(k == 0);
    }
}

/// The relative path from one directory to another, as components: one
/// `..` for each component the start keeps beyond the shared prefix, then
/// the target's remaining components. Without any shared prefix the target
/// is returned as it is.
pub open spec fn relative_path_spec(repo: Seq<Seq<char>>, project: Seq<Seq<char>>) -> Seq<
    Seq<char>,
> {
    let cp = common_prefix_len(repo, project);
    if cp == 0 {
        project
    } else {
        Seq::new((repo.len() - cp) as nat, |i: int| ".."@) + project.subrange(
            cp,
            project.len() as int,
        )
    }
}

/// Computes the relative path between two component lists.
pub fn relative_path_components(repo: &Vec<String>, project: &Vec<String>) -> (r: Vec<String>)
    ensures
        r.deep_view() == relative_path_spec(repo.deep_view(), project.deep_view()),
{
    let ghost rd = repo.deep_view();
    let ghost pd = project.deep_view();
    let mut cp: usize = 0;
    loop
        invariant_except_break
            cp <= repo@.len(),
            cp <= project@.len(),
            rd == repo.deep_view(),
            pd == project.deep_view(),
            rd.len() == repo@.len(),
            pd.len() == project@.len(),
            forall|j: int| 0 <= j < cp ==> rd[j] == pd[j],
        ensures
            cp <= rd.len(),
            cp <= pd.len(),
            rd == repo.deep_view(),
            pd == project.deep_view(),
            rd.len() == repo@.len(),
            pd.len() == project@.len(),
            forall|j: int| 0 <= j < cp ==> rd[j] == pd[j],
            cp < rd.len() && cp < pd.len() ==> rd[cp as int] != pd[cp as int],
        decreases repo@.len() - cp,
    {
        if cp >= repo.len() || cp >= project.len() {
            break;
        }
        let ra = str_to_chars(repo[cp].as_str());
        let pa = str_to_chars(project[cp].as_str());
        proof {
            assert(ra@ =~= rd[cp as int]);
            assert(pa@ =~= pd[cp as int]);
        }
        if !eq_chars(&ra, &pa) {
            break;
        }
        cp = cp + 1;
    }
    proof {
        lemma_common_prefix_len_is(rd, pd, cp as int);
    }
    if cp == 0 {
        let r = crate::commit_info::clone_string_vec(project);
        proof {
            assert(r.deep_view() =~~= relative_path_spec(rd, pd));
        }
        return r;
    }
    let mut out: Vec<String> = Vec::new();
    let ups = repo.len() - cp;
    let mut i: usize = 0;
    while i < ups
        invariant
            i <= ups,
            out.deep_view().len() == i,
            forall|j: int| 0 <= j < i ==> out.deep_view()[j] == ".."@,
        decreases ups - i,
    {
        let ghost before = out.deep_view();
        out.push(String::from_str(".."));
        proof {
            assert(out.deep_view() =~~= before.push(".."@));
        }
        i = i + 1;
    }
    let mut k = cp;
    while k < project.len()
        invariant
            cp <= k <= project@.len(),
            pd == project.deep_view(),
            pd.len() == project@.len(),
            out.deep_view().len() == ups + k - cp,
            forall|j: int| 0 <= j < ups ==> out.deep_view()[j] == ".."@,
            forall|j: int| ups <= j < out.deep_view().len() ==> out.deep_view()[j] == pd[j - ups
                + cp],
        decreases project@.len() - k,
    {
        let ghost before = out.deep_view();
        out.push(project[k].clone());
        proof {
            assert(out.deep_view() =~~= before.push(pd[k as int]));
        }
        k = k + 1;
    }
    proof {
        assert(out.deep_view() =~~= relative_path_spec(rd, pd));
    }
    out
}

/// Does the path lie under the prefix (by their textual forms)?
pub fn path_is_under(path: &str, prefix: &str) -> (r: bool)
    ensures
        r == has_prefix(path@, prefix@),
{
    let chars = str_to_chars(path);
    proof {
        assert(chars@.subrange(0, chars@.len() as int) =~= chars@);
    }
    has_prefix_at(&chars, 0, prefix)
}

} // verus!
