//! Comparing two branches: their merge base, the commits that each has and
//! the other lacks, and the common ancestor.
use crate::text::{strings3, trim, trim_spec, views};
use vstd::prelude::*;

verus! {

/// The format in which commits unique to a branch are listed.
pub const LOG_FORMAT: &'static str =
    "--pretty=format:%Cgreen%h%Creset %Cred(%an)%Creset [%ad] %Cblue%s%Creset ";

/// The arguments of `git` that print the merge base of two branches.
pub fn merge_base_args(branch1: &str, branch2: &str) -> (r: Vec<String>)
    ensures
        views(r@) == seq!["merge-base"@, branch1@, branch2@],
{
    strings3("merge-base", branch1, branch2)
}

/// The merge base that `git merge-base` printed: its output without the
/// surrounding whitespace, and none where that is empty.
pub fn get_merge_base(output: &str) -> (r: Option<String>)
    ensures
        trim_spec(output@).len() == 0 ==> r is None,
        trim_spec(output@).len() > 0 ==> r is Some && r->Some_0@ == trim_spec(output@),
{
    let t = trim(output);
    if t.unicode_len() == 0 {
        None
    } else {
        Some(t)
    }
}

/// The arguments of `git` that list the commits reachable from `branch` and
/// not from `other_branch`.
pub fn unique_commits_args(branch: &str, other_branch: &str) -> (r: Vec<String>)
    ensures
        views(r@) == seq![
            "--no-pager"@,
            "log"@,
            LOG_FORMAT@,
            branch@,
            seq!['^'] + other_branch@,
        ],
{
    proof {
        reveal_strlit("^");
    }
    let mut excluded = "^".to_string();
    excluded.append(other_branch);
    assert("^"@ =~= seq!['^']);
    assert(excluded@ =~= seq!['^'] + other_branch@);
    let r = vec![
        "--no-pager".to_string(),
        "log".to_string(),
        LOG_FORMAT.to_string(),
        branch.to_string(),
        excluded,
    ];
    assert(views(r@) =~= seq![
        "--no-pager"@,
        "log"@,
        LOG_FORMAT@,
        branch@,
        seq!['^'] + other_branch@,
    ]);
    r
}

/// The arguments of `git` that show the commit `merge_base`.
pub fn common_commit_args(merge_base: &str) -> (r: Vec<String>)
    ensures
        views(r@) == seq!["--no-pager"@, "log"@, "-1"@, merge_base@],
{
    let r = vec![
        "--no-pager".to_string(),
        "log".to_string(),
        "-1".to_string(),
        merge_base.to_string(),
    ];
    assert(views(r@) =~= seq!["--no-pager"@, "log"@, "-1"@, merge_base@]);
    r
}

/// The two listings of a comparison mirror each other: the commits of the
/// first branch without those of the second, and the commits of the second
/// without those of the first.
pub proof fn law_listings_mirror(branch1: Seq<char>, branch2: Seq<char>, a: Seq<Seq<char>>, b: Seq<Seq<char>>)
    requires
        a == seq!["--no-pager"@, "log"@, LOG_FORMAT@, branch1, seq!['^'] + branch2],
        b == seq!["--no-pager"@, "log"@, LOG_FORMAT@, branch2, seq!['^'] + branch1],
    ensures
        a.subrange(0, 3) == b.subrange(0, 3),
        a[3] == b[4].drop_first(),
        b[3] == a[4].drop_first(),
{
    assert(a.subrange(0, 3) =~= b.subrange(0, 3));
    assert((seq!['^'] + branch1).drop_first() =~= branch1);
    assert((seq!['^'] + branch2).drop_first() =~= branch2);
}

} // verus!
