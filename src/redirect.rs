//! Running git inside an embedded repository: find the repository's root
//! above the working directory, point git's data and work tree at it, and
//! afterwards record a moved head in the outer repository's registry.
use crate::config::{
    config_key, entry_views, find_path, path_index, set_field_args, EmbedEnty, CONFIG_FILE,
};
use crate::registry::{join, join_path, MARKER};
use crate::text::{chars_of, find_last, last_index_of, lemma_last_index_bounds, views};
use array_tool::vec::Intersect;
use vstd::prelude::*;

verus! {

/// `path` and the directories above it, nearest first: each next one is
/// what stands before the last `/`, and `/` itself ends an absolute path.
pub open spec fn ancestors_spec(path: Seq<char>) -> Seq<Seq<char>>
    decreases path.len(),
{
    let i = last_index_of(path, '/');
    if i < 0 || i >= path.len() || (i == 0 && path.len() == 1) {
        seq![path]
    } else if i == 0 {
        seq![path, seq!['/']]
    } else {
        seq![path] + ancestors_spec(path.subrange(0, i))
    }
}

/// `path` and the directories above it, nearest first.
pub fn ancestors(path: &str) -> (r: Vec<String>)
    ensures
        views(r@) == ancestors_spec(path@),
    decreases path@.len(),
{
    let cs = chars_of(path);
    proof {
        lemma_last_index_bounds(path@, '/');
    }
    let mut r = vec![path.to_string()];
    match find_last(&cs, '/') {
        None => {
            assert(views(r@) =~= ancestors_spec(path@));
        },
        Some(i) => {
            if i == 0 {
                if cs.len() > 1 {
                    proof {
                        reveal_strlit("/");
                        assert("/"@ =~= seq!['/']);
                    }
                    r.push("/".to_string());
                }
                assert(views(r@) =~= ancestors_spec(path@));
            } else {
                let parent = path.substring_char(0, i);
                let rest = ancestors(parent);
                let ghost first = r@;
                r.append(&mut rest.clone());
                assert(views(r@) =~= views(first) + views(rest@));
                assert(views(r@) =~= ancestors_spec(path@));
            }
        },
    }
    r
}

/// Where git is pointed when it runs inside an embedded repository.
#[derive(Debug)]
pub struct Redirect {
    /// The embedded repository's root.
    pub root: String,
    /// Git's data directory: the marker directory under the root.
    pub git_dir: String,
    /// Git's work tree: the root.
    pub work_tree: String,
}

/// Why git cannot be redirected.
#[derive(Debug, PartialEq, Eq, Structural)]
pub enum RedirectError {
    /// No directory from the working directory up holds a marker directory.
    NotAnEmbeddedDirectory,
}

/// The index of the first `true` in `marks` within the first `n`, or -1.
pub open spec fn first_marked(marks: Seq<bool>, n: int) -> int
    decreases n,
{
    if n <= 0 {
        -1
    } else {
        let r = first_marked(marks, n - 1);
        if r >= 0 {
            r
        } else if n - 1 < marks.len() && marks[n - 1] {
            n - 1
        } else {
            -1
        }
    }
}

/// The redirection for the nearest of `ancestors` that holds a marker
/// directory, where `has_marker[k]` tells whether `ancestors[k]` does (a
/// missing flag counts as no).
pub fn find_embed_root(ancestors: &Vec<String>, has_marker: &Vec<bool>) -> (r: Result<
    Redirect,
    RedirectError,
>)
    ensures
        first_marked(has_marker@, ancestors@.len() as int) < 0 ==> r == Err::<
            Redirect,
            RedirectError,
        >(RedirectError::NotAnEmbeddedDirectory),
        first_marked(has_marker@, ancestors@.len() as int) >= 0 ==> r is Ok && ({
            let root = ancestors@[first_marked(has_marker@, ancestors@.len() as int)]@;
            &&& r->Ok_0.root@ == root
            &&& r->Ok_0.git_dir@ == join(root, MARKER@)
            &&& r->Ok_0.work_tree@ == root
        }),
{
    let mut k: usize = 0;
    while k < ancestors.len()
        invariant
            k <= ancestors.len(),
            first_marked(has_marker@, k as int) == -1,
        decreases ancestors.len() - k,
    {
        if k < has_marker.len() && has_marker[k] {
            proof {
                lemma_first_marked_prefix(has_marker@, k as int + 1, ancestors@.len() as int);
            }
            let root = ancestors[k].clone();
            return Ok(
                Redirect {
                    git_dir: join_path(root.as_str(), MARKER),
                    work_tree: root.clone(),
                    root,
                },
            );
        }
        k = k + 1;
    }
    Err(RedirectError::NotAnEmbeddedDirectory)
}

proof fn lemma_first_marked_prefix(marks: Seq<bool>, k: int, n: int)
    requires
        0 <= k <= n,
        first_marked(marks, k) >= 0,
    ensures
        first_marked(marks, n) == first_marked(marks, k),
    decreases n - k,
{
    if k < n {
        lemma_first_marked_prefix(marks, k, n - 1);
    }
}

/// The subcommands after which an embedded repository's head may have moved.
pub open spec fn head_commands() -> Seq<Seq<char>> {
    seq!["reset"@, "checkout"@, "commit"@, "merge"@, "rebase"@, "ff"@, "cherry-pick"@]
}

/// The subcommands after which an embedded repository's head may have moved.
pub fn head_changing_commands() -> (r: Vec<String>)
    ensures
        views(r@) == head_commands(),
{
    let r = vec![
        "reset".to_string(),
        "checkout".to_string(),
        "commit".to_string(),
        "merge".to_string(),
        "rebase".to_string(),
        "ff".to_string(),
        "cherry-pick".to_string(),
    ];
    assert(views(r@) =~= head_commands());
    r
}

/// Relies on array_tool's `Intersect::intersect` for `Vec<String>`: the
/// elements of `a` that equal an element of `b`, each once, in the order of
/// `a`.
#[verifier::external_body]
fn intersect(a: &Vec<String>, b: Vec<String>) -> (r: Vec<String>)
    ensures
        forall|k: int|
            0 <= k < r@.len() ==> (exists|i: int| 0 <= i < a@.len() && a@[i]@ == (#[trigger] r@[k])@)
                && (exists|j: int| 0 <= j < b@.len() && b@[j]@ == r@[k]@),
        (exists|i: int, j: int|
            0 <= i < a@.len() && 0 <= j < b@.len() && #[trigger] a@[i]@ == #[trigger] b@[j]@)
            ==> r@.len() > 0,
{
    a.intersect(b)
}

/// Some argument is a subcommand that may move the head.
pub open spec fn moves_head(args: Seq<Seq<char>>) -> bool {
    exists|i: int, j: int|
        0 <= i < args.len() && 0 <= j < head_commands().len() && #[trigger] args[i]
            == #[trigger] head_commands()[j]
}

/// Whether a git run with `args` that ended with `exit_code` may have moved
/// the embedded repository's head, so that the registry must record it: the
/// run succeeded and one of its arguments is a subcommand that moves the
/// head.
pub fn must_record_head(args: &Vec<String>, exit_code: i32) -> (r: bool)
    ensures
        r == (exit_code == 0 && moves_head(views(args@))),
{
    if exit_code != 0 {
        return false;
    }
    let common = intersect(args, head_changing_commands());
    proof {
        if moves_head(views(args@)) {
            let (i, j) = choose|i: int, j: int|
                0 <= i < views(args@).len() && 0 <= j < head_commands().len() && #[trigger] views(
                    args@,
                )[i] == #[trigger] head_commands()[j];
            assert(args@[i]@ == views(args@)[i]);
        }
        if common@.len() > 0 {
            assert(exists|i: int| 0 <= i < args@.len() && args@[i]@ == (#[trigger] common@[0])@);
            let i = choose|i: int| 0 <= i < args@.len() && args@[i]@ == common@[0]@;
            let j = choose|j: int| 0 <= j < head_commands().len() && head_commands()[j] == common@[0]@;
            assert(views(args@)[i] == head_commands()[j]);
        }
    }
    common.len() > 0
}

/// The path that leads from `base` to `path`, as pathdiff computes it, or
/// `None` where there is none.
pub uninterp spec fn path_relative_to(path: Seq<char>, base: Seq<char>) -> Option<Seq<char>>;

/// Relies on pathdiff::diff_paths: the relative path from `base` to `path`,
/// where there is one.
#[verifier::external_body]
fn diff_paths(path: &str, base: &str) -> (r: Option<String>)
    ensures
        match r {
            Some(s) => path_relative_to(path@, base@) == Some(s@),
            None => path_relative_to(path@, base@) is None,
        },
{
    match pathdiff::diff_paths(path, base) {
        Some(p) => match p.to_str() {
            Some(s) => Some(s.to_string()),
            None => None,
        },
        None => None,
    }
}

/// The arguments of `git` that record `head` as the head of the embedded
/// repository at `root` in the registry of the outer repository at `top`,
/// whose entries are `entries`: the head goes to the section of the first
/// entry whose path is the path of `root` relative to `top`. `None` where
/// there is no such path or no such entry, so that nothing is written for a
/// repository that the registry does not hold.
pub fn head_update_args(top: &str, root: &str, head: &str, entries: &Vec<EmbedEnty>) -> (r: Option<
    Vec<String>,
>)
    ensures
        match path_relative_to(root@, top@) {
            Some(rel) => {
                let k = path_index(entry_views(entries@), rel);
                if k < 0 {
                    r is None
                } else {
                    r is Some && views(r->Some_0@) == seq![
                        "config"@,
                        "--file"@,
                        join(top@, CONFIG_FILE@),
                        config_key(entries@[k].name@, "head"@),
                        head@,
                    ]
                }
            },
            None => r is None,
        },
{
    match diff_paths(root, top) {
        None => None,
        Some(rel) => match find_path(entries, rel.as_str()) {
            None => None,
            Some(k) => {
                let file = join_path(top, CONFIG_FILE);
                assert(entry_views(entries@)[k as int].name == entries@[k as int].name@);
                Some(set_field_args(file.as_str(), entries[k].name.as_str(), "head", head))
            },
        },
    }
}

} // verus!
