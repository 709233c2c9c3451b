//! The registry's operations as plans: each is the list of steps that the
//! caller carries out in order, stopping at the first that fails.
use crate::config::{
    config_key, entry_views, remove_section_args, set_field_args, embed_prefix, EmbedEnty, EntryView,
    CONFIG_FILE,
};
use crate::commit_time::{stamp_spec, CommitTime};
use crate::text::{args_then, basename, basename_spec, strings1, strings2, strings3, views};
use vstd::prelude::*;

verus! {

/// One step of a plan.
#[derive(Debug)]
pub enum Step {
    /// Run `git` with these arguments in the outer repository.
    Git { args: Vec<String> },
    /// Run git redirected into the embedded repository that holds `dir`,
    /// from `dir`, with these arguments.
    Egit { args: Vec<String>, dir: String },
    /// Rename the directory `from` to `to`.
    Rename { from: String, to: String },
    /// Remove the directory `path` with all it holds.
    RemoveDir { path: String },
    /// Create the directory `path` and its parents.
    CreateDir { path: String },
}

/// A step, as text.
pub enum StepView {
    Git { args: Seq<Seq<char>> },
    Egit { args: Seq<Seq<char>>, dir: Seq<char> },
    Rename { from: Seq<char>, to: Seq<char> },
    RemoveDir { path: Seq<char> },
    CreateDir { path: Seq<char> },
}

impl View for Step {
    type V = StepView;

    open spec fn view(&self) -> StepView {
        match self {
            Step::Git { args } => StepView::Git { args: views(args@) },
            Step::Egit { args, dir } => StepView::Egit { args: views(args@), dir: dir@ },
            Step::Rename { from, to } => StepView::Rename { from: from@, to: to@ },
            Step::RemoveDir { path } => StepView::RemoveDir { path: path@ },
            Step::CreateDir { path } => StepView::CreateDir { path: path@ },
        }
    }
}

/// The views of a sequence of steps.
pub open spec fn step_views(v: Seq<Step>) -> Seq<StepView> {
    v.map_values(|s: Step| s@)
}

/// Why the registry refuses an operation.
#[derive(Debug, PartialEq, Eq, Structural)]
pub enum RegistryError {
    /// The directory where a new embedded repository should go exists.
    PathConflict,
    /// The registry's config file has changes that are not committed.
    DirtyConfig,
}

/// `dir` followed by `/` and `name`.
pub open spec fn join(dir: Seq<char>, name: Seq<char>) -> Seq<char> {
    dir + seq!['/'] + name
}

/// `dir` followed by `/` and `name`.
pub fn join_path(dir: &str, name: &str) -> (r: String)
    ensures
        r@ == join(dir@, name@),
{
    proof {
        reveal_strlit("/");
    }
    let mut r = dir.to_string();
    r.append("/");
    r.append(name);
    assert(r@ =~= join(dir@, name@));
    r
}

/// The name of the directory that holds an embedded repository's own git
/// data, in place of `.git`.
pub const MARKER: &'static str = ".egit";

/// The name of git's own data directory.
pub const GIT_DIR_NAME: &'static str = ".git";

/// The name of the scratch directory that new clones are made in.
pub const SCRATCH: &'static str = "egit-tmp";

/// The branch that a fresh clone is on and that the set-up deletes.
pub const DEFAULT_BRANCH: &'static str = "master";

/// The arguments of `git` that clone `url` into `dest`.
pub fn clone_args(url: &str, dest: &str) -> (r: Vec<String>)
    ensures
        views(r@) == seq!["clone"@, "--quiet"@, url@, dest@],
{
    let r = vec!["clone".to_string(), "--quiet".to_string(), url.to_string(), dest.to_string()];
    assert(views(r@) =~= seq!["clone"@, "--quiet"@, url@, dest@]);
    r
}

/// The arguments of `git` that print the revision at which the embedded
/// repository at `path` stands.
pub fn embed_head_args(path: &str) -> (r: Vec<String>)
    ensures
        views(r@) == seq!["--git-dir"@, join(path@, MARKER@), "rev-parse"@, "HEAD"@],
{
    let r = vec![
        "--git-dir".to_string(),
        join_path(path, MARKER),
        "rev-parse".to_string(),
        "HEAD".to_string(),
    ];
    assert(views(r@) =~= seq!["--git-dir"@, join(path@, MARKER@), "rev-parse"@, "HEAD"@]);
    r
}

/// The plan that starts registering the repository at `url` under `path`:
/// clone it there and rename its git data to the marker. Refused where
/// `path` exists already.
pub fn add_steps(url: &str, path: &str, path_exists: bool) -> (r: Result<Vec<Step>, RegistryError>)
    ensures
        path_exists ==> r == Err::<Vec<Step>, RegistryError>(RegistryError::PathConflict),
        !path_exists ==> r is Ok && step_views(r->Ok_0@) == seq![
            StepView::Git { args: seq!["clone"@, "--quiet"@, url@, path@] },
            StepView::Rename { from: join(path@, GIT_DIR_NAME@), to: join(path@, MARKER@) },
        ],
{
    if path_exists {
        return Err(RegistryError::PathConflict);
    }
    let r = vec![
        Step::Git { args: clone_args(url, path) },
        Step::Rename { from: join_path(path, GIT_DIR_NAME), to: join_path(path, MARKER) },
    ];
    assert(step_views(r@) =~= seq![
        StepView::Git { args: seq!["clone"@, "--quiet"@, url@, path@] },
        StepView::Rename { from: join(path@, GIT_DIR_NAME@), to: join(path@, MARKER@) },
    ]);
    Ok(r)
}

/// The steps that write the entry of the repository registered under
/// `path`: its url, its path and the revision `head`, in that order, in a
/// section named by the path.
pub fn record_steps(path: &str, url: &str, head: &str) -> (r: Vec<Step>)
    ensures
        step_views(r@) == seq![
            StepView::Git {
                args: seq!["config"@, "--file"@, CONFIG_FILE@, config_key(path@, "url"@), url@],
            },
            StepView::Git {
                args: seq!["config"@, "--file"@, CONFIG_FILE@, config_key(path@, "path"@), path@],
            },
            StepView::Git {
                args: seq!["config"@, "--file"@, CONFIG_FILE@, config_key(path@, "head"@), head@],
            },
        ],
{
    let r = vec![
        Step::Git { args: set_field_args(CONFIG_FILE, path, "url", url) },
        Step::Git { args: set_field_args(CONFIG_FILE, path, "path", path) },
        Step::Git { args: set_field_args(CONFIG_FILE, path, "head", head) },
    ];
    assert(step_views(r@) =~= seq![
        StepView::Git {
            args: seq!["config"@, "--file"@, CONFIG_FILE@, config_key(path@, "url"@), url@],
        },
        StepView::Git {
            args: seq!["config"@, "--file"@, CONFIG_FILE@, config_key(path@, "path"@), path@],
        },
        StepView::Git {
            args: seq!["config"@, "--file"@, CONFIG_FILE@, config_key(path@, "head"@), head@],
        },
    ]);
    r
}

/// The plan that removes the embedded repository at `path`. Where its
/// marker directory is present: remove that directory, all the files at
/// `path` where `remove_all_files` holds, and then the section of `path` in
/// the registry. Where the marker directory is absent, the plan is empty and
/// the registry keeps the entry, unless `prune_unmarked` asks for the entry
/// (and, with `remove_all_files`, the files) to go all the same.
pub open spec fn remove_plan(
    path: Seq<char>,
    marker_present: bool,
    remove_all_files: bool,
    prune_unmarked: bool,
) -> Seq<StepView> {
    let files = if remove_all_files {
        seq![StepView::RemoveDir { path }]
    } else {
        Seq::empty()
    };
    let section = StepView::Git {
        args: seq!["config"@, "--file"@, CONFIG_FILE@, "--remove-section"@, embed_prefix() + path],
    };
    if marker_present {
        seq![StepView::RemoveDir { path: join(path, MARKER@) }] + files + seq![section]
    } else if prune_unmarked {
        files + seq![section]
    } else {
        Seq::empty()
    }
}

/// The plan that removes the embedded repository at `path`.
pub fn remove_steps(
    path: &str,
    marker_present: bool,
    remove_all_files: bool,
    prune_unmarked: bool,
) -> (r: Vec<Step>)
    ensures
        step_views(r@) == remove_plan(path@, marker_present, remove_all_files, prune_unmarked),
{
    let mut r: Vec<Step> = Vec::new();
    if !marker_present && !prune_unmarked {
        assert(step_views(r@) =~= remove_plan(
            path@,
            marker_present,
            remove_all_files,
            prune_unmarked,
        ));
        return r;
    }
    if marker_present {
        r.push(Step::RemoveDir { path: join_path(path, MARKER) });
    }
    if remove_all_files {
        r.push(Step::RemoveDir { path: path.to_string() });
    }
    r.push(Step::Git { args: remove_section_args(CONFIG_FILE, path) });
    assert(step_views(r@) =~= remove_plan(path@, marker_present, remove_all_files, prune_unmarked));
    r
}

/// Where the carrying out of a plan stands.
#[derive(Debug, PartialEq, Eq, Structural)]
pub enum Progress {
    /// Carry out the step with this index.
    Next(usize),
    /// Every step succeeded.
    Done,
    /// The step with this index failed; the steps after it are not carried
    /// out, and what the earlier ones made is left as it is.
    Failed(usize),
}

/// Where a plan of `len` steps starts.
pub fn first_step(len: usize) -> (r: Progress)
    ensures
        len == 0 ==> r == Progress::Done,
        len > 0 ==> r == Progress::Next(0),
{
    if len == 0 {
        Progress::Done
    } else {
        Progress::Next(0)
    }
}

/// Where a plan of `len` steps goes once step `k` has ended, with success
/// where `ok` holds: to the next step, to its end, or it stops at the first
/// failure.
pub fn after_step(len: usize, k: usize, ok: bool) -> (r: Progress)
    requires
        k < len,
    ensures
        !ok ==> r == Progress::Failed(k),
        ok && k + 1 < len ==> r == Progress::Next((k + 1) as usize),
        ok && k + 1 == len ==> r == Progress::Done,
{
    if !ok {
        Progress::Failed(k)
    } else if k + 1 < len {
        Progress::Next(k + 1)
    } else {
        Progress::Done
    }
}

/// The plan that sets up an entry whose marker directory is absent: clone
/// its url into a scratch directory under `top`, rename the clone's git data
/// to the marker, reset it to the recorded head, move it to a branch named
/// after the outer repository, delete the clone's default branch, and move
/// the result to the entry's path. Entries already set up need nothing.
pub open spec fn init_plan(e: EntryView, initialized: bool, top: Seq<char>) -> Seq<StepView> {
    let scratch = join(top, SCRATCH@);
    let repo = join(scratch, "repo"@);
    if initialized {
        Seq::empty()
    } else {
        seq![
            StepView::RemoveDir { path: scratch },
            StepView::CreateDir { path: scratch },
            StepView::Git { args: seq!["clone"@, "--quiet"@, e.git_url, repo] },
            StepView::Rename { from: join(repo, GIT_DIR_NAME@), to: join(repo, MARKER@) },
            StepView::Egit { args: seq!["reset"@, "--mixed"@, e.head], dir: repo },
            StepView::Egit { args: seq!["checkout"@, "-b"@, basename_spec(top, '/')], dir: repo },
            StepView::Egit { args: seq!["branch"@, "-D"@, DEFAULT_BRANCH@], dir: repo },
            StepView::Rename { from: repo, to: join(top, e.path) },
            StepView::RemoveDir { path: scratch },
        ]
    }
}

/// The plan that sets up `entry` in the outer repository whose top level
/// is `top`.
pub fn init_steps(entry: &EmbedEnty, initialized: bool, top: &str) -> (r: Vec<Step>)
    ensures
        step_views(r@) == init_plan(entry@, initialized, top@),
{
    if initialized {
        let r: Vec<Step> = Vec::new();
        assert(step_views(r@) =~= Seq::<StepView>::empty());
        return r;
    }
    let scratch = join_path(top, SCRATCH);
    let repo = join_path(scratch.as_str(), "repo");
    let outer = basename(top, '/');
    let r = vec![
        Step::RemoveDir { path: scratch.clone() },
        Step::CreateDir { path: scratch.clone() },
        Step::Git { args: clone_args(entry.git_url.as_str(), repo.as_str()) },
        Step::Rename {
            from: join_path(repo.as_str(), GIT_DIR_NAME),
            to: join_path(repo.as_str(), MARKER),
        },
        Step::Egit {
            args: strings3("reset", "--mixed", entry.head.as_str()),
            dir: repo.clone(),
        },
        Step::Egit {
            args: strings3("checkout", "-b", outer.as_str()),
            dir: repo.clone(),
        },
        Step::Egit {
            args: strings3("branch", "-D", DEFAULT_BRANCH),
            dir: repo.clone(),
        },
        Step::Rename { from: repo.clone(), to: join_path(top, entry.path.as_str()) },
        Step::RemoveDir { path: scratch },
    ];
    assert(step_views(r@) =~= init_plan(entry@, initialized, top@));
    r
}

/// The plan that brings a set-up entry to its recorded head: fetch, reset
/// to the head, and show the status. Entries not set up need nothing.
pub open spec fn update_plan(e: EntryView, initialized: bool, top: Seq<char>) -> Seq<StepView> {
    let dir = join(top, e.path);
    if initialized {
        seq![
            StepView::Egit { args: seq!["fetch"@, "--tags"@], dir },
            StepView::Egit { args: seq!["reset"@, "--mixed"@, e.head], dir },
            StepView::Egit { args: seq!["status"@], dir },
        ]
    } else {
        Seq::empty()
    }
}

/// The plan that brings `entry` to its recorded head.
pub fn update_steps(entry: &EmbedEnty, initialized: bool, top: &str) -> (r: Vec<Step>)
    ensures
        step_views(r@) == update_plan(entry@, initialized, top@),
{
    if !initialized {
        let r: Vec<Step> = Vec::new();
        assert(step_views(r@) =~= Seq::<StepView>::empty());
        return r;
    }
    let dir = join_path(top, entry.path.as_str());
    let r = vec![
        Step::Egit { args: strings2("fetch", "--tags"), dir: dir.clone() },
        Step::Egit {
            args: strings3("reset", "--mixed", entry.head.as_str()),
            dir: dir.clone(),
        },
        Step::Egit { args: strings1("status"), dir },
    ];
    assert(step_views(r@) =~= update_plan(entry@, initialized, top@));
    r
}

/// The plan that shows where a set-up entry stands: its revision, then its
/// status. Entries not set up show nothing.
pub open spec fn status_plan(e: EntryView, initialized: bool, top: Seq<char>) -> Seq<StepView> {
    let dir = join(top, e.path);
    if initialized {
        seq![
            StepView::Egit { args: seq!["rev-parse"@, "HEAD"@], dir },
            StepView::Egit { args: seq!["status"@], dir },
        ]
    } else {
        Seq::empty()
    }
}

/// The plan that shows where `entry` stands.
pub fn status_steps(entry: &EmbedEnty, initialized: bool, top: &str) -> (r: Vec<Step>)
    ensures
        step_views(r@) == status_plan(entry@, initialized, top@),
{
    if !initialized {
        let r: Vec<Step> = Vec::new();
        assert(step_views(r@) =~= Seq::<StepView>::empty());
        return r;
    }
    let dir = join_path(top, entry.path.as_str());
    let r = vec![
        Step::Egit { args: strings2("rev-parse", "HEAD"), dir: dir.clone() },
        Step::Egit { args: strings1("status"), dir },
    ];
    assert(step_views(r@) =~= status_plan(entry@, initialized, top@));
    r
}


/// The name of the tags that mark the outer repository `project` at the
/// commit `head` made at `t`: `<project>.<stamp>.<head>`.
pub open spec fn tag_name_spec(project: Seq<char>, t: CommitTime, head: Seq<char>) -> Seq<char> {
    project + seq!['.'] + stamp_spec(t) + seq!['.'] + head
}

/// The tag name of the outer repository `project` at `head`, made at `t`.
pub fn tag_name(project: &str, t: &CommitTime, head: &str) -> (r: String)
    requires
        t.wf(),
    ensures
        r@ == tag_name_spec(project@, *t, head@),
{
    proof {
        reveal_strlit(".");
    }
    let mut r = project.to_string();
    r.append(".");
    let s = t.stamp();
    r.append(s.as_str());
    r.append(".");
    r.append(head);
    assert(r@ =~= tag_name_spec(project@, *t, head@));
    r
}

/// Tag every entry with `tag`, then push its tags.
pub open spec fn tag_entries_plan(es: Seq<EntryView>, top: Seq<char>, tag: Seq<char>) -> Seq<
    StepView,
>
    decreases es.len(),
{
    if es.len() == 0 {
        Seq::empty()
    } else {
        let dir = join(top, es.last().path);
        tag_entries_plan(es.drop_last(), top, tag) + seq![
            StepView::Egit { args: seq!["tag"@, tag], dir },
            StepView::Egit { args: seq!["push"@, "--tags"@], dir },
        ]
    }
}

/// The plan that tags the embedded repositories with the state of the outer
/// one at `top`: refused while the registry's file has uncommitted changes;
/// empty where the outer repository has no commit; else every entry is
/// tagged with the name of the outer repository, the time of its last
/// commit and its head, and its tags are pushed.
pub fn tag_steps(
    config_dirty: bool,
    last_commit: Option<CommitTime>,
    head: &str,
    entries: &Vec<EmbedEnty>,
    top: &str,
) -> (r: Result<Vec<Step>, RegistryError>)
    requires
        last_commit matches Some(t) ==> t.wf(),
    ensures
        config_dirty ==> r == Err::<Vec<Step>, RegistryError>(RegistryError::DirtyConfig),
        !config_dirty && last_commit is None ==> r is Ok && r->Ok_0@.len() == 0,
        !config_dirty && last_commit is Some ==> r is Ok && step_views(r->Ok_0@)
            == tag_entries_plan(
            entry_views(entries@),
            top@,
            tag_name_spec(basename_spec(top@, '/'), last_commit->Some_0, head@),
        ),
{
    if config_dirty {
        return Err(RegistryError::DirtyConfig);
    }
    let mut r: Vec<Step> = Vec::new();
    match last_commit {
        None => Ok(r),
        Some(t) => {
            let project = basename(top, '/');
            let tag = tag_name(project.as_str(), &t, head);
            let ghost es = entry_views(entries@);
            let mut i: usize = 0;
            assert(es.subrange(0, 0) =~= Seq::<EntryView>::empty());
            assert(step_views(r@) =~= Seq::<StepView>::empty());
            while i < entries.len()
                invariant
                    i <= entries.len(),
                    es == entry_views(entries@),
                    step_views(r@) == tag_entries_plan(es.subrange(0, i as int), top@, tag@),
                decreases entries.len() - i,
            {
                let dir = join_path(top, entries[i].path.as_str());
                let ghost before = r@;
                r.push(Step::Egit { args: strings2("tag", tag.as_str()), dir: dir.clone() });
                r.push(Step::Egit { args: strings2("push", "--tags"), dir });
                assert(es.subrange(0, i + 1).drop_last() =~= es.subrange(0, i as int));
                assert(step_views(r@) =~= step_views(before) + seq![
                    StepView::Egit { args: seq!["tag"@, tag@], dir: join(top@, es[i as int].path) },
                    StepView::Egit { args: seq!["push"@, "--tags"@], dir: join(top@, es[i as int].path) },
                ]);
                i = i + 1;
            }
            assert(es.subrange(0, i as int) =~= es);
            Ok(r)
        },
    }
}


/// The arguments of the redirector that runs git with `args` unchanged.
pub fn egit_args(args: &Vec<String>) -> (r: Vec<String>)
    ensures
        views(r@) == seq!["--"@] + views(args@),
{
    args_then(strings1("--"), args)
}

} // verus!
