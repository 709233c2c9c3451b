//! Search and replace over the files that git tracks: which files match,
//! whether replacing is allowed, and the sed command that replaces.
use crate::text::{args_then, chars_of, split_on, split_spec, text_eq, views};
use vstd::prelude::*;

verus! {

/// The arguments of `git` that list, NUL-terminated, the tracked files under
/// `paths` that hold a match of the extended regular expression `search`.
pub fn grep_args(search: &str, paths: &Vec<String>) -> (r: Vec<String>)
    ensures
        views(r@) == seq![
            "--no-pager"@,
            "grep"@,
            "--files-with-matches"@,
            "--name-only"@,
            "-z"@,
            "-E"@,
            "-e"@,
            search@,
            "--"@,
        ] + views(paths@),
{
    let p = vec![
        "--no-pager".to_string(),
        "grep".to_string(),
        "--files-with-matches".to_string(),
        "--name-only".to_string(),
        "-z".to_string(),
        "-E".to_string(),
        "-e".to_string(),
        search.to_string(),
        "--".to_string(),
    ];
    assert(views(p@) =~= seq![
        "--no-pager"@,
        "grep"@,
        "--files-with-matches"@,
        "--name-only"@,
        "-z"@,
        "-E"@,
        "-e"@,
        search@,
        "--"@,
    ]);
    args_then(p, paths)
}

/// The arguments of `git` that list, NUL-terminated, which of `paths` have
/// changes that are not staged.
pub fn diff_args(paths: &Vec<String>) -> (r: Vec<String>)
    ensures
        views(r@) == seq!["--no-pager"@, "diff"@, "--name-only"@, "-z"@] + views(paths@),
{
    let p = vec![
        "--no-pager".to_string(),
        "diff".to_string(),
        "--name-only".to_string(),
        "-z".to_string(),
    ];
    assert(views(p@) =~= seq!["--no-pager"@, "diff"@, "--name-only"@, "-z"@]);
    args_then(p, paths)
}

/// The arguments of `git` that succeed only where all of `paths` are tracked.
pub fn ls_files_args(paths: &Vec<String>) -> (r: Vec<String>)
    ensures
        views(r@) == seq!["ls-files"@, "--error-unmatch"@] + views(paths@),
{
    let p = vec!["ls-files".to_string(), "--error-unmatch".to_string()];
    assert(views(p@) =~= seq!["ls-files"@, "--error-unmatch"@]);
    args_then(p, paths)
}

/// The names in a NUL-terminated list: none where the list is empty, else
/// the pieces between the NULs once the last character is dropped.
pub open spec fn nul_list_spec(output: Seq<char>) -> Option<Seq<Seq<char>>> {
    if output.len() == 0 {
        None
    } else {
        Some(split_spec(output.drop_last(), '\0'))
    }
}

/// The names in a NUL-terminated list, as `git ... -z` prints them.
pub fn nul_separated_list(output: &str) -> (r: Option<Vec<String>>)
    ensures
        match nul_list_spec(output@) {
            None => r is None,
            Some(names) => r is Some && views(r->Some_0@) == names,
        },
{
    let n = output.unicode_len();
    if n == 0 {
        return None;
    }
    let body = output.substring_char(0, n - 1);
    assert(body@ =~= output@.drop_last());
    Some(split_on(body, '\0'))
}

/// `s` with every `/` written `\/`, as a sed expression needs it.
pub open spec fn escape_slashes(s: Seq<char>) -> Seq<char>
    decreases s.len(),
{
    if s.len() == 0 {
        Seq::empty()
    } else if s.last() == '/' {
        escape_slashes(s.drop_last()) + seq!['\\', '/']
    } else {
        escape_slashes(s.drop_last()).push(s.last())
    }
}

fn append_escaped(out: &mut String, s: &str)
    ensures
        final(out)@ == old(out)@ + escape_slashes(s@),
{
    let cs = chars_of(s);
    let mut start: usize = 0;
    let mut i: usize = 0;
    assert(old(out)@ + escape_slashes(s@.subrange(0, 0)) =~= out@);
    while i < cs.len()
        invariant
            cs@ == s@,
            start <= i <= cs.len(),
            out@ + s@.subrange(start as int, i as int) == old(out)@ + escape_slashes(
                s@.subrange(0, i as int),
            ),
        decreases cs.len() - i,
    {
        assert(s@.subrange(0, i + 1).drop_last() =~= s@.subrange(0, i as int));
        if cs[i] == '/' {
            let ghost pre = out@;
            out.append(s.substring_char(start, i));
            out.append("\\/");
            proof {
                reveal_strlit("\\/");
                assert("\\/"@.len() == 2);
                assert("\\/"@[0] == '\\');
                assert("\\/"@ =~= seq!['\\', '/']);
            }
            assert(out@ =~= pre + s@.subrange(start as int, i as int) + seq!['\\', '/']);
            start = i + 1;
            assert(s@.subrange(start as int, i + 1) =~= Seq::<char>::empty());
            assert(out@ + s@.subrange(start as int, i + 1) =~= old(out)@ + escape_slashes(
                s@.subrange(0, i + 1),
            ));
        } else {
            assert(out@ + s@.subrange(start as int, i + 1) =~= (out@ + s@.subrange(
                start as int,
                i as int,
            )).push(cs@[i as int]));
        }
        i = i + 1;
    }
    out.append(s.substring_char(start, cs.len()));
    assert(s@.subrange(0, i as int) =~= s@);
}

/// The sed expression that replaces every match of `search` by `replace`.
pub open spec fn sed_expression_spec(search: Seq<char>, replace: Seq<char>) -> Seq<char> {
    seq!['s', '/'] + escape_slashes(search) + seq!['/'] + escape_slashes(replace) + seq!['/', 'g']
}

/// The sed expression that replaces every match of `search` by `replace`.
pub fn sed_expression(search: &str, replace: &str) -> (r: String)
    ensures
        r@ == sed_expression_spec(search@, replace@),
{
    proof {
        reveal_strlit("s/");
        reveal_strlit("/");
        reveal_strlit("/g");
    }
    let mut r = "s/".to_string();
    append_escaped(&mut r, search);
    r.append("/");
    append_escaped(&mut r, replace);
    r.append("/g");
    assert(r@ =~= sed_expression_spec(search@, replace@));
    r
}

/// The arguments of `sed` that replace, in place, every match of `search`
/// by `replace` in `files` and in no other file.
pub fn sed_args(files: &Vec<String>, search: &str, replace: &str) -> (r: Vec<String>)
    ensures
        views(r@) == seq!["-i"@, "-E"@, sed_expression_spec(search@, replace@)] + views(files@),
{
    let p = vec!["-i".to_string(), "-E".to_string(), sed_expression(search, replace)];
    assert(views(p@) =~= seq!["-i"@, "-E"@, sed_expression_spec(search@, replace@)]);
    args_then(p, files)
}

/// What a search and replace does.
#[derive(Debug)]
pub enum ReplaceDecision {
    /// No file matches: nothing is written.
    NoMatch,
    /// Some matching files have unstaged changes and replacing was not
    /// forced: nothing is written, and these files are reported.
    Conflict { modified: Vec<String> },
    /// A dry run: nothing is written, and the matching files are reported.
    DryRun { files: Vec<String> },
    /// Replace in the matching files, and in them only.
    Replace { files: Vec<String> },
}

/// Decides a search and replace from the matching files (`None` where none
/// matches), those of them with unstaged changes (`None` where none has),
/// and the flags `force` and `dry_run`.
pub fn decide_replace(
    files: Option<Vec<String>>,
    modified: Option<Vec<String>>,
    force: bool,
    dry_run: bool,
) -> (r: ReplaceDecision)
    ensures
        files is None ==> r is NoMatch,
        files is Some && modified is Some && !force ==> r is Conflict && r->Conflict_modified@
            == modified->Some_0@,
        files is Some && (modified is None || force) && dry_run ==> r is DryRun && r->DryRun_files@
            == files->Some_0@,
        files is Some && (modified is None || force) && !dry_run ==> r is Replace
            && r->Replace_files@ == files->Some_0@,
{
    match files {
        None => ReplaceDecision::NoMatch,
        Some(files) => {
            match modified {
                Some(m) => {
                    if !force {
                        return ReplaceDecision::Conflict { modified: m };
                    }
                },
                None => {},
            }
            if dry_run {
                ReplaceDecision::DryRun { files }
            } else {
                ReplaceDecision::Replace { files }
            }
        },
    }
}

impl ReplaceDecision {
    /// Whether files are written.
    pub open spec fn writes(&self) -> bool {
        self is Replace
    }

    /// The exit code of the search and replace: 1 where nothing matched and
    /// on a dry run, whatever else holds; 0 otherwise.
    pub fn exit_code(&self, dry_run: bool) -> (r: i32)
        ensures
            r == (if self is NoMatch || dry_run {
                1i32
            } else {
                0i32
            }),
    {
        match self {
            ReplaceDecision::NoMatch => 1,
            _ => if dry_run {
                1
            } else {
                0
            },
        }
    }
}

/// Without `force`, files are written only where none of the matching files
/// has unstaged changes; a dry run writes nothing and exits with 1; where
/// no file matches nothing is written.
pub proof fn law_replace_guards(
    files: Option<Vec<String>>,
    modified: Option<Vec<String>>,
    force: bool,
    dry_run: bool,
    r: ReplaceDecision,
)
    requires
        files is None ==> r is NoMatch,
        files is Some && modified is Some && !force ==> r is Conflict,
        files is Some && (modified is None || force) && dry_run ==> r is DryRun,
        files is Some && (modified is None || force) && !dry_run ==> r is Replace
            && r->Replace_files@ == files->Some_0@,
    ensures
        r.writes() ==> files is Some && !dry_run && (modified is None || force),
        dry_run ==> !r.writes(),
        files is Some && modified is None && !dry_run ==> r.writes(),
{
}

/// `name` with a note added where it is among `modified`.
pub open spec fn report_line(name: Seq<char>, modified: Seq<Seq<char>>) -> Seq<char> {
    if modified.contains(name) {
        name + " (had unstaged content)"@
    } else {
        name
    }
}

/// The lines that report the files a replacement was made in, each noted
/// where it had unstaged changes.
pub fn replaced_report(files: &Vec<String>, modified: &Option<Vec<String>>) -> (r: Vec<String>)
    ensures
        r@.len() == files@.len(),
        forall|i: int|
            0 <= i < files@.len() ==> (#[trigger] r@[i])@ == report_line(
                files@[i]@,
                match modified {
                    Some(m) => views(m@),
                    None => Seq::empty(),
                },
            ),
{
    let ghost ms = match modified {
        Some(m) => views(m@),
        None => Seq::<Seq<char>>::empty(),
    };
    let mut r: Vec<String> = Vec::new();
    let mut i: usize = 0;
    while i < files.len()
        invariant
            i <= files.len(),
            r@.len() == i,
            ms == match modified {
                Some(m) => views(m@),
                None => Seq::empty(),
            },
            forall|k: int| 0 <= k < i ==> (#[trigger] r@[k])@ == report_line(files@[k]@, ms),
        decreases files.len() - i,
    {
        let mut line = files[i].clone();
        let found = match modified {
            Some(m) => contains_text(m, files[i].as_str()),
            None => false,
        };
        if found {
            line.append(" (had unstaged content)");
        }
        r.push(line);
        i = i + 1;
    }
    r
}

/// Whether one of `v` reads `s`.
pub fn contains_text(v: &Vec<String>, s: &str) -> (r: bool)
    ensures
        r == views(v@).contains(s@),
{
    let mut i: usize = 0;
    while i < v.len()
        invariant
            i <= v.len(),
            forall|k: int| 0 <= k < i ==> v@[k]@ != s@,
        decreases v.len() - i,
    {
        if text_eq(v[i].as_str(), s) {
            assert(views(v@)[i as int] == s@);
            return true;
        }
        i = i + 1;
    }
    assert(!views(v@).contains(s@)) by {
        if views(v@).contains(s@) {
            let k = choose|k: int| 0 <= k < views(v@).len() && views(v@)[k] == s@;
            assert(v@[k]@ == s@);
        }
    }
    false
}

} // verus!
