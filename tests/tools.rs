use git_utils::config::EmbedEnty;
use git_utils::branch_diff::{common_commit_args, get_merge_base, merge_base_args, unique_commits_args};
use git_utils::git::{head_args, not_installed, top_level_args};
use git_utils::redirect::{ancestors, find_embed_root, head_update_args, must_record_head, RedirectError};
use git_utils::search::{
    decide_replace, grep_args, nul_separated_list, replaced_report, sed_args, sed_expression,
    ReplaceDecision,
};
use git_utils::status::{git_status, status_of_code, words, GitStatus, StatusError};
use git_utils::text::{basename, split_on, trim};

fn strs(v: &[&str]) -> Vec<String> {
    v.iter().map(|s| s.to_string()).collect()
}

#[test]
fn basename_takes_the_last_piece() {
    assert_eq!(basename("/home/me/project", '/'), "project");
    assert_eq!(basename("project", '/'), "project");
    assert_eq!(basename("dir/", '/'), "");
    assert_eq!(basename("", '/'), "");
}

#[test]
fn split_and_trim() {
    assert_eq!(split_on("a\nb\n", '\n'), strs(&["a", "b", ""]));
    assert_eq!(split_on("", '\n'), strs(&[""]));
    assert_eq!(trim("  x y \t\n"), "x y");
    assert_eq!(trim("\u{3000}z\u{a0}"), "z");
    assert_eq!(trim(" \n "), "");
}

#[test]
fn redirect_outside_an_embedded_directory() {
    let anc = ancestors("/w/outer/lib/src");
    assert_eq!(anc, strs(&["/w/outer/lib/src", "/w/outer/lib", "/w/outer", "/w", "/"]));
    let none = find_embed_root(&anc, &vec![false; 5]);
    assert_eq!(none.unwrap_err(), RedirectError::NotAnEmbeddedDirectory);
    let short = find_embed_root(&anc, &vec![]);
    assert_eq!(short.unwrap_err(), RedirectError::NotAnEmbeddedDirectory);
}

#[test]
fn redirect_to_the_nearest_root() {
    let anc = ancestors("/w/outer/lib/src");
    let r = find_embed_root(&anc, &vec![false, true, false, true, false]).unwrap();
    assert_eq!(r.root, "/w/outer/lib");
    assert_eq!(r.git_dir, "/w/outer/lib/.egit");
    assert_eq!(r.work_tree, "/w/outer/lib");
    assert_eq!(ancestors("/"), strs(&["/"]));
    assert_eq!(ancestors("rel"), strs(&["rel"]));
}

#[test]
fn head_is_recorded_after_moving_commands_only() {
    assert!(must_record_head(&strs(&["commit", "-m", "msg"]), 0));
    assert!(must_record_head(&strs(&["cherry-pick", "abc"]), 0));
    assert!(!must_record_head(&strs(&["commit", "-m", "msg"]), 1));
    assert!(!must_record_head(&strs(&["status"]), 0));
    assert!(!must_record_head(&strs(&[]), 0));
}

#[test]
fn head_update_goes_to_the_relative_section() {
    let entries = vec![
        EmbedEnty {
            name: "libs/x".to_string(),
            git_url: "u".to_string(),
            path: "libs/x".to_string(),
            head: "old".to_string(),
        },
    ];
    assert_eq!(
        head_update_args("/w/outer", "/w/outer/libs/x", "abc", &entries),
        Some(strs(&["config", "--file", "/w/outer/.gitembed", "embed.libs/x.head", "abc"]))
    );
    assert_eq!(head_update_args("/w/outer", "rel", "abc", &entries), None);
    assert_eq!(head_update_args("/w/outer", "/w/outer/egit-tmp/repo", "abc", &entries), None);
}

#[test]
fn search_arguments() {
    assert_eq!(
        grep_args("a|b", &strs(&["src", "doc"])),
        strs(&["--no-pager", "grep", "--files-with-matches", "--name-only", "-z", "-E", "-e", "a|b", "--", "src", "doc"])
    );
    assert_eq!(sed_expression("a/b", "c//d"), "s/a\\/b/c\\/\\/d/g");
    assert_eq!(sed_expression("x", "y"), "s/x/y/g");
    assert_eq!(sed_args(&strs(&["f1", "f2"]), "x", "y"), strs(&["-i", "-E", "s/x/y/g", "f1", "f2"]));
}

#[test]
fn nul_lists() {
    assert_eq!(nul_separated_list(""), None);
    assert_eq!(nul_separated_list("a.txt\0sub/b\\n.txt\0"), Some(strs(&["a.txt", "sub/b\\n.txt"])));
    assert_eq!(nul_separated_list("one\0"), Some(strs(&["one"])));
}

#[test]
fn replace_decisions() {
    let files = Some(strs(&["a", "b"]));
    assert!(matches!(decide_replace(None, None, false, false), ReplaceDecision::NoMatch));
    assert_eq!(decide_replace(None, None, false, false).exit_code(false), 1);
    match decide_replace(files.clone(), None, false, false) {
        ReplaceDecision::Replace { files } => assert_eq!(files, strs(&["a", "b"])),
        other => panic!("{:?}", other),
    }
    let conflict = decide_replace(files.clone(), Some(strs(&["b"])), false, false);
    match &conflict {
        ReplaceDecision::Conflict { modified } => assert_eq!(*modified, strs(&["b"])),
        other => panic!("{:?}", other),
    }
    assert_eq!(conflict.exit_code(false), 0);
    assert!(matches!(decide_replace(files.clone(), Some(strs(&["b"])), true, false), ReplaceDecision::Replace { .. }));
    let dry = decide_replace(files.clone(), None, false, true);
    assert!(matches!(dry, ReplaceDecision::DryRun { .. }));
    assert_eq!(dry.exit_code(true), 1);
    assert_eq!(decide_replace(files, Some(strs(&["b"])), false, true).exit_code(true), 1);
}

#[test]
fn replaced_files_are_noted() {
    let r = replaced_report(&strs(&["a", "b"]), &Some(strs(&["b"])));
    assert_eq!(r, strs(&["a", "b (had unstaged content)"]));
    assert_eq!(replaced_report(&strs(&["a"]), &None), strs(&["a"]));
}

#[test]
fn merge_base_from_output() {
    assert_eq!(get_merge_base("  0123abcd\n"), Some("0123abcd".to_string()));
    assert_eq!(get_merge_base("\n"), None);
    assert_eq!(get_merge_base(""), None);
    assert_eq!(merge_base_args("dev", "master"), strs(&["merge-base", "dev", "master"]));
}

#[test]
fn unique_commit_listings_mirror() {
    let a = unique_commits_args("master", "dev");
    let b = unique_commits_args("dev", "master");
    assert_eq!(a[3], "master");
    assert_eq!(a[4], "^dev");
    assert_eq!(b[3], "dev");
    assert_eq!(b[4], "^master");
    assert_eq!(a[..3], b[..3]);
    assert_eq!(common_commit_args("abc"), strs(&["--no-pager", "log", "-1", "abc"]));
}

#[test]
fn status_records_one_file_per_kind() {
    let r = git_status("M a.txt\n?? b.txt\n M  c.txt \n\n").unwrap();
    assert_eq!(r.len(), 2);
    assert_eq!(r[0].status, GitStatus::Modified);
    assert_eq!(r[0].name, "c.txt");
    assert_eq!(r[1].status, GitStatus::Untracked);
    assert_eq!(r[1].name, "b.txt");
    assert_eq!(git_status("").unwrap().len(), 0);
    let many = git_status("M a\nA b\nM c\nA d\nD e\n").unwrap();
    for i in 0..many.len() {
        for j in i + 1..many.len() {
            assert_ne!(many[i].status, many[j].status);
        }
    }
    assert_eq!(many.len(), 3);
}

#[test]
fn status_errors() {
    assert_eq!(git_status("XY a\n").unwrap_err(), StatusError::UnknownStatus);
    assert_eq!(git_status("M\n").unwrap_err(), StatusError::MissingName);
    assert_eq!(status_of_code("AD"), Some(GitStatus::Deleted));
    assert_eq!(status_of_code("AR"), Some(GitStatus::Renamed));
    assert_eq!(status_of_code("A"), Some(GitStatus::Added));
    assert_eq!(status_of_code("Q"), None);
    assert_eq!(words("  a  b "), strs(&["a", "b"]));
}

#[test]
fn shared_queries() {
    assert!(not_installed(false));
    assert!(!not_installed(true));
    assert_eq!(head_args(), strs(&["rev-parse", "HEAD"]));
    assert_eq!(top_level_args(), strs(&["rev-parse", "--show-toplevel"]));
}
