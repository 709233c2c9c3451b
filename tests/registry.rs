use git_utils::commit_time::{get_last_commit_time, CommitTime};
use git_utils::config::{get_embeds, parse_config_line, remove_section_args, set_field_args};
use git_utils::registry::{
    add_steps, after_step, egit_args, first_step, Progress, init_steps, record_steps, remove_steps, status_steps, tag_name,
    tag_steps, update_steps, RegistryError, Step,
};
use git_utils::config::EmbedEnty;

fn strs(v: &[&str]) -> Vec<String> {
    v.iter().map(|s| s.to_string()).collect()
}

fn listing_of(steps: &[Step]) -> String {
    let mut out = String::new();
    for step in steps {
        match step {
            Step::Git { args } => {
                assert_eq!(args[0], "config");
                out.push_str(&format!("{}\n{}\0", args[3], args[4]));
            }
            other => panic!("not a config write: {:?}", other),
        }
    }
    out
}

fn entry(name: &str, url: &str, path: &str, head: &str) -> EmbedEnty {
    EmbedEnty {
        name: name.to_string(),
        git_url: url.to_string(),
        path: path.to_string(),
        head: head.to_string(),
    }
}

#[test]
fn listing_reads_entries_in_order() {
    let listing = "embed.libs/a.url\nhttps://example.org/a.git\0\
                   embed.libs/a.path\nlibs/a\0\
                   embed.libs/a.head\n1111\0\
                   embed.b.url\ngit@host:b\0\
                   embed.b.path\nb\0\
                   embed.b.head\n2222\0";
    let es = get_embeds(listing);
    assert_eq!(es.len(), 2);
    assert_eq!(es[0].name, "libs/a");
    assert_eq!(es[0].git_url, "https://example.org/a.git");
    assert_eq!(es[0].path, "libs/a");
    assert_eq!(es[0].head, "1111");
    assert_eq!(es[1].name, "b");
    assert_eq!(es[1].git_url, "git@host:b");
    assert_eq!(es[1].head, "2222");
}

#[test]
fn listing_groups_by_key_not_by_line_order() {
    let listing = "embed.x.head\n3\0embed.y.url\nu2\0embed.x.url\nu1\0embed.x.path\nx\0embed.y.path\ny\0";
    let es = get_embeds(listing);
    assert_eq!(es.len(), 2);
    assert_eq!((es[0].name.as_str(), es[0].git_url.as_str(), es[0].path.as_str(), es[0].head.as_str()), ("x", "u1", "x", "3"));
    assert_eq!((es[1].name.as_str(), es[1].git_url.as_str(), es[1].path.as_str(), es[1].head.as_str()), ("y", "u2", "y", ""));
}

#[test]
fn listing_keeps_equals_in_values_and_dots_in_names() {
    let es = get_embeds("embed.v1.2.url\nhttps://h/?a=b\0embed.v1.2.path\nv1.2\0");
    assert_eq!(es.len(), 1);
    assert_eq!(es[0].name, "v1.2");
    assert_eq!(es[0].git_url, "https://h/?a=b");
    assert_eq!(es[0].path, "v1.2");
}

#[test]
fn listing_ignores_other_lines() {
    let es = get_embeds("core.bare\nfalse\0embed.url\nx\0embed.a.other\n1\0no newline here\0\0");
    assert!(es.is_empty());
    assert!(get_embeds("").is_empty());
}

#[test]
fn config_line_parts() {
    assert_eq!(
        parse_config_line("embed.a.b.head\nc=d"),
        Some(("a.b".to_string(), "head".to_string(), "c=d".to_string()))
    );
    assert_eq!(
        parse_config_line("embed.a=b.url\nu\nv"),
        Some(("a=b".to_string(), "url".to_string(), "u\nv".to_string()))
    );
    assert_eq!(parse_config_line("embed..url\nu"), Some(("".to_string(), "url".to_string(), "u".to_string())));
    assert_eq!(parse_config_line("embed.url\nu"), None);
    assert_eq!(parse_config_line("other.a.url\nu"), None);
    assert_eq!(parse_config_line("embed.a.url"), None);
}

#[test]
fn config_arguments() {
    assert_eq!(
        set_field_args(".gitembed", "libs/a", "url", "u"),
        strs(&["config", "--file", ".gitembed", "embed.libs/a.url", "u"])
    );
    assert_eq!(
        remove_section_args(".gitembed", "libs/a"),
        strs(&["config", "--file", ".gitembed", "--remove-section", "embed.libs/a"])
    );
}

#[test]
fn add_then_list_gives_one_entry() {
    let before = "embed.old.url\no\0embed.old.path\nold\0embed.old.head\n9\0";
    let written = record_steps("libs/new", "https://h/new.git", "abc123");
    let listing = format!("{}{}", before, listing_of(&written));
    let es = get_embeds(&listing);
    assert_eq!(es.len(), 2);
    let matching: Vec<&EmbedEnty> = es.iter().filter(|e| e.path == "libs/new").collect();
    assert_eq!(matching.len(), 1);
    assert_eq!(matching[0].git_url, "https://h/new.git");
    assert_eq!(matching[0].head, "abc123");
    assert_eq!(matching[0].name, "libs/new");
}

#[test]
fn round_trip_of_entries() {
    let mut listing = String::new();
    for (path, url, head) in [("a", "u1", "h1"), ("deep/b.c", "ssh://x=y", "h2")] {
        listing.push_str(&listing_of(&record_steps(path, url, head)));
    }
    let es = get_embeds(&listing);
    assert_eq!(es.len(), 2);
    assert_eq!((es[0].name.as_str(), es[0].git_url.as_str(), es[0].path.as_str(), es[0].head.as_str()), ("a", "u1", "a", "h1"));
    assert_eq!((es[1].name.as_str(), es[1].git_url.as_str(), es[1].path.as_str(), es[1].head.as_str()), ("deep/b.c", "ssh://x=y", "deep/b.c", "h2"));
}

#[test]
fn add_refuses_existing_directory() {
    assert!(matches!(add_steps("u", "p", true), Err(RegistryError::PathConflict)));
    let steps = add_steps("https://h/r.git", "libs/r", false).unwrap();
    assert_eq!(steps.len(), 2);
    match &steps[0] {
        Step::Git { args } => assert_eq!(*args, strs(&["clone", "--quiet", "https://h/r.git", "libs/r"])),
        other => panic!("{:?}", other),
    }
    match &steps[1] {
        Step::Rename { from, to } => {
            assert_eq!(from, "libs/r/.git");
            assert_eq!(to, "libs/r/.egit");
        }
        other => panic!("{:?}", other),
    }
}

#[test]
fn remove_keeps_files_unless_asked() {
    assert!(remove_steps("libs/r", false, true, false).is_empty());
    let keep = remove_steps("libs/r", true, false, false);
    assert_eq!(keep.len(), 2);
    assert!(matches!(&keep[0], Step::RemoveDir { path } if path == "libs/r/.egit"));
    assert!(!keep.iter().any(|s| matches!(s, Step::RemoveDir { path } if path == "libs/r")));
    assert!(matches!(&keep[1], Step::Git { args } if *args == strs(&["config", "--file", ".gitembed", "--remove-section", "embed.libs/r"])));
    let all = remove_steps("libs/r", true, true, false);
    assert_eq!(all.len(), 3);
    assert!(matches!(&all[1], Step::RemoveDir { path } if path == "libs/r"));
}

#[test]
fn remove_then_list_has_no_entry() {
    let full = "embed.a.url\nu\0embed.a.path\na\0embed.a.head\n1\0embed.b.url\nv\0embed.b.path\nb\0embed.b.head\n2\0";
    let after: String = full
        .split('\0')
        .filter(|r| !r.is_empty() && !r.starts_with("embed.a."))
        .map(|r| format!("{}\0", r))
        .collect();
    let es = get_embeds(&after);
    assert_eq!(es.len(), 1);
    assert!(es.iter().all(|e| e.path != "a"));
    assert_eq!((es[0].name.as_str(), es[0].git_url.as_str(), es[0].path.as_str(), es[0].head.as_str()), ("b", "v", "b", "2"));
}

#[test]
fn init_plan_for_new_entry() {
    let e = entry("lib", "https://h/lib.git", "lib", "cafe");
    assert!(init_steps(&e, true, "/work/outer").is_empty());
    let s = init_steps(&e, false, "/work/outer");
    assert_eq!(s.len(), 9);
    assert!(matches!(&s[0], Step::RemoveDir { path } if path == "/work/outer/egit-tmp"));
    assert!(matches!(&s[2], Step::Git { args } if *args == strs(&["clone", "--quiet", "https://h/lib.git", "/work/outer/egit-tmp/repo"])));
    assert!(matches!(&s[4], Step::Egit { args, dir } if *args == strs(&["reset", "--mixed", "cafe"]) && dir == "/work/outer/egit-tmp/repo"));
    assert!(matches!(&s[5], Step::Egit { args, .. } if *args == strs(&["checkout", "-b", "outer"])));
    assert!(matches!(&s[6], Step::Egit { args, .. } if *args == strs(&["branch", "-D", "master"])));
    assert!(matches!(&s[7], Step::Rename { from, to } if from == "/work/outer/egit-tmp/repo" && to == "/work/outer/lib"));
}

#[test]
fn update_and_status_plans() {
    let e = entry("lib", "u", "lib", "beef");
    assert!(update_steps(&e, false, "/o").is_empty());
    let u = update_steps(&e, true, "/o");
    assert_eq!(u.len(), 3);
    assert!(matches!(&u[0], Step::Egit { args, dir } if *args == strs(&["fetch", "--tags"]) && dir == "/o/lib"));
    assert!(matches!(&u[1], Step::Egit { args, .. } if *args == strs(&["reset", "--mixed", "beef"])));
    assert!(matches!(&u[2], Step::Egit { args, .. } if *args == strs(&["status"])));
    assert!(status_steps(&e, false, "/o").is_empty());
    let s = status_steps(&e, true, "/o");
    assert_eq!(s.len(), 2);
    assert!(matches!(&s[0], Step::Egit { args, .. } if *args == strs(&["rev-parse", "HEAD"])));
}

#[test]
fn tags_name_the_outer_state() {
    let t = CommitTime { year: 2023, month: 5, day: 6, hour: 7, minute: 8, second: 9 };
    assert_eq!(t.stamp(), "20230506070809");
    let early = CommitTime { year: 7, month: 1, day: 2, hour: 0, minute: 0, second: 0 };
    assert_eq!(early.stamp(), "00070102000000");
    assert_eq!(tag_name("outer", &t, "abc"), "outer.20230506070809.abc");
    let es = vec![entry("a", "u", "a", "1"), entry("b", "v", "b", "2")];
    assert!(matches!(tag_steps(true, Some(t), "abc", &es, "/w/outer"), Err(RegistryError::DirtyConfig)));
    assert!(tag_steps(false, None, "abc", &es, "/w/outer").unwrap().is_empty());
    let steps = tag_steps(false, Some(t), "abc", &es, "/w/outer").unwrap();
    assert_eq!(steps.len(), 4);
    assert!(matches!(&steps[0], Step::Egit { args, dir } if *args == strs(&["tag", "outer.20230506070809.abc"]) && dir == "/w/outer/a"));
    assert!(matches!(&steps[3], Step::Egit { args, dir } if *args == strs(&["push", "--tags"]) && dir == "/w/outer/b"));
}

#[test]
fn commit_time_from_git_output() {
    let t = get_last_commit_time("2023-05-06T07:08:09+02:00\n").unwrap();
    assert_eq!(t, CommitTime { year: 2023, month: 5, day: 6, hour: 7, minute: 8, second: 9 });
    assert_eq!(get_last_commit_time(""), None);
    assert_eq!(get_last_commit_time("yesterday\n"), None);
}

#[test]
fn egit_invocation_passes_arguments() {
    assert_eq!(egit_args(&strs(&["reset", "--mixed", "x"])), strs(&["--", "reset", "--mixed", "x"]));
}

#[test]
fn path_with_equals_sign_is_listed_after_add() {
    let written = record_steps("libs/a=b", "https://h/x?y=z", "f00d");
    let es = get_embeds(&listing_of(&written));
    assert_eq!(es.len(), 1);
    assert_eq!(es[0].name, "libs/a=b");
    assert_eq!(es[0].path, "libs/a=b");
    assert_eq!(es[0].git_url, "https://h/x?y=z");
    assert_eq!(es[0].head, "f00d");
}

#[test]
fn unmarked_entries_are_pruned_only_on_request() {
    let section = strs(&["config", "--file", ".gitembed", "--remove-section", "embed.gone"]);
    let pruned = remove_steps("gone", false, false, true);
    assert_eq!(pruned.len(), 1);
    assert!(matches!(&pruned[0], Step::Git { args } if *args == section));
    let with_files = remove_steps("gone", false, true, true);
    assert_eq!(with_files.len(), 2);
    assert!(matches!(&with_files[0], Step::RemoveDir { path } if path == "gone"));
}

#[test]
fn plans_stop_at_the_first_failure() {
    assert_eq!(first_step(0), Progress::Done);
    assert_eq!(first_step(3), Progress::Next(0));
    assert_eq!(after_step(3, 0, true), Progress::Next(1));
    assert_eq!(after_step(3, 1, false), Progress::Failed(1));
    assert_eq!(after_step(3, 2, true), Progress::Done);
}
