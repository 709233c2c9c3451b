//! The registry of embedded repositories, kept as a git config file with one
//! section `embed.<name>` per repository and the keys `url`, `path` and `head`.
use crate::text::{
    chars_of, find_first, find_last, first_index_of, last_index_of, split_on, split_spec, text_eq,
    views,
};
use vstd::prelude::*;

verus! {

/// The name of the config file at the top of the outer repository.
pub const CONFIG_FILE: &'static str = ".gitembed";

/// One embedded repository as the registry records it.
#[derive(Debug)]
pub struct EmbedEnty {
    pub name: String,
    pub git_url: String,
    pub path: String,
    pub head: String,
}

/// What an entry holds, as text.
pub struct EntryView {
    pub name: Seq<char>,
    pub git_url: Seq<char>,
    pub path: Seq<char>,
    pub head: Seq<char>,
}

impl View for EmbedEnty {
    type V = EntryView;

    open spec fn view(&self) -> EntryView {
        EntryView { name: self.name@, git_url: self.git_url@, path: self.path@, head: self.head@ }
    }
}

/// The views of a sequence of entries.
pub open spec fn entry_views(v: Seq<EmbedEnty>) -> Seq<EntryView> {
    v.map_values(|e: EmbedEnty| e@)
}

/// The section prefix of every registry key.
pub open spec fn embed_prefix() -> Seq<char> {
    seq!['e', 'm', 'b', 'e', 'd', '.']
}

pub open spec fn url_key() -> Seq<char> {
    seq!['u', 'r', 'l']
}

pub open spec fn path_key() -> Seq<char> {
    seq!['p', 'a', 't', 'h']
}

pub open spec fn head_key() -> Seq<char> {
    seq!['h', 'e', 'a', 'd']
}

/// A record `embed.<name>.<field>` newline `<value>` of the config listing,
/// split into its name, field and value. The key ends at the first newline,
/// which a key cannot hold; the name runs to the last `.` of the key. Other
/// records give `None`.
pub open spec fn config_line(line: Seq<char>) -> Option<(Seq<char>, Seq<char>, Seq<char>)> {
    let e = first_index_of(line, '\n');
    if e < 0 {
        None
    } else {
        let key = line.subrange(0, e);
        let value = line.subrange(e + 1, line.len() as int);
        let d = last_index_of(key, '.');
        if key.len() >= 6 && key.subrange(0, 6) == embed_prefix() && d >= 6 {
            Some((key.subrange(6, d), key.subrange(d + 1, key.len() as int), value))
        } else {
            None
        }
    }
}

/// An entry with only its name.
pub open spec fn blank_entry(name: Seq<char>) -> EntryView {
    EntryView { name, git_url: Seq::empty(), path: Seq::empty(), head: Seq::empty() }
}

/// `e` with the field named `field` set to `value`; other field names leave it.
pub open spec fn set_field(e: EntryView, field: Seq<char>, value: Seq<char>) -> EntryView {
    if field == url_key() {
        EntryView { git_url: value, ..e }
    } else if field == path_key() {
        EntryView { path: value, ..e }
    } else if field == head_key() {
        EntryView { head: value, ..e }
    } else {
        e
    }
}

pub open spec fn is_field(field: Seq<char>) -> bool {
    field == url_key() || field == path_key() || field == head_key()
}

/// The index of the first entry named `name`, or -1.
pub open spec fn entry_index(es: Seq<EntryView>, name: Seq<char>) -> int
    decreases es.len(),
{
    if es.len() == 0 {
        -1
    } else {
        let r = entry_index(es.drop_last(), name);
        if r >= 0 {
            r
        } else if es.last().name == name {
            es.len() - 1
        } else {
            -1
        }
    }
}

/// The entries after one more record of the listing: a known field of a
/// section goes to the entry of that name, which is added at the end the
/// first time the name is seen.
pub open spec fn apply_line(es: Seq<EntryView>, line: Seq<char>) -> Seq<EntryView> {
    match config_line(line) {
        Some((name, field, value)) => {
            if !is_field(field) {
                es
            } else {
                let i = entry_index(es, name);
                if i >= 0 {
                    es.update(i, set_field(es[i], field, value))
                } else {
                    es.push(set_field(blank_entry(name), field, value))
                }
            }
        },
        None => es,
    }
}

/// The entries after the records `lines`, one after the other.
pub open spec fn apply_lines(es: Seq<EntryView>, lines: Seq<Seq<char>>) -> Seq<EntryView>
    decreases lines.len(),
{
    if lines.len() == 0 {
        es
    } else {
        apply_line(apply_lines(es, lines.drop_last()), lines.last())
    }
}

/// The entries that a NUL-terminated config listing describes, in the order
/// in which their names first appear.
pub open spec fn parse_embeds(listing: Seq<char>) -> Seq<EntryView> {
    apply_lines(Seq::empty(), split_spec(listing, '\0'))
}


/// Splits one record of the config listing into name, field and value.
pub fn parse_config_line(line: &str) -> (r: Option<(String, String, String)>)
    ensures
        match r {
            Some((name, field, value)) => config_line(line@) == Some((name@, field@, value@)),
            None => config_line(line@) is None,
        },
{
    let cs = chars_of(line);
    let n = cs.len();
    match find_first(&cs, '\n') {
        None => None,
        Some(e) => {
            let key = line.substring_char(0, e);
            let ks = chars_of(key);
            if e < 6 || ks[0] != 'e' || ks[1] != 'm' || ks[2] != 'b' || ks[3] != 'e' || ks[4]
                != 'd' || ks[5] != '.' {
                assert(e >= 6 ==> key@.subrange(0, 6) != embed_prefix()) by {
                    if e >= 6 && key@.subrange(0, 6) == embed_prefix() {
                        assert(key@.subrange(0, 6)[0] == key@[0]);
                        assert(key@.subrange(0, 6)[1] == key@[1]);
                        assert(key@.subrange(0, 6)[2] == key@[2]);
                        assert(key@.subrange(0, 6)[3] == key@[3]);
                        assert(key@.subrange(0, 6)[4] == key@[4]);
                        assert(key@.subrange(0, 6)[5] == key@[5]);
                    }
                }
                return None;
            }
            assert(key@.subrange(0, 6) =~= embed_prefix());
            match find_last(&ks, '.') {
                Some(d) => {
                    if d >= 6 {
                        let name = key.substring_char(6, d).to_string();
                        let field = key.substring_char(d + 1, e).to_string();
                        let value = line.substring_char(e + 1, n).to_string();
                        Some((name, field, value))
                    } else {
                        None
                    }
                },
                None => None,
            }
        },
    }
}

/// The index of the first entry named `name`.
pub fn find_entry(es: &Vec<EmbedEnty>, name: &String) -> (r: Option<usize>)
    ensures
        match r {
            Some(i) => i < es.len() && i as int == entry_index(entry_views(es@), name@),
            None => entry_index(entry_views(es@), name@) == -1,
        },
{
    let mut i: usize = 0;
    while i < es.len()
        invariant
            i <= es.len(),
            entry_index(entry_views(es@).subrange(0, i as int), name@) == -1,
        decreases es.len() - i,
    {
        assert(entry_views(es@).subrange(0, i + 1).drop_last() =~= entry_views(es@).subrange(
            0,
            i as int,
        ));
        if es[i].name == *name {
            proof {
                lemma_entry_index_prefix(entry_views(es@), i + 1);
            }
            return Some(i);
        }
        i = i + 1;
    }
    assert(entry_views(es@).subrange(0, i as int) =~= entry_views(es@));
    None
}

/// A first match in a prefix is the first match of the whole.
pub proof fn lemma_entry_index_prefix(es: Seq<EntryView>, k: int)
    requires
        0 <= k <= es.len(),
    ensures
        forall|name: Seq<char>|
            entry_index(es.subrange(0, k), name) >= 0 ==> #[trigger] entry_index(es, name)
                == entry_index(es.subrange(0, k), name),
    decreases es.len() - k,
{
    if k < es.len() {
        lemma_entry_index_prefix(es, k + 1);
        assert(es.subrange(0, k + 1).drop_last() =~= es.subrange(0, k));
    } else {
        assert(es.subrange(0, k) =~= es);
    }
}


/// Whether `field` names one of the registry's keys.
pub fn is_field_name(field: &str) -> (r: bool)
    ensures
        r == is_field(field@),
{
    proof {
        reveal_strlit("url");
        reveal_strlit("path");
        reveal_strlit("head");
        assert("url"@ =~= url_key());
        assert("path"@ =~= path_key());
        assert("head"@ =~= head_key());
    }
    text_eq(field, "url") || text_eq(field, "path") || text_eq(field, "head")
}

/// Sets the field named `field` of `e` to `value`.
fn assign_field(e: &mut EmbedEnty, field: &str, value: String)
    requires
        is_field(field@),
    ensures
        final(e)@ == set_field(old(e)@, field@, value@),
{
    proof {
        reveal_strlit("url");
        reveal_strlit("path");
        assert("url"@ =~= url_key());
        assert("path"@ =~= path_key());
        assert(url_key() != path_key());
        assert(url_key() != head_key());
        assert(path_key() != head_key()) by {
            assert(path_key()[0] != head_key()[0]);
        }
    }
    if text_eq(field, "url") {
        e.git_url = value;
    } else if text_eq(field, "path") {
        e.path = value;
    } else {
        e.head = value;
    }
}

/// Takes one more record of the config listing into `es`.
pub fn apply_config_line(es: &mut Vec<EmbedEnty>, line: &str)
    ensures
        entry_views(final(es)@) == apply_line(entry_views(old(es)@), line@),
{
    match parse_config_line(line) {
        None => {},
        Some((name, field, value)) => {
            if is_field_name(field.as_str()) {
                match find_entry(es, &name) {
                    Some(i) => {
                        let mut e = EmbedEnty {
                            name: es[i].name.clone(),
                            git_url: es[i].git_url.clone(),
                            path: es[i].path.clone(),
                            head: es[i].head.clone(),
                        };
                        assert(e@ == entry_views(es@)[i as int]);
                        assign_field(&mut e, field.as_str(), value);
                        let ghost before = es@;
                        es.set(i, e);
                        assert(entry_views(es@) =~= entry_views(before).update(
                            i as int,
                            set_field(entry_views(before)[i as int], field@, value@),
                        ));
                    },
                    None => {
                        let mut e = EmbedEnty {
                            name,
                            git_url: String::new(),
                            path: String::new(),
                            head: String::new(),
                        };
                        assert(e@ == blank_entry(name@));
                        assign_field(&mut e, field.as_str(), value);
                        let ghost before = es@;
                        es.push(e);
                        assert(entry_views(es@) =~= entry_views(before).push(
                            set_field(blank_entry(name@), field@, value@),
                        ));
                    },
                }
            }
        },
    }
}

/// The registry's entries, read from the output of
/// `git config --file .gitembed --list -z`.
pub fn get_embeds(listing: &str) -> (r: Vec<EmbedEnty>)
    ensures
        entry_views(r@) == parse_embeds(listing@),
{
    let lines = split_on(listing, '\0');
    let mut es: Vec<EmbedEnty> = Vec::new();
    let mut i: usize = 0;
    assert(views(lines@).subrange(0, 0) =~= Seq::<Seq<char>>::empty());
    assert(entry_views(es@) =~= Seq::<EntryView>::empty());
    while i < lines.len()
        invariant
            i <= lines.len(),
            views(lines@) == split_spec(listing@, '\0'),
            entry_views(es@) == apply_lines(Seq::empty(), views(lines@).subrange(0, i as int)),
        decreases lines.len() - i,
    {
        assert(views(lines@).subrange(0, i + 1).drop_last() =~= views(lines@).subrange(0, i as int));
        apply_config_line(&mut es, lines[i].as_str());
        i = i + 1;
    }
    assert(views(lines@).subrange(0, i as int) =~= views(lines@));
    es
}


/// The config key of `field` in the section of `name`.
pub open spec fn config_key(name: Seq<char>, field: Seq<char>) -> Seq<char> {
    embed_prefix() + name + seq!['.'] + field
}

/// The record that the config listing holds for `field` of `name`: the key,
/// a newline, the value.
pub open spec fn listing_line(name: Seq<char>, field: Seq<char>, value: Seq<char>) -> Seq<char> {
    config_key(name, field) + seq!['\n'] + value
}

/// The three records that the registry writes for an entry, in their order.
pub open spec fn entry_lines(e: EntryView) -> Seq<Seq<char>> {
    seq![
        listing_line(e.name, url_key(), e.git_url),
        listing_line(e.name, path_key(), e.path),
        listing_line(e.name, head_key(), e.head),
    ]
}

/// The records of a listing of `es`, entry after entry.
pub open spec fn listing_lines(es: Seq<EntryView>) -> Seq<Seq<char>>
    decreases es.len(),
{
    if es.len() == 0 {
        Seq::empty()
    } else {
        listing_lines(es.drop_last()) + entry_lines(es.last())
    }
}

/// A listing as git prints it with `-z`: each record ended by a NUL.
pub open spec fn listing_text(lines: Seq<Seq<char>>) -> Seq<char>
    decreases lines.len(),
{
    if lines.len() == 0 {
        Seq::empty()
    } else {
        listing_text(lines.drop_last()) + lines.last() + seq!['\0']
    }
}

/// The config key of `field` in the section of `name`.
pub fn config_key_of(name: &str, field: &str) -> (r: String)
    ensures
        r@ == config_key(name@, field@),
{
    proof {
        reveal_strlit("embed.");
        reveal_strlit(".");
    }
    let mut k = "embed.".to_string();
    k.append(name);
    k.append(".");
    k.append(field);
    assert(k@ =~= config_key(name@, field@));
    k
}

/// The arguments of `git` that set `field` of the section of `name` to
/// `value` in the config file `file`.
pub fn set_field_args(file: &str, name: &str, field: &str, value: &str) -> (r: Vec<String>)
    ensures
        views(r@) == seq!["config"@, "--file"@, file@, config_key(name@, field@), value@],
{
    let r = vec![
        "config".to_string(),
        "--file".to_string(),
        file.to_string(),
        config_key_of(name, field),
        value.to_string(),
    ];
    assert(views(r@) =~= seq!["config"@, "--file"@, file@, config_key(name@, field@), value@]);
    r
}

/// The arguments of `git` that remove `field` from the section of `name`.
pub fn unset_field_args(file: &str, name: &str, field: &str) -> (r: Vec<String>)
    ensures
        views(r@) == seq!["config"@, "--file"@, file@, "--unset"@, config_key(name@, field@)],
{
    let r = vec![
        "config".to_string(),
        "--file".to_string(),
        file.to_string(),
        "--unset".to_string(),
        config_key_of(name, field),
    ];
    assert(views(r@) =~= seq!["config"@, "--file"@, file@, "--unset"@, config_key(name@, field@)]);
    r
}

/// The arguments of `git` that remove the whole section of `name`.
pub fn remove_section_args(file: &str, name: &str) -> (r: Vec<String>)
    ensures
        views(r@) == seq!["config"@, "--file"@, file@, "--remove-section"@, embed_prefix() + name@],
{
    proof {
        reveal_strlit("embed.");
    }
    let mut section = "embed.".to_string();
    section.append(name);
    assert(section@ =~= embed_prefix() + name@);
    let r = vec![
        "config".to_string(),
        "--file".to_string(),
        file.to_string(),
        "--remove-section".to_string(),
        section,
    ];
    assert(views(r@) =~= seq!["config"@, "--file"@, file@, "--remove-section"@, embed_prefix() + name@]);
    r
}

/// The arguments of `git` that list the whole config file, each record
/// ended by a NUL and its key parted from its value by a newline.
pub fn list_args(file: &str) -> (r: Vec<String>)
    ensures
        views(r@) == seq!["config"@, "--file"@, file@, "--list"@, "-z"@],
{
    let r = vec![
        "config".to_string(),
        "--file".to_string(),
        file.to_string(),
        "--list".to_string(),
        "-z".to_string(),
    ];
    assert(views(r@) =~= seq!["config"@, "--file"@, file@, "--list"@, "-z"@]);
    r
}


/// The index of the first entry whose path is `path`, or -1.
pub open spec fn path_index(es: Seq<EntryView>, path: Seq<char>) -> int
    decreases es.len(),
{
    if es.len() == 0 {
        -1
    } else {
        let r = path_index(es.drop_last(), path);
        if r >= 0 {
            r
        } else if es.last().path == path {
            es.len() - 1
        } else {
            -1
        }
    }
}

proof fn lemma_path_index_prefix(es: Seq<EntryView>, k: int, path: Seq<char>)
    requires
        0 <= k <= es.len(),
        path_index(es.subrange(0, k), path) >= 0,
    ensures
        path_index(es, path) == path_index(es.subrange(0, k), path),
    decreases es.len() - k,
{
    if k < es.len() {
        assert(es.subrange(0, k + 1).drop_last() =~= es.subrange(0, k));
        lemma_path_index_prefix(es, k + 1, path);
    } else {
        assert(es.subrange(0, k) =~= es);
    }
}

/// The index of the first entry whose path is `path`.
pub fn find_path(es: &Vec<EmbedEnty>, path: &str) -> (r: Option<usize>)
    ensures
        match r {
            Some(i) => i < es.len() && i as int == path_index(entry_views(es@), path@),
            None => path_index(entry_views(es@), path@) == -1,
        },
{
    let ghost vs = entry_views(es@);
    let mut i: usize = 0;
    while i < es.len()
        invariant
            i <= es.len(),
            vs == entry_views(es@),
            path_index(vs.subrange(0, i as int), path@) == -1,
        decreases es.len() - i,
    {
        assert(vs.subrange(0, i + 1).drop_last() =~= vs.subrange(0, i as int));
        if text_eq(es[i].path.as_str(), path) {
            proof {
                lemma_path_index_prefix(vs, i + 1, path@);
            }
            return Some(i);
        }
        i = i + 1;
    }
    assert(vs.subrange(0, i as int) =~= vs);
    None
}

} // verus!
