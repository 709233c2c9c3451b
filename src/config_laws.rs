//! What holds of the registry's listing: the parser reads back what the
//! registry writes.
use crate::config::{
    apply_line, apply_lines, blank_entry, config_key, config_line, embed_prefix, entry_index,
    entry_lines, head_key, is_field, listing_line, listing_lines, listing_text, parse_embeds,
    path_key, set_field, url_key, EntryView,
};
use crate::text::{
    first_index_of, last_index_of, lemma_first_index_bounds, lemma_last_index_bounds,
    lemma_split_nonempty, split_spec,
};
use vstd::prelude::*;

verus! {

/// No character of `s` is `c`.
pub open spec fn lacks(s: Seq<char>, c: char) -> bool {
    forall|i: int| 0 <= i < s.len() ==> s[i] != c
}

/// An entry that the listing can hold: no NUL in any field, and no newline
/// in the name (git refuses one in a section name).
pub open spec fn entry_ok(e: EntryView) -> bool {
    &&& lacks(e.name, '\n')
    &&& lacks(e.name, '\0')
    &&& lacks(e.git_url, '\0')
    &&& lacks(e.path, '\0')
    &&& lacks(e.head, '\0')
}

/// Entries that the listing can hold, with pairwise distinct names.
pub open spec fn entries_ok(es: Seq<EntryView>) -> bool {
    &&& forall|i: int| 0 <= i < es.len() ==> entry_ok(#[trigger] es[i])
    &&& forall|i: int, j: int|
        0 <= i < j < es.len() ==> #[trigger] es[i].name != #[trigger] es[j].name
}

/// No record holds a NUL.
pub open spec fn lines_ok(lines: Seq<Seq<char>>) -> bool {
    forall|i: int| 0 <= i < lines.len() ==> lacks(#[trigger] lines[i], '\0')
}

proof fn lemma_key_chars(name: Seq<char>, field: Seq<char>)
    requires
        lacks(name, '\n'),
        is_field(field),
    ensures
        lacks(config_key(name, field), '\n'),
        lacks(field, '.'),
        config_key(name, field)[6 + name.len() as int] == '.',
{
    let k = config_key(name, field);
    assert forall|i: int| 0 <= i < k.len() implies k[i] != '\n' by {
        if i < 6 {
            assert(k[i] == embed_prefix()[i]);
        } else if i < 6 + name.len() {
            assert(k[i] == name[i - 6]);
        } else if i > 6 + name.len() {
            assert(k[i] == field[i - 7 - name.len()]);
        }
    }
}

/// A record written for a field of a section reads back as that field.
pub proof fn lemma_listing_line_parses(name: Seq<char>, field: Seq<char>, value: Seq<char>)
    requires
        lacks(name, '\n'),
        is_field(field),
    ensures
        config_line(listing_line(name, field, value)) == Some((name, field, value)),
{
    let k = config_key(name, field);
    let line = listing_line(name, field, value);
    lemma_key_chars(name, field);
    lemma_first_index_bounds(line, '\n');
    assert(line[k.len() as int] == '\n');
    assert forall|j: int| 0 <= j < k.len() implies line[j] != '\n' by {
        assert(line[j] == k[j]);
    }
    assert(first_index_of(line, '\n') == k.len());
    assert(line.subrange(0, k.len() as int) =~= k);
    assert(line.subrange(k.len() as int + 1, line.len() as int) =~= value);
    lemma_last_index_bounds(k, '.');
    let d: int = 6 + name.len() as int;
    assert forall|j: int| d < j < k.len() implies k[j] != '.' by {
        assert(k[j] == field[j - d - 1]);
    }
    assert(last_index_of(k, '.') == d);
    assert(k.subrange(0, 6) =~= embed_prefix());
    assert(k.subrange(6, d) =~= name);
    assert(k.subrange(d + 1, k.len() as int) =~= field);
}

/// Appending text without separators extends the last piece.
pub proof fn lemma_split_extend(t: Seq<char>, l: Seq<char>, c: char)
    requires
        lacks(l, c),
    ensures
        split_spec(t + l, c) =~~= split_spec(t, c).update(
            split_spec(t, c).len() - 1,
            split_spec(t, c).last() + l,
        ),
    decreases l.len(),
{
    lemma_split_nonempty(t, c);
    if l.len() == 0 {
        assert(t + l =~= t);
        assert(split_spec(t, c).last() + l =~= split_spec(t, c).last());
    } else {
        lemma_split_extend(t, l.drop_last(), c);
        assert((t + l).drop_last() =~= t + l.drop_last());
        assert((t + l).last() == l.last());
        assert(split_spec(t, c).last() + l.drop_last() + seq![l.last()] =~= split_spec(t, c).last()
            + l);
        lemma_split_nonempty(t + l.drop_last(), c);
    }
}

/// Splitting a listing at NULs gives back its records, and one empty piece
/// after the last NUL.
pub proof fn lemma_split_listing(lines: Seq<Seq<char>>)
    requires
        lines_ok(lines),
    ensures
        split_spec(listing_text(lines), '\0') =~~= lines.push(Seq::empty()),
    decreases lines.len(),
{
    if lines.len() > 0 {
        let front = lines.drop_last();
        assert(lines_ok(front)) by {
            assert forall|i: int| 0 <= i < front.len() implies lacks(#[trigger] front[i], '\0') by {
                assert(front[i] == lines[i]);
            }
        }
        lemma_split_listing(front);
        let t = listing_text(front);
        let l = lines.last();
        assert(lacks(lines[lines.len() - 1], '\0'));
        lemma_split_extend(t, l, '\0');
        assert((t + l + seq!['\0']).drop_last() =~= t + l);
        assert(Seq::<char>::empty() + l =~= l);
        assert(front.push(Seq::empty()).update(front.len() as int, Seq::<char>::empty() + l)
            =~~= lines);
    }
}

/// Reading two runs of records one after the other.
pub proof fn lemma_apply_lines_concat(
    es: Seq<EntryView>,
    a: Seq<Seq<char>>,
    b: Seq<Seq<char>>,
)
    ensures
        apply_lines(es, a + b) == apply_lines(apply_lines(es, a), b),
    decreases b.len(),
{
    if b.len() == 0 {
        assert(a + b =~= a);
    } else {
        lemma_apply_lines_concat(es, a, b.drop_last());
        assert((a + b).drop_last() =~= a + b.drop_last());
    }
}

/// An empty record changes nothing.
pub proof fn lemma_apply_empty_line(es: Seq<EntryView>)
    ensures
        apply_line(es, Seq::empty()) == es,
{
}

/// The index found names the entry, and no entry is missed.
pub proof fn lemma_entry_index_bounds(es: Seq<EntryView>, name: Seq<char>)
    ensures
        -1 <= entry_index(es, name) < es.len(),
        entry_index(es, name) >= 0 ==> es[entry_index(es, name)].name == name,
        entry_index(es, name) < 0 ==> forall|i: int| 0 <= i < es.len() ==> es[i].name != name,
    decreases es.len(),
{
    if es.len() > 0 {
        lemma_entry_index_bounds(es.drop_last(), name);
        assert(forall|i: int| 0 <= i < es.len() - 1 ==> es.drop_last()[i] == es[i]);
    }
}

/// The three records of an entry with a new name add that entry at the end.
pub proof fn lemma_apply_entry(es: Seq<EntryView>, e: EntryView)
    requires
        entry_ok(e),
        forall|i: int| 0 <= i < es.len() ==> es[i].name != e.name,
    ensures
        apply_lines(es, entry_lines(e)) == es.push(e),
{
    let ls = entry_lines(e);
    lemma_listing_line_parses(e.name, url_key(), e.git_url);
    lemma_listing_line_parses(e.name, path_key(), e.path);
    lemma_listing_line_parses(e.name, head_key(), e.head);
    assert(url_key() != path_key());
    assert(url_key() != head_key());
    assert(path_key() != head_key()) by {
        assert(path_key()[0] != head_key()[0]);
    }
    lemma_entry_index_bounds(es, e.name);
    let s1 = es.push(set_field(blank_entry(e.name), url_key(), e.git_url));
    assert(ls.subrange(0, 1).drop_last() =~= Seq::<Seq<char>>::empty());
    assert(entry_index(es, e.name) == -1);
    assert(ls.subrange(0, 1).last() == listing_line(e.name, url_key(), e.git_url));
    assert(apply_lines(es, ls.subrange(0, 1).drop_last()) == es);
    assert(apply_line(es, listing_line(e.name, url_key(), e.git_url)) == s1);
    assert(apply_lines(es, ls.subrange(0, 1)) == s1);
    assert(es.push(set_field(blank_entry(e.name), url_key(), e.git_url)).drop_last() =~= es);
    assert(entry_index(s1, e.name) == es.len());
    let s2 = s1.update(es.len() as int, set_field(s1[es.len() as int], path_key(), e.path));
    assert(ls.subrange(0, 2).drop_last() =~= ls.subrange(0, 1));
    assert(apply_lines(es, ls.subrange(0, 2)) == s2);
    assert(s2.drop_last() =~= es);
    assert(entry_index(s2, e.name) == es.len());
    let s3 = s2.update(es.len() as int, set_field(s2[es.len() as int], head_key(), e.head));
    assert(ls.subrange(0, 3).drop_last() =~= ls.subrange(0, 2));
    assert(ls.subrange(0, 3) =~= ls);
    assert(s3 =~= es.push(e));
}

/// The listing of valid entries reads back as those entries.
pub proof fn lemma_apply_listing(es: Seq<EntryView>)
    requires
        entries_ok(es),
    ensures
        apply_lines(Seq::empty(), listing_lines(es)) == es,
    decreases es.len(),
{
    if es.len() > 0 {
        let front = es.drop_last();
        assert(entries_ok(front)) by {
            assert(forall|i: int| 0 <= i < front.len() ==> front[i] == es[i]);
        }
        lemma_apply_listing(front);
        lemma_apply_lines_concat(Seq::empty(), listing_lines(front), entry_lines(es.last()));
        assert(entry_ok(es[es.len() - 1]));
        assert forall|i: int| 0 <= i < front.len() implies front[i].name != es.last().name by {
            assert(front[i] == es[i]);
        }
        lemma_apply_entry(front, es.last());
        assert(front.push(es.last()) =~= es);
    }
}

proof fn lemma_listing_line_ok(name: Seq<char>, field: Seq<char>, value: Seq<char>)
    requires
        lacks(name, '\0'),
        lacks(value, '\0'),
        is_field(field),
    ensures
        lacks(listing_line(name, field, value), '\0'),
{
    let l = listing_line(name, field, value);
    let k = config_key(name, field);
    assert forall|i: int| 0 <= i < l.len() implies l[i] != '\0' by {
        if i < 6 {
            assert(l[i] == embed_prefix()[i]);
        } else if i < 6 + name.len() {
            assert(l[i] == name[i - 6]);
        } else if i == 6 + name.len() {
        } else if i < k.len() {
            assert(l[i] == field[i - 7 - name.len()]);
        } else if i > k.len() {
            assert(l[i] == value[i - 1 - k.len()]);
        }
    }
}

/// The records of a listing of valid entries hold no NUL.
pub proof fn lemma_listing_lines_ok(es: Seq<EntryView>)
    requires
        entries_ok(es),
    ensures
        lines_ok(listing_lines(es)),
    decreases es.len(),
{
    if es.len() > 0 {
        let front = es.drop_last();
        assert(entries_ok(front)) by {
            assert(forall|i: int| 0 <= i < front.len() ==> front[i] == es[i]);
        }
        lemma_listing_lines_ok(front);
        let e = es.last();
        assert(entry_ok(es[es.len() - 1]));
        lemma_entry_lines_ok(e);
    }
}

proof fn lemma_entry_lines_ok(e: EntryView)
    requires
        entry_ok(e),
    ensures
        lines_ok(entry_lines(e)),
{
    lemma_listing_line_ok(e.name, url_key(), e.git_url);
    lemma_listing_line_ok(e.name, path_key(), e.path);
    lemma_listing_line_ok(e.name, head_key(), e.head);
}

/// Reading a listing text is reading its records.
pub proof fn lemma_parse_listing(lines: Seq<Seq<char>>)
    requires
        lines_ok(lines),
    ensures
        parse_embeds(listing_text(lines)) == apply_lines(Seq::empty(), lines),
{
    lemma_split_listing(lines);
    assert(split_spec(listing_text(lines), '\0') == lines.push(Seq::<char>::empty()));
    assert(lines.push(Seq::<char>::empty()).drop_last() =~= lines);
    lemma_apply_empty_line(apply_lines(Seq::empty(), lines));
}

/// Round trip: the listing of entries that the registry wrote reads back as
/// the same entries, with the same names, urls, paths and heads, in order.
pub proof fn law_round_trip(es: Seq<EntryView>)
    requires
        entries_ok(es),
    ensures
        parse_embeds(listing_text(listing_lines(es))) == es,
{
    lemma_listing_lines_ok(es);
    lemma_parse_listing(listing_lines(es));
    lemma_apply_listing(es);
}


/// The entry that registering `path` from `url` at `head` writes: its
/// section is named by its path.
pub open spec fn added_entry(path: Seq<char>, url: Seq<char>, head: Seq<char>) -> EntryView {
    EntryView { name: path, git_url: url, path, head }
}

/// Add, then list: after the three keys of a new entry are written at the end
/// of a listing that had no entry of that name, the listing reads as before
/// with the new entry after the others; where no other entry had that path,
/// it is the one entry with that path.
pub proof fn law_add_then_list(
    lines: Seq<Seq<char>>,
    path: Seq<char>,
    url: Seq<char>,
    head: Seq<char>,
)
    requires
        lines_ok(lines),
        entry_ok(added_entry(path, url, head)),
        forall|i: int|
            0 <= i < parse_embeds(listing_text(lines)).len() ==> #[trigger] parse_embeds(
                listing_text(lines),
            )[i].name != path,
    ensures
        parse_embeds(listing_text(lines + entry_lines(added_entry(path, url, head))))
            == parse_embeds(listing_text(lines)).push(added_entry(path, url, head)),
        (forall|i: int|
            0 <= i < parse_embeds(listing_text(lines)).len() ==> #[trigger] parse_embeds(
                listing_text(lines),
            )[i].path != path) ==> forall|i: int|
            0 <= i < parse_embeds(
                listing_text(lines + entry_lines(added_entry(path, url, head))),
            ).len() ==> (#[trigger] parse_embeds(
                listing_text(lines + entry_lines(added_entry(path, url, head))),
            )[i].path == path <==> i == parse_embeds(listing_text(lines)).len()),
{
    let e = added_entry(path, url, head);
    let all = lines + entry_lines(e);
    lemma_entry_lines_ok(e);
    assert(lines_ok(all)) by {
        assert forall|i: int| 0 <= i < all.len() implies lacks(#[trigger] all[i], '\0') by {
            if i < lines.len() {
                assert(all[i] == lines[i]);
            } else {
                assert(all[i] == entry_lines(e)[i - lines.len()]);
            }
        }
    }
    lemma_parse_listing(lines);
    lemma_parse_listing(all);
    lemma_apply_lines_concat(Seq::empty(), lines, entry_lines(e));
    lemma_apply_entry(apply_lines(Seq::empty(), lines), e);
}

/// The section that a record of the listing belongs to.
pub open spec fn section_of(line: Seq<char>) -> Option<Seq<char>> {
    match config_line(line) {
        Some((name, _field, _value)) => Some(name),
        None => None,
    }
}

/// The listing after the section of `name` is removed.
pub open spec fn without_section(lines: Seq<Seq<char>>, name: Seq<char>) -> Seq<Seq<char>>
    decreases lines.len(),
{
    if lines.len() == 0 {
        Seq::empty()
    } else {
        let rest = without_section(lines.drop_last(), name);
        if section_of(lines.last()) == Some(name) {
            rest
        } else {
            rest.push(lines.last())
        }
    }
}

/// The registry's convention: the `path` key of a section holds the
/// section's name.
pub open spec fn paths_name_sections(lines: Seq<Seq<char>>) -> bool {
    forall|i: int|
        #![trigger lines[i]]
        0 <= i < lines.len() ==> match config_line(lines[i]) {
            Some((n, f, v)) => f == path_key() ==> v == n,
            None => true,
        }
}

proof fn lemma_without_section(lines: Seq<Seq<char>>, name: Seq<char>)
    ensures
        lines_ok(lines) ==> lines_ok(without_section(lines, name)),
        paths_name_sections(lines) ==> paths_name_sections(without_section(lines, name)),
        forall|i: int|
            0 <= i < without_section(lines, name).len() ==> section_of(
                #[trigger] without_section(lines, name)[i],
            ) != Some(name),
    decreases lines.len(),
{
    if lines.len() > 0 {
        let front = lines.drop_last();
        assert(forall|i: int| 0 <= i < front.len() ==> front[i] == lines[i]);
        assert(lines_ok(lines) ==> lines_ok(front));
        assert(paths_name_sections(lines) ==> paths_name_sections(front));
        lemma_without_section(front, name);
        assert(lines[lines.len() - 1] == lines.last());
    }
}

proof fn lemma_apply_without_name(
    es: Seq<EntryView>,
    lines: Seq<Seq<char>>,
    name: Seq<char>,
)
    requires
        forall|i: int| 0 <= i < lines.len() ==> section_of(#[trigger] lines[i]) != Some(name),
        forall|i: int| 0 <= i < es.len() ==> (#[trigger] es[i]).name != name,
    ensures
        forall|i: int|
            0 <= i < apply_lines(es, lines).len() ==> (#[trigger] apply_lines(es, lines)[i]).name
                != name,
        paths_name_sections(lines) && (forall|i: int|
            0 <= i < es.len() ==> (#[trigger] es[i]).path.len() == 0 || es[i].path == es[i].name)
            ==> forall|i: int|
            0 <= i < apply_lines(es, lines).len() ==> (#[trigger] apply_lines(es, lines)[i]).path.len()
                == 0 || apply_lines(es, lines)[i].path == apply_lines(es, lines)[i].name,
    decreases lines.len(),
{
    if lines.len() > 0 {
        let front = lines.drop_last();
        assert(forall|i: int| 0 <= i < front.len() ==> front[i] == lines[i]);
        assert(paths_name_sections(lines) ==> paths_name_sections(front));
        lemma_apply_without_name(es, front, name);
        let prev = apply_lines(es, front);
        let l = lines.last();
        assert(l == lines[lines.len() - 1]);
        lemma_entry_index_bounds(prev, name);
        match config_line(l) {
            Some((n, f, v)) => {
                if is_field(f) {
                    lemma_entry_index_bounds(prev, n);
                }
            },
            None => {},
        }
    }
}

/// Remove, then list: once the section of `path` is removed, the listing
/// has no entry of that name; where the listing kept the registry's
/// convention and `path` is not empty, no entry has that path either.
pub proof fn law_remove_then_list(lines: Seq<Seq<char>>, path: Seq<char>)
    requires
        lines_ok(lines),
    ensures
        forall|i: int|
            0 <= i < parse_embeds(listing_text(without_section(lines, path))).len()
                ==> (#[trigger] parse_embeds(listing_text(without_section(lines, path)))[i]).name
                != path,
        paths_name_sections(lines) && path.len() > 0 ==> forall|i: int|
            0 <= i < parse_embeds(listing_text(without_section(lines, path))).len()
                ==> (#[trigger] parse_embeds(listing_text(without_section(lines, path)))[i]).path
                != path,
{
    let w = without_section(lines, path);
    lemma_without_section(lines, path);
    lemma_parse_listing(w);
    lemma_apply_without_name(Seq::empty(), w, path);
}


/// After the head of one entry is rewritten, the listing reads as before but
/// for that entry's head, which is the new one.
pub proof fn law_head_update(es: Seq<EntryView>, k: int, head: Seq<char>)
    requires
        entries_ok(es),
        0 <= k < es.len(),
        lacks(head, '\0'),
    ensures
        parse_embeds(listing_text(listing_lines(es.update(k, EntryView { head, ..es[k] }))))
            == es.update(k, EntryView { head, ..es[k] }),
        parse_embeds(listing_text(listing_lines(es.update(k, EntryView { head, ..es[k] }))))[k].head
            == head,
{
    let moved = es.update(k, EntryView { head, ..es[k] });
    assert(entry_ok(es[k]));
    assert forall|i: int| 0 <= i < moved.len() implies entry_ok(#[trigger] moved[i]) by {
        assert(entry_ok(es[i]));
    }
    assert forall|i: int, j: int|
        0 <= i < j < moved.len() implies #[trigger] moved[i].name != #[trigger] moved[j].name by {
        assert(es[i].name != es[j].name);
    }
    law_round_trip(moved);
}


/// The entries not named `name`, in order.
pub open spec fn drop_named(es: Seq<EntryView>, name: Seq<char>) -> Seq<EntryView>
    decreases es.len(),
{
    if es.len() == 0 {
        Seq::empty()
    } else if es.last().name == name {
        drop_named(es.drop_last(), name)
    } else {
        drop_named(es.drop_last(), name).push(es.last())
    }
}

proof fn lemma_drop_named_from(es: Seq<EntryView>, name: Seq<char>)
    ensures
        forall|i: int|
            0 <= i < drop_named(es, name).len() ==> exists|j: int|
                0 <= j < es.len() && es[j] == #[trigger] drop_named(es, name)[i],
        forall|i: int|
            0 <= i < drop_named(es, name).len() ==> (#[trigger] drop_named(es, name)[i]).name
                != name,
    decreases es.len(),
{
    if es.len() > 0 {
        let front = es.drop_last();
        lemma_drop_named_from(front, name);
        assert forall|i: int| 0 <= i < drop_named(es, name).len() implies exists|j: int|
            0 <= j < es.len() && es[j] == #[trigger] drop_named(es, name)[i] by {
            if i < drop_named(front, name).len() {
                let j = choose|j: int|
                    0 <= j < front.len() && front[j] == #[trigger] drop_named(front, name)[i];
                assert(es[j] == front[j]);
            } else {
                assert(es[es.len() - 1] == drop_named(es, name)[i]);
            }
        }
    }
}

proof fn lemma_drop_named_ok(es: Seq<EntryView>, name: Seq<char>)
    requires
        entries_ok(es),
    ensures
        entries_ok(drop_named(es, name)),
    decreases es.len(),
{
    if es.len() > 0 {
        let front = es.drop_last();
        assert(entries_ok(front)) by {
            assert(forall|i: int| 0 <= i < front.len() ==> front[i] == es[i]);
        }
        lemma_drop_named_ok(front, name);
        lemma_drop_named_from(front, name);
        let d = drop_named(front, name);
        if es.last().name != name {
            assert(entry_ok(es[es.len() - 1]));
            assert forall|i: int| 0 <= i < d.len() implies d[i].name != es.last().name by {
                let j = choose|j: int| 0 <= j < front.len() && front[j] == #[trigger] d[i];
                assert(front[j] == es[j]);
            }
            let dn = d.push(es.last());
            assert forall|i: int, j: int|
                0 <= i < j < dn.len() implies #[trigger] dn[i].name != #[trigger] dn[j].name by {
                if j < d.len() {
                    assert(dn[i] == d[i] && dn[j] == d[j]);
                } else {
                    assert(dn[i] == d[i]);
                }
            }
        }
    }
}

proof fn lemma_without_section_concat(a: Seq<Seq<char>>, b: Seq<Seq<char>>, name: Seq<char>)
    ensures
        without_section(a + b, name) == without_section(a, name) + without_section(b, name),
    decreases b.len(),
{
    if b.len() == 0 {
        assert(a + b =~= a);
        assert(without_section(a, name) + without_section(b, name) =~= without_section(a, name));
    } else {
        lemma_without_section_concat(a, b.drop_last(), name);
        assert((a + b).drop_last() =~= a + b.drop_last());
        assert((without_section(a, name) + without_section(b.drop_last(), name)).push(b.last())
            =~= without_section(a, name) + without_section(b.drop_last(), name).push(b.last()));
    }
}

proof fn lemma_without_entry_lines(e: EntryView, name: Seq<char>)
    requires
        lacks(e.name, '\n'),
    ensures
        without_section(entry_lines(e), name) == if e.name == name {
            Seq::<Seq<char>>::empty()
        } else {
            entry_lines(e)
        },
{
    lemma_listing_line_parses(e.name, url_key(), e.git_url);
    lemma_listing_line_parses(e.name, path_key(), e.path);
    lemma_listing_line_parses(e.name, head_key(), e.head);
    let ls = entry_lines(e);
    let none = Seq::<Seq<char>>::empty();
    let l1 = seq![ls[0]];
    let l2 = seq![ls[0], ls[1]];
    assert(section_of(ls[0]) == Some(e.name));
    assert(section_of(ls[1]) == Some(e.name));
    assert(section_of(ls[2]) == Some(e.name));
    assert(l1.drop_last() =~= none);
    assert(l1.last() == ls[0]);
    assert(without_section(none, name) == none);
    assert(none.push(ls[0]) =~= l1);
    assert(l1.push(ls[1]) =~= l2);
    assert(without_section(l1, name) =~= if e.name == name {
        none
    } else {
        l1
    });
    assert(l2.drop_last() =~= l1);
    assert(l2.last() == ls[1]);
    assert(without_section(l2, name) =~= if e.name == name {
        none
    } else {
        l2
    });
    assert(ls.drop_last() =~= l2);
    assert(ls.last() == ls[2]);
    if e.name != name {
        assert(l2.push(ls[2]) =~= ls);
    }
}

proof fn lemma_without_listing(es: Seq<EntryView>, name: Seq<char>)
    requires
        entries_ok(es),
    ensures
        without_section(listing_lines(es), name) == listing_lines(drop_named(es, name)),
    decreases es.len(),
{
    if es.len() > 0 {
        let front = es.drop_last();
        assert(entries_ok(front)) by {
            assert(forall|i: int| 0 <= i < front.len() ==> front[i] == es[i]);
        }
        lemma_without_listing(front, name);
        lemma_without_section_concat(listing_lines(front), entry_lines(es.last()), name);
        assert(entry_ok(es[es.len() - 1]));
        lemma_without_entry_lines(es.last(), name);
        if es.last().name == name {
            assert(listing_lines(drop_named(front, name)) + Seq::<Seq<char>>::empty()
                =~= listing_lines(drop_named(front, name)));
        } else {
            assert(drop_named(front, name).push(es.last()).drop_last() =~= drop_named(front, name));
        }
    }
}

/// Remove, then list: once the section of `name` is removed from the
/// listing of valid entries, the listing reads as exactly the other entries,
/// in their order and with all their fields, and none named `name`.
pub proof fn law_remove_keeps_others(es: Seq<EntryView>, name: Seq<char>)
    requires
        entries_ok(es),
    ensures
        parse_embeds(listing_text(without_section(listing_lines(es), name))) == drop_named(es, name),
        forall|i: int|
            0 <= i < drop_named(es, name).len() ==> (#[trigger] drop_named(es, name)[i]).name != name,
        forall|i: int|
            0 <= i < es.len() && es[i].name != name ==> drop_named(es, name).contains(
                #[trigger] es[i],
            ),
{
    lemma_without_listing(es, name);
    lemma_drop_named_ok(es, name);
    law_round_trip(drop_named(es, name));
    lemma_drop_named_from(es, name);
    lemma_drop_named_keeps(es, name);
}

proof fn lemma_drop_named_keeps(es: Seq<EntryView>, name: Seq<char>)
    ensures
        forall|i: int|
            0 <= i < es.len() && es[i].name != name ==> drop_named(es, name).contains(
                #[trigger] es[i],
            ),
    decreases es.len(),
{
    if es.len() > 0 {
        let front = es.drop_last();
        lemma_drop_named_keeps(front, name);
        assert forall|i: int| 0 <= i < es.len() && es[i].name != name implies drop_named(
            es,
            name,
        ).contains(#[trigger] es[i]) by {
            if i < front.len() {
                assert(es[i] == front[i]);
                let k = choose|k: int|
                    0 <= k < drop_named(front, name).len() && drop_named(front, name)[k] == front[i];
                if es.last().name != name {
                    assert(drop_named(es, name)[k] == front[i]);
                }
            } else {
                let d = drop_named(es, name);
                assert(d[d.len() - 1] == es[i]);
            }
        }
    }
}

} // verus!
