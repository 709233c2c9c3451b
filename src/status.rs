//! The short status that git prints, read into one file per kind of change.
use crate::text::{split_on, split_spec, text_eq, trim, trim_spec, views};
use vstd::prelude::*;

verus! {

/// A kind of change that git reports for a file.
#[derive(Clone, Copy, Debug, PartialEq, Eq, Hash, Structural)]
pub enum GitStatus {
    Renamed,
    Modified,
    Deleted,
    Added,
    Untracked,
}

/// A file with the kind of change git reports for it.
#[derive(Clone, Debug)]
pub struct GitStatusFile {
    pub name: String,
    pub status: GitStatus,
}

/// Why a status listing cannot be read.
#[derive(Debug, PartialEq, Eq, Structural)]
pub enum StatusError {
    /// A line starts with a code that is none of the known ones.
    UnknownStatus,
    /// A line has a code and no file name.
    MissingName,
}

/// The kind of change that a status code stands for.
pub open spec fn status_code(code: Seq<char>) -> Option<GitStatus> {
    if code == "AD"@ || code == "D"@ {
        Some(GitStatus::Deleted)
    } else if code == "AM"@ || code == "M"@ {
        Some(GitStatus::Modified)
    } else if code == "AR"@ || code == "R"@ {
        Some(GitStatus::Renamed)
    } else if code == "A"@ {
        Some(GitStatus::Added)
    } else if code == "??"@ {
        Some(GitStatus::Untracked)
    } else {
        None
    }
}

/// The kind of change that a status code stands for.
pub fn status_of_code(code: &str) -> (r: Option<GitStatus>)
    ensures
        r == status_code(code@),
{
    if text_eq(code, "AD") || text_eq(code, "D") {
        Some(GitStatus::Deleted)
    } else if text_eq(code, "AM") || text_eq(code, "M") {
        Some(GitStatus::Modified)
    } else if text_eq(code, "AR") || text_eq(code, "R") {
        Some(GitStatus::Renamed)
    } else if text_eq(code, "A") {
        Some(GitStatus::Added)
    } else if text_eq(code, "??") {
        Some(GitStatus::Untracked)
    } else {
        None
    }
}

/// The pieces that are not empty, in order.
pub open spec fn non_empty(ws: Seq<Seq<char>>) -> Seq<Seq<char>>
    decreases ws.len(),
{
    if ws.len() == 0 {
        Seq::empty()
    } else if ws.last().len() > 0 {
        non_empty(ws.drop_last()).push(ws.last())
    } else {
        non_empty(ws.drop_last())
    }
}

/// The words of a line: the pieces between spaces of the trimmed line that
/// are not empty.
pub open spec fn words_spec(line: Seq<char>) -> Seq<Seq<char>> {
    non_empty(split_spec(trim_spec(line), ' '))
}

/// The words of a line.
pub fn words(line: &str) -> (r: Vec<String>)
    ensures
        views(r@) == words_spec(line@),
{
    let t = trim(line);
    let pieces = split_on(t.as_str(), ' ');
    let mut r: Vec<String> = Vec::new();
    let mut i: usize = 0;
    assert(views(r@) =~= non_empty(views(pieces@).subrange(0, 0)));
    while i < pieces.len()
        invariant
            i <= pieces.len(),
            views(r@) == non_empty(views(pieces@).subrange(0, i as int)),
        decreases pieces.len() - i,
    {
        assert(views(pieces@).subrange(0, i + 1).drop_last() =~= views(pieces@).subrange(
            0,
            i as int,
        ));
        if pieces[i].unicode_len() > 0 {
            let ghost before = r@;
            r.push(pieces[i].clone());
            assert(views(r@) =~= views(before).push(pieces@[i as int]@));
        }
        i = i + 1;
    }
    assert(views(pieces@).subrange(0, i as int) =~= views(pieces@));
    r
}

/// A record of a file and its change, as text.
pub open spec fn record_view(f: GitStatusFile) -> (GitStatus, Seq<char>) {
    (f.status, f.name@)
}

/// The records, as text.
pub open spec fn record_views(v: Seq<GitStatusFile>) -> Seq<(GitStatus, Seq<char>)> {
    v.map_values(|f: GitStatusFile| record_view(f))
}

/// The index of the record of kind `s`, or -1.
pub open spec fn status_index(rs: Seq<(GitStatus, Seq<char>)>, s: GitStatus) -> int
    decreases rs.len(),
{
    if rs.len() == 0 {
        -1
    } else {
        let r = status_index(rs.drop_last(), s);
        if r >= 0 {
            r
        } else if rs.last().0 == s {
            rs.len() - 1
        } else {
            -1
        }
    }
}

/// The records after one more line: a line without words changes nothing;
/// else its first word is the code and its second the file, which replaces
/// the file recorded for that kind of change, or is added at the end.
pub open spec fn status_line(rs: Seq<(GitStatus, Seq<char>)>, line: Seq<char>) -> Result<
    Seq<(GitStatus, Seq<char>)>,
    StatusError,
> {
    let ws = words_spec(line);
    if ws.len() == 0 {
        Ok(rs)
    } else {
        match status_code(ws[0]) {
            None => Err(StatusError::UnknownStatus),
            Some(s) => {
                if ws.len() < 2 {
                    Err(StatusError::MissingName)
                } else {
                    let i = status_index(rs, s);
                    if i >= 0 {
                        Ok(rs.update(i, (s, ws[1])))
                    } else {
                        Ok(rs.push((s, ws[1])))
                    }
                }
            },
        }
    }
}

/// The records of a listing's lines, or the error of its first bad line.
pub open spec fn status_lines(lines: Seq<Seq<char>>) -> Result<
    Seq<(GitStatus, Seq<char>)>,
    StatusError,
>
    decreases lines.len(),
{
    if lines.len() == 0 {
        Ok(Seq::empty())
    } else {
        match status_lines(lines.drop_last()) {
            Err(e) => Err(e),
            Ok(rs) => status_line(rs, lines.last()),
        }
    }
}

proof fn lemma_status_error_stays(lines: Seq<Seq<char>>, k: int)
    requires
        0 <= k <= lines.len(),
        status_lines(lines.subrange(0, k)) is Err,
    ensures
        status_lines(lines) == status_lines(lines.subrange(0, k)),
    decreases lines.len() - k,
{
    if k < lines.len() {
        assert(lines.subrange(0, k + 1).drop_last() =~= lines.subrange(0, k));
        lemma_status_error_stays(lines, k + 1);
    } else {
        assert(lines.subrange(0, k) =~= lines);
    }
}

/// Reads the output of `git status --porcelain=v2 -s`: one file for each
/// kind of change, the last one listed, in the order in which the kinds
/// first appear.
pub fn git_status(output: &str) -> (r: Result<Vec<GitStatusFile>, StatusError>)
    ensures
        match status_lines(split_spec(output@, '\n')) {
            Ok(rs) => r is Ok && record_views(r->Ok_0@) == rs,
            Err(e) => r == Err::<Vec<GitStatusFile>, StatusError>(e),
        },
        r is Ok ==> forall|i: int, j: int|
            0 <= i < j < r->Ok_0@.len() ==> (#[trigger] r->Ok_0@[i]).status != (
            #[trigger] r->Ok_0@[j]).status,
{
    let lines = split_on(output, '\n');
    let ghost ls = views(lines@);
    let mut rs: Vec<GitStatusFile> = Vec::new();
    let mut i: usize = 0;
    assert(ls.subrange(0, 0) =~= Seq::<Seq<char>>::empty());
    assert(record_views(rs@) =~= Seq::<(GitStatus, Seq<char>)>::empty());
    while i < lines.len()
        invariant
            i <= lines.len(),
            ls == views(lines@),
            ls == split_spec(output@, '\n'),
            status_lines(ls.subrange(0, i as int)) == Ok::<
                Seq<(GitStatus, Seq<char>)>,
                StatusError,
            >(record_views(rs@)),
            forall|a: int, b: int|
                0 <= a < b < rs@.len() ==> (#[trigger] rs@[a]).status != (#[trigger] rs@[b]).status,
        decreases lines.len() - i,
    {
        assert(ls.subrange(0, i + 1).drop_last() =~= ls.subrange(0, i as int));
        let ws = words(lines[i].as_str());
        if ws.len() > 0 {
            match status_of_code(ws[0].as_str()) {
                None => {
                    proof {
                        lemma_status_error_stays(ls, i + 1);
                    }
                    return Err(StatusError::UnknownStatus);
                },
                Some(s) => {
                    if ws.len() < 2 {
                        proof {
                            lemma_status_error_stays(ls, i + 1);
                        }
                        return Err(StatusError::MissingName);
                    }
                    let name = ws[1].clone();
                    let f = GitStatusFile { name, status: s };
                    let ghost before = rs@;
                    proof {
                        lemma_status_index_bounds(record_views(rs@), s);
                    }
                    match find_status(&rs, s) {
                        Some(k) => {
                            rs.set(k, f);
                            proof {
                                assert(record_views(before)[k as int].0 == before[k as int].status);
                                assert forall|a: int, b: int|
                                    0 <= a < b < rs@.len() implies (#[trigger] rs@[a]).status != (
                                    #[trigger] rs@[b]).status by {
                                    assert(rs@[a].status == before[a].status);
                                    assert(rs@[b].status == before[b].status);
                                }
                            }
                            assert(record_views(rs@) =~= record_views(before).update(
                                k as int,
                                (s, ws@[1]@),
                            ));
                        },
                        None => {
                            rs.push(f);
                            proof {
                                assert forall|x: int| 0 <= x < before.len() implies before[x].status
                                    != s by {
                                    assert(record_views(before)[x].0 == before[x].status);
                                }
                                assert forall|a: int, b: int|
                                    0 <= a < b < rs@.len() implies (#[trigger] rs@[a]).status != (
                                    #[trigger] rs@[b]).status by {
                                    assert(rs@[a] == before[a]);
                                    if b < before.len() {
                                        assert(rs@[b] == before[b]);
                                    }
                                }
                            }
                            assert(record_views(rs@) =~= record_views(before).push((s, ws@[1]@)));
                        },
                    }
                },
            }
        }
        i = i + 1;
    }
    assert(ls.subrange(0, i as int) =~= ls);
    Ok(rs)
}

/// The index of the record of kind `s`.
fn find_status(rs: &Vec<GitStatusFile>, s: GitStatus) -> (r: Option<usize>)
    ensures
        match r {
            Some(i) => i < rs.len() && i as int == status_index(record_views(rs@), s),
            None => status_index(record_views(rs@), s) == -1,
        },
{
    let ghost vs = record_views(rs@);
    let mut i: usize = 0;
    while i < rs.len()
        invariant
            i <= rs.len(),
            vs == record_views(rs@),
            status_index(vs.subrange(0, i as int), s) == -1,
        decreases rs.len() - i,
    {
        assert(vs.subrange(0, i + 1).drop_last() =~= vs.subrange(0, i as int));
        if rs[i].status == s {
            proof {
                lemma_status_index_prefix(vs, i + 1, s);
            }
            return Some(i);
        }
        i = i + 1;
    }
    assert(vs.subrange(0, i as int) =~= vs);
    None
}

proof fn lemma_status_index_bounds(rs: Seq<(GitStatus, Seq<char>)>, s: GitStatus)
    ensures
        -1 <= status_index(rs, s) < rs.len(),
        status_index(rs, s) >= 0 ==> rs[status_index(rs, s)].0 == s,
        status_index(rs, s) < 0 ==> forall|i: int| 0 <= i < rs.len() ==> rs[i].0 != s,
    decreases rs.len(),
{
    if rs.len() > 0 {
        lemma_status_index_bounds(rs.drop_last(), s);
        assert(forall|i: int| 0 <= i < rs.len() - 1 ==> rs.drop_last()[i] == rs[i]);
    }
}

proof fn lemma_status_index_prefix(rs: Seq<(GitStatus, Seq<char>)>, k: int, s: GitStatus)
    requires
        0 <= k <= rs.len(),
        status_index(rs.subrange(0, k), s) >= 0,
    ensures
        status_index(rs, s) == status_index(rs.subrange(0, k), s),
    decreases rs.len() - k,
{
    if k < rs.len() {
        assert(rs.subrange(0, k + 1).drop_last() =~= rs.subrange(0, k));
        lemma_status_index_prefix(rs, k + 1, s);
    } else {
        assert(rs.subrange(0, k) =~= rs);
    }
}

} // verus!
