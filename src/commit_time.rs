//! The time of a commit, as the calendar fields of its own offset, and the
//! stamp that tags are named with.
use crate::text::{trim, trim_spec, views};
use chrono::{Datelike, Timelike};
use vstd::prelude::*;

verus! {

/// A date and time of day, in the offset it was written in.
#[derive(Clone, Copy, Debug, PartialEq, Eq, Structural)]
pub struct CommitTime {
    pub year: i32,
    pub month: u32,
    pub day: u32,
    pub hour: u32,
    pub minute: u32,
    pub second: u32,
}

impl CommitTime {
    /// Every field within its range, with a year of four digits.
    pub open spec fn wf(&self) -> bool {
        &&& 0 <= self.year <= 9999
        &&& 1 <= self.month <= 12
        &&& 1 <= self.day <= 31
        &&& self.hour < 24
        &&& self.minute < 60
        &&& self.second < 60
    }

    /// The fields as numbers.
    pub open spec fn fields(&self) -> (int, int, int, int, int, int) {
        (
            self.year as int,
            self.month as int,
            self.day as int,
            self.hour as int,
            self.minute as int,
            self.second as int,
        )
    }
}

/// What chrono's RFC 3339 parser reads from a text: year, month, day, hour,
/// minute and second in the offset written, or `None` where it refuses it.
pub uninterp spec fn rfc3339_fields(s: Seq<char>) -> Option<(int, int, int, int, int, int)>;

/// Relies on chrono::DateTime::parse_from_rfc3339, and on the calendar
/// fields of the `DateTime<FixedOffset>` it returns. Its source reads the
/// year as four digits; chrono documents the ranges of month, day, hour,
/// minute and second.
#[verifier::external_body]
fn parse_rfc3339(s: &str) -> (r: Option<CommitTime>)
    ensures
        match r {
            Some(t) => t.wf() && rfc3339_fields(s@) == Some(t.fields()),
            None => rfc3339_fields(s@) is None,
        },
{
    match chrono::DateTime::parse_from_rfc3339(s) {
        Ok(d) => Some(CommitTime {
            year: d.year(),
            month: d.month(),
            day: d.day(),
            hour: d.hour(),
            minute: d.minute(),
            second: d.second(),
        }),
        Err(_) => None,
    }
}

/// The arguments of `git` that print the time of the last commit in the
/// strict ISO form.
pub fn last_commit_time_args() -> (r: Vec<String>)
    ensures
        views(r@) == seq!["log"@, "-1"@, "--date=iso-strict"@, "--format=%cd"@, "HEAD"@],
{
    let r = vec![
        "log".to_string(),
        "-1".to_string(),
        "--date=iso-strict".to_string(),
        "--format=%cd".to_string(),
        "HEAD".to_string(),
    ];
    assert(views(r@) =~= seq!["log"@, "-1"@, "--date=iso-strict"@, "--format=%cd"@, "HEAD"@]);
    r
}

/// The time of the last commit, read from what `git log` printed: none
/// where it printed nothing or what it printed does not parse.
pub fn get_last_commit_time(output: &str) -> (r: Option<CommitTime>)
    ensures
        output@.len() == 0 ==> r is None,
        output@.len() > 0 ==> match r {
            Some(t) => t.wf() && rfc3339_fields(trim_spec(output@)) == Some(t.fields()),
            None => rfc3339_fields(trim_spec(output@)) is None,
        },
{
    if output.unicode_len() == 0 {
        return None;
    }
    let t = trim(output);
    parse_rfc3339(t.as_str())
}

/// The decimal digit `d`.
pub open spec fn digit_char(d: nat) -> char {
    "0123456789"@[d as int]
}

/// `n` in decimal, zero-padded to `width` digits (its last `width` digits).
pub open spec fn padded(n: nat, width: nat) -> Seq<char>
    decreases width,
{
    if width == 0 {
        Seq::empty()
    } else {
        padded(n / 10, (width - 1) as nat).push(digit_char(n % 10))
    }
}

/// The stamp `YYYYmmddHHMMSS` of a time.
pub open spec fn stamp_spec(t: CommitTime) -> Seq<char> {
    padded(t.year as nat, 4) + padded(t.month as nat, 2) + padded(t.day as nat, 2) + padded(
        t.hour as nat,
        2,
    ) + padded(t.minute as nat, 2) + padded(t.second as nat, 2)
}

fn push_padded(s: &mut String, n: u32, width: usize)
    ensures
        final(s)@ == old(s)@ + padded(n as nat, width as nat),
    decreases width,
{
    if width == 0 {
        assert(old(s)@ + padded(n as nat, 0) =~= old(s)@);
        return;
    }
    push_padded(s, n / 10, width - 1);
    let d = (n % 10) as usize;
    proof {
        reveal_strlit("0123456789");
    }
    let digits = "0123456789";
    s.append(digits.substring_char(d, d + 1));
    assert(digits@.subrange(d as int, d + 1) =~= seq![digit_char((n % 10) as nat)]);
    assert(s@ =~= old(s)@ + padded(n as nat, width as nat));
}

impl CommitTime {
    /// The stamp `YYYYmmddHHMMSS` of this time, as chrono formats
    /// `%Y%m%d%H%M%S` for a year of four digits.
    pub fn stamp(&self) -> (r: String)
        requires
            self.wf(),
        ensures
            r@ == stamp_spec(*self),
    {
        let mut s = String::new();
        push_padded(&mut s, self.year as u32, 4);
        push_padded(&mut s, self.month, 2);
        push_padded(&mut s, self.day, 2);
        push_padded(&mut s, self.hour, 2);
        push_padded(&mut s, self.minute, 2);
        push_padded(&mut s, self.second, 2);
        assert(s@ =~= stamp_spec(*self));
        s
    }
}

} // verus!
