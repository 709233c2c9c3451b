//! Queries of the outer repository that every tool shares.
use crate::text::{strings1, strings2, views};
use vstd::prelude::*;

verus! {

/// The arguments of `git` that print the revision of `HEAD`.
pub fn head_args() -> (r: Vec<String>)
    ensures
        views(r@) == seq!["rev-parse"@, "HEAD"@],
{
    strings2("rev-parse", "HEAD")
}

/// The arguments of `git` that print the top level of the work tree.
pub fn top_level_args() -> (r: Vec<String>)
    ensures
        views(r@) == seq!["rev-parse"@, "--show-toplevel"@],
{
    strings2("rev-parse", "--show-toplevel")
}

/// The arguments with which a tool is asked for its version, to learn
/// whether it is installed.
pub fn version_probe_args() -> (r: Vec<String>)
    ensures
        views(r@) == seq!["-V"@],
{
    strings1("-V")
}

/// Whether a tool is missing, given whether it could be started.
pub fn not_installed(started: bool) -> (r: bool)
    ensures
        r == !started,
{
    !started
}

} // verus!
