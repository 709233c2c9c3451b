//! Helpers around git for repositories nested inside other repositories:
//! a registry of embedded repositories kept in a git config file, the
//! redirection of git commands into an embedded work tree, a symmetric
//! branch comparison and a search-and-replace over tracked files.
pub mod text;
pub mod config;
pub mod config_laws;
pub mod registry;
pub mod commit_time;
pub mod redirect;
pub mod search;
pub mod branch_diff;
pub mod git;
pub mod status;
