//! Resolves the BitBucket project behind a working copy and builds the web
//! address under which it can be browsed.
//!
//! The crate reads the `[remote ...]` sections of a repository's local
//! configuration text, picks the remote that lives on BitBucket, takes the
//! workspace and repository name out of its address and assembles the page
//! address, optionally narrowed to a branch or a commit.

pub mod bitbucket_repo;
pub mod commands;
pub mod error;
pub mod git_config;
pub mod text;
pub mod web;
