//! Named tags over a commit graph.
//!
//! A tag is a uniquely named pointer to a commit. This library holds the
//! tags of one repository view in a [`registry::TagRegistry`], creates a tag
//! at a resolved revision without ever overwriting one that exists
//! ([`commands::cmd_tag_create`]), and lists the tags that a set of exact or
//! glob patterns selects, in lexicographic order
//! ([`commands::cmd_tag_list`]).
//!
//! The library does no input or output. Resolving a revision, committing to
//! the operation store and writing lines are the caller's part; the library
//! is handed what came of them and decides what follows. Glob patterns are
//! compiled and matched, and commit identities rendered, by `jj_lib`.

pub mod commands;
pub mod commit_id;
pub mod error;
pub mod name_order;
pub mod ref_target;
pub mod registry;
pub mod string_pattern;
pub mod transaction;
