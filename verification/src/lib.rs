//! Output assembly for a module bundler: how chunks are grouped, ordered and
//! placed, how dynamic imports are split into a loader and a manifest, and how
//! a development chunk list is versioned.

pub mod severity;
pub mod traversal;
pub mod text;
pub mod fs_path;
pub mod ident;
pub mod graph;
pub mod optimize;
pub mod ordered;
pub mod components;
pub mod path_error;
pub mod std_path;
pub mod relative_unix_path;
pub mod absolute_system_path;
pub mod anchored_system_path_buf;
pub mod runtime;
pub mod evaluatable_assets;
pub mod chunking_context;
pub mod js;
pub mod chunk_list;
pub mod manifest;
pub mod issue;
pub mod plain_issue;
pub mod cache;
