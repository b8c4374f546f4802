//! Document format engine of a file-based project tracker: markdown
//! documents with a YAML front-matter header and an embedded comment log.

pub mod text;
pub mod frontmatter;
pub mod comments;
pub mod comment_laws;
pub mod models;
pub mod slug;
pub mod issue;
pub mod milestone;
pub mod project;
pub mod export;
pub mod workspace;
pub mod search;
pub mod ordering;
pub mod filter;
