//! Analysis core for GraphQL schema documents: syntax trees, an item-level
//! intermediate representation, cross-file name resolution and the editor
//! queries built on top of them.

pub mod body;
pub mod completions;
pub mod db;
pub mod diagnostics;
pub mod ide;
pub mod ir;
pub mod item_map;
pub mod lower;
pub mod lower_body;
pub mod source;
pub mod stability;
pub mod store;
pub mod syntax;
pub mod text;
pub mod tokens;
pub mod ty;
pub mod tydb;
