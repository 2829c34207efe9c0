//! A small path-expression language over a tree-shaped document value.
//!
//! An expression such as `hoge.b.[1]` is a chain of steps — field names and
//! list indices — parsed by a shared grammar and evaluated against a
//! [`value::Value`] by one of two dialects: the strict matcher chain, which
//! follows the steps to a single result or a structural error, and the
//! selector chain, which treats every step as a filter and yields zero or
//! more results, never an error.
pub mod grammar;
pub mod laws;
pub mod matcher;
pub mod selector;
pub mod text;
pub mod value;
