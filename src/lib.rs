//! Extraction of documentation from annotated Lua source: the annotation
//! type grammar, the grouping of doc-comment runs into blocks, and the
//! interpretation of annotation tags into classes, aliases, enums and
//! functions.
pub mod annotation;
pub mod grammar;
pub mod lua;
pub mod processor;
pub mod render;
pub mod scanner;
pub mod types;
