//! A source-code pretty-printer core: a document model of renderable
//! primitives, a width-aware layout printer, and the dispatch protocol that
//! turns syntax nodes into documents.

pub mod arrow;
pub mod context;
pub mod doc;
pub mod laws;
pub mod measure;
pub mod printer;
