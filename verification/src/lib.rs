//! Analysis pipeline for arithmetic expressions: a lexical analyzer, a
//! recursive-descent syntactic analyzer, a deduplicating symbol table, a
//! hash-consed expression graph, and a cache that memoizes the last analysis.
pub mod ast;
pub mod cache;
pub mod error;
pub mod graph;
pub mod hashing;
pub mod lexic;
pub mod sintactic;
pub mod symbols;
pub mod token;
pub mod tree;
