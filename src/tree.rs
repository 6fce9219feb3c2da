//! The untyped parse tree of a resource bundle, and the errors of the pipeline.

use vstd::prelude::*;

verus! {

/// A node of the parse tree. Leaves keep their text; quoted text is stored
/// without its quotes, and whether it is a string or hex bytes is decided by
/// the key that owns it.
#[derive(Debug)]
pub enum Node {
    Integer(Vec<char>),
    Text(Vec<char>),
    Array(Vec<Node>),
    Table(Vec<Entry>),
}

/// One `key resource` pair of a table, in input order.
#[derive(Debug)]
pub struct Entry {
    pub key: Vec<char>,
    pub value: Node,
}

/// Why a bundle could not be turned into a model.
#[derive(Debug, Clone, PartialEq, Eq)]
pub enum RbError {
    /// Malformed text at the given character offset.
    Syntax { offset: usize },
    /// A well-formed tree that breaks the schema; `path` names the offending key.
    Schema { path: String },
}

} // verus!
