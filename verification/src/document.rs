//! A document tree: title, author, collected expressions, and nested child
//! documents.

use vstd::prelude::*;

verus! {

/// One document node; children allow nested documents.
pub struct Document {
    pub title: Vec<u8>,
    pub author: Vec<u8>,
    pub expressions: Vec<Vec<u8>>,
    pub children: Vec<Document>,
}

impl Document {
    /// A fresh document with nothing in it.
    pub fn new() -> (r: Document)
        ensures
            r.title@.len() == 0,
            r.author@.len() == 0,
            r.expressions@.len() == 0,
            r.children@.len() == 0,
    {
        Document {
            title: Vec::new(),
            author: Vec::new(),
            expressions: Vec::new(),
            children: Vec::new(),
        }
    }
}

} // verus!
