//! Query and document prefixes for asymmetric embedding models.
//!
//! Shared by the in-process and the remote embedder, so that both apply the same
//! formatting. The prefixes are model configuration: a fixed prepend chosen once
//! per corpus (e.g. `"search_query: "` / `"search_document: "`, or
//! `"Instruct: <task>\nQuery: "` / `""`).

use vstd::prelude::*;

verus! {

/// Model's query and document prefixes (empty strings when the model uses none).
#[derive(Debug)]
pub struct Prefixes {
    /// Prepended to queries, e.g. `"search_query: "`.
    pub query: String,
    /// Prepended to documents, e.g. `"search_document: "`.
    pub document: String,
}

impl Clone for Prefixes {
    fn clone(&self) -> (r: Prefixes)
        ensures
            r == *self,
    {
        Prefixes { query: self.query.clone(), document: self.document.clone() }
    }
}

impl Prefixes {
    /// No prefixes (symmetric models).
    pub fn none() -> (r: Prefixes)
        ensures
            r.query@ == Seq::<char>::empty(),
            r.document@ == Seq::<char>::empty(),
    {
        Prefixes { query: String::new(), document: String::new() }
    }

    /// Explicit query and document prefixes.
    pub fn new(query: &str, document: &str) -> (r: Prefixes)
        ensures
            r.query@ == query@,
            r.document@ == document@,
    {
        Prefixes { query: query.to_owned(), document: document.to_owned() }
    }

    /// Query prefix only; documents are embedded raw.
    pub fn query_only(query: &str) -> (r: Prefixes)
        ensures
            r.query@ == query@,
            r.document@ == Seq::<char>::empty(),
    {
        Prefixes { query: query.to_owned(), document: String::new() }
    }

    /// `text` as a query: behind the query prefix.
    pub fn apply_query(&self, text: &str) -> (r: String)
        ensures
            r@ == self.query@ + text@,
    {
        self.query.clone().concat(text)
    }

    /// `text` as a document: behind the document prefix.
    pub fn apply_document(&self, text: &str) -> (r: String)
        ensures
            r@ == self.document@ + text@,
    {
        self.document.clone().concat(text)
    }
}

} // verus!
