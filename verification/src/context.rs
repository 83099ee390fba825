use vstd::prelude::*;
use crate::models::{result_views, SearchOutput};
use crate::ranking::{is_k_nearest, nearest, rows_of};
use crate::store::Database;

verus! {

/// Why a search gave no answer.
#[derive(Clone, Copy, Debug, PartialEq, Eq, Structural)]
pub enum SearchError {
    /// The query text could not be embedded.
    EmbeddingFailed,
    /// The query's vector has `found` components where the store holds another
    /// dimension.
    QueryDimension { found: usize },
}

/// A store together with the query path over it.
pub struct AppContext {
    db: Database,
}

impl AppContext {
    /// The store that the context answers from.
    pub closed spec fn store(&self) -> Database {
        self.db
    }

    /// A context over `db`.
    pub fn new(db: Database) -> (ctx: AppContext)
        ensures
            ctx.store() == db,
    {
        AppContext { db }
    }

    /// The store, to read.
    pub fn db(&self) -> (db: &Database)
        ensures
            *db == self.store(),
    {
        &self.db
    }

    /// The store, to change.
    pub fn db_mut(&mut self) -> (db: &mut Database)
        ensures
            *db == old(self).store(),
            final(self).store() == *final(db),
    {
        &mut self.db
    }

    /// Answers `query` from the store, given the outcome of embedding it:
    /// `None` where that failed, else the query's vector. The answer repeats
    /// the query text and lists the `limit` nearest entries, nearest first. An
    /// empty list is an answer, not an error.
    pub fn search(&self, query: &str, embedded: Option<Vec<i32>>, limit: usize) -> (result: Result<
        SearchOutput,
        SearchError,
    >)
        requires
            self.store().wf(),
        ensures
            match result {
                Ok(out) => {
                    &&& embedded.is_some()
                    &&& embedded.unwrap().len() == self.store().dim()
                    &&& out.search@ == query@
                    &&& out.results.len() == (if limit <= self.store()@.entries.len() {
                        limit as int
                    } else {
                        self.store()@.entries.len() as int
                    })
                    &&& is_k_nearest(
                        self.store()@.entries,
                        embedded.unwrap()@,
                        limit as nat,
                        nearest(self.store()@.entries, embedded.unwrap()@, limit as nat),
                    )
                    &&& result_views(out.results@) == rows_of(
                        self.store()@.entries,
                        embedded.unwrap()@,
                        nearest(self.store()@.entries, embedded.unwrap()@, limit as nat),
                    )
                },
                Err(e) => e == search_refusal(self.store().dim(), embedded) && !search_accepts(
                    self.store().dim(),
                    embedded,
                ),
            },
    {
        match embedded {
            None => Err(SearchError::EmbeddingFailed),
            Some(vector) => {
                match self.db.search_similar(&vector, limit) {
                    Ok(rows) => Ok(SearchOutput { search: query.to_owned(), results: rows }),
                    Err(_) => Err(SearchError::QueryDimension { found: vector.len() }),
                }
            },
        }
    }
}

/// The query can be answered: it was embedded, in the store's dimension.
pub open spec fn search_accepts(dim: nat, embedded: Option<Vec<i32>>) -> bool {
    embedded.is_some() && embedded.unwrap().len() == dim
}

/// The error that a search answers where the query cannot be answered.
pub open spec fn search_refusal(dim: nat, embedded: Option<Vec<i32>>) -> SearchError {
    match embedded {
        None => SearchError::EmbeddingFailed,
        Some(vector) => SearchError::QueryDimension { found: vector.len() },
    }
}

} // verus!
