//! The query-running capability.
//!
//! One capability covers running a query outside a transaction (the
//! pool-backed [`Graph`]) and inside one (an open [`Txn`]), so callers —
//! including the derive-based convenience layer — write query code
//! generically over whichever they are handed.

use vstd::prelude::*;
use crate::transport::Transport;
use crate::query::Query;
use crate::stream::{RowStream, StreamPhase};
use crate::graph::Graph;
use crate::txn::Txn;
use crate::errors::Error;

verus! {

/// Runs queries: either against the pool or inside a transaction.
pub trait Execute<T: Transport> {
    /// The well-formedness every operation preserves.
    spec fn inv(&self) -> bool;

    /// Runs a query for its side effects and discards the stream after
    /// draining it fully.
    fn run(&mut self, q: Query) -> (r: Result<(), Error>)
        requires
            old(self).inv(),
            q.wf(),
        ensures
            final(self).inv(),
    ;

    /// Runs a query and returns its result stream.
    fn execute(&mut self, q: Query) -> (r: Result<RowStream<T>, Error>)
        requires
            old(self).inv(),
            q.wf(),
        ensures
            final(self).inv(),
            r matches Ok(rs) ==> rs.inv() && rs.phase == StreamPhase::Active,
    ;

    /// Closes a stream obtained from `execute`, returning its connection
    /// to wherever it was leased from.
    fn finish(&mut self, rs: RowStream<T>) -> (r: Result<(), Error>)
        requires
            old(self).inv(),
            rs.inv(),
        ensures
            final(self).inv(),
    ;
}

impl<T: Transport> Execute<T> for Graph<T> {
    open spec fn inv(&self) -> bool {
        Graph::inv(*self)
    }

    fn run(&mut self, q: Query) -> (r: Result<(), Error>) {
        Graph::run(self, q)
    }

    fn execute(&mut self, q: Query) -> (r: Result<RowStream<T>, Error>) {
        Graph::execute(self, q)
    }

    fn finish(&mut self, rs: RowStream<T>) -> (r: Result<(), Error>) {
        Graph::finish(self, rs)
    }
}

impl<T: Transport> Execute<T> for Txn<T> {
    open spec fn inv(&self) -> bool {
        Txn::inv(*self)
    }

    fn run(&mut self, q: Query) -> (r: Result<(), Error>) {
        Txn::run(self, q)
    }

    fn execute(&mut self, q: Query) -> (r: Result<RowStream<T>, Error>) {
        Txn::execute(self, q)
    }

    fn finish(&mut self, rs: RowStream<T>) -> (r: Result<(), Error>) {
        Txn::finish_stream(self, rs)
    }
}

} // verus!
