//! Transactions: explicit begin, commit and rollback over one leased
//! connection.
//!
//! A transaction exclusively owns its connection for its whole life and
//! returns it to the pool exactly once, when `commit` or `rollback`
//! consumes the transaction — on the success and on the failure of the
//! closing request alike. Consuming the transaction by value is what
//! closes it: operating on a closed transaction is not expressible.
//!
//! Close every transaction explicitly. A transaction that is merely
//! dropped keeps its lease counted and leaves the server-side
//! transaction open; an application that wants rollback on every exit
//! path wraps the transaction in a scope guard that calls `rollback`.

use vstd::prelude::*;
use crate::transport::Transport;
use crate::conn::{Connection, ConnectionState};
use crate::query::Query;
use crate::stream::{RowStream, StreamPhase, fields_of_metadata, bookmark_of_summary,
    server_failure_of};
use crate::message::{Request, Response};
use crate::value::{Value, dv_entries, str_wf};
use crate::graph::Graph;
use crate::errors::{Error, DecodeError};

verus! {

/// An open transaction: one leased connection and the bounded-wait
/// budget it was begun with. While a result stream is out, the stream
/// holds the connection and `conn` is empty.
pub struct Txn<T> {
    pub conn: Option<Connection<T>>,
    pub io_budget: u64,
}

impl<T> Txn<T> {
    /// Between operations the held connection is idle; a failed
    /// connection may also be held, to be discarded at close.
    pub open spec fn inv(self) -> bool {
        match self.conn {
            Some(c) => c.state == ConnectionState::Ready || c.state == ConnectionState::Failed,
            None => true,
        }
    }
}

impl<T: Transport> Graph<T> {
    /// Begins a transaction: leases a connection and sends the begin
    /// request. If beginning fails, the lease goes back to the pool
    /// before the error propagates.
    pub fn begin(&mut self) -> (r: Result<Txn<T>, Error>)
        requires
            old(self).inv(),
        ensures
            final(self).inv(),
            r matches Ok(t) ==> t.inv() && (t.conn matches Some(c)
                && c.state == ConnectionState::Ready)
                && final(self).pool.leased == old(self).pool.leased + 1,
            r is Err ==> final(self).pool.leased == old(self).pool.leased,
            (r matches Err(e) && e is PoolExhausted) ==> old(self).pool.idle@.len() == 0
                && (old(self).pool.active() >= old(self).pool.max_connections
                    || old(self).spares@.len() == 0
                    || old(self).pool.created == usize::MAX),
            (r matches Err(e) && e is UsageError) ==> !old(self).config.wf()
                || (old(self).bookmark matches Some(b) && !str_wf(b@)),
            (old(self).bookmark matches Some(b) ==> str_wf(b@))
                && old(self).pool.idle@.len() == 0
                && old(self).pool.active() >= old(self).pool.max_connections
                ==> (r matches Err(e) && e is PoolExhausted),
    {
        let mut extra: Vec<(String, Value)> = Vec::new();
        proof {
            assert(dv_entries(extra@) =~= Seq::<(Seq<char>, crate::value::ValueModel)>::empty());
        }
        match &self.bookmark {
            Some(b) => {
                if !crate::message::push_entry_bookmarks(&mut extra, b) {
                    return Err(Error::UsageError);
                }
            },
            None => {},
        }
        let mut c = match self.acquire_conn() {
            Ok(c) => c,
            Err(e) => {
                return Err(e);
            },
        };
        match c.send_request(&Request::Begin { extra }) {
            Ok(()) => {},
            Err(e) => {
                self.pool.release(c);
                return Err(e);
            },
        }
        match c.recv_response(self.config.io_budget) {
            Ok(Response::Success(_)) => Ok(Txn { conn: Some(c), io_budget: self.config.io_budget }),
            Ok(Response::Failure(md)) => {
                let failure = server_failure_of(&md);
                let _ = c.reset(self.config.io_budget);
                self.pool.release(c);
                Err(Error::ServerFailure(failure))
            },
            Ok(_) => {
                c.state = ConnectionState::Failed;
                self.pool.release(c);
                Err(Error::Protocol(DecodeError::WrongShape))
            },
            Err(e) => {
                self.pool.release(c);
                Err(e)
            },
        }
    }
}

impl<T: Transport> Txn<T> {
    /// Runs a query inside the transaction and returns its stream, whose
    /// field names are [`fields_of_metadata`] of the success metadata.
    /// The stream takes the transaction's connection; close it with
    /// [`Txn::finish_stream`] before the next operation. Exactly when a
    /// stream is already out this fails with a usage error; a held
    /// connection that has failed gives a connect failure instead.
    pub fn execute(&mut self, q: Query) -> (r: Result<RowStream<T>, Error>)
        requires
            old(self).inv(),
            q.wf(),
        ensures
            final(self).inv(),
            r matches Ok(rs) ==> rs.inv() && rs.phase == StreamPhase::Active
                && final(self).conn is None,
            old(self).conn is None ==> (r matches Err(e) && e is UsageError)
                && final(self).conn is None,
            (r matches Err(e) && e is UsageError) ==> old(self).conn is None,
    {
        let mut c = match self.conn.take() {
            Some(c) => c,
            None => {
                return Err(Error::UsageError);
            },
        };
        if !matches!(c.state, ConnectionState::Ready) {
            self.conn = Some(c);
            return Err(Error::ConnectFailed);
        }
        let pull_extra = crate::message::pull_all_entries();
        match c.begin_stream(q, pull_extra) {
            Ok(()) => {},
            Err(e) => {
                self.conn = Some(c);
                return Err(e);
            },
        }
        match c.recv_response(self.io_budget) {
            Err(e) => {
                self.conn = Some(c);
                Err(e)
            },
            Ok(Response::Success(md)) => {
                match fields_of_metadata(&md) {
                    Some(fs) => Ok(RowStream {
                        conn: c,
                        fields: fs,
                        phase: StreamPhase::Active,
                        summary: Vec::new(),
                    }),
                    None => {
                        c.state = ConnectionState::Failed;
                        self.conn = Some(c);
                        Err(Error::Protocol(DecodeError::WrongShape))
                    },
                }
            },
            Ok(Response::Failure(md)) => {
                let failure = server_failure_of(&md);
                let _ = c.reset(self.io_budget);
                self.conn = Some(c);
                Err(Error::ServerFailure(failure))
            },
            Ok(_) => {
                c.state = ConnectionState::Failed;
                self.conn = Some(c);
                Err(Error::Protocol(DecodeError::WrongShape))
            },
        }
    }

    /// Takes back the connection from a stream produced by
    /// [`Txn::execute`]: a completed stream's connection is held again
    /// directly, an abandoned or failed one is reset first. No reset is
    /// sent after ordinary completion, since a reset would abandon the
    /// open server-side transaction. This refuses with a usage error
    /// exactly when a connection is already held — while the
    /// transaction's own stream is out, any stream handed in is adopted,
    /// so hand back the stream this transaction produced.
    pub fn finish_stream(&mut self, rs: RowStream<T>) -> (r: Result<(), Error>)
        requires
            old(self).inv(),
            rs.inv(),
        ensures
            final(self).inv(),
            old(self).conn is None ==> r is Ok && final(self).conn is Some,
            old(self).conn is Some ==> (r matches Err(e) && e is UsageError),
    {
        if self.conn.is_some() {
            return Err(Error::UsageError);
        }
        let RowStream { mut conn, fields: _, phase, summary: _ } = rs;
        if matches!(phase, StreamPhase::Complete) {
            self.conn = Some(conn);
            Ok(())
        } else {
            if matches!(conn.state, ConnectionState::Streaming) {
                let _ = conn.reset(self.io_budget);
            }
            self.conn = Some(conn);
            Ok(())
        }
    }

    /// Runs a query inside the transaction for its side effects,
    /// draining the stream fully within the bounded-wait budget.
    /// Exactly when a stream is already out this fails with a usage
    /// error; on success the connection is held again.
    pub fn run(&mut self, q: Query) -> (r: Result<(), Error>)
        requires
            old(self).inv(),
            q.wf(),
        ensures
            final(self).inv(),
            (r matches Err(e) && e is UsageError) <==> old(self).conn is None,
            r is Ok ==> final(self).conn is Some,
    {
        let mut rs = match self.execute(q) {
            Ok(rs) => rs,
            Err(e) => {
                return Err(e);
            },
        };
        let budget = self.io_budget;
        let mut drained: u64 = 0;
        while drained < budget
            invariant
                drained <= budget,
                rs.inv(),
                rs.phase == StreamPhase::Active,
                self.inv(),
                self.conn is None,
                old(self).conn is Some,
                self.io_budget == budget,
            decreases budget - drained,
        {
            match rs.next(budget) {
                Ok(Some(_)) => {},
                Ok(None) => {
                    return self.finish_stream(rs);
                },
                Err(e) => {
                    let _ = self.finish_stream(rs);
                    return Err(e);
                },
            }
            drained = drained + 1;
        }
        let _ = self.finish_stream(rs);
        Err(Error::ConnectFailed)
    }

    /// Sends the closing request and releases the connection to the pool
    /// on every path, then the transaction is gone. A successful close
    /// hands the summary's bookmark to the graph: [`bookmark_of_summary`]
    /// fixes which string that is.
    fn close(self, g: &mut Graph<T>, req: Request) -> (r: Result<(), Error>)
        requires
            self.inv(),
            old(g).inv(),
            req is Commit || req is Rollback,
        ensures
            final(g).inv(),
            self.conn is Some && old(g).pool.leased > 0
                ==> final(g).pool.leased == old(g).pool.leased - 1,
            self.conn is None ==> *final(g) == *old(g) && (r matches Err(e) && e is UsageError),
            (r matches Err(e) && e is UsageError) ==> self.conn is None,
            (self.conn matches Some(c) && c.state != ConnectionState::Ready)
                ==> (r matches Err(e) && e is ConnectFailed),
    {
        let Txn { conn, io_budget } = self;
        let mut c = match conn {
            Some(c) => c,
            None => {
                return Err(Error::UsageError);
            },
        };
        if !matches!(c.state, ConnectionState::Ready) {
            g.pool.release(c);
            return Err(Error::ConnectFailed);
        }
        match c.send_request(&req) {
            Ok(()) => {},
            Err(e) => {
                g.pool.release(c);
                return Err(e);
            },
        }
        match c.recv_response(io_budget) {
            Ok(Response::Success(md)) => {
                match bookmark_of_summary(&md) {
                    Some(b) => {
                        g.bookmark = Some(b);
                    },
                    None => {},
                }
                g.pool.release(c);
                Ok(())
            },
            Ok(Response::Failure(md)) => {
                let failure = server_failure_of(&md);
                let _ = c.reset(io_budget);
                g.pool.release(c);
                Err(Error::ServerFailure(failure))
            },
            Ok(_) => {
                c.state = ConnectionState::Failed;
                g.pool.release(c);
                Err(Error::Protocol(DecodeError::WrongShape))
            },
            Err(e) => {
                g.pool.release(c);
                Err(e)
            },
        }
    }

    /// Commits the transaction and releases its connection to the pool,
    /// whether the commit request succeeds or fails. Exactly when the
    /// transaction no longer holds its connection (a stream is still
    /// out) this is a usage error and nothing happens; a held connection
    /// that already failed gives a connect failure.
    pub fn commit(self, g: &mut Graph<T>) -> (r: Result<(), Error>)
        requires
            self.inv(),
            old(g).inv(),
        ensures
            final(g).inv(),
            self.conn is Some && old(g).pool.leased > 0
                ==> final(g).pool.leased == old(g).pool.leased - 1,
            self.conn is None ==> *final(g) == *old(g),
            (r matches Err(e) && e is UsageError) <==> self.conn is None,
            (self.conn matches Some(c) && c.state != ConnectionState::Ready)
                ==> (r matches Err(e) && e is ConnectFailed),
    {
        self.close(g, Request::Commit)
    }

    /// Rolls the transaction back and releases its connection to the
    /// pool, whether the rollback request succeeds or fails. Writes
    /// issued inside the transaction are abandoned by the server.
    /// Exactly when the transaction no longer holds its connection this
    /// is a usage error and nothing happens; a held connection that
    /// already failed gives a connect failure.
    pub fn rollback(self, g: &mut Graph<T>) -> (r: Result<(), Error>)
        requires
            self.inv(),
            old(g).inv(),
        ensures
            final(g).inv(),
            self.conn is Some && old(g).pool.leased > 0
                ==> final(g).pool.leased == old(g).pool.leased - 1,
            self.conn is None ==> *final(g) == *old(g),
            (r matches Err(e) && e is UsageError) <==> self.conn is None,
            (self.conn matches Some(c) && c.state != ConnectionState::Ready)
                ==> (r matches Err(e) && e is ConnectFailed),
    {
        self.close(g, Request::Rollback)
    }
}

} // verus!
