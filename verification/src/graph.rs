//! The pool-backed entry point: run a query, get a result stream.
//!
//! A `Graph` owns the connection pool and a stock of fresh transport
//! links handed in by the application. Each operation leases a
//! connection — reusing an idle one, or opening a new one up to the
//! pool's bound — and every path returns the lease: a healthy connection
//! to the idle set, a failed one to the discard count.

use vstd::prelude::*;
use crate::transport::Transport;
use crate::conn::{Connection, ConnectionState};
use crate::pool::Pool;
use crate::query::Query;
use crate::stream::{RowStream, StreamPhase, fields_of_metadata, bookmark_of_summary,
    server_failure_of};
use crate::message::{Request, Response, push_entry_str, pull_all_entries};
use crate::value::{Value, ValueModel, dv_entries, map_wf, str_wf, lemma_ascii_str_wf};
use crate::errors::{Error, DecodeError};

verus! {

/// What the driver needs to know to open and authenticate connections.
/// Addresses and transport security belong to the application, which
/// opens the links; the driver consumes them through [`Graph::add_transport`].
pub struct Config {
    /// Sent in the hello exchange.
    pub user_agent: String,
    /// The principal to authenticate as.
    pub user: String,
    /// The credential for `user`.
    pub password: String,
    /// The bound on concurrently open connections.
    pub max_connections: usize,
    /// The bounded wait: how many transport reads one response may take,
    /// and how many responses one drain may consume.
    pub io_budget: u64,
}

impl Config {
    /// The credential strings fit the wire format's length fields, so
    /// the hello exchange can carry them.
    pub open spec fn wf(self) -> bool {
        str_wf(self.user_agent@) && str_wf(self.user@) && str_wf(self.password@)
    }
}

/// The pool-backed query runner.
pub struct Graph<T> {
    pub pool: Pool<T>,
    /// Fresh, unopened links for connections still to be made.
    pub spares: Vec<T>,
    pub config: Config,
    /// The server-issued marker of the last completed unit of work, for
    /// causal ordering across transactions.
    pub bookmark: Option<String>,
}

impl<T: Transport> Graph<T> {
    /// The pool accounting law.
    pub open spec fn inv(self) -> bool {
        self.pool.inv()
    }

    /// A graph handle with an empty pool.
    pub fn new(config: Config) -> (g: Graph<T>)
        ensures
            g.inv(),
            g.pool.leased == 0,
            g.pool.created == 0,
            g.pool.discarded == 0,
            g.pool.idle@.len() == 0,
    {
        let max_connections = config.max_connections;
        Graph { pool: Pool::new(max_connections), spares: Vec::new(), config, bookmark: None }
    }

    /// Hands the graph a fresh transport link to open a future
    /// connection over.
    pub fn add_transport(&mut self, t: T)
        requires
            old(self).inv(),
        ensures
            final(self).inv(),
            final(self).pool == old(self).pool,
            final(self).spares@ == old(self).spares@ + seq![t],
            final(self).config == old(self).config,
            final(self).bookmark == old(self).bookmark,
    {
        self.spares.push(t);
    }

    /// The hello metadata: agent and credentials, exactly as configured.
    /// Nothing only when a configured string does not fit a length field.
    fn hello_extra(&self) -> (r: Option<Vec<(String, Value)>>)
        ensures
            r is Some <==> self.config.wf(),
            r matches Some(es) ==> map_wf(dv_entries(es@)) && dv_entries(es@) == seq![
                ("user_agent"@, ValueModel::Str(self.config.user_agent@)),
                ("scheme"@, ValueModel::Str("basic"@)),
                ("principal"@, ValueModel::Str(self.config.user@)),
                ("credentials"@, ValueModel::Str(self.config.password@)),
            ],
    {
        proof {
            assert(str_wf("user_agent"@)) by {
                reveal_strlit("user_agent");
                lemma_ascii_str_wf("user_agent"@);
            }
            assert(str_wf("scheme"@)) by {
                reveal_strlit("scheme");
                lemma_ascii_str_wf("scheme"@);
            }
            assert(str_wf("basic"@)) by {
                reveal_strlit("basic");
                lemma_ascii_str_wf("basic"@);
            }
            assert(str_wf("principal"@)) by {
                reveal_strlit("principal");
                lemma_ascii_str_wf("principal"@);
            }
            assert(str_wf("credentials"@)) by {
                reveal_strlit("credentials");
                lemma_ascii_str_wf("credentials"@);
            }
        }
        let mut es: Vec<(String, Value)> = Vec::new();
        proof {
            assert(dv_entries(es@) =~= Seq::<(Seq<char>, ValueModel)>::empty());
        }
        if !push_entry_str(&mut es, "user_agent", self.config.user_agent.clone()) {
            return None;
        }
        if !push_entry_str(&mut es, "scheme", "basic".to_owned()) {
            return None;
        }
        if !push_entry_str(&mut es, "principal", self.config.user.clone()) {
            return None;
        }
        if !push_entry_str(&mut es, "credentials", self.config.password.clone()) {
            return None;
        }
        proof {
            assert(dv_entries(es@) =~= seq![
                ("user_agent"@, ValueModel::Str(self.config.user_agent@)),
                ("scheme"@, ValueModel::Str("basic"@)),
                ("principal"@, ValueModel::Str(self.config.user@)),
                ("credentials"@, ValueModel::Str(self.config.password@)),
            ]);
        }
        Some(es)
    }

    /// Opens a connection over a spare link: handshake, then the hello
    /// exchange. On success the connection is registered and leased.
    fn connect_spare(&mut self) -> (r: Result<Connection<T>, Error>)
        requires
            old(self).inv(),
            old(self).pool.active() < old(self).pool.max_connections,
        ensures
            final(self).inv(),
            final(self).pool.max_connections == old(self).pool.max_connections,
            final(self).pool.idle@ == old(self).pool.idle@,
            final(self).pool.discarded == old(self).pool.discarded,
            match r {
                Ok(c) => c.state == ConnectionState::Ready
                    && final(self).pool.leased == old(self).pool.leased + 1
                    && final(self).pool.created == old(self).pool.created + 1,
                Err(_) => final(self).pool.leased == old(self).pool.leased
                    && final(self).pool.created == old(self).pool.created,
            },
            (r matches Err(e) && e is PoolExhausted) ==> old(self).spares@.len() == 0
                || old(self).pool.created == usize::MAX,
            (r matches Err(e) && e is UsageError) ==> !old(self).config.wf(),
    {
        let t = match self.spares.pop() {
            Some(t) => t,
            None => {
                return Err(Error::PoolExhausted);
            },
        };
        let mut c = Connection::new(t);
        match c.handshake(self.config.io_budget) {
            Ok(()) => {},
            Err(e) => {
                return Err(e);
            },
        }
        let extra = match self.hello_extra() {
            Some(es) => es,
            None => {
                return Err(Error::UsageError);
            },
        };
        match c.send_request(&Request::Hello { extra }) {
            Ok(()) => {},
            Err(e) => {
                return Err(e);
            },
        }
        match c.recv_response(self.config.io_budget) {
            Ok(Response::Success(_)) => {
                if self.pool.register_new() {
                    Ok(c)
                } else {
                    Err(Error::PoolExhausted)
                }
            },
            Ok(_) => Err(Error::ConnectFailed),
            Err(_) => Err(Error::ConnectFailed),
        }
    }

    /// Leases a connection: an idle one if any, else a new one up to the
    /// pool bound, else fails with `PoolExhausted`.
    pub(crate) fn acquire_conn(&mut self) -> (r: Result<Connection<T>, Error>)
        requires
            old(self).inv(),
        ensures
            final(self).inv(),
            final(self).pool.max_connections == old(self).pool.max_connections,
            match r {
                Ok(c) => c.state == ConnectionState::Ready
                    && final(self).pool.leased == old(self).pool.leased + 1,
                Err(_) => final(self).pool.leased == old(self).pool.leased,
            },
            (r matches Err(e) && e is PoolExhausted) ==> old(self).pool.idle@.len() == 0
                && (old(self).pool.active() >= old(self).pool.max_connections
                    || old(self).spares@.len() == 0
                    || old(self).pool.created == usize::MAX),
            old(self).pool.idle@.len() == 0
                && old(self).pool.active() >= old(self).pool.max_connections
                ==> (r matches Err(e) && e is PoolExhausted),
            (r matches Err(e) && e is UsageError) ==> !old(self).config.wf(),
    {
        match self.pool.acquire() {
            Some(c) => Ok(c),
            None => {
                if self.pool.can_open() {
                    self.connect_spare()
                } else {
                    Err(Error::PoolExhausted)
                }
            },
        }
    }

    /// Sends the run and pull requests on `c` and reads the run response,
    /// building the stream: its field names are [`fields_of_metadata`] of
    /// the success metadata, so their provenance is fixed by that
    /// function's contract. Every path accounts for the lease held by
    /// `c`: the stream keeps it, or it goes back to the pool.
    fn start_stream(&mut self, mut c: Connection<T>, q: Query) -> (r: Result<RowStream<T>, Error>)
        requires
            old(self).inv(),
            q.wf(),
            c.state == ConnectionState::Ready,
        ensures
            final(self).inv(),
            match r {
                Ok(rs) => rs.inv() && rs.phase == StreamPhase::Active
                    && final(self).pool.leased == old(self).pool.leased,
                Err(_) => final(self).pool.leased
                    == (if old(self).pool.leased > 0 { old(self).pool.leased - 1 } else { 0 }),
            },
            r matches Err(e) ==> !(e is PoolExhausted) && !(e is UsageError),
    {
        let pull_extra = pull_all_entries();
        match c.begin_stream(q, pull_extra) {
            Ok(()) => {},
            Err(e) => {
                self.pool.release(c);
                return Err(e);
            },
        }
        match c.recv_response(self.config.io_budget) {
            Err(e) => {
                self.pool.release(c);
                Err(e)
            },
            Ok(Response::Success(md)) => {
                match fields_of_metadata(&md) {
                    Some(fs) => Ok(RowStream {
                        conn: c,
                        fields: fs,
                        phase: StreamPhase::Active,
                        summary: Vec::new(),
                    }),
                    None => {
                        c.state = ConnectionState::Failed;
                        self.pool.release(c);
                        Err(Error::Protocol(DecodeError::WrongShape))
                    },
                }
            },
            Ok(Response::Failure(md)) => {
                let failure = server_failure_of(&md);
                let _ = c.reset(self.config.io_budget);
                self.pool.release(c);
                Err(Error::ServerFailure(failure))
            },
            Ok(_) => {
                c.state = ConnectionState::Failed;
                self.pool.release(c);
                Err(Error::Protocol(DecodeError::WrongShape))
            },
        }
    }

    /// Runs a query and returns its result stream. The stream holds the
    /// leased connection until [`Graph::finish`] returns it.
    pub fn execute(&mut self, q: Query) -> (r: Result<RowStream<T>, Error>)
        requires
            old(self).inv(),
            q.wf(),
        ensures
            final(self).inv(),
            r matches Ok(rs) ==> rs.inv() && rs.phase == StreamPhase::Active
                && final(self).pool.leased == old(self).pool.leased + 1,
            r is Err ==> final(self).pool.leased == old(self).pool.leased,
            (r matches Err(e) && e is PoolExhausted) ==> old(self).pool.idle@.len() == 0
                && (old(self).pool.active() >= old(self).pool.max_connections
                    || old(self).spares@.len() == 0
                    || old(self).pool.created == usize::MAX),
            old(self).pool.idle@.len() == 0
                && old(self).pool.active() >= old(self).pool.max_connections
                ==> (r matches Err(e) && e is PoolExhausted),
            (r matches Err(e) && e is UsageError) ==> !old(self).config.wf(),
    {
        let c = match self.acquire_conn() {
            Ok(c) => c,
            Err(e) => {
                return Err(e);
            },
        };
        self.start_stream(c, q)
    }

    /// Closes a stream and returns its connection to the pool. A
    /// completed stream's summary hands its bookmark to the graph:
    /// [`bookmark_of_summary`] fixes which string that is. Whether the
    /// stream completed or was abandoned, the connection issues a reset
    /// first, so the server-side cursor is guaranteed gone before reuse;
    /// a connection whose reset fails is discarded, as is one already
    /// failed.
    pub fn finish(&mut self, rs: RowStream<T>) -> (r: Result<(), Error>)
        requires
            old(self).inv(),
            rs.inv(),
        ensures
            final(self).inv(),
            r is Ok,
            old(self).pool.leased > 0 ==> final(self).pool.leased == old(self).pool.leased - 1,
            old(self).pool.leased == 0 ==> final(self).pool.leased == 0,
    {
        let RowStream { mut conn, fields: _, phase, summary } = rs;
        if matches!(phase, StreamPhase::Complete) {
            match bookmark_of_summary(&summary) {
                Some(b) => {
                    self.bookmark = Some(b);
                },
                None => {},
            }
        }
        if matches!(conn.state, ConnectionState::Ready)
            || matches!(conn.state, ConnectionState::Streaming) {
            let _ = conn.reset(self.config.io_budget);
        }
        self.pool.release(conn);
        Ok(())
    }

    /// Runs a query for its side effects: executes it, drains every row,
    /// and returns the connection. Draining is bounded by the
    /// configuration's budget; a server that keeps streaming past it is
    /// treated as a failed link.
    pub fn run(&mut self, q: Query) -> (r: Result<(), Error>)
        requires
            old(self).inv(),
            q.wf(),
        ensures
            final(self).inv(),
            final(self).pool.leased == old(self).pool.leased,
            (r matches Err(e) && e is PoolExhausted) ==> old(self).pool.idle@.len() == 0
                && (old(self).pool.active() >= old(self).pool.max_connections
                    || old(self).spares@.len() == 0
                    || old(self).pool.created == usize::MAX),
            old(self).pool.idle@.len() == 0
                && old(self).pool.active() >= old(self).pool.max_connections
                ==> (r matches Err(e) && e is PoolExhausted),
            (r matches Err(e) && e is UsageError) ==> !old(self).config.wf(),
    {
        let mut rs = match self.execute(q) {
            Ok(rs) => rs,
            Err(e) => {
                return Err(e);
            },
        };
        let budget = self.config.io_budget;
        let mut drained: u64 = 0;
        while drained < budget
            invariant
                drained <= budget,
                rs.inv(),
                rs.phase == StreamPhase::Active,
                self.inv(),
                self.pool.leased == old(self).pool.leased + 1,
                !(old(self).pool.idle@.len() == 0
                    && old(self).pool.active() >= old(self).pool.max_connections),
            decreases budget - drained,
        {
            match rs.next(budget) {
                Ok(Some(_)) => {},
                Ok(None) => {
                    return self.finish(rs);
                },
                Err(e) => {
                    let _ = self.finish(rs);
                    return Err(e);
                },
            }
            drained = drained + 1;
        }
        let _ = self.finish(rs);
        Err(Error::ConnectFailed)
    }

    /// Shuts the pool down: every idle connection is closed with a
    /// goodbye message and discarded. Connections still leased out are
    /// untouched; they are discarded when their streams finish.
    pub fn shutdown(&mut self)
        requires
            old(self).inv(),
        ensures
            final(self).inv(),
            final(self).pool.idle@.len() == 0,
            final(self).pool.leased == old(self).pool.leased,
    {
        let mut drained = self.pool.drain_idle();
        while drained.len() > 0
            invariant
                self.inv(),
                self.pool.idle@.len() == 0,
                self.pool.leased == old(self).pool.leased,
            decreases drained@.len(),
        {
            match drained.pop() {
                Some(mut c) => {
                    let _ = c.send_request(&Request::Goodbye);
                    c.state = ConnectionState::Closed;
                },
                None => {},
            }
        }
    }
}

} // verus!

