//! The connection pool: idle connections and lease accounting.
//!
//! The accounting law holds at all times: idle plus leased connections
//! equal all connections ever registered minus those discarded
//! ([`Pool::inv`]); every method states it. Leases move connections by
//! value, so a second lease on an already-leased connection cannot be
//! expressed at all. Only `Ready` connections ever enter the idle set:
//! a failed or still-streaming connection handed back is discarded.

use vstd::prelude::*;
use crate::conn::{Connection, ConnectionState};

verus! {

/// A bounded pool of connections.
pub struct Pool<T> {
    /// Healthy idle connections.
    pub idle: Vec<Connection<T>>,
    /// How many connections are currently leased out.
    pub leased: usize,
    /// How many connections were ever registered.
    pub created: usize,
    /// How many registered connections were discarded.
    pub discarded: usize,
    /// The bound on concurrently open connections.
    pub max_connections: usize,
}

impl<T> Pool<T> {
    /// The accounting law, and the idle set's health: every idle
    /// connection is `Ready`.
    pub open spec fn inv(self) -> bool {
        &&& self.idle@.len() + self.leased == self.created - self.discarded
        &&& self.discarded <= self.created
        &&& forall|i: int|
            0 <= i < self.idle@.len()
                ==> (#[trigger] self.idle@[i]).state == ConnectionState::Ready
    }

    /// An empty pool with the given bound.
    pub fn new(max_connections: usize) -> (p: Pool<T>)
        ensures
            p.inv(),
            p.idle@.len() == 0,
            p.leased == 0,
            p.created == 0,
            p.discarded == 0,
            p.max_connections == max_connections,
    {
        Pool { idle: Vec::new(), leased: 0, created: 0, discarded: 0, max_connections }
    }

    /// How many registered connections are alive, idle or leased.
    pub open spec fn active(self) -> int {
        self.created - self.discarded
    }

    /// True when the bound allows opening another connection.
    pub fn can_open(&self) -> (r: bool)
        requires
            self.inv(),
        ensures
            r == (self.active() < self.max_connections),
    {
        self.created - self.discarded < self.max_connections
    }

    /// Takes an idle connection as an exclusive lease, if one exists.
    pub fn acquire(&mut self) -> (r: Option<Connection<T>>)
        requires
            old(self).inv(),
        ensures
            final(self).inv(),
            final(self).created == old(self).created,
            final(self).discarded == old(self).discarded,
            final(self).max_connections == old(self).max_connections,
            match r {
                Some(c) => old(self).idle@.len() > 0 && c == old(self).idle@.last()
                    && c.state == ConnectionState::Ready
                    && final(self).idle@ == old(self).idle@.drop_last()
                    && final(self).leased == old(self).leased + 1,
                None => old(self).idle@.len() == 0 && *final(self) == *old(self),
            },
    {
        if self.idle.len() == 0 {
            return None;
        }
        match self.idle.pop() {
            Some(c) => {
                proof {
                    assert(c == old(self).idle@[old(self).idle@.len() - 1]);
                }
                self.leased = self.leased + 1;
                Some(c)
            },
            None => {
                // The idle set was checked nonempty.
                assert(false);
                None
            },
        }
    }

    /// Counts one freshly opened, handshaken connection as registered and
    /// leased; the caller keeps the connection itself as the lease. False
    /// only when the lifetime count would overflow, in which case nothing
    /// changes.
    pub fn register_new(&mut self) -> (r: bool)
        requires
            old(self).inv(),
            old(self).active() < old(self).max_connections,
        ensures
            final(self).inv(),
            final(self).idle@ == old(self).idle@,
            final(self).discarded == old(self).discarded,
            final(self).max_connections == old(self).max_connections,
            r <==> old(self).created != usize::MAX,
            r ==> final(self).leased == old(self).leased + 1
                && final(self).created == old(self).created + 1,
            !r ==> *final(self) == *old(self),
    {
        if self.created == usize::MAX {
            return false;
        }
        self.created = self.created + 1;
        self.leased = self.leased + 1;
        true
    }

    /// Empties the idle set for shutdown, counting every idle connection
    /// as discarded; the caller closes them.
    pub fn drain_idle(&mut self) -> (r: Vec<Connection<T>>)
        requires
            old(self).inv(),
        ensures
            final(self).inv(),
            final(self).idle@.len() == 0,
            final(self).leased == old(self).leased,
            final(self).created == old(self).created,
            final(self).discarded == old(self).discarded + old(self).idle@.len(),
            r@ == old(self).idle@,
    {
        let mut r: Vec<Connection<T>> = Vec::new();
        core::mem::swap(&mut r, &mut self.idle);
        let n = r.len();
        self.discarded = self.discarded + n;
        r
    }

    /// Returns a lease: a `Ready` connection joins the idle set, anything
    /// else is discarded and never seen again. A connection that was not
    /// leased from this pool is dropped without touching the accounts.
    pub fn release(&mut self, c: Connection<T>)
        requires
            old(self).inv(),
        ensures
            final(self).inv(),
            final(self).created == old(self).created,
            final(self).max_connections == old(self).max_connections,
            old(self).leased == 0 ==> *final(self) == *old(self),
            old(self).leased > 0 && c.state == ConnectionState::Ready ==> {
                &&& final(self).idle@ == old(self).idle@ + seq![c]
                &&& final(self).leased == old(self).leased - 1
                &&& final(self).discarded == old(self).discarded
            },
            old(self).leased > 0 && c.state != ConnectionState::Ready ==> {
                &&& final(self).idle@ == old(self).idle@
                &&& final(self).leased == old(self).leased - 1
                &&& final(self).discarded == old(self).discarded + 1
            },
    {
        if self.leased == 0 {
            return;
        }
        self.leased = self.leased - 1;
        if matches!(c.state, ConnectionState::Ready) {
            self.idle.push(c);
        } else {
            self.discarded = self.discarded + 1;
        }
    }
}

/// The pool accounting law, stated on its own: at all times, idle plus
/// leased connections equal the connections ever registered minus those
/// discarded.
pub proof fn lemma_pool_balance<T>(p: Pool<T>)
    requires
        p.inv(),
    ensures
        p.idle@.len() + p.leased == p.created - p.discarded,
{
}

} // verus!
