//! One connection: the session state machine over one transport link.
//!
//! States move `Handshaking -> Ready -> Streaming -> Ready` in a loop,
//! with `Failed` reachable from anywhere on a transport or protocol
//! error. A failed connection is never repaired and never reused: the
//! pool discards it.

use vstd::prelude::*;
use crate::transport::Transport;
use crate::frame::{Unframer, frame_message, DEFAULT_CHUNK_CAPACITY};
use crate::message::{Request, Response, encode_request, decode_response, request_wf};
use crate::query::Query;
use crate::errors::Error;
use crate::ints::{be_bytes, from_be, read_be, push_be, lemma_from_be_bound, lemma_pow256_values};
use crate::value::{Value, dv_entries, map_wf};

verus! {

/// The lifecycle state of a connection.
#[derive(PartialEq, Eq, Structural, Clone, Copy, Debug)]
pub enum ConnectionState {
    /// The version negotiation has not completed.
    Handshaking,
    /// Idle: a new request may be sent.
    Ready,
    /// A result stream is being pulled.
    Streaming,
    /// A transport or protocol error occurred; the connection is dead.
    Failed,
    /// Closed by the driver.
    Closed,
}

// The protocol versions offered, in preference order.
pub const BOLT_VERSION_4_4: u32 = 0x0000_0404;
pub const BOLT_VERSION_4_3: u32 = 0x0000_0403;
pub const BOLT_VERSION_4_2: u32 = 0x0000_0402;
pub const BOLT_VERSION_4_1: u32 = 0x0000_0401;

/// True of the versions the handshake offers.
pub open spec fn offered_version(v: u32) -> bool {
    v == BOLT_VERSION_4_4 || v == BOLT_VERSION_4_3 || v == BOLT_VERSION_4_2
        || v == BOLT_VERSION_4_1
}

/// The fixed handshake payload: the magic preamble then the four offered
/// versions, each as a 4-byte big-endian field.
pub open spec fn spec_handshake_request() -> Seq<u8> {
    seq![0x60u8, 0x60u8, 0xB0u8, 0x17u8] + be_bytes(BOLT_VERSION_4_4 as nat, 4)
        + be_bytes(BOLT_VERSION_4_3 as nat, 4) + be_bytes(BOLT_VERSION_4_2 as nat, 4)
        + be_bytes(BOLT_VERSION_4_1 as nat, 4)
}

/// The version-negotiation decision, stated exactly: the server's reply
/// is accepted as the big-endian value of its first four bytes when that
/// value is one of the offered versions, and refused otherwise.
pub fn accept_version(reply: &Vec<u8>) -> (r: Option<u32>)
    requires
        reply@.len() >= 4,
    ensures
        ({
            let chosen = from_be(reply@.subrange(0, 4));
            match r {
                Some(v) => v as nat == chosen && offered_version(v),
                None => !offered_version(chosen as u32),
            }
        }),
{
    let v64 = read_be(reply, 0, 4);
    proof {
        lemma_from_be_bound(reply@.subrange(0, 4));
        lemma_pow256_values();
    }
    let v = v64 as u32;
    if v == BOLT_VERSION_4_4 || v == BOLT_VERSION_4_3 || v == BOLT_VERSION_4_2
        || v == BOLT_VERSION_4_1 {
        Some(v)
    } else {
        None
    }
}

/// What one response means while a reset waits to be acknowledged,
/// stated exactly: a success acknowledges it, a failure rejects it, and
/// records or ignored responses from cancelled requests are skipped.
#[derive(PartialEq, Eq, Structural, Clone, Copy, Debug)]
pub enum ResetStep {
    Acknowledged,
    Rejected,
    Skipped,
}

pub fn reset_step(resp: &Response) -> (r: ResetStep)
    ensures
        r == ResetStep::Acknowledged <==> resp is Success,
        r == ResetStep::Rejected <==> resp is Failure,
        r == ResetStep::Skipped <==> resp is Record || resp is Ignored,
{
    match resp {
        Response::Success(_) => ResetStep::Acknowledged,
        Response::Failure(_) => ResetStep::Rejected,
        Response::Record(_) => ResetStep::Skipped,
        Response::Ignored => ResetStep::Skipped,
    }
}

/// A session over one transport link.
pub struct Connection<T> {
    pub transport: T,
    pub state: ConnectionState,
    /// The negotiated protocol version; meaningful once `Ready`.
    pub version: u32,
    /// Reassembles incoming chunks into messages.
    pub unframer: Unframer,
}

impl<T: Transport> Connection<T> {
    /// A fresh connection over `transport`, ready to handshake.
    pub fn new(transport: T) -> (c: Connection<T>)
        ensures
            c.state == ConnectionState::Handshaking,
    {
        Connection {
            transport,
            state: ConnectionState::Handshaking,
            version: 0,
            unframer: Unframer::new(),
        }
    }

    /// The handshake payload.
    pub fn handshake_request() -> (r: Vec<u8>)
        ensures
            r@ == spec_handshake_request(),
    {
        let mut out: Vec<u8> = Vec::new();
        out.push(0x60);
        out.push(0x60);
        out.push(0xB0);
        out.push(0x17);
        push_be(&mut out, BOLT_VERSION_4_4 as u64, 4);
        push_be(&mut out, BOLT_VERSION_4_3 as u64, 4);
        push_be(&mut out, BOLT_VERSION_4_2 as u64, 4);
        push_be(&mut out, BOLT_VERSION_4_1 as u64, 4);
        assert(out@ =~= spec_handshake_request());
        out
    }

    /// Negotiates the protocol version: sends the preamble and offered
    /// versions, reads the server's 4-byte choice, and applies
    /// [`accept_version`] to it — so which replies are accepted, and as
    /// which version, is fixed by that function's contract. Becomes
    /// `Ready` exactly on acceptance, `Failed` otherwise. `budget` bounds
    /// how many reads the wait may take.
    pub fn handshake(&mut self, budget: u64) -> (r: Result<(), Error>)
        requires
            old(self).state == ConnectionState::Handshaking,
        ensures
            final(self).state == ConnectionState::Ready
                || final(self).state == ConnectionState::Failed,
            r is Ok <==> final(self).state == ConnectionState::Ready,
            r is Ok ==> offered_version(final(self).version),
            r is Err ==> (r matches Err(e) && e is ConnectFailed),
    {
        let payload = Self::handshake_request();
        match self.transport.send(&payload) {
            Err(_) => {
                self.state = ConnectionState::Failed;
                return Err(Error::ConnectFailed);
            },
            Ok(()) => {},
        }
        let mut got: Vec<u8> = Vec::new();
        let mut tries: u64 = 0;
        while got.len() < 4 && tries < budget
            invariant
                tries <= budget,
            decreases budget - tries,
        {
            match self.transport.recv() {
                Err(_) => {
                    self.state = ConnectionState::Failed;
                    return Err(Error::ConnectFailed);
                },
                Ok(chunk) => {
                    crate::codec::push_slice(&mut got, chunk.as_slice());
                },
            }
            tries = tries + 1;
        }
        if got.len() < 4 {
            self.state = ConnectionState::Failed;
            return Err(Error::ConnectFailed);
        }
        match accept_version(&got) {
            Some(v) => {
                self.version = v;
                self.state = ConnectionState::Ready;
                // Bytes the server pipelined after its choice belong to
                // the message stream.
                if got.len() > 4 {
                    let extra = crate::codec::copy_range(&got, 4, got.len());
                    self.unframer.feed(extra.as_slice());
                }
                Ok(())
            },
            None => {
                self.state = ConnectionState::Failed;
                Err(Error::ConnectFailed)
            },
        }
    }

    /// Encodes, chunks and sends one request. On a transport error the
    /// connection becomes `Failed`.
    pub fn send_request(&mut self, req: &Request) -> (r: Result<(), Error>)
        requires
            request_wf(*req),
        ensures
            r is Ok ==> final(self).state == old(self).state
                && final(self).version == old(self).version,
            r is Err ==> final(self).state == ConnectionState::Failed
                && (r matches Err(e) && e is ConnectFailed),
    {
        let body = encode_request(req);
        let framed = frame_message(&body, DEFAULT_CHUNK_CAPACITY);
        match self.transport.send(&framed) {
            Ok(()) => Ok(()),
            Err(_) => {
                self.state = ConnectionState::Failed;
                Err(Error::ConnectFailed)
            },
        }
    }

    /// Receives one complete message, reading from the transport as often
    /// as `budget` allows. On a transport error or an exhausted budget the
    /// connection becomes `Failed`.
    pub fn recv_message(&mut self, budget: u64) -> (r: Result<Vec<u8>, Error>)
        ensures
            r is Ok ==> final(self).state == old(self).state
                && final(self).version == old(self).version,
            r is Err ==> final(self).state == ConnectionState::Failed
                && (r matches Err(e) && e is ConnectFailed),
    {
        let mut tries: u64 = 0;
        while tries < budget
            invariant
                tries <= budget,
                self.state == old(self).state,
                self.version == old(self).version,
            decreases budget - tries,
        {
            match self.unframer.take_message() {
                Some(msg) => {
                    return Ok(msg);
                },
                None => {},
            }
            match self.transport.recv() {
                Err(_) => {
                    self.state = ConnectionState::Failed;
                    return Err(Error::ConnectFailed);
                },
                Ok(chunk) => {
                    self.unframer.feed(chunk.as_slice());
                },
            }
            tries = tries + 1;
        }
        match self.unframer.take_message() {
            Some(msg) => Ok(msg),
            None => {
                self.state = ConnectionState::Failed;
                Err(Error::ConnectFailed)
            },
        }
    }

    /// Receives and parses one response. A malformed message is a
    /// protocol error: fatal to the connection.
    pub fn recv_response(&mut self, budget: u64) -> (r: Result<Response, Error>)
        ensures
            r is Ok ==> final(self).state == old(self).state
                && final(self).version == old(self).version,
            r is Err ==> final(self).state == ConnectionState::Failed
                && (r matches Err(e) && (e is ConnectFailed || e is Protocol)),
    {
        let msg = match self.recv_message(budget) {
            Ok(m) => m,
            Err(e) => {
                return Err(e);
            },
        };
        match decode_response(&msg) {
            Ok(resp) => Ok(resp),
            Err(e) => {
                self.state = ConnectionState::Failed;
                Err(Error::Protocol(e))
            },
        }
    }

    /// Starts a query stream: sends the run request and the pull request
    /// for all records. Exactly when the connection is `Ready` this
    /// succeeds (up to transport failure) and the connection starts
    /// `Streaming`; in any other state nothing is sent and the call fails
    /// with a usage error, so a second stream can never interleave with an
    /// undrained one.
    pub fn begin_stream(&mut self, q: Query, pull_extra: Vec<(String, Value)>)
        -> (r: Result<(), Error>)
        requires
            q.wf(),
            map_wf(dv_entries(pull_extra@)),
        ensures
            old(self).state != ConnectionState::Ready ==> (r matches Err(e) && e is UsageError)
                && *final(self) == *old(self),
            old(self).state == ConnectionState::Ready ==> match r {
                Ok(()) => final(self).state == ConnectionState::Streaming
                    && final(self).version == old(self).version,
                Err(e) => final(self).state == ConnectionState::Failed && e is ConnectFailed,
            },
    {
        if !matches!(self.state, ConnectionState::Ready) {
            return Err(Error::UsageError);
        }
        let Query { statement, parameters } = q;
        let run = Request::Run { statement, parameters, extra: Vec::new() };
        proof {
            assert(dv_entries(Seq::<(String, Value)>::empty()) =~= Seq::<(Seq<char>,
                crate::value::ValueModel)>::empty());
        }
        match self.send_request(&run) {
            Ok(()) => {},
            Err(e) => {
                return Err(e);
            },
        }
        let pull = Request::Pull { extra: pull_extra };
        match self.send_request(&pull) {
            Ok(()) => {},
            Err(e) => {
                return Err(e);
            },
        }
        self.state = ConnectionState::Streaming;
        Ok(())
    }

    /// Resets the connection so the server discards any in-flight work:
    /// sends a reset request and reads responses, applying
    /// [`reset_step`] to each — so which response kinds are skipped,
    /// which acknowledges the reset and which rejects it is fixed by that
    /// function's contract. Becomes `Ready` exactly on acknowledgement,
    /// `Failed` otherwise.
    pub fn reset(&mut self, budget: u64) -> (r: Result<(), Error>)
        ensures
            final(self).state == ConnectionState::Ready
                || final(self).state == ConnectionState::Failed,
            r is Ok <==> final(self).state == ConnectionState::Ready,
    {
        match self.send_request(&Request::Reset) {
            Ok(()) => {},
            Err(e) => {
                return Err(e);
            },
        }
        let mut tries: u64 = 0;
        while tries < budget
            invariant
                tries <= budget,
            decreases budget - tries,
        {
            match self.recv_response(budget) {
                Err(e) => {
                    return Err(e);
                },
                Ok(resp) => match reset_step(&resp) {
                    ResetStep::Acknowledged => {
                        self.state = ConnectionState::Ready;
                        return Ok(());
                    },
                    ResetStep::Rejected => {
                        self.state = ConnectionState::Failed;
                        return Err(Error::ConnectFailed);
                    },
                    ResetStep::Skipped => {},
                },
            }
            tries = tries + 1;
        }
        self.state = ConnectionState::Failed;
        Err(Error::ConnectFailed)
    }
}

} // verus!
