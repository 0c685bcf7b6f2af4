//! A client driver engine for a graph database's binary message protocol.
//!
//! The engine is organised leaf-first: big-endian integer fields (`ints`),
//! the typed value codec (`value`, `codec`), the message framer (`frame`),
//! and the protocol messages (`message`); on top of them the connection,
//! pool, stream and transaction state machines (`conn`, `pool`, `stream`,
//! `graph`, `txn`), the request and record types (`query`, `row`), and the
//! `Execute` capability (`execute`) that covers running queries both
//! outside and inside a transaction. `transport` is the byte-link
//! interface an application implements over its socket; `codegen` is the
//! classification shared with the derive-based convenience layer.
//!
//! The codec and the framer are proved to be inverses on every
//! representable value and message (`codec::lemma_dec_enc`,
//! `frame::lemma_unframe_frame`); the pool's lease accounting law and the
//! connections' single-flight discipline are stated on the state machines
//! themselves.

pub mod errors;
pub mod ints;
pub mod value;
pub mod codec;
pub mod frame;
pub mod message;
pub mod query;
pub mod row;
pub mod transport;
pub mod conn;
pub mod pool;
pub mod stream;
pub mod graph;
pub mod txn;
pub mod execute;
pub mod codegen;
