//! The message framer: messages travel as length-prefixed chunks.
//!
//! A message is split into chunks of at most 65535 bytes, each preceded by
//! a 2-byte big-endian length, and ends with a zero-length chunk.
//! [`lemma_unframe_frame`] proves that reassembly inverts chunking for
//! every message and every chunk capacity; because the reassembler's state
//! is only the bytes received so far, the result is the same however the
//! stream is split across reads.

use vstd::prelude::*;
use crate::ints::{be_bytes, from_be, lemma_be_bytes_len, lemma_from_be_be_bytes,
    lemma_pow256_values, push_be, read_be};
use crate::errors::FrameError;

verus! {

/// The chunked form of message `m` with chunk capacity `cap`.
pub open spec fn frame_bytes(m: Seq<u8>, cap: nat) -> Seq<u8>
    recommends
        1 <= cap <= 0xFFFF,
    decreases m.len(),
{
    if m.len() == 0 || cap == 0 {
        seq![0u8, 0u8]
    } else {
        let take = if m.len() <= cap {
            m.len()
        } else {
            cap
        };
        be_bytes(take, 2) + m.take(take as int) + frame_bytes(m.skip(take as int), cap)
    }
}

/// Reassembles one message from a chunk stream; yields the message and the
/// unconsumed remainder, or nothing if the stream is short or malformed.
pub open spec fn unframe_bytes(s: Seq<u8>) -> Option<(Seq<u8>, Seq<u8>)>
    decreases s.len(),
{
    if s.len() < 2 {
        None
    } else {
        let n = from_be(s.take(2));
        if n == 0 {
            Some((Seq::empty(), s.skip(2)))
        } else if s.len() >= 2 + n {
            match unframe_bytes(s.skip((2 + n) as int)) {
                None => None,
                Some((msg, rest)) => Some((s.subrange(2, (2 + n) as int) + msg, rest)),
            }
        } else {
            None
        }
    }
}

/// Chunking round trip: reassembling a framed message yields the message,
/// for every chunk capacity and whatever bytes follow the terminator.
pub proof fn lemma_unframe_frame(m: Seq<u8>, cap: nat, rest: Seq<u8>)
    requires
        1 <= cap <= 0xFFFF,
    ensures
        unframe_bytes(frame_bytes(m, cap) + rest) == Some((m, rest)),
    decreases m.len(),
{
    lemma_pow256_values();
    if m.len() == 0 {
        let s = frame_bytes(m, cap) + rest;
        assert(s.take(2) =~= seq![0u8, 0u8]);
        assert(from_be(seq![0u8, 0u8]) == 0) by {
            reveal_with_fuel(from_be, 3);
            assert(seq![0u8, 0u8].drop_last() =~= seq![0u8]);
            assert(seq![0u8].drop_last() =~= Seq::<u8>::empty());
        }
        assert(s.skip(2) =~= rest);
        assert(m =~= Seq::<u8>::empty());
    } else {
        let take = if m.len() <= cap {
            m.len()
        } else {
            cap
        };
        let tail = m.take(take as int) + frame_bytes(m.skip(take as int), cap) + rest;
        let s = frame_bytes(m, cap) + rest;
        assert(s =~= be_bytes(take, 2) + tail);
        lemma_be_bytes_len(take, 2);
        lemma_from_be_be_bytes(take, 2);
        assert(s.take(2) =~= be_bytes(take, 2));
        assert(from_be(s.take(2)) == take);
        assert(s.len() >= 2 + take);
        assert(s.subrange(2, (2 + take) as int) =~= m.take(take as int));
        assert(s.skip((2 + take) as int) =~= frame_bytes(m.skip(take as int), cap) + rest);
        lemma_unframe_frame(m.skip(take as int), cap, rest);
        assert(m.take(take as int) + m.skip(take as int) =~= m);
    }
}

/// Appends the chunked form of `msg[pos..]`.
fn frame_from(msg: &Vec<u8>, pos: usize, cap: usize, out: &mut Vec<u8>)
    requires
        1 <= cap <= 0xFFFF,
        pos <= msg@.len(),
    ensures
        final(out)@ == old(out)@ + frame_bytes(msg@.skip(pos as int), cap as nat),
    decreases msg@.len() - pos,
{
    let ghost m = msg@.skip(pos as int);
    if pos == msg.len() {
        out.push(0);
        out.push(0);
        assert(out@ =~= old(out)@ + frame_bytes(m, cap as nat));
    } else {
        let remaining = msg.len() - pos;
        let take: usize = if remaining <= cap {
            remaining
        } else {
            cap
        };
        push_be(out, take as u64, 2);
        let mut i: usize = 0;
        let ghost mid = out@;
        while i < take
            invariant
                i <= take,
                pos + take <= msg@.len(),
                msg@.len() <= usize::MAX,
                out@ == mid + msg@.subrange(pos as int, pos + i),
            decreases take - i,
        {
            out.push(msg[pos + i]);
            assert(out@ =~= mid + msg@.subrange(pos as int, pos + i + 1));
            i = i + 1;
        }
        frame_from(msg, pos + take, cap, out);
        proof {
            assert(msg@.subrange(pos as int, pos + take) =~= m.take(take as int));
            assert(msg@.skip(pos + take) =~= m.skip(take as int));
            assert(out@ =~= old(out)@ + frame_bytes(m, cap as nat));
        }
    }
}

/// The default chunk capacity: the largest payload one chunk can carry.
pub const DEFAULT_CHUNK_CAPACITY: usize = 0xFFFF;

/// Chunks a message: length-prefixed chunks of at most `cap` bytes,
/// terminated by a zero-length chunk.
pub fn frame_message(msg: &Vec<u8>, cap: usize) -> (r: Vec<u8>)
    requires
        1 <= cap <= 0xFFFF,
    ensures
        r@ == frame_bytes(msg@, cap as nat),
{
    let mut out: Vec<u8> = Vec::new();
    frame_from(msg, 0, cap, &mut out);
    proof {
        assert(msg@.skip(0) =~= msg@);
        assert(out@ =~= frame_bytes(msg@, cap as nat));
    }
    out
}

/// Reassembles one message starting at `pos` of a complete byte stream.
/// Each failure is its own error: a chunk whose length prefix promises
/// more bytes than remain is `Truncated`, and a stream that ends before
/// a length prefix or the zero-length terminator is `Unterminated`.
pub fn unframe_message(buf: &Vec<u8>, pos: usize) -> (r: Result<(Vec<u8>, usize), FrameError>)
    requires
        pos <= buf@.len(),
    ensures
        match r {
            Ok((msg, end)) => pos <= end <= buf@.len()
                && unframe_bytes(buf@.skip(pos as int)) == Some((msg@, buf@.skip(end as int))),
            Err(_) => unframe_bytes(buf@.skip(pos as int)) is None,
        },
        buf@.len() - pos < 2 ==> (r matches Err(e) && e == FrameError::Unterminated),
        ({
            let s = buf@.skip(pos as int);
            s.len() >= 2 && from_be(s.take(2)) > 0 && s.len() < 2 + from_be(s.take(2))
        }) ==> (r matches Err(e) && e == FrameError::Truncated),
    decreases buf@.len() - pos,
{
    let ghost s = buf@.skip(pos as int);
    if buf.len() - pos < 2 {
        return Err(FrameError::Unterminated);
    }
    let n = read_be(buf, pos, 2);
    proof {
        assert(s.take(2) =~= buf@.subrange(pos as int, pos + 2));
        crate::ints::lemma_from_be_bound(s.take(2));
        lemma_pow256_values();
    }
    if n == 0 {
        let msg: Vec<u8> = Vec::new();
        assert(s.skip(2) =~= buf@.skip(pos + 2));
        assert(msg@ =~= Seq::<u8>::empty());
        return Ok((msg, pos + 2));
    }
    let nn = n as usize;
    if buf.len() - (pos + 2) < nn {
        assert(s.len() < 2 + n);
        return Err(FrameError::Truncated);
    }
    let mut chunk = crate::codec::copy_range(buf, pos + 2, pos + 2 + nn);
    assert(s.skip(2 + n as int) =~= buf@.skip(pos + 2 + nn));
    match unframe_message(buf, pos + 2 + nn) {
        Err(e) => Err(e),
        Ok((tail_msg, end)) => {
            let ghost chunk0 = chunk@;
            let mut tm = tail_msg;
            chunk.append(&mut tm);
            proof {
                assert(s.subrange(2, 2 + n as int) =~= chunk0);
                assert(chunk@ =~= s.subrange(2, 2 + n as int) + tail_msg@);
            }
            Ok((chunk, end))
        },
    }
}

/// Reassembles messages from a stream delivered in arbitrary pieces.
///
/// The state is exactly the bytes received and not yet consumed, so the
/// messages produced depend only on the concatenation of what was fed,
/// never on how reads split it.
pub struct Unframer {
    /// Received bytes not yet consumed by a complete message.
    pub pending: Vec<u8>,
}

impl Unframer {
    pub fn new() -> (r: Unframer)
        ensures
            r.pending@ == Seq::<u8>::empty(),
    {
        Unframer { pending: Vec::new() }
    }

    /// Accepts the next piece of the stream, however small.
    pub fn feed(&mut self, data: &[u8])
        ensures
            final(self).pending@ == old(self).pending@ + data@,
    {
        crate::codec::push_slice(&mut self.pending, data);
    }

    /// Takes one complete message off the front of the pending bytes, or
    /// reports that more of the stream is needed.
    pub fn take_message(&mut self) -> (r: Option<Vec<u8>>)
        ensures
            match r {
                Some(msg) => unframe_bytes(old(self).pending@)
                    == Some((msg@, final(self).pending@)),
                None => unframe_bytes(old(self).pending@) is None
                    && final(self).pending@ == old(self).pending@,
            },
    {
        proof {
            assert(self.pending@.skip(0) =~= self.pending@);
        }
        match unframe_message(&self.pending, 0) {
            Err(_) => None,
            Ok((msg, end)) => {
                let rest = crate::codec::copy_range(&self.pending, end, self.pending.len());
                proof {
                    assert(rest@ =~= self.pending@.skip(end as int));
                }
                self.pending = rest;
                Some(msg)
            },
        }
    }
}

} // verus!
