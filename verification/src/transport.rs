//! The byte transport a connection runs over.
//!
//! The driver promises nothing about what a transport returns: every byte
//! received is validated by the framer and the codec, and the engine's
//! contracts hold whatever comes back. Applications implement [`Transport`]
//! over their socket of choice; [`ScriptTransport`] is a pure in-memory
//! transport for driving the engine against a scripted exchange.

use vstd::prelude::*;

verus! {

/// One byte link to a server. An error from either method means the link
/// failed; the connection that owns it is then discarded, never repaired.
pub trait Transport {
    /// Sends bytes.
    fn send(&mut self, data: &Vec<u8>) -> Result<(), ()>;

    /// Receives the next piece of the stream, of whatever size the link
    /// delivers.
    fn recv(&mut self) -> Result<Vec<u8>, ()>;
}

/// A pure transport: delivers a scripted list of reads and records what
/// was sent. Reads are delivered from the back of `incoming`, so scripts
/// are pushed in reverse delivery order or built with [`ScriptTransport::new`].
pub struct ScriptTransport {
    /// Everything sent, in order.
    pub sent: Vec<u8>,
    /// Pending reads; the next read is the last element.
    pub incoming: Vec<Vec<u8>>,
}

impl ScriptTransport {
    /// A transport that will deliver `reads` in order.
    pub fn new(reads: Vec<Vec<u8>>) -> (t: ScriptTransport)
        ensures
            t.incoming@ == reads@.reverse(),
            t.sent@ == Seq::<u8>::empty(),
    {
        let mut reads = reads;
        let mut incoming: Vec<Vec<u8>> = Vec::new();
        let ghost orig = reads@;
        while reads.len() > 0
            invariant
                orig.len() >= reads@.len(),
                reads@ == orig.take(reads@.len() as int),
                incoming@ == orig.skip(reads@.len() as int).reverse(),
            decreases reads@.len(),
        {
            let x = reads.pop().unwrap();
            incoming.push(x);
            proof {
                assert(reads@ =~= orig.take(reads@.len() as int));
                assert(incoming@ =~= orig.skip(reads@.len() as int).reverse());
            }
        }
        proof {
            assert(orig.skip(0) =~= orig);
        }
        ScriptTransport { sent: Vec::new(), incoming }
    }
}

impl Transport for ScriptTransport {
    fn send(&mut self, data: &Vec<u8>) -> Result<(), ()> {
        crate::codec::push_slice(&mut self.sent, data.as_slice());
        Ok(())
    }

    fn recv(&mut self) -> Result<Vec<u8>, ()> {
        match self.incoming.pop() {
            Some(chunk) => Ok(chunk),
            None => Err(()),
        }
    }
}

} // verus!
