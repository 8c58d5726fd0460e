//! The abstract byte sink the renderer writes into: an ordered, append-only
//! destination that may fail. A plain in-memory buffer implements it, and so
//! does the streaming rewriter, which is how the pipeline stages compose.

use vstd::prelude::*;

use crate::MarkflowError;
use vstd::string::StringSliceAdditionalSpecFns;

verus! {

/// An abstract "write bytes, possibly failing" capability. `contents` is the
/// sequence of bytes accepted so far; a successful write appends exactly the
/// written chunk's UTF-8 bytes.
pub trait ByteSink: Sized {
    /// Whether the sink is in a usable state.
    spec fn wf(&self) -> bool;

    /// The bytes the sink has accepted so far.
    spec fn contents(&self) -> Seq<u8>;

    /// Sink-specific configuration and forwarding state that writes leave
    /// unchanged: what the destination initially held, what has been drained
    /// onwards, and the sink's option flag.
    spec fn setup(&self) -> (Seq<u8>, Seq<u8>, bool);

    /// Whether this sink's writes can never fail; an in-memory buffer can
    /// promise that, a sink backed by an external engine cannot.
    spec fn infallible(&self) -> bool;

    /// Writes one UTF-8 chunk; on success the chunk's bytes are appended to
    /// the accepted contents and the setup is unchanged. An infallible sink
    /// always succeeds; a failed write accepts nothing, and its error is an
    /// I/O error.
    fn write_str_chunk(&mut self, chunk: &str) -> (r: Result<(), MarkflowError>)
        requires
            old(self).wf(),
        ensures
            match r {
                Ok(()) => final(self).wf() && final(self).contents() == old(self).contents()
                    + chunk.spec_bytes() && final(self).setup() == old(self).setup()
                    && final(self).infallible() == old(self).infallible(),
                Err(e) => {
                    &&& !old(self).infallible()
                    &&& e is IoError
                    &&& final(self).contents() == old(self).contents()
                    &&& final(self).setup() == old(self).setup()
                    &&& final(self).infallible() == old(self).infallible()
                },
            },
    ;
}

/// An in-memory sink: a growable byte buffer that never fails.
pub struct BufferSink {
    bytes: Vec<u8>,
}

impl BufferSink {
    /// An empty buffer.
    pub fn new() -> (r: BufferSink)
        ensures
            r.wf(),
            r.contents() == Seq::<u8>::empty(),
    {
        BufferSink { bytes: Vec::new() }
    }

    /// Hands back the accepted bytes.
    pub fn into_bytes(self) -> (r: Vec<u8>)
        ensures
            r@ == self.contents(),
    {
        self.bytes
    }

    /// Drains the accepted bytes, leaving the buffer empty: callers that
    /// forward output chunk by chunk take each chunk out between writes.
    pub fn take_bytes(&mut self) -> (r: Vec<u8>)
        ensures
            r@ == old(self).contents(),
            final(self).wf(),
            final(self).contents() == Seq::<u8>::empty(),
    {
        let mut drained: Vec<u8> = Vec::new();
        core::mem::swap(&mut drained, &mut self.bytes);
        drained
    }
}

impl ByteSink for BufferSink {
    closed spec fn wf(&self) -> bool {
        true
    }

    closed spec fn contents(&self) -> Seq<u8> {
        self.bytes@
    }

    open spec fn setup(&self) -> (Seq<u8>, Seq<u8>, bool) {
        (Seq::empty(), Seq::empty(), true)
    }

    open spec fn infallible(&self) -> bool {
        true
    }

    fn write_str_chunk(&mut self, chunk: &str) -> (r: Result<(), MarkflowError>)
        ensures
            match r {
                Ok(()) => final(self).wf() && final(self).contents() == old(self).contents()
                    + chunk.spec_bytes() && final(self).setup() == old(self).setup()
                    && final(self).infallible() == old(self).infallible(),
                Err(e) => {
                    &&& !old(self).infallible()
                    &&& e is IoError
                    &&& final(self).contents() == old(self).contents()
                    &&& final(self).setup() == old(self).setup()
                    &&& final(self).infallible() == old(self).infallible()
                },
            },
    {
        let bytes = chunk.as_bytes();
        let mut i: usize = 0;
        while i < bytes.len()
            invariant
                i <= bytes@.len(),
                bytes@ == chunk.spec_bytes(),
                self.bytes@ == old(self).bytes@ + bytes@.subrange(0, i as int),
            decreases bytes@.len() - i,
        {
            self.bytes.push(bytes[i]);
            assert(self.bytes@ =~= old(self).bytes@ + bytes@.subrange(0, i as int + 1));
            i = i + 1;
        }
        proof {
            assert(bytes@.subrange(0, bytes@.len() as int) =~= bytes@);
        }
        Ok(())
    }
}

} // verus!
