//! The byte-channel capabilities the engine runs against.
//!
//! The engine never touches a device directly: it reads chunks through
//! [`ReadSerial`] and transmits buffers through [`WriteSerial`].  A reader is
//! modelled by the sequence of chunks it will still deliver (`pending`); an
//! empty chunk stands for a read that timed out and yielded nothing, and a
//! reader whose script is exhausted keeps yielding nothing, the way a silent
//! device does.  A writer is modelled by the log of buffers transmitted so
//! far (`written`).
//!
//! [`ScriptReader`] and [`RecordingWriter`] are verified in-memory
//! implementations, used for deterministic sessions without a device; a
//! production implementation wraps a serial port and satisfies the same
//! contracts by construction (a real read appends exactly the bytes that
//! arrived, a real write transmits exactly the buffer it was given).

use vstd::prelude::*;

use crate::records::views_of;
use crate::search::copy_bytes;
use crate::search::push_all;

verus! {

/// A duplex channel's receive side: one bounded read per call.
pub trait ReadSerial {
    /// The chunks this reader will deliver next, in order.  An
    /// implementation living outside the verifier leaves this at its
    /// default: whatever the device will send, unspecified here.
    open spec fn pending(&self) -> Seq<Seq<u8>> {
        arbitrary()
    }

    /// Perform one read and append whatever arrived to `received_data`.
    ///
    /// A read never loses bytes: the accumulator grows by exactly the next
    /// pending chunk, or not at all once the reader has nothing left.
    fn read(&mut self, received_data: &mut Vec<u8>)
        ensures
            (old(self).pending().len() > 0 ==> final(self).pending() == old(
                self,
            ).pending().drop_first() && final(received_data)@ == old(received_data)@ + old(
                self,
            ).pending()[0]),
            (old(self).pending().len() == 0 ==> final(self).pending() == old(self).pending()
                && final(received_data)@ == old(received_data)@),
    ;
}

/// A duplex channel's transmit side.
pub trait WriteSerial {
    /// The buffers transmitted so far, in order.  An implementation living
    /// outside the verifier leaves this at its default: an unspecified
    /// history.
    open spec fn written(&self) -> Seq<Seq<u8>> {
        arbitrary()
    }

    /// Transmit `buffer` in full.
    fn write(&mut self, buffer: &[u8])
        ensures
            final(self).written() == old(self).written().push(buffer@),
    ;
}

/// A reader that delivers a fixed script of chunks, one per read.
pub struct ScriptReader {
    pub chunks: Vec<Vec<u8>>,
    pub cursor: usize,
}

impl ScriptReader {
    /// A reader that will deliver every chunk of `chunks`, front to back.
    pub fn new(chunks: Vec<Vec<u8>>) -> (reader: ScriptReader)
        ensures
            reader.pending() == views_of(chunks@),
    {
        ScriptReader { chunks, cursor: 0 }
    }
}

impl ReadSerial for ScriptReader {
    open spec fn pending(&self) -> Seq<Seq<u8>> {
        if self.cursor as int <= self.chunks@.len() {
            views_of(self.chunks@).skip(self.cursor as int)
        } else {
            Seq::empty()
        }
    }

    fn read(&mut self, received_data: &mut Vec<u8>) {
        if self.cursor < self.chunks.len() {
            push_all(received_data, self.chunks[self.cursor].as_slice());
            self.cursor = self.cursor + 1;
            proof {
                assert(views_of(old(self).chunks@).skip(old(self).cursor as int).drop_first()
                    =~= views_of(self.chunks@).skip(self.cursor as int));
            }
        }
    }
}

/// A writer that keeps every transmitted buffer, in order.
pub struct RecordingWriter {
    pub data: Vec<Vec<u8>>,
}

impl RecordingWriter {
    /// A writer that has transmitted nothing yet.
    pub fn new() -> (writer: RecordingWriter)
        ensures
            writer.written() == Seq::<Seq<u8>>::empty(),
    {
        let writer = RecordingWriter { data: Vec::new() };
        proof {
            assert(writer.written() =~= Seq::<Seq<u8>>::empty());
        }
        writer
    }
}

impl WriteSerial for RecordingWriter {
    open spec fn written(&self) -> Seq<Seq<u8>> {
        views_of(self.data@)
    }

    fn write(&mut self, buffer: &[u8]) {
        let copy = copy_bytes(buffer);
        self.data.push(copy);
        proof {
            assert(views_of(self.data@) =~= views_of(old(self).data@).push(buffer@));
        }
    }
}

} // verus!
