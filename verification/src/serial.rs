//! Adapters between the engine's byte channels and a physical serial port.
//!
//! The protocol is text-based: every chunk read from the port must be valid
//! text, and a chunk that is not aborts the session.  [`SerialReader`]
//! performs one bounded read per call and appends exactly the bytes that
//! arrived.  Writing retries until every byte is accepted; the retry loop
//! itself has no bound — its termination rests on the device — so the loop
//! runs in the binary crate, while [`write_retry_step`], the rule it follows
//! at every attempt, is verified here.

use vstd::prelude::*;

use crate::search::push_all;

verus! {

#[verifier::external_type_specification]
#[verifier::external_body]
/// A POSIX terminal device, the physical end of the channel.
pub struct ExTTYPort(serialport::TTYPort);

/// What one bounded read yielded.
pub enum ReadOutcome {
    /// This many bytes arrived and were appended to the accumulator.
    Received(usize),
    /// Nothing arrived within the port's timeout; the caller re-polls.
    TimedOut,
    /// A fatal transport error; the session must abort.
    Failed,
    /// Bytes arrived but are not valid text; the session must abort.
    NotText,
}

/// What one write attempt yielded.
pub enum WriteAttempt {
    /// This many bytes were accepted onto the wire.
    Wrote(usize),
    /// Nothing was accepted within the port's timeout; the caller retries.
    TimedOut,
    /// A fatal transport error; the write stops short.
    Failed,
}

/// What the write-to-completion loop does next.
pub enum WriteProgress {
    /// Keep writing, starting at this offset into the buffer.
    Continue(usize),
    /// Every byte was accepted.
    Done,
    /// A fatal error: stop, leaving the write short.
    Abort,
}

/// Whether a byte sequence is valid text.  Validity is a function of the
/// bytes alone; what it amounts to is known only to the decoder relied on
/// below.
pub uninterp spec fn is_text(bytes: Seq<u8>) -> bool;

/// Relies on core::str::from_utf8: whether the bytes decode as text depends
/// on the bytes alone.
#[verifier::external_body]
fn utf8_check(bytes: &[u8]) -> (ok: bool)
    ensures
        ok == is_text(bytes@),
{
    core::str::from_utf8(bytes).is_ok()
}

/// Relies on std::io::Read::read for serialport::TTYPort: a successful read
/// fills a prefix of the buffer with the bytes that arrived and returns
/// their number, at most the buffer's length; an error of kind TimedOut
/// means nothing arrived within the port's timeout.
#[verifier::external_body]
fn port_read(port: &mut serialport::TTYPort, buffer: &mut Vec<u8>) -> (outcome: ReadOutcome)
    ensures
        final(buffer)@.len() == old(buffer)@.len(),
        (outcome matches ReadOutcome::Received(n) ==> n <= final(buffer)@.len()),
        !(outcome matches ReadOutcome::NotText),
{
    match std::io::Read::read(port, buffer.as_mut_slice()) {
        Ok(n) => ReadOutcome::Received(n),
        Err(e) if e.kind() == std::io::ErrorKind::TimedOut => ReadOutcome::TimedOut,
        Err(_) => ReadOutcome::Failed,
    }
}

/// The first `n` bytes of `src`, as a fresh vector.
fn copy_prefix(src: &Vec<u8>, n: usize) -> (prefix: Vec<u8>)
    requires
        n <= src@.len(),
    ensures
        prefix@ == src@.take(n as int),
{
    let mut prefix: Vec<u8> = Vec::new();
    let mut k: usize = 0;
    while k < n
        invariant
            n <= src@.len(),
            k <= n,
            prefix@ == src@.take(k as int),
        decreases n - k,
    {
        prefix.push(src[k]);
        k += 1;
        proof {
            assert(src@.take(k as int) =~= src@.take(k - 1).push(src@[k - 1]));
        }
    }
    prefix
}

/// The receive side of a physical port: one bounded read per call into a
/// scratch buffer of fixed size.
pub struct SerialReader {
    pub serial_buf: Vec<u8>,
}

impl SerialReader {
    /// A reader that reads at most `serial_buf.len()` bytes per call.
    pub fn new(serial_buf: Vec<u8>) -> (reader: SerialReader)
        ensures
            reader.serial_buf == serial_buf,
    {
        SerialReader { serial_buf }
    }

    /// Perform one bounded read and append exactly the bytes that arrived
    /// to `received_data` — a read of `n` bytes appends exactly those `n`
    /// bytes.  A timeout appends nothing and is not an error; a transport
    /// failure or a chunk that is not valid text appends nothing and must
    /// abort the session.
    pub fn read(&mut self, port: &mut serialport::TTYPort, received_data: &mut Vec<u8>) -> (outcome:
        ReadOutcome)
        ensures
            final(self).serial_buf@.len() == old(self).serial_buf@.len(),
            (outcome matches ReadOutcome::Received(n) ==> n <= final(self).serial_buf@.len()
                && final(received_data)@ == old(received_data)@ + final(self).serial_buf@.take(
                n as int,
            ) && is_text(final(self).serial_buf@.take(n as int))),
            (!(outcome matches ReadOutcome::Received(_)) ==> final(received_data)@ == old(
                received_data,
            )@),
    {
        let outcome = port_read(port, &mut self.serial_buf);
        match outcome {
            ReadOutcome::Received(n) => {
                let chunk = copy_prefix(&self.serial_buf, n);
                if utf8_check(chunk.as_slice()) {
                    push_all(received_data, chunk.as_slice());
                    ReadOutcome::Received(n)
                } else {
                    ReadOutcome::NotText
                }
            },
            ReadOutcome::TimedOut => ReadOutcome::TimedOut,
            ReadOutcome::Failed => ReadOutcome::Failed,
            ReadOutcome::NotText => ReadOutcome::NotText,
        }
    }
}

/// The transmit side of a physical port.  The write-to-completion loop runs
/// in the binary crate, one byte per attempt, following [`write_retry_step`].
pub struct SerialWriter {}

impl SerialWriter {
    /// A writer for one session.
    pub fn new() -> (writer: SerialWriter) {
        SerialWriter {  }
    }
}

/// The rule the write-to-completion loop follows after each one-byte write
/// attempt: accepted bytes advance the offset until the buffer is done, a
/// timeout (or a write of zero bytes) retries at the same offset, and a
/// fatal error stops the write short.
pub fn write_retry_step(outcome: WriteAttempt, bytes_written: usize, total: usize) -> (progress:
    WriteProgress)
    requires
        bytes_written <= total,
        (outcome matches WriteAttempt::Wrote(n) ==> bytes_written + n <= total),
    ensures
        (outcome matches WriteAttempt::Wrote(n) ==> (if bytes_written + n < total {
            progress == WriteProgress::Continue((bytes_written + n) as usize)
        } else {
            progress == WriteProgress::Done
        })),
        (outcome is TimedOut ==> progress == WriteProgress::Continue(bytes_written)),
        (outcome is Failed ==> progress == WriteProgress::Abort),
{
    match outcome {
        WriteAttempt::Wrote(n) => {
            if bytes_written + n < total {
                WriteProgress::Continue(bytes_written + n)
            } else {
                WriteProgress::Done
            }
        },
        WriteAttempt::TimedOut => WriteProgress::Continue(bytes_written),
        WriteAttempt::Failed => WriteProgress::Abort,
    }
}

} // verus!
