//! The fixed tokens of the programmer's wire protocol.
//!
//! The device signals protocol milestones with literal byte strings; the
//! engine recognises them by substring containment in its receive
//! accumulator.  The tokens live in a configuration structure handed to the
//! engine at construction, so that a device speaking different words can be
//! supported by substitution.

use vstd::prelude::*;

verus! {

/// The token values of one protocol dialect, as mathematical sequences.
pub struct SentinelsSpec {
    /// Emitted by the device once it is ready to talk.
    pub ready: Seq<u8>,
    /// Emitted by the device after the program instruction was received.
    pub start: Seq<u8>,
    /// Emitted by the device once the whole session is finished.
    pub done: Seq<u8>,
    /// A record carrying this marker is the last record of the image.
    pub eof: Seq<u8>,
    /// Acknowledges the record most recently transmitted.
    pub ok_token: Seq<u8>,
    /// Asks for the record most recently transmitted to be sent again.
    pub resend_token: Seq<u8>,
    /// The single instruction byte that opens the transfer phase.
    pub program_instruction: u8,
}

impl SentinelsSpec {
    /// Every token the engine searches for is a non-empty word: an empty
    /// token would be found in an empty accumulator, which makes no sense
    /// for a milestone signal.
    pub open spec fn wf(self) -> bool {
        &&& self.ready.len() > 0
        &&& self.start.len() > 0
        &&& self.done.len() > 0
        &&& self.eof.len() > 0
        &&& self.ok_token.len() > 0
        &&& self.resend_token.len() > 0
    }
}

/// "Programmer ready!", the ready handshake message.
pub open spec fn ready_message_bytes() -> Seq<u8> {
    seq![80, 114, 111, 103, 114, 97, 109, 109, 101, 114, 32, 114, 101, 97, 100, 121, 33]
}

/// "start", sent by the device when programming begins.
pub open spec fn programming_started_bytes() -> Seq<u8> {
    seq![115, 116, 97, 114, 116]
}

/// "done", sent by the device when the session is complete.
pub open spec fn done_message_bytes() -> Seq<u8> {
    seq![100, 111, 110, 101]
}

/// ":00000001FF", the end-of-file record of the hex image format.
pub open spec fn end_of_file_bytes() -> Seq<u8> {
    seq![58, 48, 48, 48, 48, 48, 48, 48, 49, 70, 70]
}

/// "89": the decimal text of the acknowledgment byte (ASCII `Y`):
/// the device spells its acknowledgment out in decimal on the wire.
pub open spec fn ok_token_bytes() -> Seq<u8> {
    seq![56, 57]
}

/// "82": the decimal text of the resend byte (ASCII `R`).
pub open spec fn resend_token_bytes() -> Seq<u8> {
    seq![56, 50]
}

/// ASCII `P`, the instruction byte that asks the device to start programming.
pub open spec fn program_instruction_byte() -> u8 {
    80
}

/// The token values of the standard dialect.
pub open spec fn standard_sentinels() -> SentinelsSpec {
    SentinelsSpec {
        ready: ready_message_bytes(),
        start: programming_started_bytes(),
        done: done_message_bytes(),
        eof: end_of_file_bytes(),
        ok_token: ok_token_bytes(),
        resend_token: resend_token_bytes(),
        program_instruction: program_instruction_byte(),
    }
}

/// The sentinel tokens the engine is constructed with.
pub struct ProtocolSentinels {
    pub ready_message: Vec<u8>,
    pub programming_started_message: Vec<u8>,
    pub done_message: Vec<u8>,
    pub end_of_file: Vec<u8>,
    pub ok_token: Vec<u8>,
    pub resend_token: Vec<u8>,
    pub program_instruction: u8,
}

impl View for ProtocolSentinels {
    type V = SentinelsSpec;

    open spec fn view(&self) -> SentinelsSpec {
        SentinelsSpec {
            ready: self.ready_message@,
            start: self.programming_started_message@,
            done: self.done_message@,
            eof: self.end_of_file@,
            ok_token: self.ok_token@,
            resend_token: self.resend_token@,
            program_instruction: self.program_instruction,
        }
    }
}

impl ProtocolSentinels {
    /// The dialect the stock programmer firmware speaks.
    pub fn standard() -> (s: ProtocolSentinels)
        ensures
            s@ == standard_sentinels(),
            s@.wf(),
    {
        let s = ProtocolSentinels {
            ready_message: vec![
                80, 114, 111, 103, 114, 97, 109, 109, 101, 114, 32, 114, 101,
                97, 100, 121, 33,
            ],
            programming_started_message: vec![115, 116, 97, 114, 116],
            done_message: vec![100, 111, 110, 101],
            end_of_file: vec![
                58, 48, 48, 48, 48, 48, 48, 48, 49, 70, 70,
            ],
            ok_token: vec![56, 57],
            resend_token: vec![56, 50],
            program_instruction: 80,
        };
        proof {
            assert(s@.ready =~= ready_message_bytes());
            assert(s@.start =~= programming_started_bytes());
            assert(s@.done =~= done_message_bytes());
            assert(s@.eof =~= end_of_file_bytes());
            assert(s@.ok_token =~= ok_token_bytes());
            assert(s@.resend_token =~= resend_token_bytes());
            assert(s@ =~= standard_sentinels());
        }
        s
    }
}

} // verus!
