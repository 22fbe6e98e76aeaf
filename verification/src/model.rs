//! The mathematical model of a programming session.
//!
//! Given the raw lines of the firmware image and the chunks the device will
//! deliver, these functions compute exactly what the engine transmits, how
//! many chunks it consumes, and how many lines it draws from the source —
//! or `None` where the engine would wait forever because the script never
//! produces the token it is waiting for.  The engine's contracts say that
//! its behaviour equals this model.

use vstd::prelude::*;

use crate::records::trim_spec;
use crate::search::contains_seq;
use crate::sentinels::SentinelsSpec;

verus! {

/// What one completed (part of a) session amounts to.
pub struct TransferOut {
    /// The buffers transmitted, in order.
    pub writes: Seq<Seq<u8>>,
    /// How many chunks of the read script were consumed.
    pub chunks_used: nat,
    /// How many lines were drawn from the record source.
    pub lines_used: nat,
}

/// What waiting for one acknowledgment amounts to.
pub struct AckOut {
    /// How many chunks of the read script were consumed.
    pub chunks_used: nat,
    /// How many resend requests arrived before the acknowledgment.
    pub resends: nat,
}

/// How many chunks a wait-for-sentinel loop consumes before `message` shows
/// up in the accumulator, starting from accumulator contents `acc`; `None`
/// when the script runs dry first, in which case the engine polls forever.
pub open spec fn wait_consumed(acc: Seq<u8>, chunks: Seq<Seq<u8>>, message: Seq<u8>) -> Option<nat>
    decreases chunks.len(),
{
    if contains_seq(acc, message) {
        Some(0 as nat)
    } else if chunks.len() == 0 {
        None
    } else {
        match wait_consumed(acc + chunks[0], chunks.drop_first(), message) {
            Some(k) => Some(k + 1),
            None => None,
        }
    }
}

/// What the per-record acknowledgment loop does, reading a chunk at a time:
/// a resend token retransmits the record and clears the accumulator, an
/// acknowledgment token confirms the record, anything else keeps waiting.
/// The resend check comes first: a chunk carrying both tokens means resend.
/// `None` when the script never confirms, in which case the engine waits
/// forever.
pub open spec fn ack_result(acc: Seq<u8>, chunks: Seq<Seq<u8>>, s: SentinelsSpec) -> Option<AckOut>
    decreases chunks.len(),
{
    if chunks.len() == 0 {
        if !contains_seq(acc, s.resend_token) && contains_seq(acc, s.ok_token) {
            Some(AckOut { chunks_used: 0, resends: 0 })
        } else {
            None
        }
    } else {
        let grown = acc + chunks[0];
        if contains_seq(grown, s.resend_token) {
            match ack_result(Seq::empty(), chunks.drop_first(), s) {
                Some(a) => Some(
                    AckOut { chunks_used: a.chunks_used + 1, resends: a.resends + 1 },
                ),
                None => None,
            }
        } else if contains_seq(grown, s.ok_token) {
            Some(AckOut { chunks_used: 1, resends: 0 })
        } else {
            match ack_result(grown, chunks.drop_first(), s) {
                Some(a) => Some(AckOut { chunks_used: a.chunks_used + 1, resends: a.resends }),
                None => None,
            }
        }
    }
}

/// The tail of a session once no record is left to send: a session that
/// transmitted anything waits for the done message; one that transmitted
/// nothing completes at once, consuming nothing.
pub open spec fn finish_phase(
    chunks: Seq<Seq<u8>>,
    programming_message_sent: bool,
    s: SentinelsSpec,
) -> Option<TransferOut> {
    if programming_message_sent {
        match wait_consumed(Seq::empty(), chunks, s.done) {
            Some(k) => Some(TransferOut { writes: Seq::empty(), chunks_used: k, lines_used: 0 }),
            None => None,
        }
    } else {
        Some(TransferOut { writes: Seq::empty(), chunks_used: 0, lines_used: 0 })
    }
}

/// One confirmed record and everything after it: the record is transmitted,
/// retransmitted once per resend request, and confirmed; if it carries the
/// end-of-file marker the transfer stops there, otherwise the remaining
/// lines follow.
pub open spec fn record_phase(
    record: Seq<u8>,
    rest: Seq<Seq<u8>>,
    chunks: Seq<Seq<u8>>,
    s: SentinelsSpec,
) -> Option<TransferOut>
    decreases rest.len(), 1int,
{
    match ack_result(Seq::empty(), chunks, s) {
        None => None,
        Some(a) => {
            let tail = if contains_seq(record, s.eof) {
                finish_phase(chunks.skip(a.chunks_used as int), true, s)
            } else {
                transfer(rest, chunks.skip(a.chunks_used as int), true, s)
            };
            match tail {
                None => None,
                Some(out) => Some(
                    TransferOut {
                        writes: seq![record] + Seq::new(a.resends, |i: int| record) + out.writes,
                        chunks_used: a.chunks_used + out.chunks_used,
                        lines_used: 1 + out.lines_used,
                    },
                ),
            }
        },
    }
}

/// The record-transfer phase over the remaining lines: blank lines are
/// skipped; the first record to be transmitted is preceded by the program
/// instruction and a wait for the programming-started message, exactly once
/// per session.
pub open spec fn transfer(
    lines: Seq<Seq<u8>>,
    chunks: Seq<Seq<u8>>,
    programming_message_sent: bool,
    s: SentinelsSpec,
) -> Option<TransferOut>
    decreases lines.len(), 0int,
{
    if lines.len() == 0 {
        finish_phase(chunks, programming_message_sent, s)
    } else {
        let record = trim_spec(lines[0]);
        if record.len() == 0 {
            match transfer(lines.drop_first(), chunks, programming_message_sent, s) {
                None => None,
                Some(out) => Some(
                    TransferOut {
                        writes: out.writes,
                        chunks_used: out.chunks_used,
                        lines_used: out.lines_used + 1,
                    },
                ),
            }
        } else if programming_message_sent {
            record_phase(record, lines.drop_first(), chunks, s)
        } else {
            match wait_consumed(Seq::empty(), chunks, s.start) {
                None => None,
                Some(k) => match record_phase(record, lines.drop_first(), chunks.skip(k as int), s) {
                    None => None,
                    Some(out) => Some(
                        TransferOut {
                            writes: seq![seq![s.program_instruction]] + out.writes,
                            chunks_used: k + out.chunks_used,
                            lines_used: out.lines_used,
                        },
                    ),
                },
            }
        }
    }
}

/// A whole session: the ready handshake, then the record transfer.
pub open spec fn session(
    lines: Seq<Seq<u8>>,
    chunks: Seq<Seq<u8>>,
    s: SentinelsSpec,
) -> Option<TransferOut> {
    match wait_consumed(Seq::empty(), chunks, s.ready) {
        None => None,
        Some(k) => match transfer(lines, chunks.skip(k as int), false, s) {
            None => None,
            Some(out) => Some(
                TransferOut {
                    writes: out.writes,
                    chunks_used: k + out.chunks_used,
                    lines_used: out.lines_used,
                },
            ),
        },
    }
}

/// `t` with an already-performed prefix put back in front of it.
pub open spec fn shift_transfer(
    pre_writes: Seq<Seq<u8>>,
    pre_chunks: nat,
    pre_lines: nat,
    t: Option<TransferOut>,
) -> Option<TransferOut> {
    match t {
        None => None,
        Some(out) => Some(
            TransferOut {
                writes: pre_writes + out.writes,
                chunks_used: pre_chunks + out.chunks_used,
                lines_used: pre_lines + out.lines_used,
            },
        ),
    }
}

/// A wait never consumes more chunks than the script has.
pub proof fn lemma_wait_consumed_bound(acc: Seq<u8>, chunks: Seq<Seq<u8>>, message: Seq<u8>)
    ensures
        wait_consumed(acc, chunks, message) matches Some(k) ==> k <= chunks.len(),
    decreases chunks.len(),
{
    if !contains_seq(acc, message) && chunks.len() > 0 {
        lemma_wait_consumed_bound(acc + chunks[0], chunks.drop_first(), message);
    }
}

/// An acknowledgment wait never consumes more chunks than the script has.
pub proof fn lemma_ack_result_bound(acc: Seq<u8>, chunks: Seq<Seq<u8>>, s: SentinelsSpec)
    ensures
        ack_result(acc, chunks, s) matches Some(a) ==> a.chunks_used <= chunks.len(),
    decreases chunks.len(),
{
    if chunks.len() > 0 {
        let grown = acc + chunks[0];
        if contains_seq(grown, s.resend_token) {
            lemma_ack_result_bound(Seq::empty(), chunks.drop_first(), s);
        } else if !contains_seq(grown, s.ok_token) {
            lemma_ack_result_bound(grown, chunks.drop_first(), s);
        }
    }
}

/// A transfer never consumes more chunks or lines than there are.
pub proof fn lemma_transfer_bounds(
    lines: Seq<Seq<u8>>,
    chunks: Seq<Seq<u8>>,
    programming_message_sent: bool,
    s: SentinelsSpec,
)
    ensures
        transfer(lines, chunks, programming_message_sent, s) matches Some(out)
            ==> out.chunks_used <= chunks.len() && out.lines_used <= lines.len(),
    decreases lines.len(), 0int,
{
    if lines.len() == 0 {
        lemma_wait_consumed_bound(Seq::empty(), chunks, s.done);
    } else {
        let record = trim_spec(lines[0]);
        if record.len() == 0 {
            lemma_transfer_bounds(lines.drop_first(), chunks, programming_message_sent, s);
        } else if programming_message_sent {
            lemma_record_phase_bounds(record, lines.drop_first(), chunks, s);
        } else {
            lemma_wait_consumed_bound(Seq::empty(), chunks, s.start);
            if let Some(k) = wait_consumed(Seq::empty(), chunks, s.start) {
                lemma_record_phase_bounds(record, lines.drop_first(), chunks.skip(k as int), s);
            }
        }
    }
}

/// A record phase never consumes more chunks than there are, and draws at
/// most one line beyond the rest it was given.
pub proof fn lemma_record_phase_bounds(
    record: Seq<u8>,
    rest: Seq<Seq<u8>>,
    chunks: Seq<Seq<u8>>,
    s: SentinelsSpec,
)
    ensures
        record_phase(record, rest, chunks, s) matches Some(out) ==> out.chunks_used
            <= chunks.len() && out.lines_used <= rest.len() + 1,
    decreases rest.len(), 1int,
{
    lemma_ack_result_bound(Seq::empty(), chunks, s);
    if let Some(a) = ack_result(Seq::empty(), chunks, s) {
        let left = chunks.skip(a.chunks_used as int);
        if contains_seq(record, s.eof) {
            lemma_wait_consumed_bound(Seq::empty(), left, s.done);
        } else {
            lemma_transfer_bounds(rest, left, true, s);
        }
    }
}

} // verus!
