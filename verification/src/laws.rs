//! Laws of the protocol model.
//!
//! The engine's contracts say its behaviour equals the model in
//! [`crate::model`]; the lemmas here state what that model — and therefore
//! the engine — guarantees.

use vstd::prelude::*;

use crate::model::AckOut;
use crate::model::TransferOut;
use crate::model::ack_result;
use crate::model::record_phase;
use crate::model::session;
use crate::model::shift_transfer;
use crate::model::transfer;
use crate::model::wait_consumed;
use crate::records::is_blank;
use crate::records::trim_spec;
use crate::search::concat_all;
use crate::search::contains_seq;
use crate::sentinels::SentinelsSpec;

verus! {

/// Leading blank lines are skipped without transmitting a byte or touching
/// the channel: the transfer of `lines` is the transfer of what follows the
/// blank prefix, which merely drew those lines from the source.
pub proof fn lemma_transfer_blank_prefix(
    lines: Seq<Seq<u8>>,
    chunks: Seq<Seq<u8>>,
    programming_message_sent: bool,
    s: SentinelsSpec,
    blanks: int,
)
    requires
        0 <= blanks <= lines.len(),
        forall|j: int| 0 <= j < blanks ==> is_blank(#[trigger] lines[j]),
    ensures
        transfer(lines, chunks, programming_message_sent, s) == shift_transfer(
            Seq::empty(),
            0,
            blanks as nat,
            transfer(lines.skip(blanks), chunks, programming_message_sent, s),
        ),
    decreases blanks,
{
    if blanks == 0 {
        assert(lines.skip(0) =~= lines);
        let t = transfer(lines, chunks, programming_message_sent, s);
        if let Some(out) = t {
            assert(Seq::empty() + out.writes =~= out.writes);
        }
    } else {
        assert(is_blank(lines[0]));
        lemma_transfer_blank_prefix(
            lines.drop_first(),
            chunks,
            programming_message_sent,
            s,
            blanks - 1,
        );
        assert(lines.drop_first().skip(blanks - 1) =~= lines.skip(blanks));
        if let Some(out) = transfer(lines.drop_first(), chunks, programming_message_sent, s) {
            assert(Seq::empty() + out.writes =~= out.writes);
        }
        if let Some(out) = transfer(lines.skip(blanks), chunks, programming_message_sent, s) {
            assert(Seq::empty() + out.writes =~= out.writes);
        }
    }
}

/// A record sequence of blank lines only transmits nothing: no program
/// instruction is sent and no done wait is entered — after the ready
/// handshake the session completes at once, consuming no further chunks.
pub proof fn lemma_blank_lines_transmit_nothing(
    lines: Seq<Seq<u8>>,
    chunks: Seq<Seq<u8>>,
    s: SentinelsSpec,
)
    requires
        forall|j: int| 0 <= j < lines.len() ==> is_blank(#[trigger] lines[j]),
        wait_consumed(Seq::empty(), chunks, s.ready) is Some,
    ensures
        ({
            let ready_chunks = wait_consumed(Seq::empty(), chunks, s.ready)->0;
            session(lines, chunks, s) == Some(
                TransferOut {
                    writes: Seq::empty(),
                    chunks_used: ready_chunks,
                    lines_used: lines.len() as nat,
                },
            )
        }),
{
    let ready_chunks = wait_consumed(Seq::empty(), chunks, s.ready)->0;
    let after = chunks.skip(ready_chunks as int);
    lemma_transfer_blank_prefix(lines, after, false, s, lines.len() as int);
    assert(lines.skip(lines.len() as int) =~= Seq::<Seq<u8>>::empty());
    assert(transfer(lines, after, false, s) == Some(
        TransferOut { writes: Seq::empty(), chunks_used: 0, lines_used: lines.len() as nat },
    ));
}

/// A sentinel delivered in arbitrarily split chunks is still detected: as
/// long as the bytes received so far and the bytes still to come hold the
/// message between them, the wait returns, within the chunks there are.
pub proof fn lemma_wait_detects_split_message(
    acc: Seq<u8>,
    chunks: Seq<Seq<u8>>,
    message: Seq<u8>,
)
    requires
        contains_seq(acc + concat_all(chunks), message),
    ensures
        wait_consumed(acc, chunks, message) matches Some(k) && k <= chunks.len(),
    decreases chunks.len(),
{
    if contains_seq(acc, message) {
    } else if chunks.len() == 0 {
        assert(acc + concat_all(chunks) =~= acc);
    } else {
        assert((acc + chunks[0]) + concat_all(chunks.drop_first()) =~= acc + concat_all(chunks));
        lemma_wait_detects_split_message(acc + chunks[0], chunks.drop_first(), message);
    }
}

/// A message delivered whole across any chunk boundaries — the reads
/// carrying nothing but the message's own fragments, in order — is
/// detected as one logical message, within the chunks there are.
pub proof fn lemma_split_delivery_is_detected(chunks: Seq<Seq<u8>>, message: Seq<u8>)
    requires
        concat_all(chunks) == message,
    ensures
        wait_consumed(Seq::empty(), chunks, message) matches Some(k) && k <= chunks.len(),
{
    crate::search::lemma_contains_embedded(Seq::empty(), message, Seq::empty());
    assert(Seq::empty() + concat_all(chunks) =~= Seq::empty() + message + Seq::empty());
    lemma_wait_detects_split_message(Seq::empty(), chunks, message);
}

/// Every sequence contains itself.
pub proof fn lemma_contains_self(token: Seq<u8>)
    ensures
        contains_seq(token, token),
{
    assert(token.subrange(0, 0 + token.len() as int) =~= token);
}

/// A script of `resend_signals` resend tokens followed by one acknowledgment
/// token confirms the record after exactly `1 + resend_signals`
/// transmissions: the acknowledgment wait reports one resend per signal.
pub proof fn lemma_resend_signals_counted(
    resend_signals: nat,
    chunks: Seq<Seq<u8>>,
    s: SentinelsSpec,
)
    requires
        chunks.len() == resend_signals + 1,
        forall|i: int| 0 <= i < resend_signals ==> #[trigger] chunks[i] == s.resend_token,
        chunks[resend_signals as int] == s.ok_token,
        !contains_seq(s.ok_token, s.resend_token),
    ensures
        ack_result(Seq::empty(), chunks, s) == Some(
            AckOut { chunks_used: resend_signals + 1, resends: resend_signals },
        ),
    decreases resend_signals,
{
    if resend_signals == 0 {
        assert(Seq::empty() + chunks[0] =~= s.ok_token);
        lemma_contains_self(s.ok_token);
    } else {
        assert(chunks[0] == s.resend_token);
        assert(Seq::empty() + chunks[0] =~= s.resend_token);
        lemma_contains_self(s.resend_token);
        let rest = chunks.drop_first();
        assert forall|i: int| 0 <= i < resend_signals - 1 implies #[trigger] rest[i]
            == s.resend_token by {
            assert(rest[i] == chunks[i + 1]);
        }
        assert(rest[resend_signals - 1] == chunks[resend_signals as int]);
        lemma_resend_signals_counted((resend_signals - 1) as nat, rest, s);
    }
}

/// However the acknowledgment wait went, the record phase transmits the
/// record exactly `1 + resends` times before anything else: once up front,
/// and once more per resend request.
pub proof fn lemma_record_transmissions(
    record: Seq<u8>,
    rest: Seq<Seq<u8>>,
    chunks: Seq<Seq<u8>>,
    s: SentinelsSpec,
)
    requires
        record_phase(record, rest, chunks, s) is Some,
    ensures
        ({
            let a = ack_result(Seq::empty(), chunks, s);
            let out = record_phase(record, rest, chunks, s);
            &&& a is Some
            &&& out->0.writes.take(1 + a->0.resends as int) =~= Seq::new(
                (1 + a->0.resends) as nat,
                |i: int| record,
            )
        }),
{
}

/// A record sequence whose only record up to and including the end-of-file
/// marker is that marker itself produces exactly two transmissions, in
/// order: the program instruction, then the end-of-file record; the session
/// then waits for and consumes the done message.  Lines after the marker,
/// whatever they hold, are never read.
pub proof fn lemma_only_eof_record(
    lines: Seq<Seq<u8>>,
    chunks: Seq<Seq<u8>>,
    s: SentinelsSpec,
    eof_at: int,
    start_chunks: nat,
    ack: AckOut,
)
    requires
        s.wf(),
        0 <= eof_at < lines.len(),
        forall|j: int| 0 <= j < eof_at ==> is_blank(#[trigger] lines[j]),
        trim_spec(lines[eof_at]) == s.eof,
        wait_consumed(Seq::empty(), chunks, s.start) == Some(start_chunks),
        ack_result(Seq::empty(), chunks.skip(start_chunks as int), s) == Some(ack),
        ack.resends == 0,
        wait_consumed(
            Seq::empty(),
            chunks.skip(start_chunks + ack.chunks_used as int),
            s.done,
        ) is Some,
    ensures
        ({
            let done_chunks = wait_consumed(
                Seq::empty(),
                chunks.skip(start_chunks + ack.chunks_used as int),
                s.done,
            )->0;
            transfer(lines, chunks, false, s) == Some(
                TransferOut {
                    writes: seq![seq![s.program_instruction], s.eof],
                    chunks_used: start_chunks + ack.chunks_used + done_chunks,
                    lines_used: (eof_at + 1) as nat,
                },
            )
        }),
{
    lemma_transfer_blank_prefix(lines, chunks, false, s, eof_at);
    let rest = lines.skip(eof_at);
    assert(rest[0] == lines[eof_at]);
    let rec = trim_spec(rest[0]);
    lemma_contains_self(s.eof);
    crate::model::lemma_wait_consumed_bound(Seq::empty(), chunks, s.start);
    let after_start = chunks.skip(start_chunks as int);
    crate::model::lemma_ack_result_bound(Seq::empty(), after_start, s);
    let after_ack = after_start.skip(ack.chunks_used as int);
    assert(after_ack =~= chunks.skip(start_chunks + ack.chunks_used as int));
    let done_chunks = wait_consumed(Seq::empty(), after_ack, s.done)->0;
    assert(seq![rec] + Seq::new(0, |i: int| rec) + Seq::<Seq<u8>>::empty() =~= seq![rec]);
    assert(record_phase(rec, rest.drop_first(), after_start, s) == Some(
        TransferOut {
            writes: seq![rec],
            chunks_used: ack.chunks_used + done_chunks,
            lines_used: 1,
        },
    ));
    assert(seq![seq![s.program_instruction]] + seq![rec] =~= seq![
        seq![s.program_instruction],
        rec,
    ]);
    assert(transfer(rest, chunks, false, s) == Some(
        TransferOut {
            writes: seq![seq![s.program_instruction], rec],
            chunks_used: start_chunks + ack.chunks_used + done_chunks,
            lines_used: 1,
        },
    ));
    assert(Seq::<Seq<u8>>::empty() + seq![seq![s.program_instruction], rec] =~= seq![
        seq![s.program_instruction],
        rec,
    ]);
}

/// Records `A`, `B`, end-of-file, each acknowledged without a resend
/// request, are transmitted exactly once each, in order, preceded by the
/// program instruction and followed by the wait that consumes the done
/// message.
pub proof fn lemma_clean_session_writes(
    line_a: Seq<u8>,
    line_b: Seq<u8>,
    line_e: Seq<u8>,
    chunks: Seq<Seq<u8>>,
    s: SentinelsSpec,
    start_chunks: nat,
    ack_a: AckOut,
    ack_b: AckOut,
    ack_e: AckOut,
)
    requires
        s.wf(),
        trim_spec(line_a).len() > 0,
        !contains_seq(trim_spec(line_a), s.eof),
        trim_spec(line_b).len() > 0,
        !contains_seq(trim_spec(line_b), s.eof),
        contains_seq(trim_spec(line_e), s.eof),
        wait_consumed(Seq::empty(), chunks, s.start) == Some(start_chunks),
        ack_result(Seq::empty(), chunks.skip(start_chunks as int), s) == Some(ack_a),
        ack_a.resends == 0,
        ack_result(
            Seq::empty(),
            chunks.skip(start_chunks + ack_a.chunks_used as int),
            s,
        ) == Some(ack_b),
        ack_b.resends == 0,
        ack_result(
            Seq::empty(),
            chunks.skip(start_chunks + ack_a.chunks_used + ack_b.chunks_used as int),
            s,
        ) == Some(ack_e),
        ack_e.resends == 0,
        wait_consumed(
            Seq::empty(),
            chunks.skip(
                start_chunks + ack_a.chunks_used + ack_b.chunks_used + ack_e.chunks_used as int,
            ),
            s.done,
        ) is Some,
    ensures
        ({
            let done_chunks = wait_consumed(
                Seq::empty(),
                chunks.skip(
                    start_chunks + ack_a.chunks_used + ack_b.chunks_used
                        + ack_e.chunks_used as int,
                ),
                s.done,
            )->0;
            transfer(seq![line_a, line_b, line_e], chunks, false, s) == Some(
                TransferOut {
                    writes: seq![
                        seq![s.program_instruction],
                        trim_spec(line_a),
                        trim_spec(line_b),
                        trim_spec(line_e),
                    ],
                    chunks_used: start_chunks + ack_a.chunks_used + ack_b.chunks_used
                        + ack_e.chunks_used + done_chunks,
                    lines_used: 3,
                },
            )
        }),
{
    let lines = seq![line_a, line_b, line_e];
    let ta = trim_spec(line_a);
    let tb = trim_spec(line_b);
    let te = trim_spec(line_e);
    crate::model::lemma_wait_consumed_bound(Seq::empty(), chunks, s.start);
    let c1 = chunks.skip(start_chunks as int);
    crate::model::lemma_ack_result_bound(Seq::empty(), c1, s);
    let c2 = c1.skip(ack_a.chunks_used as int);
    assert(c2 =~= chunks.skip(start_chunks + ack_a.chunks_used as int));
    crate::model::lemma_ack_result_bound(Seq::empty(), c2, s);
    let c3 = c2.skip(ack_b.chunks_used as int);
    assert(c3 =~= chunks.skip(start_chunks + ack_a.chunks_used + ack_b.chunks_used as int));
    crate::model::lemma_ack_result_bound(Seq::empty(), c3, s);
    let c4 = c3.skip(ack_e.chunks_used as int);
    assert(c4 =~= chunks.skip(
        start_chunks + ack_a.chunks_used + ack_b.chunks_used + ack_e.chunks_used as int,
    ));
    let done_chunks = wait_consumed(Seq::empty(), c4, s.done)->0;
    assert(lines.drop_first() =~= seq![line_b, line_e]);
    assert(seq![line_b, line_e].drop_first() =~= seq![line_e]);
    assert(seq![line_e].drop_first() =~= Seq::<Seq<u8>>::empty());
    assert(te.len() > 0);
    assert(seq![te] + Seq::new(0, |i: int| te) + Seq::<Seq<u8>>::empty() =~= seq![te]);
    assert(record_phase(te, Seq::empty(), c3, s) == Some(
        TransferOut {
            writes: seq![te],
            chunks_used: ack_e.chunks_used + done_chunks,
            lines_used: 1,
        },
    ));
    assert(seq![tb] + Seq::new(0, |i: int| tb) + seq![te] =~= seq![tb, te]);
    assert(record_phase(tb, seq![line_e], c2, s) == Some(
        TransferOut {
            writes: seq![tb, te],
            chunks_used: ack_b.chunks_used + ack_e.chunks_used + done_chunks,
            lines_used: 2,
        },
    ));
    assert(seq![ta] + Seq::new(0, |i: int| ta) + seq![tb, te] =~= seq![ta, tb, te]);
    assert(record_phase(ta, seq![line_b, line_e], c1, s) == Some(
        TransferOut {
            writes: seq![ta, tb, te],
            chunks_used: ack_a.chunks_used + ack_b.chunks_used + ack_e.chunks_used + done_chunks,
            lines_used: 3,
        },
    ));
    assert(seq![seq![s.program_instruction]] + seq![ta, tb, te] =~= seq![
        seq![s.program_instruction],
        ta,
        tb,
        te,
    ]);
}

/// Whether the lines hold a record that carries the end-of-file marker.
pub open spec fn has_eof_record(lines: Seq<Seq<u8>>, s: SentinelsSpec) -> bool {
    exists|i: int| 0 <= i < lines.len() && contains_seq(#[trigger] trim_spec(lines[i]), s.eof)
}

/// End-of-file detection stops iteration at once: when the lines hold a
/// record carrying the marker, records appended after them are never read
/// and never transmitted — the session is the same with or without them.
pub proof fn lemma_lines_after_eof_ignored(
    lines: Seq<Seq<u8>>,
    extra: Seq<Seq<u8>>,
    chunks: Seq<Seq<u8>>,
    programming_message_sent: bool,
    s: SentinelsSpec,
)
    requires
        s.wf(),
        has_eof_record(lines, s),
    ensures
        transfer(lines + extra, chunks, programming_message_sent, s) == transfer(
            lines,
            chunks,
            programming_message_sent,
            s,
        ),
    decreases lines.len(), 0int,
{
    let both = lines + extra;
    let i = choose|i: int|
        0 <= i < lines.len() && contains_seq(#[trigger] trim_spec(lines[i]), s.eof);
    assert(lines.len() > 0);
    assert(both[0] == lines[0]);
    let rec = trim_spec(lines[0]);
    if rec.len() == 0 {
        assert(i != 0);
        assert(contains_seq(trim_spec(lines.drop_first()[i - 1]), s.eof));
        assert(both.drop_first() =~= lines.drop_first() + extra);
        lemma_lines_after_eof_ignored(
            lines.drop_first(),
            extra,
            chunks,
            programming_message_sent,
            s,
        );
    } else if contains_seq(rec, s.eof) {
        assert(both.drop_first() =~= lines.drop_first() + extra);
        lemma_record_phase_rest_irrelevant_on_eof(
            rec,
            both.drop_first(),
            lines.drop_first(),
            chunks,
            s,
        );
        if !programming_message_sent {
            if let Some(k) = wait_consumed(Seq::empty(), chunks, s.start) {
                lemma_record_phase_rest_irrelevant_on_eof(
                    rec,
                    both.drop_first(),
                    lines.drop_first(),
                    chunks.skip(k as int),
                    s,
                );
            }
        }
    } else {
        assert(i != 0);
        assert(contains_seq(trim_spec(lines.drop_first()[i - 1]), s.eof));
        assert(both.drop_first() =~= lines.drop_first() + extra);
        lemma_tails_equal_record_phase(
            rec,
            lines.drop_first(),
            extra,
            chunks,
            s,
        );
        if !programming_message_sent {
            if let Some(k) = wait_consumed(Seq::empty(), chunks, s.start) {
                lemma_tails_equal_record_phase(
                    rec,
                    lines.drop_first(),
                    extra,
                    chunks.skip(k as int),
                    s,
                );
            }
        }
    }
}

/// A record phase on a record that carries the end-of-file marker never
/// looks at the lines behind it.
proof fn lemma_record_phase_rest_irrelevant_on_eof(
    record: Seq<u8>,
    rest_a: Seq<Seq<u8>>,
    rest_b: Seq<Seq<u8>>,
    chunks: Seq<Seq<u8>>,
    s: SentinelsSpec,
)
    requires
        contains_seq(record, s.eof),
    ensures
        record_phase(record, rest_a, chunks, s) == record_phase(record, rest_b, chunks, s),
{
}

/// A record phase on a record without the end-of-file marker, followed on
/// one side by extra lines behind a sequence that holds an end-of-file
/// record: both sides agree, because the tails agree.
proof fn lemma_tails_equal_record_phase(
    record: Seq<u8>,
    rest: Seq<Seq<u8>>,
    extra: Seq<Seq<u8>>,
    chunks: Seq<Seq<u8>>,
    s: SentinelsSpec,
)
    requires
        s.wf(),
        !contains_seq(record, s.eof),
        record.len() > 0,
        has_eof_record(rest, s),
    ensures
        record_phase(record, rest + extra, chunks, s) == record_phase(record, rest, chunks, s),
    decreases rest.len(), 1int,
{
    if let Some(a) = ack_result(Seq::empty(), chunks, s) {
        lemma_lines_after_eof_ignored(rest, extra, chunks.skip(a.chunks_used as int), true, s);
    }
}

} // verus!

