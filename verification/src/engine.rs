//! The protocol engine: the state machine that drives a programming session.
//!
//! The engine owns the two sides of the channel for the whole session and
//! runs one synchronous pass: wait for the ready message, then stream the
//! non-blank records one at a time — the first of them preceded by the
//! program instruction and a wait for the programming-started message — each
//! record retransmitted on every resend request until acknowledged, stopping
//! at the record that carries the end-of-file marker, and finally wait for
//! the done message (only if anything was transmitted at all).
//!
//! Every wait is a polling loop around a bounded read; the loops have no
//! deadline of their own, so a device that never produces the awaited token
//! would hold the session forever.  The contracts therefore ask the caller
//! for a channel whose pending chunks complete the protocol (the model
//! returns `Some`), and promise in return that the engine transmits exactly
//! what the model says.

use vstd::prelude::*;

use crate::channel::ReadSerial;
use crate::channel::WriteSerial;
use crate::model::AckOut;
use crate::model::ack_result;
use crate::model::finish_phase;
use crate::model::lemma_transfer_bounds;
use crate::model::record_phase;
use crate::model::lemma_ack_result_bound;
use crate::model::lemma_wait_consumed_bound;
use crate::model::session;
use crate::model::shift_transfer;
use crate::model::transfer;
use crate::model::wait_consumed;
use crate::records::RecordSource;
use crate::records::trim_spec;
use crate::search::contains_bytes;
use crate::search::contains_seq;
use crate::search::copy_bytes;
use crate::sentinels::ProtocolSentinels;

verus! {

/// The protocol engine, generic over how bytes are read and transmitted.
pub struct SerialProgrammer<R: ReadSerial, W: WriteSerial> {
    pub reader: R,
    pub writer: W,
    pub sentinels: ProtocolSentinels,
}

impl<R: ReadSerial, W: WriteSerial> SerialProgrammer<R, W> {
    /// The sentinel tokens the engine searches for are meaningful words.
    pub open spec fn wf(self) -> bool {
        self.sentinels@.wf()
    }

    /// An engine about to run one session over the given channel ends.
    pub fn new(reader: R, writer: W, sentinels: ProtocolSentinels) -> (programmer:
        SerialProgrammer<R, W>)
        ensures
            programmer.reader == reader,
            programmer.writer == writer,
            programmer.sentinels == sentinels,
    {
        SerialProgrammer { reader, writer, sentinels }
    }

    /// Poll the channel, growing a fresh accumulator, until the accumulator
    /// contains `message`; transmits nothing.  Consumes exactly as many
    /// chunks as the model says the wait needs.
    pub fn wait_for_programmer_message(&mut self, message: &Vec<u8>)
        requires
            wait_consumed(Seq::empty(), old(self).reader.pending(), message@) is Some,
        ensures
            ({
                let w = wait_consumed(Seq::empty(), old(self).reader.pending(), message@);
                &&& w is Some
                &&& final(self).reader.pending() == old(self).reader.pending().skip(
                    w->0 as int,
                )
            }),
            final(self).writer == old(self).writer,
            final(self).sentinels == old(self).sentinels,
    {
        let ghost orig = self.reader.pending();
        let ghost mut consumed: nat = 0;
        let mut received_data: Vec<u8> = Vec::new();
        proof {
            assert(received_data@ =~= Seq::<u8>::empty());
            assert(orig.skip(0) =~= orig);
            lemma_wait_consumed_bound(Seq::empty(), orig, message@);
        }
        let mut found = contains_bytes(received_data.as_slice(), message.as_slice());
        while !found
            invariant
                found == contains_seq(received_data@, message@),
                consumed <= orig.len(),
                self.reader.pending() == orig.skip(consumed as int),
                self.writer == old(self).writer,
                self.sentinels == old(self).sentinels,
                wait_consumed(Seq::empty(), orig, message@) is Some,
                (match wait_consumed(received_data@, self.reader.pending(), message@) {
                    Some(k) => wait_consumed(Seq::empty(), orig, message@) == Some(
                        (consumed + k) as nat,
                    ),
                    None => wait_consumed(Seq::empty(), orig, message@) is None,
                }),
            decreases orig.len() - consumed,
        {
            let ghost p = self.reader.pending();
            let ghost acc0 = received_data@;
            self.reader.read(&mut received_data);
            proof {
                if p.len() == 0 {
                    assert(wait_consumed(acc0, p, message@) is None);
                    assert(false);
                }
                assert(p.drop_first() =~= orig.skip(consumed + 1int));
                consumed = consumed + 1;
            }
            found = contains_bytes(received_data.as_slice(), message.as_slice());
        }
    }

    /// Poll the channel after a record was transmitted until the device
    /// acknowledges it, retransmitting the record on every resend request;
    /// the resend check takes priority over the acknowledgment check.
    pub fn await_acknowledgment(&mut self, record: &Vec<u8>)
        requires
            old(self).wf(),
            ack_result(Seq::empty(), old(self).reader.pending(), old(self).sentinels@) is Some,
        ensures
            ({
                let a = ack_result(Seq::empty(), old(self).reader.pending(), old(self).sentinels@);
                &&& a is Some
                &&& final(self).reader.pending() == old(self).reader.pending().skip(
                    a->0.chunks_used as int,
                )
                &&& final(self).writer.written() == old(self).writer.written() + Seq::new(
                    a->0.resends,
                    |i: int| record@,
                )
            }),
            final(self).sentinels == old(self).sentinels,
    {
        let ghost orig = self.reader.pending();
        let ghost s = self.sentinels@;
        let ghost mut consumed: nat = 0;
        let ghost mut resends: nat = 0;
        let resend_token = copy_bytes(self.sentinels.resend_token.as_slice());
        let ok_token = copy_bytes(self.sentinels.ok_token.as_slice());
        let mut received_data: Vec<u8> = Vec::new();
        let mut confirmed = false;
        proof {
            assert(received_data@ =~= Seq::<u8>::empty());
            assert(orig.skip(0) =~= orig);
            assert(self.writer.written() + Seq::new(0, |i: int| record@) =~= self.writer.written());
            lemma_ack_result_bound(Seq::empty(), orig, s);
        }
        while !confirmed
            invariant
                self.sentinels == old(self).sentinels,
                s == old(self).sentinels@,
                s.wf(),
                resend_token@ == s.resend_token,
                ok_token@ == s.ok_token,
                consumed <= orig.len(),
                self.reader.pending() == orig.skip(consumed as int),
                self.writer.written() == old(self).writer.written() + Seq::new(
                    resends,
                    |i: int| record@,
                ),
                ack_result(Seq::empty(), orig, s) is Some,
                (!confirmed ==> !contains_seq(received_data@, s.resend_token) && !contains_seq(
                    received_data@,
                    s.ok_token,
                ) && (match ack_result(received_data@, self.reader.pending(), s) {
                    Some(a) => ack_result(Seq::empty(), orig, s) == Some(
                        AckOut {
                            chunks_used: (consumed + a.chunks_used) as nat,
                            resends: (resends + a.resends) as nat,
                        },
                    ),
                    None => ack_result(Seq::empty(), orig, s) is None,
                })),
                (confirmed ==> ack_result(Seq::empty(), orig, s) == Some(
                    AckOut { chunks_used: consumed, resends: resends },
                )),
            decreases orig.len() - consumed,
        {
            let ghost p = self.reader.pending();
            let ghost acc0 = received_data@;
            self.reader.read(&mut received_data);
            proof {
                if p.len() == 0 {
                    assert(ack_result(acc0, p, s) is None);
                    assert(false);
                }
                assert(p.drop_first() =~= orig.skip(consumed + 1int));
                assert(received_data@ == acc0 + p[0]);
            }
            if contains_bytes(received_data.as_slice(), resend_token.as_slice()) {
                self.writer.write(record.as_slice());
                received_data.clear();
                proof {
                    consumed = consumed + 1;
                    resends = resends + 1;
                    assert(old(self).writer.written() + Seq::new(resends, |i: int| record@) =~= (
                    old(self).writer.written() + Seq::new((resends - 1) as nat, |i: int| record@)
                    ).push(record@));
                    assert(received_data@ =~= Seq::<u8>::empty());
                }
            } else if contains_bytes(received_data.as_slice(), ok_token.as_slice()) {
                confirmed = true;
                proof {
                    consumed = consumed + 1;
                    assert(ack_result(acc0, p, s) == Some(
                        AckOut { chunks_used: 1 as nat, resends: 0 as nat },
                    ));
                }
            } else {
                proof {
                    consumed = consumed + 1;
                }
            }
        }
    }
    /// Stream the records of `lines` to the device: skip blank lines, open
    /// the transfer with the program instruction before the first record,
    /// transmit each record until acknowledged (once more per resend
    /// request), stop at the record carrying the end-of-file marker, and
    /// wait for the done message if anything was transmitted.
    pub fn send_lines<L: RecordSource>(&mut self, lines: &mut L)
        requires
            old(self).wf(),
            transfer(
                old(lines).remaining(),
                old(self).reader.pending(),
                false,
                old(self).sentinels@,
            ) is Some,
        ensures
            ({
                let t = transfer(
                    old(lines).remaining(),
                    old(self).reader.pending(),
                    false,
                    old(self).sentinels@,
                );
                &&& t is Some
                &&& final(self).writer.written() == old(self).writer.written() + t->0.writes
                &&& final(self).reader.pending() == old(self).reader.pending().skip(
                    t->0.chunks_used as int,
                )
                &&& final(lines).remaining() == old(lines).remaining().skip(
                    t->0.lines_used as int,
                )
            }),
            final(self).sentinels == old(self).sentinels,
    {
        let ghost orig_l = lines.remaining();
        let ghost orig_p = self.reader.pending();
        let ghost s = self.sentinels@;
        let ghost t0 = transfer(orig_l, orig_p, false, s);
        let ghost mut dw: Seq<Seq<u8>> = Seq::empty();
        let ghost mut cu: nat = 0;
        let ghost mut lu: nat = 0;
        let mut programming_message_sent = false;
        let mut finished = false;
        proof {
            assert(orig_p.skip(0) =~= orig_p);
            assert(orig_l.skip(0) =~= orig_l);
            assert(self.writer.written() + dw =~= self.writer.written());
            lemma_transfer_bounds(orig_l, orig_p, false, s);
        }
        while !finished
            invariant
                self.wf(),
                self.sentinels == old(self).sentinels,
                s == old(self).sentinels@,
                cu <= orig_p.len(),
                lu <= orig_l.len(),
                self.reader.pending() == orig_p.skip(cu as int),
                lines.remaining() == orig_l.skip(lu as int),
                self.writer.written() == old(self).writer.written() + dw,
                t0 == transfer(orig_l, orig_p, false, s),
                t0 is Some,
                (!finished ==> shift_transfer(
                    dw,
                    cu,
                    lu,
                    transfer(
                        lines.remaining(),
                        self.reader.pending(),
                        programming_message_sent,
                        s,
                    ),
                ) == t0),
                (finished ==> shift_transfer(
                    dw,
                    cu,
                    lu,
                    finish_phase(self.reader.pending(), programming_message_sent, s),
                ) == t0),
            decreases orig_l.len() - lu, orig_p.len() - cu, (if finished { 0int } else { 1int }),
        {
            let ghost rem0 = lines.remaining();
            let ghost pending0 = self.reader.pending();
            let next_line = lines.next();
            match next_line {
                None => {
                    finished = true;
                }
                Some(line) => {
                    let trimmed = crate::records::trim_bytes(line.as_slice());
                    let ghost rec = trim_spec(rem0[0]);
                    proof {
                        assert(rem0.len() > 0);
                        assert(rem0.drop_first() =~= orig_l.skip(lu + 1int));
                        assert(trimmed@ == rec);
                    }
                    if trimmed.len() == 0 {
                        proof {
                            lu = lu + 1;
                        }
                    } else {
                        let ghost pms0 = programming_message_sent;
                        let ghost dw0 = dw;
                        if !programming_message_sent {
                            let mut instruction: Vec<u8> = Vec::new();
                            instruction.push(self.sentinels.program_instruction);
                            self.writer.write(instruction.as_slice());
                            proof {
                                assert(instruction@ =~= seq![s.program_instruction]);
                                dw = dw + seq![seq![s.program_instruction]];
                                assert(self.writer.written() =~= old(self).writer.written() + dw);
                            }
                            let start_message = copy_bytes(
                                self.sentinels.programming_started_message.as_slice(),
                            );
                            self.wait_for_programmer_message(&start_message);
                            proof {
                                let k1 = wait_consumed(Seq::empty(), pending0, s.start)->0;
                                lemma_wait_consumed_bound(Seq::empty(), pending0, s.start);
                                cu = cu + k1;
                                assert(pending0.skip(k1 as int) =~= orig_p.skip(cu as int));
                            }
                        }
                        programming_message_sent = true;
                        let ghost pending1 = self.reader.pending();
                        let ghost dw1 = dw;
                        let ghost cu1 = cu;
                        proof {
                            // The invariant's transfer term unfolds to a record phase
                            // on the chunks that are pending now, in both cases.
                            let t_cur = transfer(rem0, pending0, pms0, s);
                            let rp = record_phase(rec, rem0.drop_first(), pending1, s);
                            assert(t_cur is Some);
                            if pms0 {
                                assert(t_cur == rp);
                                assert(dw0 + t_cur->0.writes =~= dw1 + rp->0.writes);
                            } else {
                                let k1 = wait_consumed(Seq::empty(), pending0, s.start)->0;
                                assert(rp is Some);
                                assert(t_cur->0.writes == seq![seq![s.program_instruction]]
                                    + rp->0.writes);
                                assert(t_cur->0.chunks_used == k1 + rp->0.chunks_used);
                                assert(t_cur->0.lines_used == rp->0.lines_used);
                                assert(dw0 + t_cur->0.writes =~= dw1 + rp->0.writes);
                            }
                            assert(shift_transfer(dw1, cu1, lu, rp) == t0);
                        }
                        self.writer.write(trimmed.as_slice());
                        self.await_acknowledgment(&trimmed);
                        let ghost a = ack_result(Seq::empty(), pending1, s)->0;
                        let ghost pending2 = pending1.skip(a.chunks_used as int);
                        proof {
                            lemma_ack_result_bound(Seq::empty(), pending1, s);
                            dw = dw1 + seq![rec] + Seq::new(a.resends, |i: int| rec);
                            cu = cu1 + a.chunks_used;
                            lu = lu + 1;
                            assert(pending1.skip(a.chunks_used as int) =~= orig_p.skip(cu as int));
                            assert(old(self).writer.written() + dw =~= ((old(self).writer.written()
                                + dw1).push(rec)) + Seq::new(a.resends, |i: int| rec));
                            assert(self.writer.written() == old(self).writer.written() + dw);
                        }
                        let eof_marker = copy_bytes(self.sentinels.end_of_file.as_slice());
                        if contains_bytes(trimmed.as_slice(), eof_marker.as_slice()) {
                            finished = true;
                            proof {
                                let rp = record_phase(rec, rem0.drop_first(), pending1, s);
                                let tail = finish_phase(pending2, true, s);
                                assert(rp is Some);
                                assert(tail is Some);
                                assert(rp->0.writes == seq![rec] + Seq::new(
                                    a.resends,
                                    |i: int| rec,
                                ) + tail->0.writes);
                                assert(rp->0.chunks_used == a.chunks_used + tail->0.chunks_used);
                                assert(rp->0.lines_used == 1 + tail->0.lines_used);
                                assert(dw1 + rp->0.writes =~= dw + tail->0.writes);
                                assert(shift_transfer(dw, cu, lu, tail) == t0);
                            }
                        } else {
                            proof {
                                let rp = record_phase(rec, rem0.drop_first(), pending1, s);
                                let tail = transfer(rem0.drop_first(), pending2, true, s);
                                assert(rp is Some);
                                assert(tail is Some);
                                assert(rp->0.writes == seq![rec] + Seq::new(
                                    a.resends,
                                    |i: int| rec,
                                ) + tail->0.writes);
                                assert(rp->0.chunks_used == a.chunks_used + tail->0.chunks_used);
                                assert(rp->0.lines_used == 1 + tail->0.lines_used);
                                assert(dw1 + rp->0.writes =~= dw + tail->0.writes);
                                assert(shift_transfer(dw, cu, lu, tail) == t0);
                                assert(lines.remaining() == rem0.drop_first());
                            }
                        }
                    }
                }
            }
        }
        if programming_message_sent {
            let done_message = copy_bytes(self.sentinels.done_message.as_slice());
            let ghost p_done = self.reader.pending();
            self.wait_for_programmer_message(&done_message);
            proof {
                let k = wait_consumed(Seq::empty(), p_done, s.done)->0;
                assert(p_done.skip(k as int) =~= orig_p.skip(cu + k as int));
                assert(dw + finish_phase(p_done, true, s)->0.writes =~= dw);
            }
        } else {
            proof {
                assert(dw + finish_phase(self.reader.pending(), false, s)->0.writes =~= dw);
            }
        }
    }

    /// Run one whole session: wait for the ready message, then stream the
    /// records.  The engine transmits exactly what the model says for the
    /// lines the source holds and the chunks the channel delivers.
    pub fn program<L: RecordSource>(&mut self, lines: &mut L)
        requires
            old(self).wf(),
            session(
                old(lines).remaining(),
                old(self).reader.pending(),
                old(self).sentinels@,
            ) is Some,
        ensures
            ({
                let out = session(
                    old(lines).remaining(),
                    old(self).reader.pending(),
                    old(self).sentinels@,
                );
                &&& out is Some
                &&& final(self).writer.written() == old(self).writer.written() + out->0.writes
                &&& final(self).reader.pending() == old(self).reader.pending().skip(
                    out->0.chunks_used as int,
                )
                &&& final(lines).remaining() == old(lines).remaining().skip(
                    out->0.lines_used as int,
                )
            }),
            final(self).sentinels == old(self).sentinels,
    {
        let ghost orig_p = self.reader.pending();
        let ghost s = self.sentinels@;
        let ready_message = copy_bytes(self.sentinels.ready_message.as_slice());
        self.wait_for_programmer_message(&ready_message);
        proof {
            lemma_wait_consumed_bound(Seq::empty(), orig_p, s.ready);
        }
        let ghost pending_ready = self.reader.pending();
        self.send_lines(lines);
        proof {
            let k = wait_consumed(Seq::empty(), orig_p, s.ready)->0;
            lemma_transfer_bounds(old(lines).remaining(), pending_ready, false, s);
            let t = transfer(old(lines).remaining(), pending_ready, false, s)->0;
            assert(pending_ready.skip(t.chunks_used as int) =~= orig_p.skip(k + t.chunks_used as int));
        }
    }
}

} // verus!
