//! Whole sessions of the protocol engine, driven by scripted channels.

use pic_programmer::channel::RecordingWriter;
use pic_programmer::channel::ScriptReader;
use pic_programmer::engine::SerialProgrammer;
use pic_programmer::records::VecSource;
use pic_programmer::sentinels::ProtocolSentinels;

fn programmer_over(
    chunks: Vec<Vec<u8>>,
) -> SerialProgrammer<ScriptReader, RecordingWriter> {
    SerialProgrammer::new(
        ScriptReader::new(chunks),
        RecordingWriter::new(),
        ProtocolSentinels::standard(),
    )
}

#[test]
fn given_starting_message_in_multiple_chunks_and_empty_file_should_not_write_anything() {
    let mut programmer = programmer_over(vec![
        b"Programmer ".to_vec(),
        b"ready".to_vec(),
        b"!".to_vec(),
    ]);
    let mut lines = VecSource::new(vec![]);

    programmer.program(&mut lines);

    assert_eq!(programmer.writer.data.is_empty(), true);
}

#[test]
fn given_all_starting_message_and_empty_file_should_not_write_anything() {
    let mut programmer = programmer_over(vec![b"Programmer ready!".to_vec()]);
    let mut lines = VecSource::new(vec![]);

    programmer.program(&mut lines);

    assert_eq!(programmer.writer.data.is_empty(), true);
}

#[test]
fn given_file_with_multiple_blank_lines_should_not_write_anything() {
    let mut programmer = programmer_over(vec![b"Programmer ready!".to_vec()]);
    let mut lines = VecSource::new(vec![
        b"".to_vec(),
        b"   ".to_vec(),
        b"\t".to_vec(),
        b"".to_vec(),
    ]);

    programmer.program(&mut lines);

    assert_eq!(programmer.writer.data.is_empty(), true);
}

#[test]
fn given_file_with_only_eof_should_write_one_instruction() {
    let mut programmer = programmer_over(vec![
        b"Programmer ready!".to_vec(),
        b"start".to_vec(),
        b"89".to_vec(),
        b"done".to_vec(),
    ]);
    let mut lines = VecSource::new(vec![b":00000001FF".to_vec()]);

    programmer.program(&mut lines);

    assert_eq!(programmer.writer.data[0], b"P".to_vec());
    assert_eq!(programmer.writer.data[1], b":00000001FF".to_vec());
}

#[test]
fn given_file_eof_at_the_beginning_should_write_one_instruction() {
    let mut programmer = programmer_over(vec![
        b"Programmer ready!".to_vec(),
        b"start".to_vec(),
        b"89".to_vec(),
        b"done".to_vec(),
    ]);
    let mut lines = VecSource::new(vec![
        b":00000001FF".to_vec(),
        b":02002400BE1C".to_vec(),
    ]);

    programmer.program(&mut lines);

    assert_eq!(programmer.writer.data[0], b"P".to_vec());
    assert_eq!(programmer.writer.data[1], b":00000001FF".to_vec());
}

#[test]
fn given_file_with_all_instructions_sent_correctly_should_write_all_instructions_once() {
    let mut programmer = programmer_over(vec![
        b"Programmer ready!".to_vec(),
        b"start".to_vec(),
        b"89".to_vec(),
        b"89".to_vec(),
        b"89".to_vec(),
        b"done".to_vec(),
    ]);
    let mut lines = VecSource::new(vec![
        b":02002400BE1C".to_vec(),
        b":02002500BE1B".to_vec(),
        b":00000001FF".to_vec(),
    ]);

    programmer.program(&mut lines);

    assert_eq!(programmer.writer.data[0], b"P".to_vec());
    assert_eq!(programmer.writer.data[1], b":02002400BE1C".to_vec());
    assert_eq!(programmer.writer.data[2], b":02002500BE1B".to_vec());
    assert_eq!(programmer.writer.data[3], b":00000001FF".to_vec());
}

#[test]
fn given_file_with_one_instruction_sent_with_problems_should_retry_the_write_of_that_instruction() {
    let mut programmer = programmer_over(vec![
        b"Programmer ready!".to_vec(),
        b"start".to_vec(),
        b"82".to_vec(),
        b"89".to_vec(),
        b"89".to_vec(),
        b"89".to_vec(),
        b"done".to_vec(),
    ]);
    let mut lines = VecSource::new(vec![
        b":02002400BE1C".to_vec(),
        b":02002500BE1B".to_vec(),
        b":00000001FF".to_vec(),
    ]);

    programmer.program(&mut lines);

    assert_eq!(programmer.writer.data[0], b"P".to_vec());
    assert_eq!(programmer.writer.data[1], b":02002400BE1C".to_vec());
    assert_eq!(programmer.writer.data[2], b":02002400BE1C".to_vec());
    assert_eq!(programmer.writer.data[3], b":02002500BE1B".to_vec());
    assert_eq!(programmer.writer.data[4], b":00000001FF".to_vec());
}

#[test]
fn ready_message_is_found_among_chatter_and_timeouts() {
    let mut programmer = programmer_over(vec![
        b"booting...".to_vec(),
        b"".to_vec(),
        b"Programmer re".to_vec(),
        b"".to_vec(),
        b"ady!".to_vec(),
    ]);
    let mut lines = VecSource::new(vec![]);

    programmer.program(&mut lines);

    assert_eq!(programmer.writer.data.len(), 0);
    assert_eq!(programmer.reader.cursor, 5);
}

#[test]
fn two_resend_signals_retransmit_the_record_twice() {
    let mut programmer = programmer_over(vec![
        b"Programmer ready!".to_vec(),
        b"start".to_vec(),
        b"82".to_vec(),
        b"82".to_vec(),
        b"89".to_vec(),
        b"done".to_vec(),
    ]);
    let mut lines = VecSource::new(vec![b":00000001FF".to_vec()]);

    programmer.program(&mut lines);

    assert_eq!(programmer.writer.data.len(), 4);
    assert_eq!(programmer.writer.data[0], b"P".to_vec());
    assert_eq!(programmer.writer.data[1], b":00000001FF".to_vec());
    assert_eq!(programmer.writer.data[2], b":00000001FF".to_vec());
    assert_eq!(programmer.writer.data[3], b":00000001FF".to_vec());
}

#[test]
fn records_after_the_eof_marker_are_never_read_or_transmitted() {
    let mut programmer = programmer_over(vec![
        b"Programmer ready!".to_vec(),
        b"start".to_vec(),
        b"89".to_vec(),
        b"89".to_vec(),
        b"done".to_vec(),
    ]);
    let mut lines = VecSource::new(vec![
        b":02002400BE1C".to_vec(),
        b":00000001FF".to_vec(),
        b":02002500BE1B".to_vec(),
        b":02002600BE1A".to_vec(),
    ]);

    programmer.program(&mut lines);

    assert_eq!(programmer.writer.data.len(), 3);
    assert_eq!(programmer.writer.data[0], b"P".to_vec());
    assert_eq!(programmer.writer.data[1], b":02002400BE1C".to_vec());
    assert_eq!(programmer.writer.data[2], b":00000001FF".to_vec());
    // The source stopped right after the marker: the later records were
    // never drawn from it.
    assert_eq!(lines.cursor, 2);
}

#[test]
fn records_are_trimmed_before_transmission_and_ack_tokens_split_across_reads_count() {
    let mut programmer = programmer_over(vec![
        b"Programmer ready!".to_vec(),
        b"start".to_vec(),
        b"8".to_vec(),
        b"9".to_vec(),
        b"done".to_vec(),
    ]);
    let mut lines = VecSource::new(vec![b"  :00000001FF \r\n".to_vec()]);

    programmer.program(&mut lines);

    assert_eq!(programmer.writer.data.len(), 2);
    assert_eq!(programmer.writer.data[0], b"P".to_vec());
    assert_eq!(programmer.writer.data[1], b":00000001FF".to_vec());
}
