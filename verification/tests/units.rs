//! The engine's building blocks, each on concrete values.

use pic_programmer::channel::ReadSerial;
use pic_programmer::channel::RecordingWriter;
use pic_programmer::channel::ScriptReader;
use pic_programmer::channel::WriteSerial;
use pic_programmer::records::RecordSource;
use pic_programmer::records::VecSource;
use pic_programmer::records::trim_bytes;
use pic_programmer::search::contains_bytes;
use pic_programmer::search::copy_bytes;
use pic_programmer::search::push_all;
use pic_programmer::sentinels::ProtocolSentinels;
use pic_programmer::serial::WriteAttempt;
use pic_programmer::serial::WriteProgress;
use pic_programmer::serial::write_retry_step;

#[test]
fn standard_sentinels_spell_the_protocol_words() {
    let s = ProtocolSentinels::standard();
    assert_eq!(s.ready_message, b"Programmer ready!".to_vec());
    assert_eq!(s.programming_started_message, b"start".to_vec());
    assert_eq!(s.done_message, b"done".to_vec());
    assert_eq!(s.end_of_file, b":00000001FF".to_vec());
    assert_eq!(s.ok_token, b"89".to_vec());
    assert_eq!(s.resend_token, b"82".to_vec());
    assert_eq!(s.program_instruction, b'P');
}

#[test]
fn containment_is_by_substring_not_exact_match() {
    assert!(contains_bytes(b"xx Programmer ready! yy", b"Programmer ready!"));
    assert!(contains_bytes(b"Programmer ready!", b"Programmer ready!"));
    assert!(!contains_bytes(b"Programmer ready", b"Programmer ready!"));
    assert!(!contains_bytes(b"", b"89"));
    assert!(contains_bytes(b"8", b""));
    assert!(!contains_bytes(b"9", b"89"));
    assert!(contains_bytes(b"998899", b"89"));
}

#[test]
fn trimming_strips_surrounding_whitespace_only() {
    assert_eq!(trim_bytes(b"  :00FF  "), b":00FF".to_vec());
    assert_eq!(trim_bytes(b"\t:00FF\r\n"), b":00FF".to_vec());
    assert_eq!(trim_bytes(b":00 FF"), b":00 FF".to_vec());
    assert_eq!(trim_bytes(b"   "), b"".to_vec());
    assert_eq!(trim_bytes(b""), b"".to_vec());
    assert_eq!(trim_bytes(b"a"), b"a".to_vec());
}

#[test]
fn byte_helpers_copy_and_append() {
    let mut acc = copy_bytes(b"Program");
    push_all(&mut acc, b"mer");
    assert_eq!(acc, b"Programmer".to_vec());
}

#[test]
fn script_reader_delivers_chunks_in_order_then_nothing() {
    let mut reader = ScriptReader::new(vec![b"ab".to_vec(), b"".to_vec(), b"c".to_vec()]);
    let mut acc = Vec::new();
    reader.read(&mut acc);
    assert_eq!(acc, b"ab".to_vec());
    reader.read(&mut acc);
    assert_eq!(acc, b"ab".to_vec());
    reader.read(&mut acc);
    assert_eq!(acc, b"abc".to_vec());
    reader.read(&mut acc);
    assert_eq!(acc, b"abc".to_vec());
    assert_eq!(reader.cursor, 3);
}

#[test]
fn recording_writer_keeps_every_buffer_in_order() {
    let mut writer = RecordingWriter::new();
    writer.write(b"P");
    writer.write(b":00");
    assert_eq!(writer.data, vec![b"P".to_vec(), b":00".to_vec()]);
}

#[test]
fn vec_source_yields_lines_front_to_back() {
    let mut source = VecSource::new(vec![b"a".to_vec(), b"b".to_vec()]);
    assert_eq!(source.next(), Some(b"a".to_vec()));
    assert_eq!(source.next(), Some(b"b".to_vec()));
    assert_eq!(source.next(), None);
    assert_eq!(source.next(), None);
}

#[test]
fn write_retry_step_advances_retries_and_aborts() {
    assert!(matches!(
        write_retry_step(WriteAttempt::Wrote(1), 0, 3),
        WriteProgress::Continue(1)
    ));
    assert!(matches!(
        write_retry_step(WriteAttempt::Wrote(0), 1, 3),
        WriteProgress::Continue(1)
    ));
    assert!(matches!(
        write_retry_step(WriteAttempt::Wrote(1), 2, 3),
        WriteProgress::Done
    ));
    assert!(matches!(
        write_retry_step(WriteAttempt::TimedOut, 2, 3),
        WriteProgress::Continue(2)
    ));
    assert!(matches!(
        write_retry_step(WriteAttempt::Failed, 2, 3),
        WriteProgress::Abort
    ));
}
