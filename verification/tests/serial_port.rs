//! The serial adapters against a real pseudo-terminal pair.

use pic_programmer::serial::ReadOutcome;
use pic_programmer::serial::SerialReader;
use pic_programmer::serial::SerialWriter;

#[test]
fn serial_reader_appends_exactly_the_bytes_that_arrived() {
    let (mut master, mut slave) = serialport::TTYPort::pair().expect("pseudo-terminal pair");
    std::io::Write::write_all(&mut master, b"Programmer ready!").expect("feed the pty");

    let mut reader = SerialReader::new(vec![0; 1000]);
    let mut received = Vec::new();
    let outcome = reader.read(&mut slave, &mut received);

    assert!(matches!(outcome, ReadOutcome::Received(17)));
    assert_eq!(received, b"Programmer ready!".to_vec());
}

#[test]
fn serial_reader_times_out_on_a_silent_port_and_appends_nothing() {
    let (_master, mut slave) = serialport::TTYPort::pair().expect("pseudo-terminal pair");

    let mut reader = SerialReader::new(vec![0; 16]);
    let mut received = b"so far".to_vec();
    let outcome = reader.read(&mut slave, &mut received);

    assert!(matches!(outcome, ReadOutcome::TimedOut));
    assert_eq!(received, b"so far".to_vec());
}

#[test]
fn serial_reader_rejects_bytes_that_are_not_text() {
    let (mut master, mut slave) = serialport::TTYPort::pair().expect("pseudo-terminal pair");
    std::io::Write::write_all(&mut master, &[0xff, 0xfe]).expect("feed the pty");

    let mut reader = SerialReader::new(vec![0; 16]);
    let mut received = Vec::new();
    let outcome = reader.read(&mut slave, &mut received);

    assert!(matches!(outcome, ReadOutcome::NotText));
    assert_eq!(received, b"".to_vec());
}

#[test]
fn serial_writer_is_constructed_per_session() {
    let _writer = SerialWriter::new();
}
