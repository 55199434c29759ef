use pocsag_mmdvm::mmdvm::batch::{Action, POCSAG_CWS_PER_BATCH};
use pocsag_mmdvm::mmdvm::sender::SendAction;
use pocsag_mmdvm::mmdvm::command::{frame_header, init_commands, set_idle};
use pocsag_mmdvm::mmdvm::{
    Batch, MmdvmNackReason, Reception, ResponseCode, ResponseFailure, ResponseReader, Sender,
};

fn read(bytes: &[u8]) -> Reception {
    ResponseReader::new().read(Ok(bytes.to_vec()))
}

fn padded(bytes: &[u8]) -> Vec<u8> {
    let mut buffer = bytes.to_vec();
    buffer.resize(256, 0);
    buffer
}

fn assert_invalid(bytes: &[u8]) {
    match read(bytes) {
        Reception::Complete(Err(ResponseFailure::InvalidData(data))) => {
            assert_eq!(data, padded(bytes))
        }
        other => panic!("{:?}", other),
    }
}

#[test]
fn reasons() {
    let known = [
        MmdvmNackReason::BadCommand,
        MmdvmNackReason::WrongMode,
        MmdvmNackReason::CommandTooLong,
        MmdvmNackReason::DataIncorrect,
        MmdvmNackReason::BufferFull,
    ];
    for code in 0..=255u8 {
        let expected = if (1..=5).contains(&code) {
            known[code as usize - 1]
        } else {
            MmdvmNackReason::Unknown(code)
        };
        assert_eq!(MmdvmNackReason::from(code), expected);
    }
}

#[test]
fn reasons_in_words() {
    assert_eq!(MmdvmNackReason::BadCommand.text(), "Bad command");
    assert_eq!(MmdvmNackReason::WrongMode.text(), "Wrong mode");
    assert_eq!(MmdvmNackReason::CommandTooLong.text(), "Command too long");
    assert_eq!(MmdvmNackReason::DataIncorrect.text(), "Data incorrect");
    assert_eq!(MmdvmNackReason::BufferFull.text(), "Buffer full, enhance your calm");
    for value in 0..=255u8 {
        assert_eq!(
            MmdvmNackReason::Unknown(value).text(),
            format!("Unknown NACK reason, value {:?}", value)
        );
    }
}

#[test]
fn acknowledgement() {
    match read(&[0xE0, 4, 0x70, 0x50, 1, 2, 3]) {
        Reception::Complete(Ok(code)) => assert_eq!(code, ResponseCode::Ack(0x50)),
        other => panic!("{:?}", other),
    }
}

#[test]
fn acknowledgement_in_pieces() {
    let mut reader = ResponseReader::new();
    assert_eq!(reader.room(), 256);
    assert!(matches!(reader.read(Ok(vec![0xE0])), Reception::Incomplete));
    assert!(matches!(reader.read(Ok(vec![4, 0x70])), Reception::Incomplete));
    assert_eq!(reader.room(), 253);
    match reader.read(Ok(vec![3])) {
        Reception::Complete(Ok(code)) => assert_eq!(code, ResponseCode::Ack(3)),
        other => panic!("{:?}", other),
    }
}

#[test]
fn longest_response_fits_the_buffer() {
    let mut frame = vec![0; 254];
    frame[0] = 0xE0;
    frame[1] = 255;
    frame[2] = 0x70;
    let mut reader = ResponseReader::new();
    assert!(matches!(reader.read(Ok(frame.clone())), Reception::Incomplete));
    assert_eq!(reader.room(), 2);
    match reader.read(Ok(vec![7])) {
        Reception::Complete(Err(ResponseFailure::InvalidData(data))) => {
            frame.push(7);
            assert_eq!(data, padded(&frame))
        }
        other => panic!("{:?}", other),
    }
}

#[test]
fn refusal() {
    match read(&[0xE0, 5, 0x7F, 0x50, 5]) {
        Reception::Complete(Err(ResponseFailure::Nack(cmd, reason))) => {
            assert_eq!((cmd, reason), (0x50, MmdvmNackReason::BufferFull))
        }
        other => panic!("{:?}", other),
    }
    assert!(matches!(read(&[0xE0, 5, 0x7F, 0x50]), Reception::Incomplete));
}

#[test]
fn version_string() {
    match read(b"\xE0\x04\x00\x01MMDVM") {
        Reception::Complete(Ok(ResponseCode::VersionString { desc, version })) => {
            assert_eq!(version, 1);
            assert_eq!(desc.len(), 252);
            assert_eq!(desc.trim_end_matches('\0'), "MMDVM");
        }
        other => panic!("{:?}", other),
    }
    match read(&[0xE0, 0x09, 0x00, 0x01, 0x4D, 0x4D, 0x44, 0x56, 0x4D]) {
        Reception::Complete(Ok(ResponseCode::VersionString { desc, version })) => {
            assert_eq!((version, desc.as_str()), (1, "MMDVM"));
        }
        other => panic!("{:?}", other),
    }
    assert!(matches!(read(b"\xE0\x09\x00\x01MMDV"), Reception::Incomplete));
    assert!(matches!(read(b"\xE0\x04\x00\x01\xFF"), Reception::NotText));
}

#[test]
fn version_string_ends_with_its_frame() {
    // The start of another frame
    match read(b"\xE0\x05\x00\x01M\xE0") {
        Reception::Complete(Ok(ResponseCode::VersionString { desc, version })) => {
            assert_eq!((version, desc.as_str()), (1, "M"))
        }
        other => panic!("{:?}", other),
    }
    // A character that the frame cuts in two
    assert_invalid(b"\xE0\x05\x00\x01\xC3\xA9");
    match read(b"\xE0\x06\x00\x01\xC3\xA9") {
        Reception::Complete(Ok(ResponseCode::VersionString { desc, version })) => {
            assert_eq!((version, desc.as_str()), (1, "\u{e9}"))
        }
        other => panic!("{:?}", other),
    }
    // No text
    assert_invalid(b"\xE0\x05\x00\x01\xFF");
}

#[test]
fn longest_version_string() {
    let mut frame = vec![0xE0, 255, 0x00, 7];
    frame.resize(255, b'x');
    frame.push(0xFF);
    match read(&frame) {
        Reception::Complete(Ok(ResponseCode::VersionString { desc, version })) => {
            assert_eq!((version, desc), (7, "x".repeat(251)))
        }
        other => panic!("{:?}", other),
    }
}

#[test]
fn invalid_responses() {
    // Wrong start byte
    assert_invalid(&[0xE1, 4, 0x70, 0]);
    // Wrong code
    assert_invalid(&[0xE0, 4, 0x71, 0]);
    // Length below that of the header
    assert_invalid(&[0xE0, 2, 0x70]);
    // No command
    assert_invalid(&[0xE0, 3, 0x70]);
    // No reason
    assert_invalid(&[0xE0, 4, 0x7F, 1]);
    // Too long
    assert_invalid(&[0xE0, 5, 0x70, 1, 2]);
    assert_invalid(&[0xE0, 6, 0x7F, 1, 2, 3]);
    // No version
    assert_invalid(&[0xE0, 3, 0x00]);
}

#[test]
fn failed_reads() {
    assert!(matches!(
        read(&[]),
        Reception::Complete(Err(ResponseFailure::Timeout))
    ));
    let error = std::io::Error::new(std::io::ErrorKind::Other, "unplugged");
    match ResponseReader::new().read(Err(error)) {
        Reception::Complete(Err(ResponseFailure::IoError(error))) => {
            assert_eq!(error.to_string(), "unplugged")
        }
        other => panic!("{:?}", other),
    }
}

#[test]
fn headers() {
    assert_eq!(frame_header(0x03, &[0]), [0xE0, 4, 0x03]);
    assert_eq!(frame_header(0x00, &[]), [0xE0, 3, 0x00]);
    assert_eq!(frame_header(0x02, &[0; 252]), [0xE0, 255, 0x02]);
    // The length byte holds what fits.
    assert_eq!(frame_header(0x02, &[0; 253]), [0xE0, 0, 0x02]);
    assert_eq!(frame_header(0x02, &[0; 600]), [0xE0, 91, 0x02]);
}

#[test]
fn initialization() {
    let commands = init_commands(true, 255);
    let codes: Vec<u8> = commands.iter().map(|command| command.cmd).collect();
    assert_eq!(codes, [0x00, 0x02, 0x04]);
    assert!(commands[0].data.is_empty());
    assert_eq!(
        commands[1].data,
        [0x90, 0x20, 10, 0, 0, 0, 0, 0, 128, 0, 0, 0, 0, 0, 0, 0, 0, 255]
    );
    assert_eq!(
        commands[2].data,
        [0, 0x2C, 0xAD, 0x39, 0x1A, 0x2C, 0xAD, 0x39, 0x1A, 0xFF, 0x2C, 0xAD, 0x39, 0x1A]
    );
    let commands = init_commands(false, 30);
    assert_eq!((commands[1].data[0], commands[1].data[17]), (0x80, 30));
    assert_eq!((set_idle().cmd, set_idle().data), (0x03, vec![0]));
}

#[test]
fn batches() {
    let words: Vec<u32> = (0..POCSAG_CWS_PER_BATCH as u32).map(|i| 0x01020304 * i).collect();
    let batch = Batch::new(&words);
    assert_eq!(batch.header(), [0xE0, 71, 0x50]);
    let bytes: Vec<u8> = words.iter().flat_map(|word| word.to_be_bytes()).collect();
    assert_eq!(batch.payload(), bytes);
    assert_eq!(Batch::new(&[0x7CD215D8]).payload(), [0x7C, 0xD2, 0x15, 0xD8]);
}

#[test]
fn packets_are_repeated_while_buffer_is_full() {
    assert_eq!(Batch::new(&[]).action(), Action::Finish);
    let mut batch = Batch::new(&[1]);
    assert_eq!(batch.action(), Action::Write);
    batch.record(&Err(ResponseFailure::Nack(0x50, MmdvmNackReason::BufferFull)));
    assert_eq!(batch.action(), Action::Write);
    batch.record(&Err(ResponseFailure::Nack(0x50, MmdvmNackReason::WrongMode)));
    assert_eq!(batch.action(), Action::NextBatch);
    batch.record(&Err(ResponseFailure::Nack(0x50, MmdvmNackReason::BufferFull)));
    batch.record(&Err(ResponseFailure::Timeout));
    assert_eq!(batch.action(), Action::NextBatch);
    batch.record(&Err(ResponseFailure::Nack(0x50, MmdvmNackReason::BufferFull)));
    batch.record(&Ok(ResponseCode::Ack(0x50)));
    assert_eq!(batch.action(), Action::NextBatch);
}

fn buffer_full() -> Result<ResponseCode, ResponseFailure> {
    Err(ResponseFailure::Nack(0x50, MmdvmNackReason::BufferFull))
}

// What goes to a modem that has no room for the packet with number `i`
// `refusals[i]` times.
fn written(words: &[u32], refusals: &[usize]) -> Vec<u8> {
    let mut words = words.iter().copied();
    let mut refusals: Vec<usize> = refusals.to_vec();
    let mut packet = 0;
    let mut sender = Sender::new();
    let mut bytes = Vec::new();
    loop {
        match sender.action() {
            SendAction::Take => sender.take_word(words.next()),
            SendAction::Write => {
                bytes.extend_from_slice(&sender.header());
                bytes.extend_from_slice(sender.payload());
                if packet < refusals.len() && refusals[packet] > 0 {
                    refusals[packet] -= 1;
                    sender.respond(&buffer_full());
                } else {
                    packet += 1;
                    sender.respond(&Ok(ResponseCode::Ack(0x50)));
                }
            }
            SendAction::SetIdle => {
                let idle = set_idle();
                bytes.extend_from_slice(&frame_header(idle.cmd, &idle.data));
                bytes.extend_from_slice(&idle.data);
                sender.respond(&buffer_full());
            }
            SendAction::Done => return bytes,
        }
    }
}

fn packet(words: &[u32]) -> Vec<u8> {
    let mut bytes = vec![0xE0, 4 * words.len() as u8 + 3, 0x50];
    bytes.extend(words.iter().flat_map(|word| word.to_be_bytes()));
    bytes
}

#[test]
fn one_codeword_is_sent() {
    assert_eq!(
        written(&[0x7A89C197], &[]),
        [0xE0, 0x07, 0x50, 0x7A, 0x89, 0xC1, 0x97, 0xE0, 0x04, 0x03, 0x00]
    );
}

#[test]
fn no_codeword_leaves_the_modem_idle() {
    assert_eq!(written(&[], &[]), [0xE0, 0x04, 0x03, 0x00]);
}

#[test]
fn codewords_are_sent_in_batches() {
    for length in [1, 16, 17, 18, 34, 52] {
        let words: Vec<u32> = (0..length).map(|i| 0x01010101 * i).collect();
        let mut expected: Vec<u8> = words.chunks(POCSAG_CWS_PER_BATCH).flat_map(packet).collect();
        expected.extend_from_slice(&[0xE0, 4, 3, 0]);
        assert_eq!(written(&words, &[]), expected);
    }
}

#[test]
fn refused_packets_are_sent_again() {
    let words: Vec<u32> = (0..20).collect();
    let first = packet(&words[..17]);
    let second = packet(&words[17..]);
    let mut expected = Vec::new();
    for part in [&first, &first, &first, &second, &second] {
        expected.extend_from_slice(part);
    }
    expected.extend_from_slice(&[0xE0, 4, 3, 0]);
    assert_eq!(written(&words, &[2, 1]), expected);
}

#[test]
fn other_failures_do_not_repeat_a_packet() {
    let failures = [
        Err(ResponseFailure::Timeout),
        Err(ResponseFailure::InvalidData(Vec::new())),
        Err(ResponseFailure::Nack(0x50, MmdvmNackReason::WrongMode)),
        Err(ResponseFailure::IoError(std::io::Error::new(std::io::ErrorKind::Other, "gone"))),
    ];
    for failure in failures {
        let mut sender = Sender::new();
        sender.take_word(Some(1));
        sender.take_word(None);
        assert_eq!(sender.action(), SendAction::Write);
        sender.respond(&failure);
        assert_eq!(sender.action(), SendAction::Take);
        sender.take_word(None);
        assert_eq!(sender.action(), SendAction::SetIdle);
        sender.respond(&failure);
        assert_eq!(sender.action(), SendAction::Done);
    }
}
