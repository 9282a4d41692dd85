use landrop::transfer::decode_filename;
use landrop::transfer::decode_handshake;
use landrop::transfer::decode_transfer;
use landrop::transfer::encode_handshake;
use landrop::transfer::encode_transfer;
use landrop::transfer::handshake_for_name;
use landrop::transfer::storage_name;
use landrop::transfer::transfer_step;
use landrop::transfer::u32_from_be;
use landrop::transfer::u32_to_be;
use landrop::transfer::RecvError;
use landrop::transfer::SendError;
use landrop::transfer::SendStage;
use landrop::transfer::TransferEvent;
use landrop::transfer::TransferRole;
use landrop::transfer::TransferState;
use landrop::transfer::CHUNK_SIZE;
use landrop::DISCOVERY_PORT;
use landrop::PROBE_PORT;
use landrop::TRANSFER_PORT;

#[test]
fn well_known_constants() {
    assert_eq!(DISCOVERY_PORT, 34254);
    assert_eq!(PROBE_PORT, 34255);
    assert_eq!(TRANSFER_PORT, 7878);
    assert_eq!(CHUNK_SIZE, 1024);
}

#[test]
fn u32_big_endian_bytes_are_exact() {
    assert_eq!(u32_to_be(0x01020304), vec![1, 2, 3, 4]);
    assert_eq!(u32_to_be(0), vec![0, 0, 0, 0]);
    assert_eq!(u32_to_be(u32::MAX), vec![0xff, 0xff, 0xff, 0xff]);
    assert_eq!(u32_from_be(1, 2, 3, 4), 0x01020304);
    assert_eq!(u32_from_be(0, 0, 0, 9), 9);
}

#[test]
fn handshake_bytes_are_length_then_name() {
    let enc = encode_handshake(&b"ab".to_vec());
    assert_eq!(enc, vec![0, 0, 0, 2, b'a', b'b']);
}

#[test]
fn handshake_roundtrip_preserves_name() {
    let name = b"hello.txt".to_vec();
    let enc = encode_handshake(&name);
    let (decoded, off) = decode_handshake(&enc).expect("well-formed handshake must decode");
    assert_eq!(decoded, name);
    assert_eq!(off, 4 + name.len());
    assert_eq!(decode_filename(decoded).unwrap(), "hello.txt");
}

#[test]
fn handshake_roundtrip_empty_name() {
    let enc = encode_handshake(&Vec::new());
    assert_eq!(enc, vec![0, 0, 0, 0]);
    let (decoded, off) = decode_handshake(&enc).expect("empty name must decode");
    assert!(decoded.is_empty());
    assert_eq!(off, 4);
    assert_eq!(decode_filename(decoded).unwrap(), "");
}

#[test]
fn handshake_for_name_matches_byte_encoding() {
    let h = handshake_for_name("notes.txt").expect("short name must fit");
    assert_eq!(h, encode_handshake(&b"notes.txt".to_vec()));
}

#[test]
fn decode_rejects_short_header() {
    assert_eq!(decode_handshake(&vec![0, 0, 1]), Err(RecvError::ShortHeader));
    assert_eq!(decode_handshake(&Vec::new()), Err(RecvError::ShortHeader));
}

#[test]
fn decode_rejects_short_name() {
    assert_eq!(decode_handshake(&vec![0, 0, 0, 5, b'a']), Err(RecvError::ShortName));
}

#[test]
fn decode_rejects_bad_utf8_name() {
    assert_eq!(decode_filename(vec![0xff, 0xfe]), Err(RecvError::BadUtf8));
    let wire = encode_transfer(&vec![0xff, 0xfe], &b"body".to_vec());
    assert_eq!(decode_transfer(&wire), Err(RecvError::BadUtf8));
}

#[test]
fn transfer_roundtrip_ten_byte_file() {
    let name = b"data.bin".to_vec();
    let content = vec![1u8, 2, 3, 4, 5, 6, 7, 8, 9, 10];
    let wire = encode_transfer(&name, &content);
    assert_eq!(wire.len(), 4 + name.len() + 10);
    let (got_name, got_content) = decode_transfer(&wire).expect("stream must decode");
    assert_eq!(got_name, "data.bin");
    assert_eq!(got_content, content);
}

#[test]
fn transfer_roundtrip_empty_file() {
    let wire = encode_transfer(&b"empty".to_vec(), &Vec::new());
    let (got_name, got_content) = decode_transfer(&wire).expect("stream must decode");
    assert_eq!(got_name, "empty");
    assert!(got_content.is_empty());
}

#[test]
fn two_connections_one_notification_each() {
    let wire_a = encode_transfer(&b"a.txt".to_vec(), &b"first".to_vec());
    let wire_b = encode_transfer(&b"b.txt".to_vec(), &b"second".to_vec());
    let mut notifications = Vec::new();
    for wire in [&wire_b, &wire_a] {
        let (name, _) = decode_transfer(wire).expect("stream must decode");
        notifications.push(name);
    }
    assert_eq!(notifications.len(), 2);
    assert!(notifications.contains(&"a.txt".to_string()));
    assert!(notifications.contains(&"b.txt".to_string()));
    assert_ne!(notifications[0], notifications[1]);
}

#[test]
fn sender_states_follow_the_happy_path() {
    let role = TransferRole::Sender;
    let mut s = TransferState::Idle;
    s = transfer_step(role, s, TransferEvent::Begin);
    assert_eq!(s, TransferState::Connecting);
    s = transfer_step(role, s, TransferEvent::HandshakeDone);
    assert_eq!(s, TransferState::HandshakeSent);
    s = transfer_step(role, s, TransferEvent::ChunkMoved);
    assert_eq!(s, TransferState::Streaming);
    s = transfer_step(role, s, TransferEvent::ChunkMoved);
    assert_eq!(s, TransferState::Streaming);
    s = transfer_step(role, s, TransferEvent::EndOfStream);
    assert_eq!(s, TransferState::Closed);
}

#[test]
fn receiver_reaches_handshake_received() {
    let role = TransferRole::Receiver;
    let s = transfer_step(role, TransferState::Connecting, TransferEvent::HandshakeDone);
    assert_eq!(s, TransferState::HandshakeReceived);
}

#[test]
fn io_error_fails_the_transfer_for_good() {
    let role = TransferRole::Sender;
    let s = transfer_step(role, TransferState::Streaming, TransferEvent::IoError);
    assert_eq!(s, TransferState::Failed);
    for event in [
        TransferEvent::Begin,
        TransferEvent::HandshakeDone,
        TransferEvent::ChunkMoved,
        TransferEvent::EndOfStream,
        TransferEvent::IoError,
    ] {
        assert_eq!(transfer_step(role, TransferState::Failed, event), TransferState::Failed);
    }
}

#[test]
fn closed_transfer_stays_closed() {
    let role = TransferRole::Receiver;
    assert_eq!(
        transfer_step(role, TransferState::Closed, TransferEvent::ChunkMoved),
        TransferState::Closed
    );
}

#[test]
fn storage_name_is_the_final_component() {
    assert_eq!(storage_name("notes.txt"), "notes.txt");
    assert_eq!(storage_name("dir/sub/file.txt"), "file.txt");
    assert_eq!(storage_name("C:\\users\\me\\file.txt"), "file.txt");
    assert_eq!(storage_name("../../etc/passwd"), "passwd");
}

#[test]
fn storage_name_falls_back_when_empty() {
    assert_eq!(storage_name(""), "received.bin");
    assert_eq!(storage_name("dir/"), "received.bin");
    assert_eq!(storage_name("/"), "received.bin");
}

#[test]
fn send_error_message_names_the_failed_stage() {
    let e = SendError { stage: SendStage::OpenFile, detail: "No such file".to_string() };
    assert_eq!(e.message(), "could not open file: No such file");
    let e = SendError { stage: SendStage::Connect, detail: "refused".to_string() };
    assert_eq!(e.message(), "could not connect to peer: refused");
    let e = SendError { stage: SendStage::ReadFile, detail: "gone".to_string() };
    assert_eq!(e.message(), "could not read file: gone");
    let e = SendError { stage: SendStage::WriteStream, detail: "reset".to_string() };
    assert_eq!(e.message(), "could not write to peer: reset");
}
