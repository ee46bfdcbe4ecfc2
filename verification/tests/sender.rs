use filink::protocol::{
    BAD, BS, ENQ, EOT, ETX, GOOD, PROCEED, RECEIVER_READY, SENDER_READY, STX, TAB, XOFF,
};
use filink::sender::{RequestFilename, SendFile, SenderError, SenderFsm, SenderPhase};
use filink::serial::{IoFault, MockSerialPort};

fn run_sender(fsm: &mut SenderFsm<MockSerialPort>) -> Result<(), SenderError> {
    loop {
        match fsm.step() {
            Ok(()) => {}
            Err(SenderError::TransferComplete) => return Ok(()),
            Err(e) => return Err(e),
        }
    }
}

fn send_file(name: &[u8], data: &[u8]) -> SendFile {
    SendFile { name: name.to_vec(), data: data.to_vec() }
}

fn padded_block(data: &[u8]) -> Vec<u8> {
    let mut block = data.to_vec();
    block.resize(128, 0x1A);
    block
}

fn xor_of(block: &[u8]) -> u8 {
    let mut sum = 0u8;
    for &b in block {
        sum ^= b;
    }
    sum
}

#[test]
fn test_sender_full_transfer() {
    let mut responses = vec![Some(RECEIVER_READY), Some(BS)];
    for ch in b"SENDER_TTXT" {
        responses.push(Some(*ch));
    }
    responses.push(Some(TAB));
    responses.push(Some(PROCEED));
    responses.push(Some(GOOD));

    let mut expected_writes = vec![SENDER_READY, GOOD, EOT];
    expected_writes.extend_from_slice(b"SENDER_TTXT");
    expected_writes.push(ENQ);
    expected_writes.push(STX);
    let block = padded_block(b"Test data");
    let checksum = xor_of(&block);
    assert_eq!(checksum, 0x1C, "checksum of the padded block");
    expected_writes.extend_from_slice(&block);
    expected_writes.push(checksum);
    expected_writes.push(ETX);
    expected_writes.push(XOFF);

    let mock_serial = MockSerialPort::new(responses, expected_writes);
    let files = vec![send_file(b"sender_test_small.txt", b"Test data")];
    let mut fsm = SenderFsm::new(mock_serial, files);

    match run_sender(&mut fsm) {
        Ok(()) => {}
        Err(e) => panic!("Transfer failed: {:?}", e),
    }
    assert!(fsm.transport().script_consumed());
    assert!(fsm.transport().writes_match());
}

#[test]
fn test_sender_handshake_retry() {
    let responses = vec![None, Some(RECEIVER_READY)];
    let expected_writes = vec![SENDER_READY, SENDER_READY, GOOD];

    let mock_serial = MockSerialPort::new(responses, expected_writes);
    let files = vec![send_file(b"dummy.txt", b"")];
    let mut fsm = SenderFsm::new(mock_serial, files);

    for _ in 0..3 {
        fsm.step().expect("Should succeed");
    }
    assert!(fsm.transport().script_consumed());
    assert!(fsm.transport().writes_match());
}

#[test]
fn test_sender_filename_mismatch() {
    let mut responses = vec![Some(RECEIVER_READY), Some(BS)];
    for ch in b"MISK" {
        responses.push(Some(*ch));
    }
    responses.push(Some(BS));
    for ch in b"MISMATCHTXT" {
        responses.push(Some(*ch));
    }
    responses.push(Some(TAB));
    responses.push(Some(PROCEED));
    responses.push(Some(GOOD));

    let mut expected_writes = vec![SENDER_READY, GOOD, EOT];
    expected_writes.extend_from_slice(b"MISM");
    expected_writes.push(0x04);
    expected_writes.extend_from_slice(b"MISMATCHTXT");
    expected_writes.push(ENQ);
    expected_writes.push(STX);
    let block = padded_block(b"test");
    let checksum = xor_of(&block);
    expected_writes.extend_from_slice(&block);
    expected_writes.push(checksum);
    expected_writes.push(ETX);
    expected_writes.push(XOFF);

    let mock_serial = MockSerialPort::new(responses, expected_writes);
    let files = vec![send_file(b"mismatch.txt", b"test")];
    let mut fsm = SenderFsm::new(mock_serial, files);

    match run_sender(&mut fsm) {
        Ok(()) => {}
        Err(e) => panic!("Transfer failed: {:?}", e),
    }
    assert!(fsm.transport().script_consumed());
    assert!(fsm.transport().writes_match());
}

#[test]
fn test_sender_bad_checksum_retry() {
    let mut responses = vec![Some(RECEIVER_READY), Some(BS)];
    for ch in b"BADCHECKTXT" {
        responses.push(Some(*ch));
    }
    responses.push(Some(TAB));
    responses.push(Some(PROCEED));
    responses.push(Some(BAD));
    responses.push(Some(PROCEED));
    responses.push(Some(GOOD));

    let mut expected_writes = vec![SENDER_READY, GOOD, EOT];
    expected_writes.extend_from_slice(b"BADCHECKTXT");
    expected_writes.push(ENQ);
    let block = padded_block(b"retry");
    let checksum = xor_of(&block);
    assert_eq!(checksum, 0x72, "checksum of the padded block");
    expected_writes.push(STX);
    expected_writes.extend_from_slice(&block);
    expected_writes.push(checksum);
    expected_writes.push(STX);
    expected_writes.extend_from_slice(&block);
    expected_writes.push(checksum);
    expected_writes.push(ETX);
    expected_writes.push(XOFF);

    let mock_serial = MockSerialPort::new(responses, expected_writes);
    let files = vec![send_file(b"badcheck.txt", b"retry")];
    let mut fsm = SenderFsm::new(mock_serial, files);

    match run_sender(&mut fsm) {
        Ok(()) => {}
        Err(e) => panic!("Transfer failed: {:?}", e),
    }
    assert!(fsm.transport().script_consumed());
    assert!(fsm.transport().writes_match());
}

#[test]
fn test_sender_multiple_blocks() {
    let mut content = Vec::new();
    for i in 0..300 {
        content.push((i % 256) as u8);
    }

    let mut responses = vec![Some(RECEIVER_READY), Some(BS)];
    for ch in b"MULTIBLOTXT" {
        responses.push(Some(*ch));
    }
    responses.push(Some(TAB));
    for _i in 0..3 {
        responses.push(Some(PROCEED));
        responses.push(Some(GOOD));
    }

    let mut expected_writes = vec![SENDER_READY, GOOD, EOT];
    expected_writes.extend_from_slice(b"MULTIBLOTXT");
    expected_writes.push(ENQ);
    for block_num in 0..3 {
        expected_writes.push(STX);
        let start = block_num * 128;
        let end = if start + 128 < 300 { start + 128 } else { 300 };
        let block = padded_block(&content[start..end]);
        let checksum = xor_of(&block);
        expected_writes.extend_from_slice(&block);
        expected_writes.push(checksum);
    }
    expected_writes.push(ETX);
    expected_writes.push(XOFF);

    let mock_serial = MockSerialPort::new(responses, expected_writes);
    let files = vec![send_file(b"multiblock.txt", &content)];
    let mut fsm = SenderFsm::new(mock_serial, files);

    match run_sender(&mut fsm) {
        Ok(()) => {}
        Err(e) => panic!("Transfer failed: {:?}", e),
    }
    assert!(fsm.transport().script_consumed());
    assert!(fsm.transport().writes_match());
}

#[test]
fn test_sender_multiple_files() {
    let mut responses = vec![Some(RECEIVER_READY)];

    responses.push(Some(BS));
    for ch in b"FIRST   TXT" {
        responses.push(Some(*ch));
    }
    responses.push(Some(TAB));
    responses.push(Some(PROCEED));
    responses.push(Some(GOOD));

    responses.push(Some(BS));
    for ch in b"SECOND  TXT" {
        responses.push(Some(*ch));
    }
    responses.push(Some(TAB));
    responses.push(Some(PROCEED));
    responses.push(Some(GOOD));

    let mut expected_writes = vec![SENDER_READY, GOOD, EOT];

    expected_writes.extend_from_slice(b"FIRST   TXT");
    expected_writes.push(ENQ);
    expected_writes.push(STX);
    let block1 = padded_block(b"first");
    let checksum1 = xor_of(&block1);
    expected_writes.extend_from_slice(&block1);
    expected_writes.push(checksum1);
    expected_writes.push(ETX);

    expected_writes.push(0x04);
    expected_writes.extend_from_slice(b"SECOND  TXT");
    expected_writes.push(ENQ);
    expected_writes.push(STX);
    let block2 = padded_block(b"second");
    let checksum2 = xor_of(&block2);
    expected_writes.extend_from_slice(&block2);
    expected_writes.push(checksum2);
    expected_writes.push(ETX);

    expected_writes.push(XOFF);

    let mock_serial = MockSerialPort::new(responses, expected_writes);
    let files = vec![send_file(b"first.txt", b"first"), send_file(b"second.txt", b"second")];
    let mut fsm = SenderFsm::new(mock_serial, files);

    match run_sender(&mut fsm) {
        Ok(()) => {}
        Err(e) => panic!("Transfer failed: {:?}", e),
    }
    assert!(fsm.transport().script_consumed());
    assert!(fsm.transport().writes_match());
}

#[test]
fn test_sender_empty_file_list_is_fatal() {
    // With nothing to send the engine fails at the filename exchange,
    // after the handshake and before any further wire traffic.
    let responses = vec![Some(RECEIVER_READY)];
    let expected_writes = vec![SENDER_READY, GOOD];

    let mock_serial = MockSerialPort::new(responses, expected_writes);
    let mut fsm = SenderFsm::new(mock_serial, Vec::new());

    fsm.step().expect("handshake should succeed");
    fsm.step().expect("good should be sent");
    let err = run_sender(&mut fsm).expect_err("no files must be fatal");
    assert_eq!(
        err,
        SenderError::Io(SenderPhase::RequestFilename(RequestFilename), IoFault::NoFiles)
    );
    assert!(fsm.transport().script_consumed());
    assert!(fsm.transport().writes_match());
}

#[test]
fn test_sender_empty_file_sends_no_block() {
    // A zero-byte file is framed as filename, ETX, XOFF: no STX, no block.
    let mut responses = vec![Some(RECEIVER_READY), Some(BS)];
    for ch in b"EMPTY      " {
        responses.push(Some(*ch));
    }
    responses.push(Some(TAB));

    let mut expected_writes = vec![SENDER_READY, GOOD, EOT];
    expected_writes.extend_from_slice(b"EMPTY      ");
    expected_writes.push(ENQ);
    expected_writes.push(ETX);
    expected_writes.push(XOFF);

    let mock_serial = MockSerialPort::new(responses, expected_writes);
    let files = vec![send_file(b"empty", b"")];
    let mut fsm = SenderFsm::new(mock_serial, files);

    match run_sender(&mut fsm) {
        Ok(()) => {}
        Err(e) => panic!("Transfer failed: {:?}", e),
    }
    assert!(fsm.transport().script_consumed());
    assert!(fsm.transport().writes_match());
}

#[test]
fn test_sender_timeout_after_handshake_is_fatal() {
    // A read timeout anywhere after the initial handshake ends the session.
    let responses = vec![Some(RECEIVER_READY), None];
    let expected_writes = vec![SENDER_READY, GOOD, EOT];

    let mock_serial = MockSerialPort::new(responses, expected_writes);
    let files = vec![send_file(b"late.txt", b"x")];
    let mut fsm = SenderFsm::new(mock_serial, files);

    let err = run_sender(&mut fsm).expect_err("timeout must be fatal");
    assert_eq!(
        err,
        SenderError::Io(SenderPhase::RequestFilename(RequestFilename), IoFault::TimedOut)
    );
    assert!(fsm.transport().script_consumed());
    assert!(fsm.transport().writes_match());
}

#[test]
fn test_block_checksum_exact_values() {
    let zeros = vec![0u8; 128];
    assert_eq!(filink::protocol::block_checksum(&zeros), 0);

    let mut ramp = Vec::new();
    for i in 0..128 {
        ramp.push(i as u8);
    }
    // XOR of 0..=127 pairs off to zero.
    assert_eq!(filink::protocol::block_checksum(&ramp), 0);

    let mut one = vec![0u8; 128];
    one[5] = 0xA5;
    assert_eq!(filink::protocol::block_checksum(&one), 0xA5);

    assert_eq!(filink::protocol::block_checksum(&padded_block(b"Test data")), 0x1C);
}
