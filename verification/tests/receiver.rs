use filink::protocol::{
    BAD, BS, ENQ, EOT, ETX, GOOD, NAK, PROCEED, RECEIVER_READY, SENDER_READY, STX, TAB, XOFF,
};
use filink::receiver::{ReceiverError, ReceiverFsm, ReceiverPhase, WaitGood};
use filink::serial::{IoFault, MockSerialPort};

fn run_receiver(fsm: &mut ReceiverFsm<MockSerialPort>) -> Result<(), ReceiverError> {
    loop {
        match fsm.step() {
            Ok(()) => {}
            Err(ReceiverError::TransferComplete) => return Ok(()),
            Err(e) => return Err(e),
        }
    }
}

fn padded_block(data: &[u8]) -> Vec<u8> {
    let mut block = data.to_vec();
    block.resize(128, 0x1A);
    block
}

fn xor_of(block: &[u8]) -> u8 {
    let mut sum = 0u8;
    for &b in block {
        sum ^= b;
    }
    sum
}

#[test]
fn test_receiver_full_transfer() {
    let mut responses = vec![Some(SENDER_READY), Some(GOOD), Some(EOT)];
    for ch in b"SMALL   TXT" {
        responses.push(Some(*ch));
    }
    responses.push(Some(ENQ));
    responses.push(Some(STX));

    let block = padded_block(b"Test data");
    let checksum = xor_of(&block);
    for &byte in &block {
        responses.push(Some(byte));
    }
    responses.push(Some(checksum));
    responses.push(Some(ETX));
    responses.push(Some(XOFF));

    let mut expected_writes = vec![RECEIVER_READY, BS];
    expected_writes.extend_from_slice(b"SMALL   TXT");
    expected_writes.push(TAB);
    expected_writes.push(PROCEED);
    expected_writes.push(GOOD);

    let mock_serial = MockSerialPort::new(responses, expected_writes);
    let mut fsm = ReceiverFsm::new(mock_serial);

    match run_receiver(&mut fsm) {
        Ok(()) => {}
        Err(e) => panic!("Transfer failed: {:?}", e),
    }

    let files = fsm.output_files();
    assert_eq!(files.len(), 1, "File should be created");
    assert_eq!(files[0].name, "small.txt");
    let content = &files[0].data;
    assert_eq!(&content[0..9], b"Test data", "File content should match");
    assert_eq!(content.len(), 128);

    assert!(fsm.transport().script_consumed());
    assert!(fsm.transport().writes_match());
}

#[test]
fn test_receiver_bad_checksum_retry() {
    let mut responses = vec![Some(SENDER_READY), Some(GOOD), Some(EOT)];
    for ch in b"BADCS   TXT" {
        responses.push(Some(*ch));
    }
    responses.push(Some(ENQ));
    responses.push(Some(STX));

    let block = padded_block(b"Bad cs");
    let correct_checksum = xor_of(&block);
    let bad_checksum = correct_checksum ^ 0xFF;

    for &byte in &block {
        responses.push(Some(byte));
    }
    responses.push(Some(bad_checksum));

    responses.push(Some(STX));
    for &byte in &block {
        responses.push(Some(byte));
    }
    responses.push(Some(correct_checksum));

    responses.push(Some(ETX));
    responses.push(Some(XOFF));

    let mut expected_writes = vec![RECEIVER_READY, BS];
    expected_writes.extend_from_slice(b"BADCS   TXT");
    expected_writes.push(TAB);
    expected_writes.push(PROCEED);
    expected_writes.push(BAD);
    expected_writes.push(PROCEED);
    expected_writes.push(GOOD);

    let mock_serial = MockSerialPort::new(responses, expected_writes);
    let mut fsm = ReceiverFsm::new(mock_serial);

    match run_receiver(&mut fsm) {
        Ok(()) => {}
        Err(e) => panic!("Transfer failed: {:?}", e),
    }

    let files = fsm.output_files();
    assert_eq!(files.len(), 1, "File should be created");
    assert_eq!(files[0].name, "badcs.txt");
    let content = &files[0].data;
    assert_eq!(&content[0..6], b"Bad cs", "File content should match");
    assert_eq!(content.len(), 128, "the rejected block must not be written");

    assert!(fsm.transport().script_consumed());
    assert!(fsm.transport().writes_match());
}

#[test]
fn test_receiver_multiple_blocks() {
    let mut responses = vec![Some(SENDER_READY), Some(GOOD), Some(EOT)];
    for ch in b"MULTI   TXT" {
        responses.push(Some(*ch));
    }
    responses.push(Some(ENQ));

    for block_num in 0..3 {
        responses.push(Some(STX));
        let mut block = vec![0u8; 128];
        for i in 0..128 {
            block[i] = ((block_num * 128 + i) % 256) as u8;
        }
        let checksum = xor_of(&block);
        for &byte in &block {
            responses.push(Some(byte));
        }
        responses.push(Some(checksum));
    }

    responses.push(Some(ETX));
    responses.push(Some(XOFF));

    let mut expected_writes = vec![RECEIVER_READY, BS];
    expected_writes.extend_from_slice(b"MULTI   TXT");
    expected_writes.push(TAB);
    for _ in 0..3 {
        expected_writes.push(PROCEED);
        expected_writes.push(GOOD);
    }

    let mock_serial = MockSerialPort::new(responses, expected_writes);
    let mut fsm = ReceiverFsm::new(mock_serial);

    match run_receiver(&mut fsm) {
        Ok(()) => {}
        Err(e) => panic!("Transfer failed: {:?}", e),
    }

    let files = fsm.output_files();
    assert_eq!(files.len(), 1, "File should be created");
    assert_eq!(files[0].name, "multi.txt");
    let content = &files[0].data;
    assert_eq!(content.len(), 384, "File should be 3 blocks (384 bytes)");
    for (i, &byte) in content.iter().enumerate() {
        assert_eq!(byte, (i % 256) as u8, "Byte at position {} should match", i);
    }

    assert!(fsm.transport().script_consumed());
    assert!(fsm.transport().writes_match());
}

#[test]
fn test_receiver_handshake_retry() {
    let responses = vec![None, Some(SENDER_READY), Some(GOOD)];
    let expected_writes = vec![RECEIVER_READY];

    let mock_serial = MockSerialPort::new(responses, expected_writes);
    let mut fsm = ReceiverFsm::new(mock_serial);

    for _ in 0..3 {
        fsm.step().expect("Should succeed");
    }
    assert!(fsm.transport().script_consumed());
    assert!(fsm.transport().writes_match());
}

#[test]
fn test_receiver_multiple_files() {
    let mut responses = vec![Some(SENDER_READY), Some(GOOD)];

    responses.push(Some(EOT));
    for ch in b"FILE1   TXT" {
        responses.push(Some(*ch));
    }
    responses.push(Some(ENQ));
    responses.push(Some(STX));

    let block1 = padded_block(b"First file data");
    let checksum1 = xor_of(&block1);
    for &byte in &block1 {
        responses.push(Some(byte));
    }
    responses.push(Some(checksum1));
    responses.push(Some(ETX));

    responses.push(Some(EOT));
    for ch in b"FILE2   TXT" {
        responses.push(Some(*ch));
    }
    responses.push(Some(ENQ));
    responses.push(Some(STX));

    let block2 = padded_block(b"Second file data");
    let checksum2 = xor_of(&block2);
    for &byte in &block2 {
        responses.push(Some(byte));
    }
    responses.push(Some(checksum2));
    responses.push(Some(ETX));

    responses.push(Some(XOFF));

    let mut expected_writes = vec![RECEIVER_READY];
    expected_writes.push(BS);
    expected_writes.extend_from_slice(b"FILE1   TXT");
    expected_writes.push(TAB);
    expected_writes.push(PROCEED);
    expected_writes.push(GOOD);
    expected_writes.push(BS);
    expected_writes.extend_from_slice(b"FILE2   TXT");
    expected_writes.push(TAB);
    expected_writes.push(PROCEED);
    expected_writes.push(GOOD);

    let mock_serial = MockSerialPort::new(responses, expected_writes);
    let mut fsm = ReceiverFsm::new(mock_serial);

    match run_receiver(&mut fsm) {
        Ok(()) => {}
        Err(e) => panic!("Transfer failed: {:?}", e),
    }

    let files = fsm.output_files();
    assert_eq!(files.len(), 2, "Both files should be created");
    assert_eq!(files[0].name, "file1.txt", "First file should be created");
    assert_eq!(files[1].name, "file2.txt", "Second file should be created");
    assert_eq!(&files[0].data[0..15], b"First file data", "First file content should match");
    assert_eq!(&files[1].data[0..16], b"Second file data", "Second file content should match");

    assert!(fsm.transport().script_consumed());
    assert!(fsm.transport().writes_match());
}

#[test]
fn test_receiver_rejects_control_byte_in_filename() {
    // A filename byte below 0x20 draws an `X` and abandons the exchange;
    // no file is created.
    let responses = vec![
        Some(SENDER_READY),
        Some(GOOD),
        Some(EOT),
        Some(b'A'),
        Some(0x07),
        Some(XOFF),
    ];
    let expected_writes = vec![RECEIVER_READY, BS, b'A', 0x58];

    let mock_serial = MockSerialPort::new(responses, expected_writes);
    let mut fsm = ReceiverFsm::new(mock_serial);

    match run_receiver(&mut fsm) {
        Ok(()) => {}
        Err(e) => panic!("Transfer failed: {:?}", e),
    }
    assert_eq!(fsm.output_files().len(), 0);
    assert!(fsm.transport().script_consumed());
    assert!(fsm.transport().writes_match());
}

#[test]
fn test_receiver_nak_on_unexpected_byte_before_block() {
    // Where STX or ETX is expected, any other byte draws an `N` and the
    // receiver keeps waiting.
    let mut responses = vec![Some(SENDER_READY), Some(GOOD), Some(EOT)];
    for ch in b"NAKCASE TXT" {
        responses.push(Some(*ch));
    }
    responses.push(Some(ENQ));
    responses.push(Some(0x7F));
    responses.push(Some(ETX));
    responses.push(Some(XOFF));

    let mut expected_writes = vec![RECEIVER_READY, BS];
    expected_writes.extend_from_slice(b"NAKCASE TXT");
    expected_writes.push(TAB);
    expected_writes.push(NAK);

    let mock_serial = MockSerialPort::new(responses, expected_writes);
    let mut fsm = ReceiverFsm::new(mock_serial);

    match run_receiver(&mut fsm) {
        Ok(()) => {}
        Err(e) => panic!("Transfer failed: {:?}", e),
    }
    let files = fsm.output_files();
    assert_eq!(files.len(), 1);
    assert_eq!(files[0].name, "nakcase.txt");
    assert_eq!(files[0].data.len(), 0);
    assert!(fsm.transport().script_consumed());
    assert!(fsm.transport().writes_match());
}

#[test]
fn test_receiver_timeout_after_handshake_is_fatal() {
    let responses = vec![Some(SENDER_READY), None];
    let expected_writes = vec![RECEIVER_READY];

    let mock_serial = MockSerialPort::new(responses, expected_writes);
    let mut fsm = ReceiverFsm::new(mock_serial);

    let err = run_receiver(&mut fsm).expect_err("timeout must be fatal");
    assert_eq!(
        err,
        ReceiverError::Io(ReceiverPhase::WaitGood(WaitGood), IoFault::TimedOut)
    );
    assert!(fsm.transport().script_consumed());
    assert!(fsm.transport().writes_match());
}

#[test]
fn test_receiver_create_failure_skips_file() {
    // When the caller cannot create the announced file, the receiver answers
    // `X`, skips the file, and the session stays alive to its normal end.
    let mut responses = vec![Some(SENDER_READY), Some(GOOD), Some(EOT)];
    for ch in b"NOPE    TXT" {
        responses.push(Some(*ch));
    }
    responses.push(Some(ENQ));
    responses.push(Some(XOFF));

    let mut expected_writes = vec![RECEIVER_READY, BS];
    expected_writes.extend_from_slice(b"NOPE    TXT");
    expected_writes.push(0x58);

    let mock_serial = MockSerialPort::new(responses, expected_writes);
    let mut fsm = ReceiverFsm::new(mock_serial);

    let mut saw_create = false;
    loop {
        if let Some(name) = fsm.awaiting_create() {
            assert_eq!(name, "nope.txt");
            saw_create = true;
            match fsm.file_created(false) {
                Ok(()) => {}
                Err(e) => panic!("create refusal failed: {:?}", e),
            }
            continue;
        }
        match fsm.step() {
            Ok(()) => {}
            Err(ReceiverError::TransferComplete) => break,
            Err(e) => panic!("Transfer failed: {:?}", e),
        }
    }
    assert!(saw_create, "the engine must pause for the file creation");
    assert_eq!(fsm.output_files().len(), 0, "the skipped file must not exist");
    assert!(fsm.transport().script_consumed());
    assert!(fsm.transport().writes_match());
}

#[test]
fn test_receiver_create_resolved_by_caller() {
    // The caller may resolve the creation itself; a successful resolution
    // gives the same session as letting `step` auto-resolve it.
    let mut responses = vec![Some(SENDER_READY), Some(GOOD), Some(EOT)];
    for ch in b"BYHAND  TXT" {
        responses.push(Some(*ch));
    }
    responses.push(Some(ENQ));
    responses.push(Some(STX));
    let block = padded_block(b"by hand");
    for &byte in &block {
        responses.push(Some(byte));
    }
    responses.push(Some(xor_of(&block)));
    responses.push(Some(ETX));
    responses.push(Some(XOFF));

    let mut expected_writes = vec![RECEIVER_READY, BS];
    expected_writes.extend_from_slice(b"BYHAND  TXT");
    expected_writes.push(TAB);
    expected_writes.push(PROCEED);
    expected_writes.push(GOOD);

    let mock_serial = MockSerialPort::new(responses, expected_writes);
    let mut fsm = ReceiverFsm::new(mock_serial);

    loop {
        if let Some(name) = fsm.awaiting_create() {
            assert_eq!(name, "byhand.txt");
            match fsm.file_created(true) {
                Ok(()) => {}
                Err(e) => panic!("create confirmation failed: {:?}", e),
            }
            continue;
        }
        match fsm.step() {
            Ok(()) => {}
            Err(ReceiverError::TransferComplete) => break,
            Err(e) => panic!("Transfer failed: {:?}", e),
        }
    }
    let files = fsm.output_files();
    assert_eq!(files.len(), 1);
    assert_eq!(files[0].name, "byhand.txt");
    assert_eq!(&files[0].data[0..7], b"by hand");
    assert!(fsm.transport().script_consumed());
    assert!(fsm.transport().writes_match());
}
