//! Hard transport failures: a port that reports a non-timeout I/O error is
//! fatal in every phase, and the error names the phase it arose in.

use filink::receiver::{ReceiverError, ReceiverFsm, ReceiverPhase};
use filink::sender::{SenderError, SenderFsm, SendFile, SenderPhase};
use filink::serial::{IoFault, ReadOutcome, SerialPort};

/// A port whose reads fail hard after a scripted prefix of good bytes.
struct BreakingPort {
    bytes: Vec<u8>,
    pos: usize,
}

impl SerialPort for BreakingPort {
    // Model items of the transport trait: erased by verification, never
    // called at run time.
    fn incoming(&self) -> filink::serial::IncomingModel {
        unreachable!()
    }

    fn sent(&self) -> filink::serial::SentModel {
        unreachable!()
    }

    fn write_all(&mut self, _buf: &[u8]) -> Result<(), ()> {
        Ok(())
    }

    fn read_timeout(&mut self, _timeout_ms: u64) -> ReadOutcome {
        if self.pos < self.bytes.len() {
            let b = self.bytes[self.pos];
            self.pos += 1;
            ReadOutcome::Byte(b)
        } else {
            ReadOutcome::Failed
        }
    }
}

#[test]
fn test_sender_hard_error_is_fatal_with_phase() {
    let port = BreakingPort { bytes: vec![], pos: 0 };
    let files = vec![SendFile { name: b"x.txt".to_vec(), data: b"x".to_vec() }];
    let mut fsm = SenderFsm::new(port, files);

    let err = fsm.step().expect_err("hard error must be fatal");
    assert_eq!(
        err,
        SenderError::Io(
            SenderPhase::InitialHandshake(filink::sender::InitialHandshake),
            IoFault::Broken
        )
    );
}

#[test]
fn test_receiver_hard_error_is_fatal_with_phase() {
    // The handshake byte arrives, then the line breaks while waiting for `G`.
    let port = BreakingPort { bytes: vec![0x52], pos: 0 };
    let mut fsm = ReceiverFsm::new(port);

    fsm.step().expect("handshake should succeed");
    let err = fsm.step().expect_err("hard error must be fatal");
    assert_eq!(
        err,
        ReceiverError::Io(
            ReceiverPhase::WaitGood(filink::receiver::WaitGood),
            IoFault::Broken
        )
    );
}
