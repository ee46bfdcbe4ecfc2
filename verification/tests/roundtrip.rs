//! Round-trip runs: a sender and a receiver coupled by a lossless in-memory
//! byte pipe, with no scripted replies — every byte each engine reads is one
//! the other engine wrote.

use std::cell::RefCell;
use std::collections::VecDeque;
use std::rc::Rc;

use filink::receiver::{ReceiverError, ReceiverFsm};
use filink::sender::{SendFile, SenderError, SenderFsm};
use filink::serial::{ReadOutcome, SerialPort};

type Queue = Rc<RefCell<VecDeque<u8>>>;

struct ReceiverPipe {
    from_sender: Queue,
    to_sender: Queue,
}

impl SerialPort for ReceiverPipe {
    // Model items of the transport trait: erased by verification, never
    // called at run time.
    fn incoming(&self) -> filink::serial::IncomingModel {
        unreachable!()
    }

    fn sent(&self) -> filink::serial::SentModel {
        unreachable!()
    }

    fn write_all(&mut self, buf: &[u8]) -> Result<(), ()> {
        for &b in buf {
            self.to_sender.borrow_mut().push_back(b);
        }
        Ok(())
    }

    fn read_timeout(&mut self, _timeout_ms: u64) -> ReadOutcome {
        match self.from_sender.borrow_mut().pop_front() {
            Some(b) => ReadOutcome::Byte(b),
            None => ReadOutcome::TimedOut,
        }
    }
}

/// The sender's end of the pipe. When the sender needs a reply that is not
/// there yet, the pipe runs the receiver until it produces one: the two
/// engines advance in exactly the ping-pong order the protocol prescribes.
struct SenderPipe {
    to_receiver: Queue,
    from_receiver: Queue,
    receiver: Rc<RefCell<ReceiverFsm<ReceiverPipe>>>,
    receiver_done: Rc<RefCell<bool>>,
}

impl SerialPort for SenderPipe {
    // Model items of the transport trait: erased by verification, never
    // called at run time.
    fn incoming(&self) -> filink::serial::IncomingModel {
        unreachable!()
    }

    fn sent(&self) -> filink::serial::SentModel {
        unreachable!()
    }

    fn write_all(&mut self, buf: &[u8]) -> Result<(), ()> {
        for &b in buf {
            self.to_receiver.borrow_mut().push_back(b);
        }
        Ok(())
    }

    fn read_timeout(&mut self, _timeout_ms: u64) -> ReadOutcome {
        let mut guard = 0;
        while self.from_receiver.borrow().is_empty() && !*self.receiver_done.borrow() {
            guard += 1;
            assert!(guard < 100_000, "receiver made no progress");
            match self.receiver.borrow_mut().step() {
                Ok(()) => {}
                Err(ReceiverError::TransferComplete) => {
                    *self.receiver_done.borrow_mut() = true;
                }
                Err(e) => panic!("receiver failed: {:?}", e),
            }
        }
        match self.from_receiver.borrow_mut().pop_front() {
            Some(b) => ReadOutcome::Byte(b),
            None => ReadOutcome::TimedOut,
        }
    }
}

/// Runs a full session over the pipe and returns the received files as
/// (name, contents) pairs.
fn run_session(files: Vec<SendFile>) -> Vec<(String, Vec<u8>)> {
    let sender_to_receiver: Queue = Rc::new(RefCell::new(VecDeque::new()));
    let receiver_to_sender: Queue = Rc::new(RefCell::new(VecDeque::new()));
    let receiver_done = Rc::new(RefCell::new(false));

    let receiver = Rc::new(RefCell::new(ReceiverFsm::new(ReceiverPipe {
        from_sender: Rc::clone(&sender_to_receiver),
        to_sender: Rc::clone(&receiver_to_sender),
    })));

    let mut sender = SenderFsm::new(
        SenderPipe {
            to_receiver: Rc::clone(&sender_to_receiver),
            from_receiver: Rc::clone(&receiver_to_sender),
            receiver: Rc::clone(&receiver),
            receiver_done: Rc::clone(&receiver_done),
        },
        files,
    );

    loop {
        match sender.step() {
            Ok(()) => {}
            Err(SenderError::TransferComplete) => break,
            Err(e) => panic!("sender failed: {:?}", e),
        }
    }

    // The final XOFF is read by the receiver after the sender is done.
    while !*receiver_done.borrow() {
        match receiver.borrow_mut().step() {
            Ok(()) => {}
            Err(ReceiverError::TransferComplete) => break,
            Err(e) => panic!("receiver failed: {:?}", e),
        }
    }

    let fsm = receiver.borrow();
    let out = fsm.output_files();
    let mut result = Vec::new();
    for f in out.iter() {
        result.push((f.name.clone(), f.data.clone()));
    }
    result
}

#[test]
fn test_round_trip_single_file() {
    let files = vec![SendFile { name: b"test.txt".to_vec(), data: b"Test data".to_vec() }];
    let received = run_session(files);

    assert_eq!(received.len(), 1);
    assert_eq!(received[0].0, "test.txt");
    let data = &received[0].1;
    // One block: the nine payload bytes, padded to 128 with 0x1A.
    assert_eq!(data.len(), 128);
    assert_eq!(&data[0..9], b"Test data");
    for &b in &data[9..] {
        assert_eq!(b, 0x1A);
    }
}

#[test]
fn test_round_trip_partition_into_files() {
    // A byte sequence split over two files with legal short names comes back
    // as two files whose concatenated contents begin with the sequence, each
    // one padded to a multiple of 128 bytes.
    let mut payload = Vec::new();
    for i in 0..300 {
        payload.push((i * 7 % 256) as u8);
    }
    let first: Vec<u8> = payload[0..130].to_vec();
    let second: Vec<u8> = payload[130..300].to_vec();

    let files = vec![
        SendFile { name: b"part1.bin".to_vec(), data: first.clone() },
        SendFile { name: b"part2.bin".to_vec(), data: second.clone() },
    ];
    let received = run_session(files);

    assert_eq!(received.len(), 2);
    assert_eq!(received[0].0, "part1.bin");
    assert_eq!(received[1].0, "part2.bin");

    // ceil(130 / 128) * 128 == 256; ceil(170 / 128) * 128 == 256.
    assert_eq!(received[0].1.len(), 256);
    assert_eq!(received[1].1.len(), 256);
    assert_eq!(&received[0].1[0..130], &first[..]);
    assert_eq!(&received[1].1[0..170], &second[..]);
    for &b in &received[0].1[130..] {
        assert_eq!(b, 0x1A);
    }
    for &b in &received[1].1[170..] {
        assert_eq!(b, 0x1A);
    }
}

#[test]
fn test_round_trip_exact_multiple_of_block() {
    // 384 bytes is exactly three blocks: no padding is visible.
    let mut payload = Vec::new();
    for i in 0..384 {
        payload.push((i % 256) as u8);
    }
    let files = vec![SendFile { name: b"exact.bin".to_vec(), data: payload.clone() }];
    let received = run_session(files);

    assert_eq!(received.len(), 1);
    assert_eq!(received[0].0, "exact.bin");
    assert_eq!(received[0].1, payload);
}
