//! The receiver engine.
//!
//! The receiver waits for the sender's readiness announcement, acknowledges,
//! and for each announced file echoes the 11-byte filename byte by byte,
//! confirms, then for each block reads 128 payload bytes and a checksum
//! byte, compares, and acknowledges. An end-of-file returns it to the
//! filename-or-end phase; end-of-session terminates it.

use vstd::prelude::*;
use crate::protocol::{
    STX, ETX, EOT, ENQ, BS, TAB, XOFF, GOOD, BAD, NAK, PROCEED, SENDER_READY, RECEIVER_READY,
    ERROR, BLOCK_LEN, NAME_LEN, HANDSHAKE_TIMEOUT_MS, REPLY_TIMEOUT_MS, xor_fold, fill_bytes,
};
use crate::serial::{
    SerialPort, ReadOutcome, IoFault, next_outcome, after_read, read_one, send_byte,
};
use crate::filename::{SPACE, name_chars, parse_filename};

verus! {

/// Phase marker: read one byte with the long timeout; `R` is answered with
/// `S`, anything else (a timeout included) stays here.
#[derive(Clone, Copy, PartialEq, Eq, Structural, Debug)]
pub struct InitialHandshake;

/// Phase marker: wait for the sender's `G`.
#[derive(Clone, Copy, PartialEq, Eq, Structural, Debug)]
pub struct WaitGood;

/// Phase marker: wait for EOT (a file follows) or XOFF (session over).
#[derive(Clone, Copy, PartialEq, Eq, Structural, Debug)]
pub struct WaitFileOrEnd;

/// Phase marker: read one filename byte and echo it.
#[derive(Clone, Copy, PartialEq, Eq, Structural, Debug)]
pub struct ReceiveFilename;

/// Phase marker: wait for ENQ closing the filename exchange.
#[derive(Clone, Copy, PartialEq, Eq, Structural, Debug)]
pub struct EndFilename;

/// Phase marker: the announced file awaits creation. The caller resolves it
/// through `ReceiverFsm::file_created`; `step` resolves it as created, which
/// is what the engine's in-memory store always can.
#[derive(Clone, Copy, PartialEq, Eq, Structural, Debug)]
pub struct CreateFile;

/// Phase marker: wait for STX (a block follows) or ETX (file complete).
#[derive(Clone, Copy, PartialEq, Eq, Structural, Debug)]
pub struct WaitBlockOrEOF;

/// Phase marker: read the 128 block bytes, accumulating the XOR checksum.
#[derive(Clone, Copy, PartialEq, Eq, Structural, Debug)]
pub struct ReceiveBlock;

/// Phase marker: read the checksum byte, compare, and answer `G` or `B`.
#[derive(Clone, Copy, PartialEq, Eq, Structural, Debug)]
pub struct VerifyChecksum;

/// The receiver's phase: which stimulus-response pair comes next, one
/// variant per phase marker.
#[derive(Clone, Copy, PartialEq, Eq, Structural, Debug)]
pub enum ReceiverPhase {
    InitialHandshake(InitialHandshake),
    WaitGood(WaitGood),
    WaitFileOrEnd(WaitFileOrEnd),
    ReceiveFilename(ReceiveFilename),
    EndFilename(EndFilename),
    CreateFile(CreateFile),
    WaitBlockOrEOF(WaitBlockOrEOF),
    ReceiveBlock(ReceiveBlock),
    VerifyChecksum(VerifyChecksum),
}

/// Why the receiver's `step` returned an error.
#[derive(Clone, Copy, PartialEq, Eq, Structural, Debug)]
pub enum ReceiverError {
    /// An unrecoverable I/O condition, carrying the phase it arose in.
    Io(ReceiverPhase, IoFault),
    /// The session ended normally: the sender put XOFF on the wire.
    TransferComplete,
}

/// A received file: its display name and its contents so far.
pub struct OutFile {
    pub name: String,
    pub data: Vec<u8>,
}

/// The mathematical value of an `OutFile`.
pub ghost struct OutFileView {
    pub name: Seq<char>,
    pub data: Seq<u8>,
}

impl View for OutFile {
    type V = OutFileView;

    open spec fn view(&self) -> OutFileView {
        OutFileView { name: self.name@, data: self.data@ }
    }
}

/// The receiver engine's mathematical state: its own fields together with
/// the transport's two sequences.
pub ghost struct ReceiverView {
    pub phase: ReceiverPhase,
    /// Files completed so far, in order of arrival.
    pub done: Seq<OutFileView>,
    /// Whether a destination file is currently open.
    pub file_open: bool,
    /// The open file's display name.
    pub cur_name: Seq<char>,
    /// The open file's contents so far.
    pub cur_data: Seq<u8>,
    /// The 11-byte filename buffer.
    pub name_buf: Seq<u8>,
    /// How many filename bytes have arrived.
    pub idx: int,
    /// The 128-byte block buffer.
    pub block: Seq<u8>,
    /// How many block bytes have arrived.
    pub count: int,
    /// The running XOR checksum of the received block bytes.
    pub sum: u8,
    /// Every byte written to the transport so far.
    pub sent: Seq<u8>,
    /// The read outcomes the transport has yet to deliver.
    pub incoming: Seq<ReadOutcome>,
}

/// Well-formedness of a receiver state.
pub open spec fn receiver_wf(v: ReceiverView) -> bool {
    &&& v.name_buf.len() == NAME_LEN
    &&& v.block.len() == BLOCK_LEN
    &&& 0 <= v.idx <= NAME_LEN
    &&& 0 <= v.count <= BLOCK_LEN
    &&& (v.phase is ReceiveFilename ==> v.idx < NAME_LEN)
    &&& (v.phase is ReceiveBlock ==> v.count == 0 && v.sum == 0)
    &&& (v.phase is VerifyChecksum ==> v.count == BLOCK_LEN && v.sum == xor_fold(v.block))
    &&& ((v.phase is WaitBlockOrEOF || v.phase is ReceiveBlock || v.phase is VerifyChecksum)
        ==> v.file_open)
}

/// Whether `n` bytes can be read off the script without hitting a timeout
/// or a failure.
pub open spec fn recv_ok(inc: Seq<ReadOutcome>, n: nat) -> bool
    decreases n,
{
    if n == 0 {
        true
    } else {
        match next_outcome(inc) {
            ReadOutcome::Byte(b) => recv_ok(after_read(inc), (n - 1) as nat),
            _ => false,
        }
    }
}

/// The bytes of the next `n` reads, cut short at the first non-byte outcome.
pub open spec fn recv_data(inc: Seq<ReadOutcome>, n: nat) -> Seq<u8>
    decreases n,
{
    if n == 0 {
        Seq::empty()
    } else {
        match next_outcome(inc) {
            ReadOutcome::Byte(b) => seq![b] + recv_data(after_read(inc), (n - 1) as nat),
            _ => Seq::empty(),
        }
    }
}

/// The script left after reading `n` bytes, or after the first non-byte
/// outcome.
pub open spec fn recv_rest(inc: Seq<ReadOutcome>, n: nat) -> Seq<ReadOutcome>
    decreases n,
{
    if n == 0 {
        inc
    } else {
        match next_outcome(inc) {
            ReadOutcome::Byte(b) => recv_rest(after_read(inc), (n - 1) as nat),
            _ => after_read(inc),
        }
    }
}

/// The fault behind the first non-byte outcome among the next `n` reads.
pub open spec fn recv_fault(inc: Seq<ReadOutcome>, n: nat) -> IoFault
    decreases n,
{
    if n == 0 {
        IoFault::TimedOut
    } else {
        match next_outcome(inc) {
            ReadOutcome::Byte(b) => recv_fault(after_read(inc), (n - 1) as nat),
            ReadOutcome::TimedOut => IoFault::TimedOut,
            ReadOutcome::Failed => IoFault::Broken,
        }
    }
}

/// What one successful step does, as a function of the state: the successor
/// state and the step's result. Reads are taken from the head of `incoming`;
/// a write appends to `sent`. This is the receiver's transition table.
pub open spec fn receiver_step_spec(v: ReceiverView) -> (ReceiverView, Result<(), ReceiverError>) {
    match v.phase {
        ReceiverPhase::InitialHandshake(InitialHandshake) => {
            let v1 = ReceiverView { incoming: after_read(v.incoming), ..v };
            match next_outcome(v.incoming) {
                ReadOutcome::Byte(b) => if b == SENDER_READY {
                    (
                        ReceiverView {
                            sent: v.sent + seq![RECEIVER_READY],
                            phase: ReceiverPhase::WaitGood(WaitGood),
                            ..v1
                        },
                        Ok(()),
                    )
                } else {
                    (v1, Ok(()))
                },
                ReadOutcome::TimedOut => (v1, Ok(())),
                ReadOutcome::Failed => (
                    v1,
                    Err(ReceiverError::Io(ReceiverPhase::InitialHandshake(InitialHandshake), IoFault::Broken)),
                ),
            }
        },
        ReceiverPhase::WaitGood(WaitGood) => {
            let v1 = ReceiverView { incoming: after_read(v.incoming), ..v };
            match next_outcome(v.incoming) {
                ReadOutcome::Byte(b) => if b == GOOD {
                    (ReceiverView { phase: ReceiverPhase::WaitFileOrEnd(WaitFileOrEnd), ..v1 }, Ok(()))
                } else {
                    (v1, Ok(()))
                },
                ReadOutcome::TimedOut => (
                    v1,
                    Err(ReceiverError::Io(ReceiverPhase::WaitGood(WaitGood), IoFault::TimedOut)),
                ),
                ReadOutcome::Failed => (
                    v1,
                    Err(ReceiverError::Io(ReceiverPhase::WaitGood(WaitGood), IoFault::Broken)),
                ),
            }
        },
        ReceiverPhase::WaitFileOrEnd(WaitFileOrEnd) => {
            let v1 = ReceiverView { incoming: after_read(v.incoming), ..v };
            match next_outcome(v.incoming) {
                ReadOutcome::Byte(b) => if b == EOT {
                    (
                        ReceiverView {
                            sent: v.sent + seq![BS],
                            idx: 0,
                            phase: ReceiverPhase::ReceiveFilename(ReceiveFilename),
                            ..v1
                        },
                        Ok(()),
                    )
                } else if b == XOFF {
                    (v1, Err(ReceiverError::TransferComplete))
                } else {
                    (ReceiverView { sent: v.sent + seq![ERROR], ..v1 }, Ok(()))
                },
                ReadOutcome::TimedOut => (
                    v1,
                    Err(ReceiverError::Io(ReceiverPhase::WaitFileOrEnd(WaitFileOrEnd), IoFault::TimedOut)),
                ),
                ReadOutcome::Failed => (
                    v1,
                    Err(ReceiverError::Io(ReceiverPhase::WaitFileOrEnd(WaitFileOrEnd), IoFault::Broken)),
                ),
            }
        },
        ReceiverPhase::ReceiveFilename(ReceiveFilename) => {
            let v1 = ReceiverView { incoming: after_read(v.incoming), ..v };
            match next_outcome(v.incoming) {
                ReadOutcome::Byte(b) => if b >= 0x20 {
                    if v.idx + 1 == NAME_LEN {
                        (
                            ReceiverView {
                                name_buf: v.name_buf.update(v.idx, b),
                                sent: v.sent + seq![b],
                                idx: v.idx + 1,
                                phase: ReceiverPhase::EndFilename(EndFilename),
                                ..v1
                            },
                            Ok(()),
                        )
                    } else {
                        (
                            ReceiverView {
                                name_buf: v.name_buf.update(v.idx, b),
                                sent: v.sent + seq![b],
                                idx: v.idx + 1,
                                ..v1
                            },
                            Ok(()),
                        )
                    }
                } else {
                    (
                        ReceiverView {
                            sent: v.sent + seq![ERROR],
                            idx: 0,
                            phase: ReceiverPhase::WaitFileOrEnd(WaitFileOrEnd),
                            ..v1
                        },
                        Ok(()),
                    )
                },
                ReadOutcome::TimedOut => (
                    v1,
                    Err(ReceiverError::Io(ReceiverPhase::ReceiveFilename(ReceiveFilename), IoFault::TimedOut)),
                ),
                ReadOutcome::Failed => (
                    v1,
                    Err(ReceiverError::Io(ReceiverPhase::ReceiveFilename(ReceiveFilename), IoFault::Broken)),
                ),
            }
        },
        ReceiverPhase::EndFilename(EndFilename) => {
            let v1 = ReceiverView { incoming: after_read(v.incoming), ..v };
            match next_outcome(v.incoming) {
                ReadOutcome::Byte(b) => if b == ENQ {
                    (
                        ReceiverView { phase: ReceiverPhase::CreateFile(CreateFile), ..v1 },
                        Ok(()),
                    )
                } else {
                    (
                        ReceiverView {
                            sent: v.sent + seq![ERROR],
                            idx: 0,
                            phase: ReceiverPhase::WaitFileOrEnd(WaitFileOrEnd),
                            ..v1
                        },
                        Ok(()),
                    )
                },
                ReadOutcome::TimedOut => (
                    v1,
                    Err(ReceiverError::Io(ReceiverPhase::EndFilename(EndFilename), IoFault::TimedOut)),
                ),
                ReadOutcome::Failed => (
                    v1,
                    Err(ReceiverError::Io(ReceiverPhase::EndFilename(EndFilename), IoFault::Broken)),
                ),
            }
        },
        ReceiverPhase::CreateFile(CreateFile) => receiver_create_spec(v, true),
        ReceiverPhase::WaitBlockOrEOF(WaitBlockOrEOF) => {
            let v1 = ReceiverView { incoming: after_read(v.incoming), ..v };
            match next_outcome(v.incoming) {
                ReadOutcome::Byte(b) => if b == STX {
                    (
                        ReceiverView {
                            sent: v.sent + seq![PROCEED],
                            count: 0,
                            sum: 0,
                            phase: ReceiverPhase::ReceiveBlock(ReceiveBlock),
                            ..v1
                        },
                        Ok(()),
                    )
                } else if b == ETX {
                    if v.file_open {
                        (
                            ReceiverView {
                                done: v.done.push(
                                    OutFileView { name: v.cur_name, data: v.cur_data },
                                ),
                                file_open: false,
                                cur_name: Seq::empty(),
                                cur_data: Seq::empty(),
                                phase: ReceiverPhase::WaitFileOrEnd(WaitFileOrEnd),
                                ..v1
                            },
                            Ok(()),
                        )
                    } else {
                        (ReceiverView { phase: ReceiverPhase::WaitFileOrEnd(WaitFileOrEnd), ..v1 }, Ok(()))
                    }
                } else {
                    (ReceiverView { sent: v.sent + seq![NAK], ..v1 }, Ok(()))
                },
                ReadOutcome::TimedOut => (
                    v1,
                    Err(ReceiverError::Io(ReceiverPhase::WaitBlockOrEOF(WaitBlockOrEOF), IoFault::TimedOut)),
                ),
                ReadOutcome::Failed => (
                    v1,
                    Err(ReceiverError::Io(ReceiverPhase::WaitBlockOrEOF(WaitBlockOrEOF), IoFault::Broken)),
                ),
            }
        },
        ReceiverPhase::ReceiveBlock(ReceiveBlock) => {
            if recv_ok(v.incoming, BLOCK_LEN as nat) {
                let data = recv_data(v.incoming, BLOCK_LEN as nat);
                (
                    ReceiverView {
                        block: data,
                        count: BLOCK_LEN as int,
                        sum: xor_fold(data),
                        incoming: recv_rest(v.incoming, BLOCK_LEN as nat),
                        phase: ReceiverPhase::VerifyChecksum(VerifyChecksum),
                        ..v
                    },
                    Ok(()),
                )
            } else {
                (
                    ReceiverView { incoming: recv_rest(v.incoming, BLOCK_LEN as nat), ..v },
                    Err(ReceiverError::Io(
                        ReceiverPhase::ReceiveBlock(ReceiveBlock),
                        recv_fault(v.incoming, BLOCK_LEN as nat),
                    )),
                )
            }
        },
        ReceiverPhase::VerifyChecksum(VerifyChecksum) => {
            let v1 = ReceiverView { incoming: after_read(v.incoming), ..v };
            match next_outcome(v.incoming) {
                ReadOutcome::Byte(b) => if b == v.sum {
                    if v.file_open {
                        (
                            ReceiverView {
                                cur_data: v.cur_data + v.block,
                                sent: v.sent + seq![GOOD],
                                phase: ReceiverPhase::WaitBlockOrEOF(WaitBlockOrEOF),
                                ..v1
                            },
                            Ok(()),
                        )
                    } else {
                        (
                            ReceiverView {
                                sent: v.sent + seq![GOOD],
                                phase: ReceiverPhase::WaitBlockOrEOF(WaitBlockOrEOF),
                                ..v1
                            },
                            Ok(()),
                        )
                    }
                } else {
                    (
                        ReceiverView {
                            sent: v.sent + seq![BAD],
                            phase: ReceiverPhase::WaitBlockOrEOF(WaitBlockOrEOF),
                            ..v1
                        },
                        Ok(()),
                    )
                },
                ReadOutcome::TimedOut => (
                    v1,
                    Err(ReceiverError::Io(ReceiverPhase::VerifyChecksum(VerifyChecksum), IoFault::TimedOut)),
                ),
                ReadOutcome::Failed => (
                    v1,
                    Err(ReceiverError::Io(ReceiverPhase::VerifyChecksum(VerifyChecksum), IoFault::Broken)),
                ),
            }
        },
    }
}

/// What resolving the pending file creation does: on success the engine
/// opens the announced file under its display name and confirms with TAB; on
/// a create failure it answers `X` and returns to the file-or-end phase, so
/// the file is skipped and the session stays alive. No read happens here:
/// the ENQ was consumed by the step before.
pub open spec fn receiver_create_spec(
    v: ReceiverView,
    ok: bool,
) -> (ReceiverView, Result<(), ReceiverError>) {
    if ok {
        (
            ReceiverView {
                file_open: true,
                cur_name: name_chars(v.name_buf),
                cur_data: Seq::empty(),
                sent: v.sent + seq![TAB],
                phase: ReceiverPhase::WaitBlockOrEOF(WaitBlockOrEOF),
                ..v
            },
            Ok(()),
        )
    } else {
        (
            ReceiverView {
                sent: v.sent + seq![ERROR],
                idx: 0,
                phase: ReceiverPhase::WaitFileOrEnd(WaitFileOrEnd),
                ..v
            },
            Ok(()),
        )
    }
}

/// The bytes one step of the transition table puts on the wire, as a
/// function of the state: a reply to the byte the step reads, the TAB of the
/// auto-resolved file creation, and nothing on the purely reading or
/// bookkeeping paths.
pub open spec fn receiver_writes(v: ReceiverView) -> Seq<u8> {
    match v.phase {
        ReceiverPhase::InitialHandshake(_) => match next_outcome(v.incoming) {
            ReadOutcome::Byte(b) => if b == SENDER_READY {
                seq![RECEIVER_READY]
            } else {
                Seq::empty()
            },
            _ => Seq::empty(),
        },
        ReceiverPhase::WaitGood(_) => Seq::empty(),
        ReceiverPhase::WaitFileOrEnd(_) => match next_outcome(v.incoming) {
            ReadOutcome::Byte(b) => if b == EOT {
                seq![BS]
            } else if b == XOFF {
                Seq::empty()
            } else {
                seq![ERROR]
            },
            _ => Seq::empty(),
        },
        ReceiverPhase::ReceiveFilename(_) => match next_outcome(v.incoming) {
            ReadOutcome::Byte(b) => if b >= 0x20 {
                seq![b]
            } else {
                seq![ERROR]
            },
            _ => Seq::empty(),
        },
        ReceiverPhase::EndFilename(_) => match next_outcome(v.incoming) {
            ReadOutcome::Byte(b) => if b == ENQ {
                Seq::empty()
            } else {
                seq![ERROR]
            },
            _ => Seq::empty(),
        },
        ReceiverPhase::CreateFile(_) => seq![TAB],
        ReceiverPhase::WaitBlockOrEOF(_) => match next_outcome(v.incoming) {
            ReadOutcome::Byte(b) => if b == STX {
                seq![PROCEED]
            } else if b == ETX {
                Seq::empty()
            } else {
                seq![NAK]
            },
            _ => Seq::empty(),
        },
        ReceiverPhase::ReceiveBlock(_) => Seq::empty(),
        ReceiverPhase::VerifyChecksum(_) => match next_outcome(v.incoming) {
            ReadOutcome::Byte(b) => if b == v.sum {
                seq![GOOD]
            } else {
                seq![BAD]
            },
            _ => Seq::empty(),
        },
    }
}

/// A step that died on a failed transport write. It can arise only in a
/// state whose step writes at all; the engine's own state is untouched, the
/// read the step performs first (every phase but the file creation reads
/// before it writes) was consumed, and the wire carries some prefix of
/// exactly the bytes the table's step would have written.
pub open spec fn receiver_write_failed(
    v0: ReceiverView,
    v1: ReceiverView,
    r: Result<(), ReceiverError>,
) -> bool {
    &&& r == Err::<(), ReceiverError>(ReceiverError::Io(v0.phase, IoFault::Broken))
    &&& receiver_writes(v0).len() > 0
    &&& v1 == (ReceiverView {
        sent: v1.sent,
        incoming: if v0.phase is CreateFile {
            v0.incoming
        } else {
            after_read(v0.incoming)
        },
        ..v0
    })
    &&& exists|k: int|
        0 <= k <= receiver_writes(v0).len()
            && v1.sent == v0.sent + #[trigger] receiver_writes(v0).take(k)
}

/// How one `step` call may change the engine: exactly as the transition table
/// says, unless a transport write failed.
pub open spec fn receiver_step_rel(
    v0: ReceiverView,
    v1: ReceiverView,
    r: Result<(), ReceiverError>,
) -> bool {
    ||| (v1 == receiver_step_spec(v0).0 && r == receiver_step_spec(v0).1)
    ||| receiver_write_failed(v0, v1, r)
}


/// How one `file_created` call may change the engine: exactly as
/// [`receiver_create_spec`] says for the given outcome, unless the transport
/// write of the TAB or `X` reply failed partway.
pub open spec fn receiver_create_rel(
    v0: ReceiverView,
    v1: ReceiverView,
    ok: bool,
    r: Result<(), ReceiverError>,
) -> bool {
    ||| (v1 == receiver_create_spec(v0, ok).0 && r == receiver_create_spec(v0, ok).1)
    ||| {
        &&& r == Err::<(), ReceiverError>(ReceiverError::Io(v0.phase, IoFault::Broken))
        &&& v1 == (ReceiverView { sent: v1.sent, ..v0 })
        &&& (v1.sent == v0.sent
            || (ok && v1.sent == v0.sent + seq![TAB])
            || (!ok && v1.sent == v0.sent + seq![ERROR]))
    }
}

/// The receiver engine: one phase tag over the shared fields, stepped by the
/// caller until it returns `Err`. Completed files are kept in memory and can
/// be read off once the session is over.
pub struct ReceiverFsm<P: SerialPort> {
    serial: P,
    files: Vec<OutFile>,
    current: Option<OutFile>,
    filename_buffer: Vec<u8>,
    filename_idx: usize,
    block_buffer: Vec<u8>,
    bytes_received: usize,
    checksum: u8,
    phase: ReceiverPhase,
}

impl<P: SerialPort> View for ReceiverFsm<P> {
    type V = ReceiverView;

    closed spec fn view(&self) -> ReceiverView {
        ReceiverView {
            phase: self.phase,
            done: self.files@.map_values(|f: OutFile| f@),
            file_open: self.current is Some,
            cur_name: match self.current {
                Some(f) => f.name@,
                None => Seq::empty(),
            },
            cur_data: match self.current {
                Some(f) => f.data@,
                None => Seq::empty(),
            },
            name_buf: self.filename_buffer@,
            idx: self.filename_idx as int,
            block: self.block_buffer@,
            count: self.bytes_received as int,
            sum: self.checksum,
            sent: self.serial.sent(),
            incoming: self.serial.incoming(),
        }
    }
}

impl<P: SerialPort> ReceiverFsm<P> {
    /// Well-formedness, kept by `new` and every `step`.
    pub open spec fn wf(&self) -> bool {
        receiver_wf(self@)
    }

    /// Creates a receiver over `serial` with no files yet.
    pub fn new(serial: P) -> (r: ReceiverFsm<P>)
        ensures
            r.wf(),
            r@ == (ReceiverView {
                phase: ReceiverPhase::InitialHandshake(InitialHandshake),
                done: Seq::<OutFileView>::empty(),
                file_open: false,
                cur_name: Seq::<char>::empty(),
                cur_data: Seq::<u8>::empty(),
                name_buf: Seq::new(NAME_LEN as nat, |i: int| SPACE),
                idx: 0,
                block: Seq::new(BLOCK_LEN as nat, |i: int| 0u8),
                count: 0,
                sum: 0,
                sent: serial.sent(),
                incoming: serial.incoming(),
            }),
    {
        let filename_buffer = fill_bytes(NAME_LEN, SPACE);
        let block_buffer = fill_bytes(BLOCK_LEN, 0);
        let r = ReceiverFsm {
            serial,
            files: Vec::new(),
            current: None,
            filename_buffer,
            filename_idx: 0,
            block_buffer,
            bytes_received: 0,
            checksum: 0,
            phase: ReceiverPhase::InitialHandshake(InitialHandshake),
        };
        proof {
            assert(r.files@.map_values(|f: OutFile| f@) =~= Seq::<OutFileView>::empty());
        }
        r
    }

    /// The transport, for inspection once the engine is done.
    pub fn transport(&self) -> (r: &P)
        ensures
            r.sent() == self@.sent,
            r.incoming() == self@.incoming,
    {
        &self.serial
    }

    /// The files completed so far, in order of arrival.
    pub fn output_files(&self) -> (r: &Vec<OutFile>)
        ensures
            r@.map_values(|f: OutFile| f@) == self@.done,
    {
        &self.files
    }

    /// Performs one stimulus-response pair. `Ok(())` asks the caller to step
    /// again; `Err(TransferComplete)` is the normal end of the session; any
    /// other `Err` is fatal.
    pub fn step(&mut self) -> (r: Result<(), ReceiverError>)
        requires
            old(self).wf(),
        ensures
            final(self).wf(),
            receiver_step_rel(old(self)@, final(self)@, r),
    {
        match self.phase {
            ReceiverPhase::InitialHandshake(InitialHandshake) => self.step_handshake(),
            ReceiverPhase::WaitGood(WaitGood) => self.step_wait_good(),
            ReceiverPhase::WaitFileOrEnd(WaitFileOrEnd) => self.step_wait_file_or_end(),
            ReceiverPhase::ReceiveFilename(ReceiveFilename) => self.step_receive_filename(),
            ReceiverPhase::EndFilename(EndFilename) => self.step_end_filename(),
            ReceiverPhase::CreateFile(CreateFile) => self.step_create(),
            ReceiverPhase::WaitBlockOrEOF(WaitBlockOrEOF) => self.step_wait_block_or_eof(),
            ReceiverPhase::ReceiveBlock(ReceiveBlock) => self.step_receive_block(),
            ReceiverPhase::VerifyChecksum(VerifyChecksum) => self.step_verify_checksum(),
        }
    }


    /// The display name of the file awaiting creation: `Some` exactly when
    /// the engine has read the sender's ENQ and waits for the caller to
    /// create the announced file.
    pub fn awaiting_create(&self) -> (r: Option<String>)
        requires
            self.wf(),
        ensures
            r is Some <==> self@.phase is CreateFile,
            r is Some ==> r.unwrap()@ == name_chars(self@.name_buf),
    {
        match self.phase {
            ReceiverPhase::CreateFile(CreateFile) => Some(
                parse_filename(self.filename_buffer.as_slice()),
            ),
            _ => None,
        }
    }

    /// Resolves the pending file creation: `ok` says whether the caller
    /// could create the announced file. On success the engine opens it and
    /// confirms with TAB; on failure it answers `X` and skips the file,
    /// keeping the session alive. Calling `step` in this phase resolves with
    /// success instead, which the in-memory store always grants.
    pub fn file_created(&mut self, ok: bool) -> (r: Result<(), ReceiverError>)
        requires
            old(self).wf(),
            old(self)@.phase is CreateFile,
        ensures
            final(self).wf(),
            receiver_create_rel(old(self)@, final(self)@, ok, r),
    {
        if ok {
            let name = parse_filename(self.filename_buffer.as_slice());
            match send_byte(&mut self.serial, TAB) {
                Ok(()) => {},
                Err(_) => {
                    proof {
                        let reply = (if ok { seq![TAB] } else { seq![ERROR] });
                        assert(reply =~= seq![TAB]);
                        assert(old(self)@.sent + reply.take(0) =~= old(self)@.sent);
                        assert(old(self)@.sent + reply.take(1)
                            =~= old(self)@.sent + seq![TAB]);
                    }
                    return Err(ReceiverError::Io(
                        ReceiverPhase::CreateFile(CreateFile),
                        IoFault::Broken,
                    ));
                },
            }
            self.current = Some(OutFile { name, data: Vec::new() });
            self.phase = ReceiverPhase::WaitBlockOrEOF(WaitBlockOrEOF);
            Ok(())
        } else {
            match send_byte(&mut self.serial, ERROR) {
                Ok(()) => {},
                Err(_) => {
                    proof {
                        let reply = (if ok { seq![TAB] } else { seq![ERROR] });
                        assert(reply =~= seq![ERROR]);
                        assert(old(self)@.sent + reply.take(0) =~= old(self)@.sent);
                        assert(old(self)@.sent + reply.take(1)
                            =~= old(self)@.sent + seq![ERROR]);
                    }
                    return Err(ReceiverError::Io(
                        ReceiverPhase::CreateFile(CreateFile),
                        IoFault::Broken,
                    ));
                },
            }
            self.filename_idx = 0;
            self.phase = ReceiverPhase::WaitFileOrEnd(WaitFileOrEnd);
            Ok(())
        }
    }

    fn step_create(&mut self) -> (r: Result<(), ReceiverError>)
        requires
            old(self).wf(),
            old(self).phase is CreateFile,
        ensures
            final(self).wf(),
            receiver_step_rel(old(self)@, final(self)@, r),
    {
        let r = self.file_created(true);
        proof {
            assert(receiver_writes(old(self)@) =~= seq![TAB]);
            assert(old(self)@.sent + receiver_writes(old(self)@).take(0)
                =~= old(self)@.sent);
            assert(old(self)@.sent + receiver_writes(old(self)@).take(1)
                =~= old(self)@.sent + seq![TAB]);
        }
        r
    }

    fn step_handshake(&mut self) -> (r: Result<(), ReceiverError>)
        requires
            old(self).wf(),
            old(self).phase is InitialHandshake,
        ensures
            final(self).wf(),
            receiver_step_rel(old(self)@, final(self)@, r),
    {
        match read_one(&mut self.serial, HANDSHAKE_TIMEOUT_MS) {
            ReadOutcome::Byte(b) => {
                if b == SENDER_READY {
                    match send_byte(&mut self.serial, RECEIVER_READY) {
                        Ok(()) => {},
                        Err(_) => {
                            proof {
                                assert(receiver_writes(old(self)@) =~= seq![RECEIVER_READY]);
                                assert(old(self)@.sent + receiver_writes(old(self)@).take(0)
                                    =~= old(self)@.sent);
                                assert(old(self)@.sent + receiver_writes(old(self)@).take(1)
                                    =~= old(self)@.sent + seq![RECEIVER_READY]);
                            }
                            return Err(ReceiverError::Io(
                                ReceiverPhase::InitialHandshake(InitialHandshake),
                                IoFault::Broken,
                            ));
                        },
                    }
                    self.phase = ReceiverPhase::WaitGood(WaitGood);
                }
                Ok(())
            },
            ReadOutcome::TimedOut => Ok(()),
            ReadOutcome::Failed => Err(ReceiverError::Io(
                ReceiverPhase::InitialHandshake(InitialHandshake),
                IoFault::Broken,
            )),
        }
    }

    fn step_wait_good(&mut self) -> (r: Result<(), ReceiverError>)
        requires
            old(self).wf(),
            old(self).phase is WaitGood,
        ensures
            final(self).wf(),
            receiver_step_rel(old(self)@, final(self)@, r),
    {
        match read_one(&mut self.serial, REPLY_TIMEOUT_MS) {
            ReadOutcome::Byte(b) => {
                if b == GOOD {
                    self.phase = ReceiverPhase::WaitFileOrEnd(WaitFileOrEnd);
                }
                Ok(())
            },
            ReadOutcome::TimedOut => Err(ReceiverError::Io(
                ReceiverPhase::WaitGood(WaitGood),
                IoFault::TimedOut,
            )),
            ReadOutcome::Failed => Err(ReceiverError::Io(
                ReceiverPhase::WaitGood(WaitGood),
                IoFault::Broken,
            )),
        }
    }

    fn step_wait_file_or_end(&mut self) -> (r: Result<(), ReceiverError>)
        requires
            old(self).wf(),
            old(self).phase is WaitFileOrEnd,
        ensures
            final(self).wf(),
            receiver_step_rel(old(self)@, final(self)@, r),
    {
        match read_one(&mut self.serial, REPLY_TIMEOUT_MS) {
            ReadOutcome::Byte(b) => {
                if b == EOT {
                    match send_byte(&mut self.serial, BS) {
                        Ok(()) => {},
                        Err(_) => {
                            proof {
                                assert(receiver_writes(old(self)@) =~= seq![BS]);
                                assert(old(self)@.sent + receiver_writes(old(self)@).take(0)
                                    =~= old(self)@.sent);
                                assert(old(self)@.sent + receiver_writes(old(self)@).take(1)
                                    =~= old(self)@.sent + seq![BS]);
                            }
                            return Err(ReceiverError::Io(
                                ReceiverPhase::WaitFileOrEnd(WaitFileOrEnd),
                                IoFault::Broken,
                            ));
                        },
                    }
                    self.filename_idx = 0;
                    self.phase = ReceiverPhase::ReceiveFilename(ReceiveFilename);
                    Ok(())
                } else if b == XOFF {
                    Err(ReceiverError::TransferComplete)
                } else {
                    match send_byte(&mut self.serial, ERROR) {
                        Ok(()) => {},
                        Err(_) => {
                            proof {
                                assert(receiver_writes(old(self)@) =~= seq![ERROR]);
                                assert(old(self)@.sent + receiver_writes(old(self)@).take(0)
                                    =~= old(self)@.sent);
                                assert(old(self)@.sent + receiver_writes(old(self)@).take(1)
                                    =~= old(self)@.sent + seq![ERROR]);
                            }
                            return Err(ReceiverError::Io(
                                ReceiverPhase::WaitFileOrEnd(WaitFileOrEnd),
                                IoFault::Broken,
                            ));
                        },
                    }
                    Ok(())
                }
            },
            ReadOutcome::TimedOut => Err(ReceiverError::Io(
                ReceiverPhase::WaitFileOrEnd(WaitFileOrEnd),
                IoFault::TimedOut,
            )),
            ReadOutcome::Failed => Err(ReceiverError::Io(
                ReceiverPhase::WaitFileOrEnd(WaitFileOrEnd),
                IoFault::Broken,
            )),
        }
    }

    fn step_receive_filename(&mut self) -> (r: Result<(), ReceiverError>)
        requires
            old(self).wf(),
            old(self).phase is ReceiveFilename,
        ensures
            final(self).wf(),
            receiver_step_rel(old(self)@, final(self)@, r),
    {
        match read_one(&mut self.serial, REPLY_TIMEOUT_MS) {
            ReadOutcome::Byte(b) => {
                if b >= 0x20 {
                    match send_byte(&mut self.serial, b) {
                        Ok(()) => {},
                        Err(_) => {
                            proof {
                                assert(receiver_writes(old(self)@) =~= seq![b]);
                                assert(old(self)@.sent + receiver_writes(old(self)@).take(0)
                                    =~= old(self)@.sent);
                                assert(old(self)@.sent + receiver_writes(old(self)@).take(1)
                                    =~= old(self)@.sent + seq![b]);
                            }
                            return Err(ReceiverError::Io(
                                ReceiverPhase::ReceiveFilename(ReceiveFilename),
                                IoFault::Broken,
                            ));
                        },
                    }
                    self.filename_buffer.set(self.filename_idx, b);
                    self.filename_idx = self.filename_idx + 1;
                    if self.filename_idx == NAME_LEN {
                        self.phase = ReceiverPhase::EndFilename(EndFilename);
                    }
                    Ok(())
                } else {
                    match send_byte(&mut self.serial, ERROR) {
                        Ok(()) => {},
                        Err(_) => {
                            proof {
                                assert(receiver_writes(old(self)@) =~= seq![ERROR]);
                                assert(old(self)@.sent + receiver_writes(old(self)@).take(0)
                                    =~= old(self)@.sent);
                                assert(old(self)@.sent + receiver_writes(old(self)@).take(1)
                                    =~= old(self)@.sent + seq![ERROR]);
                            }
                            return Err(ReceiverError::Io(
                                ReceiverPhase::ReceiveFilename(ReceiveFilename),
                                IoFault::Broken,
                            ));
                        },
                    }
                    self.filename_idx = 0;
                    self.phase = ReceiverPhase::WaitFileOrEnd(WaitFileOrEnd);
                    Ok(())
                }
            },
            ReadOutcome::TimedOut => Err(ReceiverError::Io(
                ReceiverPhase::ReceiveFilename(ReceiveFilename),
                IoFault::TimedOut,
            )),
            ReadOutcome::Failed => Err(ReceiverError::Io(
                ReceiverPhase::ReceiveFilename(ReceiveFilename),
                IoFault::Broken,
            )),
        }
    }

    fn step_end_filename(&mut self) -> (r: Result<(), ReceiverError>)
        requires
            old(self).wf(),
            old(self).phase is EndFilename,
        ensures
            final(self).wf(),
            receiver_step_rel(old(self)@, final(self)@, r),
    {
        match read_one(&mut self.serial, REPLY_TIMEOUT_MS) {
            ReadOutcome::Byte(b) => {
                if b == ENQ {
                    self.phase = ReceiverPhase::CreateFile(CreateFile);
                    Ok(())
                } else {
                    match send_byte(&mut self.serial, ERROR) {
                        Ok(()) => {},
                        Err(_) => {
                            proof {
                                assert(receiver_writes(old(self)@) =~= seq![ERROR]);
                                assert(old(self)@.sent + receiver_writes(old(self)@).take(0)
                                    =~= old(self)@.sent);
                                assert(old(self)@.sent + receiver_writes(old(self)@).take(1)
                                    =~= old(self)@.sent + seq![ERROR]);
                            }
                            return Err(ReceiverError::Io(
                                ReceiverPhase::EndFilename(EndFilename),
                                IoFault::Broken,
                            ));
                        },
                    }
                    self.filename_idx = 0;
                    self.phase = ReceiverPhase::WaitFileOrEnd(WaitFileOrEnd);
                    Ok(())
                }
            },
            ReadOutcome::TimedOut => Err(ReceiverError::Io(
                ReceiverPhase::EndFilename(EndFilename),
                IoFault::TimedOut,
            )),
            ReadOutcome::Failed => Err(ReceiverError::Io(
                ReceiverPhase::EndFilename(EndFilename),
                IoFault::Broken,
            )),
        }
    }

    fn step_wait_block_or_eof(&mut self) -> (r: Result<(), ReceiverError>)
        requires
            old(self).wf(),
            old(self).phase is WaitBlockOrEOF,
        ensures
            final(self).wf(),
            receiver_step_rel(old(self)@, final(self)@, r),
    {
        match read_one(&mut self.serial, REPLY_TIMEOUT_MS) {
            ReadOutcome::Byte(b) => {
                if b == STX {
                    match send_byte(&mut self.serial, PROCEED) {
                        Ok(()) => {},
                        Err(_) => {
                            proof {
                                assert(receiver_writes(old(self)@) =~= seq![PROCEED]);
                                assert(old(self)@.sent + receiver_writes(old(self)@).take(0)
                                    =~= old(self)@.sent);
                                assert(old(self)@.sent + receiver_writes(old(self)@).take(1)
                                    =~= old(self)@.sent + seq![PROCEED]);
                            }
                            return Err(ReceiverError::Io(
                                ReceiverPhase::WaitBlockOrEOF(WaitBlockOrEOF),
                                IoFault::Broken,
                            ));
                        },
                    }
                    self.bytes_received = 0;
                    self.checksum = 0;
                    self.phase = ReceiverPhase::ReceiveBlock(ReceiveBlock);
                    Ok(())
                } else if b == ETX {
                    match self.current.take() {
                        Some(f) => {
                            let ghost fv = f@;
                            self.files.push(f);
                            proof {
                                assert(self.files@.map_values(|g: OutFile| g@)
                                    =~= old(self).files@.map_values(|g: OutFile| g@).push(fv));
                            }
                        },
                        None => {},
                    }
                    self.phase = ReceiverPhase::WaitFileOrEnd(WaitFileOrEnd);
                    Ok(())
                } else {
                    match send_byte(&mut self.serial, NAK) {
                        Ok(()) => {},
                        Err(_) => {
                            proof {
                                assert(receiver_writes(old(self)@) =~= seq![NAK]);
                                assert(old(self)@.sent + receiver_writes(old(self)@).take(0)
                                    =~= old(self)@.sent);
                                assert(old(self)@.sent + receiver_writes(old(self)@).take(1)
                                    =~= old(self)@.sent + seq![NAK]);
                            }
                            return Err(ReceiverError::Io(
                                ReceiverPhase::WaitBlockOrEOF(WaitBlockOrEOF),
                                IoFault::Broken,
                            ));
                        },
                    }
                    Ok(())
                }
            },
            ReadOutcome::TimedOut => Err(ReceiverError::Io(
                ReceiverPhase::WaitBlockOrEOF(WaitBlockOrEOF),
                IoFault::TimedOut,
            )),
            ReadOutcome::Failed => Err(ReceiverError::Io(
                ReceiverPhase::WaitBlockOrEOF(WaitBlockOrEOF),
                IoFault::Broken,
            )),
        }
    }

    fn step_receive_block(&mut self) -> (r: Result<(), ReceiverError>)
        requires
            old(self).wf(),
            old(self).phase is ReceiveBlock,
        ensures
            final(self).wf(),
            receiver_step_rel(old(self)@, final(self)@, r),
    {
        let ghost inc0 = old(self)@.incoming;
        let mut blk: Vec<u8> = Vec::new();
        let mut sum: u8 = 0;
        let mut k: usize = 0;
        while k < BLOCK_LEN
            invariant
                receiver_wf(old(self)@),
                old(self)@.phase is ReceiveBlock,
                inc0 == old(self)@.incoming,
                k <= BLOCK_LEN,
                blk@.len() == k,
                sum == xor_fold(blk@),
                self@.phase == old(self)@.phase,
                self@.done == old(self)@.done,
                self@.file_open == old(self)@.file_open,
                self@.cur_name == old(self)@.cur_name,
                self@.cur_data == old(self)@.cur_data,
                self@.name_buf == old(self)@.name_buf,
                self@.idx == old(self)@.idx,
                self@.block == old(self)@.block,
                self@.count == old(self)@.count,
                self@.sum == old(self)@.sum,
                self@.sent == old(self)@.sent,
                recv_ok(inc0, BLOCK_LEN as nat)
                    == recv_ok(self@.incoming, (BLOCK_LEN - k) as nat),
                recv_data(inc0, BLOCK_LEN as nat)
                    =~= blk@ + recv_data(self@.incoming, (BLOCK_LEN - k) as nat),
                recv_rest(inc0, BLOCK_LEN as nat)
                    == recv_rest(self@.incoming, (BLOCK_LEN - k) as nat),
                !recv_ok(inc0, BLOCK_LEN as nat) ==> recv_fault(inc0, BLOCK_LEN as nat)
                    == recv_fault(self@.incoming, (BLOCK_LEN - k) as nat),
            decreases BLOCK_LEN - k,
        {
            let ghost inc_here = self@.incoming;
            match read_one(&mut self.serial, REPLY_TIMEOUT_MS) {
                ReadOutcome::Byte(b) => {
                    proof {
                        assert(blk@.push(b).drop_last() =~= blk@);
                        assert(recv_data(inc_here, (BLOCK_LEN - k) as nat)
                            =~= seq![b] + recv_data(self@.incoming, (BLOCK_LEN - k - 1) as nat));
                        assert(blk@ + recv_data(inc_here, (BLOCK_LEN - k) as nat)
                            =~= blk@.push(b) + recv_data(
                                self@.incoming, (BLOCK_LEN - k - 1) as nat));
                    }
                    blk.push(b);
                    sum = sum ^ b;
                    k = k + 1;
                },
                ReadOutcome::TimedOut => {
                    proof {
                        assert(!recv_ok(inc_here, (BLOCK_LEN - k) as nat));
                        assert(recv_fault(inc_here, (BLOCK_LEN - k) as nat) == IoFault::TimedOut);
                        assert(recv_rest(inc_here, (BLOCK_LEN - k) as nat)
                            == after_read(inc_here));
                        assert(recv_fault(inc0, BLOCK_LEN as nat) == IoFault::TimedOut);
                        assert(recv_rest(inc0, BLOCK_LEN as nat) == self@.incoming);
                        assert(self@ == (ReceiverView {
                            incoming: recv_rest(inc0, BLOCK_LEN as nat),
                            ..old(self)@
                        }));
                    }
                    return Err(ReceiverError::Io(ReceiverPhase::ReceiveBlock(ReceiveBlock), IoFault::TimedOut));
                },
                ReadOutcome::Failed => {
                    proof {
                        assert(!recv_ok(inc_here, (BLOCK_LEN - k) as nat));
                        assert(recv_fault(inc_here, (BLOCK_LEN - k) as nat) == IoFault::Broken);
                        assert(recv_rest(inc_here, (BLOCK_LEN - k) as nat)
                            == after_read(inc_here));
                        assert(recv_fault(inc0, BLOCK_LEN as nat) == IoFault::Broken);
                        assert(recv_rest(inc0, BLOCK_LEN as nat) == self@.incoming);
                        assert(self@ == (ReceiverView {
                            incoming: recv_rest(inc0, BLOCK_LEN as nat),
                            ..old(self)@
                        }));
                    }
                    return Err(ReceiverError::Io(ReceiverPhase::ReceiveBlock(ReceiveBlock), IoFault::Broken));
                },
            }
        }
        proof {
            assert(recv_ok(inc0, BLOCK_LEN as nat));
            assert(recv_data(inc0, BLOCK_LEN as nat) =~= blk@);
            assert(recv_rest(inc0, BLOCK_LEN as nat) == self@.incoming);
        }
        self.block_buffer = blk;
        self.checksum = sum;
        self.bytes_received = BLOCK_LEN;
        self.phase = ReceiverPhase::VerifyChecksum(VerifyChecksum);
        Ok(())
    }

    fn step_verify_checksum(&mut self) -> (r: Result<(), ReceiverError>)
        requires
            old(self).wf(),
            old(self).phase is VerifyChecksum,
        ensures
            final(self).wf(),
            receiver_step_rel(old(self)@, final(self)@, r),
    {
        match read_one(&mut self.serial, REPLY_TIMEOUT_MS) {
            ReadOutcome::Byte(b) => {
                if b == self.checksum {
                    match send_byte(&mut self.serial, GOOD) {
                        Ok(()) => {},
                        Err(_) => {
                            proof {
                                assert(receiver_writes(old(self)@) =~= seq![GOOD]);
                                assert(old(self)@.sent + receiver_writes(old(self)@).take(0)
                                    =~= old(self)@.sent);
                                assert(old(self)@.sent + receiver_writes(old(self)@).take(1)
                                    =~= old(self)@.sent + seq![GOOD]);
                            }
                            return Err(ReceiverError::Io(
                                ReceiverPhase::VerifyChecksum(VerifyChecksum),
                                IoFault::Broken,
                            ));
                        },
                    }
                    match self.current.take() {
                        Some(f) => {
                            let mut f = f;
                            let ghost data0 = f.data@;
                            let mut i: usize = 0;
                            while i < BLOCK_LEN
                                invariant
                                    i <= BLOCK_LEN,
                                    self.block_buffer@.len() == BLOCK_LEN,
                                    f.data@ =~= data0 + self.block_buffer@.take(i as int),
                                    f.name@ == old(self)@.cur_name,
                                decreases BLOCK_LEN - i,
                            {
                                f.data.push(self.block_buffer[i]);
                                proof {
                                    assert(data0 + self.block_buffer@.take(i + 1)
                                        =~= (data0 + self.block_buffer@.take(i as int)).push(
                                            self.block_buffer@[i as int]));
                                }
                                i = i + 1;
                            }
                            proof {
                                assert(self.block_buffer@.take(BLOCK_LEN as int)
                                    =~= self.block_buffer@);
                            }
                            self.current = Some(f);
                        },
                        None => {},
                    }
                    self.phase = ReceiverPhase::WaitBlockOrEOF(WaitBlockOrEOF);
                    Ok(())
                } else {
                    match send_byte(&mut self.serial, BAD) {
                        Ok(()) => {},
                        Err(_) => {
                            proof {
                                assert(receiver_writes(old(self)@) =~= seq![BAD]);
                                assert(old(self)@.sent + receiver_writes(old(self)@).take(0)
                                    =~= old(self)@.sent);
                                assert(old(self)@.sent + receiver_writes(old(self)@).take(1)
                                    =~= old(self)@.sent + seq![BAD]);
                            }
                            return Err(ReceiverError::Io(
                                ReceiverPhase::VerifyChecksum(VerifyChecksum),
                                IoFault::Broken,
                            ));
                        },
                    }
                    self.phase = ReceiverPhase::WaitBlockOrEOF(WaitBlockOrEOF);
                    Ok(())
                }
            },
            ReadOutcome::TimedOut => Err(ReceiverError::Io(
                ReceiverPhase::VerifyChecksum(VerifyChecksum),
                IoFault::TimedOut,
            )),
            ReadOutcome::Failed => Err(ReceiverError::Io(
                ReceiverPhase::VerifyChecksum(VerifyChecksum),
                IoFault::Broken,
            )),
        }
    }
}

} // verus!
