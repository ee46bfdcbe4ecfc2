//! The sender engine.
//!
//! The sender announces readiness, negotiates with the receiver, then for
//! each file transmits the 11-byte filename with per-character echo
//! verification, streams the file as 128-byte blocks each followed by its
//! XOR checksum and a one-byte acknowledgement, and signals end-of-file.
//! After the last file it signals end-of-session.

use vstd::prelude::*;
use crate::protocol::{
    STX, ETX, EOT, BS, TAB, GOOD, BAD, PROCEED, SENDER_READY, RECEIVER_READY, ENQ, XOFF,
    BLOCK_LEN, NAME_LEN, PAD, HANDSHAKE_TIMEOUT_MS, REPLY_TIMEOUT_MS, xor_fold, block_at,
    block_checksum, fill_bytes, lemma_xor_fold_zeros,
};
use crate::serial::{
    SerialPort, ReadOutcome, IoFault, next_outcome, after_read, read_one, send_byte,
};
use crate::filename::{SPACE, short_name, prepare_filename};

verus! {

/// Phase marker: send `R`, read one byte with the long timeout; `S` moves
/// on, anything else (a timeout included) stays here.
#[derive(Clone, Copy, PartialEq, Eq, Structural, Debug)]
pub struct InitialHandshake;

/// Phase marker: send `G` to close the handshake.
#[derive(Clone, Copy, PartialEq, Eq, Structural, Debug)]
pub struct SendGood;

/// Phase marker: send EOT to offer a filename, wait for BS.
#[derive(Clone, Copy, PartialEq, Eq, Structural, Debug)]
pub struct RequestFilename;

/// Phase marker: send one filename byte, wait for its echo.
#[derive(Clone, Copy, PartialEq, Eq, Structural, Debug)]
pub struct TransmitFilename;

/// Phase marker: send ENQ, wait for TAB.
#[derive(Clone, Copy, PartialEq, Eq, Structural, Debug)]
pub struct EndFilename;

/// Phase marker: load (or on retransmit, reuse) the next block and send STX,
/// or send ETX at end of file; after STX wait for `P`.
#[derive(Clone, Copy, PartialEq, Eq, Structural, Debug)]
pub struct CheckMoreData;

/// Phase marker: stream the 128 block bytes; no reply is expected.
#[derive(Clone, Copy, PartialEq, Eq, Structural, Debug)]
pub struct TransmitBlock;

/// Phase marker: send the checksum byte, wait for `G` or `B`.
#[derive(Clone, Copy, PartialEq, Eq, Structural, Debug)]
pub struct SendChecksum;

/// Phase marker: close the file and drop it from the queue; send XOFF after
/// the last.
#[derive(Clone, Copy, PartialEq, Eq, Structural, Debug)]
pub struct EndFile;

/// The sender's phase: which stimulus-response pair comes next, one variant
/// per phase marker.
#[derive(Clone, Copy, PartialEq, Eq, Structural, Debug)]
pub enum SenderPhase {
    InitialHandshake(InitialHandshake),
    SendGood(SendGood),
    RequestFilename(RequestFilename),
    TransmitFilename(TransmitFilename),
    EndFilename(EndFilename),
    CheckMoreData(CheckMoreData),
    TransmitBlock(TransmitBlock),
    SendChecksum(SendChecksum),
    EndFile(EndFile),
}

/// Why the sender's `step` returned an error.
#[derive(Clone, Copy, PartialEq, Eq, Structural, Debug)]
pub enum SenderError {
    /// An unrecoverable I/O condition, carrying the phase it arose in.
    Io(SenderPhase, IoFault),
    /// The session ended normally: every file sent and XOFF on the wire.
    TransferComplete,
}

/// One file to send: a path (or bare name) and its full contents.
pub struct SendFile {
    pub name: Vec<u8>,
    pub data: Vec<u8>,
}

/// The mathematical value of a `SendFile`.
pub ghost struct FileView {
    pub name: Seq<u8>,
    pub data: Seq<u8>,
}

impl View for SendFile {
    type V = FileView;

    open spec fn view(&self) -> FileView {
        FileView { name: self.name@, data: self.data@ }
    }
}

/// The sender engine's mathematical state: its own fields together with the
/// transport's two sequences.
pub ghost struct SenderView {
    pub phase: SenderPhase,
    /// Files still to send; the head is the current one.
    pub files: Seq<FileView>,
    /// Whether the head file is open for reading.
    pub file_open: bool,
    /// Read offset into the head file's contents.
    pub off: int,
    /// The 11-byte filename being transmitted.
    pub name: Seq<u8>,
    /// How many filename bytes have been echoed correctly.
    pub idx: int,
    /// The 128-byte block buffer.
    pub block: Seq<u8>,
    /// The running XOR checksum of `block`.
    pub sum: u8,
    /// Whether the last block must be sent again instead of reading on.
    pub retransmit: bool,
    /// Every byte written to the transport so far.
    pub sent: Seq<u8>,
    /// The read outcomes the transport has yet to deliver.
    pub incoming: Seq<ReadOutcome>,
}

/// Well-formedness of a sender state.
pub open spec fn sender_wf(v: SenderView) -> bool {
    &&& v.name.len() == NAME_LEN
    &&& v.block.len() == BLOCK_LEN
    &&& v.sum == xor_fold(v.block)
    &&& 0 <= v.idx <= NAME_LEN
    &&& (v.phase is TransmitFilename ==> v.idx < NAME_LEN && v.files.len() > 0)
    &&& (v.phase is EndFilename ==> v.files.len() > 0)
    &&& ((v.phase is CheckMoreData || v.phase is TransmitBlock || v.phase is SendChecksum)
        ==> v.files.len() > 0 && v.file_open)
    &&& (v.file_open ==> v.files.len() > 0 && 0 <= v.off <= v.files[0].data.len())
}

/// What one successful step does, as a function of the state: the successor
/// state and the step's result. Reads are taken from the head of `incoming`;
/// a write appends to `sent`. This is the sender's transition table.
pub open spec fn sender_step_spec(v: SenderView) -> (SenderView, Result<(), SenderError>) {
    match v.phase {
        SenderPhase::InitialHandshake(InitialHandshake) => {
            let v1 = SenderView {
                sent: v.sent + seq![SENDER_READY],
                incoming: after_read(v.incoming),
                ..v
            };
            match next_outcome(v.incoming) {
                ReadOutcome::Byte(b) => if b == RECEIVER_READY {
                    (SenderView { phase: SenderPhase::SendGood(SendGood), ..v1 }, Ok(()))
                } else {
                    (v1, Ok(()))
                },
                ReadOutcome::TimedOut => (v1, Ok(())),
                ReadOutcome::Failed => (
                    v1,
                    Err(SenderError::Io(SenderPhase::InitialHandshake(InitialHandshake), IoFault::Broken)),
                ),
            }
        },
        SenderPhase::SendGood(SendGood) => (
            SenderView {
                sent: v.sent + seq![GOOD],
                phase: SenderPhase::RequestFilename(RequestFilename),
                ..v
            },
            Ok(()),
        ),
        SenderPhase::RequestFilename(RequestFilename) => {
            if v.files.len() == 0 {
                (v, Err(SenderError::Io(SenderPhase::RequestFilename(RequestFilename), IoFault::NoFiles)))
            } else {
                let v1 = SenderView {
                    sent: v.sent + seq![EOT],
                    incoming: after_read(v.incoming),
                    ..v
                };
                match next_outcome(v.incoming) {
                    ReadOutcome::Byte(b) => if b == BS {
                        (
                            SenderView {
                                name: short_name(v.files[0].name),
                                idx: 0,
                                phase: SenderPhase::TransmitFilename(TransmitFilename),
                                ..v1
                            },
                            Ok(()),
                        )
                    } else {
                        (v1, Ok(()))
                    },
                    ReadOutcome::TimedOut => (
                        v1,
                        Err(SenderError::Io(SenderPhase::RequestFilename(RequestFilename), IoFault::TimedOut)),
                    ),
                    ReadOutcome::Failed => (
                        v1,
                        Err(SenderError::Io(SenderPhase::RequestFilename(RequestFilename), IoFault::Broken)),
                    ),
                }
            }
        },
        SenderPhase::TransmitFilename(TransmitFilename) => {
            let ch = v.name[v.idx];
            let v1 = SenderView {
                sent: v.sent + seq![ch],
                incoming: after_read(v.incoming),
                ..v
            };
            match next_outcome(v.incoming) {
                ReadOutcome::Byte(b) => if b == ch {
                    if v.idx + 1 == NAME_LEN {
                        (
                            SenderView { idx: v.idx + 1, phase: SenderPhase::EndFilename(EndFilename), ..v1 },
                            Ok(()),
                        )
                    } else {
                        (SenderView { idx: v.idx + 1, ..v1 }, Ok(()))
                    }
                } else {
                    (SenderView { idx: 0, phase: SenderPhase::RequestFilename(RequestFilename), ..v1 }, Ok(()))
                },
                ReadOutcome::TimedOut => (
                    v1,
                    Err(SenderError::Io(SenderPhase::TransmitFilename(TransmitFilename), IoFault::TimedOut)),
                ),
                ReadOutcome::Failed => (
                    v1,
                    Err(SenderError::Io(SenderPhase::TransmitFilename(TransmitFilename), IoFault::Broken)),
                ),
            }
        },
        SenderPhase::EndFilename(EndFilename) => {
            let v1 = SenderView {
                sent: v.sent + seq![ENQ],
                incoming: after_read(v.incoming),
                ..v
            };
            match next_outcome(v.incoming) {
                ReadOutcome::Byte(b) => if b == TAB {
                    (
                        SenderView {
                            file_open: true,
                            off: 0,
                            phase: SenderPhase::CheckMoreData(CheckMoreData),
                            ..v1
                        },
                        Ok(()),
                    )
                } else {
                    (SenderView { idx: 0, phase: SenderPhase::RequestFilename(RequestFilename), ..v1 }, Ok(()))
                },
                ReadOutcome::TimedOut => (
                    v1,
                    Err(SenderError::Io(SenderPhase::EndFilename(EndFilename), IoFault::TimedOut)),
                ),
                ReadOutcome::Failed => (
                    v1,
                    Err(SenderError::Io(SenderPhase::EndFilename(EndFilename), IoFault::Broken)),
                ),
            }
        },
        SenderPhase::CheckMoreData(CheckMoreData) => {
            if v.retransmit {
                let v1 = SenderView {
                    retransmit: false,
                    sent: v.sent + seq![STX],
                    incoming: after_read(v.incoming),
                    ..v
                };
                match next_outcome(v.incoming) {
                    ReadOutcome::Byte(b) => if b == PROCEED {
                        (SenderView { phase: SenderPhase::TransmitBlock(TransmitBlock), ..v1 }, Ok(()))
                    } else {
                        (v1, Ok(()))
                    },
                    ReadOutcome::TimedOut => (
                        v1,
                        Err(SenderError::Io(SenderPhase::CheckMoreData(CheckMoreData), IoFault::TimedOut)),
                    ),
                    ReadOutcome::Failed => (
                        v1,
                        Err(SenderError::Io(SenderPhase::CheckMoreData(CheckMoreData), IoFault::Broken)),
                    ),
                }
            } else {
                let data = if v.file_open {
                    v.files[0].data
                } else {
                    Seq::empty()
                };
                if v.off >= data.len() {
                    (
                        SenderView { sent: v.sent + seq![ETX], phase: SenderPhase::EndFile(EndFile), ..v },
                        Ok(()),
                    )
                } else {
                    let n = if data.len() - v.off >= BLOCK_LEN {
                        BLOCK_LEN as int
                    } else {
                        data.len() - v.off
                    };
                    let blk = block_at(data, v.off);
                    let v1 = SenderView {
                        block: blk,
                        sum: xor_fold(blk),
                        off: v.off + n,
                        sent: v.sent + seq![STX],
                        incoming: after_read(v.incoming),
                        ..v
                    };
                    match next_outcome(v.incoming) {
                        ReadOutcome::Byte(b) => if b == PROCEED {
                            (SenderView { phase: SenderPhase::TransmitBlock(TransmitBlock), ..v1 }, Ok(()))
                        } else {
                            (v1, Ok(()))
                        },
                        ReadOutcome::TimedOut => (
                            v1,
                            Err(SenderError::Io(SenderPhase::CheckMoreData(CheckMoreData), IoFault::TimedOut)),
                        ),
                        ReadOutcome::Failed => (
                            v1,
                            Err(SenderError::Io(SenderPhase::CheckMoreData(CheckMoreData), IoFault::Broken)),
                        ),
                    }
                }
            }
        },
        SenderPhase::TransmitBlock(TransmitBlock) => (
            SenderView { sent: v.sent + v.block, phase: SenderPhase::SendChecksum(SendChecksum), ..v },
            Ok(()),
        ),
        SenderPhase::SendChecksum(SendChecksum) => {
            let v1 = SenderView {
                sent: v.sent + seq![v.sum],
                incoming: after_read(v.incoming),
                ..v
            };
            match next_outcome(v.incoming) {
                ReadOutcome::Byte(b) => if b == GOOD {
                    (
                        SenderView {
                            retransmit: false,
                            phase: SenderPhase::CheckMoreData(CheckMoreData),
                            ..v1
                        },
                        Ok(()),
                    )
                } else if b == BAD {
                    (
                        SenderView {
                            retransmit: true,
                            phase: SenderPhase::CheckMoreData(CheckMoreData),
                            ..v1
                        },
                        Ok(()),
                    )
                } else {
                    (v1, Ok(()))
                },
                ReadOutcome::TimedOut => (
                    v1,
                    Err(SenderError::Io(SenderPhase::SendChecksum(SendChecksum), IoFault::TimedOut)),
                ),
                ReadOutcome::Failed => (
                    v1,
                    Err(SenderError::Io(SenderPhase::SendChecksum(SendChecksum), IoFault::Broken)),
                ),
            }
        },
        SenderPhase::EndFile(EndFile) => {
            if v.files.len() == 0 {
                (SenderView { file_open: false, ..v }, Err(SenderError::TransferComplete))
            } else if v.files.len() == 1 {
                (
                    SenderView {
                        files: v.files.drop_first(),
                        file_open: false,
                        sent: v.sent + seq![XOFF],
                        ..v
                    },
                    Err(SenderError::TransferComplete),
                )
            } else {
                (
                    SenderView {
                        files: v.files.drop_first(),
                        file_open: false,
                        phase: SenderPhase::RequestFilename(RequestFilename),
                        ..v
                    },
                    Ok(()),
                )
            }
        },
    }
}

/// The bytes one step of the transition table puts on the wire, as a
/// function of the state: the phase's single stimulus byte, the whole block
/// in the streaming phase, and nothing in the steps that only do
/// bookkeeping (the no-files check, and end-of-file short of the last file).
pub open spec fn sender_writes(v: SenderView) -> Seq<u8> {
    match v.phase {
        SenderPhase::InitialHandshake(_) => seq![SENDER_READY],
        SenderPhase::SendGood(_) => seq![GOOD],
        SenderPhase::RequestFilename(_) => if v.files.len() == 0 {
            Seq::empty()
        } else {
            seq![EOT]
        },
        SenderPhase::TransmitFilename(_) => seq![v.name[v.idx]],
        SenderPhase::EndFilename(_) => seq![ENQ],
        SenderPhase::CheckMoreData(_) => if v.retransmit {
            seq![STX]
        } else {
            let data = if v.file_open {
                v.files[0].data
            } else {
                Seq::empty()
            };
            if v.off >= data.len() {
                seq![ETX]
            } else {
                seq![STX]
            }
        },
        SenderPhase::TransmitBlock(_) => v.block,
        SenderPhase::SendChecksum(_) => seq![v.sum],
        SenderPhase::EndFile(_) => if v.files.len() == 1 {
            seq![XOFF]
        } else {
            Seq::empty()
        },
    }
}

/// A step that died on a failed transport write. It can arise only in a
/// state whose step writes at all; the engine's own state and the read side
/// are untouched, and the wire carries some prefix of exactly the bytes the
/// table's step would have written.
pub open spec fn sender_write_failed(
    v0: SenderView,
    v1: SenderView,
    r: Result<(), SenderError>,
) -> bool {
    &&& r == Err::<(), SenderError>(SenderError::Io(v0.phase, IoFault::Broken))
    &&& sender_writes(v0).len() > 0
    &&& v1 == (SenderView { sent: v1.sent, ..v0 })
    &&& exists|k: int|
        0 <= k <= sender_writes(v0).len()
            && v1.sent == v0.sent + #[trigger] sender_writes(v0).take(k)
}

/// How one `step` call may change the engine: exactly as the transition table
/// says, unless a transport write failed.
pub open spec fn sender_step_rel(
    v0: SenderView,
    v1: SenderView,
    r: Result<(), SenderError>,
) -> bool {
    ||| (v1 == sender_step_spec(v0).0 && r == sender_step_spec(v0).1)
    ||| sender_write_failed(v0, v1, r)
}

/// The sender engine: one phase tag over the shared fields, stepped by the
/// caller until it returns `Err`.
pub struct SenderFsm<P: SerialPort> {
    serial: P,
    files: Vec<SendFile>,
    file_open: bool,
    offset: usize,
    filename: Vec<u8>,
    filename_idx: usize,
    buffer: Vec<u8>,
    checksum: u8,
    retransmit: bool,
    phase: SenderPhase,
}

impl<P: SerialPort> View for SenderFsm<P> {
    type V = SenderView;

    closed spec fn view(&self) -> SenderView {
        SenderView {
            phase: self.phase,
            files: self.files@.map_values(|f: SendFile| f@),
            file_open: self.file_open,
            off: self.offset as int,
            name: self.filename@,
            idx: self.filename_idx as int,
            block: self.buffer@,
            sum: self.checksum,
            retransmit: self.retransmit,
            sent: self.serial.sent(),
            incoming: self.serial.incoming(),
        }
    }
}

impl<P: SerialPort> SenderFsm<P> {
    /// Well-formedness, kept by `new` and every `step`.
    pub open spec fn wf(&self) -> bool {
        sender_wf(self@)
    }

    /// Creates a sender that will offer `files` over `serial`, in order.
    pub fn new(serial: P, files: Vec<SendFile>) -> (r: SenderFsm<P>)
        ensures
            r.wf(),
            r@ == (SenderView {
                phase: SenderPhase::InitialHandshake(InitialHandshake),
                files: files@.map_values(|f: SendFile| f@),
                file_open: false,
                off: 0,
                name: Seq::new(NAME_LEN as nat, |i: int| SPACE),
                idx: 0,
                block: Seq::new(BLOCK_LEN as nat, |i: int| 0u8),
                sum: 0,
                retransmit: false,
                sent: serial.sent(),
                incoming: serial.incoming(),
            }),
    {
        let filename = fill_bytes(NAME_LEN, SPACE);
        let buffer = fill_bytes(BLOCK_LEN, 0);
        proof {
            lemma_xor_fold_zeros(BLOCK_LEN as nat);
        }
        SenderFsm {
            serial,
            files,
            file_open: false,
            offset: 0,
            filename,
            filename_idx: 0,
            buffer,
            checksum: 0,
            retransmit: false,
            phase: SenderPhase::InitialHandshake(InitialHandshake),
        }
    }

    /// The transport, for inspection once the engine is done.
    pub fn transport(&self) -> (r: &P)
        ensures
            r.sent() == self@.sent,
            r.incoming() == self@.incoming,
    {
        &self.serial
    }

    /// Performs one stimulus-response pair. `Ok(())` asks the caller to step
    /// again; `Err(TransferComplete)` is the normal end of the session; any
    /// other `Err` is fatal.
    pub fn step(&mut self) -> (r: Result<(), SenderError>)
        requires
            old(self).wf(),
        ensures
            final(self).wf(),
            sender_step_rel(old(self)@, final(self)@, r),
    {
        match self.phase {
            SenderPhase::InitialHandshake(InitialHandshake) => self.step_handshake(),
            SenderPhase::SendGood(SendGood) => self.step_send_good(),
            SenderPhase::RequestFilename(RequestFilename) => self.step_request_filename(),
            SenderPhase::TransmitFilename(TransmitFilename) => self.step_transmit_filename(),
            SenderPhase::EndFilename(EndFilename) => self.step_end_filename(),
            SenderPhase::CheckMoreData(CheckMoreData) => self.step_check_more_data(),
            SenderPhase::TransmitBlock(TransmitBlock) => self.step_transmit_block(),
            SenderPhase::SendChecksum(SendChecksum) => self.step_send_checksum(),
            SenderPhase::EndFile(EndFile) => self.step_end_file(),
        }
    }

    fn step_handshake(&mut self) -> (r: Result<(), SenderError>)
        requires
            old(self).wf(),
            old(self).phase is InitialHandshake,
        ensures
            final(self).wf(),
            sender_step_rel(old(self)@, final(self)@, r),
    {
        match send_byte(&mut self.serial, SENDER_READY) {
            Ok(()) => {},
            Err(_) => {
                proof {
                    assert(sender_writes(old(self)@) =~= seq![SENDER_READY]);
                    assert(old(self)@.sent + sender_writes(old(self)@).take(0)
                        =~= old(self)@.sent);
                    assert(old(self)@.sent + sender_writes(old(self)@).take(1)
                        =~= old(self)@.sent + seq![SENDER_READY]);
                }
                return Err(SenderError::Io(SenderPhase::InitialHandshake(InitialHandshake), IoFault::Broken));
            },
        }
        match read_one(&mut self.serial, HANDSHAKE_TIMEOUT_MS) {
            ReadOutcome::Byte(b) => {
                if b == RECEIVER_READY {
                    self.phase = SenderPhase::SendGood(SendGood);
                }
                Ok(())
            },
            ReadOutcome::TimedOut => Ok(()),
            ReadOutcome::Failed => Err(SenderError::Io(
                SenderPhase::InitialHandshake(InitialHandshake),
                IoFault::Broken,
            )),
        }
    }

    fn step_send_good(&mut self) -> (r: Result<(), SenderError>)
        requires
            old(self).wf(),
            old(self).phase is SendGood,
        ensures
            final(self).wf(),
            sender_step_rel(old(self)@, final(self)@, r),
    {
        match send_byte(&mut self.serial, GOOD) {
            Ok(()) => {},
            Err(_) => {
                proof {
                    assert(sender_writes(old(self)@) =~= seq![GOOD]);
                    assert(old(self)@.sent + sender_writes(old(self)@).take(0)
                        =~= old(self)@.sent);
                    assert(old(self)@.sent + sender_writes(old(self)@).take(1)
                        =~= old(self)@.sent + seq![GOOD]);
                }
                return Err(SenderError::Io(SenderPhase::SendGood(SendGood), IoFault::Broken));
            },
        }
        self.phase = SenderPhase::RequestFilename(RequestFilename);
        Ok(())
    }

    fn step_request_filename(&mut self) -> (r: Result<(), SenderError>)
        requires
            old(self).wf(),
            old(self).phase is RequestFilename,
        ensures
            final(self).wf(),
            sender_step_rel(old(self)@, final(self)@, r),
    {
        if self.files.len() == 0 {
            return Err(SenderError::Io(SenderPhase::RequestFilename(RequestFilename), IoFault::NoFiles));
        }
        match send_byte(&mut self.serial, EOT) {
            Ok(()) => {},
            Err(_) => {
                proof {
                    assert(sender_writes(old(self)@) =~= seq![EOT]);
                    assert(old(self)@.sent + sender_writes(old(self)@).take(0)
                        =~= old(self)@.sent);
                    assert(old(self)@.sent + sender_writes(old(self)@).take(1)
                        =~= old(self)@.sent + seq![EOT]);
                }
                return Err(SenderError::Io(SenderPhase::RequestFilename(RequestFilename), IoFault::Broken));
            },
        }
        match read_one(&mut self.serial, REPLY_TIMEOUT_MS) {
            ReadOutcome::Byte(b) => {
                if b == BS {
                    let name = prepare_filename(self.files[0].name.as_slice());
                    self.filename = name;
                    self.filename_idx = 0;
                    self.phase = SenderPhase::TransmitFilename(TransmitFilename);
                }
                Ok(())
            },
            ReadOutcome::TimedOut => Err(SenderError::Io(
                SenderPhase::RequestFilename(RequestFilename),
                IoFault::TimedOut,
            )),
            ReadOutcome::Failed => Err(SenderError::Io(
                SenderPhase::RequestFilename(RequestFilename),
                IoFault::Broken,
            )),
        }
    }

    fn step_transmit_filename(&mut self) -> (r: Result<(), SenderError>)
        requires
            old(self).wf(),
            old(self).phase is TransmitFilename,
        ensures
            final(self).wf(),
            sender_step_rel(old(self)@, final(self)@, r),
    {
        let ch = self.filename[self.filename_idx];
        match send_byte(&mut self.serial, ch) {
            Ok(()) => {},
            Err(_) => {
                proof {
                    assert(sender_writes(old(self)@) =~= seq![old(self)@.name[old(self)@.idx]]);
                    assert(old(self)@.sent + sender_writes(old(self)@).take(0)
                        =~= old(self)@.sent);
                    assert(old(self)@.sent + sender_writes(old(self)@).take(1)
                        =~= old(self)@.sent + seq![old(self)@.name[old(self)@.idx]]);
                }
                return Err(SenderError::Io(SenderPhase::TransmitFilename(TransmitFilename), IoFault::Broken));
            },
        }
        match read_one(&mut self.serial, REPLY_TIMEOUT_MS) {
            ReadOutcome::Byte(b) => {
                if b == ch {
                    self.filename_idx = self.filename_idx + 1;
                    if self.filename_idx == NAME_LEN {
                        self.phase = SenderPhase::EndFilename(EndFilename);
                    }
                } else {
                    self.filename_idx = 0;
                    self.phase = SenderPhase::RequestFilename(RequestFilename);
                }
                Ok(())
            },
            ReadOutcome::TimedOut => Err(SenderError::Io(
                SenderPhase::TransmitFilename(TransmitFilename),
                IoFault::TimedOut,
            )),
            ReadOutcome::Failed => Err(SenderError::Io(
                SenderPhase::TransmitFilename(TransmitFilename),
                IoFault::Broken,
            )),
        }
    }

    fn step_end_filename(&mut self) -> (r: Result<(), SenderError>)
        requires
            old(self).wf(),
            old(self).phase is EndFilename,
        ensures
            final(self).wf(),
            sender_step_rel(old(self)@, final(self)@, r),
    {
        match send_byte(&mut self.serial, ENQ) {
            Ok(()) => {},
            Err(_) => {
                proof {
                    assert(sender_writes(old(self)@) =~= seq![ENQ]);
                    assert(old(self)@.sent + sender_writes(old(self)@).take(0)
                        =~= old(self)@.sent);
                    assert(old(self)@.sent + sender_writes(old(self)@).take(1)
                        =~= old(self)@.sent + seq![ENQ]);
                }
                return Err(SenderError::Io(SenderPhase::EndFilename(EndFilename), IoFault::Broken));
            },
        }
        match read_one(&mut self.serial, REPLY_TIMEOUT_MS) {
            ReadOutcome::Byte(b) => {
                if b == TAB {
                    self.file_open = true;
                    self.offset = 0;
                    self.phase = SenderPhase::CheckMoreData(CheckMoreData);
                } else {
                    self.filename_idx = 0;
                    self.phase = SenderPhase::RequestFilename(RequestFilename);
                }
                Ok(())
            },
            ReadOutcome::TimedOut => Err(SenderError::Io(
                SenderPhase::EndFilename(EndFilename),
                IoFault::TimedOut,
            )),
            ReadOutcome::Failed => Err(SenderError::Io(
                SenderPhase::EndFilename(EndFilename),
                IoFault::Broken,
            )),
        }
    }

    fn step_check_more_data(&mut self) -> (r: Result<(), SenderError>)
        requires
            old(self).wf(),
            old(self).phase is CheckMoreData,
        ensures
            final(self).wf(),
            sender_step_rel(old(self)@, final(self)@, r),
    {
        if self.retransmit {
            match send_byte(&mut self.serial, STX) {
                Ok(()) => {},
                Err(_) => {
                    proof {
                        assert(sender_writes(old(self)@) =~= seq![STX]);
                        assert(old(self)@.sent + sender_writes(old(self)@).take(0)
                            =~= old(self)@.sent);
                        assert(old(self)@.sent + sender_writes(old(self)@).take(1)
                            =~= old(self)@.sent + seq![STX]);
                    }
                    return Err(SenderError::Io(SenderPhase::CheckMoreData(CheckMoreData), IoFault::Broken));
                },
            }
            self.retransmit = false;
            match read_one(&mut self.serial, REPLY_TIMEOUT_MS) {
                ReadOutcome::Byte(b) => {
                    if b == PROCEED {
                        self.phase = SenderPhase::TransmitBlock(TransmitBlock);
                    }
                    Ok(())
                },
                ReadOutcome::TimedOut => Err(SenderError::Io(
                    SenderPhase::CheckMoreData(CheckMoreData),
                    IoFault::TimedOut,
                )),
                ReadOutcome::Failed => Err(SenderError::Io(
                    SenderPhase::CheckMoreData(CheckMoreData),
                    IoFault::Broken,
                )),
            }
        } else {
            let data_len = self.files[0].data.len();
            if self.offset >= data_len {
                match send_byte(&mut self.serial, ETX) {
                    Ok(()) => {},
                    Err(_) => {
                        proof {
                            assert(sender_writes(old(self)@) =~= seq![ETX]);
                            assert(old(self)@.sent + sender_writes(old(self)@).take(0)
                                =~= old(self)@.sent);
                            assert(old(self)@.sent + sender_writes(old(self)@).take(1)
                                =~= old(self)@.sent + seq![ETX]);
                        }
                        return Err(SenderError::Io(SenderPhase::CheckMoreData(CheckMoreData), IoFault::Broken));
                    },
                }
                self.phase = SenderPhase::EndFile(EndFile);
                Ok(())
            } else {
                let rem = data_len - self.offset;
                let n = if rem >= BLOCK_LEN {
                    BLOCK_LEN
                } else {
                    rem
                };
                let ghost data = self.files@.map_values(|f: SendFile| f@)[0].data;
                let mut blk: Vec<u8> = Vec::new();
                let mut k: usize = 0;
                while k < n
                    invariant
                        k <= n,
                        self.files@.len() > 0,
                        data == self.files@.map_values(|f: SendFile| f@)[0].data,
                        data.len() == self.files@[0].data@.len(),
                        data_len == data.len(),
                        self.offset + n <= data_len,
                        blk@ =~= data.subrange(self.offset as int, self.offset + k),
                    decreases n - k,
                {
                    blk.push(self.files[0].data[self.offset + k]);
                    proof {
                        assert(data.subrange(self.offset as int, self.offset + k + 1)
                            =~= data.subrange(self.offset as int, self.offset + k).push(
                                data[self.offset + k]));
                    }
                    k = k + 1;
                }
                while blk.len() < BLOCK_LEN
                    invariant
                        n <= blk@.len() <= BLOCK_LEN,
                        self.offset + n <= data.len(),
                        blk@.subrange(0, n as int) =~= data.subrange(
                            self.offset as int, self.offset + n),
                        forall|j: int| n <= j < blk@.len() ==> blk@[j] == PAD,
                    decreases BLOCK_LEN - blk@.len(),
                {
                    blk.push(PAD);
                }
                let sum = block_checksum(&blk);
                proof {
                    assert(blk@ =~= block_at(data, self.offset as int));
                }
                match send_byte(&mut self.serial, STX) {
                    Ok(()) => {},
                    Err(_) => {
                        proof {
                            assert(sender_writes(old(self)@) =~= seq![STX]);
                            assert(old(self)@.sent + sender_writes(old(self)@).take(0)
                                =~= old(self)@.sent);
                            assert(old(self)@.sent + sender_writes(old(self)@).take(1)
                                =~= old(self)@.sent + seq![STX]);
                        }
                        return Err(SenderError::Io(SenderPhase::CheckMoreData(CheckMoreData), IoFault::Broken));
                    },
                }
                self.buffer = blk;
                self.checksum = sum;
                self.offset = self.offset + n;
                match read_one(&mut self.serial, REPLY_TIMEOUT_MS) {
                    ReadOutcome::Byte(b) => {
                        if b == PROCEED {
                            self.phase = SenderPhase::TransmitBlock(TransmitBlock);
                        }
                        Ok(())
                    },
                    ReadOutcome::TimedOut => Err(SenderError::Io(
                        SenderPhase::CheckMoreData(CheckMoreData),
                        IoFault::TimedOut,
                    )),
                    ReadOutcome::Failed => Err(SenderError::Io(
                        SenderPhase::CheckMoreData(CheckMoreData),
                        IoFault::Broken,
                    )),
                }
            }
        }
    }

    fn step_transmit_block(&mut self) -> (r: Result<(), SenderError>)
        requires
            old(self).wf(),
            old(self).phase is TransmitBlock,
        ensures
            final(self).wf(),
            sender_step_rel(old(self)@, final(self)@, r),
    {
        proof {
            assert(old(self)@.sent + old(self)@.block.take(0) =~= old(self)@.sent);
        }
        let mut i: usize = 0;
        while i < BLOCK_LEN
            invariant
                sender_wf(old(self)@),
                old(self)@.phase is TransmitBlock,
                i <= BLOCK_LEN,
                self.buffer@.len() == BLOCK_LEN,
                self@ == (SenderView {
                    sent: old(self)@.sent + old(self)@.block.take(i as int),
                    ..old(self)@
                }),
            decreases BLOCK_LEN - i,
        {
            let b = self.buffer[i];
            match send_byte(&mut self.serial, b) {
                Ok(()) => {},
                Err(_) => {
                    proof {
                        assert(sender_writes(old(self)@) == old(self)@.block);
                        assert(old(self)@.sent + old(self)@.block.take(i as int)
                            =~= old(self)@.sent + sender_writes(old(self)@).take(i as int));
                        assert((old(self)@.sent + old(self)@.block.take(i as int)) + seq![b]
                            =~= old(self)@.sent + sender_writes(old(self)@).take(i + 1));
                    }
                    return Err(SenderError::Io(SenderPhase::TransmitBlock(TransmitBlock), IoFault::Broken));
                },
            }
            proof {
                assert(old(self)@.block.take(i + 1)
                    =~= old(self)@.block.take(i as int).push(old(self)@.block[i as int]));
                assert(self.serial.sent()
                    =~= old(self)@.sent + old(self)@.block.take(i + 1));
            }
            i = i + 1;
        }
        proof {
            assert(old(self)@.block.take(BLOCK_LEN as int) =~= old(self)@.block);
        }
        self.phase = SenderPhase::SendChecksum(SendChecksum);
        Ok(())
    }

    fn step_send_checksum(&mut self) -> (r: Result<(), SenderError>)
        requires
            old(self).wf(),
            old(self).phase is SendChecksum,
        ensures
            final(self).wf(),
            sender_step_rel(old(self)@, final(self)@, r),
    {
        match send_byte(&mut self.serial, self.checksum) {
            Ok(()) => {},
            Err(_) => {
                proof {
                    assert(sender_writes(old(self)@) =~= seq![old(self)@.sum]);
                    assert(old(self)@.sent + sender_writes(old(self)@).take(0)
                        =~= old(self)@.sent);
                    assert(old(self)@.sent + sender_writes(old(self)@).take(1)
                        =~= old(self)@.sent + seq![old(self)@.sum]);
                }
                return Err(SenderError::Io(SenderPhase::SendChecksum(SendChecksum), IoFault::Broken));
            },
        }
        match read_one(&mut self.serial, REPLY_TIMEOUT_MS) {
            ReadOutcome::Byte(b) => {
                if b == GOOD {
                    self.retransmit = false;
                    self.phase = SenderPhase::CheckMoreData(CheckMoreData);
                } else if b == BAD {
                    self.retransmit = true;
                    self.phase = SenderPhase::CheckMoreData(CheckMoreData);
                }
                Ok(())
            },
            ReadOutcome::TimedOut => Err(SenderError::Io(
                SenderPhase::SendChecksum(SendChecksum),
                IoFault::TimedOut,
            )),
            ReadOutcome::Failed => Err(SenderError::Io(
                SenderPhase::SendChecksum(SendChecksum),
                IoFault::Broken,
            )),
        }
    }

    fn step_end_file(&mut self) -> (r: Result<(), SenderError>)
        requires
            old(self).wf(),
            old(self).phase is EndFile,
        ensures
            final(self).wf(),
            sender_step_rel(old(self)@, final(self)@, r),
    {
        if self.files.len() == 0 {
            self.file_open = false;
            return Err(SenderError::TransferComplete);
        }
        if self.files.len() == 1 {
            match send_byte(&mut self.serial, XOFF) {
                Ok(()) => {},
                Err(_) => {
                proof {
                    assert(sender_writes(old(self)@) =~= seq![XOFF]);
                    assert(old(self)@.sent + sender_writes(old(self)@).take(0)
                        =~= old(self)@.sent);
                    assert(old(self)@.sent + sender_writes(old(self)@).take(1)
                        =~= old(self)@.sent + seq![XOFF]);
                }
                    return Err(SenderError::Io(SenderPhase::EndFile(EndFile), IoFault::Broken));
                },
            }
            let _removed = self.files.remove(0);
            proof {
                assert(self.files@.map_values(|f: SendFile| f@)
                    =~= old(self).files@.map_values(|f: SendFile| f@).drop_first());
            }
            self.file_open = false;
            Err(SenderError::TransferComplete)
        } else {
            let _removed = self.files.remove(0);
            proof {
                assert(self.files@.map_values(|f: SendFile| f@)
                    =~= old(self).files@.map_values(|f: SendFile| f@).drop_first());
            }
            self.file_open = false;
            self.phase = SenderPhase::RequestFilename(RequestFilename);
            Ok(())
        }
    }
}

} // verus!
