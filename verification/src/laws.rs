//! Protocol laws: properties of the two engines' transition tables, proved
//! once and for all states. The transition tables themselves are
//! [`crate::sender::sender_step_spec`] and
//! [`crate::receiver::receiver_step_spec`]; every law here is a statement
//! about them, so it holds of every run of the engines.

use vstd::prelude::*;
use crate::protocol::{STX, ETX, EOT, ENQ, BS, TAB, XOFF, GOOD, BAD, PROCEED, ERROR, SENDER_READY,
    RECEIVER_READY, BLOCK_LEN, NAME_LEN,
    xor_fold, block_at, file_blocks, lemma_block_at_indexed};
use crate::serial::{ReadOutcome, next_outcome, after_read};
use crate::filename::{short_name, name_chars, fit_field, upper_seq, stem_of, ext_of, last_component};
use crate::sender::{SenderView, FileView, sender_wf, sender_step_spec, SenderPhase};
use crate::receiver::{ReceiverView, receiver_wf, receiver_step_spec, receiver_create_spec,
    ReceiverPhase, recv_ok, recv_data, recv_rest};

verus! {

/// Checksum correctness. For any 128-byte block, the checksum byte the
/// sender puts on the wire after streaming the block and the value the
/// receiver recomputes from the same 128 bytes agree: both are the XOR fold
/// of the block, from initial value 0.
pub proof fn lemma_checksum_agreement(s: SenderView, r: ReceiverView)
    requires
        sender_wf(s),
        s.phase is SendChecksum,
        receiver_wf(r),
        r.phase is ReceiveBlock,
        recv_ok(r.incoming, BLOCK_LEN as nat),
        recv_data(r.incoming, BLOCK_LEN as nat) == s.block,
    ensures
        sender_step_spec(s).0.sent == s.sent + seq![xor_fold(s.block)],
        receiver_step_spec(r).0.sum == xor_fold(s.block),
        sender_step_spec(s).0.sent.last() == receiver_step_spec(r).0.sum,
{
    assert((s.sent + seq![s.sum]).last() == s.sum);
}

/// Retransmit idempotence, receiver side, mismatch case. On a checksum byte
/// other than the one it computed the receiver answers `B` and writes
/// nothing: the open file's contents, the completed files, and the block
/// buffer are untouched, and it returns to the block-or-end phase ready for
/// the retransmission.
pub proof fn lemma_bad_checksum_no_write(r: ReceiverView, b: u8)
    requires
        receiver_wf(r),
        r.phase is VerifyChecksum,
        next_outcome(r.incoming) == ReadOutcome::Byte(b),
        b != r.sum,
    ensures
        ({
            let (r1, res) = receiver_step_spec(r);
            &&& r1.cur_data == r.cur_data
            &&& r1.done == r.done
            &&& r1.block == r.block
            &&& r1.sent == r.sent + seq![BAD]
            &&& r1.phase is WaitBlockOrEOF
            &&& res == Ok::<(), crate::receiver::ReceiverError>(())
        }),
{
}

/// Retransmit idempotence, receiver side, match case. On the checksum byte it
/// computed the receiver answers `G` and appends the 128 received bytes to
/// the open file exactly once, at its end: no duplication, no skip.
pub proof fn lemma_good_checksum_writes_once(r: ReceiverView)
    requires
        receiver_wf(r),
        r.phase is VerifyChecksum,
        next_outcome(r.incoming) == ReadOutcome::Byte(r.sum),
    ensures
        ({
            let (r1, res) = receiver_step_spec(r);
            &&& r1.cur_data == r.cur_data + r.block
            &&& r1.done == r.done
            &&& r1.sent == r.sent + seq![GOOD]
            &&& r1.phase is WaitBlockOrEOF
            &&& res == Ok::<(), crate::receiver::ReceiverError>(())
        }),
{
}

/// Retransmit idempotence, sender side, one cycle. On a `B` answer the
/// sender arms retransmission without touching the block buffer, its
/// checksum or the file offset; on the following `P` it streams the
/// identical block and the identical checksum, and the offset never moves.
pub proof fn lemma_retransmit_sends_same_block(s: SenderView)
    requires
        sender_wf(s),
        s.phase is SendChecksum,
        next_outcome(s.incoming) == ReadOutcome::Byte(BAD),
        next_outcome(after_read(s.incoming)) == ReadOutcome::Byte(PROCEED),
    ensures
        ({
            let s1 = sender_step_spec(s).0;
            let s2 = sender_step_spec(s1).0;
            let s3 = sender_step_spec(s2).0;
            &&& s1.phase is CheckMoreData && s1.retransmit
            &&& s2.phase is TransmitBlock
            &&& s3.phase is SendChecksum
            &&& s3.block == s.block && s3.sum == s.sum && s3.off == s.off
            &&& s3.files == s.files
            &&& s3.sent == s.sent + seq![s.sum] + seq![STX] + s.block
        }),
{
    let s1 = sender_step_spec(s).0;
    let s2 = sender_step_spec(s1).0;
    let s3 = sender_step_spec(s2).0;
    assert(s3.sent =~= s.sent + seq![s.sum] + seq![STX] + s.block);
}

/// The state after `n` steps of the sender's transition table.
pub open spec fn sender_steps(v: SenderView, n: nat) -> SenderView
    decreases n,
{
    if n == 0 {
        v
    } else {
        sender_steps(sender_step_spec(v).0, (n - 1) as nat)
    }
}

/// A script of `k` bad-checksum cycles: the receiver answers `B`, then `P`
/// for the retransmission, `k` times over.
pub open spec fn bad_cycles(k: nat) -> Seq<ReadOutcome>
    decreases k,
{
    if k == 0 {
        Seq::empty()
    } else {
        seq![ReadOutcome::Byte(BAD), ReadOutcome::Byte(PROCEED)] + bad_cycles((k - 1) as nat)
    }
}

/// The wire bytes of `k` retransmissions of one block: checksum, STX, and
/// the block again, `k` times over.
pub open spec fn resend_wire(sum: u8, block: Seq<u8>, k: nat) -> Seq<u8>
    decreases k,
{
    if k == 0 {
        Seq::empty()
    } else {
        seq![sum] + seq![STX] + block + resend_wire(sum, block, (k - 1) as nat)
    }
}

/// Retransmit idempotence, sender side, any number of cycles. However many
/// times the receiver answers a block's checksum with `B`, the sender keeps
/// offering the identical block: after `k` bad-checksum cycles it stands at
/// the checksum exchange again with the block buffer, the checksum and the
/// file offset it had at the start, having put exactly `k` copies of
/// checksum-STX-block on the wire.
pub proof fn lemma_retransmit_idempotent(s: SenderView, k: nat, rest: Seq<ReadOutcome>)
    requires
        sender_wf(s),
        s.phase is SendChecksum,
        s.incoming == bad_cycles(k) + rest,
    ensures
        ({
            let sk = sender_steps(s, 3 * k);
            &&& sender_wf(sk)
            &&& sk.phase is SendChecksum
            &&& sk.block == s.block && sk.sum == s.sum && sk.off == s.off
            &&& sk.files == s.files
            &&& sk.incoming == rest
            &&& sk.sent == s.sent + resend_wire(s.sum, s.block, k)
        }),
    decreases k,
{
    if k == 0 {
        assert(s.incoming =~= rest);
        assert(s.sent + resend_wire(s.sum, s.block, 0) =~= s.sent);
    } else {
        let cyc = seq![ReadOutcome::Byte(BAD), ReadOutcome::Byte(PROCEED)];
        assert(s.incoming =~= cyc + (bad_cycles((k - 1) as nat) + rest));
        assert(next_outcome(s.incoming) == ReadOutcome::Byte(BAD));
        let s1 = sender_step_spec(s).0;
        assert(s1.incoming =~= seq![ReadOutcome::Byte(PROCEED)]
            + (bad_cycles((k - 1) as nat) + rest));
        assert(next_outcome(s1.incoming) == ReadOutcome::Byte(PROCEED));
        assert(s1.phase is CheckMoreData && s1.retransmit);
        let s2 = sender_step_spec(s1).0;
        assert(s2.phase is TransmitBlock);
        assert(s2.incoming =~= bad_cycles((k - 1) as nat) + rest);
        let s3 = sender_step_spec(s2).0;
        assert(s3.phase is SendChecksum);
        assert(s3.block == s.block && s3.sum == s.sum && s3.off == s.off);
        assert(s3.sent =~= s.sent + (seq![s.sum] + seq![STX] + s.block));
        assert(sender_wf(s3));
        lemma_retransmit_idempotent(s3, (k - 1) as nat, rest);
        assert(sender_steps(s, 3 * k) == sender_steps(s1, (3 * k - 1) as nat));
        assert(sender_steps(s1, (3 * k - 1) as nat) == sender_steps(s2, (3 * k - 2) as nat));
        assert(sender_steps(s2, (3 * k - 2) as nat) == sender_steps(s3, (3 * k - 3) as nat));
        assert((3 * k - 3) as nat == 3 * ((k - 1) as nat));
        assert(s3.sent + resend_wire(s.sum, s.block, (k - 1) as nat)
            =~= s.sent + resend_wire(s.sum, s.block, k));
    }
}

/// Ping-pong safety, receiver side. The receiver never transmits while its
/// own state requires it to be reading: a step of its table puts bytes on
/// the wire only when that step consumed a byte from the line first, or in
/// the file-creation confirmation, whose TAB (or `X`) answers the ENQ the
/// step before consumed.
pub proof fn lemma_receiver_reads_before_writing(v: ReceiverView)
    requires
        receiver_wf(v),
    ensures
        receiver_step_spec(v).0.sent != v.sent
            ==> next_outcome(v.incoming) is Byte || v.phase is CreateFile,
{
}

/// Ping-pong safety, sender side. Outside the 128-byte block payload, which
/// is unilateral by design, one step of the sender's table puts at most one
/// byte on the wire — its single stimulus — and consumes at most one reply.
pub proof fn lemma_sender_one_stimulus(v: SenderView)
    requires
        sender_wf(v),
    ensures
        !(v.phase is TransmitBlock) ==> sender_step_spec(v).0.sent.len() <= v.sent.len() + 1,
        sender_step_spec(v).0.incoming == v.incoming
            || sender_step_spec(v).0.incoming == after_read(v.incoming),
{
}

/// Round-trip, sender side. When the sender frames a block at offset
/// `128 · k` of the open file, that block is exactly block `k` of
/// [`file_blocks`] of the file's contents, and the checksum it will send is
/// the block's XOR fold. Together with
/// [`crate::protocol::lemma_blocks_reassemble`] — the blocks of a file
/// concatenate to its contents followed by pad bytes — and
/// [`lemma_good_checksum_writes_once`] — the receiver appends each accepted
/// block in order — this is the data path of the round-trip property.
pub proof fn lemma_sender_frames_file_blocks(s: SenderView, k: int)
    requires
        sender_wf(s),
        s.phase is CheckMoreData,
        !s.retransmit,
        s.off == 128 * k,
        0 <= k,
        s.off < s.files[0].data.len(),
    ensures
        ({
            let s1 = sender_step_spec(s).0;
            &&& s1.block == file_blocks(s.files[0].data)[k]
            &&& s1.block == block_at(s.files[0].data, s.off)
            &&& s1.sum == xor_fold(s1.block)
        }),
{
    lemma_block_at_indexed(s.files[0].data, k);
}


/// The state after `n` steps of the receiver's transition table.
pub open spec fn receiver_steps(v: ReceiverView, n: nat) -> ReceiverView
    decreases n,
{
    if n == 0 {
        v
    } else {
        receiver_steps(receiver_step_spec(v).0, (n - 1) as nat)
    }
}

/// A byte sequence as the read outcomes that deliver it.
pub open spec fn as_outcomes(s: Seq<u8>) -> Seq<ReadOutcome> {
    s.map_values(|b: u8| ReadOutcome::Byte(b))
}

/// Reading `n` bytes off a script that starts with exactly those `n` bytes
/// succeeds, yields them, and leaves the rest of the script.
pub proof fn lemma_recv_exact(b: Seq<u8>, rest: Seq<ReadOutcome>, n: nat)
    requires
        b.len() == n,
    ensures
        recv_ok(as_outcomes(b) + rest, n),
        recv_data(as_outcomes(b) + rest, n) == b,
        recv_rest(as_outcomes(b) + rest, n) == rest,
    decreases n,
{
    let inc = as_outcomes(b) + rest;
    if n == 0 {
        assert(inc =~= rest);
    } else {
        assert(inc.len() > 0);
        assert(inc[0] == ReadOutcome::Byte(b[0]));
        assert(after_read(inc) =~= as_outcomes(b.drop_first()) + rest);
        lemma_recv_exact(b.drop_first(), rest, (n - 1) as nat);
        assert(recv_data(inc, n) =~= seq![b[0]] + b.drop_first());
        assert(seq![b[0]] + b.drop_first() =~= b);
    }
}

/// The wire form of one block: STX, the 128 payload bytes, the checksum.
pub open spec fn block_wire(b: Seq<u8>) -> Seq<ReadOutcome> {
    seq![ReadOutcome::Byte(STX)] + as_outcomes(b) + seq![ReadOutcome::Byte(xor_fold(b))]
}

/// The wire form of a run of blocks, back to back.
pub open spec fn blocks_wire(bs: Seq<Seq<u8>>) -> Seq<ReadOutcome>
    decreases bs.len(),
{
    if bs.len() == 0 {
        Seq::empty()
    } else {
        block_wire(bs.first()) + blocks_wire(bs.drop_first())
    }
}

/// The receiver's answers to `k` good blocks: `P` then `G`, `k` times over.
pub open spec fn proceed_good(k: nat) -> Seq<u8>
    decreases k,
{
    if k == 0 {
        Seq::empty()
    } else {
        seq![PROCEED, GOOD] + proceed_good((k - 1) as nat)
    }
}

/// Round-trip, receiver side. Fed any run of correctly checksummed 128-byte
/// blocks, the receiver acknowledges each with `P` and `G` and appends
/// exactly their concatenation to the open file, in order: nothing dropped,
/// nothing duplicated, nothing reordered. With
/// [`lemma_sender_frames_file_blocks`] (the sender frames exactly the blocks
/// of [`file_blocks`]) and [`crate::protocol::lemma_blocks_reassemble`]
/// (those blocks concatenate to the file's contents plus padding), this is
/// the round-trip property of the data path.
pub proof fn lemma_receiver_assembles_blocks(
    r: ReceiverView,
    bs: Seq<Seq<u8>>,
    rest: Seq<ReadOutcome>,
)
    requires
        receiver_wf(r),
        r.phase is WaitBlockOrEOF,
        forall|i: int| 0 <= i < bs.len() ==> (#[trigger] bs[i]).len() == BLOCK_LEN,
        r.incoming == blocks_wire(bs) + rest,
    ensures
        ({
            let rk = receiver_steps(r, 3 * bs.len());
            &&& receiver_wf(rk)
            &&& rk.phase is WaitBlockOrEOF
            &&& rk.cur_data == r.cur_data + bs.flatten()
            &&& rk.done == r.done
            &&& rk.file_open
            &&& rk.cur_name == r.cur_name
            &&& rk.incoming == rest
            &&& rk.sent == r.sent + proceed_good(bs.len())
        }),
    decreases bs.len(),
{
    if bs.len() == 0 {
        assert(r.incoming =~= rest);
        assert(r.cur_data + bs.flatten() =~= r.cur_data);
        assert(r.sent + proceed_good(0) =~= r.sent);
    } else {
        let b = bs.first();
        let tail_wire = blocks_wire(bs.drop_first()) + rest;
        assert(r.incoming =~= seq![ReadOutcome::Byte(STX)]
            + (as_outcomes(b) + (seq![ReadOutcome::Byte(xor_fold(b))] + tail_wire)));
        assert(next_outcome(r.incoming) == ReadOutcome::Byte(STX));
        let r1 = receiver_step_spec(r).0;
        assert(r1.incoming =~= as_outcomes(b)
            + (seq![ReadOutcome::Byte(xor_fold(b))] + tail_wire));
        assert(r1.phase is ReceiveBlock && r1.count == 0 && r1.sum == 0);
        lemma_recv_exact(b, seq![ReadOutcome::Byte(xor_fold(b))] + tail_wire, BLOCK_LEN as nat);
        let r2 = receiver_step_spec(r1).0;
        assert(r2.phase is VerifyChecksum);
        assert(r2.block == b && r2.sum == xor_fold(b));
        assert(r2.incoming =~= seq![ReadOutcome::Byte(xor_fold(b))] + tail_wire);
        assert(next_outcome(r2.incoming) == ReadOutcome::Byte(r2.sum));
        let r3 = receiver_step_spec(r2).0;
        assert(r3.phase is WaitBlockOrEOF);
        assert(r3.cur_data == r.cur_data + b);
        assert(r3.incoming =~= blocks_wire(bs.drop_first()) + rest);
        assert(r3.sent =~= r.sent + seq![PROCEED, GOOD]);
        assert(receiver_wf(r3));
        lemma_receiver_assembles_blocks(r3, bs.drop_first(), rest);
        let k = bs.len();
        assert(receiver_steps(r, 3 * k) == receiver_steps(r1, (3 * k - 1) as nat));
        assert(receiver_steps(r1, (3 * k - 1) as nat)
            == receiver_steps(r2, (3 * k - 2) as nat));
        assert(receiver_steps(r2, (3 * k - 2) as nat)
            == receiver_steps(r3, (3 * k - 3) as nat));
        assert((3 * k - 3) as nat == 3 * ((k - 1) as nat));
        assert(bs.flatten() == b + bs.drop_first().flatten());
        assert((r.cur_data + b) + bs.drop_first().flatten()
            =~= r.cur_data + bs.flatten());
        assert((r.sent + seq![PROCEED, GOOD]) + proceed_good((k - 1) as nat)
            =~= r.sent + proceed_good(k));
    }
}



/// Round-trip, filename path. When the 11 bytes the receiver collected are
/// the wire form the sender prepared for a path, the sender's ENQ moves the
/// receiver to the file-creation point, and a successful creation opens the
/// file under the display form of that wire name — which, for a final
/// component of ASCII letters, digits, '.', '_' and '-', is the lowercase
/// 8.3 truncation of the component
/// ([`crate::filename::lemma_name_round_trip`]). A failed creation answers
/// `X` and leaves no file open.
pub proof fn lemma_receiver_opens_sender_name(r: ReceiverView, p: Seq<u8>)
    requires
        receiver_wf(r),
        r.phase is EndFilename,
        next_outcome(r.incoming) == ReadOutcome::Byte(ENQ),
        r.name_buf == short_name(p),
    ensures
        ({
            let r1 = receiver_step_spec(r).0;
            &&& r1.phase is CreateFile
            &&& receiver_create_spec(r1, true).0.cur_name == name_chars(short_name(p))
            &&& receiver_create_spec(r1, true).0.file_open
            &&& receiver_create_spec(r1, true).0.cur_data == Seq::<u8>::empty()
            &&& receiver_create_spec(r1, false).0.sent == r.sent + seq![ERROR]
            &&& receiver_create_spec(r1, false).0.done == r.done
            &&& receiver_create_spec(r1, false).0.phase is WaitFileOrEnd
        }),
{
}


/// The outcomes of `k` block acknowledgements: `P` then `G`, `k` times over.
pub open spec fn proceed_good_outcomes(k: nat) -> Seq<ReadOutcome>
    decreases k,
{
    if k == 0 {
        Seq::empty()
    } else {
        seq![ReadOutcome::Byte(PROCEED), ReadOutcome::Byte(GOOD)]
            + proceed_good_outcomes((k - 1) as nat)
    }
}

/// The wire form the sender gives a run of blocks: STX, the 128 payload
/// bytes, and the XOR checksum, for each block in turn.
pub open spec fn wire_of_blocks(bs: Seq<Seq<u8>>) -> Seq<u8>
    decreases bs.len(),
{
    if bs.len() == 0 {
        Seq::empty()
    } else {
        seq![STX] + bs.first() + seq![xor_fold(bs.first())] + wire_of_blocks(bs.drop_first())
    }
}

/// Round-trip, sender side, one whole file. From the block loop with `nb`
/// blocks left in the open file and an acknowledging peer, the sender puts
/// exactly each remaining block's STX-payload-checksum frame and the final
/// ETX on the wire, and stands at the end-of-file phase.
pub proof fn lemma_sender_streams_file(s: SenderView, nb: nat, rest: Seq<ReadOutcome>)
    requires
        sender_wf(s),
        s.phase is CheckMoreData,
        !s.retransmit,
        nb == file_blocks(s.files[0].data.skip(s.off)).len(),
        s.incoming == proceed_good_outcomes(nb) + rest,
    ensures
        ({
            let sk = sender_steps(s, 3 * nb + 1);
            &&& sender_wf(sk)
            &&& sk.phase is EndFile
            &&& sk.files == s.files
            &&& sk.name == s.name
            &&& !sk.retransmit
            &&& sk.incoming == rest
            &&& sk.sent == s.sent + wire_of_blocks(file_blocks(s.files[0].data.skip(s.off)))
                + seq![ETX]
        }),
    decreases nb,
{
    let data = s.files[0].data;
    let tail = data.skip(s.off);
    let fb = file_blocks(tail);
    if nb == 0 {
        assert(tail.len() == 0);
        assert(s.off >= data.len());
        assert(s.incoming =~= rest);
        let s1 = sender_step_spec(s).0;
        assert(sender_steps(s, 1) == sender_steps(s1, 0));
        assert(s1.sent =~= s.sent + wire_of_blocks(fb) + seq![ETX]);
    } else {
        assert(tail.len() > 0);
        assert(s.off < data.len());
        assert(s.incoming =~= seq![ReadOutcome::Byte(PROCEED)]
            + (seq![ReadOutcome::Byte(GOOD)] + (proceed_good_outcomes((nb - 1) as nat) + rest)));
        assert(next_outcome(s.incoming) == ReadOutcome::Byte(PROCEED));
        let blk = block_at(data, s.off);
        assert(blk =~= block_at(tail, 0));
        assert(fb.first() == block_at(tail, 0));
        let s1 = sender_step_spec(s).0;
        assert(s1.phase is TransmitBlock);
        assert(s1.block == blk && s1.sum == xor_fold(blk));
        assert(s1.incoming =~= seq![ReadOutcome::Byte(GOOD)]
            + (proceed_good_outcomes((nb - 1) as nat) + rest));
        let s2 = sender_step_spec(s1).0;
        assert(s2.phase is SendChecksum);
        assert(next_outcome(s2.incoming) == ReadOutcome::Byte(GOOD));
        let s3 = sender_step_spec(s2).0;
        assert(s3.phase is CheckMoreData && !s3.retransmit);
        assert(s3.incoming =~= proceed_good_outcomes((nb - 1) as nat) + rest);
        assert(s3.sent =~= s.sent + (seq![STX] + blk + seq![xor_fold(blk)]));
        assert(sender_wf(s3));
        let n = if data.len() - s.off >= BLOCK_LEN {
            BLOCK_LEN as int
        } else {
            data.len() - s.off
        };
        assert(s3.off == s.off + n);
        let tail3 = data.skip(s3.off);
        if tail.len() <= BLOCK_LEN {
            assert(s3.off == data.len());
            assert(tail3.len() == 0);
            assert(fb =~= seq![block_at(tail, 0)]);
            assert(file_blocks(tail3).len() == 0);
            assert(fb.drop_first() =~= file_blocks(tail3));
        } else {
            assert(tail3 =~= tail.skip(BLOCK_LEN as int));
            assert(fb =~= seq![block_at(tail, 0)] + file_blocks(tail.skip(BLOCK_LEN as int)));
            assert(fb.drop_first() =~= file_blocks(tail3));
        }
        assert(file_blocks(tail3).len() == nb - 1);
        lemma_sender_streams_file(s3, (nb - 1) as nat, rest);
        assert(sender_steps(s, 3 * nb + 1) == sender_steps(s1, (3 * nb) as nat));
        assert(sender_steps(s1, (3 * nb) as nat) == sender_steps(s2, (3 * nb - 1) as nat));
        assert(sender_steps(s2, (3 * nb - 1) as nat) == sender_steps(s3, (3 * nb - 2) as nat));
        assert((3 * nb - 2) as nat == 3 * ((nb - 1) as nat) + 1);
        assert(wire_of_blocks(fb)
            =~= seq![STX] + blk + seq![xor_fold(blk)] + wire_of_blocks(fb.drop_first()));
        assert(s3.sent + wire_of_blocks(file_blocks(tail3)) + seq![ETX]
            =~= s.sent + wire_of_blocks(fb) + seq![ETX]);
    }
}


/// Filename echo, sender side. With a peer that echoes every byte
/// faithfully, the sender walks the remaining name bytes one stimulus at a
/// time and reaches the end-of-filename phase having put exactly those bytes
/// on the wire.
pub proof fn lemma_sender_echoes_filename(s: SenderView, rest: Seq<ReadOutcome>)
    requires
        sender_wf(s),
        s.phase is TransmitFilename,
        s.incoming == as_outcomes(s.name.skip(s.idx)) + rest,
    ensures
        ({
            let sk = sender_steps(s, (NAME_LEN - s.idx) as nat);
            &&& sender_wf(sk)
            &&& sk.phase is EndFilename
            &&& sk.files == s.files
            &&& sk.name == s.name
            &&& sk.idx == NAME_LEN
            &&& sk.file_open == s.file_open
            &&& sk.off == s.off
            &&& sk.block == s.block && sk.sum == s.sum
            &&& sk.retransmit == s.retransmit
            &&& sk.incoming == rest
            &&& sk.sent == s.sent + s.name.skip(s.idx)
        }),
    decreases NAME_LEN - s.idx,
{
    let ch = s.name[s.idx];
    assert(s.name.skip(s.idx).len() == NAME_LEN - s.idx);
    assert(as_outcomes(s.name.skip(s.idx))[0] == ReadOutcome::Byte(ch));
    assert(s.incoming.len() > 0);
    assert(next_outcome(s.incoming) == ReadOutcome::Byte(ch));
    let s1 = sender_step_spec(s).0;
    assert(s1.incoming =~= as_outcomes(s.name.skip(s.idx + 1)) + rest) by {
        assert(after_read(s.incoming) =~= as_outcomes(s.name.skip(s.idx)).drop_first() + rest);
        assert(as_outcomes(s.name.skip(s.idx)).drop_first()
            =~= as_outcomes(s.name.skip(s.idx + 1)));
    }
    if s.idx + 1 == NAME_LEN {
        assert(s1.phase is EndFilename);
        assert(sender_steps(s, 1) == sender_steps(s1, 0));
        assert(s1.sent =~= s.sent + s.name.skip(s.idx));
        assert(s1.incoming =~= rest);
    } else {
        assert(s1.phase is TransmitFilename && s1.idx == s.idx + 1);
        assert(sender_wf(s1));
        lemma_sender_echoes_filename(s1, rest);
        assert(sender_steps(s, (NAME_LEN - s.idx) as nat)
            == sender_steps(s1, (NAME_LEN - s.idx - 1) as nat));
        assert((s.sent + seq![ch]) + s.name.skip(s.idx + 1) =~= s.sent + s.name.skip(s.idx));
    }
}

/// The sender's wire for one file: EOT, the 11-byte wire name, ENQ, each
/// block as STX + payload + checksum, then ETX.
pub open spec fn file_wire(name: Seq<u8>, data: Seq<u8>) -> Seq<u8> {
    seq![EOT] + short_name(name) + seq![ENQ] + wire_of_blocks(file_blocks(data)) + seq![ETX]
}

/// The replies a faithful receiver gives for one file: BS, the 11 echoed
/// name bytes, TAB, and `P`/`G` for each block.
pub open spec fn file_replies(name: Seq<u8>, data: Seq<u8>) -> Seq<ReadOutcome> {
    seq![ReadOutcome::Byte(BS)] + as_outcomes(short_name(name)) + seq![ReadOutcome::Byte(TAB)]
        + proceed_good_outcomes(file_blocks(data).len())
}

/// How many steps the sender takes for one file: the filename request, the
/// 11 echoes, the filename end, the block loop with its final ETX, and the
/// end-of-file bookkeeping.
pub open spec fn file_steps(data: Seq<u8>) -> nat {
    15 + 3 * file_blocks(data).len()
}

/// Round-trip, sender side, one file with its framing. From the filename
/// request with a faithful peer, the sender puts exactly the file's framing
/// on the wire — `EOT <name> ENQ {STX <block> <checksum>}* ETX` — drops the
/// file from its queue, and either moves to the next file's filename request
/// or, after the last file, seals the session with XOFF.
pub proof fn lemma_sender_sends_file(s: SenderView, rest: Seq<ReadOutcome>)
    requires
        sender_wf(s),
        s.phase is RequestFilename,
        !s.retransmit,
        s.files.len() > 0,
        s.incoming == file_replies(s.files[0].name, s.files[0].data) + rest,
    ensures
        ({
            let sk = sender_steps(s, file_steps(s.files[0].data));
            &&& sk.files == s.files.drop_first()
            &&& sk.incoming == rest
            &&& (s.files.len() > 1 ==> sender_wf(sk) && sk.phase is RequestFilename
                && !sk.retransmit
                && sk.sent == s.sent + file_wire(s.files[0].name, s.files[0].data))
            &&& (s.files.len() == 1 ==> sk.sent == s.sent
                + file_wire(s.files[0].name, s.files[0].data) + seq![XOFF])
        }),
{
    let name = s.files[0].name;
    let data = s.files[0].data;
    let nb = file_blocks(data).len();
    let wire_name = short_name(name);
    assert(wire_name.len() == NAME_LEN) by {
        assert(fit_field(upper_seq(stem_of(last_component(name))), 8).len() == 8);
        assert(fit_field(upper_seq(ext_of(last_component(name))), 3).len() == 3);
    }
    let after_bs = as_outcomes(wire_name)
        + (seq![ReadOutcome::Byte(TAB)] + (proceed_good_outcomes(nb) + rest));
    assert(s.incoming =~= seq![ReadOutcome::Byte(BS)] + after_bs);
    assert(next_outcome(s.incoming) == ReadOutcome::Byte(BS));
    let s1 = sender_step_spec(s).0;
    assert(s1.phase is TransmitFilename && s1.idx == 0 && s1.name == wire_name);
    assert(s1.incoming =~= after_bs);
    assert(sender_wf(s1));
    assert(s1.incoming =~= as_outcomes(s1.name.skip(0))
        + (seq![ReadOutcome::Byte(TAB)] + (proceed_good_outcomes(nb) + rest))) by {
        assert(s1.name.skip(0) =~= wire_name);
    }
    lemma_sender_echoes_filename(s1, seq![ReadOutcome::Byte(TAB)]
        + (proceed_good_outcomes(nb) + rest));
    let s2 = sender_steps(s1, NAME_LEN as nat);
    assert(s2.phase is EndFilename);
    assert(next_outcome(s2.incoming) == ReadOutcome::Byte(TAB));
    let s3 = sender_step_spec(s2).0;
    assert(s3.phase is CheckMoreData && s3.file_open && s3.off == 0 && !s3.retransmit);
    assert(s3.incoming =~= proceed_good_outcomes(nb) + rest);
    assert(sender_wf(s3));
    assert(s3.files[0].data.skip(0) =~= data);
    lemma_sender_streams_file(s3, nb, rest);
    let s4 = sender_steps(s3, 3 * nb + 1);
    assert(s4.phase is EndFile && s4.files == s.files && s4.incoming =~= rest);
    let s5 = sender_step_spec(s4).0;
    assert(s5.files == s.files.drop_first());
    assert(sender_steps(s, 1) == sender_steps(s1, 0));
    assert(sender_steps(s1, 0) == s1);
    lemma_sender_steps_add(s, 1, NAME_LEN as nat);
    assert(sender_steps(s, 1 + NAME_LEN as nat) == s2);
    assert(sender_steps(s2, 1) == sender_steps(s3, 0));
    assert(sender_steps(s3, 0) == s3);
    lemma_sender_steps_add(s, 1 + NAME_LEN as nat, 1);
    assert(sender_steps(s, 13) == s3);
    lemma_sender_steps_add(s, 13, 3 * nb + 1);
    assert(sender_steps(s, 13 + (3 * nb + 1)) == s4);
    assert(sender_steps(s4, 1) == sender_steps(s5, 0));
    assert(sender_steps(s5, 0) == s5);
    lemma_sender_steps_add(s, 14 + 3 * nb, 1);
    assert(sender_steps(s, file_steps(data)) == s5);
    assert(s4.sent =~= s.sent + seq![EOT] + wire_name + seq![ENQ]
        + wire_of_blocks(file_blocks(data)) + seq![ETX]);
    if s.files.len() == 1 {
        assert(s5.sent =~= s.sent + file_wire(name, data) + seq![XOFF]);
    } else {
        assert(s5.phase is RequestFilename && !s5.retransmit);
        assert(s5.sent =~= s.sent + file_wire(name, data));
        assert(sender_wf(s5));
    }
}

/// Stepping `m + n` times is stepping `m` times, then `n` more.
pub proof fn lemma_sender_steps_add(v: SenderView, m: nat, n: nat)
    ensures
        sender_steps(v, m + n) == sender_steps(sender_steps(v, m), n),
    decreases m,
{
    if m > 0 {
        lemma_sender_steps_add(sender_step_spec(v).0, (m - 1) as nat, n);
    }
}


/// The wire of a whole run of files, each in its framing, back to back.
pub open spec fn files_wire(files: Seq<FileView>) -> Seq<u8>
    decreases files.len(),
{
    if files.len() == 0 {
        Seq::empty()
    } else {
        file_wire(files.first().name, files.first().data) + files_wire(files.drop_first())
    }
}

/// The replies a faithful receiver gives for a run of files.
pub open spec fn files_replies(files: Seq<FileView>) -> Seq<ReadOutcome>
    decreases files.len(),
{
    if files.len() == 0 {
        Seq::empty()
    } else {
        file_replies(files.first().name, files.first().data)
            + files_replies(files.drop_first())
    }
}

/// How many steps the sender takes for a run of files.
pub open spec fn files_steps(files: Seq<FileView>) -> nat
    decreases files.len(),
{
    if files.len() == 0 {
        0
    } else {
        file_steps(files.first().data) + files_steps(files.drop_first())
    }
}

/// Round-trip, sender side, a whole run of files. From the first filename
/// request with a faithful peer, the sender puts exactly each file's framing
/// and the final XOFF on the wire, and empties its queue.
pub proof fn lemma_sender_sends_files(s: SenderView, rest: Seq<ReadOutcome>)
    requires
        sender_wf(s),
        s.phase is RequestFilename,
        !s.retransmit,
        s.files.len() > 0,
        s.incoming == files_replies(s.files) + rest,
    ensures
        ({
            let sk = sender_steps(s, files_steps(s.files));
            &&& sk.files.len() == 0
            &&& sk.incoming == rest
            &&& sk.sent == s.sent + files_wire(s.files) + seq![XOFF]
        }),
    decreases s.files.len(),
{
    let f0 = s.files.first();
    let others = s.files.drop_first();
    assert(s.incoming =~= file_replies(f0.name, f0.data) + (files_replies(others) + rest));
    lemma_sender_sends_file(s, files_replies(others) + rest);
    let s1 = sender_steps(s, file_steps(f0.data));
    assert(s1.files == others);
    if s.files.len() == 1 {
        assert(files_replies(others) =~= Seq::<ReadOutcome>::empty());
        assert(s1.incoming =~= rest);
        assert(files_steps(s.files) == file_steps(f0.data) + 0);
        assert(files_wire(others) =~= Seq::<u8>::empty());
        assert(s.sent + file_wire(f0.name, f0.data) + seq![XOFF]
            =~= s.sent + files_wire(s.files) + seq![XOFF]);
    } else {
        assert(sender_wf(s1) && s1.phase is RequestFilename && !s1.retransmit);
        assert(s1.incoming == files_replies(others) + rest);
        lemma_sender_sends_files(s1, rest);
        lemma_sender_steps_add(s, file_steps(f0.data), files_steps(others));
        let sk = sender_steps(s1, files_steps(others));
        assert(sk.sent =~= s.sent + files_wire(s.files) + seq![XOFF]) by {
            assert(sk.sent == s1.sent + files_wire(others) + seq![XOFF]);
            assert(s1.sent == s.sent + file_wire(f0.name, f0.data));
            assert(files_wire(s.files)
                =~= file_wire(f0.name, f0.data) + files_wire(others));
        }
    }
}

/// Session framing, sender side. Told `S` at the handshake and given the
/// echo and acknowledgement replies a faithful receiver produces, the sender
/// puts exactly the session framing on the wire:
/// `R G {EOT <name> ENQ {STX <block> <checksum>}* ETX}* XOFF` — each file's
/// contents as its padded blocks, in order, nothing else.
pub proof fn lemma_sender_session_wire(s: SenderView, rest: Seq<ReadOutcome>)
    requires
        sender_wf(s),
        s.phase is InitialHandshake,
        !s.retransmit,
        s.files.len() > 0,
        s.incoming == seq![ReadOutcome::Byte(RECEIVER_READY)] + files_replies(s.files) + rest,
    ensures
        ({
            let sk = sender_steps(s, 2 + files_steps(s.files));
            &&& sk.files.len() == 0
            &&& sk.incoming == rest
            &&& sk.sent == s.sent + seq![SENDER_READY, GOOD] + files_wire(s.files) + seq![XOFF]
        }),
{
    assert(s.incoming =~= seq![ReadOutcome::Byte(RECEIVER_READY)]
        + (files_replies(s.files) + rest));
    assert(next_outcome(s.incoming) == ReadOutcome::Byte(RECEIVER_READY));
    let s1 = sender_step_spec(s).0;
    assert(s1.phase is SendGood);
    assert(s1.incoming =~= files_replies(s.files) + rest);
    let s2 = sender_step_spec(s1).0;
    assert(s2.phase is RequestFilename && !s2.retransmit && s2.files == s.files);
    assert(s2.incoming == s1.incoming);
    assert(sender_wf(s2));
    lemma_sender_sends_files(s2, rest);
    assert(sender_steps(s, 2) == sender_steps(s1, 1));
    assert(sender_steps(s1, 1) == sender_steps(s2, 0));
    assert(sender_steps(s2, 0) == s2);
    lemma_sender_steps_add(s, 2, files_steps(s.files));
    let sk = sender_steps(s2, files_steps(s.files));
    assert(sk.sent =~= s.sent + seq![SENDER_READY, GOOD] + files_wire(s.files) + seq![XOFF])
        by {
        assert(sk.sent == s2.sent + files_wire(s.files) + seq![XOFF]);
        assert(s2.sent =~= s.sent + seq![SENDER_READY, GOOD]);
    }
}


/// Stepping the receiver `m + n` times is stepping `m` times, then `n` more.
pub proof fn lemma_receiver_steps_add(v: ReceiverView, m: nat, n: nat)
    ensures
        receiver_steps(v, m + n) == receiver_steps(receiver_steps(v, m), n),
    decreases m,
{
    if m > 0 {
        lemma_receiver_steps_add(receiver_step_spec(v).0, (m - 1) as nat, n);
    }
}

/// Byte-ification distributes over concatenation.
pub proof fn lemma_as_outcomes_add(a: Seq<u8>, b: Seq<u8>)
    ensures
        as_outcomes(a + b) == as_outcomes(a) + as_outcomes(b),
{
    assert(as_outcomes(a + b) =~= as_outcomes(a) + as_outcomes(b));
}

/// Filename echo, receiver side. Fed the remaining bytes of an 11-byte name
/// whose bytes are all printable (at or above 0x20), the receiver stores and
/// echoes each in turn and reaches the end-of-filename phase.
pub proof fn lemma_receiver_echoes_filename(r: ReceiverView, wn: Seq<u8>, rest: Seq<ReadOutcome>)
    requires
        receiver_wf(r),
        r.phase is ReceiveFilename,
        wn.len() == NAME_LEN,
        forall|j: int| 0 <= j < wn.len() ==> #[trigger] wn[j] >= 0x20,
        r.incoming == as_outcomes(wn.skip(r.idx)) + rest,
    ensures
        ({
            let rk = receiver_steps(r, (NAME_LEN - r.idx) as nat);
            &&& receiver_wf(rk)
            &&& rk.phase is EndFilename
            &&& rk.idx == NAME_LEN
            &&& rk.name_buf == Seq::new(
                NAME_LEN as nat,
                |j: int| if j < r.idx { r.name_buf[j] } else { wn[j] },
            )
            &&& rk.done == r.done
            &&& rk.file_open == r.file_open
            &&& rk.cur_name == r.cur_name
            &&& rk.cur_data == r.cur_data
            &&& rk.incoming == rest
            &&& rk.sent == r.sent + wn.skip(r.idx)
        }),
    decreases NAME_LEN - r.idx,
{
    let ch = wn[r.idx];
    assert(wn.skip(r.idx).len() == NAME_LEN - r.idx);
    assert(as_outcomes(wn.skip(r.idx))[0] == ReadOutcome::Byte(ch));
    assert(r.incoming.len() > 0);
    assert(next_outcome(r.incoming) == ReadOutcome::Byte(ch));
    assert(ch >= 0x20);
    let r1 = receiver_step_spec(r).0;
    assert(r1.incoming =~= as_outcomes(wn.skip(r.idx + 1)) + rest) by {
        assert(after_read(r.incoming) =~= as_outcomes(wn.skip(r.idx)).drop_first() + rest);
        assert(as_outcomes(wn.skip(r.idx)).drop_first() =~= as_outcomes(wn.skip(r.idx + 1)));
    }
    if r.idx + 1 == NAME_LEN {
        assert(r1.phase is EndFilename);
        assert(receiver_steps(r, 1) == receiver_steps(r1, 0));
        assert(r1.sent =~= r.sent + wn.skip(r.idx));
        assert(r1.name_buf =~= Seq::new(
            NAME_LEN as nat,
            |j: int| if j < r.idx { r.name_buf[j] } else { wn[j] },
        ));
    } else {
        assert(r1.phase is ReceiveFilename && r1.idx == r.idx + 1);
        assert(receiver_wf(r1));
        lemma_receiver_echoes_filename(r1, wn, rest);
        assert(receiver_steps(r, (NAME_LEN - r.idx) as nat)
            == receiver_steps(r1, (NAME_LEN - r.idx - 1) as nat));
        let rk = receiver_steps(r1, (NAME_LEN - r.idx - 1) as nat);
        assert(rk.name_buf =~= Seq::new(
            NAME_LEN as nat,
            |j: int| if j < r.idx { r.name_buf[j] } else { wn[j] },
        )) by {
            assert(rk.name_buf == Seq::new(
                NAME_LEN as nat,
                |j: int| if j < r1.idx { r1.name_buf[j] } else { wn[j] },
            ));
            assert(r1.name_buf == r.name_buf.update(r.idx, ch));
        }
        assert((r.sent + seq![ch]) + wn.skip(r.idx + 1) =~= r.sent + wn.skip(r.idx));
    }
}

/// The file the receiver reconstructs from one sent file: the display form
/// of the sender's short name, and the contents padded out to whole blocks.
pub open spec fn received_file(f: FileView) -> crate::receiver::OutFileView {
    crate::receiver::OutFileView {
        name: name_chars(short_name(f.name)),
        data: file_blocks(f.data).flatten(),
    }
}

/// How many steps the receiver takes for one file's framing.
pub open spec fn receiver_file_steps(data: Seq<u8>) -> nat {
    15 + 3 * file_blocks(data).len()
}

/// Round-trip, receiver side, one file. Fed exactly one file's wire framing
/// — `EOT <name> ENQ {STX <block> <checksum>}* ETX` — the receiver echoes
/// the name, acknowledges every block, and completes one more file: the
/// display form of the wire name, holding the padded blocks in order.
#[verifier::rlimit(80)]
pub proof fn lemma_receiver_receives_file(r: ReceiverView, f: FileView, rest: Seq<ReadOutcome>)
    requires
        receiver_wf(r),
        r.phase is WaitFileOrEnd,
        forall|j: int| 0 <= j < short_name(f.name).len()
            ==> #[trigger] short_name(f.name)[j] >= 0x20,
        r.incoming == as_outcomes(file_wire(f.name, f.data)) + rest,
    ensures
        ({
            let rk = receiver_steps(r, receiver_file_steps(f.data));
            &&& receiver_wf(rk)
            &&& rk.phase is WaitFileOrEnd
            &&& !rk.file_open
            &&& rk.done == r.done.push(received_file(f))
            &&& rk.incoming == rest
            &&& rk.sent == r.sent + seq![BS] + short_name(f.name) + seq![TAB]
                + proceed_good(file_blocks(f.data).len())
        }),
{
    let wn = short_name(f.name);
    let fb = file_blocks(f.data);
    let nb = fb.len();
    crate::protocol::lemma_blocks_reassemble(f.data);
    assert(wn.len() == NAME_LEN) by {
        assert(fit_field(upper_seq(stem_of(last_component(f.name))), 8).len() == 8);
        assert(fit_field(upper_seq(ext_of(last_component(f.name))), 3).len() == 3);
    }
    let blocks_part = as_outcomes(wire_of_blocks(fb));
    assert(r.incoming =~= seq![ReadOutcome::Byte(EOT)] + (as_outcomes(wn)
        + (seq![ReadOutcome::Byte(ENQ)] + (blocks_part
        + (seq![ReadOutcome::Byte(ETX)] + rest))))) by {
        assert(as_outcomes(file_wire(f.name, f.data))
            =~= seq![ReadOutcome::Byte(EOT)] + as_outcomes(wn)
                + seq![ReadOutcome::Byte(ENQ)] + blocks_part
                + seq![ReadOutcome::Byte(ETX)]);
    }
    assert(next_outcome(r.incoming) == ReadOutcome::Byte(EOT));
    let r1 = receiver_step_spec(r).0;
    assert(r1.phase is ReceiveFilename && r1.idx == 0);
    assert(receiver_wf(r1));
    assert(r1.incoming =~= as_outcomes(wn.skip(0)) + (seq![ReadOutcome::Byte(ENQ)]
        + (blocks_part + (seq![ReadOutcome::Byte(ETX)] + rest)))) by {
        assert(wn.skip(0) =~= wn);
    }
    lemma_receiver_echoes_filename(r1, wn,
        seq![ReadOutcome::Byte(ENQ)] + (blocks_part + (seq![ReadOutcome::Byte(ETX)] + rest)));
    let r2 = receiver_steps(r1, NAME_LEN as nat);
    assert(r2.phase is EndFilename);
    assert(r2.name_buf =~= wn);
    assert(next_outcome(r2.incoming) == ReadOutcome::Byte(ENQ));
    let r2c = receiver_step_spec(r2).0;
    assert(r2c.phase is CreateFile);
    assert(receiver_wf(r2c));
    let r3 = receiver_step_spec(r2c).0;
    assert(r3 == receiver_create_spec(r2c, true).0);
    assert(r3.phase is WaitBlockOrEOF && r3.file_open);
    assert(r3.cur_name == name_chars(wn) && r3.cur_data =~= Seq::<u8>::empty());
    assert(receiver_wf(r3));
    assert(r3.incoming =~= blocks_part + (seq![ReadOutcome::Byte(ETX)] + rest));
    assert(r3.incoming == blocks_wire(fb) + (seq![ReadOutcome::Byte(ETX)] + rest)) by {
        lemma_blocks_wire_as_outcomes(fb);
    }
    lemma_receiver_assembles_blocks(r3, fb, seq![ReadOutcome::Byte(ETX)] + rest);
    let r4 = receiver_steps(r3, 3 * nb);
    assert(r4.phase is WaitBlockOrEOF && r4.file_open);
    assert(r4.cur_data =~= fb.flatten());
    assert(r4.cur_name == name_chars(wn));
    assert(next_outcome(r4.incoming) == ReadOutcome::Byte(ETX));
    let r5 = receiver_step_spec(r4).0;
    assert(r5.phase is WaitFileOrEnd && !r5.file_open);
    assert(r5.done =~= r.done.push(received_file(f)));
    assert(r5.incoming =~= rest);
    assert(receiver_steps(r, 1) == receiver_steps(r1, 0));
    assert(receiver_steps(r1, 0) == r1);
    lemma_receiver_steps_add(r, 1, NAME_LEN as nat);
    assert(receiver_steps(r, 1 + NAME_LEN as nat) == r2);
    assert(receiver_steps(r2, 1) == receiver_steps(r2c, 0));
    assert(receiver_steps(r2c, 0) == r2c);
    lemma_receiver_steps_add(r, 1 + NAME_LEN as nat, 1);
    assert(receiver_steps(r, 13) == r2c);
    assert(receiver_steps(r2c, 1) == receiver_steps(r3, 0));
    assert(receiver_steps(r3, 0) == r3);
    lemma_receiver_steps_add(r, 13, 1);
    assert(receiver_steps(r, 14) == r3);
    lemma_receiver_steps_add(r, 14, 3 * nb);
    assert(receiver_steps(r, 14 + 3 * nb) == r4);
    assert(receiver_steps(r4, 1) == receiver_steps(r5, 0));
    assert(receiver_steps(r5, 0) == r5);
    lemma_receiver_steps_add(r, 14 + 3 * nb, 1);
    assert(receiver_steps(r, receiver_file_steps(f.data)) == r5);
    assert(r5.sent =~= r.sent + seq![BS] + wn + seq![TAB] + proceed_good(nb));
}

/// The wire of a run of blocks, byte-ified, is the outcome script of those
/// blocks.
pub proof fn lemma_blocks_wire_as_outcomes(bs: Seq<Seq<u8>>)
    ensures
        as_outcomes(wire_of_blocks(bs)) == blocks_wire(bs),
    decreases bs.len(),
{
    if bs.len() == 0 {
        assert(as_outcomes(wire_of_blocks(bs)) =~= blocks_wire(bs));
    } else {
        lemma_blocks_wire_as_outcomes(bs.drop_first());
        assert(as_outcomes(wire_of_blocks(bs)) =~= block_wire(bs.first())
            + blocks_wire(bs.drop_first())) by {
            assert(as_outcomes(wire_of_blocks(bs))
                =~= as_outcomes(seq![STX]) + as_outcomes(bs.first())
                    + as_outcomes(seq![xor_fold(bs.first())])
                    + as_outcomes(wire_of_blocks(bs.drop_first())));
            assert(as_outcomes(seq![STX]) =~= seq![ReadOutcome::Byte(STX)]);
            assert(as_outcomes(seq![xor_fold(bs.first())])
                =~= seq![ReadOutcome::Byte(xor_fold(bs.first()))]);
        }
        assert(blocks_wire(bs) == block_wire(bs.first()) + blocks_wire(bs.drop_first()));
    }
}


/// Whether every byte of a file's wire name is printable (at or above 0x20),
/// as the receiver requires of filename bytes.
pub open spec fn printable_short_name(f: FileView) -> bool {
    forall|j: int| 0 <= j < short_name(f.name).len() ==> #[trigger] short_name(f.name)[j] >= 0x20
}

/// The reply bytes a faithful receiver produces for a run of files: BS, the
/// echoed name, TAB, then `P` and `G` for each block, file after file.
pub open spec fn files_reply_bytes(files: Seq<FileView>) -> Seq<u8>
    decreases files.len(),
{
    if files.len() == 0 {
        Seq::empty()
    } else {
        seq![BS] + short_name(files.first().name) + seq![TAB]
            + proceed_good(file_blocks(files.first().data).len())
            + files_reply_bytes(files.drop_first())
    }
}

/// How many steps the receiver takes for a run of files.
pub open spec fn receiver_files_steps(files: Seq<FileView>) -> nat
    decreases files.len(),
{
    if files.len() == 0 {
        0
    } else {
        receiver_file_steps(files.first().data) + receiver_files_steps(files.drop_first())
    }
}

/// Byte-ifying the `P`/`G` reply bytes gives the `P`/`G` outcome script.
pub proof fn lemma_proceed_good_as_outcomes(k: nat)
    ensures
        as_outcomes(proceed_good(k)) == proceed_good_outcomes(k),
    decreases k,
{
    if k == 0 {
        assert(as_outcomes(proceed_good(0)) =~= proceed_good_outcomes(0));
    } else {
        lemma_proceed_good_as_outcomes((k - 1) as nat);
        assert(as_outcomes(proceed_good(k)) =~= proceed_good_outcomes(k)) by {
            assert(forall|i: int| 0 <= i < proceed_good(k).len()
                ==> #[trigger] as_outcomes(proceed_good(k))[i]
                    == ReadOutcome::Byte(proceed_good(k)[i]));
            assert(proceed_good(k)
                =~= seq![PROCEED, GOOD] + proceed_good((k - 1) as nat));
        }
    }
}

/// Byte-ifying the receiver's reply bytes gives exactly the reply script the
/// sender's session law consumes.
pub proof fn lemma_replies_as_outcomes(files: Seq<FileView>)
    ensures
        as_outcomes(files_reply_bytes(files)) == files_replies(files),
    decreases files.len(),
{
    if files.len() == 0 {
        assert(as_outcomes(files_reply_bytes(files)) =~= files_replies(files));
    } else {
        let f0 = files.first();
        let wn = short_name(f0.name);
        let nb = file_blocks(f0.data).len();
        lemma_replies_as_outcomes(files.drop_first());
        lemma_proceed_good_as_outcomes(nb);
        lemma_as_outcomes_add(seq![BS] + wn + seq![TAB] + proceed_good(nb),
            files_reply_bytes(files.drop_first()));
        assert(files_reply_bytes(files) =~= (seq![BS] + wn + seq![TAB] + proceed_good(nb))
            + files_reply_bytes(files.drop_first()));
        assert(as_outcomes(seq![BS] + wn + seq![TAB] + proceed_good(nb))
            =~= seq![ReadOutcome::Byte(BS)] + as_outcomes(wn) + seq![ReadOutcome::Byte(TAB)]
                + proceed_good_outcomes(nb)) by {
            assert(forall|i: int| 0 <= i < (seq![BS] + wn + seq![TAB] + proceed_good(nb)).len()
                ==> #[trigger] as_outcomes(seq![BS] + wn + seq![TAB] + proceed_good(nb))[i]
                    == ReadOutcome::Byte((seq![BS] + wn + seq![TAB] + proceed_good(nb))[i]));
        }
        assert(as_outcomes(files_reply_bytes(files)) =~= files_replies(files));
    }
}

/// Round-trip, receiver side, a whole run of files. Fed the back-to-back
/// wire framings of a run of files, the receiver reconstructs exactly one
/// file per framing, in order, and answers with the reply bytes of
/// [`files_reply_bytes`].
pub proof fn lemma_receiver_receives_files(
    r: ReceiverView,
    files: Seq<FileView>,
    rest: Seq<ReadOutcome>,
)
    requires
        receiver_wf(r),
        r.phase is WaitFileOrEnd,
        forall|i: int| 0 <= i < files.len() ==> printable_short_name(#[trigger] files[i]),
        r.incoming == as_outcomes(files_wire(files)) + rest,
    ensures
        ({
            let rk = receiver_steps(r, receiver_files_steps(files));
            &&& receiver_wf(rk)
            &&& rk.phase is WaitFileOrEnd
            &&& rk.done == r.done + files.map_values(|f: FileView| received_file(f))
            &&& rk.incoming == rest
            &&& rk.sent == r.sent + files_reply_bytes(files)
        }),
    decreases files.len(),
{
    if files.len() == 0 {
        assert(r.incoming =~= rest);
        assert(r.done + files.map_values(|f: FileView| received_file(f)) =~= r.done);
        assert(r.sent + files_reply_bytes(files) =~= r.sent);
    } else {
        let f0 = files.first();
        let others = files.drop_first();
        lemma_as_outcomes_add(file_wire(f0.name, f0.data), files_wire(others));
        assert(r.incoming =~= as_outcomes(file_wire(f0.name, f0.data))
            + (as_outcomes(files_wire(others)) + rest)) by {
            assert(files_wire(files)
                == file_wire(f0.name, f0.data) + files_wire(others));
        }
        assert(printable_short_name(f0));
        lemma_receiver_receives_file(r, f0, as_outcomes(files_wire(others)) + rest);
        let r1 = receiver_steps(r, receiver_file_steps(f0.data));
        assert(forall|i: int| 0 <= i < others.len()
            ==> printable_short_name(#[trigger] others[i])) by {
            assert(forall|i: int| 0 <= i < others.len() ==> others[i] == files[i + 1]);
        }
        lemma_receiver_receives_files(r1, others, rest);
        lemma_receiver_steps_add(r, receiver_file_steps(f0.data), receiver_files_steps(others));
        let rk = receiver_steps(r1, receiver_files_steps(others));
        assert(rk.done =~= r.done + files.map_values(|f: FileView| received_file(f))) by {
            assert(rk.done == r1.done + others.map_values(|f: FileView| received_file(f)));
            assert(r1.done == r.done.push(received_file(f0)));
            assert(forall|i: int| 0 <= i < others.len() ==> #[trigger] others[i] == files[i + 1]);
        }
        assert(rk.sent =~= r.sent + files_reply_bytes(files)) by {
            assert(rk.sent == r1.sent + files_reply_bytes(others));
            assert(r1.sent == r.sent + seq![BS] + short_name(f0.name) + seq![TAB]
                + proceed_good(file_blocks(f0.data).len()));
        }
    }
}

/// The whole byte sequence the sender puts on the wire in one session.
pub open spec fn sender_session_bytes(files: Seq<FileView>) -> Seq<u8> {
    seq![SENDER_READY, GOOD] + files_wire(files) + seq![XOFF]
}

/// The whole byte sequence the receiver puts on the wire in one session.
pub open spec fn receiver_session_bytes(files: Seq<FileView>) -> Seq<u8> {
    seq![RECEIVER_READY] + files_reply_bytes(files)
}

/// Round-trip, both ends over a lossless wire. For any non-empty run of
/// files whose wire names hold printable bytes: when each engine's read
/// script is exactly the byte sequence the other engine's session puts on
/// the wire, the sender empties its queue having written exactly
/// `R G {EOT <name> ENQ {STX <block> <checksum>}* ETX}* XOFF`; the receiver
/// answers with exactly `S {BS <name> TAB {P G}*}*`, reads the XOFF as its
/// normal session end, and finishes with one file per input file, named by
/// the lowercase display form of the sender's short name and holding the
/// file's contents padded to whole 128-byte blocks — so each received file
/// begins with the original contents
/// ([`crate::protocol::lemma_blocks_reassemble`]).
pub proof fn lemma_session_round_trip(s: SenderView, r: ReceiverView)
    requires
        sender_wf(s),
        s.phase is InitialHandshake,
        !s.retransmit,
        s.files.len() > 0,
        receiver_wf(r),
        r.phase is InitialHandshake,
        forall|i: int| 0 <= i < s.files.len() ==> printable_short_name(#[trigger] s.files[i]),
        s.incoming == as_outcomes(receiver_session_bytes(s.files)),
        r.incoming == as_outcomes(sender_session_bytes(s.files)),
    ensures
        ({
            let sk = sender_steps(s, 2 + files_steps(s.files));
            let rk = receiver_steps(r, 2 + receiver_files_steps(s.files));
            &&& sk.files.len() == 0
            &&& sk.sent == s.sent + sender_session_bytes(s.files)
            &&& rk.sent == r.sent + receiver_session_bytes(s.files)
            &&& rk.done == r.done + s.files.map_values(|f: FileView| received_file(f))
            &&& receiver_step_spec(rk).1 == Err::<(), crate::receiver::ReceiverError>(
                crate::receiver::ReceiverError::TransferComplete)
        }),
{
    let files = s.files;
    // Sender side: its script is the receiver's reply bytes.
    lemma_replies_as_outcomes(files);
    lemma_as_outcomes_add(seq![RECEIVER_READY], files_reply_bytes(files));
    assert(s.incoming =~= seq![ReadOutcome::Byte(RECEIVER_READY)] + files_replies(files)
        + Seq::<ReadOutcome>::empty()) by {
        assert(as_outcomes(seq![RECEIVER_READY]) =~= seq![ReadOutcome::Byte(RECEIVER_READY)]);
    }
    lemma_sender_session_wire(s, Seq::empty());
    let sk = sender_steps(s, 2 + files_steps(files));
    assert(sk.sent =~= s.sent + sender_session_bytes(files));

    // Receiver side: its script is the sender's session bytes.
    lemma_as_outcomes_add(seq![SENDER_READY, GOOD] + files_wire(files), seq![XOFF]);
    lemma_as_outcomes_add(seq![SENDER_READY, GOOD], files_wire(files));
    assert(r.incoming =~= seq![ReadOutcome::Byte(SENDER_READY)]
        + (seq![ReadOutcome::Byte(GOOD)] + (as_outcomes(files_wire(files))
        + seq![ReadOutcome::Byte(XOFF)]))) by {
        assert(as_outcomes(seq![SENDER_READY, GOOD])
            =~= seq![ReadOutcome::Byte(SENDER_READY), ReadOutcome::Byte(GOOD)]);
        assert(as_outcomes(seq![XOFF]) =~= seq![ReadOutcome::Byte(XOFF)]);
    }
    assert(next_outcome(r.incoming) == ReadOutcome::Byte(SENDER_READY));
    let r1 = receiver_step_spec(r).0;
    assert(r1.phase is WaitGood);
    assert(r1.incoming =~= seq![ReadOutcome::Byte(GOOD)] + (as_outcomes(files_wire(files))
        + seq![ReadOutcome::Byte(XOFF)]));
    let r2 = receiver_step_spec(r1).0;
    assert(r2.phase is WaitFileOrEnd);
    assert(receiver_wf(r2));
    assert(r2.incoming =~= as_outcomes(files_wire(files)) + seq![ReadOutcome::Byte(XOFF)]);
    lemma_receiver_receives_files(r2, files, seq![ReadOutcome::Byte(XOFF)]);
    assert(receiver_steps(r, 1) == receiver_steps(r1, 0));
    assert(receiver_steps(r1, 0) == r1);
    lemma_receiver_steps_add(r, 1, 1);
    assert(receiver_steps(r1, 1) == receiver_steps(r2, 0));
    assert(receiver_steps(r2, 0) == r2);
    lemma_receiver_steps_add(r, 2, receiver_files_steps(files));
    let rk = receiver_steps(r2, receiver_files_steps(files));
    assert(rk.sent =~= r.sent + receiver_session_bytes(files)) by {
        assert(rk.sent == r2.sent + files_reply_bytes(files));
        assert(r2.sent =~= r.sent + seq![RECEIVER_READY]);
    }
    assert(next_outcome(rk.incoming) == ReadOutcome::Byte(XOFF));
    assert(receiver_step_spec(rk).1 == Err::<(), crate::receiver::ReceiverError>(
        crate::receiver::ReceiverError::TransferComplete));
}


} // verus!
