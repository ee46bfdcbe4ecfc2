//! FILINK protocol constants and the per-block checksum discipline.

use vstd::prelude::*;

verus! {

/// Start of text - begins transmission of a 128-byte data block
pub const STX: u8 = 0x02;

/// End of text - signals end of current file
pub const ETX: u8 = 0x03;

/// End of transmission - sender requests to send filename
pub const EOT: u8 = 0x04;

/// Enquiry - sender confirms filename transmission complete
pub const ENQ: u8 = 0x05;

/// Backspace - receiver ready to receive filename
pub const BS: u8 = 0x08;

/// Tab - receiver acknowledges filename and ready for data
pub const TAB: u8 = 0x09;

/// Transmit off - sender signals no more files, end session
pub const XOFF: u8 = 0x13;

/// Good - sender confirms handshake complete, or receiver confirms block checksum is valid
pub const GOOD: u8 = 0x47;

/// Bad - receiver reports checksum failure, retransmit block
pub const BAD: u8 = 0x42;

/// NAK - receiver received unexpected character
pub const NAK: u8 = 0x4E;

/// Proceed - receiver ready to receive block data
pub const PROCEED: u8 = 0x50;

/// Sender ready - sender initiates handshake
pub const SENDER_READY: u8 = 0x52;

/// Receiver ready - receiver confirms ready to receive
pub const RECEIVER_READY: u8 = 0x53;

/// Error - abort due to protocol violation or unexpected character
pub const ERROR: u8 = 0x58;

/// Every data block carries exactly this many payload bytes.
pub const BLOCK_LEN: usize = 128;

/// A short filename is exactly this many bytes: 8 of base, 3 of extension.
pub const NAME_LEN: usize = 11;

/// Short final blocks are padded to `BLOCK_LEN` with this byte (SUB, the DOS
/// end-of-file sentinel).
pub const PAD: u8 = 0x1A;

/// The 8-bit XOR of all bytes of `s`, folded from initial value 0.
pub open spec fn xor_fold(s: Seq<u8>) -> u8
    decreases s.len(),
{
    if s.len() == 0 {
        0
    } else {
        xor_fold(s.drop_last()) ^ s.last()
    }
}

/// Computes the block checksum: the XOR of all bytes of `block`.
pub fn block_checksum(block: &Vec<u8>) -> (r: u8)
    ensures
        r == xor_fold(block@),
{
    let mut sum: u8 = 0;
    let mut i: usize = 0;
    while i < block.len()
        invariant
            i <= block@.len(),
            sum == xor_fold(block@.take(i as int)),
        decreases block@.len() - i,
    {
        proof {
            assert(block@.take(i + 1).drop_last() =~= block@.take(i as int));
            assert(block@.take(i + 1).last() == block@[i as int]);
        }
        sum = sum ^ block[i];
        i = i + 1;
    }
    proof {
        assert(block@.take(block@.len() as int) =~= block@);
    }
    sum
}


/// The block framed at offset `off` of `data`: the bytes from `off` on (at
/// most 128 of them) padded to 128 bytes with `PAD`.
pub open spec fn block_at(data: Seq<u8>, off: int) -> Seq<u8>
    recommends
        0 <= off <= data.len(),
{
    let n = if data.len() - off >= 128 {
        128
    } else {
        data.len() - off
    };
    data.subrange(off, off + n) + Seq::new((128 - n) as nat, |i| PAD)
}

/// Every block framed for `data`, in wire order.
pub open spec fn file_blocks(data: Seq<u8>) -> Seq<Seq<u8>>
    decreases data.len(),
{
    if data.len() == 0 {
        Seq::empty()
    } else if data.len() <= 128 {
        seq![block_at(data, 0)]
    } else {
        seq![block_at(data, 0)] + file_blocks(data.skip(128))
    }
}

/// Blocks reassemble. Concatenating every block framed for `data` gives
/// `data` itself followed by pad bytes; there are `⌈data.len() / 128⌉`
/// blocks of 128 bytes each, so the concatenation holds
/// `⌈data.len() / 128⌉ · 128` bytes in all.
pub proof fn lemma_blocks_reassemble(data: Seq<u8>)
    ensures
        file_blocks(data).len() == (data.len() + 127) / 128,
        forall|k: int| 0 <= k < file_blocks(data).len()
            ==> (#[trigger] file_blocks(data)[k]).len() == 128,
        file_blocks(data).flatten().len() == file_blocks(data).len() * 128,
        file_blocks(data).flatten().take(data.len() as int) == data,
        forall|j: int| data.len() <= j < file_blocks(data).flatten().len()
            ==> #[trigger] file_blocks(data).flatten()[j] == PAD,
    decreases data.len(),
{
    let bs = file_blocks(data);
    let flat = bs.flatten();
    if data.len() == 0 {
        assert(flat =~= Seq::<u8>::empty());
        assert(flat.take(0) =~= data);
    } else if data.len() <= 128 {
        let b = block_at(data, 0);
        assert(b.len() == 128);
        assert(bs =~= seq![b]);
        assert(bs.drop_first() =~= Seq::<Seq<u8>>::empty());
        assert(bs.drop_first().flatten() =~= Seq::<u8>::empty());
        assert(flat =~= b);
        assert(flat.take(data.len() as int) =~= data);
        assert(forall|j: int| data.len() <= j < 128 ==> #[trigger] flat[j] == PAD);
    } else {
        let tail = data.skip(128);
        lemma_blocks_reassemble(tail);
        let b = block_at(data, 0);
        assert(b =~= data.subrange(0, 128));
        assert(bs.first() == b);
        assert(bs.drop_first() =~= file_blocks(tail));
        assert(flat =~= b + file_blocks(tail).flatten());
        assert(bs.len() == 1 + file_blocks(tail).len());
        assert((data.len() + 127) / 128 == 1 + (tail.len() + 127) / 128);
        assert(flat.take(data.len() as int) =~= data) by {
            assert(file_blocks(tail).flatten().take(tail.len() as int) == tail);
            assert(forall|j: int| 0 <= j < data.len() ==> #[trigger] flat[j] == data[j]) by {
                assert(forall|j: int| 0 <= j < 128 ==> #[trigger] flat[j] == data[j]);
                assert(forall|j: int| 128 <= j < data.len()
                    ==> #[trigger] flat[j] == file_blocks(tail).flatten()[j - 128]);
                assert(forall|j: int| 128 <= j < data.len()
                    ==> #[trigger] file_blocks(tail).flatten()[j - 128] == tail[j - 128]);
            }
        }
        assert(forall|j: int| data.len() <= j < flat.len() ==> #[trigger] flat[j] == PAD) by {
            assert(forall|j: int| data.len() <= j < flat.len()
                ==> #[trigger] flat[j] == file_blocks(tail).flatten()[j - 128]);
        }
    }
}

/// The block framed at offset `128 · k` is block number `k` of the file.
pub proof fn lemma_block_at_indexed(data: Seq<u8>, k: int)
    requires
        0 <= k,
        128 * k < data.len(),
    ensures
        file_blocks(data)[k] == block_at(data, 128 * k),
    decreases data.len(),
{
    if data.len() <= 128 {
        assert(k == 0);
    } else {
        if k == 0 {
        } else {
            let tail = data.skip(128);
            lemma_block_at_indexed(tail, k - 1);
            lemma_blocks_reassemble(tail);
            assert(128 * (k - 1) < tail.len());
            assert(k - 1 < file_blocks(tail).len());
            assert(file_blocks(data) == seq![block_at(data, 0)] + file_blocks(tail));
            assert(file_blocks(data)[k] == file_blocks(tail)[k - 1]);
            assert(block_at(tail, 128 * (k - 1)) =~= block_at(data, 128 * k));
        }
    }
}


/// Read timeout for the initial handshake, in milliseconds.
pub const HANDSHAKE_TIMEOUT_MS: u64 = 5000;

/// Read timeout for every exchange after the handshake, in milliseconds.
pub const REPLY_TIMEOUT_MS: u64 = 2000;

/// A vector of `n` copies of `b`.
pub fn fill_bytes(n: usize, b: u8) -> (r: Vec<u8>)
    ensures
        r@ == Seq::new(n as nat, |i: int| b),
{
    let mut r: Vec<u8> = Vec::new();
    let mut i: usize = 0;
    while i < n
        invariant
            i <= n,
            r@ =~= Seq::new(i as nat, |j: int| b),
        decreases n - i,
    {
        r.push(b);
        proof {
            assert(Seq::new((i + 1) as nat, |j: int| b)
                =~= Seq::new(i as nat, |j: int| b).push(b));
        }
        i = i + 1;
    }
    proof {
        assert(r@ =~= Seq::new(n as nat, |j: int| b));
    }
    r
}

/// The XOR fold of a run of zero bytes is zero.
pub proof fn lemma_xor_fold_zeros(n: nat)
    ensures
        xor_fold(Seq::new(n, |i: int| 0u8)) == 0,
    decreases n,
{
    let s = Seq::new(n, |i: int| 0u8);
    if n > 0 {
        assert(s.drop_last() =~= Seq::new((n - 1) as nat, |i: int| 0u8));
        lemma_xor_fold_zeros((n - 1) as nat);
        assert(0u8 ^ 0u8 == 0u8) by (bit_vector);
    }
}

} // verus!
