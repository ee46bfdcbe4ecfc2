//! The byte-transport abstraction the engines talk through, and a scripted
//! in-memory transport for exercising them.

use vstd::prelude::*;

verus! {

/// What one bounded read of the transport produced.
#[derive(Clone, Copy, PartialEq, Eq, Structural, Debug)]
pub enum ReadOutcome {
    /// One byte arrived within the timeout.
    Byte(u8),
    /// The timeout elapsed before a byte arrived.
    TimedOut,
    /// A hard, non-timeout I/O failure.
    Failed,
}

/// Why an engine's step failed.
#[derive(Clone, Copy, PartialEq, Eq, Structural, Debug)]
pub enum IoFault {
    /// A read timed out in a phase where the protocol allows no retry.
    TimedOut,
    /// The transport reported a hard I/O failure.
    Broken,
    /// The sender reached the filename exchange with no file left to offer.
    NoFiles,
}

/// A duplex byte transport.
///
/// The model is a pair of sequences: `sent` is every byte written so far, in
/// order, and `incoming` is the sequence of read outcomes the line will
/// deliver, in order. A scripted transport fixes `incoming` up front; for a
/// physical line it stands for whatever the peer will put on the wire.
pub trait SerialPort: Sized {
    /// The read outcomes the transport has yet to deliver, in order.
    spec fn incoming(&self) -> Seq<ReadOutcome>;

    /// Every byte written to the transport so far, in order.
    spec fn sent(&self) -> Seq<u8>;

    /// Writes all of `buf`; `Err` is a hard I/O failure, after which some
    /// prefix of `buf` may already be on the wire.
    fn write_all(&mut self, buf: &[u8]) -> (r: Result<(), ()>)
        ensures
            final(self).incoming() == old(self).incoming(),
            r is Ok ==> final(self).sent() == old(self).sent() + buf@,
            r is Err ==> exists|k: int|
                0 <= k <= buf@.len() && final(self).sent() == old(self).sent() + buf@.take(k),
    ;

    /// Reads one byte, waiting at most `timeout_ms` milliseconds.
    fn read_timeout(&mut self, timeout_ms: u64) -> (r: ReadOutcome)
        ensures
            final(self).sent() == old(self).sent(),
            old(self).incoming().len() > 0 ==> r == old(self).incoming()[0]
                && final(self).incoming() == old(self).incoming().drop_first(),
            old(self).incoming().len() == 0 ==> r == ReadOutcome::TimedOut
                && final(self).incoming() == old(self).incoming(),
    ;
}

/// The model type of a transport's pending read outcomes. Unverified
/// transport implementations outside the library need this name only to
/// spell out the signatures of the two model items, which are erased and
/// never called at run time.
pub type IncomingModel = Seq<ReadOutcome>;

/// The model type of a transport's written bytes (see [`IncomingModel`]).
pub type SentModel = Seq<u8>;

/// The read outcome a scripted response stands for: a byte, or a timeout.
pub open spec fn outcome_of(o: Option<u8>) -> ReadOutcome {
    match o {
        Some(b) => ReadOutcome::Byte(b),
        None => ReadOutcome::TimedOut,
    }
}

/// A scripted in-memory transport: reads are served from a fixed list of
/// responses (`None` marks a timeout), writes are recorded, and the record
/// can be held against an expected byte sequence afterwards.
pub struct MockSerialPort {
    responses: Vec<Option<u8>>,
    write_log: Vec<u8>,
    expected_writes: Vec<u8>,
}

impl MockSerialPort {
    /// The wire bytes this transport expects to see written, in order.
    pub closed spec fn expected(&self) -> Seq<u8> {
        self.expected_writes@
    }

    pub fn new(responses: Vec<Option<u8>>, expected_writes: Vec<u8>) -> (r: MockSerialPort)
        ensures
            r.incoming() == responses@.map_values(|o: Option<u8>| outcome_of(o)),
            r.sent() == Seq::<u8>::empty(),
            r.expected() == expected_writes@,
    {
        MockSerialPort { responses, write_log: Vec::new(), expected_writes }
    }

    /// True when every scripted response has been consumed.
    pub fn script_consumed(&self) -> (r: bool)
        ensures
            r == (self.incoming().len() == 0),
    {
        self.responses.len() == 0
    }

    /// True when the bytes written so far are exactly the expected ones.
    pub fn writes_match(&self) -> (r: bool)
        ensures
            r == (self.sent() == self.expected()),
    {
        let n = self.write_log.len();
        if n != self.expected_writes.len() {
            proof {
                assert(self.sent().len() != self.expected().len());
            }
            return false;
        }
        let mut i: usize = 0;
        while i < n
            invariant
                n == self.write_log@.len() == self.expected_writes@.len(),
                i <= n,
                forall|j: int| 0 <= j < i ==> self.write_log@[j] == self.expected_writes@[j],
            decreases n - i,
        {
            if self.write_log[i] != self.expected_writes[i] {
                return false;
            }
            i = i + 1;
        }
        proof {
            assert(self.sent() =~= self.expected());
        }
        true
    }
}

impl SerialPort for MockSerialPort {
    closed spec fn incoming(&self) -> Seq<ReadOutcome> {
        self.responses@.map_values(|o: Option<u8>| outcome_of(o))
    }

    closed spec fn sent(&self) -> Seq<u8> {
        self.write_log@
    }

    fn write_all(&mut self, buf: &[u8]) -> (r: Result<(), ()>)
        ensures
            r is Ok,
    {
        let mut i: usize = 0;
        while i < buf.len()
            invariant
                i <= buf@.len(),
                self.write_log@ == old(self).write_log@ + buf@.take(i as int),
                self.responses@ == old(self).responses@,
                self.expected_writes@ == old(self).expected_writes@,
            decreases buf@.len() - i,
        {
            self.write_log.push(buf[i]);
            proof {
                assert(old(self).write_log@ + buf@.take(i + 1)
                    =~= (old(self).write_log@ + buf@.take(i as int)).push(buf@[i as int]));
            }
            i = i + 1;
        }
        proof {
            assert(buf@.take(buf@.len() as int) =~= buf@);
        }
        Ok(())
    }

    fn read_timeout(&mut self, _timeout_ms: u64) -> (r: ReadOutcome)
    {
        if self.responses.len() == 0 {
            ReadOutcome::TimedOut
        } else {
            let o = self.responses.remove(0);
            proof {
                assert(self.responses@.map_values(|x: Option<u8>| outcome_of(x))
                    =~= old(self).responses@.map_values(
                        |x: Option<u8>| outcome_of(x)).drop_first());
            }
            match o {
                Some(b) => ReadOutcome::Byte(b),
                None => ReadOutcome::TimedOut,
            }
        }
    }
}


/// The outcome the next read will produce: the head of the script, or a
/// timeout when the script is exhausted.
pub open spec fn next_outcome(inc: Seq<ReadOutcome>) -> ReadOutcome {
    if inc.len() == 0 {
        ReadOutcome::TimedOut
    } else {
        inc[0]
    }
}

/// The script left after one read.
pub open spec fn after_read(inc: Seq<ReadOutcome>) -> Seq<ReadOutcome> {
    if inc.len() == 0 {
        inc
    } else {
        inc.drop_first()
    }
}

/// Reads one outcome from the transport.
pub fn read_one<P: SerialPort>(port: &mut P, timeout_ms: u64) -> (r: ReadOutcome)
    ensures
        final(port).sent() == old(port).sent(),
        r == next_outcome(old(port).incoming()),
        final(port).incoming() == after_read(old(port).incoming()),
{
    port.read_timeout(timeout_ms)
}

/// Writes one byte to the transport.
pub fn send_byte<P: SerialPort>(port: &mut P, b: u8) -> (r: Result<(), ()>)
    ensures
        final(port).incoming() == old(port).incoming(),
        r is Ok ==> final(port).sent() == old(port).sent() + seq![b],
        r is Err ==> final(port).sent() == old(port).sent()
            || final(port).sent() == old(port).sent() + seq![b],
{
    let mut v: Vec<u8> = Vec::new();
    v.push(b);
    proof {
        assert(v@ =~= seq![b]);
    }
    let r = port.write_all(v.as_slice());
    proof {
        if r is Err {
            let k = choose|k: int|
                0 <= k <= v@.len() && port.sent() == old(port).sent() + v@.take(k);
            if k == 0 {
                assert(old(port).sent() + v@.take(0) =~= old(port).sent());
            } else {
                assert(old(port).sent() + v@.take(1) =~= old(port).sent() + seq![b]);
            }
        }
    }
    r
}

} // verus!
