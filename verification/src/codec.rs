//! The write side of a framed transport: encoded frames collect in a buffer
//! bounded by watermarks, and are written out to the transport in order.
use vstd::prelude::*;

verus! {

/// What writing the buffer to the transport gave.
#[derive(PartialEq, Eq, Structural, Debug, Clone, Copy)]
pub enum WriteOutcome {
    /// This many bytes were written.
    Written(usize),
    /// The transport cannot take more now.
    NotReady,
    /// Writing failed.
    Failed,
}

/// How a flush goes on.
#[derive(PartialEq, Eq, Structural, Debug, Clone, Copy)]
pub enum FlushStep {
    /// Write the rest of the buffer.
    More,
    /// All is written: flush the transport.
    Flush,
    /// Wait until the transport is ready.
    Wait,
    /// The transport took nothing: fail with a write-zero error.
    WriteZero,
    /// Writing failed.
    Failed,
}

/// The write buffer of a framed transport.
pub struct FramedWrite2 {
    buffer: Vec<u8>,
    low_watermark: usize,
    high_watermark: usize,
    accepted: Ghost<Seq<u8>>,
    written: Ghost<Seq<u8>>,
}

impl FramedWrite2 {
    /// The bytes waiting to be written.
    pub closed spec fn pending(&self) -> Seq<u8> {
        self.buffer@
    }

    /// All bytes of the frames taken so far.
    pub closed spec fn accepted(&self) -> Seq<u8> {
        self.accepted@
    }

    /// All bytes written to the transport so far.
    pub closed spec fn written(&self) -> Seq<u8> {
        self.written@
    }

    /// The buffer size under which room is made for more frames.
    pub closed spec fn low(&self) -> usize {
        self.low_watermark
    }

    /// The buffer size from which no frame is taken.
    pub closed spec fn high(&self) -> usize {
        self.high_watermark
    }

    /// What was taken is what was written, followed by what waits: nothing
    /// is lost, repeated or reordered.
    pub closed spec fn wf(&self) -> bool {
        self.accepted@ == self.written@ + self.buffer@
    }

    /// A transport's write buffer with the given watermarks, empty.
    pub fn new(low_watermark: usize, high_watermark: usize) -> (w: Self)
        ensures
            w.wf(),
            w.pending() == Seq::<u8>::empty(),
            w.accepted() == Seq::<u8>::empty(),
            w.written() == Seq::<u8>::empty(),
            w.low() == low_watermark,
            w.high() == high_watermark,
    {
        let w = FramedWrite2 {
            buffer: Vec::new(),
            low_watermark,
            high_watermark,
            accepted: Ghost(Seq::empty()),
            written: Ghost(Seq::empty()),
        };
        assert(w.accepted@ =~= w.written@ + w.buffer@);
        w
    }

    /// A transport's write buffer with the given watermarks, starting with
    /// bytes already encoded.
    pub fn with_buffer(buffer: Vec<u8>, low_watermark: usize, high_watermark: usize) -> (w: Self)
        ensures
            w.wf(),
            w.pending() == buffer@,
            w.accepted() == buffer@,
            w.written() == Seq::<u8>::empty(),
            w.low() == low_watermark,
            w.high() == high_watermark,
    {
        let ghost b = buffer@;
        let w = FramedWrite2 {
            buffer,
            low_watermark,
            high_watermark,
            accepted: Ghost(b),
            written: Ghost(Seq::empty()),
        };
        assert(w.accepted@ =~= w.written@ + w.buffer@);
        w
    }

    /// Whether the buffer is at or above the high watermark.
    pub fn is_full(&self) -> (b: bool)
        ensures
            b == (self.pending().len() >= self.high()),
    {
        self.buffer.len() >= self.high_watermark
    }

    /// Whether nothing waits to be written.
    pub fn is_empty(&self) -> (b: bool)
        ensures
            b == (self.pending().len() == 0),
    {
        self.buffer.len() == 0
    }

    /// The bytes waiting to be written.
    pub fn buffer(&self) -> (b: &Vec<u8>)
        ensures
            b@ == self.pending(),
    {
        &self.buffer
    }

    fn append(&mut self, frame: &Vec<u8>)
        requires
            old(self).wf(),
        ensures
            final(self).wf(),
            final(self).pending() == old(self).pending() + frame@,
            final(self).accepted() == old(self).accepted() + frame@,
            final(self).written() == old(self).written(),
            final(self).low() == old(self).low(),
            final(self).high() == old(self).high(),
    {
        let mut i: usize = 0;
        let ghost b0 = self.buffer@;
        while i < frame.len()
            invariant
                i <= frame@.len(),
                self.buffer@ == b0 + frame@.take(i as int),
                self.accepted@ == old(self).accepted@,
                self.written@ == old(self).written@,
                self.low_watermark == old(self).low_watermark,
                self.high_watermark == old(self).high_watermark,
                b0 == old(self).buffer@,
            decreases frame@.len() - i,
        {
            self.buffer.push(frame[i]);
            i += 1;
            assert(self.buffer@ =~= b0 + frame@.take(i as int));
        }
        assert(frame@.take(i as int) =~= frame@);
        proof {
            self.accepted = Ghost(self.accepted@ + frame@);
            assert(self.accepted@ =~= self.written@ + self.buffer@);
        }
    }

    /// Takes an encoded frame, whatever the buffer holds.
    pub fn force_send(&mut self, frame: &Vec<u8>)
        requires
            old(self).wf(),
        ensures
            final(self).wf(),
            final(self).pending() == old(self).pending() + frame@,
            final(self).accepted() == old(self).accepted() + frame@,
            final(self).written() == old(self).written(),
            final(self).low() == old(self).low(),
            final(self).high() == old(self).high(),
    {
        self.append(frame);
    }

    /// Takes an encoded frame unless the buffer is full; tells whether it
    /// was taken.
    pub fn start_send(&mut self, frame: &Vec<u8>) -> (taken: bool)
        requires
            old(self).wf(),
        ensures
            final(self).wf(),
            taken == (old(self).pending().len() < old(self).high()),
            final(self).pending() == if taken {
                old(self).pending() + frame@
            } else {
                old(self).pending()
            },
            final(self).accepted() == if taken {
                old(self).accepted() + frame@
            } else {
                old(self).accepted()
            },
            final(self).written() == old(self).written(),
            final(self).low() == old(self).low(),
            final(self).high() == old(self).high(),
    {
        if self.buffer.len() >= self.high_watermark {
            return false;
        }
        self.append(frame);
        true
    }

    /// Takes what writing the buffer to the transport gave (it is written
    /// only while bytes wait): the bytes written leave the buffer.
    pub fn on_write(&mut self, outcome: WriteOutcome) -> (step: FlushStep)
        requires
            old(self).wf(),
            outcome matches WriteOutcome::Written(n) ==> n <= old(self).pending().len(),
        ensures
            final(self).wf(),
            final(self).accepted() == old(self).accepted(),
            final(self).low() == old(self).low(),
            final(self).high() == old(self).high(),
            match outcome {
                WriteOutcome::Written(n) => if n == 0 {
                    step == FlushStep::WriteZero && final(self).pending() == old(self).pending()
                        && final(self).written() == old(self).written()
                } else {
                    &&& final(self).pending() == old(self).pending().skip(n as int)
                    &&& final(self).written() == old(self).written() + old(self).pending().take(
                        n as int,
                    )
                    &&& step == if final(self).pending().len() == 0 {
                        FlushStep::Flush
                    } else {
                        FlushStep::More
                    }
                },
                WriteOutcome::NotReady => step == FlushStep::Wait && final(self).pending() == old(self).pending() && final(self).written() == old(self).written(),
                WriteOutcome::Failed => step == FlushStep::Failed && final(self).pending() == old(self).pending() && final(self).written() == old(self).written(),
            },
    {
        match outcome {
            WriteOutcome::Written(n) => {
                if n == 0 {
                    return FlushStep::WriteZero;
                }
                let ghost b0 = self.buffer@;
                let mut rest: Vec<u8> = Vec::new();
                let mut i: usize = n;
                while i < self.buffer.len()
                    invariant
                        n <= i <= self.buffer@.len(),
                        self.buffer@ == b0,
                        rest@ == b0.subrange(n as int, i as int),
                    decreases self.buffer@.len() - i,
                {
                    rest.push(self.buffer[i]);
                    i += 1;
                    assert(rest@ =~= b0.subrange(n as int, i as int));
                }
                assert(rest@ =~= b0.skip(n as int));
                self.buffer = rest;
                proof {
                    self.written = Ghost(self.written@ + b0.take(n as int));
                    assert(b0 =~= b0.take(n as int) + b0.skip(n as int));
                    assert(self.accepted@ =~= self.written@ + self.buffer@);
                }
                if self.buffer.len() == 0 {
                    FlushStep::Flush
                } else {
                    FlushStep::More
                }
            },
            WriteOutcome::NotReady => FlushStep::Wait,
            WriteOutcome::Failed => FlushStep::Failed,
        }
    }

    /// The first step of a flush: write the buffer while bytes wait, else
    /// flush the transport.
    pub fn flush_start(&self) -> (step: FlushStep)
        ensures
            step == if self.pending().len() == 0 {
                FlushStep::Flush
            } else {
                FlushStep::More
            },
    {
        if self.buffer.len() == 0 {
            FlushStep::Flush
        } else {
            FlushStep::More
        }
    }
}

/// Law: once a flush has written everything, the transport has received
/// exactly the bytes of the frames taken, in order.
pub proof fn law_flushed_is_accepted(w: FramedWrite2)
    requires
        w.wf(),
        w.pending().len() == 0,
    ensures
        w.written() == w.accepted(),
{
    assert(w.written() + w.pending() =~= w.written());
}

} // verus!
