//! The capture side: raw PCM bytes arrive in whatever amounts the device
//! hands out; the codec wants whole frames. A byte queue sits between them.

use vstd::prelude::*;
use crate::format::FRAME_BYTES;

verus! {

/// Why the codec could not encode or decode a frame.
#[derive(Copy, Clone, Debug, PartialEq, Eq, Structural)]
pub enum CodecError {
    BadArg,
    BufferTooSmall,
    InternalError,
    InvalidPacket,
    Unimplemented,
    InvalidState,
    AllocFail,
    Unknown,
}

/// The frames of `buf` when it is cut into whole frames from the front.
pub open spec fn whole_frames(buf: Seq<u8>) -> Seq<Seq<u8>> {
    Seq::new(
        buf.len() / (FRAME_BYTES as nat),
        |k: int| buf.subrange(k * FRAME_BYTES, (k + 1) * FRAME_BYTES),
    )
}

/// What is left of `buf` after its whole frames are cut off.
pub open spec fn leftover(buf: Seq<u8>) -> Seq<u8> {
    buf.subrange((buf.len() / (FRAME_BYTES as nat)) * FRAME_BYTES, buf.len() as int)
}

/// Raw capture bytes waiting to make up a whole frame.
pub struct FrameAccumulator {
    queue: std::collections::VecDeque<u8>,
}

impl View for FrameAccumulator {
    type V = Seq<u8>;

    closed spec fn view(&self) -> Seq<u8> {
        self.queue@
    }
}

impl FrameAccumulator {
    /// An empty accumulator.
    pub fn new() -> (r: Self)
        ensures
            r@ == Seq::<u8>::empty(),
    {
        FrameAccumulator { queue: std::collections::VecDeque::new() }
    }

    /// Appends bytes read from the device.
    pub fn push(&mut self, bytes: &[u8])
        ensures
            final(self)@ == old(self)@ + bytes@,
    {
        let mut i: usize = 0;
        while i < bytes.len()
            invariant
                i <= bytes@.len(),
                self@ == old(self)@ + bytes@.subrange(0, i as int),
            decreases bytes@.len() - i,
        {
            self.queue.push_back(bytes[i]);
            i = i + 1;
            assert(self@ =~= old(self)@ + bytes@.subrange(0, i as int));
        }
        assert(bytes@.subrange(0, i as int) =~= bytes@);
    }

    /// Number of bytes waiting.
    pub fn pending(&self) -> (r: usize)
        ensures
            r == self@.len(),
    {
        self.queue.len()
    }

    /// Takes the oldest whole frame, if one is complete.
    pub fn pop_frame(&mut self) -> (r: Option<Vec<u8>>)
        ensures
            old(self)@.len() >= FRAME_BYTES ==> (r matches Some(f) && f@ == old(self)@.subrange(
                0,
                FRAME_BYTES as int,
            ) && final(self)@ == old(self)@.subrange(FRAME_BYTES as int, old(self)@.len() as int)),
            old(self)@.len() < FRAME_BYTES ==> r is None && final(self)@ == old(self)@,
    {
        if self.queue.len() < FRAME_BYTES {
            return None;
        }
        let mut frame: Vec<u8> = Vec::with_capacity(FRAME_BYTES);
        let mut i: usize = 0;
        while i < FRAME_BYTES
            invariant
                old(self)@.len() >= FRAME_BYTES,
                i <= FRAME_BYTES,
                frame@ == old(self)@.subrange(0, i as int),
                self@ == old(self)@.subrange(i as int, old(self)@.len() as int),
            decreases FRAME_BYTES - i,
        {
            let b = self.queue.pop_front().unwrap();
            frame.push(b);
            i = i + 1;
            assert(frame@ =~= old(self)@.subrange(0, i as int));
            assert(self@ =~= old(self)@.subrange(i as int, old(self)@.len() as int));
        }
        Some(frame)
    }
}

/// The decisions of the capture loop.
pub struct CaptureEngine {
    accumulator: FrameAccumulator,
    running: bool,
    dropped: u64,
}

impl CaptureEngine {
    /// Bytes waiting for a whole frame.
    pub closed spec fn spec_pending(&self) -> Seq<u8> {
        self.accumulator@
    }

    /// Whether the loop is still running.
    pub closed spec fn spec_running(&self) -> bool {
        self.running
    }

    /// Frames the encoder failed on, saturating at `u64::MAX`.
    pub closed spec fn spec_dropped(&self) -> u64 {
        self.dropped
    }

    /// A running engine with nothing pending.
    pub fn new() -> (r: Self)
        ensures
            r.spec_pending() == Seq::<u8>::empty(),
            r.spec_running(),
            r.spec_dropped() == 0,
    {
        CaptureEngine { accumulator: FrameAccumulator::new(), running: true, dropped: 0 }
    }

    /// Whether the loop is still running.
    pub fn is_running(&self) -> (r: bool)
        ensures
            r == self.spec_running(),
    {
        self.running
    }

    /// The device signalled readiness and `bytes` were read: gives every
    /// whole frame now available, oldest first, to be encoded; the rest
    /// waits. A stopped engine takes nothing.
    pub fn on_device_ready(&mut self, bytes: &[u8]) -> (r: Vec<Vec<u8>>)
        ensures
            final(self).spec_running() == old(self).spec_running(),
            final(self).spec_dropped() == old(self).spec_dropped(),
            !old(self).spec_running() ==> r@.len() == 0 && final(self).spec_pending() == old(
                self,
            ).spec_pending(),
            old(self).spec_running() ==> {
                let all = old(self).spec_pending() + bytes@;
                &&& r@.map_values(|f: Vec<u8>| f@) == whole_frames(all)
                &&& final(self).spec_pending() == leftover(all)
            },
    {
        let mut frames: Vec<Vec<u8>> = Vec::new();
        if !self.running {
            return frames;
        }
        let ghost all = self.accumulator@ + bytes@;
        self.accumulator.push(bytes);
        loop
            invariant
                self.running == old(self).running,
                self.running,
                all == old(self).accumulator@ + bytes@,
                self.dropped == old(self).dropped,
                all.len() == frames@.len() * FRAME_BYTES + self.accumulator@.len(),
                self.accumulator@ == all.subrange(frames@.len() * FRAME_BYTES, all.len() as int),
                forall|k: int|
                    0 <= k < frames@.len() ==> #[trigger] frames@[k]@ == all.subrange(
                        k * FRAME_BYTES,
                        (k + 1) * FRAME_BYTES,
                    ),
            decreases self.accumulator@.len(),
        {
            let ghost before = frames@.len();
            match self.accumulator.pop_frame() {
                Some(frame) => {
                    frames.push(frame);
                    proof {
                        assert(all.subrange(before * FRAME_BYTES, all.len() as int).subrange(0, FRAME_BYTES as int) =~= all.subrange(
                            before * FRAME_BYTES,
                            (before + 1) * FRAME_BYTES,
                        ));
                        assert(all.subrange(before * FRAME_BYTES, all.len() as int).subrange(
                            FRAME_BYTES as int,
                            all.len() - before * FRAME_BYTES,
                        ) =~= all.subrange((before + 1) * FRAME_BYTES, all.len() as int));
                    }
                },
                None => {
                    proof {
                        let n = frames@.len() as int;
                        assert(all.len() / (FRAME_BYTES as nat) == n) by (nonlinear_arith)
                            requires
                                all.len() == n * 7680 + self.accumulator@.len(),
                                self.accumulator@.len() < 7680,
                                n >= 0,
                        ;
                        assert(frames@.map_values(|v: Vec<u8>| v@) =~= whole_frames(all));
                    }
                    return frames;
                },
            }
        }
    }

    /// The encoder's result for one frame: a compressed frame is handed on
    /// for publishing; a failure drops the frame, and the loop goes on.
    pub fn on_encoded(&mut self, result: Result<Vec<u8>, CodecError>) -> (r: Option<Vec<u8>>)
        ensures
            final(self).spec_running() == old(self).spec_running(),
            final(self).spec_pending() == old(self).spec_pending(),
            match result {
                Ok(packet) => r == Some(packet) && final(self).spec_dropped() == old(
                    self,
                ).spec_dropped(),
                Err(_) => r is None && final(self).spec_dropped() == (if old(self).spec_dropped()
                    == u64::MAX {
                    u64::MAX
                } else {
                    (old(self).spec_dropped() + 1) as u64
                }),
            },
    {
        match result {
            Ok(packet) => Some(packet),
            Err(_) => {
                if self.dropped < u64::MAX {
                    self.dropped = self.dropped + 1;
                }
                None
            },
        }
    }

    /// The bounded wait for the device ran out: the device is taken as lost
    /// and the loop stops for good.
    pub fn on_wait_timeout(&mut self)
        ensures
            !final(self).spec_running(),
            final(self).spec_pending() == old(self).spec_pending(),
            final(self).spec_dropped() == old(self).spec_dropped(),
    {
        self.running = false;
    }
}

} // verus!
