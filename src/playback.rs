//! The playback side: decoded frames go into a bounded buffer that the
//! audio output drains at its own pace, with silence on underrun.
//!
//! Samples are held as bytes of interleaved 32-bit float PCM, four bytes a
//! sample. The decoder lives from a `Connected` event to the next
//! `Disconnected`, so no stale decoder state or sample outlives a gap.

use vstd::prelude::*;
use crate::capture::CodecError;
use crate::format::{FLOAT_SAMPLE_BYTES, FRAME_BYTES, FRAME_SAMPLES};

verus! {

/// `pcm` cut or padded with silence to exactly one frame.
pub open spec fn fit_to_frame(pcm: Seq<u8>) -> Seq<u8> {
    Seq::new(FRAME_BYTES as nat, |i: int| if i < pcm.len() { pcm[i] } else { 0u8 })
}

/// The last `n` bytes of `s`, or all of `s` when it is shorter.
pub open spec fn keep_last(s: Seq<u8>, n: nat) -> Seq<u8> {
    if s.len() <= n {
        s
    } else {
        s.subrange(s.len() - n, s.len() as int)
    }
}

/// The first `n` bytes of `q`, padded with silence when `q` is shorter.
pub open spec fn take_or_silence(q: Seq<u8>, n: nat) -> Seq<u8> {
    Seq::new(n, |i: int| if i < q.len() { q[i] } else { 0u8 })
}

/// Whatever the decoder returns, the frame queued for playback holds
/// exactly `FRAME_SAMPLES` samples of `FLOAT_SAMPLE_BYTES` bytes each.
pub proof fn lemma_decoded_frame_shape(pcm: Seq<u8>)
    ensures
        fit_to_frame(pcm).len() == FRAME_SAMPLES * FLOAT_SAMPLE_BYTES,
{
}

/// Cuts or pads decoded PCM to exactly one frame of `FRAME_SAMPLES` samples.
pub fn fit_frame(pcm: &[u8]) -> (r: Vec<u8>)
    ensures
        r@ == fit_to_frame(pcm@),
        r@.len() == FRAME_BYTES,
{
    let mut out: Vec<u8> = Vec::with_capacity(FRAME_BYTES);
    let mut i: usize = 0;
    while i < FRAME_BYTES
        invariant
            i <= FRAME_BYTES,
            out@.len() == i,
            forall|k: int| 0 <= k < i ==> #[trigger] out@[k] == fit_to_frame(pcm@)[k],
        decreases FRAME_BYTES - i,
    {
        if i < pcm.len() {
            out.push(pcm[i]);
        } else {
            out.push(0u8);
        }
        i = i + 1;
    }
    assert(out@ =~= fit_to_frame(pcm@));
    out
}

/// The client's playback state: the decoder's lifetime and the buffer
/// between decoding and the output device.
pub struct PlaybackSink {
    decoder_live: bool,
    queue: std::collections::VecDeque<u8>,
    capacity: usize,
}

impl PlaybackSink {
    /// Bytes waiting for the output device.
    pub closed spec fn spec_queue(&self) -> Seq<u8> {
        self.queue@
    }

    /// Whether a decoder is live.
    pub closed spec fn spec_decoder_live(&self) -> bool {
        self.decoder_live
    }

    /// Most bytes the buffer holds.
    pub closed spec fn spec_capacity(&self) -> nat {
        self.capacity as nat
    }

    /// The buffer holds at least one frame and never more than its capacity.
    pub closed spec fn wf(&self) -> bool {
        self.queue@.len() <= self.capacity && self.capacity >= FRAME_BYTES
    }

    /// A sink without decoder whose buffer holds up to `capacity_frames` frames.
    pub fn new(capacity_frames: usize) -> (r: Self)
        requires
            1 <= capacity_frames <= usize::MAX / FRAME_BYTES,
        ensures
            r.wf(),
            !r.spec_decoder_live(),
            r.spec_queue() == Seq::<u8>::empty(),
            r.spec_capacity() == capacity_frames * FRAME_BYTES,
    {
        PlaybackSink {
            decoder_live: false,
            queue: std::collections::VecDeque::new(),
            capacity: capacity_frames * FRAME_BYTES,
        }
    }

    /// Whether a decoder is live.
    pub fn decoder_live(&self) -> (r: bool)
        ensures
            r == self.spec_decoder_live(),
    {
        self.decoder_live
    }

    /// A connection was made: a fresh decoder is to be created, and playback
    /// starts from an empty buffer.
    pub fn on_connected(&mut self)
        requires
            old(self).wf(),
        ensures
            final(self).wf(),
            final(self).spec_decoder_live(),
            final(self).spec_queue() == Seq::<u8>::empty(),
            final(self).spec_capacity() == old(self).spec_capacity(),
    {
        self.decoder_live = true;
        self.queue = std::collections::VecDeque::new();
    }

    /// The connection was lost or stopped: the decoder is dropped and the
    /// buffer flushed, so no stale samples play.
    pub fn on_disconnected(&mut self)
        requires
            old(self).wf(),
        ensures
            final(self).wf(),
            !final(self).spec_decoder_live(),
            final(self).spec_queue() == Seq::<u8>::empty(),
            final(self).spec_capacity() == old(self).spec_capacity(),
    {
        self.decoder_live = false;
        self.queue = std::collections::VecDeque::new();
    }

    /// The decoder's result for one received frame. Decoded PCM is fitted to
    /// one frame and queued, the oldest bytes leaving when the buffer is
    /// full; a decoder error skips the frame and changes nothing. Without a
    /// live decoder nothing is queued. Tells whether a frame was queued.
    pub fn on_decoded(&mut self, result: Result<Vec<u8>, CodecError>) -> (r: bool)
        requires
            old(self).wf(),
        ensures
            final(self).wf(),
            final(self).spec_decoder_live() == old(self).spec_decoder_live(),
            final(self).spec_capacity() == old(self).spec_capacity(),
            r == (old(self).spec_decoder_live() && result is Ok),
            r ==> (result matches Ok(pcm) && final(self).spec_queue() == keep_last(
                old(self).spec_queue() + fit_to_frame(pcm@),
                old(self).spec_capacity(),
            )),
            !r ==> final(self).spec_queue() == old(self).spec_queue(),
    {
        if !self.decoder_live {
            return false;
        }
        let pcm = match result {
            Ok(pcm) => pcm,
            Err(_) => return false,
        };
        let frame = fit_frame(pcm.as_slice());
        let ghost joined = self.queue@ + frame@;
        let mut i: usize = 0;
        while i < frame.len()
            invariant
                i <= frame@.len(),
                self.capacity == old(self).capacity,
                self.decoder_live == old(self).decoder_live,
                self.queue@.len() <= self.capacity,
                self.capacity >= FRAME_BYTES,
                keep_last(self.queue@ + frame@.subrange(i as int, frame@.len() as int), self.capacity as nat)
                    == keep_last(joined, self.capacity as nat),
            decreases frame@.len() - i,
        {
            let ghost q0 = self.queue@;
            if self.queue.len() == self.capacity {
                self.queue.pop_front();
            }
            self.queue.push_back(frame[i]);
            proof {
                let rest0 = frame@.subrange(i as int, frame@.len() as int);
                let rest1 = frame@.subrange(i + 1, frame@.len() as int);
                let cap = self.capacity as nat;
                let a = q0 + rest0;
                let b = self.queue@ + rest1;
                assert(rest0 =~= seq![frame@[i as int]] + rest1);
                if q0.len() == cap {
                    assert(b =~= a.subrange(1, a.len() as int));
                    assert(keep_last(b, cap) =~= keep_last(a, cap));
                } else {
                    assert(b =~= a);
                }
            }
            i = i + 1;
        }
        proof {
            assert(frame@.subrange(i as int, frame@.len() as int) =~= Seq::<u8>::empty());
            assert(self.queue@ + Seq::<u8>::empty() =~= self.queue@);
        }
        true
    }

    /// Hands the output device `n` bytes: the oldest queued bytes, then
    /// silence if the buffer runs dry. Never waits.
    pub fn fill(&mut self, n: usize) -> (r: Vec<u8>)
        requires
            old(self).wf(),
        ensures
            final(self).wf(),
            final(self).spec_decoder_live() == old(self).spec_decoder_live(),
            final(self).spec_capacity() == old(self).spec_capacity(),
            r@ == take_or_silence(old(self).spec_queue(), n as nat),
            n <= old(self).spec_queue().len() ==> final(self).spec_queue() == old(
                self,
            ).spec_queue().subrange(n as int, old(self).spec_queue().len() as int),
            n > old(self).spec_queue().len() ==> final(self).spec_queue() == Seq::<u8>::empty(),
    {
        let ghost q = self.queue@;
        let mut out: Vec<u8> = Vec::new();
        let mut i: usize = 0;
        while i < n
            invariant
                i <= n,
                self.capacity == old(self).capacity,
                self.decoder_live == old(self).decoder_live,
                self.capacity >= FRAME_BYTES,
                q == old(self).queue@,
                out@.len() == i,
                forall|k: int| 0 <= k < i ==> #[trigger] out@[k] == take_or_silence(q, n as nat)[k],
                i <= q.len() ==> self.queue@ == q.subrange(i as int, q.len() as int),
                i > q.len() ==> self.queue@ == Seq::<u8>::empty(),
            decreases n - i,
        {
            match self.queue.pop_front() {
                Some(b) => {
                    out.push(b);
                },
                None => {
                    out.push(0u8);
                },
            }
            i = i + 1;
            proof {
                if i <= q.len() {
                    assert(self.queue@ =~= q.subrange(i as int, q.len() as int));
                }
            }
        }
        assert(out@ =~= take_or_silence(q, n as nat));
        out
    }
}

} // verus!
