//! Counters of the pipeline's work.

use vstd::prelude::*;

verus! {

/// Frame counts and the time spent in each stage, in microseconds, since
/// the last reset. The counters wrap at the end of their range.
#[derive(Debug, Clone, Copy, PartialEq, Eq, Structural)]
pub struct FrameStats {
    /// Frames processed.
    pub frames_processed: u64,
    /// Time spent waiting for the camera.
    pub total_frame_wait_us: u64,
    /// Time spent decoding or converting.
    pub total_decode_us: u64,
    /// Time spent warping.
    pub total_transform_us: u64,
    /// Time spent writing to the output.
    pub total_output_us: u64,
    /// Time spent encoding previews.
    pub total_preview_encode_us: u64,
    /// Frames for which previews were encoded.
    pub preview_frames_encoded: u64,
}

/// The time taken by the stages of one frame, in microseconds.
#[derive(Debug, Clone, Copy, PartialEq, Eq, Structural)]
pub struct FrameTimings {
    pub frame_wait_us: u64,
    pub decode_us: u64,
    pub transform_us: u64,
    pub output_us: u64,
    /// Time spent encoding previews, for a frame that had them.
    pub preview_encode_us: Option<u64>,
}

/// A sum that wraps at the end of the counter's range.
pub open spec fn wrapped_sum(a: u64, b: u64) -> u64 {
    if a + b > u64::MAX {
        (a + b - 0x1_0000_0000_0000_0000) as u64
    } else {
        (a + b) as u64
    }
}

fn add_wrapping(a: u64, b: u64) -> (r: u64)
    ensures
        r == wrapped_sum(a, b),
{
    a.wrapping_add(b)
}

impl Default for FrameStats {
    fn default() -> (r: Self)
        ensures
            r == FrameStats::zero(),
    {
        FrameStats {
            frames_processed: 0,
            total_frame_wait_us: 0,
            total_decode_us: 0,
            total_transform_us: 0,
            total_output_us: 0,
            total_preview_encode_us: 0,
            preview_frames_encoded: 0,
        }
    }
}

impl FrameStats {
    /// Counters at zero.
    pub open spec fn zero() -> FrameStats {
        FrameStats {
            frames_processed: 0,
            total_frame_wait_us: 0,
            total_decode_us: 0,
            total_transform_us: 0,
            total_output_us: 0,
            total_preview_encode_us: 0,
            preview_frames_encoded: 0,
        }
    }

    /// The counters after one more frame. The preview counters move only
    /// for a frame that had previews encoded.
    pub open spec fn with_frame(self, t: FrameTimings) -> FrameStats {
        FrameStats {
            frames_processed: wrapped_sum(self.frames_processed, 1),
            total_frame_wait_us: wrapped_sum(self.total_frame_wait_us, t.frame_wait_us),
            total_decode_us: wrapped_sum(self.total_decode_us, t.decode_us),
            total_transform_us: wrapped_sum(self.total_transform_us, t.transform_us),
            total_output_us: wrapped_sum(self.total_output_us, t.output_us),
            total_preview_encode_us: match t.preview_encode_us {
                Some(us) => wrapped_sum(self.total_preview_encode_us, us),
                None => self.total_preview_encode_us,
            },
            preview_frames_encoded: match t.preview_encode_us {
                Some(_) => wrapped_sum(self.preview_frames_encoded, 1),
                None => self.preview_frames_encoded,
            },
        }
    }

    /// Counts one frame and the time its stages took.
    pub fn record_frame_stats(&mut self, timings: FrameTimings)
        ensures
            *final(self) == old(self).with_frame(timings),
            timings.preview_encode_us.is_none() ==> final(self).total_preview_encode_us == old(
                self,
            ).total_preview_encode_us && final(self).preview_frames_encoded == old(
                self,
            ).preview_frames_encoded,
    {
        self.frames_processed = add_wrapping(self.frames_processed, 1);
        self.total_frame_wait_us = add_wrapping(self.total_frame_wait_us, timings.frame_wait_us);
        self.total_decode_us = add_wrapping(self.total_decode_us, timings.decode_us);
        self.total_transform_us = add_wrapping(self.total_transform_us, timings.transform_us);
        self.total_output_us = add_wrapping(self.total_output_us, timings.output_us);
        match timings.preview_encode_us {
            Some(us) => {
                self.total_preview_encode_us = add_wrapping(self.total_preview_encode_us, us);
                self.preview_frames_encoded = add_wrapping(self.preview_frames_encoded, 1);
            },
            None => {},
        }
    }

    /// Puts every counter back to zero.
    pub fn reset(&mut self)
        ensures
            *final(self) == FrameStats::zero(),
    {
        *self = FrameStats::default();
    }
}

impl FrameStats {
    /// The counters after a run of frames, each recorded once, in order.
    pub open spec fn after_frames(self, frames: Seq<FrameTimings>) -> FrameStats
        decreases frames.len(),
    {
        if frames.len() == 0 {
            self
        } else {
            self.after_frames(frames.drop_last()).with_frame(frames.last())
        }
    }
}

/// How many frames of a run had previews encoded.
pub open spec fn previews_in(frames: Seq<FrameTimings>) -> nat
    decreases frames.len(),
{
    if frames.len() == 0 {
        0
    } else if frames.last().preview_encode_us.is_some() {
        previews_in(frames.drop_last()) + 1
    } else {
        previews_in(frames.drop_last())
    }
}

/// Every recorded frame counts once: after a run of frames the frame
/// counter has advanced by the length of the run, and the counter of
/// preview frames by the number of frames that had previews (both modulo
/// the counters' range).
pub proof fn lemma_frames_counted(stats: FrameStats, frames: Seq<FrameTimings>)
    ensures
        stats.after_frames(frames).frames_processed as int == (stats.frames_processed + frames.len())
            % 0x1_0000_0000_0000_0000,
        stats.after_frames(frames).preview_frames_encoded as int == (stats.preview_frames_encoded
            + previews_in(frames)) % 0x1_0000_0000_0000_0000,
        previews_in(frames) <= frames.len(),
    decreases frames.len(),
{
    if frames.len() > 0 {
        lemma_frames_counted(stats, frames.drop_last());
    }
}

} // verus!
