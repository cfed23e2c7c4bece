use vstd::prelude::*;
use crate::error::ConfigError;

verus! {

/// How consecutive classifier windows are laid over the audio.
#[derive(Clone, Copy, Debug, PartialEq, Eq, Structural)]
pub enum WindowMode {
    /// Windows follow one another without sharing samples.
    Tiling,
    /// Each window repeats the last `overlap` samples of the one before it.
    Overlapping { overlap: usize },
}

/// The fixed parameters of segmentation. Lengths are in samples, counts in frames.
#[derive(Clone, Copy, Debug)]
pub struct SegmentationConfig {
    /// Samples handed to the classifier at once.
    pub window_len: usize,
    /// How the windows follow one another.
    pub mode: WindowMode,
    /// Samples between two consecutive frames of the classifier's output.
    pub frame_stride: usize,
    /// Samples between the start of a window and its first output frame.
    pub frame_start: usize,
    /// Consecutive speech frames needed before a segment opens.
    pub start_hysteresis_frames: usize,
    /// Consecutive non-speech frames needed before an open segment closes.
    pub gap_tolerance_frames: usize,
    /// Shortest segment that is emitted.
    pub min_segment_len: usize,
    /// Samples by which a segment's start is moved back.
    pub start_buffer: usize,
    /// Samples by which a segment's end is moved forward.
    pub end_buffer: usize,
}

/// Seconds of audio in a default window.
pub const DEFAULT_WINDOW_SECONDS: usize = 10;

/// Seconds of audio that consecutive default windows share.
pub const DEFAULT_OVERLAP_SECONDS: usize = 1;

/// Samples between two consecutive output frames of the default classifier.
pub const DEFAULT_FRAME_STRIDE: usize = 270;

/// Samples between the start of a window and the first output frame of the default
/// classifier.
pub const DEFAULT_FRAME_START: usize = 721;

/// Milliseconds of speech needed to open a segment by default.
pub const DEFAULT_HYSTERESIS_MS: usize = 500;

/// Frames of silence needed to close a segment by default.
pub const DEFAULT_GAP_TOLERANCE_FRAMES: usize = 5;

/// Milliseconds that the shortest emitted segment lasts by default.
pub const DEFAULT_MIN_SEGMENT_MS: usize = 150;

/// Samples in the default window at the given rate.
pub open spec fn default_window_len(sample_rate: int) -> int {
    sample_rate * DEFAULT_WINDOW_SECONDS
}

/// Frames of speech needed at the given rate to open a segment: as many frames as
/// lie in the default time at the default stride, rounded to the nearest count (half
/// a frame rounds up), and at least one.
pub open spec fn default_hysteresis(sample_rate: int) -> int {
    let frames = (sample_rate * DEFAULT_HYSTERESIS_MS + 500 * DEFAULT_FRAME_STRIDE) / (1000
        * DEFAULT_FRAME_STRIDE);
    if frames < 1 {
        1
    } else {
        frames
    }
}

/// The least number of samples that lasts the default minimum at the given rate.
pub open spec fn default_min_segment_len(sample_rate: int) -> int {
    (sample_rate * DEFAULT_MIN_SEGMENT_MS + 999) / 1000
}

/// The default hysteresis is the number of frames nearest to the default time: it
/// differs from it by half a frame at most, unless that would leave no frame at all.
pub proof fn lemma_default_hysteresis_is_nearest(sample_rate: int)
    requires
        sample_rate >= 0,
    ensures
        default_hysteresis(sample_rate) >= 1,
        default_hysteresis(sample_rate) > 1 ==> {
            // In thousandths of a sample: the time asked for, and the frames given.
            let asked = sample_rate * DEFAULT_HYSTERESIS_MS;
            let given = default_hysteresis(sample_rate) * 1000 * DEFAULT_FRAME_STRIDE;
            given - 500 * DEFAULT_FRAME_STRIDE <= asked < given + 500 * DEFAULT_FRAME_STRIDE
        },
{
    let frames = (sample_rate * 500 + 135000) / 270000;
    assert(sample_rate * DEFAULT_HYSTERESIS_MS == sample_rate * 500) by (nonlinear_arith)
        requires
            DEFAULT_HYSTERESIS_MS == 500,
    ;
    assert(default_hysteresis(sample_rate) == (if frames < 1 {
        1
    } else {
        frames
    }));
    assert(default_hysteresis(sample_rate) * 1000 * DEFAULT_FRAME_STRIDE == default_hysteresis(
        sample_rate,
    ) * 270000) by (nonlinear_arith)
        requires
            DEFAULT_FRAME_STRIDE == 270,
    ;
}

/// The default minimum lasts the default time, and no shorter length does.
pub proof fn lemma_default_min_segment_len_is_least(sample_rate: int)
    requires
        sample_rate >= 0,
    ensures
        default_min_segment_len(sample_rate) * 1000 >= sample_rate * DEFAULT_MIN_SEGMENT_MS,
        (default_min_segment_len(sample_rate) - 1) * 1000 < sample_rate * DEFAULT_MIN_SEGMENT_MS,
{
    assert(sample_rate * DEFAULT_MIN_SEGMENT_MS == sample_rate * 150) by (nonlinear_arith)
        requires
            DEFAULT_MIN_SEGMENT_MS == 150,
    ;
}

impl SegmentationConfig {
    /// Samples by which each window starts after the one before it.
    pub open spec fn step(&self) -> int {
        match self.mode {
            WindowMode::Tiling => self.window_len as int,
            WindowMode::Overlapping { overlap } => self.window_len - overlap,
        }
    }

    /// Whether frames at or before the last processed offset are dropped.
    pub open spec fn dedups(&self) -> bool {
        self.mode is Overlapping
    }

    /// What makes the parameters unusable, if anything does: a window must hold
    /// samples, and each window must start after the one before it.
    pub open spec fn issue(&self) -> Option<ConfigError> {
        if self.window_len == 0 {
            Some(ConfigError::EmptyWindow)
        } else if self.step() <= 0 {
            Some(ConfigError::OverlapTooLarge)
        } else {
            None
        }
    }

    /// The parameters are usable.
    pub open spec fn wf(&self) -> bool {
        self.issue() is None
    }

    /// What makes a sample rate unusable, if anything does: it must be positive, and
    /// the default window at that rate must fit a `usize`.
    pub open spec fn rate_issue(sample_rate: u32) -> Option<ConfigError> {
        if sample_rate == 0 {
            Some(ConfigError::ZeroSampleRate)
        } else if default_window_len(sample_rate as int) > usize::MAX {
            Some(ConfigError::SampleRateTooLarge)
        } else {
            None
        }
    }

    /// The speech run length at which a segment opens; a threshold of zero acts as one.
    pub open spec fn hysteresis(&self) -> int {
        if self.start_hysteresis_frames == 0 { 1 } else { self.start_hysteresis_frames as int }
    }

    /// The silence run length at which a segment closes; a tolerance of zero acts as one.
    pub open spec fn gap_tolerance(&self) -> int {
        if self.gap_tolerance_frames == 0 { 1 } else { self.gap_tolerance_frames as int }
    }

    /// The parameters used for audio at `sample_rate`: overlapping windows and the
    /// frames of the default classifier, with the default times turned into samples
    /// and frames at that rate, and no buffers.
    pub open spec fn default_for(sample_rate: u32) -> SegmentationConfig {
        SegmentationConfig {
            window_len: default_window_len(sample_rate as int) as usize,
            mode: WindowMode::Overlapping {
                overlap: (sample_rate * DEFAULT_OVERLAP_SECONDS) as usize,
            },
            frame_stride: DEFAULT_FRAME_STRIDE,
            frame_start: DEFAULT_FRAME_START,
            start_hysteresis_frames: default_hysteresis(sample_rate as int) as usize,
            gap_tolerance_frames: DEFAULT_GAP_TOLERANCE_FRAMES,
            min_segment_len: default_min_segment_len(sample_rate as int) as usize,
            start_buffer: 0,
            end_buffer: 0,
        }
    }

    /// Checks that the parameters are usable.
    pub fn check(&self) -> (r: Result<(), ConfigError>)
        ensures
            r == (match self.issue() {
                Some(e) => Err::<(), ConfigError>(e),
                None => Ok(()),
            }),
    {
        if self.window_len == 0 {
            return Err(ConfigError::EmptyWindow);
        }
        match self.mode {
            WindowMode::Tiling => Ok(()),
            WindowMode::Overlapping { overlap } => {
                if overlap >= self.window_len {
                    Err(ConfigError::OverlapTooLarge)
                } else {
                    Ok(())
                }
            },
        }
    }

    /// Samples by which each window starts after the one before it; 0 where the
    /// windows do not advance.
    pub fn step_len(&self) -> (s: usize)
        ensures
            s == (if self.step() > 0 {
                self.step()
            } else {
                0
            }),
    {
        match self.mode {
            WindowMode::Tiling => self.window_len,
            WindowMode::Overlapping { overlap } => {
                if overlap < self.window_len {
                    self.window_len - overlap
                } else {
                    0
                }
            },
        }
    }

    /// The default parameters for audio at `sample_rate`.
    pub fn for_sample_rate(sample_rate: u32) -> (r: Result<SegmentationConfig, ConfigError>)
        ensures
            r == (match Self::rate_issue(sample_rate) {
                Some(e) => Err::<SegmentationConfig, ConfigError>(e),
                None => Ok(Self::default_for(sample_rate)),
            }),
            r is Ok ==> r->Ok_0.wf(),
    {
        if sample_rate == 0 {
            return Err(ConfigError::ZeroSampleRate);
        }
        let rate: usize = sample_rate as usize;
        let window_len: usize = match rate.checked_mul(DEFAULT_WINDOW_SECONDS) {
            Some(w) => w,
            None => {
                return Err(ConfigError::SampleRateTooLarge);
            },
        };
        let wide: u64 = sample_rate as u64;
        let stride: u64 = DEFAULT_FRAME_STRIDE as u64;
        let hysteresis_ms: u64 = DEFAULT_HYSTERESIS_MS as u64;
        let min_ms: u64 = DEFAULT_MIN_SEGMENT_MS as u64;
        proof {
            assert(sample_rate * DEFAULT_HYSTERESIS_MS == wide * 500 && sample_rate
                * DEFAULT_MIN_SEGMENT_MS == wide * 150 && sample_rate * DEFAULT_WINDOW_SECONDS
                == rate * 10 && sample_rate * DEFAULT_OVERLAP_SECONDS == rate) by (nonlinear_arith)
                requires
                    sample_rate == wide,
                    sample_rate == rate,
                    DEFAULT_HYSTERESIS_MS == 500,
                    DEFAULT_MIN_SEGMENT_MS == 150,
                    DEFAULT_WINDOW_SECONDS == 10,
                    DEFAULT_OVERLAP_SECONDS == 1,
            ;
        }
        let frames: u64 = (wide * hysteresis_ms + 500 * stride) / (1000 * stride);
        let hysteresis: u64 = if frames < 1 { 1 } else { frames };
        let min_len: u64 = (wide * min_ms + 999) / 1000;
        Ok(
            SegmentationConfig {
                window_len,
                mode: WindowMode::Overlapping { overlap: rate * DEFAULT_OVERLAP_SECONDS },
                frame_stride: DEFAULT_FRAME_STRIDE,
                frame_start: DEFAULT_FRAME_START,
                start_hysteresis_frames: hysteresis as usize,
                gap_tolerance_frames: DEFAULT_GAP_TOLERANCE_FRAMES,
                min_segment_len: min_len as usize,
                start_buffer: 0,
                end_buffer: 0,
            },
        )
    }
}

} // verus!
