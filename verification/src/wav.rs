use vstd::prelude::*;
use crate::error::DiarizeError;
use crate::segment::{get_segments, SegmentStream, StreamState};
use crate::config::SegmentationConfig;

verus! {

/// Decoded mono audio: 16-bit PCM samples and the rate they were taken at.
#[derive(Debug)]
pub struct Wav {
    pub samples: Vec<i16>,
    pub sample_rate: u32,
}

impl Wav {
    /// Number of samples.
    pub fn n(&self) -> (n: usize)
        ensures
            n == self.samples@.len(),
    {
        self.samples.len()
    }

    /// A stream of the speech segments of this audio, with the default parameters
    /// for its sample rate.
    pub fn segments(&self) -> (r: Result<SegmentStream, DiarizeError>)
        ensures
            match r {
                Ok(stream) => SegmentationConfig::rate_issue(self.sample_rate) is None
                    && self.samples@.len() > 0 && stream.wf() && stream@ == StreamState::start(
                    SegmentationConfig::default_for(self.sample_rate),
                    self.samples@,
                ),
                Err(DiarizeError::Config(e)) => SegmentationConfig::rate_issue(self.sample_rate)
                    == Some(e),
                Err(DiarizeError::EmptyInput) => SegmentationConfig::rate_issue(self.sample_rate)
                    is None && self.samples@.len() == 0,
                Err(_) => false,
            },
    {
        get_segments(self.samples.as_slice(), self.sample_rate)
    }
}

} // verus!
