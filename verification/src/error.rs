use vstd::prelude::*;

verus! {

/// A parameter set that cannot be used; always found before any audio is touched.
#[derive(Clone, Copy, Debug, PartialEq, Eq, Structural)]
pub enum ConfigError {
    /// The sample rate is zero.
    ZeroSampleRate,
    /// A default window at this sample rate has more samples than a `usize` can count.
    SampleRateTooLarge,
    /// A window holds no samples.
    EmptyWindow,
    /// Consecutive windows overlap by a whole window or more, so they never advance.
    OverlapTooLarge,
    /// The shapes of the projector's parameters do not chain.
    ShapeMismatch,
    /// More output components are asked for than the projection has.
    OutputDimTooLarge,
}

/// A classifier or embedding answer that cannot be used.
#[derive(Clone, Copy, Debug, PartialEq, Eq, Structural)]
pub enum InferenceError {
    /// The model could not be run, or what it gave could not be read.
    ModelFailed,
    /// A frame came with no class scores at all.
    EmptyRow,
    /// A frame lies beyond the largest addressable sample offset.
    FrameOutOfRange,
    /// An answer arrived although no window was waiting for one.
    NoWindowPending,
    /// There are more answers than windows, or fewer.
    AnswerCountMismatch,
    /// The number of similarity scores differs from the number of speakers.
    ScoreCountMismatch,
    /// The embedding has another number of components than the speakers' centroids.
    DimensionMismatch,
}

/// Everything that can go wrong in the pipeline.
#[derive(Clone, Copy, Debug, PartialEq, Eq, Structural)]
pub enum DiarizeError {
    /// The parameters cannot be used.
    Config(ConfigError),
    /// The audio holds no samples.
    EmptyInput,
    /// An answer of a model cannot be used.
    Inference(InferenceError),
    /// The embedding is the zero vector, for which cosine similarity is undefined.
    DegenerateEmbedding,
}

} // verus!
