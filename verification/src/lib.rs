//! Speaker diarization around two predictors that this crate does not run itself: a
//! classifier that tells speech from silence frame by frame, and a model that turns
//! a stretch of speech into an embedding.
//!
//! [`segment`] cuts audio into speech segments, one pull at a time: it hands out the
//! windows to classify, takes the classes back and runs them through the state
//! machine of [`machine`], as laid out in [`window`]. [`classify`] picks the class of
//! a frame from its scores. [`identify`] clusters embeddings into speakers from the
//! similarity scores it is given. [`plda`] checks the shapes of a projector's
//! parameters.
//!
//! No floating-point number enters the crate. Scores and embedding components come
//! in as the integers that [`codes`] makes of their bits, which order as the numbers
//! do, with zero for zero; offsets and lengths are counted in samples.

pub mod classify;
pub mod codes;
pub mod config;
pub mod error;
pub mod identify;
pub mod machine;
pub mod plda;
pub mod segment;
pub mod wav;
pub mod window;

pub use classify::{classify_frames, find_max_index};
pub use config::{SegmentationConfig, WindowMode};
pub use error::{ConfigError, DiarizeError, InferenceError};
pub use identify::EmbeddingManager;
pub use machine::{FrameDecision, Machine};
pub use plda::{embedding_dim, PldaShape};
pub use segment::{collect_segments, get_segments, Poll, Segment, SegmentStream};
pub use wav::Wav;
