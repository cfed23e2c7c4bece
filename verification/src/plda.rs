use vstd::prelude::*;
use crate::error::ConfigError;

verus! {

/// The shapes of the parameters of the discriminative projector, as loaded.
///
/// The projector takes a raw embedding, subtracts `center1`, multiplies by the
/// transpose of `whiten`, subtracts `center2`, multiplies by `project` and keeps the
/// first `output_dim` components.
#[derive(Clone, Copy, Debug)]
pub struct PldaShape {
    /// Length of the first centre.
    pub center1: usize,
    /// Rows of the whitening matrix.
    pub whiten_rows: usize,
    /// Columns of the whitening matrix.
    pub whiten_cols: usize,
    /// Length of the second centre.
    pub center2: usize,
    /// Rows of the projection matrix.
    pub project_rows: usize,
    /// Columns of the projection matrix.
    pub project_cols: usize,
    /// Length of the scale vector.
    pub scale: usize,
    /// Number of components kept.
    pub output_dim: usize,
}

impl PldaShape {
    /// Each step of the transform fits the one before it: the whitening matrix has a
    /// row for each component of the first centre and a column for each of the
    /// second; the projection has a column for each component of the second centre
    /// and a row for each component of the scale vector.
    pub open spec fn chains(&self) -> bool {
        &&& self.whiten_rows == self.center1
        &&& self.whiten_cols == self.center2
        &&& self.project_cols == self.center2
        &&& self.project_rows == self.scale
    }

    /// What makes the parameters unusable, if anything does.
    pub open spec fn issue(&self) -> Option<ConfigError> {
        if !self.chains() {
            Some(ConfigError::ShapeMismatch)
        } else if self.output_dim > self.project_rows {
            Some(ConfigError::OutputDimTooLarge)
        } else {
            None
        }
    }

    /// Checks the shapes once, when the parameters are loaded.
    pub fn check(&self) -> (r: Result<(), ConfigError>)
        ensures
            r == (match self.issue() {
                Some(e) => Err::<(), ConfigError>(e),
                None => Ok(()),
            }),
    {
        if self.whiten_rows != self.center1 || self.whiten_cols != self.center2
            || self.project_cols != self.center2 || self.project_rows != self.scale {
            Err(ConfigError::ShapeMismatch)
        } else if self.output_dim > self.project_rows {
            Err(ConfigError::OutputDimTooLarge)
        } else {
            Ok(())
        }
    }
}

/// Length of the embeddings that the extractor gives without a projector.
pub const RAW_EMBEDDING_DIM: usize = 256;

/// Length of the embeddings that the extractor gives with a projector.
pub const PROJECTED_EMBEDDING_DIM: usize = 128;

/// Length of the embeddings that the extractor gives.
pub fn embedding_dim(projected: bool) -> (dim: usize)
    ensures
        dim == (if projected {
            PROJECTED_EMBEDDING_DIM
        } else {
            RAW_EMBEDDING_DIM
        }),
{
    if projected {
        PROJECTED_EMBEDDING_DIM
    } else {
        RAW_EMBEDDING_DIM
    }
}

} // verus!
