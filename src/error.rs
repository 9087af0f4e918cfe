use vstd::prelude::*;

verus! {

/// Why one entry of a job could not be loaded.
#[derive(Clone, Copy, Debug, PartialEq, Eq, Structural)]
pub enum LoadError {
    /// The source file could not be read.
    Io,
    /// The bytes are not an image that can be decoded.
    Decode,
    /// The crop rectangle reaches past the decoded image.
    CropOutOfBounds,
}

/// Why the composite could not be encoded.
#[derive(Clone, Copy, Debug, PartialEq, Eq, Structural)]
pub enum EncodeError {
    /// The destination could not be written.
    Io,
    /// The encoder refused the canvas.
    Codec,
}

/// Why a job failed.
#[derive(Clone, Copy, Debug, PartialEq, Eq, Structural)]
pub enum JobError {
    /// The job lists no entries.
    Empty,
    /// A JPEG quality outside 1 to 100.
    InvalidQuality,
    /// The entry at `index` (in the job's order) failed to load.
    Load { index: usize, error: LoadError },
    /// The crops together are higher than a canvas can be.
    CanvasTooLarge,
    /// Encoding the canvas failed.
    Encode(EncodeError),
}

} // verus!
