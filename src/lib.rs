//! Stacks rectangular crops of several source images, top to bottom in the
//! order a job lists them, into one canvas, and encodes that canvas as PNG or
//! JPEG.
//!
//! The pixel work (cropping, fan-in ordering, compositing, flattening for
//! JPEG) is verified here; decoding and encoding go through the `image` crate.
//! Reading source files, running the loaders concurrently and writing the
//! result are left to the caller, which hands each entry's bytes to
//! `load_entry` and the outcomes, in whatever order they finished, to
//! `finish`.

mod codec;
mod compose;
mod error;
mod event;
mod gather;
mod model;
mod pipeline;
mod raster;

pub use codec::{decode_image, encode_canvas, flatten_on_black};
pub use compose::{compose, lemma_swap_changes_canvas};
pub use error::{EncodeError, JobError, LoadError};
pub use event::SubcatEvent;
pub use gather::{gather, lemma_gather_order_independent, Arrival};
pub use model::{
    extension, output_file_name, Format, GenerateEventArgs, ImageInfo, MenuDisableEventArgs,
    PngCompressType,
};
pub use pipeline::{
    check_job, crop_entry, finish, finish_crops, generate, lemma_crop_out_of_bounds_fails,
    lemma_empty_job_fails, lemma_unreadable_source_fails, load_entry,
};
pub use raster::{Raster, RasterView};
