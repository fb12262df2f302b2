//! Batch conversion of RGBA PNG and APNG images into palette-indexed images.
//!
//! The library holds the scheduling state of a run (the worklist and the
//! messages that workers send back), the selection of candidate files, and
//! the per-file transcoding steps around the colour quantizer: checking the
//! colour mode, configuring the quantizer, building one shared palette for an
//! animation and assembling the indexed output frame by frame.
use vstd::prelude::*;

pub mod error;
pub mod frame;
pub mod optimization;
pub mod pngquant;
pub mod quantizer;

pub use error::Error;
pub use frame::{BlendOp, DisposeOp, Frame};
pub use optimization::{Compression, Job, Optimization, Progress, SizeChange, Status, Work, WorkStatus};
pub use pngquant::{
    AnimationControl, ColorType, DecodedFrame, FrameControl, ImageInfo, IndexedFrame, IndexedPng,
    Pngquant, QuantCall, Quantized, Quantizer, Remapped, Rgba,
};

verus! {

/// Progress value of a finished item: the quantization phase counts for 100
/// and writing the output for 10 more.
pub const PROGRESS_CONSTANT: usize = 110;

} // verus!
