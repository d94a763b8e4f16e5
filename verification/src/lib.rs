//! Monophonic pitch histogram analysis.
//!
//! The pipeline takes a buffer of raw integer audio samples, slides
//! overlapping analysis frames across it, tapers each frame with a window,
//! picks the dominant bin of the frame's magnitude spectrum, quantizes the
//! bin frequency to the nearest equal-tempered pitch, and tallies how often
//! each pitch occurs. All quantities are fixed-point integers; the frequency
//! transform itself is left to the caller, which hands back one magnitude
//! spectrum per frame.

pub mod histogram;
pub mod peak;
pub mod pitch;
pub mod scan;
pub mod window;
