//! Frame-accurate duration statistics for a video container.
//!
//! The library holds the logic of a single-pass inspection: selecting the
//! packets of one video stream, keeping running statistics over the frames a
//! decoder hands back (frame count, last key-frame index, highest decode
//! timestamp), resolving the requested decoder thread count, and formatting
//! the final report. Opening the container and driving the actual decoder are
//! left to the binary around the library.

pub mod errors;
pub mod format;
pub mod report;
pub mod stats;
pub mod threads;
