//! Content-aware image resizing by seam carving.
//!
//! A seam is a connected, one-pixel-wide path that crosses the whole image.
//! The image is driven towards its target size one seam at a time: the seam of
//! least cumulative energy is found by dynamic programming and then removed
//! (to shrink) or duplicated (to grow).

pub mod admission;
pub mod caption;
pub mod editor;
pub mod energy;
pub mod finder;
pub mod grid;
pub mod pipeline;
pub mod pixel;
pub mod resize;
pub mod seam;
