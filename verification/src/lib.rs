//! Image analysis engine for a desktop picture viewer: focus-peaking edge
//! overlays and RGB/luminance histograms, with request coalescing and
//! cooperative cancellation.

pub mod buffer;
pub mod cancel;
pub mod cli;
pub mod downsample;
pub mod error;
pub mod histogram;
pub mod navigation;
pub mod peaking;
pub mod settings;
pub mod sobel;
pub mod trace;
pub mod version;
