//! Image processing with plugins: the pixel logic of the blur and mirror
//! plugins, the checks that a frame handed to a plugin goes through, and the
//! decisions of the processor that loads a plugin and runs it on an image.

pub mod frame;
pub mod pixels;
pub mod mirror;
pub mod blur;
pub mod params;
pub mod error;
pub mod plugin;
pub mod pipeline;
