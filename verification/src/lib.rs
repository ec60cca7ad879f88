//! Image transforms behind a fixed plugin boundary: the RGBA8 buffer model,
//! the flip and blur transforms, their JSON parameters, and the decisions of
//! the loader that binds a plugin library and calls its entry point.

pub mod blur;
pub mod json;
pub mod mirror;
pub mod pixels;
pub mod plugin_loader;
pub mod weights;
