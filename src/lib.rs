//! A wallpaper daemon's rendering core: the transition kernel, the per-output
//! transition manager, the control-plane decisions and the preprocessing of
//! images into raw per-output pixel buffers.
pub mod cache;
pub mod fade;
pub mod kernel;
pub mod manager;
pub mod monitors;
pub mod preprocess;
pub mod protocol;
pub mod text;
