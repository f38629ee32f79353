//! Verified core of a Waveshare 4.2" e-paper driver and its "now playing" renderer.
pub mod framebuffer;
pub mod bus;
pub mod ssd1683;
pub mod il0398;
pub mod canvas;
pub mod render;
pub mod backend;
pub mod firmware;
