//! A display-list rasterizer's core: assets rasterized to signed distance fields,
//! packed into a texture atlas, and display items batched into one vertex stream.
//! Windowing, the GPU, fonts and worker threads live with the caller.

pub mod assets;
pub mod atlas;
pub mod batch;
pub mod blur;
pub mod context;
pub mod display_list;
pub mod distance_field;
pub mod geometry;
pub mod job_server;
pub mod tga;
