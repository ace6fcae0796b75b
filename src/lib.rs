//! A software rendering pipeline with verified integer cores: colour
//! algebra, a depth-tested framebuffer, primitive assembly, triangle
//! rasterization and the colour decisions of the procedural shaders.
pub mod color;
pub mod framebuffer;
pub mod raster;
pub mod random;
pub mod shaders;
