//! The integer core of a sphere path tracer: how the frame and the sample
//! budget are split into render tasks, how a task fills its sub-image, how
//! finished sub-images are merged under a bounded number of workers, the
//! surface-scattering decisions of the materials, and the plain PPM encoding
//! of a quantized frame. Colour arithmetic is supplied by the caller.

pub mod image;
pub mod material;
pub mod ppm;
pub mod render_task;
pub mod renderer;

pub use image::Image;
pub use material::{Lambertian, Nothing, Scatter};
pub use ppm::{encode_ppm, Rgb};
pub use render_task::RenderTask;
pub use renderer::Renderer;
