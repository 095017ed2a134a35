//! The exact side of a small path tracer: the size of the image, the
//! raster that the renderer fills pixel by pixel and its plain-text PPM
//! encoding, the scene's closest-hit rule, the bounce logic of the color
//! integrator, and the diffuse material's attenuation rule. The arithmetic
//! on colors, rays and surfaces is supplied by the caller.
mod image;
mod integrator;
mod material;
mod ppm;
mod render;
mod scene;

pub use image::{image_height, Image, Rgb};
pub use integrator::{ray_color, Bounce};
pub use material::Lambertian;
pub use ppm::{push_decimal, push_header, push_pixel};
pub use render::{generate_img, ASPECT_H, ASPECT_W};
pub use scene::HittableList;
