#![verifier::loop_isolation(false)]
//! A software renderer for a small animatable scene-description language:
//! scene text is parsed into commands and per-variable animation tables,
//! time-varying values are evaluated per frame, and point, line, triangle
//! and mesh primitives are rasterized into an RGBA byte buffer.
//!
//! Scalar scene parameters (coordinates, times, interpolation endpoints) are
//! carried as opaque 32-bit patterns; the arithmetic on them is the frame
//! driver's business, while every structural decision — parsing, animation
//! bookkeeping, segment selection and rasterization — is verified here.

pub mod data;
pub mod draw;
pub mod line;
pub mod parser;
pub mod scene;
pub mod tri;
