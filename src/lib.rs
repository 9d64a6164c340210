//! A seeded starfield painter: small white stars from per-pixel trials, large
//! red and blue stars at uniform positions, and an optional constellation.

pub mod canvas;
pub mod shapes;
pub mod rng;
pub mod catalog;
pub mod generator;

pub use canvas::{Canvas, Rgba};
pub use generator::Generator;
