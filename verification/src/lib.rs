//! A brute-force Monte Carlo path tracer whose every step is proved.
//!
//! The renderer never touches a machine number itself. Channels, coordinates
//! and distances are values of a [`scalar::Scalar`], chance comes out of a
//! [`material::Sampler`], and geometry, surfaces and the camera come in
//! through [`hittable::Hittable`], [`material::Material`] and
//! [`camera::Camera`]. Every contract is stated over the specification
//! functions of these traits, so what is proved holds for whatever stands
//! behind them.
//!
//! - [`raytracer`] drives a render: pixel by pixel, sample by sample.
//! - [`shading`] follows one ray through its bounces.
//! - [`hittable`] holds a scene as a list, [`bvh`] as a tree of boxes that
//!   answers as the list does.
//! - [`textures`] give a surface its colours.
//! - [`picture`] and [`ppm`] hold the finished picture.
//! - [`fixed`] is an arithmetic and a sampler that need nothing from outside.

pub mod bvh;
pub mod camera;
pub mod color;
pub mod fixed;
pub mod hittable;
pub mod material;
pub mod picture;
pub mod ppm;
pub mod raytracer;
pub mod scalar;
pub mod shading;
pub mod textures;
pub mod vector;
