//! A small stochastic path tracer, modelled in Q16.16 fixed-point arithmetic.
//!
//! Every quantity the kernel computes with — positions, directions, colors,
//! ray parameters — is an `i64` holding a real value scaled by 2^16, so the
//! whole pipeline (camera ray generation, primitive intersection, material
//! scattering, the bounded bounce loop, multi-sample accumulation and gamma
//! encoding) is exact integer arithmetic with stated rounding, and is
//! verified end to end.  The per-pixel random number generator is the PCG
//! hash on `u32` state, reproduced bit for bit.

pub mod fixed;
pub mod vec3;
pub mod color;
pub mod rng;
pub mod ray;
pub mod material;
pub mod primitive;
pub mod scene;
pub mod trace;
pub mod camera;
pub mod render;
