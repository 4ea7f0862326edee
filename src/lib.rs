//! Montgomery-form arithmetic over the 256-bit BN prime field and its tower
//! extensions, with batched primitives over slices of elements.
pub mod constants;
pub mod field;
pub mod gfp;
pub mod gfp12;
pub mod gfp2;
pub mod gfp6;
pub mod laws;
pub mod limbs;
pub mod mont;
pub mod registers;
