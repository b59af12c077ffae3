//! Geometric intersection predicates in two equivalent forms: a scalar
//! reference form and a lane-parallel "wide" form, together with the
//! lane-packing pair enumerator that feeds columnar attribute tables to the
//! wide kernels.
//!
//! Attribute values are IEEE 754 single-precision numbers, carried here by
//! their 32-bit patterns so that every comparison the predicates make is
//! stated and proved over plain integers.  The arithmetic that produces
//! those values (differences, products, divisions) happens outside this
//! crate; everything downstream of it -- the comparison semantics, the slab
//! classification, the batching and pair enumeration -- is verified.

pub mod float_bits;
pub mod intersections;
pub mod ray;
pub mod shapes;
pub mod test_utils;
pub mod utils;
pub mod wide_intersections;
