//! Hashed El Gamal encryption over the BLS12-381 G1 group, with verified
//! ciphertext algebra.

pub mod group;
pub mod hashed_el_gamal;
