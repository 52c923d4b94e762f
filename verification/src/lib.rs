//! Kabsch-Umeyama point-set registration.
//!
//! The estimator aligns two paired point sets by an optimal similarity
//! transformation (rotation, optional uniform scale, translation). This
//! crate verifies the discrete parts of that computation: the point-set
//! adapter with its validated row-major layout, the sign-correction and
//! rank branching that keep the recovered rotation proper, and the
//! assembly of the homogeneous transform matrix.

pub mod array2;
pub mod estimator;

pub use array2::Array2;
pub use array2::LengthMismatch;
