//! Orthogonal projections to latent structures (OPLS) for sparse data and dense responses.
//!
//! A model separates the variation of the data into predictive components, which correlate
//! with the responses, and orthogonal components, which do not.  [`model`] fits models and
//! predicts with them, [`backend`] multiplies by data that are centered and deflated on the
//! fly, and [`laws`] holds the theorems about both.
//!
//! All algorithms are written over [`scalar::Scalar`], a number type.  [`residue::Residue`]
//! is one without rounding.
pub mod backend;
pub mod laws;
pub mod matrix;
pub mod model;
pub mod nipals;
pub mod preprocess;
pub mod residue;
pub mod scalar;
pub mod solve;
pub mod sparse;
pub mod vector;
