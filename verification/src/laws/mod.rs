//! Theorems about the solver.
//!
//! They are stated over the specification functions that the contracts of the solver use.
//! Those that say which operations lead to a result hold for every number type; the
//! algebraic ones are about number types without rounding.
pub mod algebra;
pub mod components;
pub mod corrections;
pub mod device;
pub mod elements;
pub mod equivalence;
pub mod implicit;
pub mod inputs;
pub mod inverse;
pub mod iteration;
pub mod orthogonality;
pub mod peeling;
pub mod prediction;
pub mod preprocessing;
pub mod products;
pub mod residuals;
pub mod residues;
pub mod rounds;
pub mod span;
pub mod stages;
pub mod training;
pub mod weights;
