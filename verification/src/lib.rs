//! Compilation of quantised neural-network computation graphs into
//! PLONK-style arithmetic-circuit layouts.
//!
//! The crate provides the fixed-point tensor kernel, the operator
//! catalogue with its uniform contracts, the scale / quantisation
//! arithmetic, the graph model with its forward pass, the lookup-table
//! manager and the row-accounting layout engine.  Everything here is
//! pure integer computation; reading models from disk and driving a
//! proving backend are left to thin adapters outside this crate.

pub mod graph;
pub mod layout;
pub mod lookup;
pub mod nonlin;
pub mod ops;
pub mod scale;
pub mod table;
pub mod tensor;
pub mod val;

