//! Residue-template and hydrogen-reconstruction tables derived from a
//! small-molecule structure file and its bonded topology.
//!
//! The crate models the molecular bonding graph, classifies the hydrogens
//! attached to each heavy atom from its local connectivity, generates
//! collision-free hydrogen names, and prunes or renames topology entries
//! that cross a residue boundary.

pub mod boundary;
pub mod error;
pub mod hdb;
pub mod itp;
pub mod mol2;
pub mod text;
pub mod utils;
