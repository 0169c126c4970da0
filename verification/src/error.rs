//! The error taxonomy. Every failure aborts the conversion run that
//! raised it; no error is downgraded to a default value.

use vstd::prelude::*;

verus! {

#[derive(Debug, Clone, Copy, PartialEq, Eq, Structural)]
pub enum GenError {
    /// The file does not match the expected grammar: wrong section
    /// header, unparseable numeric field, or a declared count that
    /// disagrees with the body. Carries a line index when practical.
    FormatError { line: usize },
    /// A bonded term references an atom id that does not exist.
    ReferenceError { id: usize },
    /// Hydrogen classification requires more heavy neighbors than the
    /// graph provides around the given atom.
    TopologyInconsistency { atom_id: usize },
    /// Unsupported force-field name, a connector id outside its declared
    /// boundary set, or a connector without an override name.
    ConfigError,
}

} // verus!
