use vstd::prelude::*;

verus! {

/// Why a database export could not be read.
#[derive(Debug, Clone, Copy, PartialEq, Eq, Structural)]
pub enum PdbError {
    /// The underlying byte source could not be read.
    Io,
    /// The prologue or the table directory is inconsistent.
    MalformedHeader,
    /// A page lies outside the file, or its fields do not fit its size.
    MalformedPage,
    /// A present row slot violates its variant's layout.
    MalformedRow,
}

} // verus!
