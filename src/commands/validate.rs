use vstd::prelude::*;

verus! {

/// The command that prints the loaded catalogues.
pub struct Command {}

} // verus!
