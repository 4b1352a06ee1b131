//! Why a query could not be run.
use vstd::prelude::*;

verus! {

/// The failure of a query, as whoever ran into it describes it.
#[derive(Debug)]
pub struct Error {
    pub message: String,
}

} // verus!
