use vstd::prelude::*;

verus! {

/// How a stored evaluation bounds the true one: exact, at least, or at most.
#[derive(Clone, Debug, Copy, PartialEq, Eq, Structural)]
pub enum Flag {
    Exact,
    Lowerbound,
    Upperbound,
}

} // verus!
