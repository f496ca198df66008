use vstd::prelude::*;

verus! {

/// A seat at the table, `0..4` in turn order.
#[derive(Debug, Clone, Copy, PartialEq, Eq, Hash, Structural)]
pub struct PlayerId(pub usize);

} // verus!
