use vstd::prelude::*;

verus! {

/// An import of a live design block.
#[derive(Clone, Debug)]
pub struct ImportNode {}

/// A named constant of a live design block.
#[derive(Clone, Debug)]
pub struct ConstantNode {
    pub name: String,
    pub value: String,
}

} // verus!
