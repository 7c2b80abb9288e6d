use vstd::prelude::*;

verus! {

/// The kinds of value that a template computes with.
#[derive(Debug, Clone, Copy, PartialEq, Eq, Structural)]
pub enum ValueType {
    String,
    Number,
    Array,
    Dict,
    Bool,
    Null,
    Func,
    Image,
}

} // verus!
